//! What the edits of JSON text do to every text of a form: which part changes,
//! into what, and that all the rest stays.
use crate::laws_primitives;
use crate::laws_rewrite;
use crate::laws_text;
use crate::rewrite;
use crate::text;
use vstd::prelude::*;
use vstd::utf8::*;

verus! {

broadcast use vstd::string::group_string_axioms;

// ---------------------------------------------------------------------------
// Escaping
// ---------------------------------------------------------------------------

/// Escaping goes character by character: a backslash goes before each
/// backslash and each quote, and nothing else is changed.
pub proof fn escapes_are_character_by_character(a: Seq<char>, b: Seq<char>, c: char)
    ensures
        rewrite::escape_json(a + b) == rewrite::escape_json(a) + rewrite::escape_json(b),
        rewrite::escape_json(seq![c]) == if c == '\\' || c == '"' {
            seq!['\\', c]
        } else {
            seq![c]
        },
        rewrite::escape_json(Seq::empty()) == Seq::<char>::empty(),
    decreases b.len(),
{
    let none = Seq::<char>::empty();
    assert(seq![c].drop_last() =~= none);
    assert(rewrite::escape_json(none) =~= none);
    assert(rewrite::escape_json(seq![c]) =~= rewrite::escape_char(c));
    if b.len() == 0 {
        assert(a + b =~= a);
        assert(rewrite::escape_json(a) + none =~= rewrite::escape_json(a));
    } else {
        escapes_are_character_by_character(a, b.drop_last(), c);
        assert((a + b).drop_last() =~= a + b.drop_last());
        assert(rewrite::escape_json(a + b) =~= rewrite::escape_json(a) + rewrite::escape_json(b));
    }
}

/// Inside a JSON string a text is written character by character: five control
/// characters by a letter, the others by their number, a backslash and a quote
/// behind a backslash, and any other character as it is.
pub proof fn json_strings_are_character_by_character(a: Seq<char>, b: Seq<char>, c: char)
    ensures
        rewrite::json_text(a + b) == rewrite::json_text(a) + rewrite::json_text(b),
        rewrite::json_text(Seq::empty()) == Seq::<char>::empty(),
        ({
            let n = c as int;
            let high = if n < 16 {
                '0'
            } else {
                '1'
            };
            let low = if n % 16 < 10 {
                (48 + n % 16) as char
            } else {
                (55 + n % 16) as char
            };
            rewrite::json_text(seq![c]) == if n == 10 {
                seq!['\\', 'n']
            } else if n == 13 {
                seq!['\\', 'r']
            } else if n == 9 {
                seq!['\\', 't']
            } else if n == 8 {
                seq!['\\', 'b']
            } else if n == 12 {
                seq!['\\', 'f']
            } else if n < 32 {
                seq!['\\', 'u', '0', '0', high, low]
            } else if n == 34 || n == 92 {
                seq!['\\', c]
            } else {
                seq![c]
            }
        }),
    decreases b.len(),
{
    let none = Seq::<char>::empty();
    assert(seq![c].drop_last() =~= none);
    assert(rewrite::json_text(none) =~= none);
    assert(rewrite::json_text(seq![c]) =~= rewrite::json_char(c));
    if b.len() == 0 {
        assert(a + b =~= a);
        assert(rewrite::json_text(a) + none =~= rewrite::json_text(a));
    } else {
        json_strings_are_character_by_character(a, b.drop_last(), c);
        assert((a + b).drop_last() =~= a + b.drop_last());
        assert(rewrite::json_text(a + b) =~= rewrite::json_text(a) + rewrite::json_text(b));
    }
}

/// A text without backslashes and quotes is its own escaping.
pub proof fn plain_text_is_not_escaped(s: Seq<char>)
    requires
        !s.contains('\\'),
        !s.contains('"'),
    ensures
        rewrite::escape_json(s) == s,
    decreases s.len(),
{
    if s.len() > 0 {
        let front = s.drop_last();
        assert(s.contains(s.last()));
        assert(!front.contains('\\')) by {
            if front.contains('\\') {
                assert(s[front.index_of('\\')] == '\\');
            }
        }
        assert(!front.contains('"')) by {
            if front.contains('"') {
                assert(s[front.index_of('"')] == '"');
            }
        }
        plain_text_is_not_escaped(front);
        assert(front + seq![s.last()] =~= s);
    } else {
        assert(s =~= Seq::<char>::empty());
    }
}

// ---------------------------------------------------------------------------
// The value behind a key
// ---------------------------------------------------------------------------

/// The key does not stand in the front, nor across its end.
pub open spec fn no_earlier(front: Seq<char>, key: Seq<char>) -> bool {
    forall|j: int| 0 <= j < front.len() ==> !text::occurs_at(front + key, key, j)
}

/// A text with a quoted value behind a key.
pub open spec fn with_value(
    front: Seq<char>,
    key: Seq<char>,
    gap: Seq<char>,
    value: Seq<char>,
    rest: Seq<char>,
) -> Seq<char> {
    front + key + gap + seq!['"'] + value + seq!['"'] + rest
}

/// The quoted text behind a key is found, whatever stands between the two but
/// a quote.
proof fn quoted_value_is_found(
    front: Seq<char>,
    key: Seq<char>,
    gap: Seq<char>,
    value: Seq<char>,
    rest: Seq<char>,
)
    requires
        no_earlier(front, key),
        !gap.contains('"'),
        !value.contains('"'),
    ensures
        ({
            let open = (front + key + gap).len() as int + 1;
            let whole = with_value(front, key, gap, value, rest);
            &&& rewrite::quoted_after(whole, key, 0) == Some((open, open + value.len()))
            &&& whole.subrange(open, open + value.len()) == value
            &&& whole.skip(open + value.len() + 1) == rest
            &&& whole.take(open) == front + key + gap + seq!['"']
        }),
{
    let whole = with_value(front, key, gap, value, rest);
    let open = (front + key + gap).len() as int + 1;
    let behind = gap + seq!['"'] + value + seq!['"'] + rest;
    laws_primitives::found_behind_a_front(front, key, behind);
    assert(front + key + behind =~= whole);
    laws_primitives::item_behind_a_front(
        front + key,
        gap,
        '"',
        value + seq!['"'] + rest,
    );
    assert((front + key) + gap + seq!['"'] + (value + seq!['"'] + rest) =~= whole);
    laws_primitives::item_behind_a_front(front + key + gap + seq!['"'], value, '"', rest);
    assert((front + key + gap + seq!['"']) + value + seq!['"'] + rest =~= whole);
    assert(whole.subrange(open, open + value.len()) =~= value);
    assert(whole.skip(open + value.len() + 1) =~= rest);
    assert(whole.take(open) =~= front + key + gap + seq!['"']);
}

/// The string behind a key is the next quoted text, whatever stands between
/// them but a quote; where the key is not there, there is none.
pub proof fn values_are_the_next_quoted_text(
    front: Seq<char>,
    key: Seq<char>,
    gap: Seq<char>,
    value: Seq<char>,
    rest: Seq<char>,
)
    requires
        no_earlier(front, seq!['"'] + key + seq!['"']),
        !gap.contains('"'),
        !value.contains('"'),
    ensures
        rewrite::string_value(
            with_value(front, seq!['"'] + key + seq!['"'], gap, value, rest),
            key,
        ) == Some(value),
        // Without the closing quote, or without any, there is no value.
        rewrite::string_value(
            front + (seq!['"'] + key + seq!['"']) + gap + seq!['"'] + value,
            key,
        ) is None,
        rewrite::string_value(front + (seq!['"'] + key + seq!['"']) + gap, key) is None,
{
    let pattern = seq!['"'] + key + seq!['"'];
    quoted_value_is_found(front, pattern, gap, value, rest);
    let open = front + pattern + gap + seq!['"'] + value;
    laws_primitives::found_behind_a_front(front, pattern, gap + seq!['"'] + value);
    assert(front + pattern + (gap + seq!['"'] + value) =~= open);
    laws_primitives::item_behind_a_front(front + pattern, gap, '"', value);
    assert((front + pattern) + gap + seq!['"'] + value =~= open);
    let at = (front + pattern + gap).len() as int;
    assert forall|j: int| at + 1 <= j < open.len() implies open[j] != '"' by {
        assert(value.contains(value[j - at - 1]));
    }
    text::position_absent(open, '"', at + 1);
    let short = front + pattern + gap;
    laws_primitives::found_behind_a_front(front, pattern, gap);
    let from = (front + pattern).len() as int;
    assert forall|j: int| from <= j < short.len() implies short[j] != '"' by {
        assert(gap.contains(gap[j - from]));
    }
    text::position_absent(short, '"', from);
}

/// Where a key does not stand there is no value.
pub proof fn no_key_no_value(text: Seq<char>, key: Seq<char>)
    requires
        forall|j: int| 0 <= j ==> !text::occurs_at(text, seq!['"'] + key + seq!['"'], j),
    ensures
        rewrite::string_value(text, key) is None,
{
    text::find_absent(text, seq!['"'] + key + seq!['"'], 0);
}

// ---------------------------------------------------------------------------
// The model
// ---------------------------------------------------------------------------

/// The model is replaced and nothing else: what stands before its value and
/// what stands behind it is there to the last character, however the text is
/// laid out.
pub proof fn only_the_model_is_replaced(
    front: Seq<char>,
    gap: Seq<char>,
    space: Seq<char>,
    value: Seq<char>,
    rest: Seq<char>,
    model: Seq<char>,
)
    requires
        no_earlier(front, "\"model\""@),
        !gap.contains(':'),
        !space.contains('"'),
        !value.contains('"'),
    ensures
        ({
            let before = front + "\"model\""@ + gap + seq![':'] + space + seq!['"'];
            let old_text = before + value + seq!['"'] + rest;
            let new_text = before + rewrite::escape_json(model) + seq!['"'] + rest;
            &&& rewrite::with_model(old_text, model) == new_text
            &&& rewrite::replaced_model(encode_utf8(old_text), model) == encode_utf8(new_text)
        }),
{
    reveal_strlit("\"model\"");
    let key = "\"model\""@;
    let before = front + key + gap + seq![':'] + space + seq!['"'];
    let whole = before + value + seq!['"'] + rest;
    let tail = seq![':'] + space + seq!['"'] + value + seq!['"'] + rest;
    laws_primitives::found_behind_a_front(front, key, gap + tail);
    assert(front + key + (gap + tail) =~= whole);
    let run = key + gap;
    assert(!run.contains(':')) by {
        if run.contains(':') {
            let i = run.index_of(':');
            if i >= key.len() {
                assert(gap.contains(gap[i - key.len()]));
            }
        }
    }
    laws_primitives::item_behind_a_front(
        front,
        run,
        ':',
        space + seq!['"'] + value + seq!['"'] + rest,
    );
    assert(front + run + seq![':'] + (space + seq!['"'] + value + seq!['"'] + rest) =~= whole);
    let colon = front + key + gap + seq![':'];
    laws_primitives::item_behind_a_front(colon, space, '"', value + seq!['"'] + rest);
    assert(colon + space + seq!['"'] + (value + seq!['"'] + rest) =~= whole);
    laws_primitives::item_behind_a_front(before, value, '"', rest);
    let open = before.len() as int;
    assert(rewrite::model_span(whole) == Some((open, open + value.len())));
    assert(whole.take(open) =~= before);
    assert(whole.skip(open + value.len()) =~= seq!['"'] + rest);
    assert(rewrite::with_model(whole, model) =~= before + rewrite::escape_json(model) + seq!['"']
        + rest);
    encode_utf8_valid_utf8(whole);
    encode_utf8_decode_utf8(whole);
}

/// A body that names no model stays as it is: without the key, without a colon
/// behind it, without a quote behind the colon, or without a closing quote.
pub proof fn bodies_without_a_model_stay(
    text: Seq<char>,
    front: Seq<char>,
    gap: Seq<char>,
    space: Seq<char>,
    value: Seq<char>,
    model: Seq<char>,
)
    requires
        no_earlier(front, "\"model\""@),
        !gap.contains(':'),
        !space.contains('"'),
        !value.contains('"'),
    ensures
        (forall|j: int| 0 <= j ==> !text::occurs_at(text, "\"model\""@, j)) ==> rewrite::with_model(
            text,
            model,
        ) == text,
        rewrite::with_model(front + "\"model\""@ + gap, model) == front + "\"model\""@ + gap,
        rewrite::with_model(front + "\"model\""@ + gap + seq![':'] + space, model) == front
            + "\"model\""@ + gap + seq![':'] + space,
        rewrite::with_model(
            front + "\"model\""@ + gap + seq![':'] + space + seq!['"'] + value,
            model,
        ) == front + "\"model\""@ + gap + seq![':'] + space + seq!['"'] + value,
{
    reveal_strlit("\"model\"");
    let key = "\"model\""@;
    if forall|j: int| 0 <= j ==> !text::occurs_at(text, key, j) {
        text::find_absent(text, key, 0);
    }
    let run = key + gap;
    assert forall|i: int| 0 <= i < run.len() implies run[i] != ':' by {
        if i >= key.len() {
            assert(gap.contains(gap[i - key.len()]));
        }
    }
    let n = front.len() as int;
    let one = front + key + gap;
    laws_primitives::found_behind_a_front(front, key, gap);
    assert forall|j: int| n <= j < one.len() implies one[j] != ':' by {
        assert(one[j] == run[j - n]);
    }
    text::position_absent(one, ':', n);
    let two = one + seq![':'] + space;
    laws_primitives::found_behind_a_front(front, key, gap + seq![':'] + space);
    assert(front + key + (gap + seq![':'] + space) =~= two);
    laws_primitives::item_behind_a_front(front, run, ':', space);
    assert(front + run + seq![':'] + space =~= two);
    assert forall|j: int| one.len() + 1 <= j < two.len() implies two[j] != '"' by {
        assert(space.contains(space[j - one.len() - 1]));
    }
    text::position_absent(two, '"', one.len() as int + 1);
    let three = two + seq!['"'] + value;
    laws_primitives::found_behind_a_front(front, key, gap + seq![':'] + space + seq!['"'] + value);
    assert(front + key + (gap + seq![':'] + space + seq!['"'] + value) =~= three);
    laws_primitives::item_behind_a_front(front, run, ':', space + seq!['"'] + value);
    assert(front + run + seq![':'] + (space + seq!['"'] + value) =~= three);
    laws_primitives::item_behind_a_front(one + seq![':'], space, '"', value);
    assert((one + seq![':']) + space + seq!['"'] + value =~= three);
    assert forall|j: int| two.len() + 1 <= j < three.len() implies three[j] != '"' by {
        assert(value.contains(value[j - two.len() - 1]));
    }
    text::position_absent(three, '"', two.len() as int + 1);
}

/// Bytes that are not UTF-8 are not touched, by either edit.
pub proof fn other_bytes_stay(body: Seq<u8>, model: Seq<char>, request_body: Seq<u8>)
    ensures
        !valid_utf8(body) ==> rewrite::replaced_model(body, model) == body
            && rewrite::rewritten(body, request_body) == body,
        !valid_utf8(request_body) ==> rewrite::rewritten(body, request_body) == body,
{
}

// ---------------------------------------------------------------------------
// The names of a request
// ---------------------------------------------------------------------------

/// Positions behind a front are those in what stands behind it.
proof fn position_behind(front: Seq<char>, rest: Seq<char>, x: char, from: int)
    requires
        0 <= from,
    ensures
        text::position(front + rest, x, front.len() + from) == match text::position(
            rest,
            x,
            from,
        ) {
            Some(at) => Some(front.len() + at),
            None => None,
        },
    decreases rest.len() - from,
{
    if from < rest.len() {
        assert((front + rest)[front.len() + from] == rest[from]);
        if rest[from] != x {
            position_behind(front, rest, x, from + 1);
        }
    }
}

/// White space behind a front is that in what stands behind it.
proof fn skip_space_behind(front: Seq<char>, rest: Seq<char>, from: int)
    requires
        0 <= from,
    ensures
        text::skip_space(front + rest, front.len() + from) == front.len() + text::skip_space(
            rest,
            from,
        ),
    decreases rest.len() - from,
{
    if from < rest.len() {
        assert((front + rest)[front.len() + from] == rest[from]);
        if text::is_whitespace(rest[from]) {
            skip_space_behind(front, rest, from + 1);
        }
    }
}

/// The names declared behind a front are those that what stands behind it
/// declares.
proof fn declared_names_behind(front: Seq<char>, rest: Seq<char>, from: int)
    requires
        0 <= from,
    ensures
        rewrite::declared_names(front + rest, front.len() + from) == rewrite::declared_names(
            rest,
            from,
        ),
    decreases rest.len() - from,
{
    let whole = front + rest;
    let key = rewrite::name_key();
    laws_text::find_behind(front, rest, key, from);
    rewrite::quoted_after_bounds(rest, key, from);
    text::find_is_least(rest, key, from);
    if let Some(at) = text::find_from(rest, key, from) {
        position_behind(front, rest, '"', at + key.len());
        text::position_is_least(rest, '"', at + key.len());
        if let Some(quote) = text::position(rest, '"', at + key.len()) {
            position_behind(front, rest, '"', quote + 1);
        }
    }
    if let Some((open, close)) = rewrite::quoted_after(rest, key, from) {
        assert(whole.subrange(front.len() + open, front.len() + close) =~= rest.subrange(
            open,
            close,
        ));
        declared_names_behind(front, rest, close + 1);
    }
}

/// A request declares the quoted text behind each key `"name"`, whatever
/// stands between the two but a quote, and goes on behind it.
pub proof fn names_are_declared_one_by_one(
    front: Seq<char>,
    gap: Seq<char>,
    name: Seq<char>,
    rest: Seq<char>,
)
    requires
        no_earlier(front, "\"name\""@),
        !gap.contains('"'),
        !name.contains('"'),
    ensures
        rewrite::declared_names(with_value(front, "\"name\""@, gap, name, rest), 0) == seq![name]
            + rewrite::declared_names(rest, 0),
{
    let key = "\"name\""@;
    let whole = with_value(front, key, gap, name, rest);
    quoted_value_is_found(front, key, gap, name, rest);
    let before = front + key + gap + seq!['"'] + name + seq!['"'];
    assert(before + rest =~= whole);
    declared_names_behind(before, rest, 0);
}

/// A request without the key declares nothing, nor does one whose key has no
/// quoted text behind it.
pub proof fn no_key_no_names(text: Seq<char>, front: Seq<char>, gap: Seq<char>, name: Seq<char>)
    requires
        no_earlier(front, "\"name\""@),
        !gap.contains('"'),
        !name.contains('"'),
    ensures
        (forall|j: int| 0 <= j ==> !text::occurs_at(text, "\"name\""@, j))
            ==> rewrite::declared_names(text, 0).len() == 0,
        rewrite::declared_names(front + "\"name\""@ + gap, 0).len() == 0,
        rewrite::declared_names(front + "\"name\""@ + gap + seq!['"'] + name, 0).len() == 0,
{
    reveal_strlit("name");
    reveal_strlit("\"name\"");
    let key = "\"name\""@;
    assert(key =~= seq!['"'] + "name"@ + seq!['"']);
    if forall|j: int| 0 <= j ==> !text::occurs_at(text, key, j) {
        text::find_absent(text, key, 0);
    }
    values_are_the_next_quoted_text(front, "name"@, gap, name, Seq::empty());
    assert(rewrite::quoted_key("name"@) =~= key);
}

// ---------------------------------------------------------------------------
// The names of a response
// ---------------------------------------------------------------------------

/// The text holds an upper-case letter.
pub open spec fn capital(s: Seq<char>) -> bool {
    exists|i: int| 0 <= i < s.len() && 65 <= (#[trigger] s[i]) as int <= 90
}

/// A name is restored exactly if it holds an upper-case letter.
proof fn upper_is_capital(s: Seq<char>)
    ensures
        rewrite::has_upper(s) == capital(s),
{
    if rewrite::has_upper(s) {
        let i = choose|i: int| 0 <= i < s.len() && 'A' <= #[trigger] s[i] <= 'Z';
        assert(65 <= s[i] as int <= 90);
    }
    if capital(s) {
        let i = choose|i: int| 0 <= i < s.len() && 65 <= (#[trigger] s[i]) as int <= 90;
        assert('A' <= s[i] <= 'Z');
    }
}

/// What stands up to a value of a key `"name"`: the key in any letter case,
/// anything up to a colon, white space, and the opening quote. The key does
/// not stand there any earlier.
pub open spec fn leads_to_value(
    front: Seq<char>,
    key: Seq<char>,
    gap: Seq<char>,
    space: Seq<char>,
) -> bool {
    &&& text::lower(key) == "\"name\""@
    &&& forall|j: int|
        0 <= j < front.len() ==> !text::occurs_at(text::lower(front + key), "\"name\""@, j)
    &&& !gap.contains(':')
    &&& laws_primitives::blank(space)
}

/// The text up to a value.
pub open spec fn lead(
    front: Seq<char>,
    key: Seq<char>,
    gap: Seq<char>,
    space: Seq<char>,
) -> Seq<char> {
    front + key + gap + seq![':'] + space + seq!['"']
}

/// Lower case may be taken of two texts or of both in a row.
proof fn lower_concat(a: Seq<char>, b: Seq<char>)
    ensures
        text::lower(a + b) == text::lower(a) + text::lower(b),
{
    assert(text::lower(a + b) =~= text::lower(a) + text::lower(b));
}

/// The key is found in any letter case.
proof fn key_is_found(front: Seq<char>, key: Seq<char>, behind: Seq<char>)
    requires
        text::lower(key) == "\"name\""@,
        forall|j: int|
            0 <= j < front.len() ==> !text::occurs_at(text::lower(front + key), "\"name\""@, j),
    ensures
        text::find_from(text::lower(front + key + behind), rewrite::name_key(), 0) == Some(
            front.len() as int,
        ),
        key.len() == rewrite::name_key().len(),
{
    lower_concat(front + key, behind);
    lower_concat(front, key);
    laws_primitives::found_behind_a_front(
        text::lower(front),
        "\"name\""@,
        text::lower(behind),
    );
}

/// Where the value of the first key stands.
proof fn value_is_found(
    front: Seq<char>,
    key: Seq<char>,
    gap: Seq<char>,
    space: Seq<char>,
    value: Seq<char>,
    rest: Seq<char>,
)
    requires
        leads_to_value(front, key, gap, space),
        !value.contains('"'),
    ensures
        ({
            let before = lead(front, key, gap, space);
            rewrite::name_value(before + value + seq!['"'] + rest, 0) == Some(
                (before.len() as int, (before.len() + value.len()) as int),
            )
        }),
{
    let before = lead(front, key, gap, space);
    let whole = before + value + seq!['"'] + rest;
    let behind = gap + seq![':'] + space + seq!['"'] + value + seq!['"'] + rest;
    key_is_found(front, key, behind);
    assert(front + key + behind =~= whole);
    laws_primitives::item_behind_a_front(
        front + key,
        gap,
        ':',
        space + seq!['"'] + value + seq!['"'] + rest,
    );
    assert((front + key) + gap + seq![':'] + (space + seq!['"'] + value + seq!['"'] + rest)
        =~= whole);
    let colon = front + key + gap + seq![':'];
    let quoted = seq!['"'] + value + seq!['"'] + rest;
    assert(!text::is_whitespace('"'));
    laws_primitives::skip_space_over(colon, space, quoted);
    assert(colon + space + quoted =~= whole);
    laws_primitives::item_behind_a_front(before, value, '"', rest);
}

/// The value of a key behind a front is that in what stands behind it.
proof fn name_value_behind(front: Seq<char>, rest: Seq<char>, cursor: int)
    requires
        0 <= cursor,
    ensures
        rewrite::name_value(front + rest, front.len() + cursor) == match rewrite::name_value(
            rest,
            cursor,
        ) {
            Some((open, close)) => Some((front.len() + open, front.len() + close)),
            None => None,
        },
{
    let key = rewrite::name_key();
    lower_concat(front, rest);
    laws_text::find_behind(text::lower(front), text::lower(rest), key, cursor);
    text::find_is_least(text::lower(rest), key, cursor);
    if let Some(at) = text::find_from(text::lower(rest), key, cursor) {
        position_behind(front, rest, ':', at + key.len());
        text::position_is_least(rest, ':', at + key.len());
        if let Some(colon) = text::position(rest, ':', at + key.len()) {
            skip_space_behind(front, rest, colon + 1);
            text::skip_space_bounds(rest, colon + 1);
            let quote = text::skip_space(rest, colon + 1);
            if quote < rest.len() {
                assert((front + rest)[front.len() + quote] == rest[quote]);
            }
            position_behind(front, rest, '"', quote + 1);
        }
    }
}

/// Restoring a name behind a front restores it in what stands behind it.
proof fn restore_name_behind(front: Seq<char>, rest: Seq<char>, name: Seq<char>, cursor: int)
    requires
        0 <= cursor,
    ensures
        rewrite::restore_name(front + rest, name, front.len() + cursor) == front
            + rewrite::restore_name(rest, name, cursor),
    decreases rest.len() - cursor,
{
    let whole = front + rest;
    let n = front.len() as int;
    name_value_behind(front, rest, cursor);
    rewrite::name_value_bounds(rest, cursor);
    if let Some((open, close)) = rewrite::name_value(rest, cursor) {
        assert(whole.subrange(n + open, n + close) =~= rest.subrange(open, close));
        if text::eq_ignore_case(rest.subrange(open, close), name) {
            laws_rewrite::overwrite_keeps_letters(rest, open, close, name);
            assert(rewrite::overwrite(whole, n + open, name) =~= front + rewrite::overwrite(
                rest,
                open,
                name,
            ));
            restore_name_behind(front, rewrite::overwrite(rest, open, name), name, close);
        } else {
            restore_name_behind(front, rest, name, close + 1);
        }
    }
}

/// What a value is once one name has been restored.
pub open spec fn respelled(value: Seq<char>, name: Seq<char>) -> Seq<char> {
    if text::eq_ignore_case(value, name) {
        name
    } else {
        value
    }
}

/// No key begins with the quote that ends a value.
pub open spec fn ends_cleanly(rest: Seq<char>) -> bool {
    !text::occurs_at(text::lower(seq!['"'] + rest), "\"name\""@, 0)
}

/// Restoring one name: the first value is spelled as the name if it is the
/// name up to letter case, and what stands behind it is restored in turn, from
/// the closing quote on where the value has got the name's spelling, and from
/// behind that quote where it has not.
pub proof fn one_name_is_restored(
    front: Seq<char>,
    key: Seq<char>,
    gap: Seq<char>,
    space: Seq<char>,
    value: Seq<char>,
    rest: Seq<char>,
    name: Seq<char>,
)
    requires
        leads_to_value(front, key, gap, space),
        !value.contains('"'),
    ensures
        ({
            let before = lead(front, key, gap, space);
            rewrite::restore_name(before + value + seq!['"'] + rest, name, 0)
                == if text::eq_ignore_case(value, name) {
                before + name + rewrite::restore_name(seq!['"'] + rest, name, 0)
            } else {
                before + value + seq!['"'] + rewrite::restore_name(rest, name, 0)
            }
        }),
{
    let before = lead(front, key, gap, space);
    let whole = before + value + seq!['"'] + rest;
    let open = before.len() as int;
    let close = open + value.len();
    let quote = seq!['"'];
    value_is_found(front, key, gap, space, value, rest);
    assert(whole.subrange(open, close) =~= value);
    if text::eq_ignore_case(value, name) {
        laws_rewrite::overwrite_keeps_letters(whole, open, close, name);
        let new = rewrite::overwrite(whole, open, name);
        let done = before + name;
        assert(new =~= done + (quote + rest));
        restore_name_behind(done, quote + rest, name, 0);
    } else {
        let done = before + value + quote;
        restore_name_behind(done, rest, name, 0);
    }
}

/// A quote that begins no key stays, and restoring goes on behind it.
proof fn restoring_goes_on_behind_a_quote(rest: Seq<char>, name: Seq<char>)
    requires
        ends_cleanly(rest),
    ensures
        rewrite::restore_name(seq!['"'] + rest, name, 0) == seq!['"'] + rewrite::restore_name(
            rest,
            name,
            0,
        ),
{
    let quote = seq!['"'];
    restore_name_behind(quote, rest, name, 0);
    // The quote begins no key, so the search may as well begin behind it.
    assert(text::find_from(text::lower(quote + rest), rewrite::name_key(), 0) == text::find_from(
        text::lower(quote + rest),
        rewrite::name_key(),
        1,
    )) by {
        reveal_strlit("\"name\"");
    }
    assert(rewrite::name_value(quote + rest, 0) == rewrite::name_value(quote + rest, 1));
    assert(rewrite::restore_name(quote + rest, name, 0) == rewrite::restore_name(
        quote + rest,
        name,
        1,
    ));
}

/// Names are restored one after the other, each of them if it holds an
/// upper-case letter.
pub proof fn names_are_restored_in_turn(
    out: Seq<char>,
    name: Seq<char>,
    more: Seq<Seq<char>>,
)
    ensures
        capital(name) ==> rewrite::restore_names(out, seq![name] + more) == rewrite::restore_names(
            rewrite::restore_name(out, name, 0),
            more,
        ),
        !capital(name) ==> rewrite::restore_names(out, seq![name] + more)
            == rewrite::restore_names(out, more),
        rewrite::restore_names(out, Seq::empty()) == out,
{
    upper_is_capital(name);
    assert((seq![name] + more).drop_first() =~= more);
}

/// What a value is once all names have been restored: each name with an
/// upper-case letter that is the value up to letter case gives it its
/// spelling.
pub open spec fn spelling(value: Seq<char>, names: Seq<Seq<char>>) -> Seq<char>
    decreases names.len(),
{
    if names.len() == 0 {
        value
    } else if capital(names[0]) {
        spelling(respelled(value, names[0]), names.drop_first())
    } else {
        spelling(value, names.drop_first())
    }
}

/// A text without quotes has none in another letter case.
proof fn no_quote_in_any_case(a: Seq<char>, b: Seq<char>)
    requires
        text::eq_ignore_case(a, b),
        !a.contains('"'),
    ensures
        !b.contains('"'),
{
    assert(text::lower(a).len() == text::lower(b).len());
    if b.contains('"') {
        let i = b.index_of('"');
        assert(text::lower(a)[i] == text::lower(b)[i]);
        laws_rewrite::lower_of_no_letter(a[i], '"');
        assert(a.contains(a[i]));
    }
}

/// Names are restored value by value: the value of the first key `"name"`,
/// whatever its letter case and whatever white space stands behind its colon,
/// gets its spelling, all that stands before it stays, and what stands behind
/// it is restored in the same way.
pub proof fn values_are_restored_one_by_one(
    front: Seq<char>,
    key: Seq<char>,
    gap: Seq<char>,
    space: Seq<char>,
    value: Seq<char>,
    rest: Seq<char>,
    names: Seq<Seq<char>>,
)
    requires
        leads_to_value(front, key, gap, space),
        !value.contains('"'),
        ends_cleanly(rest),
    ensures
        ({
            let before = lead(front, key, gap, space);
            rewrite::restore_names(before + value + seq!['"'] + rest, names) == before + spelling(
                value,
                names,
            ) + seq!['"'] + rewrite::restore_names(rest, names)
        }),
    decreases names.len(),
{
    if names.len() > 0 {
        let name = names[0];
        upper_is_capital(name);
        if capital(name) {
            one_name_is_restored(front, key, gap, space, value, rest, name);
            restoring_goes_on_behind_a_quote(rest, name);
            let next = rewrite::restore_name(rest, name, 0);
            let before = lead(front, key, gap, space);
            assert(before + name + (seq!['"'] + next) =~= before + name + seq!['"'] + next);
            laws_rewrite::restore_name_keeps_letters(rest, name, 0);
            lower_concat(seq!['"'], rest);
            lower_concat(seq!['"'], next);
            if text::eq_ignore_case(value, name) {
                no_quote_in_any_case(value, name);
            }
            values_are_restored_one_by_one(
                front,
                key,
                gap,
                space,
                respelled(value, name),
                next,
                names.drop_first(),
            );
        } else {
            values_are_restored_one_by_one(
                front,
                key,
                gap,
                space,
                value,
                rest,
                names.drop_first(),
            );
        }
    }
}

/// A value gets the spelling of the last name with an upper-case letter that
/// it is up to letter case, and keeps its own where there is none.
pub proof fn the_last_spelling_counts(value: Seq<char>, names: Seq<Seq<char>>, k: int)
    requires
        -1 <= k < names.len(),
        k >= 0 ==> capital(names[k]) && text::eq_ignore_case(value, names[k]),
        forall|j: int|
            k < j < names.len() && capital(#[trigger] names[j]) ==> !text::eq_ignore_case(
                value,
                names[j],
            ),
    ensures
        spelling(value, names) == if k >= 0 {
            names[k]
        } else {
            value
        },
    decreases names.len(),
{
    if names.len() > 0 {
        let rest = names.drop_first();
        let next = if capital(names[0]) {
            respelled(value, names[0])
        } else {
            value
        };
        let i = if k >= 0 {
            k - 1
        } else {
            -1
        };
        if k > 0 {
            assert(rest[i] == names[k]);
        }
        assert forall|j: int| i < j < rest.len() && capital(#[trigger] rest[j])
            implies !text::eq_ignore_case(next, rest[j]) by {
            assert(rest[j] == names[j + 1]);
        }
        the_last_spelling_counts(next, rest, i);
    }
}

/// A text in which no name can be found stays: it has no key, or its first key
/// has no colon behind it, or no quote behind the colon and white space, or no
/// closing quote.
pub proof fn texts_without_values_stay(
    text: Seq<char>,
    front: Seq<char>,
    key: Seq<char>,
    gap: Seq<char>,
    space: Seq<char>,
    other: Seq<char>,
    value: Seq<char>,
    names: Seq<Seq<char>>,
)
    requires
        leads_to_value(front, key, gap, space),
        other.len() > 0 ==> !text::is_whitespace(other[0]) && other[0] != '"',
        !value.contains('"'),
    ensures
        (forall|j: int| 0 <= j ==> !text::occurs_at(text::lower(text), "\"name\""@, j))
            ==> rewrite::restore_names(text, names) == text,
        rewrite::restore_names(front + key + gap, names) == front + key + gap,
        rewrite::restore_names(front + key + gap + seq![':'] + space + other, names) == front + key
            + gap + seq![':'] + space + other,
        rewrite::restore_names(lead(front, key, gap, space) + value, names) == lead(
            front,
            key,
            gap,
            space,
        ) + value,
{
    let start = (front + key).len() as int;
    if forall|j: int| 0 <= j ==> !text::occurs_at(text::lower(text), "\"name\""@, j) {
        text::find_absent(text::lower(text), "\"name\""@, 0);
        nothing_is_restored(text, names);
    }
    let one = front + key + gap;
    key_is_found(front, key, gap);
    assert forall|j: int| start <= j < one.len() implies one[j] != ':' by {
        assert(gap.contains(gap[j - start]));
    }
    text::position_absent(one, ':', start);
    nothing_is_restored(one, names);
    let colon = one + seq![':'];
    let two = colon + space + other;
    key_is_found(front, key, gap + seq![':'] + space + other);
    assert(front + key + (gap + seq![':'] + space + other) =~= two);
    laws_primitives::item_behind_a_front(front + key, gap, ':', space + other);
    assert((front + key) + gap + seq![':'] + (space + other) =~= two);
    laws_primitives::skip_space_over(colon, space, other);
    if other.len() > 0 {
        assert(two[(colon.len() + space.len()) as int] == other[0]);
    }
    nothing_is_restored(two, names);
    let before = lead(front, key, gap, space);
    let three = before + value;
    key_is_found(front, key, gap + seq![':'] + space + seq!['"'] + value);
    assert(front + key + (gap + seq![':'] + space + seq!['"'] + value) =~= three);
    laws_primitives::item_behind_a_front(front + key, gap, ':', space + seq!['"'] + value);
    assert((front + key) + gap + seq![':'] + (space + seq!['"'] + value) =~= three);
    assert(!text::is_whitespace('"'));
    laws_primitives::skip_space_over(colon, space, seq!['"'] + value);
    assert(colon + space + (seq!['"'] + value) =~= three);
    assert forall|j: int| before.len() <= j < three.len() implies three[j] != '"' by {
        assert(value.contains(value[j - before.len()]));
    }
    text::position_absent(three, '"', before.len() as int);
    nothing_is_restored(three, names);
}

/// Where no value is found no name is restored.
proof fn nothing_is_restored(out: Seq<char>, names: Seq<Seq<char>>)
    requires
        rewrite::name_value(out, 0) is None,
    ensures
        rewrite::restore_names(out, names) == out,
    decreases names.len(),
{
    if names.len() > 0 {
        nothing_is_restored(out, names.drop_first());
    }
}

/// A tool's name gets the request's spelling: for a request with a name behind
/// a key `"name"`, and a response with a value behind such a key that is that
/// name up to letter case, the value that the client gets is the name as the
/// request spells it. The name holds an upper-case letter, and no other name
/// of the request that does is the same up to letter case.
pub proof fn tools_are_named_as_in_the_request(
    request_front: Seq<char>,
    request_gap: Seq<char>,
    name: Seq<char>,
    request_rest: Seq<char>,
    front: Seq<char>,
    key: Seq<char>,
    gap: Seq<char>,
    space: Seq<char>,
    value: Seq<char>,
    rest: Seq<char>,
)
    requires
        no_earlier(request_front, "\"name\""@),
        !request_gap.contains('"'),
        !name.contains('"'),
        leads_to_value(front, key, gap, space),
        ends_cleanly(rest),
        text::eq_ignore_case(value, name),
        capital(name),
        forall|j: int|
            0 <= j < rewrite::declared_names(request_rest, 0).len() && capital(
                #[trigger] rewrite::declared_names(request_rest, 0)[j],
            ) ==> !text::eq_ignore_case(value, rewrite::declared_names(request_rest, 0)[j]),
    ensures
        ({
            let request = with_value(
                request_front,
                "\"name\""@,
                request_gap,
                name,
                request_rest,
            );
            let before = lead(front, key, gap, space);
            let names = seq![name] + rewrite::declared_names(request_rest, 0);
            rewrite::rewritten(
                encode_utf8(before + value + seq!['"'] + rest),
                encode_utf8(request),
            ) == encode_utf8(
                before + name + seq!['"'] + rewrite::restore_names(rest, names),
            )
        }),
{
    let request = with_value(request_front, "\"name\""@, request_gap, name, request_rest);
    let before = lead(front, key, gap, space);
    let out = before + value + seq!['"'] + rest;
    let more = rewrite::declared_names(request_rest, 0);
    let names = seq![name] + more;
    names_are_declared_one_by_one(request_front, request_gap, name, request_rest);
    assert(text::eq_ignore_case(name, value));
    no_quote_in_any_case(name, value);
    values_are_restored_one_by_one(front, key, gap, space, value, rest, names);
    assert forall|j: int| 0 < j < names.len() && capital(#[trigger] names[j])
        implies !text::eq_ignore_case(value, names[j]) by {
        assert(names[j] == more[j - 1]);
    }
    the_last_spelling_counts(value, names, 0);
    encode_utf8_valid_utf8(out);
    encode_utf8_decode_utf8(out);
    encode_utf8_valid_utf8(request);
    encode_utf8_decode_utf8(request);
}

/// A response is rewritten as a text, with the names that the request declares
/// as a text.
pub proof fn bodies_are_rewritten_as_texts(out: Seq<char>, request: Seq<char>)
    ensures
        rewrite::rewritten(encode_utf8(out), encode_utf8(request)) == encode_utf8(
            rewrite::restore_names(out, rewrite::declared_names(request, 0)),
        ),
{
    encode_utf8_valid_utf8(out);
    encode_utf8_decode_utf8(out);
    encode_utf8_valid_utf8(request);
    encode_utf8_decode_utf8(request);
}

} // verus!
