//! What holds of the edits in [`crate::rewrite`] for every text.
use crate::bytes;
use crate::numbers;
use crate::rewrite;
use crate::text;
use vstd::prelude::*;
use vstd::utf8::*;

verus! {

// ---------------------------------------------------------------------------
// Escaping
// ---------------------------------------------------------------------------

/// The number that the four hexadecimal digits from `from` on give.
pub open spec fn code_unit(s: Seq<char>, from: int) -> Option<nat> {
    if from + 4 > s.len() {
        None
    } else {
        numbers::digits_value(s.subrange(from, from + 4), 16)
    }
}

/// Reads the escape that a text begins with, as JSON has them: gives the
/// character that it stands for and its length. A character beyond the first
/// 65536 is escaped by two code units, neither of which may stand alone.
pub open spec fn read_escape(s: Seq<char>) -> Option<(char, int)> {
    if s.len() < 2 || s[0] != '\\' {
        None
    } else if s[1] == '"' || s[1] == '\\' || s[1] == '/' {
        Some((s[1], 2))
    } else if s[1] == 'b' {
        Some(('\u{8}', 2))
    } else if s[1] == 'f' {
        Some(('\u{c}', 2))
    } else if s[1] == 'n' {
        Some(('\n', 2))
    } else if s[1] == 'r' {
        Some(('\r', 2))
    } else if s[1] == 't' {
        Some(('\t', 2))
    } else if s[1] == 'u' {
        match code_unit(s, 2) {
            None => None,
            Some(unit) => if unit < 0xd800 || unit >= 0xe000 {
                Some((unit as char, 6))
            } else if unit >= 0xdc00 || s.len() < 12 || s[6] != '\\' || s[7] != 'u' {
                None
            } else {
                match code_unit(s, 8) {
                    None => None,
                    Some(low) => if 0xdc00 <= low < 0xe000 {
                        Some(((0x10000 + (unit - 0xd800) * 0x400 + (low - 0xdc00)) as char, 12))
                    } else {
                        None
                    },
                }
            },
        }
    } else {
        None
    }
}

/// Reads a JSON string from behind its opening quote: the first quote that is
/// not escaped ends it, an escape stands for a character, and a control
/// character that is not escaped may not stand in it. Gives the string's
/// content and what stands behind the closing quote.
pub open spec fn read_string(s: Seq<char>) -> Option<(Seq<char>, Seq<char>)>
    decreases s.len(),
{
    if s.len() == 0 || s[0] <= '\u{1f}' {
        None
    } else if s[0] == '"' {
        Some((Seq::empty(), s.skip(1)))
    } else if s[0] == '\\' {
        match read_escape(s) {
            None => None,
            Some((c, length)) => match read_string(s.skip(length)) {
                Some((content, rest)) => Some((seq![c] + content, rest)),
                None => None,
            },
        }
    } else {
        match read_string(s.skip(1)) {
            Some((content, rest)) => Some((seq![s[0]] + content, rest)),
            None => None,
        }
    }
}

/// A text is written into a JSON string character by character, from the front
/// as from the back.
proof fn json_text_first(s: Seq<char>)
    requires
        s.len() > 0,
    ensures
        rewrite::json_text(s) == rewrite::json_char(s[0]) + rewrite::json_text(s.drop_first()),
    decreases s.len(),
{
    let front = s.drop_last();
    let rest = s.drop_first();
    if s.len() == 1 {
        assert(front =~= Seq::<char>::empty());
        assert(rest =~= Seq::<char>::empty());
        assert(rewrite::json_text(front) =~= Seq::<char>::empty());
    } else {
        json_text_first(front);
        assert(front.drop_first() =~= rest.drop_last());
    }
    assert(rewrite::json_text(s) =~= rewrite::json_char(s[0]) + rewrite::json_text(rest));
}

/// A control character that is written by its number is read back.
proof fn control_number_reads_back(c: char, rest: Seq<char>)
    requires
        c <= '\u{1f}',
    ensures
        ({
            let high = numbers::digit_char(c as nat / 16);
            let low = numbers::digit_char(c as nat % 16);
            read_escape(seq!['\\', 'u', '0', '0', high, low] + rest) == Some((c, 6int))
        }),
{
    let high = numbers::digit_char(c as nat / 16);
    let low = numbers::digit_char(c as nat % 16);
    let whole = seq!['\\', 'u', '0', '0', high, low] + rest;
    let four = seq!['0', '0', high, low];
    assert(whole.subrange(2, 6) =~= four);
    assert(four.drop_last() =~= seq!['0', '0', high]);
    assert(seq!['0', '0', high].drop_last() =~= seq!['0', '0']);
    assert(seq!['0', '0'].drop_last() =~= seq!['0']);
    assert(seq!['0'].drop_last() =~= Seq::<char>::empty());
    assert(numbers::digit_value('0', 16) == Some(0nat));
    assert(numbers::digit_value(high, 16) == Some(c as nat / 16));
    assert(numbers::digit_value(low, 16) == Some(c as nat % 16));
    assert(numbers::digits_value(Seq::<char>::empty(), 16) == Some(0nat));
    assert(numbers::digits_value(seq!['0'], 16) == Some(0nat));
    assert(numbers::digits_value(seq!['0', '0'], 16) == Some(0nat));
    assert(numbers::digits_value(seq!['0', '0', high], 16) == Some(c as nat / 16));
    assert(numbers::digits_value(four, 16) == Some(c as nat));
}

/// A text between quotes is read back by a JSON reader, and the string ends at
/// the quote put behind it, whatever characters the text holds.
pub proof fn json_text_reads_back(s: Seq<char>, rest: Seq<char>)
    ensures
        read_string(rewrite::json_text(s) + seq!['"'] + rest) == Some((s, rest)),
    decreases s.len(),
{
    let whole = rewrite::json_text(s) + seq!['"'] + rest;
    if s.len() == 0 {
        assert(whole.skip(1) =~= rest);
        assert(s =~= Seq::<char>::empty());
    } else {
        let c = s[0];
        let head = rewrite::json_char(c);
        let tail = rewrite::json_text(s.drop_first()) + seq!['"'] + rest;
        json_text_first(s);
        json_text_reads_back(s.drop_first(), rest);
        assert(whole =~= head + tail);
        assert(whole.skip(head.len() as int) =~= tail);
        assert(seq![c] + s.drop_first() =~= s);
        assert(whole[0] == head[0]);
        if c <= '\u{1f}' && head.len() == 6 {
            control_number_reads_back(c, tail);
        } else if head.len() == 2 {
            assert(whole[1] == head[1]);
        }
    }
}

/// A text without control characters stands in a JSON string with its
/// backslashes and quotes escaped, so that it is read back.
pub proof fn escaped_text_reads_back(s: Seq<char>, rest: Seq<char>)
    requires
        forall|i: int| 0 <= i < s.len() ==> #[trigger] s[i] > '\u{1f}',
    ensures
        read_string(rewrite::escape_json(s) + seq!['"'] + rest) == Some((s, rest)),
{
    escape_is_json_text(s);
    json_text_reads_back(s, rest);
}

/// Where there is no control character, escaping backslashes and quotes is all
/// there is to do.
proof fn escape_is_json_text(s: Seq<char>)
    requires
        forall|i: int| 0 <= i < s.len() ==> #[trigger] s[i] > '\u{1f}',
    ensures
        rewrite::escape_json(s) == rewrite::json_text(s),
    decreases s.len(),
{
    if s.len() > 0 {
        escape_is_json_text(s.drop_last());
        assert(s.last() > '\u{1f}');
    }
}

// ---------------------------------------------------------------------------
// Letter case
// ---------------------------------------------------------------------------

/// A character that is no letter is lower case of itself alone.
pub proof fn lower_of_no_letter(c: char, x: char)
    requires
        !('A' <= x <= 'Z'),
        !('a' <= x <= 'z'),
    ensures
        text::ascii_lower(c) == x <==> c == x,
{
}

/// Where `position` finds a character that is no letter does not depend on
/// letter case.
pub proof fn position_case_blind(a: Seq<char>, b: Seq<char>, x: char, from: int)
    requires
        text::eq_ignore_case(a, b),
        !('A' <= x <= 'Z'),
        !('a' <= x <= 'z'),
    ensures
        text::position(a, x, from) == text::position(b, x, from),
    decreases a.len() - from,
{
    assert(text::lower(a).len() == text::lower(b).len());
    if 0 <= from < a.len() {
        assert(text::lower(a)[from] == text::lower(b)[from]);
        lower_of_no_letter(a[from], x);
        lower_of_no_letter(b[from], x);
        position_case_blind(a, b, x, from + 1);
    }
}

/// Where white space ends does not depend on letter case.
pub proof fn skip_space_case_blind(a: Seq<char>, b: Seq<char>, from: int)
    requires
        text::eq_ignore_case(a, b),
    ensures
        text::skip_space(a, from) == text::skip_space(b, from),
    decreases a.len() - from,
{
    assert(text::lower(a).len() == text::lower(b).len());
    if 0 <= from < a.len() {
        assert(text::lower(a)[from] == text::lower(b)[from]);
        assert(text::is_whitespace(a[from]) <==> text::is_whitespace(text::ascii_lower(a[from])));
        assert(text::is_whitespace(b[from]) <==> text::is_whitespace(text::ascii_lower(b[from])));
        skip_space_case_blind(a, b, from + 1);
    }
}

/// Where the values of `"name"` keys stand does not depend on letter case.
pub proof fn name_value_case_blind(a: Seq<char>, b: Seq<char>, cursor: int)
    requires
        text::eq_ignore_case(a, b),
        0 <= cursor,
    ensures
        rewrite::name_value(a, cursor) == rewrite::name_value(b, cursor),
{
    assert(text::lower(a).len() == text::lower(b).len());
    text::find_is_least(text::lower(a), rewrite::name_key(), cursor);
    if let Some(at) = text::find_from(text::lower(a), rewrite::name_key(), cursor) {
        let past = at + rewrite::name_key().len();
        position_case_blind(a, b, ':', past);
        text::position_is_least(a, ':', past);
        if let Some(colon) = text::position(a, ':', past) {
            skip_space_case_blind(a, b, colon + 1);
            text::skip_space_bounds(a, colon + 1);
            let quote = text::skip_space(a, colon + 1);
            if quote < a.len() {
                assert(text::lower(a)[quote] == text::lower(b)[quote]);
                lower_of_no_letter(a[quote], '"');
                lower_of_no_letter(b[quote], '"');
            }
            position_case_blind(a, b, '"', quote + 1);
        }
    }
}

/// The same span of two texts that differ in letter case differs in letter
/// case alone.
pub proof fn span_case_blind(a: Seq<char>, b: Seq<char>, from: int, to: int)
    requires
        text::eq_ignore_case(a, b),
        0 <= from <= to <= a.len(),
    ensures
        text::eq_ignore_case(a.subrange(from, to), b.subrange(from, to)),
{
    assert(text::lower(a).len() == text::lower(b).len());
    assert forall|i: int| 0 <= i < to - from implies text::lower(a.subrange(from, to))[i]
        == text::lower(b.subrange(from, to))[i] by {
        assert(text::lower(a)[from + i] == text::lower(b)[from + i]);
    }
    assert(text::lower(a.subrange(from, to)) =~= text::lower(b.subrange(from, to)));
}

/// Writing a name over a span that is the name up to letter case changes
/// nothing but letter case.
pub proof fn overwrite_keeps_letters(out: Seq<char>, open: int, close: int, name: Seq<char>)
    requires
        0 <= open <= close <= out.len(),
        text::eq_ignore_case(out.subrange(open, close), name),
    ensures
        close == open + name.len(),
        text::eq_ignore_case(rewrite::overwrite(out, open, name), out),
{
    let span = out.subrange(open, close);
    assert(text::lower(span).len() == text::lower(name).len());
    let new = rewrite::overwrite(out, open, name);
    assert forall|i: int| 0 <= i < out.len() implies text::lower(new)[i] == text::lower(out)[i] by {
        if open <= i < close {
            assert(text::lower(span)[i - open] == text::lower(name)[i - open]);
        }
    }
    assert(text::lower(new) =~= text::lower(out));
}

/// Restoring one name changes nothing but letter case.
pub proof fn restore_name_keeps_letters(out: Seq<char>, name: Seq<char>, cursor: int)
    ensures
        text::eq_ignore_case(rewrite::restore_name(out, name, cursor), out),
        rewrite::restore_name(out, name, cursor).len() == out.len(),
    decreases out.len() - cursor,
{
    if cursor >= 0 {
        if let Some((open, close)) = rewrite::name_value(out, cursor) {
            rewrite::name_value_bounds(out, cursor);
            if text::eq_ignore_case(out.subrange(open, close), name) {
                overwrite_keeps_letters(out, open, close, name);
                restore_name_keeps_letters(rewrite::overwrite(out, open, name), name, close);
            } else {
                restore_name_keeps_letters(out, name, close + 1);
            }
        }
    }
}

/// Rewriting changes nothing but letter case: a text and its rewriting are the
/// same up to the case of ASCII letters.
pub proof fn rewriting_keeps_letters(out: Seq<char>, names: Seq<Seq<char>>)
    ensures
        text::eq_ignore_case(rewrite::restore_names(out, names), out),
        rewrite::restore_names(out, names).len() == out.len(),
    decreases names.len(),
{
    if names.len() > 0 {
        restore_name_keeps_letters(out, names[0], 0);
        if rewrite::has_upper(names[0]) {
            rewriting_keeps_letters(rewrite::restore_name(out, names[0], 0), names.drop_first());
        } else {
            rewriting_keeps_letters(out, names.drop_first());
        }
    }
}

/// The rewriting of a response body is the body up to the case of ASCII
/// letters, byte for byte.
pub proof fn rewritten_keeps_bytes(body: Seq<u8>, request_body: Seq<u8>)
    ensures
        rewrite::rewritten(body, request_body).len() == body.len(),
        bytes::lower_bytes(rewrite::rewritten(body, request_body)) == bytes::lower_bytes(body),
{
    if valid_utf8(body) && valid_utf8(request_body) {
        let names = rewrite::declared_names(decode_utf8(request_body), 0);
        let old_text = decode_utf8(body);
        let new_text = rewrite::restore_names(old_text, names);
        rewriting_keeps_letters(old_text, names);
        decode_utf8_encode_utf8(body);
        bytes::encode_lower(old_text);
        bytes::encode_lower(new_text);
        assert(bytes::lower_bytes(encode_utf8(new_text)).len() == bytes::lower_bytes(body).len());
    }
}

/// Restoring a name in two texts that differ in letter case alone makes each
/// character the same in both, or leaves it as it was in both.
pub proof fn restore_name_agrees(a: Seq<char>, b: Seq<char>, name: Seq<char>, cursor: int, i: int)
    requires
        text::eq_ignore_case(a, b),
        0 <= i < a.len(),
    ensures
        ({
            let x = rewrite::restore_name(a, name, cursor);
            let y = rewrite::restore_name(b, name, cursor);
            x[i] == y[i] || (x[i] == a[i] && y[i] == b[i])
        }),
    decreases a.len() - cursor,
{
    assert(text::lower(a).len() == text::lower(b).len());
    if cursor >= 0 {
        name_value_case_blind(a, b, cursor);
        if let Some((open, close)) = rewrite::name_value(a, cursor) {
            rewrite::name_value_bounds(a, cursor);
            span_case_blind(a, b, open, close);
            if text::eq_ignore_case(a.subrange(open, close), name) {
                overwrite_keeps_letters(a, open, close, name);
                overwrite_keeps_letters(b, open, close, name);
                let a2 = rewrite::overwrite(a, open, name);
                let b2 = rewrite::overwrite(b, open, name);
                restore_name_agrees(a2, b2, name, close, i);
            } else {
                restore_name_agrees(a, b, name, close + 1, i);
            }
        }
    }
}

/// The same of a list of names: each character of the second text's rewriting
/// is that of the first's, or as it was.
pub proof fn restore_names_agree(a: Seq<char>, b: Seq<char>, names: Seq<Seq<char>>, i: int)
    requires
        text::eq_ignore_case(a, b),
        0 <= i < a.len(),
    ensures
        rewrite::restore_names(a, names)[i] == rewrite::restore_names(b, names)[i]
            || rewrite::restore_names(b, names)[i] == b[i],
    decreases names.len(),
{
    assert(text::lower(a).len() == text::lower(b).len());
    if names.len() > 0 {
        if rewrite::has_upper(names[0]) {
            let a2 = rewrite::restore_name(a, names[0], 0);
            let b2 = rewrite::restore_name(b, names[0], 0);
            restore_name_keeps_letters(a, names[0], 0);
            restore_name_keeps_letters(b, names[0], 0);
            restore_name_agrees(a, b, names[0], 0, i);
            restore_names_agree(a2, b2, names.drop_first(), i);
            if b2[i] != b[i] {
                assert(a2[i] == b2[i]);
                restore_names_same(a2, b2, names.drop_first(), i);
            }
        } else {
            restore_names_agree(a, b, names.drop_first(), i);
        }
    }
}

/// A character that two texts share is shared by their rewritings.
pub proof fn restore_names_same(a: Seq<char>, b: Seq<char>, names: Seq<Seq<char>>, i: int)
    requires
        text::eq_ignore_case(a, b),
        0 <= i < a.len(),
        a[i] == b[i],
    ensures
        rewrite::restore_names(a, names)[i] == rewrite::restore_names(b, names)[i],
    decreases names.len(),
{
    assert(text::lower(a).len() == text::lower(b).len());
    if names.len() > 0 {
        if rewrite::has_upper(names[0]) {
            restore_name_keeps_letters(a, names[0], 0);
            restore_name_keeps_letters(b, names[0], 0);
            restore_name_agrees(a, b, names[0], 0, i);
            restore_names_same(
                rewrite::restore_name(a, names[0], 0),
                rewrite::restore_name(b, names[0], 0),
                names.drop_first(),
                i,
            );
        } else {
            restore_names_same(a, b, names.drop_first(), i);
        }
    }
}

/// Rewriting a text a second time changes nothing.
pub proof fn rewriting_twice_is_rewriting_once(out: Seq<char>, names: Seq<Seq<char>>)
    ensures
        rewrite::restore_names(rewrite::restore_names(out, names), names)
            == rewrite::restore_names(out, names),
{
    let once = rewrite::restore_names(out, names);
    let twice = rewrite::restore_names(once, names);
    rewriting_keeps_letters(out, names);
    rewriting_keeps_letters(once, names);
    assert forall|i: int| 0 <= i < once.len() implies twice[i] == once[i] by {
        restore_names_agree(out, once, names, i);
    }
    assert(twice =~= once);
}

/// Rewriting a response body a second time, for the same request, changes
/// nothing.
pub proof fn rewritten_twice_is_rewritten_once(body: Seq<u8>, request_body: Seq<u8>)
    ensures
        rewrite::rewritten(rewrite::rewritten(body, request_body), request_body)
            == rewrite::rewritten(body, request_body),
{
    if valid_utf8(body) && valid_utf8(request_body) {
        let names = rewrite::declared_names(decode_utf8(request_body), 0);
        let once = rewrite::restore_names(decode_utf8(body), names);
        encode_utf8_valid_utf8(once);
        encode_utf8_decode_utf8(once);
        rewriting_twice_is_rewriting_once(decode_utf8(body), names);
    }
}

/// A request that declares no name with an upper-case letter leaves every
/// response body as it is.
pub proof fn lower_case_names_rewrite_nothing(body: Seq<u8>, request_body: Seq<u8>)
    requires
        forall|k: int|
            0 <= k < rewrite::declared_names(decode_utf8(request_body), 0).len()
                ==> !rewrite::has_upper(
                #[trigger] rewrite::declared_names(decode_utf8(request_body), 0)[k],
            ),
    ensures
        rewrite::rewritten(body, request_body) == body,
{
    if valid_utf8(body) && valid_utf8(request_body) {
        no_upper_restores_nothing(
            decode_utf8(body),
            rewrite::declared_names(decode_utf8(request_body), 0),
        );
        decode_utf8_encode_utf8(body);
    }
}

/// Names without an upper-case letter restore nothing.
pub proof fn no_upper_restores_nothing(out: Seq<char>, names: Seq<Seq<char>>)
    requires
        forall|k: int| 0 <= k < names.len() ==> !rewrite::has_upper(#[trigger] names[k]),
    ensures
        rewrite::restore_names(out, names) == out,
    decreases names.len(),
{
    if names.len() > 0 {
        assert forall|k: int| 0 <= k < names.drop_first().len() implies !rewrite::has_upper(
            #[trigger] names.drop_first()[k],
        ) by {
            assert(!rewrite::has_upper(names[k + 1]));
        }
        assert(!rewrite::has_upper(names[0]));
        no_upper_restores_nothing(out, names.drop_first());
    }
}

// ---------------------------------------------------------------------------
// Every value is restored
// ---------------------------------------------------------------------------

/// From `cursor` on, each value of a `"name"` key that is `name` up to letter
/// case is spelled as `name` is.
pub open spec fn spelled(out: Seq<char>, name: Seq<char>, cursor: int) -> bool
    decreases out.len() - cursor,
{
    if cursor < 0 {
        true
    } else {
        match rewrite::name_value(out, cursor) {
            None => true,
            Some((open, close)) => {
                proof {
                    rewrite::name_value_bounds(out, cursor);
                }
                if text::eq_ignore_case(out.subrange(open, close), name) {
                    out.subrange(open, close) == name && spelled(out, name, close)
                } else {
                    spelled(out, name, close + 1)
                }
            },
        }
    }
}

/// Restoring a name from `cursor` on leaves what stands before `cursor`.
pub proof fn restore_name_keeps_front(out: Seq<char>, name: Seq<char>, cursor: int, i: int)
    requires
        0 <= i < cursor,
        i < out.len(),
    ensures
        rewrite::restore_name(out, name, cursor)[i] == out[i],
    decreases out.len() - cursor,
{
    if let Some((open, close)) = rewrite::name_value(out, cursor) {
        rewrite::name_value_bounds(out, cursor);
        if text::eq_ignore_case(out.subrange(open, close), name) {
            overwrite_keeps_letters(out, open, close, name);
            restore_name_keeps_front(rewrite::overwrite(out, open, name), name, close, i);
        } else {
            restore_name_keeps_front(out, name, close + 1, i);
        }
    }
}

/// Once a name has been restored, every value that is the name up to letter
/// case is spelled as the name is.
pub proof fn restore_name_spells(out: Seq<char>, name: Seq<char>, cursor: int)
    ensures
        spelled(rewrite::restore_name(out, name, cursor), name, cursor),
    decreases out.len() - cursor,
{
    if cursor >= 0 {
        let done = rewrite::restore_name(out, name, cursor);
        restore_name_keeps_letters(out, name, cursor);
        name_value_case_blind(out, done, cursor);
        if let Some((open, close)) = rewrite::name_value(out, cursor) {
            rewrite::name_value_bounds(out, cursor);
            span_case_blind(out, done, open, close);
            if text::eq_ignore_case(out.subrange(open, close), name) {
                overwrite_keeps_letters(out, open, close, name);
                let next = rewrite::overwrite(out, open, name);
                restore_name_spells(next, name, close);
                assert forall|i: int| open <= i < close implies done[i] == name[i - open] by {
                    restore_name_keeps_front(next, name, close, i);
                }
                assert(done.subrange(open, close) =~= name);
            } else {
                restore_name_spells(out, name, close + 1);
            }
        }
    }
}

/// A run of characters between two quotes, with no quote inside.
pub open spec fn quoted_run(out: Seq<char>, open: int, close: int) -> bool {
    &&& 0 < open <= close < out.len()
    &&& out[open - 1] == '"'
    &&& out[close] == '"'
    &&& forall|j: int| open <= j < close ==> out[j] != '"'
}

/// The value of a `"name"` key is a run between two quotes.
pub proof fn name_value_is_quoted(out: Seq<char>, cursor: int)
    requires
        0 <= cursor,
    ensures
        rewrite::name_value(out, cursor) matches Some((open, close)) ==> quoted_run(
            out,
            open,
            close,
        ),
{
    text::find_is_least(text::lower(out), rewrite::name_key(), cursor);
    if let Some(at) = text::find_from(text::lower(out), rewrite::name_key(), cursor) {
        let past = at + rewrite::name_key().len();
        text::position_is_least(out, ':', past);
        if let Some(colon) = text::position(out, ':', past) {
            text::skip_space_bounds(out, colon + 1);
            text::position_is_least(out, '"', text::skip_space(out, colon + 1) + 1);
        }
    }
}

/// Quotes stand at the same places in texts that differ in letter case alone.
pub proof fn quoted_run_case_blind(a: Seq<char>, b: Seq<char>, open: int, close: int)
    requires
        text::eq_ignore_case(a, b),
        quoted_run(a, open, close),
    ensures
        quoted_run(b, open, close),
{
    assert(text::lower(a).len() == text::lower(b).len());
    assert forall|j: int| 0 <= j < a.len() implies (a[j] == '"' <==> b[j] == '"') by {
        assert(text::lower(a)[j] == text::lower(b)[j]);
        lower_of_no_letter(a[j], '"');
        lower_of_no_letter(b[j], '"');
    }
}

/// Restoring `other` leaves a quoted run that is not `other` up to letter case.
pub proof fn restore_name_keeps_run(
    out: Seq<char>,
    other: Seq<char>,
    cursor: int,
    open: int,
    close: int,
)
    requires
        quoted_run(out, open, close),
        !text::eq_ignore_case(out.subrange(open, close), other),
    ensures
        rewrite::restore_name(out, other, cursor).subrange(open, close) == out.subrange(
            open,
            close,
        ),
    decreases out.len() - cursor,
{
    restore_name_keeps_letters(out, other, cursor);
    if cursor >= 0 {
        if let Some((from, to)) = rewrite::name_value(out, cursor) {
            rewrite::name_value_bounds(out, cursor);
            name_value_is_quoted(out, cursor);
            if text::eq_ignore_case(out.subrange(from, to), other) {
                overwrite_keeps_letters(out, from, to, other);
                let next = rewrite::overwrite(out, from, other);
                // Two quoted runs are the same run or share no character.
                assert(to < open || close < from || (from == open && to == close)) by {
                    if from < open && open <= to {
                        assert(out[open - 1] == '"');
                    }
                    if open < from && from <= close {
                        assert(out[from - 1] == '"');
                    }
                }
                quoted_run_case_blind(out, next, open, close);
                assert(next.subrange(open, close) =~= out.subrange(open, close));
                restore_name_keeps_run(next, other, to, open, close);
            } else {
                restore_name_keeps_run(out, other, to + 1, open, close);
            }
        }
    }
}

/// Restoring another name leaves a name restored.
pub proof fn other_names_leave_it_spelled(
    out: Seq<char>,
    name: Seq<char>,
    other: Seq<char>,
    cursor: int,
)
    requires
        spelled(out, name, cursor),
        !text::eq_ignore_case(name, other),
    ensures
        spelled(rewrite::restore_name(out, other, 0), name, cursor),
    decreases out.len() - cursor,
{
    let done = rewrite::restore_name(out, other, 0);
    restore_name_keeps_letters(out, other, 0);
    if cursor >= 0 {
        name_value_case_blind(out, done, cursor);
        if let Some((open, close)) = rewrite::name_value(out, cursor) {
            rewrite::name_value_bounds(out, cursor);
            name_value_is_quoted(out, cursor);
            span_case_blind(out, done, open, close);
            if text::eq_ignore_case(out.subrange(open, close), name) {
                restore_name_keeps_run(out, other, 0, open, close);
                other_names_leave_it_spelled(out, name, other, close);
            } else {
                other_names_leave_it_spelled(out, name, other, close + 1);
            }
        }
    }
}

/// A restored name stays restored through a list of other names.
pub proof fn later_names_leave_it_spelled(
    out: Seq<char>,
    name: Seq<char>,
    names: Seq<Seq<char>>,
)
    requires
        spelled(out, name, 0),
        forall|j: int|
            0 <= j < names.len() && rewrite::has_upper(#[trigger] names[j])
                ==> !text::eq_ignore_case(name, names[j]),
    ensures
        spelled(rewrite::restore_names(out, names), name, 0),
    decreases names.len(),
{
    if names.len() > 0 {
        assert forall|j: int|
            0 <= j < names.drop_first().len() && rewrite::has_upper(
                #[trigger] names.drop_first()[j],
            ) implies !text::eq_ignore_case(name, names.drop_first()[j]) by {
            assert(names.drop_first()[j] == names[j + 1]);
        }
        if rewrite::has_upper(names[0]) {
            other_names_leave_it_spelled(out, name, names[0], 0);
            later_names_leave_it_spelled(
                rewrite::restore_name(out, names[0], 0),
                name,
                names.drop_first(),
            );
        } else {
            later_names_leave_it_spelled(out, name, names.drop_first());
        }
    }
}

/// The casing of a tool's name is restored: in the rewriting of any text, each
/// value of a `"name"` key that is a declared name up to letter case is
/// spelled as that name is. Where several declared names differ in letter case
/// alone, the last of them counts.
pub proof fn declared_names_are_restored(out: Seq<char>, names: Seq<Seq<char>>, k: int)
    requires
        0 <= k < names.len(),
        rewrite::has_upper(names[k]),
        forall|j: int|
            k < j < names.len() && rewrite::has_upper(#[trigger] names[j])
                ==> !text::eq_ignore_case(names[k], names[j]),
    ensures
        spelled(rewrite::restore_names(out, names), names[k], 0),
    decreases names.len(),
{
    let rest = names.drop_first();
    if k == 0 {
        restore_name_spells(out, names[0], 0);
        assert forall|j: int|
            0 <= j < rest.len() && rewrite::has_upper(#[trigger] rest[j])
                implies !text::eq_ignore_case(names[0], rest[j]) by {
            assert(rest[j] == names[j + 1]);
        }
        later_names_leave_it_spelled(rewrite::restore_name(out, names[0], 0), names[0], rest);
    } else {
        assert(rest[k - 1] == names[k]);
        assert forall|j: int|
            k - 1 < j < rest.len() && rewrite::has_upper(#[trigger] rest[j])
                implies !text::eq_ignore_case(rest[k - 1], rest[j]) by {
            assert(rest[j] == names[j + 1]);
        }
        if rewrite::has_upper(names[0]) {
            declared_names_are_restored(rewrite::restore_name(out, names[0], 0), rest, k - 1);
        } else {
            declared_names_are_restored(out, rest, k - 1);
        }
    }
}

// ---------------------------------------------------------------------------
// The model of a request
// ---------------------------------------------------------------------------

/// A text without quotes escapes to one without quotes.
pub proof fn escape_without_quotes(s: Seq<char>)
    requires
        !s.contains('"'),
    ensures
        !rewrite::escape_json(s).contains('"'),
    decreases s.len(),
{
    if s.len() > 0 {
        assert(!s.drop_last().contains('"')) by {
            if s.drop_last().contains('"') {
                let i = s.drop_last().index_of('"');
                assert(s[i] == '"');
            }
        }
        assert(s.last() != '"') by {
            assert(s.contains(s.last()));
        }
        escape_without_quotes(s.drop_last());
        let front = rewrite::escape_json(s.drop_last());
        let back = rewrite::escape_char(s.last());
        assert forall|i: int| 0 <= i < (front + back).len() implies (front + back)[i] != '"' by {
            if i < front.len() {
                assert(front.contains(front[i]));
            }
        }
    }
}

/// A text without quotes and backslashes is its own escape.
pub proof fn escape_of_plain(s: Seq<char>)
    requires
        !s.contains('"'),
        !s.contains('\\'),
    ensures
        rewrite::escape_json(s) == s,
    decreases s.len(),
{
    if s.len() > 0 {
        let front = s.drop_last();
        assert(s.contains(s.last()));
        assert(!front.contains('"') && !front.contains('\\')) by {
            if front.contains('"') {
                assert(s[front.index_of('"')] == '"');
            }
            if front.contains('\\') {
                assert(s[front.index_of('\\')] == '\\');
            }
        }
        escape_of_plain(front);
        assert(front + seq![s.last()] =~= s);
    } else {
        assert(s =~= Seq::<char>::empty());
    }
}

/// What has been written as the model is read back as the model. This is so
/// wherever the text is read and written at the same place (no quote stands
/// between the key and its colon), for every model without a quote.
pub proof fn replaced_model_reads_back(text: Seq<char>, model: Seq<char>)
    requires
        rewrite::model_span(text) is Some,
        rewrite::quoted_after(text, rewrite::quoted_key("model"@), 0) == rewrite::model_span(text),
        !model.contains('"'),
    ensures
        rewrite::string_value(rewrite::with_model(text, model), "model"@) == Some(
            rewrite::escape_json(model),
        ),
        !model.contains('\\') ==> rewrite::string_value(
            rewrite::with_model(text, model),
            "model"@,
        ) == Some(model),
{
    reveal_strlit("model");
    reveal_strlit("\"model\"");
    let key = rewrite::quoted_key("model"@);
    assert(key =~= "\"model\""@);
    let (open, close) = rewrite::model_span(text).unwrap();
    let value = rewrite::escape_json(model);
    let new = rewrite::with_model(text, model);
    let at = text::find_from(text, key, 0).unwrap();
    rewrite::quoted_after_bounds(text, key, 0);
    text::find_is_least(text, key, 0);
    text::position_is_least(text, '"', at + key.len());
    assert(at + key.len() < open);
    assert forall|j: int| 0 <= j < open implies new[j] == text[j] by {}
    assert(new.subrange(at, at + key.len()) =~= text.subrange(at, at + key.len()));
    assert forall|j: int| 0 <= j < at implies !text::occurs_at(new, key, j) by {
        assert(new.subrange(j, j + key.len()) =~= text.subrange(j, j + key.len()));
        assert(!text::occurs_at(text, key, j));
    }
    text::find_unique(new, key, 0, at);
    text::position_unique(new, '"', at + key.len(), open - 1);
    escape_without_quotes(model);
    assert forall|j: int| open <= j < open + value.len() implies new[j] != '"' by {
        assert(new[j] == value[j - open]);
        assert(value.contains(value[j - open]));
    }
    assert(new[open + value.len()] == text[close]);
    text::position_unique(new, '"', open, open + value.len());
    assert(new.subrange(open, open + value.len()) =~= value);
    if !model.contains('\\') {
        escape_of_plain(model);
    }
}

/// The casing of tool names is restored in a response body: each value of a
/// `"name"` key that is a name of the request up to letter case is spelled as
/// the request spells it.
pub proof fn tool_names_are_restored(body: Seq<u8>, request_body: Seq<u8>, k: int)
    requires
        valid_utf8(body),
        valid_utf8(request_body),
        0 <= k < rewrite::declared_names(decode_utf8(request_body), 0).len(),
        rewrite::has_upper(rewrite::declared_names(decode_utf8(request_body), 0)[k]),
        forall|j: int|
            k < j < rewrite::declared_names(decode_utf8(request_body), 0).len()
                && rewrite::has_upper(
                #[trigger] rewrite::declared_names(decode_utf8(request_body), 0)[j],
            ) ==> !text::eq_ignore_case(
                rewrite::declared_names(decode_utf8(request_body), 0)[k],
                rewrite::declared_names(decode_utf8(request_body), 0)[j],
            ),
    ensures
        spelled(
            decode_utf8(rewrite::rewritten(body, request_body)),
            rewrite::declared_names(decode_utf8(request_body), 0)[k],
            0,
        ),
{
    let names = rewrite::declared_names(decode_utf8(request_body), 0);
    let restored = rewrite::restore_names(decode_utf8(body), names);
    encode_utf8_decode_utf8(restored);
    declared_names_are_restored(decode_utf8(body), names, k);
}

} // verus!
