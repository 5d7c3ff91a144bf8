//! Edits of JSON text that leave the rest of a body as it is: the model that a
//! request names, and the letter case of the tool names in a response.
use crate::numbers;
use crate::text;
use vstd::prelude::*;
use vstd::utf8::*;

verus! {

broadcast use vstd::string::group_string_axioms;

// ---------------------------------------------------------------------------
// Escaping
// ---------------------------------------------------------------------------

/// A character with a backslash before it if it is a backslash or a quote.
pub open spec fn escape_char(c: char) -> Seq<char> {
    if c == '\\' {
        seq!['\\', '\\']
    } else if c == '"' {
        seq!['\\', '"']
    } else {
        seq![c]
    }
}

/// The text with a backslash before each backslash and each quote.
pub open spec fn escape_json(s: Seq<char>) -> Seq<char>
    decreases s.len(),
{
    if s.len() == 0 {
        Seq::empty()
    } else {
        escape_json(s.drop_last()) + escape_char(s.last())
    }
}

/// Escapes the backslashes and quotes of a text.
pub fn escape_json_string(value: &str) -> (r: String)
    ensures
        r@ == escape_json(value@),
{
    let chars = text::chars_of(value);
    let mut out = String::new();
    let mut i: usize = 0;
    while i < chars.len()
        invariant
            i <= chars@.len(),
            out@ == escape_json(chars@.take(i as int)),
        decreases chars@.len() - i,
    {
        let c = chars[i];
        let ghost before = out@;
        if c == '\\' || c == '"' {
            out.push('\\');
        }
        out.push(c);
        i += 1;
        proof {
            assert(chars@.take(i as int).drop_last() =~= chars@.take(i - 1));
            assert(out@ =~= before + escape_char(c));
        }
    }
    assert(chars@.take(chars@.len() as int) =~= chars@);
    out
}

/// A character as it stands inside a JSON string: a control character, which
/// may not stand there, is written as an escape.
pub open spec fn json_char(c: char) -> Seq<char> {
    if c == '\n' {
        seq!['\\', 'n']
    } else if c == '\r' {
        seq!['\\', 'r']
    } else if c == '\t' {
        seq!['\\', 't']
    } else if c == '\u{8}' {
        seq!['\\', 'b']
    } else if c == '\u{c}' {
        seq!['\\', 'f']
    } else if c <= '\u{1f}' {
        seq![
            '\\',
            'u',
            '0',
            '0',
            numbers::digit_char(c as nat / 16),
            numbers::digit_char(c as nat % 16),
        ]
    } else {
        escape_char(c)
    }
}

/// A text as it stands inside a JSON string.
pub open spec fn json_text(s: Seq<char>) -> Seq<char>
    decreases s.len(),
{
    if s.len() == 0 {
        Seq::empty()
    } else {
        json_text(s.drop_last()) + json_char(s.last())
    }
}

/// Appends a character as it stands inside a JSON string.
fn push_json_char(out: &mut String, c: char)
    ensures
        final(out)@ == old(out)@ + json_char(c),
{
    let ghost before = out@;
    if c == '\n' {
        out.push('\\');
        out.push('n');
    } else if c == '\r' {
        out.push('\\');
        out.push('r');
    } else if c == '\t' {
        out.push('\\');
        out.push('t');
    } else if c == '\u{8}' {
        out.push('\\');
        out.push('b');
    } else if c == '\u{c}' {
        out.push('\\');
        out.push('f');
    } else if c <= '\u{1f}' {
        let n: u32 = c as u32;
        out.push('\\');
        out.push('u');
        out.push('0');
        out.push('0');
        out.push(numbers::char_of_digit((n / 16) as u64));
        out.push(numbers::char_of_digit((n % 16) as u64));
    } else {
        if c == '\\' || c == '"' {
            out.push('\\');
        }
        out.push(c);
    }
    assert(out@ =~= before + json_char(c));
}

/// Writes a text as it stands inside a JSON string.
pub fn json_string_text(value: &str) -> (r: String)
    ensures
        r@ == json_text(value@),
{
    let chars = text::chars_of(value);
    let mut out = String::new();
    let mut i: usize = 0;
    while i < chars.len()
        invariant
            i <= chars@.len(),
            out@ == json_text(chars@.take(i as int)),
        decreases chars@.len() - i,
    {
        push_json_char(&mut out, chars[i]);
        i += 1;
        assert(chars@.take(i as int).drop_last() =~= chars@.take(i - 1));
    }
    assert(chars@.take(chars@.len() as int) =~= chars@);
    out
}

// ---------------------------------------------------------------------------
// Values behind a key
// ---------------------------------------------------------------------------

/// Where the first quoted text behind the first `key` at or after `from` begins
/// and ends.
pub open spec fn quoted_after(text: Seq<char>, key: Seq<char>, from: int) -> Option<(int, int)> {
    match text::find_from(text, key, from) {
        None => None,
        Some(at) => match text::position(text, '"', at + key.len()) {
            None => None,
            Some(open) => match text::position(text, '"', open + 1) {
                None => None,
                Some(close) => Some((open + 1, close)),
            },
        },
    }
}

/// A quoted text behind a key lies inside the text and past `from`.
pub proof fn quoted_after_bounds(text: Seq<char>, key: Seq<char>, from: int)
    requires
        0 <= from,
    ensures
        quoted_after(text, key, from) matches Some((open, close)) ==> from < open <= close
            < text.len() && text[open - 1] == '"' && text[close] == '"' && forall|j: int|
            open <= j < close ==> text[j] != '"',
{
    text::find_is_least(text, key, from);
    if let Some(at) = text::find_from(text, key, from) {
        text::position_is_least(text, '"', at + key.len());
        if let Some(open) = text::position(text, '"', at + key.len()) {
            text::position_is_least(text, '"', open + 1);
        }
    }
}

/// Finds the quoted text behind a key.
pub fn find_quoted(text: &[char], key: &[char], from: usize) -> (r: Option<(usize, usize)>)
    ensures
        match r {
            Some((open, close)) => quoted_after(text@, key@, from as int) == Some(
                (open as int, close as int),
            ) && from < open <= close < text@.len(),
            None => quoted_after(text@, key@, from as int) is None,
        },
{
    let at = match text::find_chars(text, key, from) {
        Some(at) => at,
        None => return None,
    };
    let open = match text::position_char(text, '"', at + key.len()) {
        Some(open) => open,
        None => return None,
    };
    match text::position_char(text, '"', open + 1) {
        Some(close) => Some((open + 1, close)),
        None => None,
    }
}

/// The key with its quotes.
pub open spec fn quoted_key(key: Seq<char>) -> Seq<char> {
    seq!['"'] + key + seq!['"']
}

/// The string that stands behind a key in JSON text.
pub open spec fn string_value(text: Seq<char>, key: Seq<char>) -> Option<Seq<char>> {
    match quoted_after(text, quoted_key(key), 0) {
        Some((open, close)) => Some(text.subrange(open, close)),
        None => None,
    }
}

/// Reads the string that stands behind a key in JSON text.
pub fn json_string_value(text: &str, key: &str) -> (r: Option<String>)
    ensures
        match r {
            Some(value) => string_value(text@, key@) == Some(value@),
            None => string_value(text@, key@) is None,
        },
{
    let chars = text::chars_of(text);
    let mut pattern: Vec<char> = Vec::new();
    pattern.push('"');
    let mut name = text::chars_of(key);
    pattern.append(&mut name);
    pattern.push('"');
    assert(pattern@ =~= quoted_key(key@));
    match find_quoted(&chars, &pattern, 0) {
        Some((open, close)) => Some(text::string_between(&chars, open, close)),
        None => None,
    }
}

// ---------------------------------------------------------------------------
// The model of a request
// ---------------------------------------------------------------------------

/// Where the value of the first `"model"` begins and ends.
pub open spec fn model_span(text: Seq<char>) -> Option<(int, int)> {
    match text::find_from(text, "\"model\""@, 0) {
        None => None,
        Some(at) => match text::position(text, ':', at) {
            None => None,
            Some(colon) => match text::position(text, '"', colon + 1) {
                None => None,
                Some(open) => match text::position(text, '"', open + 1) {
                    None => None,
                    Some(close) => Some((open + 1, close)),
                },
            },
        },
    }
}

/// The text with another model in place of the one it names.
pub open spec fn with_model(text: Seq<char>, model: Seq<char>) -> Seq<char> {
    match model_span(text) {
        Some((open, close)) => text.take(open) + escape_json(model) + text.skip(close),
        None => text,
    }
}

/// The body with another model in place of the one it names; a body that is
/// not UTF-8, or names no model, stays as it is.
pub open spec fn replaced_model(body: Seq<u8>, model: Seq<char>) -> Seq<u8> {
    if valid_utf8(body) {
        encode_utf8(with_model(decode_utf8(body), model))
    } else {
        body
    }
}

/// Finds the value of the first `"model"`.
fn find_model_span(text: &[char]) -> (r: Option<(usize, usize)>)
    ensures
        match r {
            Some((open, close)) => model_span(text@) == Some((open as int, close as int)) && open
                <= close < text@.len(),
            None => model_span(text@) is None,
        },
{
    let key = text::chars_of("\"model\"");
    let at = match text::find_chars(text, &key, 0) {
        Some(at) => at,
        None => return None,
    };
    let colon = match text::position_char(text, ':', at) {
        Some(colon) => colon,
        None => return None,
    };
    let open = match text::position_char(text, '"', colon + 1) {
        Some(open) => open,
        None => return None,
    };
    match text::position_char(text, '"', open + 1) {
        Some(close) => Some((open + 1, close)),
        None => None,
    }
}

/// Puts another model in place of the one that a request body names.
pub fn replace_model(body: &[u8], model: &str) -> (r: Vec<u8>)
    ensures
        r@ == replaced_model(body@, model@),
{
    let text = match text::utf8_text(body) {
        Some(text) => text,
        None => return vstd::slice::slice_to_vec(body),
    };
    let chars = text::chars_of(text);
    match find_model_span(&chars) {
        Some((open, close)) => {
            let escaped = escape_json_string(model);
            let mut out = text::string_between(&chars, 0, open);
            let middle = text::chars_of(escaped.as_str());
            text::push_chars(&mut out, &middle, 0, middle.len());
            text::push_chars(&mut out, &chars, close, chars.len());
            assert(out@ =~= with_model(chars@, model@));
            vstd::slice::slice_to_vec(out.as_str().as_bytes())
        },
        None => {
            proof {
                decode_utf8_encode_utf8(body@);
            }
            vstd::slice::slice_to_vec(body)
        },
    }
}

// ---------------------------------------------------------------------------
// The tool names of a response
// ---------------------------------------------------------------------------

/// The key that a tool's name stands behind, with its quotes.
pub open spec fn name_key() -> Seq<char> {
    "\"name\""@
}

/// The names that stand behind the key `"name"` in a request, from `from` on.
pub open spec fn declared_names(request: Seq<char>, from: int) -> Seq<Seq<char>>
    decreases request.len() - from,
{
    if from < 0 {
        Seq::empty()
    } else {
        match quoted_after(request, name_key(), from) {
            None => Seq::empty(),
            Some((open, close)) => {
                proof {
                    quoted_after_bounds(request, name_key(), from);
                }
                seq![request.subrange(open, close)] + declared_names(request, close + 1)
            },
        }
    }
}

/// Some letter is an upper-case ASCII letter.
pub open spec fn has_upper(s: Seq<char>) -> bool {
    exists|i: int| 0 <= i < s.len() && 'A' <= #[trigger] s[i] <= 'Z'
}

/// Where the value of the next `"name"` key at or after `cursor` begins and
/// ends: behind the key's colon, white space may stand before the opening
/// quote, and nothing else.
pub open spec fn name_value(out: Seq<char>, cursor: int) -> Option<(int, int)> {
    match text::find_from(text::lower(out), name_key(), cursor) {
        None => None,
        Some(at) => match text::position(out, ':', at + name_key().len()) {
            None => None,
            Some(colon) => {
                let quote = text::skip_space(out, colon + 1);
                if quote >= out.len() || out[quote] != '"' {
                    None
                } else {
                    match text::position(out, '"', quote + 1) {
                        None => None,
                        Some(end) => Some((quote + 1, end)),
                    }
                }
            },
        },
    }
}

/// A name's value lies inside the text and past `cursor`.
pub proof fn name_value_bounds(out: Seq<char>, cursor: int)
    requires
        0 <= cursor,
    ensures
        name_value(out, cursor) matches Some((open, close)) ==> cursor < open <= close < out.len(),
{
    text::find_is_least(text::lower(out), name_key(), cursor);
    if let Some(at) = text::find_from(text::lower(out), name_key(), cursor) {
        text::position_is_least(out, ':', at + name_key().len());
        if let Some(colon) = text::position(out, ':', at + name_key().len()) {
            text::skip_space_bounds(out, colon + 1);
            let quote = text::skip_space(out, colon + 1);
            text::position_is_least(out, '"', quote + 1);
        }
    }
}

/// The text with `name` written over its characters from `at` on.
pub open spec fn overwrite(out: Seq<char>, at: int, name: Seq<char>) -> Seq<char> {
    Seq::new(
        out.len(),
        |i: int|
            if at <= i < at + name.len() {
                name[i - at]
            } else {
                out[i]
            },
    )
}

/// The text in which, from `cursor` on, each value of a `"name"` key that is
/// `name` up to letter case is spelled as `name` is.
pub open spec fn restore_name(out: Seq<char>, name: Seq<char>, cursor: int) -> Seq<char>
    decreases out.len() - cursor,
{
    if cursor < 0 {
        out
    } else {
        match name_value(out, cursor) {
            None => out,
            Some((open, close)) => {
                proof {
                    name_value_bounds(out, cursor);
                }
                if text::eq_ignore_case(out.subrange(open, close), name) {
                    restore_name(overwrite(out, open, name), name, close)
                } else {
                    restore_name(out, name, close + 1)
                }
            },
        }
    }
}

/// The text after each of the names that has an upper-case letter has been
/// restored, in order.
pub open spec fn restore_names(out: Seq<char>, names: Seq<Seq<char>>) -> Seq<char>
    decreases names.len(),
{
    if names.len() == 0 {
        out
    } else if has_upper(names[0]) {
        restore_names(restore_name(out, names[0], 0), names.drop_first())
    } else {
        restore_names(out, names.drop_first())
    }
}

/// The body with the tool names spelled as the request spells them; a body
/// stays as it is if it, or the request's, is not UTF-8.
pub open spec fn rewritten(body: Seq<u8>, request_body: Seq<u8>) -> Seq<u8> {
    if valid_utf8(body) && valid_utf8(request_body) {
        encode_utf8(restore_names(decode_utf8(body), declared_names(decode_utf8(request_body), 0)))
    } else {
        body
    }
}

/// Whether some letter is an upper-case ASCII letter.
fn any_upper(s: &[char], from: usize, to: usize) -> (r: bool)
    requires
        from <= to <= s@.len(),
    ensures
        r == has_upper(s@.subrange(from as int, to as int)),
{
    let ghost part = s@.subrange(from as int, to as int);
    let mut i: usize = from;
    while i < to
        invariant
            from <= i <= to <= s@.len(),
            part == s@.subrange(from as int, to as int),
            forall|j: int| 0 <= j < i - from ==> !('A' <= #[trigger] part[j] <= 'Z'),
        decreases to - i,
    {
        if 'A' <= s[i] && s[i] <= 'Z' {
            assert('A' <= part[i - from] <= 'Z');
            return true;
        }
        i += 1;
    }
    false
}

/// Finds the value of the next `"name"` key.
fn find_name_value(out: &[char], key: &[char], cursor: usize) -> (r: Option<(usize, usize)>)
    requires
        key@ == name_key(),
    ensures
        match r {
            Some((open, close)) => name_value(out@, cursor as int) == Some(
                (open as int, close as int),
            ) && cursor < open <= close < out.len(),
            None => name_value(out@, cursor as int) is None,
        },
{
    let at = match text::find_lower(out, key, cursor) {
        Some(at) => at,
        None => return None,
    };
    let colon = match text::position_char(out, ':', at + key.len()) {
        Some(colon) => colon,
        None => return None,
    };
    let quote = text::skip_space_from(out, colon + 1);
    if quote >= out.len() || out[quote] != '"' {
        return None;
    }
    match text::position_char(out, '"', quote + 1) {
        Some(close) => Some((quote + 1, close)),
        None => None,
    }
}

/// Spells the values of `"name"` keys as `name` is spelled.
fn restore(out: &mut Vec<char>, name: &[char], key: &[char])
    requires
        key@ == name_key(),
    ensures
        final(out)@ == restore_name(old(out)@, name@, 0),
{
    let ghost start = out@;
    let mut cursor: usize = 0;
    loop
        invariant
            key@ == name_key(),
            out@.len() == start.len(),
            cursor <= out@.len(),
            restore_name(start, name@, 0) == restore_name(out@, name@, cursor as int),
        ensures
            out@ == restore_name(start, name@, 0),
        decreases out@.len() - cursor,
    {
        let (open, close) = match find_name_value(out.as_slice(), key, cursor) {
            Some(span) => span,
            None => break,
        };
        let current = text::chars_between(out.as_slice(), open, close);
        if text::same_ignoring_case(&current, name) {
            proof {
                assert(text::lower(current@).len() == text::lower(name@).len());
            }
            let ghost before = out@;
            let mut k: usize = 0;
            while k < name.len()
                invariant
                    k <= name@.len(),
                    open + name@.len() == close,
                    close < before.len(),
                    out@.len() == before.len(),
                    forall|j: int|
                        0 <= j < out@.len() ==> out@[j] == (if open <= j < open + k {
                            name@[j - open]
                        } else {
                            before[j]
                        }),
                decreases name@.len() - k,
            {
                out[open + k] = name[k];
                k += 1;
            }
            assert(out@ =~= overwrite(before, open as int, name@));
            cursor = close;
        } else {
            cursor = close + 1;
        }
    }
}

/// Spells the tool names in a response body as the request body spells them.
pub fn rewrite_tool_names(body: &[u8], request_body: &[u8]) -> (r: Vec<u8>)
    ensures
        r@ == rewritten(body@, request_body@),
{
    let body_text = match text::utf8_text(body) {
        Some(t) => t,
        None => return vstd::slice::slice_to_vec(body),
    };
    let request_text = match text::utf8_text(request_body) {
        Some(t) => t,
        None => return vstd::slice::slice_to_vec(body),
    };
    let mut out = text::chars_of(body_text);
    let request = text::chars_of(request_text);
    let key = text::chars_of("\"name\"");
    let mut from: usize = 0;
    loop
        invariant
            key@ == name_key(),
            from <= request@.len(),
            restore_names(out@, declared_names(request@, from as int)) == restore_names(
                decode_utf8(body@),
                declared_names(request@, 0),
            ),
        ensures
            out@ == restore_names(decode_utf8(body@), declared_names(request@, 0)),
        decreases request@.len() - from,
    {
        let ghost rest = declared_names(request@, from as int);
        let (open, close) = match find_quoted(&request, &key, from) {
            Some(span) => span,
            None => break,
        };
        proof {
            assert(rest.drop_first() =~= declared_names(request@, close + 1));
        }
        if any_upper(&request, open, close) {
            let name = text::chars_between(&request, open, close);
            restore(&mut out, &name, &key);
        }
        from = close + 1;
    }
    let restored = text::string_of(&out);
    vstd::slice::slice_to_vec(restored.as_str().as_bytes())
}

} // verus!
