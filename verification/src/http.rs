//! The heads of HTTP messages: request lines, status lines and headers, read
//! and written.
use crate::error::HttpError;
use crate::numbers;
use crate::text;
use vstd::prelude::*;
use vstd::utf8::*;

verus! {

broadcast use vstd::string::group_string_axioms;

/// The longest body of a request.
pub const MAX_REQUEST_BYTES: usize = 67108864;

/// The longest head of a request or a response.
pub const MAX_HEAD_BYTES: usize = 65536;

/// The headers that concern one connection alone.
pub const HOP_BY_HOP: [&'static str; 8] = [
    "connection",
    "keep-alive",
    "proxy-authenticate",
    "proxy-authorization",
    "te",
    "trailer",
    "transfer-encoding",
    "upgrade",
];

/// The names and values of a list of headers.
pub open spec fn fields(headers: Seq<(String, String)>) -> Seq<(Seq<char>, Seq<char>)> {
    Seq::new(headers.len(), |i: int| (headers[i].0@, headers[i].1@))
}

// ---------------------------------------------------------------------------
// Characters of a head
// ---------------------------------------------------------------------------

/// A character that a token may hold.
pub open spec fn is_token_char(c: char) -> bool {
    ||| 'a' <= c <= 'z'
    ||| 'A' <= c <= 'Z'
    ||| '0' <= c <= '9'
    ||| c == '!'
    ||| c == '#'
    ||| c == '$'
    ||| c == '%'
    ||| c == '&'
    ||| c == '\''
    ||| c == '*'
    ||| c == '+'
    ||| c == '-'
    ||| c == '.'
    ||| c == '^'
    ||| c == '_'
    ||| c == '`'
    ||| c == '|'
    ||| c == '~'
}

/// A token: one character or more, each of which a token may hold.
pub open spec fn token(s: Seq<char>) -> bool {
    s.len() > 0 && forall|i: int| 0 <= i < s.len() ==> is_token_char(#[trigger] s[i])
}

/// A character that a request target may hold: visible ASCII but the backslash
/// and the double quote.
pub open spec fn is_target_char(c: char) -> bool {
    '!' <= c <= '~' && c != '\\' && c != '"'
}

/// A request target: of 1 to 8192 characters, each of which a target may hold.
pub open spec fn request_target(s: Seq<char>) -> bool {
    0 < s.len() <= 8192 && forall|i: int| 0 <= i < s.len() ==> is_target_char(#[trigger] s[i])
}

/// No carriage return, line feed or NUL stands in the text.
pub open spec fn plain_value(s: Seq<char>) -> bool {
    forall|i: int|
        0 <= i < s.len() ==> #[trigger] s[i] != '\r' && s[i] != '\n' && s[i] != '\0'
}

/// Whether a token may hold a character.
fn token_char(c: char) -> (r: bool)
    ensures
        r == is_token_char(c),
{
    ('a' <= c && c <= 'z') || ('A' <= c && c <= 'Z') || ('0' <= c && c <= '9') || c == '!' || c
        == '#' || c == '$' || c == '%' || c == '&' || c == '\'' || c == '*' || c == '+' || c == '-'
        || c == '.' || c == '^' || c == '_' || c == '`' || c == '|' || c == '~'
}

/// Whether these characters are a token.
fn token_chars(s: &[char]) -> (r: bool)
    ensures
        r == token(s@),
{
    let mut i: usize = 0;
    while i < s.len()
        invariant
            i <= s@.len(),
            forall|j: int| 0 <= j < i ==> is_token_char(#[trigger] s@[j]),
        decreases s@.len() - i,
    {
        if !token_char(s[i]) {
            return false;
        }
        i += 1;
    }
    s.len() > 0
}

/// Whether a text is a token.
pub fn is_token(value: &str) -> (r: bool)
    ensures
        r == token(value@),
{
    let chars = text::chars_of(value);
    token_chars(&chars)
}

/// Whether a text is a request target.
pub fn is_request_target(value: &str) -> (r: bool)
    ensures
        r == request_target(value@),
{
    let chars = text::chars_of(value);
    let mut i: usize = 0;
    while i < chars.len()
        invariant
            i <= chars@.len(),
            chars@ == value@,
            forall|j: int| 0 <= j < i ==> is_target_char(#[trigger] chars@[j]),
        decreases chars@.len() - i,
    {
        let c = chars[i];
        if !('!' <= c && c <= '~' && c != '\\' && c != '"') {
            assert(!is_target_char(value@[i as int]));
            return false;
        }
        i += 1;
    }
    chars.len() > 0 && chars.len() <= 8192
}

// ---------------------------------------------------------------------------
// Headers
// ---------------------------------------------------------------------------

/// The name and the value of a header line: the name is a token that reaches
/// up to the first colon, the value is trimmed.
pub open spec fn header_line(line: Seq<char>) -> Option<(Seq<char>, Seq<char>)> {
    match text::position(line, ':', 0) {
        None => None,
        Some(colon) => {
            let name = line.take(colon);
            let value = line.skip(colon + 1);
            if token(name) && plain_value(value) {
                Some((name, text::trim(value)))
            } else {
                None
            }
        },
    }
}

/// The headers on the lines before the first empty one; none if one of these
/// lines is malformed.
pub open spec fn header_lines(lines: Seq<Seq<char>>) -> Option<Seq<(Seq<char>, Seq<char>)>>
    decreases lines.len(),
{
    if lines.len() == 0 || lines[0].len() == 0 {
        Some(Seq::empty())
    } else {
        match (header_line(lines[0]), header_lines(lines.drop_first())) {
            (Some(field), Some(rest)) => Some(seq![field] + rest),
            _ => None,
        }
    }
}

/// Whether no carriage return, line feed or NUL stands from `from` on.
fn plain_from(s: &[char], from: usize) -> (r: bool)
    requires
        from <= s@.len(),
    ensures
        r == plain_value(s@.skip(from as int)),
{
    let ghost value = s@.skip(from as int);
    let mut i: usize = from;
    while i < s.len()
        invariant
            from <= i <= s@.len(),
            value == s@.skip(from as int),
            forall|j: int|
                0 <= j < i - from ==> #[trigger] value[j] != '\r' && value[j] != '\n' && value[j]
                    != '\0',
        decreases s@.len() - i,
    {
        let c = s[i];
        if c == '\r' || c == '\n' || c == '\0' {
            assert(value[i - from] == c);
            return false;
        }
        i += 1;
    }
    true
}

/// Reads one header line.
fn parse_header(line: &str) -> (r: Option<(String, String)>)
    ensures
        match r {
            Some(field) => header_line(line@) == Some((field.0@, field.1@)),
            None => header_line(line@) is None,
        },
{
    let chars = text::chars_of(line);
    let colon = match text::position_char(&chars, ':', 0) {
        Some(colon) => colon,
        None => return None,
    };
    let name = text::chars_between(&chars, 0, colon);
    let value = text::chars_between(&chars, colon + 1, chars.len());
    assert(name@ =~= line@.take(colon as int));
    assert(value@ =~= line@.skip(colon + 1));
    assert(value@.skip(0) =~= value@);
    if !token_chars(&name) || !plain_from(&value, 0) {
        return None;
    }
    let trimmed = text::trim_chars(&value);
    Some((text::string_of(&name), text::string_of(&trimmed)))
}

/// Reads the headers on the lines before the first empty one.
pub fn parse_headers(lines: &[String]) -> (r: Result<Vec<(String, String)>, HttpError>)
    ensures
        match r {
            Ok(headers) => header_lines(text::views(lines@)) == Some(fields(headers@)),
            Err(e) => header_lines(text::views(lines@)) is None && e
                == HttpError::MalformedHeader,
        },
{
    let ghost all = text::views(lines@);
    let mut headers: Vec<(String, String)> = Vec::new();
    let mut i: usize = 0;
    assert(all.skip(0) =~= all);
    while i < lines.len()
        invariant
            i <= lines@.len(),
            all == text::views(lines@),
            match header_lines(all.skip(i as int)) {
                Some(rest) => header_lines(all) == Some(fields(headers@) + rest),
                None => header_lines(all) is None,
            },
        decreases lines@.len() - i,
    {
        let line = lines[i].as_str();
        let ghost here = all.skip(i as int);
        assert(here[0] == line@);
        assert(here.drop_first() =~= all.skip(i + 1));
        if line.is_empty() {
            assert(fields(headers@) + Seq::<(Seq<char>, Seq<char>)>::empty() =~= fields(headers@));
            return Ok(headers);
        }
        match parse_header(line) {
            Some(field) => {
                let ghost before = fields(headers@);
                headers.push(field);
                proof {
                    let one = (field.0@, field.1@);
                    assert(fields(headers@) =~= before.push(one));
                    if let Some(rest) = header_lines(all.skip(i + 1)) {
                        assert(before + (seq![one] + rest) =~= fields(headers@) + rest);
                    }
                }
            },
            None => return Err(HttpError::MalformedHeader),
        }
        i += 1;
    }
    assert(fields(headers@) + Seq::<(Seq<char>, Seq<char>)>::empty() =~= fields(headers@));
    Ok(headers)
}

/// The value of the first header of this name, up to letter case.
pub open spec fn first_value(
    headers: Seq<(Seq<char>, Seq<char>)>,
    name: Seq<char>,
) -> Option<Seq<char>>
    decreases headers.len(),
{
    if headers.len() == 0 {
        None
    } else if text::eq_ignore_case(headers[0].0, name) {
        Some(headers[0].1)
    } else {
        first_value(headers.drop_first(), name)
    }
}

/// The values of all headers of this name, up to letter case.
pub open spec fn all_values(
    headers: Seq<(Seq<char>, Seq<char>)>,
    name: Seq<char>,
) -> Seq<Seq<char>>
    decreases headers.len(),
{
    if headers.len() == 0 {
        Seq::empty()
    } else if text::eq_ignore_case(headers[0].0, name) {
        seq![headers[0].1] + all_values(headers.drop_first(), name)
    } else {
        all_values(headers.drop_first(), name)
    }
}

/// Gives the value of the first header of a name.
pub fn header_value<'a>(headers: &'a [(String, String)], name: &str) -> (r: Option<&'a str>)
    ensures
        match r {
            Some(value) => first_value(fields(headers@), name@) == Some(value@),
            None => first_value(fields(headers@), name@) is None,
        },
{
    let ghost all = fields(headers@);
    let mut i: usize = 0;
    assert(all.skip(0) =~= all);
    while i < headers.len()
        invariant
            i <= headers@.len(),
            all == fields(headers@),
            first_value(all, name@) == first_value(all.skip(i as int), name@),
        decreases headers@.len() - i,
    {
        assert(all.skip(i as int)[0] == (headers@[i as int].0@, headers@[i as int].1@));
        assert(all.skip(i as int).drop_first() =~= all.skip(i + 1));
        if text::text_eq_ignore_case(headers[i].0.as_str(), name) {
            return Some(headers[i].1.as_str());
        }
        i += 1;
    }
    None
}

/// One of the comma-separated parts is `chunked`, up to letter case.
pub open spec fn names_chunked(value: Seq<char>) -> bool {
    exists|i: int|
        0 <= i < text::pieces(value, seq![','], 0).len() && text::eq_ignore_case(
            text::trim(#[trigger] text::pieces(value, seq![','], 0)[i]),
            "chunked"@,
        )
}

/// A `Transfer-Encoding` header names `chunked`.
pub open spec fn chunked(headers: Seq<(Seq<char>, Seq<char>)>) -> bool {
    exists|i: int|
        0 <= i < headers.len() && text::eq_ignore_case(
            #[trigger] headers[i].0,
            "transfer-encoding"@,
        ) && names_chunked(headers[i].1)
}

/// Whether one of the comma-separated parts is `chunked`.
fn value_names_chunked(value: &str) -> (r: bool)
    ensures
        r == names_chunked(value@),
{
    let chars = text::chars_of(value);
    let comma: [char; 1] = [','];
    assert(comma@ =~= seq![',']);
    let parts = text::split_chars(&chars, &comma);
    let ghost all = text::pieces(value@, seq![','], 0);
    let mut i: usize = 0;
    while i < parts.len()
        invariant
            i <= parts@.len(),
            text::views(parts@) == all,
            all == text::pieces(value@, seq![','], 0),
            forall|j: int|
                0 <= j < i ==> !text::eq_ignore_case(text::trim(#[trigger] all[j]), "chunked"@),
        decreases parts@.len() - i,
    {
        let part = text::trim_text(parts[i].as_str());
        assert(all[i as int] == parts@[i as int]@);
        if text::text_eq_ignore_case(part.as_str(), "chunked") {
            return true;
        }
        i += 1;
    }
    false
}

/// Whether the headers say that the body is chunked.
pub fn is_chunked(headers: &[(String, String)]) -> (r: bool)
    ensures
        r == chunked(fields(headers@)),
{
    let ghost all = fields(headers@);
    let mut i: usize = 0;
    while i < headers.len()
        invariant
            i <= headers@.len(),
            all == fields(headers@),
            forall|j: int|
                0 <= j < i ==> !(text::eq_ignore_case(#[trigger] all[j].0, "transfer-encoding"@)
                    && names_chunked(all[j].1)),
        decreases headers@.len() - i,
    {
        assert(all[i as int] == (headers@[i as int].0@, headers@[i as int].1@));
        if text::text_eq_ignore_case(headers[i].0.as_str(), "transfer-encoding") {
            if value_names_chunked(headers[i].1.as_str()) {
                assert(text::eq_ignore_case(all[i as int].0, "transfer-encoding"@));
                return true;
            }
        }
        i += 1;
    }
    false
}

/// A header that concerns one connection alone.
pub open spec fn hop_by_hop(name: Seq<char>) -> bool {
    exists|i: int| 0 <= i < 8 && text::eq_ignore_case(name, #[trigger] HOP_BY_HOP@[i]@)
}

/// Whether a header concerns one connection alone.
pub fn is_hop_by_hop(name: &str) -> (r: bool)
    ensures
        r == hop_by_hop(name@),
{
    let mut i: usize = 0;
    while i < 8
        invariant
            i <= 8,
            forall|j: int| 0 <= j < i ==> !text::eq_ignore_case(name@, #[trigger] HOP_BY_HOP@[j]@),
        decreases 8 - i,
    {
        if text::text_eq_ignore_case(name, HOP_BY_HOP[i]) {
            return true;
        }
        i += 1;
    }
    false
}

// ---------------------------------------------------------------------------
// The end of a head
// ---------------------------------------------------------------------------

/// The blank line behind a head, with the end of the line before it.
pub open spec fn head_mark() -> Seq<u8> {
    seq![13u8, 10, 13, 10]
}

/// The end of the head that the bytes begin with, if its blank line is there.
pub open spec fn head_end(data: Seq<u8>) -> Option<int> {
    match text::find_from(data, head_mark(), 0) {
        Some(at) => Some(at + 4),
        None => None,
    }
}

/// How far the reading of a head has come.
#[derive(Clone, Copy, Debug, PartialEq, Eq, Structural)]
pub enum HeadProgress {
    /// The blank line has not come yet.
    More,
    /// The head ends here.
    Complete(usize),
    /// The head is longer than the limit.
    TooLarge,
}

/// How far the reading of a head has come: it is complete once its blank line
/// is there, and too large once it cannot end within the limit.
pub open spec fn head_progress(data: Seq<u8>, limit: int) -> HeadProgress {
    match head_end(data) {
        Some(end) => if end <= limit {
            HeadProgress::Complete(end as usize)
        } else {
            HeadProgress::TooLarge
        },
        None => if data.len() > limit {
            HeadProgress::TooLarge
        } else {
            HeadProgress::More
        },
    }
}

/// Finds the end of the head that the bytes begin with.
pub fn find_head_end(data: &[u8]) -> (r: Option<usize>)
    ensures
        match r {
            Some(end) => head_end(data@) == Some(end as int) && 4 <= end <= data.len(),
            None => head_end(data@) is None,
        },
{
    let mark: [u8; 4] = [13, 10, 13, 10];
    assert(mark@ =~= head_mark());
    match text::find_bytes(data, &mark, 0) {
        Some(at) => Some(at + 4),
        None => None,
    }
}

/// Tells how far the reading of a head has come.
pub fn check_head(data: &[u8], limit: usize) -> (r: HeadProgress)
    ensures
        r == head_progress(data@, limit as int),
        r matches HeadProgress::Complete(end) ==> head_end(data@) == Some(end as int) && 4 <= end
            <= data.len(),
{
    match find_head_end(data) {
        Some(end) => if end <= limit {
            HeadProgress::Complete(end)
        } else {
            HeadProgress::TooLarge
        },
        None => if data.len() > limit {
            HeadProgress::TooLarge
        } else {
            HeadProgress::More
        },
    }
}

// ---------------------------------------------------------------------------
// The head of a request
// ---------------------------------------------------------------------------

/// How the end of a body is found.
#[derive(Clone, Copy, Debug, PartialEq, Eq, Structural)]
pub enum Framing {
    /// The body comes in chunks.
    Chunked,
    /// The body has this many bytes.
    Length(usize),
}

/// The head of a request.
pub struct RequestHead {
    pub method: String,
    pub path: String,
    pub headers: Vec<(String, String)>,
    pub framing: Framing,
}

/// What the head of a request says.
#[verifier::ext_equal]
pub struct RequestHeadModel {
    pub method: Seq<char>,
    pub path: Seq<char>,
    pub headers: Seq<(Seq<char>, Seq<char>)>,
    pub framing: Framing,
}

impl View for RequestHead {
    type V = RequestHeadModel;

    open spec fn view(&self) -> RequestHeadModel {
        RequestHeadModel {
            method: self.method@,
            path: self.path@,
            headers: fields(self.headers@),
            framing: self.framing,
        }
    }
}

/// The end of a line.
pub open spec fn line_end() -> Seq<char> {
    seq!['\r', '\n']
}

/// The lines of a head.
pub open spec fn head_lines(head: Seq<char>) -> Seq<Seq<char>> {
    text::pieces(head, line_end(), 0)
}

/// The method on a request line: its first word.
pub open spec fn line_method(line: Seq<char>) -> Seq<char> {
    match text::next_word(line, 0) {
        Some((start, end)) => line.subrange(start, end),
        None => "POST"@,
    }
}

/// The target on a request line: its second word.
pub open spec fn line_path(line: Seq<char>) -> Seq<char> {
    match text::next_word(line, 0) {
        Some((_, first_end)) => match text::next_word(line, first_end) {
            Some((start, end)) => line.subrange(start, end),
            None => "/"@,
        },
        None => "/"@,
    }
}

/// How the headers of a request frame its body, or why they do not.
pub open spec fn request_framing(headers: Seq<(Seq<char>, Seq<char>)>) -> Result<
    Framing,
    HttpError,
> {
    let lengths = all_values(headers, "content-length"@);
    if lengths.len() > 1 || (chunked(headers) && lengths.len() > 0) {
        Err(HttpError::ConflictingFraming)
    } else if chunked(headers) {
        Ok(Framing::Chunked)
    } else if lengths.len() == 0 {
        Ok(Framing::Length(0))
    } else {
        match numbers::parse_unsigned(text::trim(lengths[0]), 10, usize::MAX as nat) {
            None => Err(HttpError::InvalidContentLength),
            Some(length) => if length > MAX_REQUEST_BYTES {
                Err(HttpError::RequestTooLarge)
            } else {
                Ok(Framing::Length(length as usize))
            },
        }
    }
}

/// What the text of a request's head says, or why it is refused.
pub open spec fn request_head_text(head: Seq<char>) -> Result<RequestHeadModel, HttpError> {
    let lines = head_lines(head);
    let method = line_method(lines[0]);
    let path = line_path(lines[0]);
    if !token(method) || !request_target(path) {
        Err(HttpError::InvalidRequestLine)
    } else {
        match header_lines(lines.drop_first()) {
            None => Err(HttpError::MalformedHeader),
            Some(headers) => match request_framing(headers) {
                Err(e) => Err(e),
                Ok(framing) => Ok(RequestHeadModel { method, path, headers, framing }),
            },
        }
    }
}

/// What the head of a request says, or why it is refused.
pub open spec fn request_head(head: Seq<u8>) -> Result<RequestHeadModel, HttpError> {
    if valid_utf8(head) {
        request_head_text(decode_utf8(head))
    } else {
        Err(HttpError::NonUtf8Head)
    }
}

/// The values of all headers of a name.
fn collect_values<'a>(headers: &'a [(String, String)], name: &str) -> (r: Vec<&'a String>)
    ensures
        all_values(fields(headers@), name@) == Seq::new(r@.len(), |i: int| r@[i]@),
{
    let ghost all = fields(headers@);
    let mut out: Vec<&'a String> = Vec::new();
    let mut i: usize = 0;
    assert(all.skip(0) =~= all);
    assert(Seq::new(out@.len(), |i: int| out@[i]@) + all_values(all, name@) =~= all_values(
        all,
        name@,
    ));
    while i < headers.len()
        invariant
            i <= headers@.len(),
            all == fields(headers@),
            Seq::new(out@.len(), |i: int| out@[i]@) + all_values(all.skip(i as int), name@)
                == all_values(all, name@),
        decreases headers@.len() - i,
    {
        let ghost before = Seq::new(out@.len(), |i: int| out@[i]@);
        let ghost rest = all_values(all.skip(i + 1), name@);
        assert(all.skip(i as int)[0] == (headers@[i as int].0@, headers@[i as int].1@));
        assert(all.skip(i as int).drop_first() =~= all.skip(i + 1));
        if text::text_eq_ignore_case(headers[i].0.as_str(), name) {
            let ghost value = headers@[i as int].1@;
            out.push(&headers[i].1);
            assert(Seq::new(out@.len(), |i: int| out@[i]@) =~= before.push(value));
            assert(before + (seq![value] + rest) =~= before.push(value) + rest);
        }
        i += 1;
    }
    assert(Seq::new(out@.len(), |i: int| out@[i]@) + Seq::<Seq<char>>::empty() =~= Seq::new(
        out@.len(),
        |i: int| out@[i]@,
    ));
    out
}

/// Tells how the headers of a request frame its body.
fn framing_of(headers: &[(String, String)]) -> (r: Result<Framing, HttpError>)
    ensures
        r == request_framing(fields(headers@)),
{
    let in_chunks = is_chunked(headers);
    let lengths = collect_values(headers, "content-length");
    let ghost values = all_values(fields(headers@), "content-length"@);
    assert(values.len() == lengths@.len());
    if lengths.len() > 1 || (in_chunks && lengths.len() > 0) {
        return Err(HttpError::ConflictingFraming);
    }
    if in_chunks {
        return Ok(Framing::Chunked);
    }
    if lengths.len() == 0 {
        return Ok(Framing::Length(0));
    }
    assert(values[0] == lengths@[0]@);
    let written = text::trim_text(lengths[0].as_str());
    match numbers::parse_usize(written.as_str()) {
        None => Err(HttpError::InvalidContentLength),
        Some(length) => if length > MAX_REQUEST_BYTES {
            Err(HttpError::RequestTooLarge)
        } else {
            Ok(Framing::Length(length))
        },
    }
}

/// A copy of the lines but the first.
fn lines_after_first(lines: &[String]) -> (r: Vec<String>)
    requires
        lines@.len() > 0,
    ensures
        text::views(r@) == text::views(lines@).drop_first(),
{
    let mut out: Vec<String> = Vec::new();
    let mut i: usize = 1;
    while i < lines.len()
        invariant
            1 <= i <= lines@.len(),
            text::views(out@) == text::views(lines@).subrange(1, i as int),
        decreases lines@.len() - i,
    {
        let ghost before = text::views(out@);
        out.push(lines[i].clone());
        i += 1;
        assert(text::views(out@) =~= before.push(lines@[i - 1]@));
        assert(text::views(out@) =~= text::views(lines@).subrange(1, i as int));
    }
    assert(text::views(out@) =~= text::views(lines@).drop_first());
    out
}

/// Splits a head into its lines.
fn split_head(head: &str) -> (r: Vec<String>)
    ensures
        text::views(r@) == head_lines(head@),
        r@.len() > 0,
{
    let chars = text::chars_of(head);
    let sep: [char; 2] = ['\r', '\n'];
    assert(sep@ =~= line_end());
    text::split_chars(&chars, &sep)
}

/// Reads the text of a request's head.
pub fn parse_request_head_text(head: &str) -> (r: Result<RequestHead, HttpError>)
    ensures
        match r {
            Ok(h) => request_head_text(head@) == Ok::<RequestHeadModel, HttpError>(h@),
            Err(e) => request_head_text(head@) == Err::<RequestHeadModel, HttpError>(e),
        },
{
    let lines = split_head(head);
    let first = text::chars_of(lines[0].as_str());
    assert(first@ == head_lines(head@)[0]);
    let (method, path) = match text::find_word(&first, 0) {
        Some((start, end)) => {
            let method = text::string_between(&first, start, end);
            let path = match text::find_word(&first, end) {
                Some((from, to)) => text::string_between(&first, from, to),
                None => "/".to_owned(),
            };
            (method, path)
        },
        None => ("POST".to_owned(), "/".to_owned()),
    };
    if !is_token(method.as_str()) || !is_request_target(path.as_str()) {
        return Err(HttpError::InvalidRequestLine);
    }
    let rest = lines_after_first(&lines);
    let headers = match parse_headers(&rest) {
        Ok(headers) => headers,
        Err(e) => return Err(e),
    };
    match framing_of(&headers) {
        Ok(framing) => Ok(RequestHead { method, path, headers, framing }),
        Err(e) => Err(e),
    }
}

/// Reads the head of a request.
pub fn parse_request_head(head: &[u8]) -> (r: Result<RequestHead, HttpError>)
    ensures
        match r {
            Ok(h) => request_head(head@) == Ok::<RequestHeadModel, HttpError>(h@),
            Err(e) => request_head(head@) == Err::<RequestHeadModel, HttpError>(e),
        },
{
    match text::utf8_text(head) {
        Some(t) => parse_request_head_text(t),
        None => Err(HttpError::NonUtf8Head),
    }
}

// ---------------------------------------------------------------------------
// The head of a response
// ---------------------------------------------------------------------------

/// The head of a response, with what has come in behind it.
pub struct ResponseHead {
    pub status: u16,
    pub reason: String,
    pub headers: Vec<(String, String)>,
    pub buffered_body: Vec<u8>,
}

/// What the head of a response says.
#[verifier::ext_equal]
pub struct ResponseHeadModel {
    pub status: u16,
    pub reason: Seq<char>,
    pub headers: Seq<(Seq<char>, Seq<char>)>,
    pub buffered_body: Seq<u8>,
}

impl View for ResponseHead {
    type V = ResponseHeadModel;

    open spec fn view(&self) -> ResponseHeadModel {
        ResponseHeadModel {
            status: self.status,
            reason: self.reason@,
            headers: fields(self.headers@),
            buffered_body: self.buffered_body@,
        }
    }
}

/// A control character.
pub open spec fn is_control(c: char) -> bool {
    c <= '\u{1f}' || '\u{7f}' <= c <= '\u{9f}'
}

/// The text without its control characters.
pub open spec fn without_control(s: Seq<char>) -> Seq<char>
    decreases s.len(),
{
    if s.len() == 0 {
        Seq::empty()
    } else if is_control(s.last()) {
        without_control(s.drop_last())
    } else {
        without_control(s.drop_last()).push(s.last())
    }
}

/// The status on a status line: the number between its first two spaces, or
/// 502 if there is none.
pub open spec fn line_status(line: Seq<char>) -> u16 {
    match text::position(line, ' ', 0) {
        None => 502,
        Some(first) => {
            let end = match text::position(line, ' ', first + 1) {
                Some(second) => second,
                None => line.len() as int,
            };
            match numbers::parse_unsigned(line.subrange(first + 1, end), 10, u16::MAX as nat) {
                Some(status) => status as u16,
                None => 502,
            }
        },
    }
}

/// The reason on a status line: what stands behind its second space, without
/// control characters.
pub open spec fn line_reason(line: Seq<char>) -> Seq<char> {
    match text::position(line, ' ', 0) {
        None => Seq::empty(),
        Some(first) => match text::position(line, ' ', first + 1) {
            None => Seq::empty(),
            Some(second) => without_control(line.skip(second + 1)),
        },
    }
}

/// What the text of a response's head says, or why it is refused. `rest` is
/// what has come in behind the head.
pub open spec fn response_head_text(head: Seq<char>, rest: Seq<u8>) -> Result<
    ResponseHeadModel,
    HttpError,
> {
    let lines = head_lines(head);
    match header_lines(lines.drop_first()) {
        None => Err(HttpError::MalformedHeader),
        Some(headers) => Ok(
            ResponseHeadModel {
                status: line_status(lines[0]),
                reason: line_reason(lines[0]),
                headers,
                buffered_body: rest,
            },
        ),
    }
}

/// The text that bytes amount to when each part that is not UTF-8 is replaced
/// by the replacement character: what `String::from_utf8_lossy` gives.
pub uninterp spec fn lossy_text(data: Seq<u8>) -> Seq<char>;

/// Calls `String::from_utf8_lossy`. Its result depends on the bytes alone, and
/// is the text that they encode where they are valid UTF-8. What stands for a
/// part that is not is left to the name.
#[verifier::external_body]
fn decode_lossy(data: &[u8]) -> (r: String)
    ensures
        r@ == lossy_text(data@),
        valid_utf8(data@) ==> r@ == decode_utf8(data@),
{
    String::from_utf8_lossy(data).into_owned()
}

/// What the head that the bytes of a response begin with says, or why it is
/// refused.
pub open spec fn response_head(raw: Seq<u8>) -> Result<ResponseHeadModel, HttpError> {
    match head_end(raw) {
        None => Err(HttpError::IncompleteResponseHead),
        Some(end) => response_head_text(lossy_text(raw.take(end)), raw.skip(end)),
    }
}

/// Drops the control characters from `from` on.
fn drop_control(s: &[char], from: usize) -> (r: String)
    requires
        from <= s@.len(),
    ensures
        r@ == without_control(s@.skip(from as int)),
{
    let ghost part = s@.skip(from as int);
    let mut out = String::new();
    let mut i: usize = from;
    while i < s.len()
        invariant
            from <= i <= s@.len(),
            part == s@.skip(from as int),
            out@ == without_control(part.take(i - from)),
        decreases s@.len() - i,
    {
        let c = s[i];
        if !(c <= '\u{1f}' || ('\u{7f}' <= c && c <= '\u{9f}')) {
            out.push(c);
        }
        i += 1;
        assert(part.take(i - from).drop_last() =~= part.take(i - from - 1));
        assert(part.take(i - from).last() == c);
    }
    assert(part.take(i - from) =~= part);
    out
}

/// Reads a status line.
fn parse_status_line(line: &str) -> (r: (u16, String))
    ensures
        r.0 == line_status(line@),
        r.1@ == line_reason(line@),
{
    let chars = text::chars_of(line);
    let first = match text::position_char(&chars, ' ', 0) {
        Some(first) => first,
        None => return (502, String::new()),
    };
    let (end, reason) = match text::position_char(&chars, ' ', first + 1) {
        Some(second) => (second, drop_control(&chars, second + 1)),
        None => (chars.len(), String::new()),
    };
    let number = text::string_between(&chars, first + 1, end);
    match numbers::parse_u16(number.as_str()) {
        Some(status) => (status, reason),
        None => (502, reason),
    }
}

/// Reads the text of a response's head. `rest` is what has come in behind the
/// head.
pub fn parse_response_head_text(head: &str, rest: Vec<u8>) -> (r: Result<ResponseHead, HttpError>)
    ensures
        match r {
            Ok(h) => response_head_text(head@, rest@) == Ok::<ResponseHeadModel, HttpError>(h@),
            Err(e) => response_head_text(head@, rest@) == Err::<ResponseHeadModel, HttpError>(e),
        },
{
    let lines = split_head(head);
    assert(head_lines(head@)[0] == lines@[0]@);
    let (status, reason) = parse_status_line(lines[0].as_str());
    let others = lines_after_first(&lines);
    match parse_headers(&others) {
        Ok(headers) => Ok(ResponseHead { status, reason, headers, buffered_body: rest }),
        Err(e) => Err(e),
    }
}

/// Reads the head that the bytes of a response begin with.
pub fn parse_response_head(raw: &[u8]) -> (r: Result<ResponseHead, HttpError>)
    ensures
        match r {
            Ok(h) => response_head(raw@) == Ok::<ResponseHeadModel, HttpError>(h@),
            Err(e) => response_head(raw@) == Err::<ResponseHeadModel, HttpError>(e),
        },
        // Where the head is UTF-8, its text is what the bytes encode.
        match head_end(raw@) {
            Some(end) => valid_utf8(raw@.take(end)) ==> match r {
                Ok(h) => response_head_text(decode_utf8(raw@.take(end)), raw@.skip(end)) == Ok::<
                    ResponseHeadModel,
                    HttpError,
                >(h@),
                Err(e) => response_head_text(decode_utf8(raw@.take(end)), raw@.skip(end)) == Err::<
                    ResponseHeadModel,
                    HttpError,
                >(e),
            },
            None => r is Err,
        },
{
    let end = match find_head_end(raw) {
        Some(end) => end,
        None => return Err(HttpError::IncompleteResponseHead),
    };
    let front = vstd::slice::slice_subrange(raw, 0, end);
    let back = vstd::slice::slice_subrange(raw, end, raw.len());
    assert(front@ =~= raw@.take(end as int));
    assert(back@ =~= raw@.skip(end as int));
    let head = decode_lossy(front);
    parse_response_head_text(head.as_str(), vstd::slice::slice_to_vec(back))
}

// ---------------------------------------------------------------------------
// Writing heads
// ---------------------------------------------------------------------------

/// Header lines.
pub open spec fn rendered_fields(headers: Seq<(Seq<char>, Seq<char>)>) -> Seq<char>
    decreases headers.len(),
{
    if headers.len() == 0 {
        Seq::empty()
    } else {
        rendered_fields(headers.drop_last()) + headers.last().0 + seq![':', ' ']
            + headers.last().1 + line_end()
    }
}

/// A head: its first line, its headers and the blank line behind them.
pub open spec fn rendered_head(
    line: Seq<char>,
    headers: Seq<(Seq<char>, Seq<char>)>,
) -> Seq<char> {
    line + line_end() + rendered_fields(headers) + line_end()
}

/// Appends a text.
pub fn push_text(out: &mut String, s: &str)
    ensures
        final(out)@ == old(out)@ + s@,
{
    let chars = text::chars_of(s);
    text::push_chars(out, &chars, 0, chars.len());
    assert(chars@.subrange(0, chars@.len() as int) =~= chars@);
}

/// Writes a head.
pub fn render_head(line: &str, headers: &[(String, String)]) -> (r: String)
    ensures
        r@ == rendered_head(line@, fields(headers@)),
{
    let ghost all = fields(headers@);
    let mut out = line.to_owned();
    out.push('\r');
    out.push('\n');
    let ghost front = line@ + line_end();
    assert(out@ =~= front + rendered_fields(all.take(0)));
    let mut i: usize = 0;
    while i < headers.len()
        invariant
            i <= headers@.len(),
            all == fields(headers@),
            front == line@ + line_end(),
            out@ == front + rendered_fields(all.take(i as int)),
        decreases headers@.len() - i,
    {
        let ghost before = out@;
        push_text(&mut out, headers[i].0.as_str());
        out.push(':');
        out.push(' ');
        push_text(&mut out, headers[i].1.as_str());
        out.push('\r');
        out.push('\n');
        i += 1;
        assert(all.take(i as int).drop_last() =~= all.take(i - 1));
        assert(all.take(i as int).last() == (headers@[i - 1].0@, headers@[i - 1].1@));
        assert(out@ =~= front + rendered_fields(all.take(i as int)));
    }
    assert(all.take(i as int) =~= all);
    out.push('\r');
    out.push('\n');
    assert(out@ =~= rendered_head(line@, all));
    out
}

/// A header.
pub fn header(name: &str, value: &str) -> (r: (String, String))
    ensures
        r.0@ == name@,
        r.1@ == value@,
{
    (name.to_owned(), value.to_owned())
}

} // verus!
