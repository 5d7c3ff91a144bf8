//! What holds of the reading and writing of messages, whatever they say.
use crate::chunked;
use crate::error::HttpError;
use crate::http;
use crate::laws_text;
use crate::reader;
use crate::relay;
use crate::text;
use vstd::prelude::*;
use vstd::utf8::*;

verus! {

broadcast use vstd::string::group_string_axioms;

// ---------------------------------------------------------------------------
// Bytes that come in parts
// ---------------------------------------------------------------------------

/// What is found in the front of a row is found at the same place in the row.
pub proof fn find_in_front<T>(s: Seq<T>, more: Seq<T>, pat: Seq<T>)
    requires
        text::find_from(s, pat, 0) is Some,
    ensures
        text::find_from(s + more, pat, 0) == text::find_from(s, pat, 0),
{
    let at = text::find_from(s, pat, 0)->0;
    text::find_is_least(s, pat, 0);
    assert((s + more).subrange(at, at + pat.len()) =~= s.subrange(at, at + pat.len()));
    assert forall|j: int| 0 <= j < at implies !text::occurs_at(s + more, pat, j) by {
        assert((s + more).subrange(j, j + pat.len()) =~= s.subrange(j, j + pat.len()));
        assert(!text::occurs_at(s, pat, j));
    }
    text::find_unique(s + more, pat, 0, at);
}

/// The end of a head stays where it is when more bytes come.
pub proof fn head_end_is_stable(data: Seq<u8>, more: Seq<u8>)
    requires
        http::head_end(data) is Some,
    ensures
        http::head_end(data + more) == http::head_end(data),
{
    find_in_front(data, more, http::head_mark());
}

/// Once a head is complete, or too large, it stays so when more bytes come: how
/// the bytes are cut into reads decides nothing.
pub proof fn head_progress_is_stable(data: Seq<u8>, more: Seq<u8>, limit: int)
    requires
        http::head_progress(data, limit) != http::HeadProgress::More,
    ensures
        http::head_progress(data + more, limit) == http::head_progress(data, limit),
{
    text::find_is_least(data, http::head_mark(), 0);
    if http::head_end(data) is Some {
        head_end_is_stable(data, more);
    } else {
        text::find_is_least(data + more, http::head_mark(), 0);
        if let Some(at) = text::find_from(data + more, http::head_mark(), 0) {
            if at + 4 <= data.len() {
                assert((data + more).subrange(at, at + 4) =~= data.subrange(at, at + 4));
                assert(text::occurs_at(data, http::head_mark(), at));
            }
        }
    }
}

/// A chunk that has come in whole stays what it is when more bytes come.
pub proof fn first_chunk_is_stable(buf: Seq<u8>, more: Seq<u8>)
    requires
        !(chunked::first_chunk(buf) is More),
        !(chunked::first_chunk(buf) is Part),
    ensures
        chunked::first_chunk(buf + more) == chunked::first_chunk(buf),
{
    find_in_front(buf, more, chunked::crlf());
    text::find_is_least(buf, chunked::crlf(), 0);
    let at = text::find_from(buf, chunked::crlf(), 0)->0;
    assert((buf + more).take(at) =~= buf.take(at));
}

/// A chunk of which a part has come in keeps its size when more bytes come.
proof fn announced_size_is_stable(buf: Seq<u8>, more: Seq<u8>)
    requires
        chunked::first_chunk(buf) is Part,
    ensures
        ({
            let size = chunked::first_chunk(buf)->Part_size;
            match chunked::first_chunk(buf + more) {
                chunked::ChunkModel::Part { size: other } => other == size,
                chunked::ChunkModel::Data { start, end, next } => end - start == size && 0 <= start
                    && end <= (buf + more).len(),
                _ => false,
            }
        }),
{
    find_in_front(buf, more, chunked::crlf());
    text::find_is_least(buf, chunked::crlf(), 0);
    let at = text::find_from(buf, chunked::crlf(), 0)->0;
    assert((buf + more).take(at) =~= buf.take(at));
}

/// A line that is too long stays so when more bytes come, and one that has
/// ended stays what it is.
proof fn line_length_is_stable(buf: Seq<u8>, more: Seq<u8>)
    ensures
        chunked::line_too_long(buf) ==> chunked::line_too_long(buf + more),
        text::find_from(buf, chunked::crlf(), 0) is Some ==> chunked::line_too_long(buf)
            == chunked::line_too_long(buf + more),
{
    if text::find_from(buf, chunked::crlf(), 0) is Some {
        find_in_front(buf, more, chunked::crlf());
    } else {
        text::find_is_least(buf, chunked::crlf(), 0);
        text::find_is_least(buf + more, chunked::crlf(), 0);
        if let Some(at) = text::find_from(buf + more, chunked::crlf(), 0) {
            if at + 2 <= buf.len() {
                assert((buf + more).subrange(at, at + 2) =~= buf.subrange(at, at + 2));
                assert(text::occurs_at(buf, chunked::crlf(), at));
            }
        }
    }
}

/// A chunked body that comes in two parts is what it would be in one.
pub proof fn dechunk_in_parts(body: Seq<u8>, buf: Seq<u8>, more: Seq<u8>)
    ensures
        match chunked::dechunk(body, buf) {
            chunked::BodyModel::More { body: read, rest } => chunked::dechunk(body, buf + more)
                == chunked::dechunk(read, rest + more),
            done => chunked::dechunk(body, buf + more) == done,
        },
    decreases buf.len(),
{
    line_length_is_stable(buf, more);
    if !chunked::line_too_long(buf) {
        match chunked::first_chunk(buf) {
            chunked::ChunkModel::More => {},
            chunked::ChunkModel::Part { size } => {
                announced_size_is_stable(buf, more);
            },
            _ => {
                first_chunk_is_stable(buf, more);
                if let chunked::ChunkModel::Data { start, end, next } = chunked::first_chunk(buf) {
                    chunked::first_chunk_bounds(buf);
                    assert((buf + more).subrange(start, end) =~= buf.subrange(start, end));
                    assert((buf + more).skip(next) =~= buf.skip(next) + more);
                    dechunk_in_parts(body + buf.subrange(start, end), buf.skip(next), more);
                }
            },
        }
    }
}

/// A request that is complete, or refused, stays so when more bytes come: what
/// a connection's bytes amount to does not depend on how they are cut into
/// reads.
pub proof fn request_is_stable(stream: Seq<u8>, more: Seq<u8>)
    requires
        !(reader::request_of(stream, false) is More),
    ensures
        reader::request_of(stream + more, false) == reader::request_of(stream, false),
{
    let limit = http::MAX_HEAD_BYTES as int;
    head_progress_is_stable(stream, more, limit);
    if let http::HeadProgress::Complete(end) = http::head_progress(stream, limit) {
        text::find_is_least(stream, http::head_mark(), 0);
        assert((stream + more).take(end as int) =~= stream.take(end as int));
        assert((stream + more).skip(end as int) =~= stream.skip(end as int) + more);
        if let Ok(head) = http::request_head(stream.take(end as int)) {
            match head.framing {
                http::Framing::Length(length) => {
                    assert((stream.skip(end as int) + more).take(length as int) =~= stream.skip(
                        end as int,
                    ).take(length as int));
                },
                http::Framing::Chunked => {
                    dechunk_in_parts(Seq::empty(), stream.skip(end as int), more);
                },
            }
        }
    }
}

// ---------------------------------------------------------------------------
// Heads that are written are read back
// ---------------------------------------------------------------------------

/// A header as it is read: a token for a name, and a trimmed value without
/// carriage returns, line feeds and NULs.
pub open spec fn clean_field(field: (Seq<char>, Seq<char>)) -> bool {
    http::token(field.0) && http::plain_value(field.1) && laws_text::trimmed(field.1)
}

/// Every header is as it is read.
pub open spec fn clean_fields(headers: Seq<(Seq<char>, Seq<char>)>) -> bool {
    forall|i: int| 0 <= i < headers.len() ==> clean_field(#[trigger] headers[i])
}

/// The line of a header.
pub open spec fn field_line(field: (Seq<char>, Seq<char>)) -> Seq<char> {
    field.0 + seq![':', ' '] + field.1
}

/// The lines of headers.
pub open spec fn field_lines(headers: Seq<(Seq<char>, Seq<char>)>) -> Seq<Seq<char>> {
    Seq::new(headers.len(), |i: int| field_line(headers[i]))
}

/// The part of a plain value that trimming leaves is plain.
pub proof fn trim_keeps_plain(s: Seq<char>)
    requires
        http::plain_value(s),
    ensures
        http::plain_value(text::trim(s)),
{
    laws_text::skip_space_stops(s, 0);
    laws_text::drop_space_stops(s, s.len() as int);
}

/// Headers that are read are clean: a name is a token, and no value holds a
/// line end that could begin a header of its own.
pub proof fn read_headers_are_clean(lines: Seq<Seq<char>>)
    ensures
        http::header_lines(lines) matches Some(headers) ==> clean_fields(headers),
    decreases lines.len(),
{
    if lines.len() > 0 && lines[0].len() > 0 {
        read_headers_are_clean(lines.drop_first());
        if let Some(colon) = text::position(lines[0], ':', 0) {
            let value = lines[0].skip(colon + 1);
            if http::plain_value(value) {
                trim_keeps_plain(value);
                laws_text::trim_trims(value);
            }
        }
    }
}

/// The line of a clean header is read back as the header, and holds no
/// carriage return.
pub proof fn field_line_reads_back(field: (Seq<char>, Seq<char>))
    requires
        clean_field(field),
    ensures
        http::header_line(field_line(field)) == Some(field),
        !field_line(field).contains('\r'),
        field_line(field).len() > 0,
{
    let line = field_line(field);
    let n = field.0.len() as int;
    assert forall|j: int| 0 <= j < n implies line[j] != ':' by {
        assert(http::is_token_char(field.0[j]));
    }
    text::position_unique(line, ':', 0, n);
    assert(line.take(n) =~= field.0);
    assert(line.skip(n + 1) =~= seq![' '] + field.1);
    let value = seq![' '] + field.1;
    assert forall|i: int| 0 <= i < value.len() implies #[trigger] value[i] != '\r' && value[i]
        != '\n' && value[i] != '\0' by {
        if i > 0 {
            assert(value[i] == field.1[i - 1]);
        }
    }
    laws_text::trim_of_trimmed(field.1);
    assert forall|j: int| 0 <= j < line.len() implies line[j] != '\r' by {
        if j < n {
            assert(http::is_token_char(field.0[j]));
        } else if j >= n + 2 {
            assert(line[j] == field.1[j - n - 2]);
        }
    }
}

/// The lines of clean headers are read back as the headers.
pub proof fn field_lines_read_back(
    headers: Seq<(Seq<char>, Seq<char>)>,
    rest: Seq<Seq<char>>,
)
    requires
        clean_fields(headers),
        rest.len() > 0,
        rest[0].len() == 0,
    ensures
        http::header_lines(field_lines(headers) + rest) == Some(headers),
    decreases headers.len(),
{
    let lines = field_lines(headers) + rest;
    if headers.len() == 0 {
        assert(lines =~= rest);
        assert(headers =~= Seq::<(Seq<char>, Seq<char>)>::empty());
    } else {
        assert(clean_field(headers[0]));
        field_line_reads_back(headers[0]);
        assert(lines[0] == field_line(headers[0]));
        assert(lines.drop_first() =~= field_lines(headers.drop_first()) + rest);
        field_lines_read_back(headers.drop_first(), rest);
        assert(seq![headers[0]] + headers.drop_first() =~= headers);
    }
}

/// Header lines are written one behind the other.
pub proof fn rendered_fields_first(headers: Seq<(Seq<char>, Seq<char>)>)
    requires
        headers.len() > 0,
    ensures
        http::rendered_fields(headers) == field_line(headers[0]) + http::line_end()
            + http::rendered_fields(headers.drop_first()),
    decreases headers.len(),
{
    let rest = headers.drop_first();
    let front = headers.drop_last();
    if headers.len() == 1 {
        assert(front =~= Seq::<(Seq<char>, Seq<char>)>::empty());
        assert(rest =~= Seq::<(Seq<char>, Seq<char>)>::empty());
        assert(http::rendered_fields(headers) =~= field_line(headers[0]) + http::line_end()
            + http::rendered_fields(rest));
    } else {
        rendered_fields_first(front);
        assert(front.drop_first() =~= rest.drop_last());
        assert(http::rendered_fields(headers) =~= field_line(headers[0]) + http::line_end()
            + http::rendered_fields(rest));
    }
}

/// The lines of header lines that are written, behind which `rest` stands.
pub proof fn rendered_fields_split(headers: Seq<(Seq<char>, Seq<char>)>, rest: Seq<char>)
    requires
        clean_fields(headers),
    ensures
        http::head_lines(http::rendered_fields(headers) + rest) == field_lines(headers)
            + http::head_lines(rest),
    decreases headers.len(),
{
    if headers.len() == 0 {
        assert(http::rendered_fields(headers) + rest =~= rest);
        assert(field_lines(headers) + http::head_lines(rest) =~= http::head_lines(rest));
    } else {
        let tail = headers.drop_first();
        assert(clean_field(headers[0]));
        field_line_reads_back(headers[0]);
        rendered_fields_first(headers);
        let line = field_line(headers[0]);
        let behind = http::rendered_fields(tail) + rest;
        assert(http::rendered_fields(headers) + rest =~= line + seq!['\r', '\n'] + behind);
        laws_text::first_line_splits_off(line, behind);
        rendered_fields_split(tail, rest);
        assert(seq![line] + (field_lines(tail) + http::head_lines(rest)) =~= field_lines(headers)
            + http::head_lines(rest));
    }
}

/// The lines of a head that is written are its first line, its headers and two
/// empty ones.
pub proof fn rendered_head_lines(line: Seq<char>, headers: Seq<(Seq<char>, Seq<char>)>)
    requires
        !line.contains('\r'),
        clean_fields(headers),
    ensures
        http::head_lines(http::rendered_head(line, headers)) == seq![line] + field_lines(headers)
            + seq![Seq::<char>::empty(), Seq::<char>::empty()],
{
    let sep = seq!['\r', '\n'];
    let none = Seq::<char>::empty();
    let behind = http::rendered_fields(headers) + sep;
    assert(http::rendered_head(line, headers) =~= line + sep + behind);
    laws_text::first_line_splits_off(line, behind);
    rendered_fields_split(headers, sep);
    assert(sep =~= none + sep + none);
    laws_text::first_line_splits_off(none, none);
    assert(text::find_from(none, sep, 0) is None);
    assert(none.subrange(0, 0) =~= none);
    assert(text::pieces(none, sep, 0) =~= seq![none]);
    assert(http::head_lines(sep) =~= seq![none, none]);
    assert(seq![line] + (field_lines(headers) + seq![none, none]) =~= seq![line] + field_lines(
        headers,
    ) + seq![none, none]);
}

/// A status line with a reason without control characters is one line.
pub proof fn status_line_is_one_line(status: u16, reason: Seq<char>)
    requires
        forall|i: int| 0 <= i < reason.len() ==> !http::is_control(#[trigger] reason[i]),
    ensures
        !relay::status_line(status, reason).contains('\r'),
{
    reveal_strlit("HTTP/1.1 ");
    let line = relay::status_line(status, reason);
    let digits = crate::numbers::decimal(status as nat);
    crate::numbers::digits_have_value(status as nat, 10);
    assert forall|j: int| 0 <= j < line.len() implies line[j] != '\r' by {
        if 9 <= j < 9 + digits.len() {
            assert(line[j] == digits[j - 9]);
        } else if j > 9 + digits.len() {
            assert(line[j] == reason[j - 10 - digits.len()]);
        }
    }
}

/// A response's head that is written with clean headers is read back: its
/// status, its reason and its headers, and nothing else.
pub proof fn response_head_reads_back(
    status: u16,
    reason: Seq<char>,
    headers: Seq<(Seq<char>, Seq<char>)>,
    rest: Seq<u8>,
)
    requires
        forall|i: int| 0 <= i < reason.len() ==> !http::is_control(#[trigger] reason[i]),
        clean_fields(headers),
    ensures
        http::response_head_text(
            http::rendered_head(relay::status_line(status, reason), headers),
            rest,
        ) == Ok::<http::ResponseHeadModel, HttpError>(
            http::ResponseHeadModel { status, reason, headers, buffered_body: rest },
        ),
{
    reveal_strlit("HTTP/1.1 ");
    let line = relay::status_line(status, reason);
    let digits = crate::numbers::decimal(status as nat);
    crate::numbers::digits_have_value(status as nat, 10);
    crate::numbers::number_reads_back(status as nat, 10, u16::MAX as nat);
    status_line_is_one_line(status, reason);
    text::position_unique(line, ' ', 0, 8);
    let second = 9 + digits.len() as int;
    assert forall|j: int| 9 <= j < second implies line[j] != ' ' by {
        assert(line[j] == digits[j - 9]);
    }
    text::position_unique(line, ' ', 9, second);
    assert(line.subrange(9, second) =~= digits);
    assert(line.skip(second + 1) =~= reason);
    without_control_of_none(reason);
    rendered_head_lines(line, headers);
    let lines = http::head_lines(http::rendered_head(line, headers));
    let end = seq![Seq::<char>::empty(), Seq::<char>::empty()];
    assert(lines.drop_first() =~= field_lines(headers) + end);
    field_lines_read_back(headers, end);
}

/// A text without control characters loses none.
pub proof fn without_control_of_none(s: Seq<char>)
    requires
        forall|i: int| 0 <= i < s.len() ==> !http::is_control(#[trigger] s[i]),
    ensures
        http::without_control(s) == s,
    decreases s.len(),
{
    if s.len() > 0 {
        without_control_of_none(s.drop_last());
        assert(s.drop_last().push(s.last()) =~= s);
    } else {
        assert(s =~= Seq::<char>::empty());
    }
}

/// A reason that is read holds no control character.
pub proof fn read_reasons_are_clean(s: Seq<char>)
    ensures
        forall|i: int|
            0 <= i < http::without_control(s).len() ==> !http::is_control(
                #[trigger] http::without_control(s)[i],
            ),
    decreases s.len(),
{
    if s.len() > 0 {
        read_reasons_are_clean(s.drop_last());
        let front = http::without_control(s.drop_last());
        assert forall|i: int| 0 <= i < http::without_control(s).len() implies !http::is_control(
            #[trigger] http::without_control(s)[i],
        ) by {
            if i < front.len() {
                assert(http::without_control(s)[i] == front[i]);
            }
        }
    }
}

/// The blank line behind a head, as text.
pub open spec fn blank_line() -> Seq<char> {
    seq!['\r', '\n', '\r', '\n']
}

/// Behind header lines, the first blank line is the one put there.
pub proof fn no_blank_line_among_fields(headers: Seq<(Seq<char>, Seq<char>)>, k: int)
    requires
        clean_fields(headers),
        text::occurs_at(http::rendered_fields(headers) + http::line_end(), blank_line(), k),
    ensures
        k + 4 == http::rendered_fields(headers).len() + 2,
    decreases headers.len(),
{
    let all = http::rendered_fields(headers) + http::line_end();
    let found = all.subrange(k, k + 4);
    assert(found[0] == '\r' && found[1] == '\n' && found[2] == '\r' && found[3] == '\n');
    assert(all[k] == '\r' && all[k + 2] == '\r');
    if headers.len() > 0 {
        let tail = headers.drop_first();
        assert(clean_field(headers[0]));
        field_line_reads_back(headers[0]);
        rendered_fields_first(headers);
        let line = field_line(headers[0]);
        let n = line.len() as int;
        let rest = http::rendered_fields(tail) + http::line_end();
        assert(all =~= line + http::line_end() + rest);
        if k < n {
            assert(line.contains(line[k]));
        } else if k == n {
            assert(rest[0] == '\r');
            if tail.len() > 0 {
                rendered_fields_first(tail);
                assert(clean_field(tail[0]));
                field_line_reads_back(tail[0]);
                assert(rest[0] == field_line(tail[0])[0]);
                assert(field_line(tail[0]).contains(rest[0]));
            }
        } else if k > n + 1 {
            assert(rest.subrange(k - n - 2, k - n + 2) =~= found);
            no_blank_line_among_fields(tail, k - n - 2);
        }
    }
}

/// The first blank line of a head that is written is the one at its end.
pub proof fn rendered_head_has_one_blank_line(
    line: Seq<char>,
    headers: Seq<(Seq<char>, Seq<char>)>,
    k: int,
)
    requires
        !line.contains('\r'),
        clean_fields(headers),
    ensures
        text::occurs_at(http::rendered_head(line, headers), blank_line(), k) <==> k
            == http::rendered_head(line, headers).len() - 4,
{
    let whole = http::rendered_head(line, headers);
    let rest = http::rendered_fields(headers) + http::line_end();
    let n = line.len() as int;
    assert(whole =~= line + http::line_end() + rest);
    if headers.len() > 0 {
        rendered_fields_first(headers);
        assert(clean_field(headers[0]));
        field_line_reads_back(headers[0]);
    }
    if text::occurs_at(whole, blank_line(), k) {
        let found = whole.subrange(k, k + 4);
        assert(found[0] == '\r' && found[1] == '\n' && found[2] == '\r' && found[3] == '\n');
        assert(whole[k] == '\r' && whole[k + 2] == '\r');
        if k < n {
            assert(line.contains(line[k]));
        } else if k == n {
            assert(rest[0] == '\r');
            if headers.len() > 0 {
                assert(rest[0] == field_line(headers[0])[0]);
                assert(field_line(headers[0]).contains(rest[0]));
            }
        } else if k > n + 1 {
            assert(rest.subrange(k - n - 2, k - n + 2) =~= found);
            no_blank_line_among_fields(headers, k - n - 2);
        }
    }
    if k == whole.len() - 4 {
        assert(whole.subrange(k, k + 4) =~= blank_line());
    }
}

/// Characters with the same number are the same.
proof fn char_of_number(c: char, d: char)
    requires
        c as u32 == d as u32,
    ensures
        c == d,
{
}

/// ASCII bytes in a row in an encoding are characters in a row in the text.
proof fn bytes_in_a_row_are_chars(s: Seq<char>, j: int) -> (k: int)
    requires
        text::occurs_at(encode_utf8(s), http::head_mark(), j),
    ensures
        text::occurs_at(s, blank_line(), k),
        encode_utf8(s.take(k)).len() == j,
{
    let data = encode_utf8(s);
    let found = data.subrange(j, j + 4);
    assert(found[0] == 13 && found[1] == 10 && found[2] == 13 && found[3] == 10);
    assert(data[j] == 13 && data[j + 1] == 10 && data[j + 2] == 13 && data[j + 3] == 10);
    let k = laws_text::ascii_byte_is_a_char(s, j);
    let k1 = laws_text::ascii_byte_is_a_char(s, j + 1);
    let k2 = laws_text::ascii_byte_is_a_char(s, j + 2);
    let k3 = laws_text::ascii_byte_is_a_char(s, j + 3);
    next_char_of_next_byte(s, k, k1);
    next_char_of_next_byte(s, k1, k2);
    next_char_of_next_byte(s, k2, k3);
    char_of_number(s[k], '\r');
    char_of_number(s[k1], '\n');
    char_of_number(s[k2], '\r');
    char_of_number(s[k3], '\n');
    assert(s.subrange(k, k + 4) =~= blank_line());
    k
}

/// Where the encoding of a front is one byte longer, the front is one
/// character longer.
proof fn next_char_of_next_byte(s: Seq<char>, a: int, b: int)
    requires
        0 <= a < s.len(),
        0 <= b < s.len(),
        encode_utf8(s.take(b)).len() == encode_utf8(s.take(a)).len() + 1,
    ensures
        b == a + 1,
{
    if b <= a {
        if b < a {
            laws_text::encode_grows(s, b, a);
        }
    } else if b > a + 1 {
        laws_text::encode_grows(s, a, a + 1);
        laws_text::encode_grows(s, a + 1, b);
    }
}

/// A head that is written with clean headers ends where its bytes end,
/// whatever stands behind it.
pub proof fn rendered_head_ends(
    line: Seq<char>,
    headers: Seq<(Seq<char>, Seq<char>)>,
    rest: Seq<u8>,
)
    requires
        !line.contains('\r'),
        clean_fields(headers),
    ensures
        http::head_end(encode_utf8(http::rendered_head(line, headers)) + rest) == Some(
            encode_utf8(http::rendered_head(line, headers)).len() as int,
        ),
{
    let whole = http::rendered_head(line, headers);
    let data = encode_utf8(whole);
    let n = whole.len() as int;
    rendered_head_has_one_blank_line(line, headers, n - 4);
    let front = whole.take(n - 4);
    assert(whole =~= front + blank_line()) by {
        assert(whole.subrange(n - 4, n) =~= blank_line());
    }
    crate::bytes::encode_concat(front, blank_line());
    assert(encode_utf8(blank_line()) =~= http::head_mark()) by {
        assert(is_ascii_chars(blank_line()));
        is_ascii_chars_encode_utf8(blank_line());
        assert(blank_line()[0] as u8 == 13 && blank_line()[1] as u8 == 10);
    }
    let end = encode_utf8(front).len() as int;
    assert(data.subrange(end, end + 4) =~= http::head_mark());
    assert forall|j: int| 0 <= j < end implies !text::occurs_at(data, http::head_mark(), j) by {
        if text::occurs_at(data, http::head_mark(), j) {
            let k = bytes_in_a_row_are_chars(whole, j);
            rendered_head_has_one_blank_line(line, headers, k);
        }
    }
    text::find_unique(data, http::head_mark(), 0, end);
    find_in_front(data, rest, http::head_mark());
}

// ---------------------------------------------------------------------------
// What is passed on
// ---------------------------------------------------------------------------

/// The headers that are kept are those whose names are: none is lost, and none
/// comes in.
pub proof fn kept_are_the_kept(
    headers: Seq<(Seq<char>, Seq<char>)>,
    keep: spec_fn(Seq<char>) -> bool,
)
    ensures
        forall|field: (Seq<char>, Seq<char>)|
            #[trigger] relay::kept(headers, keep).contains(field) <==> headers.contains(field)
                && keep(field.0),
    decreases headers.len(),
{
    if headers.len() > 0 {
        let front = headers.drop_last();
        let last = headers.last();
        kept_are_the_kept(front, keep);
        assert(headers =~= front.push(last));
        let k = relay::kept(front, keep);
        assert forall|field: (Seq<char>, Seq<char>)|
            #[trigger] relay::kept(headers, keep).contains(field) <==> headers.contains(field)
                && keep(field.0) by {
            contains_of_push(front, last, field);
            contains_of_push(k, last, field);
            assert(k.contains(field) <==> front.contains(field) && keep(field.0));
        }
    }
}

/// What a row holds with one more at its end.
pub proof fn contains_of_push<T>(s: Seq<T>, last: T, x: T)
    ensures
        s.push(last).contains(x) <==> s.contains(x) || x == last,
{
    if s.contains(x) {
        let i = s.index_of(x);
        assert(s.push(last)[i] == x);
    }
    if x == last {
        assert(s.push(last)[s.len() as int] == x);
    }
    if s.push(last).contains(x) && x != last {
        let i = s.push(last).index_of(x);
        assert(s[i] == x);
    }
}

/// What a response says of the upstream connection is not passed on to the
/// client, nor the length of a body that has not been rewritten.
pub proof fn no_hop_by_hop_header_is_relayed(headers: Seq<(Seq<char>, Seq<char>)>)
    ensures
        forall|i: int|
            0 <= i < relay::relayed_fields(headers).len() - 2 ==> headers.contains(
                #[trigger] relay::relayed_fields(headers)[i],
            ) && !http::hop_by_hop(relay::relayed_fields(headers)[i].0) && !text::eq_ignore_case(
                relay::relayed_fields(headers)[i].0,
                "content-length"@,
            ),
{
    let keep = |name: Seq<char>| relay::keeps_in_response(name);
    kept_are_the_kept(headers, keep);
    let k = relay::kept(headers, keep);
    assert forall|i: int| 0 <= i < relay::relayed_fields(headers).len() - 2 implies headers.contains(
        #[trigger] relay::relayed_fields(headers)[i],
    ) && !http::hop_by_hop(relay::relayed_fields(headers)[i].0) && !text::eq_ignore_case(
        relay::relayed_fields(headers)[i].0,
        "content-length"@,
    ) by {
        assert(relay::relayed_fields(headers)[i] == k[i]);
        assert(k.contains(k[i]));
    }
}

} // verus!
