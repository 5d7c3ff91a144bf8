//! How requests and responses are read, form by form.
use crate::chunked;
use crate::error::{ErrorClass, HttpError};
use crate::http;
use crate::http::{Framing, HeadProgress};
use crate::laws_heads::same;
use crate::laws_http;
use crate::laws_primitives;
use crate::laws_relay;
use crate::numbers;
use crate::reader;
use crate::relay;
use crate::text;
use vstd::prelude::*;
use vstd::utf8::*;

verus! {

broadcast use vstd::string::group_string_axioms;

// ---------------------------------------------------------------------------
// Characters
// ---------------------------------------------------------------------------

/// A token holds letters, digits and fifteen other characters, at least one in
/// all.
pub proof fn tokens_by_number(s: Seq<char>)
    ensures
        http::token(s) <==> s.len() > 0 && forall|i: int|
            0 <= i < s.len() ==> {
                let n = (#[trigger] s[i]) as int;
                48 <= n <= 57 || 65 <= n <= 90 || 97 <= n <= 122 || n == 33 || 35 <= n <= 39 || n
                    == 42 || n == 43 || n == 45 || n == 46 || 94 <= n <= 96 || n == 124 || n == 126
            },
{
    assert forall|c: char| #[trigger] http::is_token_char(c) <==> {
        let n = c as int;
        48 <= n <= 57 || 65 <= n <= 90 || 97 <= n <= 122 || n == 33 || 35 <= n <= 39 || n == 42
            || n == 43 || n == 45 || n == 46 || 94 <= n <= 96 || n == 124 || n == 126
    } by {}
    if http::token(s) {
        assert forall|i: int| 0 <= i < s.len() implies {
            let n = (#[trigger] s[i]) as int;
            48 <= n <= 57 || 65 <= n <= 90 || 97 <= n <= 122 || n == 33 || 35 <= n <= 39 || n == 42
                || n == 43 || n == 45 || n == 46 || 94 <= n <= 96 || n == 124 || n == 126
        } by {
            assert(http::is_token_char(s[i]));
        }
    }
}

/// A request's target holds 1 to 8192 visible ASCII characters, and neither a
/// quote nor a backslash.
pub proof fn targets_by_number(s: Seq<char>)
    ensures
        http::request_target(s) <==> 1 <= s.len() <= 8192 && forall|i: int|
            0 <= i < s.len() ==> 33 <= (#[trigger] s[i]) as int <= 126 && s[i] as int != 34
                && s[i] as int != 92,
{
    if http::request_target(s) {
        assert forall|i: int| 0 <= i < s.len() implies 33 <= (#[trigger] s[i]) as int <= 126
            && s[i] as int != 34 && s[i] as int != 92 by {
            assert(http::is_target_char(s[i]));
        }
    }
}

/// The value of a header holds no line end and no zero character.
pub proof fn values_by_number(s: Seq<char>)
    ensures
        http::plain_value(s) <==> forall|i: int|
            0 <= i < s.len() ==> (#[trigger] s[i]) as int != 13 && s[i] as int != 10 && s[i] as int
                != 0,
{
    if http::plain_value(s) {
        assert forall|i: int| 0 <= i < s.len() implies (#[trigger] s[i]) as int != 13 && s[i] as int
            != 10 && s[i] as int != 0 by {}
    }
}

// ---------------------------------------------------------------------------
// Headers
// ---------------------------------------------------------------------------

/// A header line is a token, a colon, and a value with white space around it;
/// a line without a colon is none, nor is one with another kind of name or
/// with a value that is not plain.
pub proof fn header_lines_are_names_and_values(
    name: Seq<char>,
    before: Seq<char>,
    value: Seq<char>,
    behind: Seq<char>,
    other: Seq<char>,
)
    requires
        http::token(name),
        laws_primitives::blank(before),
        laws_primitives::blank(behind),
        http::plain_value(before + value + behind),
        value.len() > 0 ==> !text::is_whitespace(value[0]) && !text::is_whitespace(value.last()),
    ensures
        http::header_line(name + seq![':'] + before + value + behind) == Some((name, value)),
        !other.contains(':') ==> http::header_line(other) is None,
        !other.contains(':') && !http::token(other) ==> http::header_line(
            other + seq![':'] + before + value + behind,
        ) is None,
        !http::plain_value(other) ==> http::header_line(name + seq![':'] + other) is None,
{
    assert(!name.contains(':')) by {
        if name.contains(':') {
            assert(http::is_token_char(name[name.index_of(':')]));
        }
    }
    let tail = before + value + behind;
    let line = name + seq![':'] + before + value + behind;
    let none = Seq::<char>::empty();
    assert(line =~= none + name + seq![':'] + tail);
    laws_primitives::item_behind_a_front(none, name, ':', tail);
    assert(line.take(name.len() as int) =~= name);
    assert(line.skip(name.len() as int + 1) =~= tail);
    if value.len() > 0 {
        laws_primitives::trim_takes_off_the_ends(before, value, behind);
    } else {
        assert(value =~= none);
        assert forall|i: int| 0 <= i < tail.len() implies text::is_whitespace(
            #[trigger] tail[i],
        ) by {
            if i < before.len() {
                assert(tail[i] == before[i]);
            } else {
                assert(tail[i] == behind[i - before.len()]);
            }
        }
        laws_primitives::trim_of_white_space(tail);
        assert(text::trim(tail) =~= none);
    }
    if !other.contains(':') {
        assert forall|j: int| 0 <= j < other.len() implies other[j] != ':' by {
            assert(other.contains(other[j]));
        }
        text::position_absent(other, ':', 0);
        let bad = other + seq![':'] + before + value + behind;
        assert(bad =~= none + other + seq![':'] + tail);
        laws_primitives::item_behind_a_front(none, other, ':', tail);
        assert(bad.take(other.len() as int) =~= other);
    }
    let bad = name + seq![':'] + other;
    assert(bad =~= none + name + seq![':'] + other);
    laws_primitives::item_behind_a_front(none, name, ':', other);
    assert(bad.skip(name.len() as int + 1) =~= other);
}

/// Header lines are read in their order up to the first empty line, and one
/// line that is none makes them all unreadable.
pub proof fn headers_are_read_line_by_line(line: Seq<char>, rest: Seq<Seq<char>>)
    requires
        line.len() > 0,
    ensures
        http::header_line(line) matches Some(field) ==> http::header_lines(rest) matches Some(
            more,
        ) ==> http::header_lines(seq![line] + rest) == Some(seq![field] + more),
        http::header_line(line) is None ==> http::header_lines(seq![line] + rest) is None,
        http::header_lines(rest) is None ==> http::header_lines(seq![line] + rest) is None,
        http::header_lines(seq![Seq::<char>::empty()] + rest) == Some(
            Seq::<(Seq<char>, Seq<char>)>::empty(),
        ),
        http::header_lines(Seq::empty()) == Some(Seq::<(Seq<char>, Seq<char>)>::empty()),
{
    assert((seq![line] + rest).drop_first() =~= rest);
}

/// The value of a name is that of the first header with it, letter case aside.
pub proof fn the_first_header_counts(
    front: Seq<(Seq<char>, Seq<char>)>,
    name: Seq<char>,
    value: Seq<char>,
    rest: Seq<(Seq<char>, Seq<char>)>,
    wanted: Seq<char>,
)
    requires
        forall|i: int| 0 <= i < front.len() ==> !same(#[trigger] front[i].0, wanted),
        same(name, wanted),
    ensures
        http::first_value(front + seq![(name, value)] + rest, wanted) == Some(value),
        http::first_value(front, wanted) is None,
    decreases front.len(),
{
    let whole = front + seq![(name, value)] + rest;
    if front.len() > 0 {
        let less = front.drop_first();
        assert forall|i: int| 0 <= i < less.len() implies !same(#[trigger] less[i].0, wanted) by {
            assert(less[i] == front[i + 1]);
        }
        the_first_header_counts(less, name, value, rest, wanted);
        assert(whole.drop_first() =~= less + seq![(name, value)] + rest);
        assert(whole[0] == front[0]);
    } else {
        assert(whole[0] == (name, value));
    }
}

/// All the values of a name, header by header.
pub proof fn all_headers_count(
    front: Seq<(Seq<char>, Seq<char>)>,
    rest: Seq<(Seq<char>, Seq<char>)>,
    name: Seq<char>,
    value: Seq<char>,
    wanted: Seq<char>,
)
    ensures
        http::all_values(front + rest, wanted) == http::all_values(front, wanted)
            + http::all_values(rest, wanted),
        http::all_values(seq![(name, value)], wanted) == if same(name, wanted) {
            seq![value]
        } else {
            Seq::empty()
        },
        http::all_values(Seq::empty(), wanted).len() == 0,
    decreases front.len(),
{
    let one = seq![(name, value)];
    let none = Seq::<Seq<char>>::empty();
    assert(http::all_values(one.drop_first(), wanted) =~= none);
    assert(http::all_values(one, wanted) =~= if same(name, wanted) {
        seq![value]
    } else {
        none
    });
    if front.len() == 0 {
        assert(front + rest =~= rest);
        assert(http::all_values(front, wanted) + http::all_values(rest, wanted)
            =~= http::all_values(rest, wanted));
    } else {
        all_headers_count(front.drop_first(), rest, name, value, wanted);
        assert((front + rest).drop_first() =~= front.drop_first() + rest);
        assert(http::all_values(front + rest, wanted) =~= http::all_values(front, wanted)
            + http::all_values(rest, wanted));
    }
}

/// A value with commas names the chunked encoding if one of its parts does,
/// white space around it and letter case aside.
pub proof fn encodings_are_listed(part: Seq<char>, rest: Seq<char>)
    requires
        !part.contains(','),
    ensures
        http::names_chunked(part) <==> same(text::trim(part), "chunked"@),
        http::names_chunked(part + seq![','] + rest) <==> same(text::trim(part), "chunked"@)
            || http::names_chunked(rest),
{
    laws_primitives::lists_split_at_commas(part, rest);
    let one = text::pieces(part, seq![','], 0);
    assert(one[0] == part);
    let behind = text::pieces(rest, seq![','], 0);
    let all = text::pieces(part + seq![','] + rest, seq![','], 0);
    assert(all[0] == part);
    if http::names_chunked(rest) {
        let i = choose|i: int|
            0 <= i < behind.len() && text::eq_ignore_case(
                text::trim(#[trigger] behind[i]),
                "chunked"@,
            );
        assert(all[i + 1] == behind[i]);
    }
    if http::names_chunked(part + seq![','] + rest) {
        let i = choose|i: int|
            0 <= i < all.len() && text::eq_ignore_case(text::trim(#[trigger] all[i]), "chunked"@);
        if i > 0 {
            assert(all[i] == behind[i - 1]);
        }
    }
}

/// A body comes in chunks if some header `Transfer-Encoding` names the chunked
/// encoding.
pub proof fn chunked_headers(
    front: Seq<(Seq<char>, Seq<char>)>,
    rest: Seq<(Seq<char>, Seq<char>)>,
    name: Seq<char>,
    value: Seq<char>,
)
    ensures
        http::chunked(front + rest) <==> http::chunked(front) || http::chunked(rest),
        http::chunked(seq![(name, value)]) <==> same(name, "transfer-encoding"@)
            && http::names_chunked(value),
        !http::chunked(Seq::empty()),
{
    let both = front + rest;
    if http::chunked(front) {
        let i = choose|i: int|
            0 <= i < front.len() && text::eq_ignore_case(
                #[trigger] front[i].0,
                "transfer-encoding"@,
            ) && http::names_chunked(front[i].1);
        assert(both[i] == front[i]);
    }
    if http::chunked(rest) {
        let i = choose|i: int|
            0 <= i < rest.len() && text::eq_ignore_case(
                #[trigger] rest[i].0,
                "transfer-encoding"@,
            ) && http::names_chunked(rest[i].1);
        assert(both[front.len() + i] == rest[i]);
    }
    if http::chunked(both) {
        let i = choose|i: int|
            0 <= i < both.len() && text::eq_ignore_case(
                #[trigger] both[i].0,
                "transfer-encoding"@,
            ) && http::names_chunked(both[i].1);
        if i < front.len() {
            assert(both[i] == front[i]);
        } else {
            assert(both[i] == rest[i - front.len()]);
        }
    }
    let one = seq![(name, value)];
    assert(one[0].0 == name && one[0].1 == value);
}

/// How the headers frame a body: by no length and no chunks it is empty; by
/// one length, written in digits with white space around them, it has that
/// length, up to 67108864; by chunks alone it comes in chunks; by both, or by
/// two lengths, it is refused.
pub proof fn bodies_are_framed(
    headers: Seq<(Seq<char>, Seq<char>)>,
    before: Seq<char>,
    length: nat,
    behind: Seq<char>,
)
    requires
        laws_primitives::blank(before),
        laws_primitives::blank(behind),
        length <= usize::MAX,
    ensures
        ({
            let lengths = http::all_values(headers, "content-length"@);
            let framing = http::request_framing(headers);
            &&& lengths.len() == 0 && !http::chunked(headers) ==> framing == Ok::<
                Framing,
                HttpError,
            >(Framing::Length(0))
            &&& lengths.len() == 0 && http::chunked(headers) ==> framing == Ok::<
                Framing,
                HttpError,
            >(Framing::Chunked)
            &&& lengths.len() > 0 && http::chunked(headers) ==> framing == Err::<
                Framing,
                HttpError,
            >(HttpError::ConflictingFraming)
            &&& lengths.len() > 1 ==> framing == Err::<Framing, HttpError>(
                HttpError::ConflictingFraming,
            )
            &&& !http::chunked(headers) && lengths == seq![
                before + numbers::decimal(length) + behind,
            ] ==> framing == if length <= 67108864 {
                Ok::<Framing, HttpError>(Framing::Length(length as usize))
            } else {
                Err(HttpError::RequestTooLarge)
            }
            &&& !http::chunked(headers) && lengths.len() == 1 && numbers::parse_unsigned(
                text::trim(lengths[0]),
                10,
                usize::MAX as nat,
            ) is None ==> framing == Err::<Framing, HttpError>(HttpError::InvalidContentLength)
        }),
{
    let digits = numbers::decimal(length);
    numbers::digits_have_value(length, 10);
    numbers::number_reads_back(length, 10, usize::MAX as nat);
    assert(!text::is_whitespace(digits[0]));
    assert(!text::is_whitespace(digits.last()));
    laws_primitives::trim_takes_off_the_ends(before, digits, behind);
    let lengths = http::all_values(headers, "content-length"@);
    assert(lengths == seq![before + digits + behind] ==> lengths[0] == before + digits + behind);
}

// ---------------------------------------------------------------------------
// Heads
// ---------------------------------------------------------------------------

/// A head ends behind the first blank line, and where there is none it has no
/// end.
pub proof fn heads_end_at_a_blank_line(front: Seq<u8>, rest: Seq<u8>, data: Seq<u8>)
    requires
        forall|j: int|
            0 <= j < front.len() ==> !text::occurs_at(
                front + seq![13u8, 10, 13, 10],
                seq![13u8, 10, 13, 10],
                j,
            ),
    ensures
        http::head_end(front + seq![13u8, 10, 13, 10] + rest) == Some(front.len() as int + 4),
        (forall|j: int| 0 <= j ==> !text::occurs_at(data, seq![13u8, 10, 13, 10], j))
            ==> http::head_end(data) is None,
{
    laws_primitives::found_behind_a_front(front, seq![13u8, 10, 13, 10], rest);
    if forall|j: int| 0 <= j ==> !text::occurs_at(data, seq![13u8, 10, 13, 10], j) {
        text::find_absent(data, seq![13u8, 10, 13, 10], 0);
    }
}

/// What has come in of a request before its head is complete: more is needed
/// up to 65536 bytes, and a head beyond that is refused.
pub proof fn heads_are_limited(stream: Seq<u8>, ended: bool)
    ensures
        http::head_end(stream) is None && stream.len() <= 65536 && !ended ==> reader::request_of(
            stream,
            ended,
        ) == reader::ReadModel::More,
        http::head_end(stream) is None && stream.len() <= 65536 && ended ==> reader::request_of(
            stream,
            ended,
        ) == reader::ReadModel::Failed(HttpError::IncompleteRequestHead),
        http::head_end(stream) is None && stream.len() > 65536 ==> reader::request_of(stream, ended)
            == reader::ReadModel::Failed(HttpError::HeadTooLarge),
        http::head_end(stream) matches Some(end) ==> end > 65536 ==> reader::request_of(
            stream,
            ended,
        ) == reader::ReadModel::Failed(HttpError::HeadTooLarge),
        http::head_end(stream) matches Some(end) ==> end <= 65536 && !valid_utf8(stream.take(end))
            ==> reader::request_of(stream, ended) == reader::ReadModel::Failed(
            HttpError::NonUtf8Head,
        ),
{
    text::find_is_least(stream, http::head_mark(), 0);
}

/// A head that has come in whole is read as a text, and then the body as it is
/// framed: of a known length as many bytes as that, in chunks until the last.
pub proof fn complete_heads_decide(stream: Seq<u8>, end: int, ended: bool)
    requires
        http::head_end(stream) == Some(end),
        end <= 65536,
        valid_utf8(stream.take(end)),
    ensures
        ({
            let read = reader::request_of(stream, ended);
            let rest = stream.skip(end);
            match http::request_head_text(decode_utf8(stream.take(end))) {
                Err(e) => read == reader::ReadModel::Failed(e),
                Ok(head) => match head.framing {
                    Framing::Length(length) => read == if rest.len() >= length {
                        reader::ReadModel::Done(
                            reader::RequestModel {
                                method: head.method,
                                path: head.path,
                                headers: head.headers,
                                body: rest.take(length as int),
                            },
                        )
                    } else if ended {
                        reader::ReadModel::Failed(HttpError::BodyCutShort)
                    } else {
                        reader::ReadModel::More
                    },
                    Framing::Chunked => match chunked::dechunk(Seq::empty(), rest) {
                        chunked::BodyModel::Done(body) => read == reader::ReadModel::Done(
                            reader::RequestModel {
                                method: head.method,
                                path: head.path,
                                headers: head.headers,
                                body,
                            },
                        ),
                        chunked::BodyModel::Failed(e) => read == reader::ReadModel::Failed(e),
                        chunked::BodyModel::More { body: _, rest: _ } => read == if ended {
                            reader::ReadModel::Failed(HttpError::EndedEarly)
                        } else {
                            reader::ReadModel::More
                        },
                    },
                },
            }
        }),
{
    text::find_is_least(stream, http::head_mark(), 0);
}

/// How far a head has come for any limit: it is complete where it ends within
/// the limit, too large where it cannot any more, and not complete otherwise.
pub proof fn heads_come_in(data: Seq<u8>, limit: int)
    requires
        limit <= usize::MAX,
    ensures
        http::head_end(data) matches Some(end) ==> end <= limit ==> http::head_progress(data, limit)
            == HeadProgress::Complete(end as usize),
        http::head_end(data) matches Some(end) ==> end > limit ==> http::head_progress(data, limit)
            == HeadProgress::TooLarge,
        http::head_end(data) is None && data.len() > limit ==> http::head_progress(data, limit)
            == HeadProgress::TooLarge,
        http::head_end(data) is None && data.len() <= limit ==> http::head_progress(data, limit)
            == HeadProgress::More,
{
}

/// A request line is a method and a target between white space, and what
/// stands behind them does not count; a method that is missing is `POST`, a
/// target that is missing is `/`.
pub proof fn request_lines_are_two_words(
    before: Seq<char>,
    method: Seq<char>,
    between: Seq<char>,
    path: Seq<char>,
    rest: Seq<char>,
)
    requires
        laws_primitives::blank(before),
        laws_primitives::blank(between),
        between.len() > 0,
        method.len() > 0,
        path.len() > 0,
        forall|i: int| 0 <= i < method.len() ==> !text::is_whitespace(#[trigger] method[i]),
        forall|i: int| 0 <= i < path.len() ==> !text::is_whitespace(#[trigger] path[i]),
        rest.len() > 0 ==> text::is_whitespace(rest[0]),
    ensures
        http::line_method(before + method + between + path + rest) == method,
        http::line_path(before + method + between + path + rest) == path,
        http::line_method(before + method) == method,
        http::line_path(before + method) == "/"@,
        http::line_method(before + method + between) == method,
        http::line_path(before + method + between) == "/"@,
        http::line_method(before) == "POST"@,
        http::line_path(before) == "/"@,
{
    let none = Seq::<char>::empty();
    let line = before + method + between + path + rest;
    let tail = between + path + rest;
    assert(tail[0] == between[0]);
    laws_primitives::words_stand_between_white_space(none, before, method, tail);
    assert(none + before + method + tail =~= line);
    let front = before + method;
    laws_primitives::words_stand_between_white_space(front, between, path, rest);
    assert(front + between + path + rest =~= line);
    let n = before.len() as int;
    let m = n + method.len();
    assert(line.subrange(n, m) =~= method);
    assert(line.subrange(m + between.len(), m + between.len() + path.len()) =~= path);
    laws_primitives::words_stand_between_white_space(none, before, method, none);
    assert(none + before + method + none =~= front);
    assert(front.subrange(n, m) =~= method);
    laws_primitives::skip_space_over(front, none, none);
    assert(front + none + none =~= front);
    let spaced = front + between;
    assert(between[0] == (between + none)[0]);
    laws_primitives::words_stand_between_white_space(none, before, method, between);
    assert(none + before + method + between =~= spaced);
    assert(spaced.subrange(n, m) =~= method);
    laws_primitives::skip_space_over(front, between, none);
    assert(front + between + none =~= spaced);
    laws_primitives::skip_space_over(none, before, none);
    assert(none + before + none =~= before);
}

/// The errors of a head in their order: first its line, then its headers, then
/// the framing of its body.
pub proof fn heads_are_refused_in_order(line: Seq<char>, rest: Seq<char>)
    requires
        !line.contains('\r'),
    ensures
        ({
            let read = http::request_head_text(line + seq!['\r', '\n'] + rest);
            let headers = http::header_lines(text::pieces(rest, seq!['\r', '\n'], 0));
            let good = http::token(http::line_method(line)) && http::request_target(
                http::line_path(line),
            );
            &&& !good ==> read == Err::<http::RequestHeadModel, HttpError>(
                HttpError::InvalidRequestLine,
            )
            &&& good && headers is None ==> read == Err::<http::RequestHeadModel, HttpError>(
                HttpError::MalformedHeader,
            )
            &&& good ==> (headers matches Some(fields) ==> match http::request_framing(fields) {
                Err(e) => read == Err::<http::RequestHeadModel, HttpError>(e),
                Ok(framing) => read == Ok::<http::RequestHeadModel, HttpError>(
                    (http::RequestHeadModel {
                        method: http::line_method(line),
                        path: http::line_path(line),
                        headers: fields,
                        framing,
                    }),
                ),
            })
        }),
{
    let sep = seq!['\r', '\n'];
    assert forall|j: int| 0 <= j < line.len() implies !text::occurs_at(line + sep, sep, j) by {
        assert(line.contains(line[j]));
        if text::occurs_at(line + sep, sep, j) {
            assert((line + sep).subrange(j, j + 2)[0] == line[j]);
            assert(sep[0] == '\r');
        }
    }
    laws_primitives::first_part_splits_off(line, sep, rest);
    let lines = http::head_lines(line + sep + rest);
    assert(lines[0] == line);
    assert(lines.drop_first() =~= text::pieces(rest, sep, 0));
}

/// A request line with a word behind it is one line and reads back.
proof fn plain_request_line(method: Seq<char>, path: Seq<char>, rest: Seq<char>)
    requires
        http::token(method),
        http::request_target(path),
        !rest.contains('\r'),
        rest.len() > 0 ==> text::is_whitespace(rest[0]),
    ensures
        http::line_method(method + seq![' '] + path + rest) == method,
        http::line_path(method + seq![' '] + path + rest) == path,
        !(method + seq![' '] + path + rest).contains('\r'),
{
    let none = Seq::<char>::empty();
    let line = method + seq![' '] + path + rest;
    assert forall|i: int| 0 <= i < method.len() implies !text::is_whitespace(
        #[trigger] method[i],
    ) by {
        assert(http::is_token_char(method[i]));
    }
    assert forall|i: int| 0 <= i < path.len() implies !text::is_whitespace(#[trigger] path[i]) by {
        assert(http::is_target_char(path[i]));
    }
    request_lines_are_two_words(none, method, seq![' '], path, rest);
    assert(none + method + seq![' '] + path + rest =~= line);
    assert forall|j: int| 0 <= j < line.len() implies line[j] != '\r' by {
        if j < method.len() {
            assert(!text::is_whitespace(method[j]));
        } else if j == method.len() {
            assert(line[j] == ' ');
        } else if j < method.len() + 1 + path.len() {
            assert(!text::is_whitespace(path[j - method.len() - 1]));
        } else {
            assert(rest.contains(rest[j - method.len() - 1 - path.len()]));
        }
    }
}

/// A request that is written out is read as what it says: its method, its
/// target, its headers and its body, whatever comes behind it on the
/// connection. While a part of its body is missing more is needed, and if no
/// more comes it is refused.
pub proof fn requests_read_back(
    method: Seq<char>,
    path: Seq<char>,
    version: Seq<char>,
    headers: Seq<(Seq<char>, Seq<char>)>,
    body: Seq<u8>,
    part: Seq<u8>,
    more: Seq<u8>,
    ended: bool,
)
    requires
        http::token(method),
        http::request_target(path),
        !version.contains('\r'),
        version.len() > 0 ==> text::is_whitespace(version[0]),
        laws_http::clean_fields(headers),
        encode_utf8(
            http::rendered_head(method + seq![' '] + path + version, headers),
        ).len() <= 65536,
        part.len() < body.len(),
    ensures
        ({
            let head = encode_utf8(
                http::rendered_head(method + seq![' '] + path + version, headers),
            );
            &&& http::request_framing(headers) == Ok::<Framing, HttpError>(
                Framing::Length(body.len() as usize),
            ) && body.len() <= usize::MAX ==> {
                &&& reader::request_of(head + body + more, ended) == reader::ReadModel::Done(
                    reader::RequestModel { method, path, headers, body },
                )
                &&& reader::request_of(head + part, false) == reader::ReadModel::More
                &&& reader::request_of(head + part, true) == reader::ReadModel::Failed(
                    HttpError::BodyCutShort,
                )
            }
            &&& http::request_framing(headers) == Ok::<Framing, HttpError>(Framing::Length(0))
                ==> reader::request_of(head + more, ended) == reader::ReadModel::Done(
                reader::RequestModel { method, path, headers, body: Seq::empty() },
            )
            &&& http::request_framing(headers) == Ok::<Framing, HttpError>(Framing::Chunked)
                ==> match chunked::dechunk(Seq::empty(), more) {
                chunked::BodyModel::Done(whole) => reader::request_of(head + more, ended)
                    == reader::ReadModel::Done(
                    reader::RequestModel { method, path, headers, body: whole },
                ),
                chunked::BodyModel::Failed(e) => reader::request_of(head + more, ended)
                    == reader::ReadModel::Failed(e),
                chunked::BodyModel::More { body: _, rest: _ } => reader::request_of(
                    head + more,
                    ended,
                ) == if ended {
                    reader::ReadModel::Failed(HttpError::EndedEarly)
                } else {
                    reader::ReadModel::More
                },
            }
            &&& http::request_framing(headers) matches Err(e) ==> reader::request_of(
                head + more,
                ended,
            ) == reader::ReadModel::Failed(e)
        }),
{
    let line = method + seq![' '] + path + version;
    let written = http::rendered_head(line, headers);
    let head = encode_utf8(written);
    let n = head.len() as int;
    plain_request_line(method, path, version);
    laws_http::rendered_head_ends(line, headers, body + more);
    laws_http::rendered_head_ends(line, headers, part);
    laws_http::rendered_head_ends(line, headers, more);
    assert(head + body + more =~= head + (body + more));
    assert((head + (body + more)).take(n) =~= head);
    assert((head + (body + more)).skip(n) =~= body + more);
    assert((head + part).take(n) =~= head);
    assert((head + part).skip(n) =~= part);
    assert((head + more).take(n) =~= head);
    assert((head + more).skip(n) =~= more);
    assert((body + more).take(body.len() as int) =~= body);
    assert(more.take(0) =~= Seq::<u8>::empty());
    encode_utf8_valid_utf8(written);
    encode_utf8_decode_utf8(written);
    laws_http::rendered_head_lines(line, headers);
    let lines = http::head_lines(written);
    let blank = seq![Seq::<char>::empty(), Seq::<char>::empty()];
    assert(lines[0] == line);
    assert(lines.drop_first() =~= laws_http::field_lines(headers) + blank);
    laws_http::field_lines_read_back(headers, blank);
}

// ---------------------------------------------------------------------------
// Chunks
// ---------------------------------------------------------------------------

/// The size of a chunk is what its line writes in hexadecimal, with white
/// space around it; what stands behind a semicolon does not count.
pub proof fn chunk_lines_may_go_on(
    before: Seq<char>,
    size: nat,
    behind: Seq<char>,
    extension: Seq<u8>,
)
    requires
        laws_primitives::blank(before),
        laws_primitives::blank(behind),
        size <= usize::MAX - 2,
    ensures
        chunked::chunk_size(
            encode_utf8(before + numbers::hex(size) + behind) + seq![59u8] + extension,
        ) == Some(size),
        chunked::chunk_size(encode_utf8(before + numbers::hex(size) + behind)) == Some(size),
{
    // Neither white space nor a digit is a semicolon.
    let digits = numbers::hex(size);
    let written = before + digits + behind;
    let line = encode_utf8(written);
    numbers::digits_have_value(size, 16);
    numbers::number_reads_back(size, 16, (usize::MAX - 2) as nat);
    assert(!text::is_whitespace(digits[0]));
    assert(!text::is_whitespace(digits.last()));
    laws_primitives::trim_takes_off_the_ends(before, digits, behind);
    encode_utf8_valid_utf8(written);
    encode_utf8_decode_utf8(written);
    assert forall|j: int| 0 <= j < line.len() implies line[j] != 59 by {
        if line[j] == 59 {
            let k = crate::laws_text::ascii_byte_is_a_char(written, j);
            assert(written[k] == ';');
            if k < before.len() {
                assert(text::is_whitespace(before[k]));
            } else if k < before.len() + digits.len() {
                assert(written[k] == digits[k - before.len()]);
            } else {
                assert(text::is_whitespace(behind[k - before.len() - digits.len()]));
            }
        }
    }
    text::position_absent(line, 59u8, 0);
    let longer = line + seq![59u8] + extension;
    assert(!line.contains(59u8));
    let none = Seq::<u8>::empty();
    laws_primitives::item_behind_a_front(none, line, 59u8, extension);
    assert(none + line + seq![59u8] + extension =~= longer);
    assert(longer.take(line.len() as int) =~= line);
}

/// Any line up to its first semicolon writes a size in hexadecimal digits of
/// either case, or none.
pub proof fn chunk_lines_write_numbers(line: Seq<u8>, extension: Seq<u8>)
    requires
        !line.contains(59u8),
    ensures
        ({
            let written = if valid_utf8(line) {
                numbers::parse_unsigned(
                    text::trim(decode_utf8(line)),
                    16,
                    (usize::MAX - 2) as nat,
                )
            } else {
                None
            };
            &&& chunked::chunk_size(line) == written
            &&& chunked::chunk_size(line + seq![59u8] + extension) == written
        }),
{
    assert forall|j: int| 0 <= j < line.len() implies line[j] != 59 by {
        assert(line.contains(line[j]));
    }
    text::position_absent(line, 59u8, 0);
    let longer = line + seq![59u8] + extension;
    let none = Seq::<u8>::empty();
    laws_primitives::item_behind_a_front(none, line, 59u8, extension);
    assert(none + line + seq![59u8] + extension =~= longer);
    assert(longer.take(line.len() as int) =~= line);
}

/// A chunked body is read chunk by chunk: a line with the size, that many
/// bytes, and a line end. The first chunk of size zero ends it, a line without
/// a size spoils it, and beyond 67108864 bytes it is refused.
pub proof fn bodies_are_read_chunk_by_chunk(
    body: Seq<u8>,
    line: Seq<u8>,
    data: Seq<u8>,
    end: Seq<u8>,
    rest: Seq<u8>,
)
    requires
        forall|j: int|
            0 <= j < line.len() ==> !text::occurs_at(line + seq![13u8, 10], seq![13u8, 10], j),
        line.len() <= 67108864,
        end.len() == 2,
    ensures
        chunked::chunk_size(line) == Some(data.len()) && data.len() > 0 ==> chunked::dechunk(
            body,
            line + seq![13u8, 10] + data + end + rest,
        ) == if body.len() + data.len() <= 67108864 {
            chunked::dechunk(body + data, rest)
        } else {
            chunked::BodyModel::Failed(HttpError::RequestTooLarge)
        },
        chunked::chunk_size(line) == Some(0nat) ==> chunked::dechunk(
            body,
            line + seq![13u8, 10] + rest,
        ) == chunked::BodyModel::Done(body),
        chunked::chunk_size(line) is None ==> chunked::dechunk(body, line + seq![13u8, 10] + rest)
            == chunked::BodyModel::Failed(HttpError::InvalidChunkSize),
        chunked::chunk_size(line) matches Some(size) ==> size > rest.len() ==> chunked::dechunk(
            body,
            line + seq![13u8, 10] + rest,
        ) == if body.len() + size <= 67108864 {
            chunked::BodyModel::More { body, rest: line + seq![13u8, 10] + rest }
        } else {
            chunked::BodyModel::Failed(HttpError::RequestTooLarge)
        },
{
    let sep = seq![13u8, 10];
    let n = line.len() as int;
    laws_primitives::found_behind_a_front(line, sep, data + end + rest);
    laws_primitives::found_behind_a_front(line, sep, rest);
    let whole = line + sep + (data + end + rest);
    assert(line + sep + data + end + rest =~= whole);
    assert(whole.take(n) =~= line);
    assert((line + sep + rest).take(n) =~= line);
    if chunked::chunk_size(line) == Some(data.len()) && data.len() > 0 {
        assert(whole.subrange(n + 2, n + 2 + data.len()) =~= data);
        assert(whole.skip(n + 4 + data.len()) =~= rest);
    }
}

/// A line that does not end is waited for up to 67108865 bytes, and a longer
/// one is refused.
pub proof fn chunk_lines_are_limited(body: Seq<u8>, buf: Seq<u8>)
    requires
        forall|j: int| 0 <= j ==> !text::occurs_at(buf, seq![13u8, 10], j),
    ensures
        chunked::dechunk(body, buf) == if buf.len() <= 67108865 {
            chunked::BodyModel::More { body, rest: buf }
        } else {
            chunked::BodyModel::Failed(HttpError::RequestTooLarge)
        },
{
    text::find_absent(buf, seq![13u8, 10], 0);
}

/// A chunk in writing: its size in hexadecimal, a line end, the data and a
/// line end. Of no data there is no chunk, and the last one is of size zero.
pub proof fn chunks_are_written(data: Seq<u8>)
    ensures
        data.len() > 0 ==> chunked::chunk(data) == encode_utf8(numbers::hex(data.len())) + seq![
            13u8,
            10,
        ] + data + seq![13u8, 10],
        data.len() == 0 ==> chunked::chunk(data).len() == 0,
        chunked::last_chunk() == seq![48u8, 13, 10, 13, 10],
{
}

// ---------------------------------------------------------------------------
// Responses
// ---------------------------------------------------------------------------

/// A status line gives the number behind the first space, and the words behind
/// the second without control characters; where there is no number the status
/// is 502, and where there are no words the reason is empty.
pub proof fn status_lines_are_split_at_spaces(
    version: Seq<char>,
    status: u16,
    other: Seq<char>,
    reason: Seq<char>,
)
    requires
        !version.contains(' '),
        !other.contains(' '),
    ensures
        ({
            let digits = numbers::decimal(status as nat);
            &&& http::line_status(version + seq![' '] + digits + seq![' '] + reason) == status
            &&& http::line_reason(version + seq![' '] + digits + seq![' '] + reason)
                == http::without_control(reason)
            &&& http::line_status(version + seq![' '] + digits) == status
            &&& http::line_reason(version + seq![' '] + digits).len() == 0
            &&& http::line_status(version) == 502
            &&& http::line_reason(version).len() == 0
            &&& http::line_status(version + seq![' '] + other + seq![' '] + reason)
                == match numbers::parse_unsigned(other, 10, 65535) {
                Some(n) => n as u16,
                None => 502,
            }
            &&& http::line_status(version + seq![' '] + other) == match numbers::parse_unsigned(
                other,
                10,
                65535,
            ) {
                Some(n) => n as u16,
                None => 502,
            }
            &&& http::line_reason(version + seq![' '] + other + seq![' '] + reason)
                == http::without_control(reason)
        }),
{
    let digits = numbers::decimal(status as nat);
    numbers::digits_have_value(status as nat, 10);
    numbers::number_reads_back(status as nat, 10, u16::MAX as nat);
    assert(!digits.contains(' ')) by {
        if digits.contains(' ') {
            let i = digits.index_of(' ');
            assert('0' <= digits[i] <= '9' || 'A' <= digits[i] <= 'F');
        }
    }
    status_line_parts(version, digits, reason);
    status_line_parts(version, other, reason);
    assert forall|j: int| 0 <= j < version.len() implies version[j] != ' ' by {
        assert(version.contains(version[j]));
    }
    text::position_absent(version, ' ', 0);
}

/// Where the spaces of a status line are.
proof fn status_line_parts(version: Seq<char>, number: Seq<char>, reason: Seq<char>)
    requires
        !version.contains(' '),
        !number.contains(' '),
    ensures
        ({
            let line = version + seq![' '] + number + seq![' '] + reason;
            let short = version + seq![' '] + number;
            let first = version.len() as int;
            let second = first + 1 + number.len();
            &&& text::position(line, ' ', 0) == Some(first)
            &&& text::position(line, ' ', first + 1) == Some(second)
            &&& line.subrange(first + 1, second) == number
            &&& line.skip(second + 1) == reason
            &&& text::position(short, ' ', 0) == Some(first)
            &&& text::position(short, ' ', first + 1) is None
            &&& short.subrange(first + 1, short.len() as int) == number
        }),
{
    let none = Seq::<char>::empty();
    let line = version + seq![' '] + number + seq![' '] + reason;
    let short = version + seq![' '] + number;
    laws_primitives::item_behind_a_front(none, version, ' ', number + seq![' '] + reason);
    assert(none + version + seq![' '] + (number + seq![' '] + reason) =~= line);
    laws_primitives::item_behind_a_front(version + seq![' '], number, ' ', reason);
    laws_primitives::item_behind_a_front(none, version, ' ', number);
    assert(none + version + seq![' '] + number =~= short);
    let first = version.len() as int;
    assert forall|j: int| first + 1 <= j < short.len() implies short[j] != ' ' by {
        assert(number.contains(number[j - first - 1]));
    }
    text::position_absent(short, ' ', first + 1);
    assert(line.subrange(first + 1, first + 1 + number.len()) =~= number);
    assert(line.skip(first + 1 + number.len() + 1) =~= reason);
    assert(short.subrange(first + 1, short.len() as int) =~= number);
}

/// The control characters are those below 32 and those from 127 to 159; they
/// alone are taken out.
pub proof fn control_characters_are_taken_out(s: Seq<char>)
    ensures
        http::without_control(s) == s.filter(
            |c: char| !((c as int) <= 31 || 127 <= c as int && c as int <= 159),
        ),
    decreases s.len(),
{
    reveal(Seq::filter);
    let wanted = |c: char| !((c as int) <= 31 || 127 <= c as int && c as int <= 159);
    if s.len() > 0 {
        control_characters_are_taken_out(s.drop_last());
        assert(wanted(s.last()) == !http::is_control(s.last()));
    } else {
        assert(s.filter(wanted) =~= http::without_control(s));
    }
}

/// A response's head is its status line and its headers, and what has come in
/// behind it is the beginning of its body.
pub proof fn response_heads_are_read(line: Seq<char>, rest: Seq<char>, more: Seq<u8>)
    requires
        !line.contains('\r'),
    ensures
        match http::header_lines(text::pieces(rest, seq!['\r', '\n'], 0)) {
            None => http::response_head_text(line + seq!['\r', '\n'] + rest, more) == Err::<
                http::ResponseHeadModel,
                HttpError,
            >(HttpError::MalformedHeader),
            Some(headers) => http::response_head_text(line + seq!['\r', '\n'] + rest, more) == Ok::<
                http::ResponseHeadModel,
                HttpError,
            >(
                (http::ResponseHeadModel {
                    status: http::line_status(line),
                    reason: http::line_reason(line),
                    headers,
                    buffered_body: more,
                }),
            ),
        },
{
    let sep = seq!['\r', '\n'];
    assert forall|j: int| 0 <= j < line.len() implies !text::occurs_at(line + sep, sep, j) by {
        assert(line.contains(line[j]));
        if text::occurs_at(line + sep, sep, j) {
            assert((line + sep).subrange(j, j + 2)[0] == line[j]);
            assert(sep[0] == '\r');
        }
    }
    laws_primitives::first_part_splits_off(line, sep, rest);
    let lines = http::head_lines(line + sep + rest);
    assert(lines[0] == line);
    assert(lines.drop_first() =~= text::pieces(rest, sep, 0));
}

/// A response is read from its bytes: without a blank line its head is not
/// complete, and what stands behind the blank line belongs to its body.
pub proof fn responses_are_read(raw: Seq<u8>)
    ensures
        http::head_end(raw) is None ==> http::response_head(raw) == Err::<
            http::ResponseHeadModel,
            HttpError,
        >(HttpError::IncompleteResponseHead),
        http::head_end(raw) matches Some(end) ==> http::response_head(raw)
            == http::response_head_text(http::lossy_text(raw.take(end)), raw.skip(end)),
{
}

/// The length of a response's body is the number that its first
/// `Content-Length` writes; where it writes none there is no length.
pub proof fn response_lengths_are_read(
    front: Seq<(Seq<char>, Seq<char>)>,
    name: Seq<char>,
    length: nat,
    value: Seq<char>,
    rest: Seq<(Seq<char>, Seq<char>)>,
)
    requires
        forall|i: int| 0 <= i < front.len() ==> !same(#[trigger] front[i].0, "content-length"@),
        same(name, "content-length"@),
        length <= usize::MAX,
    ensures
        relay::response_length(front + seq![(name, numbers::decimal(length))] + rest) == Some(
            length,
        ),
        relay::response_length(front) is None,
        relay::response_length(front + seq![(name, value)] + rest) == numbers::parse_unsigned(
            value,
            10,
            usize::MAX as nat,
        ),
{
    the_first_header_counts(front, name, value, rest, "content-length"@);
    the_first_header_counts(front, name, numbers::decimal(length), rest, "content-length"@);
    numbers::number_reads_back(length, 10, usize::MAX as nat);
}

// ---------------------------------------------------------------------------
// Writing
// ---------------------------------------------------------------------------

/// A head in writing: the first line, a line `name: value` for each header in
/// its order, and an empty line.
pub proof fn heads_are_written_line_by_line(
    line: Seq<char>,
    front: Seq<(Seq<char>, Seq<char>)>,
    rest: Seq<(Seq<char>, Seq<char>)>,
    name: Seq<char>,
    value: Seq<char>,
)
    ensures
        http::rendered_head(line, front) == line + seq!['\r', '\n'] + http::rendered_fields(front)
            + seq!['\r', '\n'],
        http::rendered_fields(front + rest) == http::rendered_fields(front)
            + http::rendered_fields(rest),
        http::rendered_fields(seq![(name, value)]) == name + seq![':', ' '] + value + seq![
            '\r',
            '\n',
        ],
        http::rendered_fields(Seq::empty()).len() == 0,
    decreases rest.len(),
{
    let one = seq![(name, value)];
    let none = Seq::<char>::empty();
    assert(http::rendered_fields(one.drop_last()) =~= none);
    assert(http::rendered_fields(one) =~= name + seq![':', ' '] + value + seq!['\r', '\n']);
    if rest.len() == 0 {
        assert(front + rest =~= front);
        assert(http::rendered_fields(front) + http::rendered_fields(rest)
            =~= http::rendered_fields(front));
    } else {
        heads_are_written_line_by_line(line, front, rest.drop_last(), name, value);
        assert((front + rest).drop_last() =~= front + rest.drop_last());
        assert(http::rendered_fields(front + rest) =~= http::rendered_fields(front)
            + http::rendered_fields(rest));
    }
}

/// A status line and an error in writing.
pub proof fn errors_are_written(status: u16, reason: Seq<char>, message: Seq<char>)
    ensures
        relay::status_line(status, reason) == "HTTP/1.1 "@ + numbers::decimal(status as nat) + seq![
            ' ',
        ] + reason,
        ({
            let body = "{\"error\":{\"message\":\""@ + crate::rewrite::json_text(message)
                + "\"}}"@;
            relay::error_answer(status, reason, message) == http::rendered_head(
                "HTTP/1.1 "@ + numbers::decimal(status as nat) + seq![' '] + reason,
                seq![
                    ("Content-Type"@, "application/json"@),
                    ("Content-Length"@, numbers::decimal(encode_utf8(body).len())),
                    ("X-Content-Type-Options"@, "nosniff"@),
                    ("Connection"@, "close"@),
                ],
            ) + body
        }),
{
}

/// What goes on to the client of bytes that have been taken: all up to the
/// last line feed; where there is none they are held back up to 1048576 bytes.
pub proof fn lines_go_on_whole(front: Seq<u8>, rest: Seq<u8>, other: Seq<u8>)
    requires
        !rest.contains(10u8),
        !other.contains(10u8),
    ensures
        relay::flush(front + seq![10u8] + rest) == (front + seq![10u8], rest),
        relay::flush(other) == if other.len() <= 1048576 {
            (Seq::<u8>::empty(), other)
        } else {
            (other, Seq::<u8>::empty())
        },
{
    let whole = front + seq![10u8] + rest;
    laws_relay::last_position_is_greatest(whole, 10, whole.len() as int);
    laws_relay::last_position_is_greatest(other, 10, other.len() as int);
    let n = front.len() as int;
    assert(whole[n] == 10);
    assert forall|j: int| n < j < whole.len() implies whole[j] != 10 by {
        assert(rest.contains(rest[j - n - 1]));
    }
    assert(whole.take(n + 1) =~= front + seq![10u8]);
    assert(whole.skip(n + 1) =~= rest);
    assert forall|j: int| 0 <= j < other.len() implies other[j] != 10 by {
        assert(other.contains(other[j]));
    }
}

/// One step of passing a body on, for a body of known length, for one that
/// ends with the connection, and for one in chunks.
pub proof fn bodies_are_passed_on(relay: relay::RelayModel, n: nat)
    ensures
        ({
            let (next, step) = relay::relay_step(relay);
            let held = relay.buffered.len();
            &&& !relay.in_chunks && relay.remaining == Some(0nat) ==> step
                == relay::RelayStepModel::Finish(relay.output)
            &&& !relay.in_chunks && relay.remaining != Some(0nat) && held == 0 ==> step
                == relay::RelayStepModel::Read && next == relay
            &&& !relay.in_chunks && relay.remaining == Some(n) && 0 < held <= n ==> {
                let (piece, output) = relay::flush(relay.output + relay.buffered);
                &&& step == relay::RelayStepModel::Piece(piece)
                &&& next == (relay::RelayModel {
                    in_chunks: false,
                    remaining: Some((n - held) as nat),
                    buffered: Seq::empty(),
                    output,
                })
            }
            &&& !relay.in_chunks && relay.remaining == Some(n) && 0 < n < held ==> {
                let (piece, output) = relay::flush(relay.output + relay.buffered.take(n as int));
                &&& step == relay::RelayStepModel::Piece(piece)
                &&& next == (relay::RelayModel {
                    in_chunks: false,
                    remaining: Some(0nat),
                    buffered: relay.buffered.skip(n as int),
                    output,
                })
            }
            &&& !relay.in_chunks && relay.remaining is None && held > 0 ==> {
                let (piece, output) = relay::flush(relay.output + relay.buffered);
                &&& step == relay::RelayStepModel::Piece(piece)
                &&& next == (relay::RelayModel {
                    in_chunks: false,
                    remaining: None,
                    buffered: Seq::empty(),
                    output,
                })
            }
        }),
        relay::relay_end(relay) == if relay.in_chunks {
            relay::RelayStepModel::Failed(HttpError::EndedEarly)
        } else {
            relay::RelayStepModel::Finish(relay.output)
        },
{
    let held = relay.buffered.len() as int;
    assert(relay.buffered.take(held) =~= relay.buffered);
    assert(relay.buffered.skip(held) =~= Seq::<u8>::empty());
}

/// One step of passing on a body in chunks: a chunk's data is taken, the last
/// chunk ends the body, a part of a chunk is waited for and a line without a
/// size spoils the body.
pub proof fn chunks_are_passed_on(
    relay: relay::RelayModel,
    line: Seq<u8>,
    data: Seq<u8>,
    end: Seq<u8>,
    rest: Seq<u8>,
)
    requires
        relay.in_chunks,
        forall|j: int|
            0 <= j < line.len() ==> !text::occurs_at(line + seq![13u8, 10], seq![13u8, 10], j),
        end.len() == 2,
    ensures
        relay.buffered == line + seq![13u8, 10] + data + end + rest && chunked::chunk_size(line)
            == Some(data.len()) && data.len() > 0 ==> {
            let (next, step) = relay::relay_step(relay);
            let (piece, output) = relay::flush(relay.output + data);
            &&& step == relay::RelayStepModel::Piece(piece)
            &&& next == (relay::RelayModel {
                in_chunks: true,
                remaining: relay.remaining,
                buffered: rest,
                output,
            })
        },
        relay.buffered == line + seq![13u8, 10] + rest && chunked::chunk_size(line) == Some(0nat)
            ==> relay::relay_step(relay).1 == relay::RelayStepModel::Finish(relay.output),
        relay.buffered == line + seq![13u8, 10] + rest && chunked::chunk_size(line) is None
            ==> relay::relay_step(relay).1 == relay::RelayStepModel::Failed(
            HttpError::InvalidChunkSize,
        ),
        relay.buffered == line + seq![13u8, 10] + rest ==> (chunked::chunk_size(line) matches Some(
            size,
        ) ==> size > rest.len() ==> relay::relay_step(relay) == (
            relay,
            relay::RelayStepModel::Read,
        )),
        (forall|j: int| 0 <= j ==> !text::occurs_at(relay.buffered, seq![13u8, 10], j))
            ==> relay::relay_step(relay) == (relay, relay::RelayStepModel::Read),
{
    let sep = seq![13u8, 10];
    let n = line.len() as int;
    laws_primitives::found_behind_a_front(line, sep, data + end + rest);
    laws_primitives::found_behind_a_front(line, sep, rest);
    let whole = line + sep + (data + end + rest);
    assert(line + sep + data + end + rest =~= whole);
    assert(whole.take(n) =~= line);
    assert((line + sep + rest).take(n) =~= line);
    if chunked::chunk_size(line) == Some(data.len()) && data.len() > 0 {
        assert(whole.subrange(n + 2, n + 2 + data.len()) =~= data);
        assert(whole.skip(n + 4 + data.len()) =~= rest);
    }
    if forall|j: int| 0 <= j ==> !text::occurs_at(relay.buffered, seq![13u8, 10], j) {
        text::find_absent(relay.buffered, sep, 0);
    }
}

/// The classes and the words of the errors.
pub proof fn errors_have_classes_and_words(e: HttpError)
    ensures
        e.spec_class() is UnexpectedEof <==> e is IncompleteRequestHead || e
            is IncompleteResponseHead || e is EndedEarly || e is BodyCutShort,
        e.spec_class() is InvalidInput <==> e is HeadTooLarge || e is RequestTooLarge,
        HttpError::IncompleteRequestHead.spec_message() == "incomplete request head"@,
        HttpError::IncompleteResponseHead.spec_message() == "incomplete response head"@,
        HttpError::HeadTooLarge.spec_message() == "head too large"@,
        HttpError::NonUtf8Head.spec_message() == "non-utf8 request head"@,
        HttpError::InvalidRequestLine.spec_message() == "invalid request line"@,
        HttpError::MalformedHeader.spec_message() == "malformed header"@,
        HttpError::ConflictingFraming.spec_message() == "conflicting framing headers"@,
        HttpError::InvalidContentLength.spec_message() == "invalid content-length"@,
        HttpError::RequestTooLarge.spec_message() == "request too large"@,
        HttpError::InvalidChunkSize.spec_message() == "invalid chunk size"@,
        HttpError::EndedEarly.spec_message() == "request ended early"@,
        HttpError::BodyCutShort.spec_message() == "failed to fill whole buffer"@,
{
}

} // verus!
