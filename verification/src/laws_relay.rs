//! What holds of the answers to the client, whatever they pass on.
use crate::bytes;
use crate::chunked;
use crate::error::HttpError;
use crate::http;
use crate::laws_http;
use crate::laws_rewrite;
use crate::laws_text;
use crate::numbers;
use crate::relay;
use crate::rewrite;
use crate::text;
use vstd::prelude::*;
use vstd::utf8::*;

verus! {

broadcast use vstd::string::group_string_axioms;

// ---------------------------------------------------------------------------
// Answers
// ---------------------------------------------------------------------------

/// A head with this status, this reason and these headers is read back, and
/// ends where its bytes end, if `rest` stands behind it.
pub open spec fn answers_with(
    status: u16,
    reason: Seq<char>,
    headers: Seq<(Seq<char>, Seq<char>)>,
    rest: Seq<u8>,
) -> bool {
    let head = http::rendered_head(relay::status_line(status, reason), headers);
    &&& http::head_end(encode_utf8(head) + rest) == Some(encode_utf8(head).len() as int)
    &&& http::response_head_text(head, rest) == Ok::<http::ResponseHeadModel, HttpError>(
        http::ResponseHeadModel { status, reason, headers, buffered_body: rest },
    )
}

/// An answer with clean headers is read as it is meant.
pub proof fn answer_reads_back(
    status: u16,
    reason: Seq<char>,
    headers: Seq<(Seq<char>, Seq<char>)>,
    rest: Seq<u8>,
)
    requires
        forall|i: int| 0 <= i < reason.len() ==> !http::is_control(#[trigger] reason[i]),
        laws_http::clean_fields(headers),
    ensures
        answers_with(status, reason, headers, rest),
{
    laws_http::status_line_is_one_line(status, reason);
    laws_http::rendered_head_ends(relay::status_line(status, reason), headers, rest);
    laws_http::response_head_reads_back(status, reason, headers, rest);
}

/// A response that has been read is passed on as one response: the client
/// reads its status, its reason and the headers that are passed on, and no
/// others.
pub proof fn relayed_head_reads_back(head: Seq<char>, body: Seq<u8>, rest: Seq<u8>)
    ensures
        http::response_head_text(head, body) matches Ok(response) ==> answers_with(
            response.status,
            response.reason,
            relay::relayed_fields(response.headers),
            rest,
        ),
{
    let lines = http::head_lines(head);
    if let Ok(response) = http::response_head_text(head, body) {
        laws_http::read_headers_are_clean(lines.drop_first());
        let keep = |name: Seq<char>| relay::keeps_in_response(name);
        let kept = relay::kept(response.headers, keep);
        laws_http::kept_are_the_kept(response.headers, keep);
        reveal_strlit("Transfer-Encoding");
        reveal_strlit("chunked");
        reveal_strlit("Connection");
        reveal_strlit("close");
        let all = relay::relayed_fields(response.headers);
        assert forall|i: int| 0 <= i < all.len() implies laws_http::clean_field(
            #[trigger] all[i],
        ) by {
            if i < kept.len() {
                assert(all[i] == kept[i]);
                assert(kept.contains(kept[i]));
                let k = response.headers.index_of(kept[i]);
                assert(laws_http::clean_field(response.headers[k]));
            }
        }
        read_reason_is_clean(lines[0]);
        answer_reads_back(response.status, response.reason, all, rest);
    }
}

/// A reason that is read from a status line holds no control character.
proof fn read_reason_is_clean(line: Seq<char>)
    ensures
        forall|i: int|
            0 <= i < http::line_reason(line).len() ==> !http::is_control(
                #[trigger] http::line_reason(line)[i],
            ),
{
    if let Some(first) = text::position(line, ' ', 0) {
        if let Some(second) = text::position(line, ' ', first + 1) {
            laws_http::read_reasons_are_clean(line.skip(second + 1));
        }
    }
}

// ---------------------------------------------------------------------------
// Errors
// ---------------------------------------------------------------------------

/// A number in decimal is a clean value of a header.
pub proof fn decimal_is_clean(n: nat)
    ensures
        http::plain_value(numbers::decimal(n)),
        laws_text::trimmed(numbers::decimal(n)),
{
    numbers::digits_have_value(n, 10);
    let s = numbers::decimal(n);
    assert forall|i: int| 0 <= i < s.len() implies #[trigger] s[i] != '\r' && s[i] != '\n' && s[i]
        != '\0' && !text::is_whitespace(s[i]) by {}
}

/// The headers of an error are clean.
pub proof fn error_fields_are_clean(message: Seq<char>)
    ensures
        laws_http::clean_fields(relay::error_fields(message)),
{
    reveal_strlit("Content-Type");
    reveal_strlit("application/json");
    reveal_strlit("Content-Length");
    reveal_strlit("X-Content-Type-Options");
    reveal_strlit("nosniff");
    reveal_strlit("Connection");
    reveal_strlit("close");
    decimal_is_clean(encode_utf8(relay::error_body(message)).len());
    let fields = relay::error_fields(message);
    assert(laws_http::clean_field(fields[0]));
    assert(laws_http::clean_field(fields[1]));
    assert(laws_http::clean_field(fields[2]));
    assert(laws_http::clean_field(fields[3]));
}

/// What a refused request is answered can be read: the head is that of the
/// status and the reason, the length in it is that of the body, and the body's
/// string is the message, whatever characters the message holds.
pub proof fn error_answer_reads_back(status: u16, reason: Seq<char>, message: Seq<char>)
    requires
        forall|i: int| 0 <= i < reason.len() ==> !http::is_control(#[trigger] reason[i]),
        encode_utf8(relay::error_body(message)).len() <= usize::MAX,
    ensures
        ({
            let fields = relay::error_fields(message);
            let head = http::rendered_head(relay::status_line(status, reason), fields);
            let body = relay::error_body(message);
            let data = encode_utf8(relay::error_answer(status, reason, message));
            &&& data == encode_utf8(head) + encode_utf8(body)
            &&& answers_with(status, reason, fields, encode_utf8(body))
            &&& relay::response_length(fields) == Some(encode_utf8(body).len())
            &&& laws_rewrite::read_string(body.skip("{\"error\":{\"message\":\""@.len() as int))
                == Some((message, "}}"@))
        }),
{
    let fields = relay::error_fields(message);
    let line = relay::status_line(status, reason);
    let head = http::rendered_head(line, fields);
    let body = relay::error_body(message);
    let n = encode_utf8(body).len();
    error_fields_are_clean(message);
    bytes::encode_concat(head, body);
    answer_reads_back(status, reason, fields, encode_utf8(body));
    reveal_strlit("Content-Type");
    reveal_strlit("Content-Length");
    reveal_strlit("content-length");
    assert(text::lower("Content-Type"@).len() != text::lower("content-length"@).len());
    assert(text::lower("Content-Length"@) =~= text::lower("content-length"@));
    assert(fields.drop_first()[0] == fields[1]);
    assert(http::first_value(fields.drop_first(), "content-length"@) == Some(numbers::decimal(n)));
    numbers::number_reads_back(n, 10, usize::MAX as nat);
    reveal_strlit("\"}}");
    reveal_strlit("}}");
    laws_rewrite::json_text_reads_back(message, "}}"@);
    let open = "{\"error\":{\"message\":\""@;
    assert(body.skip(open.len() as int) =~= rewrite::json_text(message) + seq!['"'] + "}}"@);
}

// ---------------------------------------------------------------------------
// Chunks
// ---------------------------------------------------------------------------

/// The size line of a chunk gives the size that it was written for.
pub proof fn chunk_size_reads_back(n: nat)
    requires
        n <= usize::MAX - 2,
    ensures
        chunked::chunk_size(encode_utf8(numbers::hex(n))) == Some(n),
        forall|j: int|
            0 <= j < encode_utf8(numbers::hex(n)).len() ==> #[trigger] encode_utf8(
                numbers::hex(n),
            )[j] != 13,
{
    let digits = numbers::hex(n);
    let line = encode_utf8(digits);
    numbers::digits_have_value(n, 16);
    numbers::number_reads_back(n, 16, (usize::MAX - 2) as nat);
    assert(is_ascii_chars(digits)) by {
        assert forall|i: int| 0 <= i < digits.len() implies '\0' <= #[trigger] digits[i]
            <= '\u{7f}' by {
            assert('0' <= digits[i] <= '9' || 'A' <= digits[i] <= 'F');
        }
    }
    is_ascii_chars_encode_utf8(digits);
    assert forall|j: int| 0 <= j < line.len() implies #[trigger] line[j] != 59 && line[j] != 13 by {
        assert(digits[j] as u8 == line[j]);
        assert('0' <= digits[j] <= '9' || 'A' <= digits[j] <= 'F');
    }
    text::position_absent(line, 59u8, 0);
    encode_utf8_valid_utf8(digits);
    encode_utf8_decode_utf8(digits);
    assert(laws_text::trimmed(digits)) by {
        assert('0' <= digits[0] <= '9' || 'A' <= digits[0] <= 'F');
        let last = digits.len() - 1;
        assert('0' <= digits[last] <= '9' || 'A' <= digits[last] <= 'F');
    }
    laws_text::trim_of_trimmed(digits);
}

/// A chunk that is written is read back, whatever stands behind it.
pub proof fn chunk_reads_back(data: Seq<u8>, rest: Seq<u8>)
    requires
        0 < data.len() <= usize::MAX - 2,
    ensures
        ({
            let size = encode_utf8(numbers::hex(data.len())).len() as int;
            &&& chunked::first_chunk(chunked::chunk(data) + rest) == (chunked::ChunkModel::Data {
                start: size + 2,
                end: size + 2 + data.len(),
                next: size + 4 + data.len(),
            })
            &&& (chunked::chunk(data) + rest).subrange(size + 2, size + 2 + data.len()) == data
            &&& (chunked::chunk(data) + rest).skip(size + 4 + data.len()) == rest
        }),
{
    let line = encode_utf8(numbers::hex(data.len()));
    let size = line.len() as int;
    let buf = chunked::chunk(data) + rest;
    chunk_size_reads_back(data.len());
    assert(buf =~= line + chunked::crlf() + data + chunked::crlf() + rest);
    assert(buf.subrange(size, size + 2) =~= chunked::crlf());
    assert forall|j: int| 0 <= j < size implies !text::occurs_at(buf, chunked::crlf(), j) by {
        assert(buf.subrange(j, j + 2)[0] == line[j]);
        assert(chunked::crlf()[0] == 13);
    }
    text::find_unique(buf, chunked::crlf(), 0, size);
    assert(buf.take(size) =~= line);
    assert(buf.subrange(size + 2, size + 2 + data.len()) =~= data);
    assert(buf.skip(size + 4 + data.len()) =~= rest);
}

/// The data of the chunks that a complete chunked body is made of.
pub open spec fn unchunked(buf: Seq<u8>) -> Option<Seq<u8>>
    decreases buf.len(),
{
    match chunked::first_chunk(buf) {
        chunked::ChunkModel::Last { next } => Some(Seq::empty()),
        chunked::ChunkModel::Data { start, end, next } => {
            proof {
                chunked::first_chunk_bounds(buf);
            }
            match unchunked(buf.skip(next)) {
                Some(rest) => Some(buf.subrange(start, end) + rest),
                None => None,
            }
        },
        _ => None,
    }
}

/// Pieces in a row.
pub open spec fn joined(pieces: Seq<Seq<u8>>) -> Seq<u8>
    decreases pieces.len(),
{
    if pieces.len() == 0 {
        Seq::empty()
    } else {
        pieces[0] + joined(pieces.drop_first())
    }
}

/// A body as the client gets it: a chunk for each piece, and the end.
pub open spec fn chunked_body(pieces: Seq<Seq<u8>>) -> Seq<u8>
    decreases pieces.len(),
{
    if pieces.len() == 0 {
        chunked::last_chunk()
    } else {
        chunked::chunk(pieces[0]) + chunked_body(pieces.drop_first())
    }
}

/// The client reads back the pieces that have been written, one behind the
/// other.
pub proof fn chunked_body_reads_back(pieces: Seq<Seq<u8>>)
    requires
        forall|i: int| 0 <= i < pieces.len() ==> (#[trigger] pieces[i]).len() <= usize::MAX - 2,
    ensures
        unchunked(chunked_body(pieces)) == Some(joined(pieces)),
    decreases pieces.len(),
{
    if pieces.len() == 0 {
        let buf = chunked::last_chunk();
        assert(buf.subrange(1, 3) =~= chunked::crlf());
        assert(!text::occurs_at(buf, chunked::crlf(), 0)) by {
            assert(buf.subrange(0, 2)[0] == 48);
            assert(chunked::crlf()[0] == 13);
        }
        text::find_unique(buf, chunked::crlf(), 0, 1);
        let digits = numbers::hex(0);
        assert(digits =~= seq!['0']);
        assert(is_ascii_chars(digits));
        is_ascii_chars_encode_utf8(digits);
        assert(encode_utf8(digits)[0] == digits[0] as u8);
        assert(buf.take(1) =~= encode_utf8(digits));
        chunk_size_reads_back(0);
    } else {
        let first = pieces[0];
        let tail = pieces.drop_first();
        assert forall|i: int| 0 <= i < tail.len() implies (#[trigger] tail[i]).len() <= usize::MAX
            - 2 by {
            assert(tail[i] == pieces[i + 1]);
        }
        chunked_body_reads_back(tail);
        let rest = chunked_body(tail);
        if first.len() == 0 {
            assert(chunked::chunk(first) + rest =~= rest);
            assert(first + joined(tail) =~= joined(tail));
        } else {
            chunk_reads_back(first, rest);
        }
    }
}

/// Pieces with their tool names spelled as the request spells them.
pub open spec fn rewritten_pieces(pieces: Seq<Seq<u8>>, request_body: Seq<u8>) -> Seq<Seq<u8>> {
    Seq::new(pieces.len(), |i: int| rewrite::rewritten(pieces[i], request_body))
}

/// Pieces that are rewritten one by one keep their bytes, up to the case of
/// ASCII letters.
proof fn rewritten_pieces_keep_bytes(pieces: Seq<Seq<u8>>, request_body: Seq<u8>)
    ensures
        bytes::lower_bytes(joined(rewritten_pieces(pieces, request_body))) == bytes::lower_bytes(
            joined(pieces),
        ),
    decreases pieces.len(),
{
    let all = rewritten_pieces(pieces, request_body);
    if pieces.len() > 0 {
        assert(all.drop_first() =~= rewritten_pieces(pieces.drop_first(), request_body));
        rewritten_pieces_keep_bytes(pieces.drop_first(), request_body);
        laws_rewrite::rewritten_keeps_bytes(pieces[0], request_body);
        lower_bytes_concat(all[0], joined(all.drop_first()));
        lower_bytes_concat(pieces[0], joined(pieces.drop_first()));
    }
}

/// Lower case may be taken of two rows of bytes or of both in a row.
proof fn lower_bytes_concat(a: Seq<u8>, b: Seq<u8>)
    ensures
        bytes::lower_bytes(a + b) == bytes::lower_bytes(a) + bytes::lower_bytes(b),
{
    assert(bytes::lower_bytes(a + b) =~= bytes::lower_bytes(a) + bytes::lower_bytes(b));
}

/// What the client reads of a body is what the upstream has sent, byte for
/// byte, but for the case of ASCII letters.
pub proof fn relayed_body_is_the_body(pieces: Seq<Seq<u8>>, request_body: Seq<u8>)
    requires
        forall|i: int| 0 <= i < pieces.len() ==> (#[trigger] pieces[i]).len() <= usize::MAX - 2,
    ensures
        unchunked(chunked_body(rewritten_pieces(pieces, request_body))) matches Some(body)
            && bytes::lower_bytes(body) == bytes::lower_bytes(joined(pieces)),
{
    let all = rewritten_pieces(pieces, request_body);
    assert forall|i: int| 0 <= i < all.len() implies (#[trigger] all[i]).len() <= usize::MAX - 2 by {
        laws_rewrite::rewritten_keeps_bytes(pieces[i], request_body);
    }
    chunked_body_reads_back(all);
    rewritten_pieces_keep_bytes(pieces, request_body);
}

// ---------------------------------------------------------------------------
// Pieces
// ---------------------------------------------------------------------------

/// `last_position` gives the greatest index that holds `x`, if there is one.
pub proof fn last_position_is_greatest(s: Seq<u8>, x: u8, to: int)
    requires
        0 <= to <= s.len(),
    ensures
        match relay::last_position(s, x, to) {
            Some(i) => 0 <= i < to && s[i] == x && forall|j: int| i < j < to ==> s[j] != x,
            None => forall|j: int| 0 <= j < to ==> s[j] != x,
        },
    decreases to,
{
    if to > 0 && s[to - 1] != x {
        last_position_is_greatest(s, x, to - 1);
    }
}

/// What is passed on and what is held back make up what was held back before.
/// A piece that is passed on ends with a line feed, or is longer than the
/// window; what is held back has no line feed, and is no longer than the
/// window unless a line feed came before it.
pub proof fn flush_splits(output: Seq<u8>)
    ensures
        ({
            let (piece, rest) = relay::flush(output);
            &&& piece + rest == output
            &&& piece.len() == 0 || piece.last() == 10 || piece.len() > relay::MAX_REWRITE_WINDOW
            &&& forall|j: int| 0 <= j < rest.len() ==> rest[j] != 10
            &&& piece.len() == 0 ==> rest.len() <= relay::MAX_REWRITE_WINDOW
        }),
{
    last_position_is_greatest(output, 10, output.len() as int);
    let (piece, rest) = relay::flush(output);
    assert(piece + rest =~= output);
}

/// What a relay does with the bytes that have come in: the pieces that it
/// passes on, and the relay and the step at which it needs something else.
pub open spec fn relay_run(relay: relay::RelayModel) -> (
    Seq<Seq<u8>>,
    relay::RelayModel,
    relay::RelayStepModel,
)
    decreases relay.buffered.len(),
{
    let (next, step) = relay::relay_step(relay);
    match step {
        relay::RelayStepModel::Piece(piece) => {
            proof {
                relay_step_takes(relay);
            }
            let (pieces, end, last) = relay_run(next);
            (seq![piece] + pieces, end, last)
        },
        _ => (Seq::empty(), next, step),
    }
}

/// A piece is taken from what has come in.
pub proof fn relay_step_takes(relay: relay::RelayModel)
    ensures
        relay::relay_step(relay).1 is Piece ==> relay::relay_step(relay).0.buffered.len()
            < relay.buffered.len(),
{
    chunked::first_chunk_bounds(relay.buffered);
}

/// The part of the body that is in the bytes that have come in.
pub open spec fn body_in(relay: relay::RelayModel) -> Seq<u8>
    decreases relay.buffered.len(),
{
    if relay.in_chunks {
        match chunked::first_chunk(relay.buffered) {
            chunked::ChunkModel::Data { start, end, next } => {
                proof {
                    chunked::first_chunk_bounds(relay.buffered);
                }
                relay.buffered.subrange(start, end) + body_in(
                    relay::RelayModel { buffered: relay.buffered.skip(next), ..relay },
                )
            },
            _ => Seq::empty(),
        }
    } else {
        match relay.remaining {
            Some(n) => if n < relay.buffered.len() {
                relay.buffered.take(n as int)
            } else {
                relay.buffered
            },
            None => relay.buffered,
        }
    }
}

/// What is held back does not matter to what is in the bytes that have come in.
proof fn body_in_ignores_output(relay: relay::RelayModel, output: Seq<u8>)
    ensures
        body_in(relay::RelayModel { output, ..relay }) == body_in(relay),
    decreases relay.buffered.len(),
{
    if relay.in_chunks {
        if let chunked::ChunkModel::Data { start, end, next } = chunked::first_chunk(
            relay.buffered,
        ) {
            chunked::first_chunk_bounds(relay.buffered);
            body_in_ignores_output(
                relay::RelayModel { buffered: relay.buffered.skip(next), ..relay },
                output,
            );
        }
    }
}

/// Nothing is lost and nothing is added: the pieces that are passed on, with
/// what is held back or passed on at the end, are what was held back and the
/// body in the bytes that have come in.
pub proof fn pieces_make_up_the_body(relay: relay::RelayModel)
    ensures
        ({
            let (pieces, end, last) = relay_run(relay);
            let held = match last {
                relay::RelayStepModel::Finish(piece) => piece,
                _ => end.output,
            };
            joined(pieces) + held == relay.output + body_in(relay)
        }),
    decreases relay.buffered.len(),
{
    let (next, step) = relay::relay_step(relay);
    let (pieces, end, last) = relay_run(relay);
    let held = match last {
        relay::RelayStepModel::Finish(piece) => piece,
        _ => end.output,
    };
    match step {
        relay::RelayStepModel::Piece(piece) => {
            relay_step_takes(relay);
            pieces_make_up_the_body(next);
            assert(pieces.drop_first() =~= relay_run(next).0);
            assert(joined(pieces) == piece + joined(relay_run(next).0));
            if relay.in_chunks {
                if let chunked::ChunkModel::Data { start, end, next: after } =
                    chunked::first_chunk(relay.buffered) {
                    let data = relay.buffered.subrange(start, end);
                    flush_splits(relay.output + data);
                    let without = relay::RelayModel { buffered: relay.buffered.skip(after), ..relay };
                    body_in_ignores_output(without, next.output);
                    assert(next == relay::RelayModel { output: next.output, ..without });
                    assert(piece + next.output == relay.output + data);
                    assert(joined(pieces) + held =~= piece + (joined(relay_run(next).0) + held));
                    assert(piece + (next.output + body_in(next)) =~= (piece + next.output)
                        + body_in(next));
                    assert((relay.output + data) + body_in(without) =~= relay.output + (data
                        + body_in(without)));
                }
            } else {
                let count = match relay.remaining {
                    Some(n) => if n < relay.buffered.len() {
                        n as int
                    } else {
                        relay.buffered.len() as int
                    },
                    None => relay.buffered.len() as int,
                };
                let data = relay.buffered.take(count);
                assert(count == relay.buffered.len() ==> data =~= relay.buffered);
                flush_splits(relay.output + data);
                assert(body_in(next) =~= Seq::<u8>::empty());
                assert(joined(pieces) + held =~= piece + (joined(relay_run(next).0) + held));
                assert(piece + (next.output + body_in(next)) =~= piece + next.output);
            }
        },
        _ => {
            assert(body_in(relay) =~= Seq::<u8>::empty());
            assert(joined(pieces) + held =~= held);
        },
    }
}

/// The relay once more bytes have come in.
pub open spec fn fed(relay: relay::RelayModel, more: Seq<u8>) -> relay::RelayModel {
    relay::RelayModel { buffered: relay.buffered + more, ..relay }
}

/// How the bytes of a body are cut into reads decides nothing: what is in them
/// all is what was in the first, and what is in the others once the first have
/// been passed on.
pub proof fn body_comes_in_parts(relay: relay::RelayModel, more: Seq<u8>)
    requires
        relay_run(relay).2 is Read,
    ensures
        body_in(fed(relay, more)) == body_in(relay) + body_in(fed(relay_run(relay).1, more)),
    decreases relay.buffered.len(),
{
    let (next, step) = relay::relay_step(relay);
    let end = relay_run(relay).1;
    let whole = body_in(fed(relay, more));
    if step is Piece {
        relay_step_takes(relay);
        body_comes_in_parts(next, more);
        if relay.in_chunks {
            laws_http::first_chunk_is_stable(relay.buffered, more);
            chunked::first_chunk_bounds(relay.buffered);
            if let chunked::ChunkModel::Data { start, end: to, next: after } =
                chunked::first_chunk(relay.buffered) {
                let data = relay.buffered.subrange(start, to);
                let rest = relay.buffered.skip(after);
                assert((relay.buffered + more).subrange(start, to) =~= data);
                assert((relay.buffered + more).skip(after) =~= rest + more);
                let behind = relay::RelayModel { buffered: rest, ..relay };
                body_in_ignores_output(behind, next.output);
                body_in_ignores_output(fed(behind, more), next.output);
                assert(next == relay::RelayModel { output: next.output, ..behind });
                assert(fed(next, more) == relay::RelayModel {
                    output: next.output,
                    ..fed(behind, more)
                });
                assert(body_in(relay) == data + body_in(behind));
                assert(fed(behind, more) == relay::RelayModel {
                    buffered: (relay.buffered + more).skip(after),
                    ..fed(relay, more)
                });
                assert(whole == data + body_in(fed(behind, more)));
                assert(data + (body_in(behind) + body_in(fed(end, more))) =~= data + body_in(behind)
                    + body_in(fed(end, more)));
            }
        } else {
            assert(next.buffered.len() == 0 || next.remaining == Some(0nat));
            assert(whole =~= body_in(relay) + body_in(fed(end, more)));
        }
    } else {
        assert(body_in(relay) =~= Seq::<u8>::empty());
        assert(whole =~= body_in(relay) + body_in(fed(end, more)));
    }
}

/// Nothing is lost between reads: the pieces of the first bytes, the pieces of
/// those that come next and what is held back then are what was held back at
/// first and the body in all of them.
pub proof fn pieces_make_up_the_body_across_reads(relay: relay::RelayModel, more: Seq<u8>)
    requires
        relay_run(relay).2 is Read,
    ensures
        ({
            let (pieces, end, last) = relay_run(relay);
            let (others, last_end, last_step) = relay_run(fed(end, more));
            let held = match last_step {
                relay::RelayStepModel::Finish(piece) => piece,
                _ => last_end.output,
            };
            joined(pieces) + (joined(others) + held) == relay.output + body_in(fed(relay, more))
        }),
{
    let (pieces, end, last) = relay_run(relay);
    let (others, last_end, last_step) = relay_run(fed(end, more));
    let held = match last_step {
        relay::RelayStepModel::Finish(piece) => piece,
        _ => last_end.output,
    };
    pieces_make_up_the_body(relay);
    pieces_make_up_the_body(fed(end, more));
    body_comes_in_parts(relay, more);
    assert(joined(pieces) + (end.output + body_in(fed(end, more))) =~= (joined(pieces) + end.output)
        + body_in(fed(end, more)));
    assert((relay.output + body_in(relay)) + body_in(fed(end, more)) =~= relay.output + (body_in(
        relay,
    ) + body_in(fed(end, more))));
}

/// A body that has come in whole is passed on whole, and ends: up to its last
/// chunk if it comes in chunks, or else up to the length that it has.
pub proof fn whole_bodies_end(relay: relay::RelayModel)
    ensures
        relay.in_chunks ==> (unchunked(relay.buffered) matches Some(body) ==> relay_run(relay).2
            is Finish && body_in(relay) == body),
        !relay.in_chunks ==> (relay.remaining matches Some(n) ==> n <= relay.buffered.len()
            ==> relay_run(relay).2 is Finish && body_in(relay) == relay.buffered.take(n as int)),
    decreases relay.buffered.len(),
{
    let (next, step) = relay::relay_step(relay);
    if step is Piece {
        relay_step_takes(relay);
        whole_bodies_end(next);
        if relay.in_chunks {
            if let chunked::ChunkModel::Data { start, end, next: after } = chunked::first_chunk(
                relay.buffered,
            ) {
                let behind = relay::RelayModel { buffered: relay.buffered.skip(after), ..relay };
                body_in_ignores_output(behind, next.output);
                assert(next == relay::RelayModel { output: next.output, ..behind });
            }
        }
    }
    if !relay.in_chunks {
        if let Some(n) = relay.remaining {
            if n == relay.buffered.len() {
                assert(relay.buffered.take(n as int) =~= relay.buffered);
            }
            if n == 0 && n < relay.buffered.len() {
                assert(relay.buffered.take(0) =~= Seq::<u8>::empty());
            }
        }
    }
}

/// A body without a line feed that fits the window is held back until it ends
/// and passed on in one piece, so that no tool name in it is cut in two.
pub proof fn short_bodies_are_one_piece(relay: relay::RelayModel)
    requires
        forall|j: int|
            0 <= j < (relay.output + body_in(relay)).len() ==> (relay.output + body_in(relay))[j]
                != 10,
        (relay.output + body_in(relay)).len() <= relay::MAX_REWRITE_WINDOW,
    ensures
        ({
            let (pieces, end, last) = relay_run(relay);
            let held = match last {
                relay::RelayStepModel::Finish(piece) => piece,
                _ => end.output,
            };
            &&& forall|i: int| 0 <= i < pieces.len() ==> (#[trigger] pieces[i]).len() == 0
            &&& held == relay.output + body_in(relay)
        }),
    decreases relay.buffered.len(),
{
    let whole = relay.output + body_in(relay);
    pieces_make_up_the_body(relay);
    let (next, step) = relay::relay_step(relay);
    let (pieces, end, last) = relay_run(relay);
    if let relay::RelayStepModel::Piece(piece) = step {
        relay_step_takes(relay);
        pieces_make_up_the_body(next);
        let rest = relay_run(next).0;
        let held = match last {
            relay::RelayStepModel::Finish(p) => p,
            _ => end.output,
        };
        assert(pieces.drop_first() =~= rest);
        assert(joined(pieces) == piece + joined(rest));
        assert(whole =~= piece + (joined(rest) + held));
        // The piece is a part of the whole, so it can be neither.
        assert(piece.len() == 0) by {
            step_piece_shape(relay);
            if piece.len() > 0 && piece.last() == 10 {
                assert(whole[piece.len() - 1] == 10);
            }
        }
        assert(whole =~= next.output + body_in(next));
        short_bodies_are_one_piece(next);
        assert forall|i: int| 0 <= i < pieces.len() implies (#[trigger] pieces[i]).len() == 0 by {
            if i > 0 {
                assert(pieces[i] == rest[i - 1]);
            }
        }
    }
    empty_pieces_join_to_nothing(pieces);
}

/// A piece that a relay passes on before the end of the body is empty, ends
/// with a line feed, or is longer than the window.
pub proof fn step_piece_shape(relay: relay::RelayModel)
    ensures
        relay::relay_step(relay).1 matches relay::RelayStepModel::Piece(piece) ==> piece.len() == 0
            || piece.last() == 10 || piece.len() > relay::MAX_REWRITE_WINDOW,
{
    if relay.in_chunks {
        if let chunked::ChunkModel::Data { start, end, next } = chunked::first_chunk(
            relay.buffered,
        ) {
            flush_splits(relay.output + relay.buffered.subrange(start, end));
        }
    } else {
        match relay.remaining {
            Some(n) => {
                let count = if n < relay.buffered.len() {
                    n
                } else {
                    relay.buffered.len()
                };
                flush_splits(relay.output + relay.buffered.take(count as int));
            },
            None => flush_splits(relay.output + relay.buffered),
        }
    }
}

/// Empty pieces in a row are nothing.
proof fn empty_pieces_join_to_nothing(pieces: Seq<Seq<u8>>)
    requires
        forall|i: int| 0 <= i < pieces.len() ==> (#[trigger] pieces[i]).len() == 0,
    ensures
        joined(pieces) == Seq::<u8>::empty(),
    decreases pieces.len(),
{
    if pieces.len() > 0 {
        let tail = pieces.drop_first();
        assert forall|i: int| 0 <= i < tail.len() implies (#[trigger] tail[i]).len() == 0 by {
            assert(tail[i] == pieces[i + 1]);
        }
        assert(pieces[0].len() == 0);
        empty_pieces_join_to_nothing(tail);
        assert(pieces[0] + joined(tail) =~= Seq::<u8>::empty());
    }
}

} // verus!
