//! Answers to the client: a response that is passed on, and an error.
use crate::bytes;
use crate::chunked;
use crate::chunked::{take_chunk, TakenChunk};
use crate::error::HttpError;
use crate::http;
use crate::http::{header, header_value, is_chunked, is_hop_by_hop, push_text, render_head, ResponseHead};
use crate::numbers;
use crate::rewrite;
use crate::text;
use vstd::prelude::*;
use vstd::utf8::*;

verus! {

broadcast use vstd::string::group_string_axioms;

/// How much of a body without line feeds is held back at most.
pub const MAX_REWRITE_WINDOW: usize = 1048576;

// ---------------------------------------------------------------------------
// Heads
// ---------------------------------------------------------------------------

/// The headers whose names are kept.
pub open spec fn kept(
    headers: Seq<(Seq<char>, Seq<char>)>,
    keep: spec_fn(Seq<char>) -> bool,
) -> Seq<(Seq<char>, Seq<char>)>
    decreases headers.len(),
{
    if headers.len() == 0 {
        Seq::empty()
    } else if keep(headers.last().0) {
        kept(headers.drop_last(), keep).push(headers.last())
    } else {
        kept(headers.drop_last(), keep)
    }
}

/// A header of a response that is passed on: not one that concerns the
/// upstream connection, nor one that the rewriting of the body makes untrue.
pub open spec fn keeps_in_response(name: Seq<char>) -> bool {
    &&& !text::eq_ignore_case(name, "content-length"@)
    &&& !text::eq_ignore_case(name, "content-encoding"@)
    &&& !text::eq_ignore_case(name, "etag"@)
    &&& !http::hop_by_hop(name)
}

/// A status line.
pub open spec fn status_line(status: u16, reason: Seq<char>) -> Seq<char> {
    "HTTP/1.1 "@ + numbers::decimal(status as nat) + seq![' '] + reason
}

/// The headers of a response as they are passed on.
pub open spec fn relayed_fields(
    headers: Seq<(Seq<char>, Seq<char>)>,
) -> Seq<(Seq<char>, Seq<char>)> {
    kept(headers, |name: Seq<char>| keeps_in_response(name)).push(
        ("Transfer-Encoding"@, "chunked"@),
    ).push(("Connection"@, "close"@))
}

/// Whether a header of a response is passed on.
fn kept_in_response(name: &str) -> (r: bool)
    ensures
        r == keeps_in_response(name@),
{
    !text::text_eq_ignore_case(name, "content-length") && !text::text_eq_ignore_case(
        name,
        "content-encoding",
    ) && !text::text_eq_ignore_case(name, "etag") && !is_hop_by_hop(name)
}

/// Writes a status line.
pub fn render_status_line(status: u16, reason: &str) -> (r: String)
    ensures
        r@ == status_line(status, reason@),
{
    let mut out = "HTTP/1.1 ".to_owned();
    numbers::push_number(&mut out, status as u64, 10);
    out.push(' ');
    push_text(&mut out, reason);
    assert(out@ =~= status_line(status, reason@));
    out
}

/// The head of a response as it is passed on.
pub open spec fn relayed_head_of(head: http::ResponseHeadModel) -> Seq<char> {
    http::rendered_head(status_line(head.status, head.reason), relayed_fields(head.headers))
}

/// Writes the head of a response that is passed on.
pub fn relayed_head(head: &ResponseHead) -> (r: String)
    ensures
        r@ == http::rendered_head(
            status_line(head.status, head.reason@),
            relayed_fields(http::fields(head.headers@)),
        ),
        r@ == relayed_head_of(head@),
{
    let ghost all = http::fields(head.headers@);
    let ghost keep = |name: Seq<char>| keeps_in_response(name);
    let mut out: Vec<(String, String)> = Vec::new();
    let mut i: usize = 0;
    assert(http::fields(out@) =~= kept(all.take(0), keep));
    while i < head.headers.len()
        invariant
            i <= head.headers@.len(),
            all == http::fields(head.headers@),
            keep == (|name: Seq<char>| keeps_in_response(name)),
            http::fields(out@) == kept(all.take(i as int), keep),
        decreases head.headers@.len() - i,
    {
        let ghost before = http::fields(out@);
        let ghost field = (head.headers@[i as int].0@, head.headers@[i as int].1@);
        assert(all.take(i + 1).drop_last() =~= all.take(i as int));
        assert(all.take(i + 1).last() == field);
        if kept_in_response(head.headers[i].0.as_str()) {
            out.push(header(head.headers[i].0.as_str(), head.headers[i].1.as_str()));
            assert(http::fields(out@) =~= before.push(field));
        }
        i += 1;
    }
    assert(all.take(i as int) =~= all);
    let ghost front = http::fields(out@);
    out.push(header("Transfer-Encoding", "chunked"));
    out.push(header("Connection", "close"));
    assert(http::fields(out@) =~= front.push(("Transfer-Encoding"@, "chunked"@)).push(
        ("Connection"@, "close"@),
    ));
    let line = render_status_line(head.status, head.reason.as_str());
    render_head(line.as_str(), &out)
}

// ---------------------------------------------------------------------------
// Errors
// ---------------------------------------------------------------------------

/// The body of an error: the message as a JSON string.
pub open spec fn error_body(message: Seq<char>) -> Seq<char> {
    "{\"error\":{\"message\":\""@ + rewrite::json_text(message) + "\"}}"@
}

/// The headers of an error.
pub open spec fn error_fields(message: Seq<char>) -> Seq<(Seq<char>, Seq<char>)> {
    seq![
        ("Content-Type"@, "application/json"@),
        ("Content-Length"@, numbers::decimal(encode_utf8(error_body(message)).len())),
        ("X-Content-Type-Options"@, "nosniff"@),
        ("Connection"@, "close"@),
    ]
}

/// An error as an answer.
pub open spec fn error_answer(status: u16, reason: Seq<char>, message: Seq<char>) -> Seq<char> {
    http::rendered_head(status_line(status, reason), error_fields(message)) + error_body(message)
}

/// Writes an error as an answer.
pub fn error_response(status: u16, reason: &str, message: &str) -> (r: String)
    ensures
        r@ == error_answer(status, reason@, message@),
{
    let escaped = rewrite::json_string_text(message);
    let mut body = "{\"error\":{\"message\":\"".to_owned();
    push_text(&mut body, escaped.as_str());
    push_text(&mut body, "\"}}");
    assert(body@ =~= error_body(message@));
    let length = numbers::decimal_text(body.as_str().as_bytes().len() as u64);
    let mut headers: Vec<(String, String)> = Vec::new();
    headers.push(header("Content-Type", "application/json"));
    headers.push(header("Content-Length", length.as_str()));
    headers.push(header("X-Content-Type-Options", "nosniff"));
    headers.push(header("Connection", "close"));
    assert(http::fields(headers@) =~= error_fields(message@));
    let line = render_status_line(status, reason);
    let mut out = render_head(line.as_str(), &headers);
    push_text(&mut out, body.as_str());
    out
}

/// The answer to a connection beyond the cap.
pub open spec fn busy_answer() -> Seq<char> {
    error_answer(503, "Service Unavailable"@, "too many connections"@)
}

/// Writes the answer to a connection beyond the cap.
pub fn busy_response() -> (r: String)
    ensures
        r@ == error_answer(503, "Service Unavailable"@, "too many connections"@),
        r@ == busy_answer(),
{
    error_response(503, "Service Unavailable", "too many connections")
}

// ---------------------------------------------------------------------------
// Bodies
// ---------------------------------------------------------------------------

/// The last index before `to` that holds `x`.
pub open spec fn last_position(s: Seq<u8>, x: u8, to: int) -> Option<int>
    decreases to,
{
    if to <= 0 || to > s.len() {
        None
    } else if s[to - 1] == x {
        Some(to - 1)
    } else {
        last_position(s, x, to - 1)
    }
}

/// What is passed on of the bytes held back, and what is held back still: the
/// lines that are complete are passed on, and all of it once it is longer than
/// the window without a line feed.
pub open spec fn flush(output: Seq<u8>) -> (Seq<u8>, Seq<u8>) {
    match last_position(output, 10, output.len() as int) {
        Some(end) => (output.take(end + 1), output.skip(end + 1)),
        None => if output.len() > MAX_REWRITE_WINDOW {
            (output, Seq::empty())
        } else {
            (Seq::empty(), output)
        },
    }
}

/// A body that is being passed on.
pub struct BodyRelay {
    in_chunks: bool,
    remaining: Option<usize>,
    buffered: Vec<u8>,
    output: Vec<u8>,
}

/// What is known of a body that is being passed on.
#[verifier::ext_equal]
pub struct RelayModel {
    /// The body comes in chunks.
    pub in_chunks: bool,
    /// How many bytes of the body have not been taken, where that is known.
    pub remaining: Option<nat>,
    /// What has come in and has not been taken.
    pub buffered: Seq<u8>,
    /// What has been taken and has not been passed on.
    pub output: Seq<u8>,
}

impl View for BodyRelay {
    type V = RelayModel;

    closed spec fn view(&self) -> RelayModel {
        RelayModel {
            in_chunks: self.in_chunks,
            remaining: match self.remaining {
                Some(n) => Some(n as nat),
                None => None,
            },
            buffered: self.buffered@,
            output: self.output@,
        }
    }
}

/// What a body that is being passed on needs next.
pub enum RelayStep {
    /// More bytes.
    Read,
    /// To pass on this piece.
    Piece(Vec<u8>),
    /// To pass on this piece and to end.
    Finish(Vec<u8>),
    /// To give up.
    Failed(HttpError),
}

/// What a body that is being passed on needs next.
#[verifier::ext_equal]
pub enum RelayStepModel {
    Read,
    Piece(Seq<u8>),
    Finish(Seq<u8>),
    Failed(HttpError),
}

impl View for RelayStep {
    type V = RelayStepModel;

    open spec fn view(&self) -> RelayStepModel {
        match self {
            RelayStep::Read => RelayStepModel::Read,
            RelayStep::Piece(piece) => RelayStepModel::Piece(piece@),
            RelayStep::Finish(piece) => RelayStepModel::Finish(piece@),
            RelayStep::Failed(e) => RelayStepModel::Failed(*e),
        }
    }
}

/// The relay once `data` has been taken, of which `buffered` is left.
pub open spec fn taken(
    relay: RelayModel,
    data: Seq<u8>,
    buffered: Seq<u8>,
    remaining: Option<nat>,
) -> (RelayModel, RelayStepModel) {
    let (piece, output) = flush(relay.output + data);
    (
        RelayModel { in_chunks: relay.in_chunks, remaining, buffered, output },
        RelayStepModel::Piece(piece),
    )
}

/// The relay and the step that come next.
pub open spec fn relay_step(relay: RelayModel) -> (RelayModel, RelayStepModel) {
    let finished = (
        RelayModel { output: Seq::empty(), ..relay },
        RelayStepModel::Finish(relay.output),
    );
    if relay.in_chunks {
        match chunked::first_chunk(relay.buffered) {
            chunked::ChunkModel::More => (relay, RelayStepModel::Read),
            chunked::ChunkModel::Invalid => (
                relay,
                RelayStepModel::Failed(HttpError::InvalidChunkSize),
            ),
            chunked::ChunkModel::Part { size } => (relay, RelayStepModel::Read),
            chunked::ChunkModel::Last { next } => (
                RelayModel {
                    buffered: relay.buffered.skip(next),
                    output: Seq::empty(),
                    ..relay
                },
                RelayStepModel::Finish(relay.output),
            ),
            chunked::ChunkModel::Data { start, end, next } => taken(
                relay,
                relay.buffered.subrange(start, end),
                relay.buffered.skip(next),
                relay.remaining,
            ),
        }
    } else if relay.remaining == Some(0nat) {
        finished
    } else if relay.buffered.len() == 0 {
        (relay, RelayStepModel::Read)
    } else {
        match relay.remaining {
            Some(n) => {
                let count = if n < relay.buffered.len() {
                    n
                } else {
                    relay.buffered.len()
                };
                taken(
                    relay,
                    relay.buffered.take(count as int),
                    relay.buffered.skip(count as int),
                    Some((n - count) as nat),
                )
            },
            None => taken(relay, relay.buffered, Seq::empty(), None),
        }
    }
}

/// What is done when no more bytes come.
pub open spec fn relay_end(relay: RelayModel) -> RelayStepModel {
    if relay.in_chunks {
        RelayStepModel::Failed(HttpError::EndedEarly)
    } else {
        RelayStepModel::Finish(relay.output)
    }
}

/// The length that the headers of a response give its body.
pub open spec fn response_length(headers: Seq<(Seq<char>, Seq<char>)>) -> Option<nat> {
    match http::first_value(headers, "content-length"@) {
        Some(value) => numbers::parse_unsigned(value, 10, usize::MAX as nat),
        None => None,
    }
}

/// Finds the last line feed.
fn last_line_feed(s: &[u8]) -> (r: Option<usize>)
    ensures
        match r {
            Some(i) => last_position(s@, 10, s@.len() as int) == Some(i as int) && i < s.len(),
            None => last_position(s@, 10, s@.len() as int) is None,
        },
{
    let mut to: usize = s.len();
    while to > 0
        invariant
            to <= s@.len(),
            last_position(s@, 10, s@.len() as int) == last_position(s@, 10, to as int),
        decreases to,
    {
        if s[to - 1] == 10 {
            return Some(to - 1);
        }
        to -= 1;
    }
    None
}

/// Takes off what is passed on, as [`flush`] says.
fn take_flushed(output: &mut Vec<u8>) -> (r: Vec<u8>)
    ensures
        (r@, final(output)@) == flush(old(output)@),
{
    let ghost before = output@;
    match last_line_feed(output.as_slice()) {
        Some(end) => {
            let mut rest = output.split_off(end + 1);
            std::mem::swap(&mut rest, output);
            assert(rest@ =~= before.take(end + 1));
            assert(output@ =~= before.skip(end + 1));
            rest
        },
        None => {
            let mut out: Vec<u8> = Vec::new();
            if output.len() > MAX_REWRITE_WINDOW {
                std::mem::swap(&mut out, output);
            }
            out
        },
    }
}

/// The body behind a head, of which some may have come in.
pub open spec fn relay_of(headers: Seq<(Seq<char>, Seq<char>)>, buffered: Seq<u8>) -> RelayModel {
    RelayModel {
        in_chunks: http::chunked(headers),
        remaining: response_length(headers),
        buffered,
        output: Seq::empty(),
    }
}

/// The body with more of it come in.
pub open spec fn relay_fed(relay: RelayModel, data: Seq<u8>) -> RelayModel {
    RelayModel { buffered: relay.buffered + data, ..relay }
}

impl BodyRelay {
    /// The body behind this head.
    pub fn new(headers: &[(String, String)], buffered: Vec<u8>) -> (r: BodyRelay)
        ensures
            r@ == relay_of(http::fields(headers@), buffered@),
            r@ == (RelayModel {
                in_chunks: http::chunked(http::fields(headers@)),
                remaining: response_length(http::fields(headers@)),
                buffered: buffered@,
                output: Seq::empty(),
            }),
    {
        let in_chunks = is_chunked(headers);
        let remaining = match header_value(headers, "content-length") {
            Some(value) => numbers::parse_usize(value),
            None => None,
        };
        BodyRelay { in_chunks, remaining, buffered, output: Vec::new() }
    }

    /// Takes in the bytes that have come next.
    pub fn feed(&mut self, data: &[u8])
        ensures
            final(self)@ == (RelayModel { buffered: old(self)@.buffered + data@, ..old(self)@ }),
            final(self)@ == relay_fed(old(self)@, data@),
    {
        bytes::push_bytes(&mut self.buffered, data);
    }

    /// Goes on as far as the next piece.
    pub fn advance(&mut self) -> (r: RelayStep)
        ensures
            (final(self)@, r@) == relay_step(old(self)@),
    {
        let ghost before = self@;
        if self.in_chunks {
            match take_chunk(&mut self.buffered) {
                TakenChunk::More => RelayStep::Read,
                TakenChunk::Invalid => RelayStep::Failed(HttpError::InvalidChunkSize),
                TakenChunk::Last => self.take_rest(),
                TakenChunk::Data(data) => {
                    bytes::push_bytes(&mut self.output, data.as_slice());
                    let piece = take_flushed(&mut self.output);
                    RelayStep::Piece(piece)
                },
            }
        } else {
            let known = match self.remaining {
                Some(n) => n,
                None => self.buffered.len(),
            };
            if self.remaining.is_some() && known == 0 {
                return self.take_rest();
            }
            if self.buffered.len() == 0 {
                return RelayStep::Read;
            }
            let count: usize = if known < self.buffered.len() {
                known
            } else {
                self.buffered.len()
            };
            let rest = self.buffered.split_off(count);
            assert(rest@ =~= before.buffered.skip(count as int));
            assert(self.buffered@ =~= before.buffered.take(count as int));
            assert(count == before.buffered.len() ==> self.buffered@ =~= before.buffered);
            assert(count == before.buffered.len() ==> rest@ =~= Seq::<u8>::empty());
            bytes::push_bytes(&mut self.output, self.buffered.as_slice());
            self.buffered = rest;
            self.remaining = match self.remaining {
                Some(n) => Some(n - count),
                None => None,
            };
            let piece = take_flushed(&mut self.output);
            RelayStep::Piece(piece)
        }
    }

    /// Hands out all that is held back.
    fn take_rest(&mut self) -> (r: RelayStep)
        ensures
            final(self)@ == (RelayModel { output: Seq::empty(), ..old(self)@ }),
            r@ == RelayStepModel::Finish(old(self)@.output),
    {
        let mut out: Vec<u8> = Vec::new();
        std::mem::swap(&mut out, &mut self.output);
        RelayStep::Finish(out)
    }

    /// What is done when no more bytes come.
    pub fn finish(self) -> (r: RelayStep)
        ensures
            r@ == relay_end(self@),
    {
        if self.in_chunks {
            RelayStep::Failed(HttpError::EndedEarly)
        } else {
            RelayStep::Finish(self.output)
        }
    }
}

} // verus!
