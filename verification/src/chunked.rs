//! Bodies that come in chunks.
use crate::bytes;
use crate::error::HttpError;
use crate::http::MAX_REQUEST_BYTES;
use crate::numbers;
use crate::rewrite;
use crate::text;
use vstd::prelude::*;
use vstd::utf8::*;

verus! {

broadcast use vstd::string::group_string_axioms;

/// How much of a chunked body is held at most before it is complete: as much as
/// a body may have, as much again for the line of a chunk, and the ends of the
/// line and of the chunk.
pub const MAX_HELD_BYTES: usize = 134217731;

/// The end of a line.
pub open spec fn crlf() -> Seq<u8> {
    seq![13u8, 10]
}

/// The size on a chunk's first line: a hexadecimal number before the first
/// semicolon. There is none if the number, with the two bytes behind the
/// chunk's data, is beyond what can be addressed.
pub open spec fn chunk_size(line: Seq<u8>) -> Option<nat> {
    let written = match text::position(line, 59u8, 0) {
        Some(at) => line.take(at),
        None => line,
    };
    if valid_utf8(written) {
        numbers::parse_unsigned(text::trim(decode_utf8(written)), 16, (usize::MAX - 2) as nat)
    } else {
        None
    }
}

/// What the bytes of a chunked body begin with.
pub enum ChunkModel {
    /// A part of the line with a chunk's size.
    More,
    /// A line that gives no size.
    Invalid,
    /// The last chunk, with where its line ends.
    Last { next: int },
    /// A part of a chunk whose line says that it has this size.
    Part { size: nat },
    /// A chunk, with where its data begins and ends and where the next begins.
    Data { start: int, end: int, next: int },
}

/// What the bytes of a chunked body begin with. Behind its data, two bytes end
/// a chunk.
pub open spec fn first_chunk(buf: Seq<u8>) -> ChunkModel {
    match text::find_from(buf, crlf(), 0) {
        None => ChunkModel::More,
        Some(at) => match chunk_size(buf.take(at)) {
            None => ChunkModel::Invalid,
            Some(size) => if size == 0 {
                ChunkModel::Last { next: at + 2 }
            } else if buf.len() < at + 2 + size + 2 {
                ChunkModel::Part { size }
            } else {
                ChunkModel::Data { start: at + 2, end: at + 2 + size, next: at + 2 + size + 2 }
            },
        },
    }
}

/// What the bytes of a chunked body begin with.
#[derive(Clone, Copy, Debug, PartialEq, Eq, Structural)]
pub enum ChunkStep {
    /// A part of the line with a chunk's size.
    More,
    /// A line that gives no size.
    Invalid,
    /// The last chunk, with where its line ends.
    Last { next: usize },
    /// A part of a chunk whose line says that it has this size.
    Part { size: usize },
    /// A chunk, with where its data begins and ends and where the next begins.
    Data { start: usize, end: usize, next: usize },
}

impl View for ChunkStep {
    type V = ChunkModel;

    open spec fn view(&self) -> ChunkModel {
        match *self {
            ChunkStep::More => ChunkModel::More,
            ChunkStep::Invalid => ChunkModel::Invalid,
            ChunkStep::Last { next } => ChunkModel::Last { next: next as int },
            ChunkStep::Part { size } => ChunkModel::Part { size: size as nat },
            ChunkStep::Data { start, end, next } => ChunkModel::Data {
                start: start as int,
                end: end as int,
                next: next as int,
            },
        }
    }
}

/// Reads the size on a chunk's first line.
fn parse_chunk_size(line: &[u8]) -> (r: Option<usize>)
    ensures
        match r {
            Some(size) => chunk_size(line@) == Some(size as nat) && size <= usize::MAX - 2,
            None => chunk_size(line@) is None,
        },
{
    let end = match text::position_byte(line, 59, 0) {
        Some(at) => at,
        None => line.len(),
    };
    let written = vstd::slice::slice_subrange(line, 0, end);
    assert(end == line@.len() ==> written@ =~= line@);
    assert(written@ =~= line@.take(end as int));
    let t = match text::utf8_text(written) {
        Some(t) => t,
        None => return None,
    };
    let chars = text::chars_of(t);
    let trimmed = text::trim_chars(&chars);
    match numbers::parse_number(&trimmed, 16, (usize::MAX - 2) as u64) {
        Some(size) => Some(size as usize),
        None => None,
    }
}

/// Tells what the bytes of a chunked body begin with.
pub fn next_chunk(buf: &[u8]) -> (r: ChunkStep)
    ensures
        r@ == first_chunk(buf@),
        r matches ChunkStep::Data { start, end, next } ==> start < end < next <= buf.len(),
        r matches ChunkStep::Last { next } ==> 0 < next <= buf.len(),
{
    let sep: [u8; 2] = [13, 10];
    assert(sep@ =~= crlf());
    let at = match text::find_bytes(buf, &sep, 0) {
        Some(at) => at,
        None => return ChunkStep::More,
    };
    let line = vstd::slice::slice_subrange(buf, 0, at);
    assert(line@ =~= buf@.take(at as int));
    match parse_chunk_size(line) {
        None => ChunkStep::Invalid,
        Some(size) => {
            let start: usize = at + 2;
            if size == 0 {
                ChunkStep::Last { next: start }
            } else if buf.len() - start < size + 2 {
                ChunkStep::Part { size }
            } else {
                ChunkStep::Data { start, end: start + size, next: start + size + 2 }
            }
        },
    }
}

/// A chunk that has been taken from the bytes of a body.
pub enum TakenChunk {
    /// There is no whole chunk yet.
    More,
    /// A line that gives no size.
    Invalid,
    /// The last chunk.
    Last,
    /// A chunk with this data.
    Data(Vec<u8>),
}

/// Takes the chunk that the bytes of a body begin with, and leaves what stands
/// behind it. Of the last chunk its line is taken.
pub fn take_chunk(buffered: &mut Vec<u8>) -> (r: TakenChunk)
    ensures
        match (r, first_chunk(old(buffered)@)) {
            (TakenChunk::More, ChunkModel::More) => final(buffered)@ == old(buffered)@,
            (TakenChunk::More, ChunkModel::Part { size }) => final(buffered)@ == old(buffered)@,
            (TakenChunk::Invalid, ChunkModel::Invalid) => final(buffered)@ == old(buffered)@,
            (TakenChunk::Last, ChunkModel::Last { next }) => final(buffered)@ == old(
                buffered,
            )@.skip(next),
            (TakenChunk::Data(data), ChunkModel::Data { start, end, next }) => data@ == old(
                buffered,
            )@.subrange(start, end) && final(buffered)@ == old(buffered)@.skip(next),
            _ => false,
        },
{
    let ghost before = buffered@;
    match next_chunk(buffered.as_slice()) {
        ChunkStep::More => TakenChunk::More,
        ChunkStep::Part { size: _ } => TakenChunk::More,
        ChunkStep::Invalid => TakenChunk::Invalid,
        ChunkStep::Last { next } => {
            let rest = buffered.split_off(next);
            assert(rest@ =~= before.skip(next as int));
            *buffered = rest;
            TakenChunk::Last
        },
        ChunkStep::Data { start, end, next } => {
            let rest = buffered.split_off(next);
            assert(rest@ =~= before.skip(next as int));
            let data = vstd::slice::slice_to_vec(
                vstd::slice::slice_subrange(buffered.as_slice(), start, end),
            );
            assert(data@ =~= before.subrange(start as int, end as int));
            *buffered = rest;
            TakenChunk::Data(data)
        },
    }
}

// ---------------------------------------------------------------------------
// A whole body
// ---------------------------------------------------------------------------

/// The line with a chunk's size is longer than a body may be. This shows as
/// soon as the line cannot end within the limit.
pub open spec fn line_too_long(buf: Seq<u8>) -> bool {
    match text::find_from(buf, crlf(), 0) {
        Some(at) => at > MAX_REQUEST_BYTES,
        None => buf.len() > MAX_REQUEST_BYTES + 1,
    }
}

/// How far the reading of a chunked body has come.
#[verifier::ext_equal]
pub enum BodyModel {
    /// More bytes are needed; `body` has been read, `rest` has not.
    More { body: Seq<u8>, rest: Seq<u8> },
    /// The body is complete.
    Done(Seq<u8>),
    /// The body is refused.
    Failed(HttpError),
}

/// How far the reading of a chunked body comes with these bytes, after `body`
/// has been read. A chunk that would bring the body over the limit is refused
/// once its size is known.
pub open spec fn dechunk(body: Seq<u8>, buf: Seq<u8>) -> BodyModel
    decreases buf.len(),
{
    if line_too_long(buf) {
        BodyModel::Failed(HttpError::RequestTooLarge)
    } else {
        match first_chunk(buf) {
            ChunkModel::More => BodyModel::More { body, rest: buf },
            ChunkModel::Invalid => BodyModel::Failed(HttpError::InvalidChunkSize),
            ChunkModel::Last { next } => BodyModel::Done(body),
            ChunkModel::Part { size } => if body.len() + size > MAX_REQUEST_BYTES {
                BodyModel::Failed(HttpError::RequestTooLarge)
            } else {
                BodyModel::More { body, rest: buf }
            },
            ChunkModel::Data { start, end, next } => {
                proof {
                    first_chunk_bounds(buf);
                }
                let longer = body + buf.subrange(start, end);
                if longer.len() > MAX_REQUEST_BYTES {
                    BodyModel::Failed(HttpError::RequestTooLarge)
                } else {
                    dechunk(longer, buf.skip(next))
                }
            },
        }
    }
}

/// A chunk lies inside the bytes.
pub proof fn first_chunk_bounds(buf: Seq<u8>)
    ensures
        first_chunk(buf) matches ChunkModel::Data { start, end, next } ==> 0 < start < end < next
            <= buf.len(),
        first_chunk(buf) matches ChunkModel::Last { next } ==> 0 < next <= buf.len(),
{
    text::find_is_least(buf, crlf(), 0);
}

/// What is held of a chunked body is bounded, whatever sizes its chunks
/// announce: the body is within the limit, and so are the line and the data of
/// the chunk that is waited for.
pub proof fn dechunk_is_bounded(body: Seq<u8>, buf: Seq<u8>)
    requires
        body.len() <= MAX_REQUEST_BYTES,
    ensures
        match dechunk(body, buf) {
            BodyModel::Done(whole) => whole.len() <= MAX_REQUEST_BYTES,
            BodyModel::More { body: read, rest } => read.len() <= MAX_REQUEST_BYTES && read.len()
                + rest.len() <= MAX_HELD_BYTES,
            BodyModel::Failed(_) => true,
        },
    decreases buf.len(),
{
    text::find_is_least(buf, crlf(), 0);
    if let ChunkModel::Data { start, end, next } = first_chunk(buf) {
        first_chunk_bounds(buf);
        let longer = body + buf.subrange(start, end);
        if longer.len() <= MAX_REQUEST_BYTES {
            dechunk_is_bounded(longer, buf.skip(next));
        }
    }
}

/// How far the reading of a chunked body has come.
#[derive(Clone, Copy, Debug, PartialEq, Eq, Structural)]
pub enum DrainStep {
    /// More bytes are needed.
    More,
    /// The body is complete.
    Done,
    /// The body is refused.
    Failed(HttpError),
}

/// Whether the line with a chunk's size is longer than a body may be.
fn is_line_too_long(buf: &[u8]) -> (r: bool)
    ensures
        r == line_too_long(buf@),
{
    let sep: [u8; 2] = [13, 10];
    assert(sep@ =~= crlf());
    match text::find_bytes(buf, &sep, 0) {
        Some(at) => at > MAX_REQUEST_BYTES,
        None => buf.len() > MAX_REQUEST_BYTES + 1,
    }
}

/// Reads the chunks that have come in whole, and leaves the rest in `buf`.
pub(crate) fn drain_chunks(body: &mut Vec<u8>, buf: &mut Vec<u8>) -> (r: DrainStep)
    requires
        old(body)@.len() <= MAX_REQUEST_BYTES,
    ensures
        match r {
            DrainStep::More => dechunk(old(body)@, old(buf)@) == (BodyModel::More {
                body: final(body)@,
                rest: final(buf)@,
            }),
            DrainStep::Done => dechunk(old(body)@, old(buf)@) == BodyModel::Done(final(body)@)
                && final(buf)@ == old(buf)@,
            DrainStep::Failed(e) => dechunk(old(body)@, old(buf)@) == BodyModel::Failed(e),
        },
{
    let ghost body0 = body@;
    let ghost buf0 = buf@;
    let mut at: usize = 0;
    assert(buf@.skip(0) =~= buf@);
    loop
        invariant
            at <= buf@.len(),
            buf@ == buf0,
            body0 == old(body)@,
            buf0 == old(buf)@,
            body@.len() <= MAX_REQUEST_BYTES,
            dechunk(body@, buf@.skip(at as int)) == dechunk(body0, buf0),
        decreases buf@.len() - at,
    {
        let rest = vstd::slice::slice_subrange(buf.as_slice(), at, buf.len());
        assert(rest@ =~= buf@.skip(at as int));
        if is_line_too_long(rest) {
            return DrainStep::Failed(HttpError::RequestTooLarge);
        }
        match next_chunk(rest) {
            ChunkStep::More => {
                let tail = buf.split_off(at);
                assert(tail@ =~= buf0.skip(at as int));
                *buf = tail;
                return DrainStep::More;
            },
            ChunkStep::Part { size } => {
                if size > MAX_REQUEST_BYTES - body.len() {
                    return DrainStep::Failed(HttpError::RequestTooLarge);
                }
                let tail = buf.split_off(at);
                assert(tail@ =~= buf0.skip(at as int));
                *buf = tail;
                return DrainStep::More;
            },
            ChunkStep::Invalid => return DrainStep::Failed(HttpError::InvalidChunkSize),
            ChunkStep::Last { next: _ } => return DrainStep::Done,
            ChunkStep::Data { start, end, next } => {
                let data = vstd::slice::slice_subrange(rest, start, end);
                bytes::push_bytes(body, data);
                if body.len() > MAX_REQUEST_BYTES {
                    return DrainStep::Failed(HttpError::RequestTooLarge);
                }
                assert(rest@.skip(next as int) =~= buf@.skip(at + next));
                at = at + next;
            },
        }
    }
}

// ---------------------------------------------------------------------------
// Writing
// ---------------------------------------------------------------------------

/// A chunk with this data; of no data there is no chunk.
pub open spec fn chunk(data: Seq<u8>) -> Seq<u8> {
    if data.len() == 0 {
        Seq::empty()
    } else {
        encode_utf8(numbers::hex(data.len())) + crlf() + data + crlf()
    }
}

/// A piece of a response body as the client gets it.
pub open spec fn piece_of(body: Seq<u8>, request_body: Seq<u8>) -> Seq<u8> {
    chunk(rewrite::rewritten(body, request_body))
}

/// Writes a piece of a response body as a chunk, with its tool names spelled
/// as the request spells them; of an empty piece nothing is written.
pub fn encode_chunk(body: &[u8], request_body: &[u8]) -> (r: Vec<u8>)
    ensures
        r@ == chunk(rewrite::rewritten(body@, request_body@)),
        r@ == piece_of(body@, request_body@),
{
    let data = rewrite::rewrite_tool_names(body, request_body);
    if data.len() == 0 {
        return Vec::new();
    }
    let mut size = String::new();
    numbers::push_number(&mut size, data.len() as u64, 16);
    assert(size@ =~= numbers::hex(data@.len()));
    let sep: [u8; 2] = [13, 10];
    assert(sep@ =~= crlf());
    let mut out: Vec<u8> = Vec::new();
    bytes::push_text(&mut out, size.as_str());
    bytes::push_bytes(&mut out, &sep);
    bytes::push_bytes(&mut out, &data);
    bytes::push_bytes(&mut out, &sep);
    assert(out@ =~= chunk(data@));
    out
}

/// The end of a chunked body.
pub open spec fn last_chunk() -> Seq<u8> {
    seq![48u8, 13, 10, 13, 10]
}

/// The last piece of a response body as the client gets it.
pub open spec fn last_piece_of(body: Seq<u8>, request_body: Seq<u8>) -> Seq<u8> {
    piece_of(body, request_body) + last_chunk()
}

/// Writes the last piece of a response body as a chunk, and the end of the
/// body.
pub fn encode_last_chunk(body: &[u8], request_body: &[u8]) -> (r: Vec<u8>)
    ensures
        r@ == chunk(rewrite::rewritten(body@, request_body@)) + last_chunk(),
        r@ == last_piece_of(body@, request_body@),
{
    let mut out = encode_chunk(body, request_body);
    let end: [u8; 5] = [48, 13, 10, 13, 10];
    assert(end@ =~= last_chunk());
    bytes::push_bytes(&mut out, &end);
    out
}

} // verus!
