//! The reading of a request, as its bytes come in.
use crate::chunked;
use crate::chunked::{drain_chunks, DrainStep};
use crate::error::HttpError;
use crate::http;
use crate::http::{
    check_head, parse_request_head, Framing, HeadProgress, RequestHead, MAX_HEAD_BYTES,
};
use vstd::prelude::*;

verus! {

/// A request.
pub struct Request {
    pub method: String,
    pub path: String,
    pub headers: Vec<(String, String)>,
    pub body: Vec<u8>,
}

/// What a request says.
#[verifier::ext_equal]
pub struct RequestModel {
    pub method: Seq<char>,
    pub path: Seq<char>,
    pub headers: Seq<(Seq<char>, Seq<char>)>,
    pub body: Seq<u8>,
}

impl View for Request {
    type V = RequestModel;

    open spec fn view(&self) -> RequestModel {
        RequestModel {
            method: self.method@,
            path: self.path@,
            headers: http::fields(self.headers@),
            body: self.body@,
        }
    }
}

/// How far the reading of a request has come.
#[verifier::ext_equal]
pub enum ReadModel {
    /// More bytes are needed.
    More,
    /// The request is complete.
    Done(RequestModel),
    /// The request is refused.
    Failed(HttpError),
}

/// The request with this head and this body.
pub open spec fn request_with(head: http::RequestHeadModel, body: Seq<u8>) -> RequestModel {
    RequestModel { method: head.method, path: head.path, headers: head.headers, body }
}

/// How far the bytes behind a head bring the body. `ended` says that no more
/// will come.
pub open spec fn body_of(
    head: http::RequestHeadModel,
    rest: Seq<u8>,
    ended: bool,
) -> ReadModel {
    match head.framing {
        Framing::Length(length) => if rest.len() >= length {
            ReadModel::Done(request_with(head, rest.take(length as int)))
        } else if ended {
            ReadModel::Failed(HttpError::BodyCutShort)
        } else {
            ReadModel::More
        },
        Framing::Chunked => match chunked::dechunk(Seq::empty(), rest) {
            chunked::BodyModel::Done(body) => ReadModel::Done(request_with(head, body)),
            chunked::BodyModel::Failed(e) => ReadModel::Failed(e),
            chunked::BodyModel::More { body, rest } => if ended {
                ReadModel::Failed(HttpError::EndedEarly)
            } else {
                ReadModel::More
            },
        },
    }
}

/// How far the bytes of a connection bring a request. `ended` says that no
/// more will come.
pub open spec fn request_of(stream: Seq<u8>, ended: bool) -> ReadModel {
    match http::head_progress(stream, MAX_HEAD_BYTES as int) {
        HeadProgress::More => if ended {
            ReadModel::Failed(HttpError::IncompleteRequestHead)
        } else {
            ReadModel::More
        },
        HeadProgress::TooLarge => ReadModel::Failed(HttpError::HeadTooLarge),
        HeadProgress::Complete(end) => match http::request_head(stream.take(end as int)) {
            Err(e) => ReadModel::Failed(e),
            Ok(head) => body_of(head, stream.skip(end as int), ended),
        },
    }
}

/// A request of which a part has come in.
pub struct RequestReader {
    head: Option<RequestHead>,
    body: Vec<u8>,
    buffered: Vec<u8>,
    seen: Ghost<Seq<u8>>,
}

/// What has become of a request once more bytes have come in.
pub enum ReadStep {
    /// More bytes are needed.
    More(RequestReader),
    /// The request is complete.
    Done(Request),
    /// The request is refused.
    Failed(HttpError),
}

impl RequestReader {
    /// The bytes that have come in.
    pub closed spec fn seen(self) -> Seq<u8> {
        self.seen@
    }

    /// How many bytes are held.
    pub closed spec fn held(self) -> nat {
        self.body@.len() + self.buffered@.len()
    }

    /// What is held is what the bytes that have come in amount to.
    pub closed spec fn wf(self) -> bool {
        let seen = self.seen@;
        match self.head {
            None => {
                &&& self.buffered@ == seen
                &&& self.body@.len() == 0
                &&& http::head_progress(seen, MAX_HEAD_BYTES as int) == HeadProgress::More
            },
            Some(head) => {
                let end = http::head_end(seen)->0;
                &&& http::head_end(seen) is Some
                &&& 4 <= end <= MAX_HEAD_BYTES
                &&& end <= seen.len()
                &&& http::request_head(seen.take(end)) == Ok::<http::RequestHeadModel, HttpError>(
                    head@,
                )
                &&& match head.framing {
                    Framing::Length(length) => {
                        &&& self.body@.len() == 0
                        &&& self.buffered@ == seen.skip(end)
                        &&& self.buffered@.len() < length
                    },
                    Framing::Chunked => chunked::dechunk(Seq::empty(), seen.skip(end)) == (
                    chunked::BodyModel::More { body: self.body@, rest: self.buffered@ }),
                }
            },
        }
    }

    /// A request of which nothing has come in.
    pub fn new() -> (r: RequestReader)
        ensures
            r.wf(),
            r.seen() == Seq::<u8>::empty(),
    {
        let r = RequestReader {
            head: None,
            body: Vec::new(),
            buffered: Vec::new(),
            seen: Ghost(Seq::empty()),
        };
        proof {
            crate::text::find_absent(r.seen@, http::head_mark(), 0);
        }
        r
    }

    /// Takes in the bytes that have come next.
    pub fn feed(self, data: &[u8]) -> (r: ReadStep)
        requires
            self.wf(),
        ensures
            match r {
                ReadStep::More(next) => next.wf() && next.seen() == self.seen() + data@
                    && request_of(self.seen() + data@, false) == ReadModel::More && next.held()
                    <= chunked::MAX_HELD_BYTES,
                ReadStep::Done(request) => request_of(self.seen() + data@, false)
                    == ReadModel::Done(request@),
                ReadStep::Failed(e) => request_of(self.seen() + data@, false)
                    == ReadModel::Failed(e),
            },
    {
        let ghost before = self.seen@;
        let ghost stream = self.seen@ + data@;
        let mut buffered = self.buffered;
        let body = self.body;
        crate::bytes::push_bytes(&mut buffered, data);
        match self.head {
            None => {
                assert(buffered@ =~= stream);
                match check_head(buffered.as_slice(), MAX_HEAD_BYTES) {
                    HeadProgress::More => ReadStep::More(
                        RequestReader { head: None, body, buffered, seen: Ghost(stream) },
                    ),
                    HeadProgress::TooLarge => ReadStep::Failed(HttpError::HeadTooLarge),
                    HeadProgress::Complete(end) => {
                        let rest = buffered.split_off(end);
                        assert(buffered@ =~= stream.take(end as int));
                        assert(rest@ =~= stream.skip(end as int));
                        match parse_request_head(buffered.as_slice()) {
                            Err(e) => ReadStep::Failed(e),
                            Ok(head) => {
                                assert(body@ =~= Seq::<u8>::empty());
                                Self::read_body(head, body, rest, Ghost(stream), Ghost(end as int))
                            },
                        }
                    },
                }
            },
            Some(head) => {
                let ghost end = http::head_end(before)->0;
                proof {
                    crate::laws_http::head_end_is_stable(before, data@);
                    assert(stream.take(end) =~= before.take(end));
                    assert(stream.skip(end) =~= before.skip(end) + data@);
                    crate::laws_http::dechunk_in_parts(Seq::empty(), before.skip(end), data@);
                    chunked::dechunk_is_bounded(Seq::empty(), before.skip(end));
                }
                Self::read_body(head, body, buffered, Ghost(stream), Ghost(end))
            },
        }
    }

    /// Goes on with the body of a request whose head has come in.
    fn read_body(
        head: RequestHead,
        body: Vec<u8>,
        buffered: Vec<u8>,
        stream: Ghost<Seq<u8>>,
        end: Ghost<int>,
    ) -> (r: ReadStep)
        requires
            http::head_end(stream@) == Some(end@),
            4 <= end@ <= MAX_HEAD_BYTES,
            end@ <= stream@.len(),
            http::request_head(stream@.take(end@)) == Ok::<http::RequestHeadModel, HttpError>(
                head@,
            ),
            head.framing is Length ==> buffered@ == stream@.skip(end@) && body@.len() == 0,
            body@.len() <= http::MAX_REQUEST_BYTES,
            head.framing is Chunked ==> chunked::dechunk(body@, buffered@) == chunked::dechunk(
                Seq::empty(),
                stream@.skip(end@),
            ),
        ensures
            match r {
                ReadStep::More(next) => next.wf() && next.seen() == stream@ && request_of(
                    stream@,
                    false,
                ) == ReadModel::More && next.held() <= chunked::MAX_HELD_BYTES,
                ReadStep::Done(request) => request_of(stream@, false) == ReadModel::Done(request@),
                ReadStep::Failed(e) => request_of(stream@, false) == ReadModel::Failed(e),
            },
    {
        let mut body = body;
        let mut buffered = buffered;
        proof {
            chunked::dechunk_is_bounded(Seq::empty(), stream@.skip(end@));
        }
        match head.framing {
            Framing::Length(length) => {
                if buffered.len() < length {
                    return ReadStep::More(
                        RequestReader { head: Some(head), body, buffered, seen: stream },
                    );
                }
                buffered.truncate(length);
                assert(buffered@ =~= stream@.skip(end@).take(length as int));
                ReadStep::Done(
                    Request {
                        method: head.method,
                        path: head.path,
                        headers: head.headers,
                        body: buffered,
                    },
                )
            },
            Framing::Chunked => match drain_chunks(&mut body, &mut buffered) {
                DrainStep::More => ReadStep::More(
                    RequestReader { head: Some(head), body, buffered, seen: stream },
                ),
                DrainStep::Done => ReadStep::Done(
                    Request {
                        method: head.method,
                        path: head.path,
                        headers: head.headers,
                        body,
                    },
                ),
                DrainStep::Failed(e) => ReadStep::Failed(e),
            },
        }
    }

    /// What it means that no more bytes will come.
    pub fn finish(self) -> (r: HttpError)
        requires
            self.wf(),
        ensures
            request_of(self.seen(), true) == ReadModel::Failed(r),
    {
        match self.head {
            None => HttpError::IncompleteRequestHead,
            Some(head) => match head.framing {
                Framing::Length(_) => HttpError::BodyCutShort,
                Framing::Chunked => HttpError::EndedEarly,
            },
        }
    }
}

} // verus!
