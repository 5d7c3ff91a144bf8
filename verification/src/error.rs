//! What can be wrong with a message.
use vstd::prelude::*;

verus! {

/// Why a message is refused.
#[derive(Clone, Copy, Debug, PartialEq, Eq, Structural)]
pub enum HttpError {
    /// The input ended before the blank line behind a request's head.
    IncompleteRequestHead,
    /// The input ended before the blank line behind a response's head.
    IncompleteResponseHead,
    /// The head is longer than the limit.
    HeadTooLarge,
    /// The head of a request is not UTF-8.
    NonUtf8Head,
    /// The method or the target of a request is not well formed.
    InvalidRequestLine,
    /// A header line has no colon, no token for a name, or a control
    /// character in its value.
    MalformedHeader,
    /// The headers give a body's length more than once.
    ConflictingFraming,
    /// The length of a body is no number.
    InvalidContentLength,
    /// The body is longer than the limit.
    RequestTooLarge,
    /// The size of a chunk is no number, or leaves no room for its end.
    InvalidChunkSize,
    /// The input ended inside a chunked body.
    EndedEarly,
    /// The input ended inside a body of known length.
    BodyCutShort,
}

/// What kind of failure an error is.
#[derive(Clone, Copy, Debug, PartialEq, Eq, Structural)]
pub enum ErrorClass {
    /// The input ended too soon.
    UnexpectedEof,
    /// The input is malformed.
    InvalidData,
    /// The input is beyond a limit.
    InvalidInput,
}

impl HttpError {
    /// What kind of failure this is.
    pub open spec fn spec_class(self) -> ErrorClass {
        match self {
            HttpError::IncompleteRequestHead => ErrorClass::UnexpectedEof,
            HttpError::IncompleteResponseHead => ErrorClass::UnexpectedEof,
            HttpError::EndedEarly => ErrorClass::UnexpectedEof,
            HttpError::BodyCutShort => ErrorClass::UnexpectedEof,
            HttpError::HeadTooLarge => ErrorClass::InvalidInput,
            HttpError::RequestTooLarge => ErrorClass::InvalidInput,
            _ => ErrorClass::InvalidData,
        }
    }

    /// The words for this error.
    pub open spec fn spec_message(self) -> Seq<char> {
        match self {
            HttpError::IncompleteRequestHead => "incomplete request head"@,
            HttpError::IncompleteResponseHead => "incomplete response head"@,
            HttpError::HeadTooLarge => "head too large"@,
            HttpError::NonUtf8Head => "non-utf8 request head"@,
            HttpError::InvalidRequestLine => "invalid request line"@,
            HttpError::MalformedHeader => "malformed header"@,
            HttpError::ConflictingFraming => "conflicting framing headers"@,
            HttpError::InvalidContentLength => "invalid content-length"@,
            HttpError::RequestTooLarge => "request too large"@,
            HttpError::InvalidChunkSize => "invalid chunk size"@,
            HttpError::EndedEarly => "request ended early"@,
            HttpError::BodyCutShort => "failed to fill whole buffer"@,
        }
    }

    /// What kind of failure this is.
    pub fn class(&self) -> (r: ErrorClass)
        ensures
            r == self.spec_class(),
    {
        match self {
            HttpError::IncompleteRequestHead => ErrorClass::UnexpectedEof,
            HttpError::IncompleteResponseHead => ErrorClass::UnexpectedEof,
            HttpError::EndedEarly => ErrorClass::UnexpectedEof,
            HttpError::BodyCutShort => ErrorClass::UnexpectedEof,
            HttpError::HeadTooLarge => ErrorClass::InvalidInput,
            HttpError::RequestTooLarge => ErrorClass::InvalidInput,
            HttpError::NonUtf8Head => ErrorClass::InvalidData,
            HttpError::InvalidRequestLine => ErrorClass::InvalidData,
            HttpError::MalformedHeader => ErrorClass::InvalidData,
            HttpError::ConflictingFraming => ErrorClass::InvalidData,
            HttpError::InvalidContentLength => ErrorClass::InvalidData,
            HttpError::InvalidChunkSize => ErrorClass::InvalidData,
        }
    }

    /// The words for this error.
    pub fn message(&self) -> (r: &'static str)
        ensures
            r@ == self.spec_message(),
    {
        match self {
            HttpError::IncompleteRequestHead => "incomplete request head",
            HttpError::IncompleteResponseHead => "incomplete response head",
            HttpError::HeadTooLarge => "head too large",
            HttpError::NonUtf8Head => "non-utf8 request head",
            HttpError::InvalidRequestLine => "invalid request line",
            HttpError::MalformedHeader => "malformed header",
            HttpError::ConflictingFraming => "conflicting framing headers",
            HttpError::InvalidContentLength => "invalid content-length",
            HttpError::RequestTooLarge => "request too large",
            HttpError::InvalidChunkSize => "invalid chunk size",
            HttpError::EndedEarly => "request ended early",
            HttpError::BodyCutShort => "failed to fill whole buffer",
        }
    }
}

} // verus!
