//! A completion by Prism: what is made of the replies.
use crate::http::push_text;
use crate::numbers;
use crate::prism;
use crate::relay;
use crate::relay::error_response;
use crate::text;
use vstd::prelude::*;

verus! {

broadcast use vstd::string::group_string_axioms;

/// How often a completion is asked after at most.
pub const MAX_POLLS: u32 = 120;

/// How many milliseconds pass before a completion is asked after.
pub const POLL_INTERVAL_MS: u64 = 1000;

// ---------------------------------------------------------------------------
// Replies
// ---------------------------------------------------------------------------

/// A reply. `T` is the state of the turn, which is handed back as it came.
pub struct PrismResponse<T> {
    pub status: Option<String>,
    pub request_id: Option<String>,
    pub turn_state: Option<T>,
    pub response: Option<PrismInnerResponse>,
}

/// What a reply says of the completion.
pub struct PrismInnerResponse {
    pub status: Option<String>,
    pub payload: Option<PrismPayload>,
}

/// What a completion has come to.
pub struct PrismPayload {
    pub output: Option<Vec<PrismOutputMessage>>,
    pub message: Option<String>,
}

/// A message of a completion.
pub struct PrismOutputMessage {
    pub content: Option<Vec<PrismOutputContent>>,
}

/// A part of a message of a completion.
pub struct PrismOutputContent {
    pub text: Option<String>,
}

/// The texts of the parts in a row.
pub open spec fn contents_text(contents: Seq<PrismOutputContent>) -> Seq<char>
    decreases contents.len(),
{
    if contents.len() == 0 {
        Seq::empty()
    } else {
        contents_text(contents.drop_last()) + match contents.last().text {
            Some(t) => t@,
            None => Seq::empty(),
        }
    }
}

/// The texts of the messages in a row.
pub open spec fn output_text(output: Seq<PrismOutputMessage>) -> Seq<char>
    decreases output.len(),
{
    if output.len() == 0 {
        Seq::empty()
    } else {
        output_text(output.drop_last()) + match output.last().content {
            Some(contents) => contents_text(contents@),
            None => Seq::empty(),
        }
    }
}

/// The message of a reply that says that the completion has failed.
pub open spec fn reply_error<T>(reply: PrismResponse<T>) -> Option<Seq<char>> {
    match reply.response {
        Some(inner) => match inner.payload {
            Some(payload) => if prism::optional(inner.status) == Some("error"@) {
                prism::optional(payload.message)
            } else {
                None
            },
            None => None,
        },
        None => None,
    }
}

/// The text that a reply gives.
pub open spec fn reply_text<T>(reply: PrismResponse<T>) -> Seq<char> {
    match reply.response {
        Some(inner) => match inner.payload {
            Some(payload) => match payload.output {
                Some(output) => output_text(output@),
                None => Seq::empty(),
            },
            None => Seq::empty(),
        },
        None => Seq::empty(),
    }
}

/// Appends the texts of the parts of a message.
fn push_contents(out: &mut String, contents: &[PrismOutputContent])
    ensures
        final(out)@ == old(out)@ + contents_text(contents@),
{
    let ghost start = out@;
    let mut i: usize = 0;
    assert(out@ =~= start + contents_text(contents@.take(0)));
    while i < contents.len()
        invariant
            i <= contents@.len(),
            out@ == start + contents_text(contents@.take(i as int)),
        decreases contents@.len() - i,
    {
        let ghost before = out@;
        if let Some(t) = &contents[i].text {
            push_text(out, t.as_str());
        }
        i += 1;
        assert(contents@.take(i as int).drop_last() =~= contents@.take(i - 1));
        assert(out@ =~= start + contents_text(contents@.take(i as int)));
    }
    assert(contents@.take(i as int) =~= contents@);
}

/// Gives the texts of the messages in a row.
pub fn extract_text_from_output(output: &[PrismOutputMessage]) -> (r: String)
    ensures
        r@ == output_text(output@),
{
    let mut out = String::new();
    let mut i: usize = 0;
    assert(out@ =~= output_text(output@.take(0)));
    while i < output.len()
        invariant
            i <= output@.len(),
            out@ == output_text(output@.take(i as int)),
        decreases output@.len() - i,
    {
        let ghost before = out@;
        if let Some(contents) = &output[i].content {
            push_contents(&mut out, contents.as_slice());
        }
        i += 1;
        assert(output@.take(i as int).drop_last() =~= output@.take(i - 1));
        assert(out@ =~= output_text(output@.take(i as int)));
    }
    assert(output@.take(i as int) =~= output@);
    out
}

/// Whether a text that there may be is this one.
fn is_text(value: &Option<String>, expected: &str) -> (r: bool)
    ensures
        r == (prism::optional(*value) == Some(expected@)),
{
    match value {
        Some(t) => text::same_text(t.as_str(), expected),
        None => false,
    }
}

/// Gives the message of a reply that says that the completion has failed.
fn error_message<T>(reply: &PrismResponse<T>) -> (r: Option<&String>)
    ensures
        match r {
            Some(message) => reply_error(*reply) == Some(message@),
            None => reply_error(*reply) is None,
        },
{
    match &reply.response {
        Some(inner) => match &inner.payload {
            Some(payload) => if is_text(&inner.status, "error") {
                match &payload.message {
                    Some(message) => Some(message),
                    None => None,
                }
            } else {
                None
            },
            None => None,
        },
        None => None,
    }
}

/// Gives the text of a reply.
fn completion_text<T>(reply: &PrismResponse<T>) -> (r: String)
    ensures
        r@ == reply_text(*reply),
{
    match &reply.response {
        Some(inner) => match &inner.payload {
            Some(payload) => match &payload.output {
                Some(output) => extract_text_from_output(output.as_slice()),
                None => String::new(),
            },
            None => String::new(),
        },
        None => String::new(),
    }
}

// ---------------------------------------------------------------------------
// Errors
// ---------------------------------------------------------------------------

/// The answer when the completion has failed: 403 if Prism was refused, else
/// 400.
pub open spec fn failure_answer(message: Seq<char>) -> Seq<char> {
    let said = "Prism error: "@ + message;
    if text::find_from(message, "403 Forbidden"@, 0) is Some {
        relay::error_answer(403, "Forbidden"@, said)
    } else {
        relay::error_answer(400, "Bad Request"@, said)
    }
}

/// Writes the answer when the completion has failed.
pub fn failure_response(message: &str) -> (r: String)
    ensures
        r@ == failure_answer(message@),
{
    let mut said = "Prism error: ".to_owned();
    push_text(&mut said, message);
    let chars = text::chars_of(message);
    let pattern = text::chars_of("403 Forbidden");
    match text::find_chars(&chars, &pattern, 0) {
        Some(_) => error_response(403, "Forbidden", said.as_str()),
        None => error_response(400, "Bad Request", said.as_str()),
    }
}

/// What is said of a start that Prism has refused.
pub open spec fn rejection(status: u16) -> Seq<char> {
    "Prism rejected request with HTTP "@ + numbers::decimal(status as nat)
}

/// What is said of a start that Prism has refused with a body.
pub open spec fn rejection_with(status: u16, body: Seq<char>) -> Seq<char> {
    rejection(status) + ": "@ + body
}

/// Begins what is said of a start that Prism has refused.
fn rejection_text(status: u16) -> (r: String)
    ensures
        r@ == rejection(status),
{
    let mut out = "Prism rejected request with HTTP ".to_owned();
    numbers::push_number(&mut out, status as u64, 10);
    out
}

/// The answer to a start by the status of its reply: none below 400.
pub open spec fn start_refusal(status: u16, body: Seq<char>) -> Option<Seq<char>> {
    if status >= 400 {
        Some(
            relay::error_answer(
                status,
                "Upstream Prism Error"@,
                rejection_with(status, body),
            ),
        )
    } else {
        None
    }
}

/// The answer to a start that Prism has refused with nothing but a status.
pub open spec fn bare_refusal(status: u16) -> Seq<char> {
    relay::error_answer(status, "Upstream Prism Error"@, rejection(status))
}

/// The answer to a start that has not reached Prism.
pub open spec fn start_failure(detail: Seq<char>) -> Seq<char> {
    relay::error_answer(
        502,
        "Bad Gateway"@,
        "Prism start request failed (network or timeout): "@ + detail,
    )
}

/// The answer to a start whose reply cannot be read.
pub open spec fn start_garbled(detail: Seq<char>) -> Seq<char> {
    relay::error_answer(
        502,
        "Bad Gateway"@,
        "Failed to parse Prism start response: "@ + detail,
    )
}

/// Writes the answer to a start that Prism has refused, unless the status says
/// that it has not.
pub fn check_start(status: u16, body: &str) -> (r: Option<String>)
    ensures
        match r {
            Some(answer) => status >= 400 && answer@ == relay::error_answer(
                status,
                "Upstream Prism Error"@,
                rejection_with(status, body@),
            ),
            None => status < 400,
        },
        prism::optional(r) == start_refusal(status, body@),
{
    if status < 400 {
        return None;
    }
    let mut said = rejection_text(status);
    push_text(&mut said, ": ");
    push_text(&mut said, body);
    Some(error_response(status, "Upstream Prism Error", said.as_str()))
}

/// Writes the answer to a start that Prism has refused with nothing but a
/// status.
pub fn refused_start(status: u16) -> (r: String)
    ensures
        r@ == relay::error_answer(status, "Upstream Prism Error"@, rejection(status)),
        r@ == bare_refusal(status),
{
    let said = rejection_text(status);
    error_response(status, "Upstream Prism Error", said.as_str())
}

/// Writes the answer to a start that has not reached Prism.
pub fn failed_start(detail: &str) -> (r: String)
    ensures
        r@ == relay::error_answer(
            502,
            "Bad Gateway"@,
            "Prism start request failed (network or timeout): "@ + detail@,
        ),
        r@ == start_failure(detail@),
{
    let mut said = "Prism start request failed (network or timeout): ".to_owned();
    push_text(&mut said, detail);
    error_response(502, "Bad Gateway", said.as_str())
}

/// Writes the answer to a start whose reply cannot be read.
pub fn unreadable_start(detail: &str) -> (r: String)
    ensures
        r@ == relay::error_answer(
            502,
            "Bad Gateway"@,
            "Failed to parse Prism start response: "@ + detail@,
        ),
        r@ == start_garbled(detail@),
{
    let mut said = "Failed to parse Prism start response: ".to_owned();
    push_text(&mut said, detail);
    error_response(502, "Bad Gateway", said.as_str())
}

// ---------------------------------------------------------------------------
// Polling
// ---------------------------------------------------------------------------

/// A completion that is not finished.
pub struct PollState<T> {
    /// What it is asked after by.
    pub request_id: String,
    /// The state of the turn, as the last reply gave it.
    pub turn_state: T,
    /// How often it has been asked after.
    pub attempts: u32,
}

/// A completion that is not finished.
#[verifier::ext_equal]
pub struct PollModel<T> {
    pub request_id: Seq<char>,
    pub turn_state: T,
    pub attempts: nat,
}

impl<T> View for PollState<T> {
    type V = PollModel<T>;

    open spec fn view(&self) -> PollModel<T> {
        PollModel {
            request_id: self.request_id@,
            turn_state: self.turn_state,
            attempts: self.attempts as nat,
        }
    }
}

/// What has become of the asking.
pub enum PollEvent<T> {
    /// It cannot be written down.
    Unsendable,
    /// There is no reply that can be read.
    Unusable,
    /// This is the reply.
    Reply(PrismResponse<T>),
}

/// What comes next.
pub enum PrismStep<T> {
    /// Answer with this error.
    Refused(String),
    /// Wait, and ask after the completion.
    Poll(PollState<T>),
    /// Answer with this text.
    Finished(String),
}

/// What comes next.
#[verifier::ext_equal]
pub enum StepModel<T> {
    Refused(Seq<char>),
    Poll(PollModel<T>),
    Finished(Seq<char>),
}

impl<T> View for PrismStep<T> {
    type V = StepModel<T>;

    open spec fn view(&self) -> StepModel<T> {
        match self {
            PrismStep::Refused(answer) => StepModel::Refused(answer@),
            PrismStep::Poll(state) => StepModel::Poll(state@),
            PrismStep::Finished(t) => StepModel::Finished(t@),
        }
    }
}

/// What comes after the reply to a start: an error, the text if there is one,
/// or the asking if the reply says how to ask.
pub open spec fn step_of_start<T>(reply: PrismResponse<T>) -> StepModel<T> {
    match reply_error(reply) {
        Some(message) => StepModel::Refused(failure_answer(message)),
        None => if reply_text(reply).len() > 0 {
            StepModel::Finished(reply_text(reply))
        } else {
            match (reply.turn_state, prism::optional(reply.request_id)) {
                (Some(turn_state), Some(request_id)) => if request_id.len() > 0 {
                    StepModel::Poll(PollModel { request_id, turn_state, attempts: 0 })
                } else {
                    StepModel::Finished(Seq::empty())
                },
                _ => StepModel::Finished(Seq::empty()),
            }
        },
    }
}

/// The next time the completion is asked after, unless it has been often
/// enough.
pub open spec fn ask_again<T>(state: PollModel<T>, turn_state: T) -> StepModel<T> {
    if state.attempts + 1 >= MAX_POLLS {
        StepModel::Finished(Seq::empty())
    } else {
        StepModel::Poll(
            PollModel { request_id: state.request_id, turn_state, attempts: state.attempts + 1 },
        )
    }
}

/// What comes after a completion has been asked after.
pub open spec fn step_of_poll<T>(state: PollModel<T>, event: PollEvent<T>) -> StepModel<T> {
    match event {
        PollEvent::Unsendable => StepModel::Finished(Seq::empty()),
        PollEvent::Unusable => ask_again(state, state.turn_state),
        PollEvent::Reply(reply) => match reply_error(reply) {
            Some(message) => StepModel::Refused(failure_answer(message)),
            None => if reply_text(reply).len() > 0 {
                StepModel::Finished(reply_text(reply))
            } else if prism::optional(reply.status) == Some("completed"@) {
                StepModel::Finished(Seq::empty())
            } else {
                match reply.turn_state {
                    Some(turn_state) => ask_again(state, turn_state),
                    None => ask_again(state, state.turn_state),
                }
            },
        },
    }
}

/// Decides what comes after the reply to a start.
pub fn begin_poll<T>(reply: PrismResponse<T>) -> (r: PrismStep<T>)
    ensures
        r@ == step_of_start(reply),
        r matches PrismStep::Poll(state) ==> state.attempts == 0,
{
    if let Some(message) = error_message(&reply) {
        return PrismStep::Refused(failure_response(message.as_str()));
    }
    let said = completion_text(&reply);
    if !said.as_str().is_empty() {
        return PrismStep::Finished(said);
    }
    match (reply.turn_state, reply.request_id) {
        (Some(turn_state), Some(request_id)) => if request_id.as_str().is_empty() {
            PrismStep::Finished(String::new())
        } else {
            PrismStep::Poll(PollState { request_id, turn_state, attempts: 0 })
        },
        _ => PrismStep::Finished(String::new()),
    }
}

/// The next time the completion is asked after.
fn poll_again<T>(request_id: String, turn_state: T, attempts: u32) -> (r: PrismStep<T>)
    requires
        attempts < MAX_POLLS,
    ensures
        r@ == ask_again(
            (PollModel { request_id: request_id@, turn_state, attempts: attempts as nat }),
            turn_state,
        ),
        r matches PrismStep::Poll(next) ==> next.attempts < MAX_POLLS,
{
    if attempts + 1 >= MAX_POLLS {
        PrismStep::Finished(String::new())
    } else {
        PrismStep::Poll(PollState { request_id, turn_state, attempts: attempts + 1 })
    }
}

/// Decides what comes after a completion has been asked after.
pub fn advance_poll<T>(state: PollState<T>, event: PollEvent<T>) -> (r: PrismStep<T>)
    requires
        state.attempts < MAX_POLLS,
    ensures
        r@ == step_of_poll(state@, event),
        r matches PrismStep::Poll(next) ==> next.attempts < MAX_POLLS,
{
    match event {
        PollEvent::Unsendable => PrismStep::Finished(String::new()),
        PollEvent::Unusable => poll_again(state.request_id, state.turn_state, state.attempts),
        PollEvent::Reply(reply) => {
            if let Some(message) = error_message(&reply) {
                return PrismStep::Refused(failure_response(message.as_str()));
            }
            let said = completion_text(&reply);
            if !said.as_str().is_empty() {
                return PrismStep::Finished(said);
            }
            if is_text(&reply.status, "completed") {
                return PrismStep::Finished(String::new());
            }
            match reply.turn_state {
                Some(turn_state) => poll_again(state.request_id, turn_state, state.attempts),
                None => poll_again(state.request_id, state.turn_state, state.attempts),
            }
        },
    }
}

// ---------------------------------------------------------------------------
// Laws
// ---------------------------------------------------------------------------

/// Each asking is counted and keeps what is asked after, so that there are no
/// more than the limit.
pub proof fn polling_goes_forward<T>(state: PollModel<T>, event: PollEvent<T>)
    requires
        state.attempts < MAX_POLLS,
    ensures
        step_of_poll(state, event) matches StepModel::Poll(next) ==> next.request_id
            == state.request_id && next.attempts == state.attempts + 1 && next.attempts
            < MAX_POLLS,
{
}

/// A reply with a failure is answered with its message, however often the
/// completion has been asked after.
pub proof fn failures_are_answered<T>(state: PollModel<T>, reply: PrismResponse<T>)
    ensures
        reply_error(reply) matches Some(message) ==> step_of_start(reply) == StepModel::<
            T,
        >::Refused(failure_answer(message)) && step_of_poll(state, PollEvent::Reply(reply))
            == StepModel::<T>::Refused(failure_answer(message)),
{
}

/// A text is never lost: a reply that has one and no failure ends the asking
/// with it.
pub proof fn texts_are_answered<T>(state: PollModel<T>, reply: PrismResponse<T>)
    requires
        reply_error(reply) is None,
        reply_text(reply).len() > 0,
    ensures
        step_of_start(reply) == StepModel::<T>::Finished(reply_text(reply)),
        step_of_poll(state, PollEvent::Reply(reply)) == StepModel::<T>::Finished(
            reply_text(reply),
        ),
{
}

} // verus!
