//! A proxy without routes: every request goes upstream, but for the one that
//! asks whether the gateway is up.
use crate::http;
use crate::http::{header, header_value, render_head};
use crate::numbers;
use crate::omniroute;
use crate::omniroute::{candidate_models, is_retryable, EXHAUSTED};
use crate::relay;
use crate::relay::{error_response, render_status_line};
use crate::text;
use vstd::arithmetic::power2::*;
use vstd::prelude::*;

verus! {

broadcast use vstd::string::group_string_axioms;

/// What an error says when the last attempt has failed.
pub const UNAVAILABLE: &'static str = "toolcase-gateway: upstream unavailable";

// ---------------------------------------------------------------------------
// The greeting
// ---------------------------------------------------------------------------

/// A request that asks whether the gateway is up.
pub open spec fn greeting(method: Seq<char>, path: Seq<char>) -> bool {
    text::eq_ignore_case(method, "HEAD"@) && path == "/api/hello"@
}

/// The headers of the answer to a greeting.
pub open spec fn hello_fields() -> Seq<(Seq<char>, Seq<char>)> {
    seq![
        ("Content-Length"@, "0"@),
        ("X-Content-Type-Options"@, "nosniff"@),
        ("Connection"@, "close"@),
    ]
}

/// Whether a request asks whether the gateway is up.
pub fn is_greeting(method: &str, path: &str) -> (r: bool)
    ensures
        r == greeting(method@, path@),
{
    text::text_eq_ignore_case(method, "HEAD") && text::same_text(path, "/api/hello")
}

/// The answer to a greeting.
pub open spec fn hello_answer() -> Seq<char> {
    http::rendered_head(relay::status_line(200, "OK"@), hello_fields())
}

/// Writes the answer to a greeting.
pub fn hello_response() -> (r: String)
    ensures
        r@ == http::rendered_head(relay::status_line(200, "OK"@), hello_fields()),
        r@ == hello_answer(),
{
    let mut headers: Vec<(String, String)> = Vec::new();
    headers.push(header("Content-Length", "0"));
    headers.push(header("X-Content-Type-Options", "nosniff"));
    headers.push(header("Connection", "close"));
    assert(http::fields(headers@) =~= hello_fields());
    let line = render_status_line(200, "OK");
    render_head(line.as_str(), &headers)
}

// ---------------------------------------------------------------------------
// Candidates
// ---------------------------------------------------------------------------

/// Lists the models to try, in order.
pub fn request_candidates(body: &[u8], fallbacks: &[String], rotation: usize) -> (r: Vec<String>)
    ensures
        text::views(r@) == omniroute::candidates_of(
            body@,
            text::views(fallbacks@),
            rotation as nat,
        ),
        r@.len() > 0,
{
    candidate_models(body, fallbacks, rotation)
}

// ---------------------------------------------------------------------------
// Delays
// ---------------------------------------------------------------------------

/// The number of seconds that a `Retry-After` header asks for.
pub open spec fn retry_after(headers: Seq<(Seq<char>, Seq<char>)>) -> Option<nat> {
    match http::first_value(headers, "retry-after"@) {
        Some(value) => numbers::parse_unsigned(value, 10, u64::MAX as nat),
        None => None,
    }
}

/// How often the base delay is doubled before an attempt, of which the first
/// has the number one. Of the count, the low 32 bits matter.
pub open spec fn doublings(attempt: nat) -> nat {
    if attempt == 0 {
        0
    } else {
        (attempt - 1) as nat % 0x1_0000_0000
    }
}

/// The delay of an attempt can be computed.
pub open spec fn delay_fits(attempt: nat, base: u64) -> bool {
    doublings(attempt) < 64 && base as nat * pow2(doublings(attempt)) <= u64::MAX
}

/// How many milliseconds to wait before the next attempt: as long as the
/// upstream asks for, or else twice as long each time up to `max`.
pub open spec fn retry_delay(attempt: nat, base: u64, max: u64, asked: Option<nat>) -> nat {
    match asked {
        Some(seconds) => seconds * 1000,
        None => omniroute::lesser(base as nat * pow2(doublings(attempt)), max as nat),
    }
}

/// Reads the number of seconds that a `Retry-After` header asks for.
pub fn parse_retry_after(headers: &[(String, String)]) -> (r: Option<u64>)
    ensures
        match r {
            Some(seconds) => retry_after(http::fields(headers@)) == Some(seconds as nat),
            None => retry_after(http::fields(headers@)) is None,
        },
{
    match header_value(headers, "retry-after") {
        Some(value) => numbers::parse_u64(value),
        None => None,
    }
}

/// Tells how many milliseconds to wait before the next attempt.
pub fn calculate_retry_delay(
    attempt: usize,
    base_delay_ms: u64,
    max_delay_ms: u64,
    retry_after: Option<u64>,
) -> (r: u128)
    requires
        retry_after is None ==> delay_fits(attempt as nat, base_delay_ms),
    ensures
        r == retry_delay(
            attempt as nat,
            base_delay_ms,
            max_delay_ms,
            match retry_after {
                Some(seconds) => Some(seconds as nat),
                None => None,
            },
        ),
{
    match retry_after {
        Some(seconds) => seconds as u128 * 1000,
        None => {
            let times: u64 = if attempt == 0 {
                0
            } else {
                (attempt - 1) as u64 % 0x1_0000_0000
            };
            let power = omniroute::power_of_two(times);
            let exponential: u64 = base_delay_ms * power;
            if exponential < max_delay_ms {
                exponential as u128
            } else {
                max_delay_ms as u128
            }
        },
    }
}

// ---------------------------------------------------------------------------
// Decisions
// ---------------------------------------------------------------------------

/// The reason phrase of a status, or another one where it has none here.
pub open spec fn reason_of(status: u16, otherwise: Seq<char>) -> Seq<char> {
    if status == 503 {
        "Service Unavailable"@
    } else if status == 502 {
        "Bad Gateway"@
    } else if status == 500 {
        "Internal Server Error"@
    } else if status == 504 {
        "Gateway Timeout"@
    } else {
        otherwise
    }
}

/// Gives the reason phrase of a status.
pub fn reason_phrase(status: u16, otherwise: &str) -> (r: String)
    ensures
        r@ == reason_of(status, otherwise@),
{
    if status == 503 {
        "Service Unavailable".to_owned()
    } else if status == 502 {
        "Bad Gateway".to_owned()
    } else if status == 500 {
        "Internal Server Error".to_owned()
    } else if status == 504 {
        "Gateway Timeout".to_owned()
    } else {
        otherwise.to_owned()
    }
}

/// How far the attempts at a request have come.
#[derive(Clone, Copy, Debug, PartialEq, Eq, Structural)]
pub struct ServeState {
    /// The number of candidates.
    pub total: usize,
    /// The candidate that is being tried.
    pub index: usize,
    /// The last status on which the next candidate was tried.
    pub last_status: Option<u16>,
    /// There are fallbacks, so a failure is not passed on.
    pub failover: bool,
    /// A response has been chosen for the client, and no other will be.
    pub settled: bool,
    pub base_delay_ms: u64,
    pub max_delay_ms: u64,
}

impl ServeState {
    /// The candidate that is being tried is one of the candidates.
    pub open spec fn wf(self) -> bool {
        self.index < self.total
    }

    /// The candidate that is being tried is the last one.
    pub open spec fn last(self) -> bool {
        self.index + 1 == self.total
    }
}

/// What to do next.
pub enum ServeAction {
    /// Wait, and try the next candidate.
    TryNext { delay_ms: u128 },
    /// Pass the response on, and tell whether it went through.
    Relay,
    /// Write this error, and tell whether it went through.
    Answer(String),
    /// End, with success if the client has got its response whole and with an
    /// error otherwise.
    End { complete: bool },
}

/// What to do next.
#[verifier::ext_equal]
pub enum ServeActionModel {
    TryNext { delay_ms: nat },
    Relay,
    Answer(Seq<char>),
    End { complete: bool },
}

impl View for ServeAction {
    type V = ServeActionModel;

    open spec fn view(&self) -> ServeActionModel {
        match self {
            ServeAction::TryNext { delay_ms } => ServeActionModel::TryNext {
                delay_ms: *delay_ms as nat,
            },
            ServeAction::Relay => ServeActionModel::Relay,
            ServeAction::Answer(t) => ServeActionModel::Answer(t@),
            ServeAction::End { complete } => ServeActionModel::End { complete: *complete },
        }
    }
}

/// The next candidate, after a delay.
pub open spec fn serve_next(state: ServeState, asked: Option<nat>) -> (
    ServeState,
    ServeActionModel,
) {
    (
        ServeState { index: (state.index + 1) as usize, ..state },
        ServeActionModel::TryNext {
            delay_ms: retry_delay(
                (state.index + 1) as nat,
                state.base_delay_ms,
                state.max_delay_ms,
                asked,
            ),
        },
    )
}

/// What comes next when the upstream has answered.
pub open spec fn serve_answered(
    state: ServeState,
    status: u16,
    headers: Seq<(Seq<char>, Seq<char>)>,
) -> (ServeState, ServeActionModel) {
    let seen = ServeState { last_status: Some(status), ..state };
    if state.settled {
        (state, ServeActionModel::End { complete: false })
    } else if !omniroute::retryable(status) || !state.failover {
        (ServeState { settled: true, ..state }, ServeActionModel::Relay)
    } else if state.last() {
        (
            ServeState { settled: true, ..seen },
            ServeActionModel::Answer(
                relay::error_answer(
                    status,
                    reason_of(status, "Service Unavailable"@),
                    EXHAUSTED@,
                ),
            ),
        )
    } else {
        serve_next(seen, retry_after(headers))
    }
}

/// What comes next when an attempt has failed.
pub open spec fn serve_failed(state: ServeState) -> (ServeState, ServeActionModel) {
    if state.settled {
        (state, ServeActionModel::End { complete: false })
    } else if state.last() {
        let status = match state.last_status {
            Some(status) => status,
            None => 502,
        };
        (
            ServeState { settled: true, ..state },
            ServeActionModel::Answer(
                relay::error_answer(status, reason_of(status, "Bad Gateway"@), UNAVAILABLE@),
            ),
        )
    } else {
        serve_next(state, None)
    }
}

/// What comes next when a response has gone to the client, whole or in part:
/// the request ends, in an error if the response broke off.
pub open spec fn serve_sent(state: ServeState, complete: bool) -> (ServeState, ServeActionModel) {
    (state, ServeActionModel::End { complete })
}

/// The attempts at a request before the first one.
pub open spec fn serve_start(
    total: usize,
    failover: bool,
    base_delay_ms: u64,
    max_delay_ms: u64,
) -> ServeState {
    ServeState {
        total,
        index: 0,
        last_status: None,
        failover,
        settled: false,
        base_delay_ms,
        max_delay_ms,
    }
}

/// Begins the attempts at a request.
pub fn start_serve(
    total: usize,
    failover: bool,
    base_delay_ms: u64,
    max_delay_ms: u64,
) -> (r: ServeState)
    requires
        total > 0,
    ensures
        r == serve_start(total, failover, base_delay_ms, max_delay_ms),
        r.wf(),
{
    ServeState {
        total,
        index: 0,
        last_status: None,
        failover,
        settled: false,
        base_delay_ms,
        max_delay_ms,
    }
}

/// The models to try for a request, and how far the attempts have come.
pub struct ServePlan {
    pub candidates: Vec<String>,
    pub state: ServeState,
}

/// Begins the attempts at a request with this body: there is failover exactly
/// if there are fallbacks.
pub fn plan_serve(
    body: &[u8],
    fallbacks: &[String],
    rotation: usize,
    base_delay_ms: u64,
    max_delay_ms: u64,
) -> (r: ServePlan)
    ensures
        text::views(r.candidates@) == omniroute::candidates_of(
            body@,
            text::views(fallbacks@),
            rotation as nat,
        ),
        r.state == serve_start(
            r.candidates.len(),
            fallbacks@.len() > 0,
            base_delay_ms,
            max_delay_ms,
        ),
        r.state.wf(),
{
    let candidates = request_candidates(body, fallbacks, rotation);
    let state = start_serve(candidates.len(), fallbacks.len() > 0, base_delay_ms, max_delay_ms);
    ServePlan { candidates, state }
}

/// Decides what comes next when the upstream has answered.
pub fn serve_head(state: ServeState, status: u16, headers: &[(String, String)]) -> (r: (
    ServeState,
    ServeAction,
))
    requires
        state.wf(),
        !state.settled && state.failover && omniroute::retryable(status) && !state.last()
            && retry_after(http::fields(headers@)) is None ==> delay_fits((state.index + 1) as nat, state.base_delay_ms),
    ensures
        (r.0, r.1@) == serve_answered(state, status, http::fields(headers@)),
        r.0.wf(),
{
    let seen = ServeState { last_status: Some(status), ..state };
    if state.settled {
        (state, ServeAction::End { complete: false })
    } else if !is_retryable(status) || !state.failover {
        (ServeState { settled: true, ..state }, ServeAction::Relay)
    } else if state.index + 1 == state.total {
        let reason = reason_phrase(status, "Service Unavailable");
        (
            ServeState { settled: true, ..seen },
            ServeAction::Answer(error_response(status, reason.as_str(), EXHAUSTED)),
        )
    } else {
        let asked = parse_retry_after(headers);
        let delay_ms = calculate_retry_delay(
            state.index + 1,
            state.base_delay_ms,
            state.max_delay_ms,
            asked,
        );
        (ServeState { index: state.index + 1, ..seen }, ServeAction::TryNext { delay_ms })
    }
}

/// Decides what comes next when an attempt has failed.
pub fn serve_failure(state: ServeState) -> (r: (ServeState, ServeAction))
    requires
        state.wf(),
        !state.settled && !state.last() ==> delay_fits(
            (state.index + 1) as nat,
            state.base_delay_ms,
        ),
    ensures
        (r.0, r.1@) == serve_failed(state),
        r.0.wf(),
{
    if state.settled {
        (state, ServeAction::End { complete: false })
    } else if state.index + 1 == state.total {
        let status: u16 = match state.last_status {
            Some(status) => status,
            None => 502,
        };
        let reason = reason_phrase(status, "Bad Gateway");
        (
            ServeState { settled: true, ..state },
            ServeAction::Answer(error_response(status, reason.as_str(), UNAVAILABLE)),
        )
    } else {
        let delay_ms = calculate_retry_delay(
            state.index + 1,
            state.base_delay_ms,
            state.max_delay_ms,
            None,
        );
        (ServeState { index: state.index + 1, ..state }, ServeAction::TryNext { delay_ms })
    }
}

/// Decides what comes next when a response has gone to the client, whole or in
/// part: the request ends, in an error if the response broke off.
pub fn serve_relayed(state: ServeState, complete: bool) -> (r: (ServeState, ServeAction))
    requires
        state.wf(),
    ensures
        (r.0, r.1@) == serve_sent(state, complete),
        r.0.wf(),
{
    (state, ServeAction::End { complete })
}

// ---------------------------------------------------------------------------
// Laws
// ---------------------------------------------------------------------------

/// Before any byte goes to the client, a candidate has been chosen by the head
/// of its response, or the last one has been tried: as long as another is
/// tried nothing has been sent. Once a response is chosen, no event leads to
/// another candidate or another response, and one that breaks off ends the
/// request in an error.
pub proof fn a_chosen_response_is_the_only_one(
    state: ServeState,
    status: u16,
    headers: Seq<(Seq<char>, Seq<char>)>,
    complete: bool,
)
    ensures
        ({
            let (after_head, head_action) = serve_answered(state, status, headers);
            let (after_failure, failure_action) = serve_failed(state);
            &&& (head_action is Relay || head_action is Answer) ==> !state.settled
                && after_head.settled
            &&& failure_action is Answer ==> !state.settled && after_failure.settled
            &&& !(failure_action is Relay)
            &&& head_action is TryNext ==> !state.settled && !after_head.settled
            &&& failure_action is TryNext ==> !state.settled && !after_failure.settled
            &&& state.settled ==> head_action == (ServeActionModel::End { complete: false })
                && failure_action == (ServeActionModel::End { complete: false })
            &&& serve_sent(state, complete) == (state, ServeActionModel::End { complete })
        }),
{
}

/// A step goes to the next candidate, or ends: no candidate is tried twice and
/// none is left out.
pub proof fn attempts_go_forward(
    state: ServeState,
    status: u16,
    headers: Seq<(Seq<char>, Seq<char>)>,
)
    requires
        state.wf(),
    ensures
        serve_answered(state, status, headers).1 is TryNext ==> serve_answered(
            state,
            status,
            headers,
        ).0.index == state.index + 1 < state.total,
        serve_failed(state).1 is TryNext ==> serve_failed(state).0.index == state.index + 1
            < state.total,
{
}

/// With fallbacks, a response is passed on exactly if its status does not ask
/// for the next candidate; without, every response is.
pub proof fn only_good_responses_are_relayed(
    state: ServeState,
    status: u16,
    headers: Seq<(Seq<char>, Seq<char>)>,
)
    ensures
        !state.settled ==> (serve_answered(state, status, headers).1 is Relay <==> !state.failover
            || !omniroute::retryable(status)),
{
}

} // verus!
