//! The passing on of a request to the upstream, model by model.
use crate::bytes;
use crate::http;
use crate::http::{header, header_value, is_hop_by_hop, push_text, render_head};
use crate::numbers;
use crate::reader;
use crate::reader::Request;
use crate::relay;
use crate::relay::error_response;
use crate::rewrite;
use crate::rewrite::{json_string_value, replace_model};
use crate::text;
use vstd::arithmetic::power2::*;
use vstd::prelude::*;
use vstd::utf8::*;

verus! {

broadcast use vstd::string::group_string_axioms;

/// The statuses on which the next model is tried.
pub const RETRYABLE: [u16; 9] = [402, 403, 408, 429, 500, 502, 503, 504, 524];

/// The next model is tried on this status.
pub open spec fn retryable(status: u16) -> bool {
    RETRYABLE@.contains(status)
}

/// Whether the next model is tried on a status.
pub fn is_retryable(status: u16) -> (r: bool)
    ensures
        r == retryable(status),
{
    let mut i: usize = 0;
    while i < 9
        invariant
            i <= 9,
            forall|j: int| 0 <= j < i ==> RETRYABLE@[j] != status,
        decreases 9 - i,
    {
        if RETRYABLE[i] == status {
            assert(RETRYABLE@[i as int] == status);
            return true;
        }
        i += 1;
    }
    false
}

// ---------------------------------------------------------------------------
// Delays
// ---------------------------------------------------------------------------

/// The number of seconds that a `Retry-After` header asks for.
pub open spec fn retry_after(headers: Seq<(Seq<char>, Seq<char>)>) -> Option<nat> {
    match http::first_value(headers, "retry-after"@) {
        Some(value) => numbers::parse_unsigned(text::trim(value), 10, u64::MAX as nat),
        None => None,
    }
}

/// The lesser of two numbers.
pub open spec fn lesser(a: nat, b: nat) -> nat {
    if a < b {
        a
    } else {
        b
    }
}

/// How many base delays an attempt waits: twice as many as the attempt before.
/// Of the attempt's number, the low 32 bits count.
pub open spec fn multiplier(attempt: nat) -> nat {
    let shift = attempt % 0x1_0000_0000;
    if shift < 64 {
        pow2(shift)
    } else {
        u64::MAX as nat
    }
}

/// How many milliseconds to wait before the next attempt: what the upstream
/// asks for, or else twice as long each time, but never longer than `max`.
pub open spec fn retry_delay(
    attempt: nat,
    base: u64,
    max: u64,
    headers: Option<Seq<(Seq<char>, Seq<char>)>>,
) -> nat {
    let asked = match headers {
        Some(headers) => retry_after(headers),
        None => None,
    };
    match asked {
        Some(seconds) => lesser(seconds * 1000, max as nat),
        None => lesser(base as nat * multiplier(attempt), max as nat),
    }
}

/// Reads the number of seconds that a `Retry-After` header asks for.
pub fn parse_retry_after(headers: &[(String, String)]) -> (r: Option<u64>)
    ensures
        match r {
            Some(seconds) => retry_after(http::fields(headers@)) == Some(seconds as nat),
            None => retry_after(http::fields(headers@)) is None,
        },
{
    match header_value(headers, "retry-after") {
        Some(value) => {
            let kept = text::trim_text(value);
            numbers::parse_u64(kept.as_str())
        },
        None => None,
    }
}

/// Two to the power of `shift`.
pub fn power_of_two(shift: u64) -> (r: u64)
    requires
        shift < 64,
    ensures
        r == pow2(shift as nat),
{
    let mut power: u64 = 1;
    let mut k: u64 = 0;
    proof {
        lemma2_to64();
    }
    while k < shift
        invariant
            k <= shift < 64,
            power == pow2(k as nat),
        decreases shift - k,
    {
        proof {
            lemma_pow2_unfold((k + 1) as nat);
            lemma2_to64_rest();
            if k + 1 < 63 {
                lemma_pow2_strictly_increases((k + 1) as nat, 63);
            }
        }
        power = power * 2;
        k += 1;
    }
    power
}

/// The milliseconds that an attempt waits when the upstream asks for nothing.
fn backoff(attempt: usize, base_delay_ms: u64, max_delay_ms: u64) -> (r: u64)
    ensures
        r == retry_delay(attempt as nat, base_delay_ms, max_delay_ms, None),
{
    let shift: u64 = attempt as u64 % 0x1_0000_0000;
    let times: u64 = if shift < 64 {
        power_of_two(shift)
    } else {
        u64::MAX
    };
    match base_delay_ms.checked_mul(times) {
        Some(computed) => if computed < max_delay_ms {
            computed
        } else {
            max_delay_ms
        },
        None => max_delay_ms,
    }
}

/// Tells how many milliseconds to wait before the next attempt.
pub fn calculate_retry_delay(
    attempt: usize,
    base_delay_ms: u64,
    max_delay_ms: u64,
    headers: Option<&[(String, String)]>,
) -> (r: u64)
    ensures
        r == retry_delay(
            attempt as nat,
            base_delay_ms,
            max_delay_ms,
            match headers {
                Some(headers) => Some(http::fields(headers@)),
                None => None,
            },
        ),
{
    if let Some(headers) = headers {
        if let Some(seconds) = parse_retry_after(headers) {
            return match seconds.checked_mul(1000) {
                Some(asked) => if asked < max_delay_ms {
                    asked
                } else {
                    max_delay_ms
                },
                None => max_delay_ms,
            };
        }
    }
    backoff(attempt, base_delay_ms, max_delay_ms)
}

// ---------------------------------------------------------------------------
// Candidates
// ---------------------------------------------------------------------------

/// The model that a request body names.
pub open spec fn requested_model(body: Seq<u8>) -> Option<Seq<char>> {
    if valid_utf8(body) {
        rewrite::string_value(decode_utf8(body), "model"@)
    } else {
        None
    }
}

/// The fallbacks, beginning with another one each time.
pub open spec fn rotated(fallbacks: Seq<Seq<char>>, rotation: nat) -> Seq<Seq<char>> {
    Seq::new(
        fallbacks.len(),
        |i: int| fallbacks[(rotation % fallbacks.len() + i) % fallbacks.len() as int],
    )
}

/// The list with those of `more` behind it that it does not hold yet.
pub open spec fn with_new(list: Seq<Seq<char>>, more: Seq<Seq<char>>) -> Seq<Seq<char>>
    decreases more.len(),
{
    if more.len() == 0 {
        list
    } else {
        let front = with_new(list, more.drop_last());
        if front.contains(more.last()) {
            front
        } else {
            front.push(more.last())
        }
    }
}

/// The models to try, in order: the one that the body names, then each
/// fallback, none of them twice; the empty name if there is none at all.
pub open spec fn candidates_of(
    body: Seq<u8>,
    fallbacks: Seq<Seq<char>>,
    rotation: nat,
) -> Seq<Seq<char>> {
    let first = match requested_model(body) {
        Some(model) => seq![model],
        None => Seq::empty(),
    };
    let all = with_new(first, rotated(fallbacks, rotation));
    if all.len() == 0 {
        seq![Seq::empty()]
    } else {
        all
    }
}

/// Whether a list holds a text.
fn holds(list: &[String], value: &str) -> (r: bool)
    ensures
        r == text::views(list@).contains(value@),
{
    let ghost all = text::views(list@);
    let mut i: usize = 0;
    while i < list.len()
        invariant
            i <= list@.len(),
            all == text::views(list@),
            forall|j: int| 0 <= j < i ==> all[j] != value@,
        decreases list@.len() - i,
    {
        if text::same_text(list[i].as_str(), value) {
            assert(all[i as int] == value@);
            return true;
        }
        i += 1;
    }
    false
}

/// Lists the models to try, in order.
pub fn candidate_models(body: &[u8], fallbacks: &[String], rotation: usize) -> (r: Vec<String>)
    ensures
        text::views(r@) == candidates_of(body@, text::views(fallbacks@), rotation as nat),
        r@.len() > 0,
{
    let ghost names = text::views(fallbacks@);
    let mut candidates: Vec<String> = Vec::new();
    if let Some(t) = text::utf8_text(body) {
        if let Some(model) = json_string_value(t, "model") {
            candidates.push(model);
        }
    }
    let ghost first = match requested_model(body@) {
        Some(model) => seq![model],
        None => Seq::empty(),
    };
    assert(text::views(candidates@) =~= first);
    let total: usize = fallbacks.len();
    let ghost order = rotated(names, rotation as nat);
    assert(order.take(0) =~= Seq::<Seq<char>>::empty());
    if total > 0 {
        let offset: usize = rotation % total;
        let mut step: usize = 0;
        while step < total
            invariant
                step <= total,
                total == fallbacks@.len(),
                total > 0,
                offset == rotation as nat % total as nat,
                offset < total,
                names == text::views(fallbacks@),
                order == rotated(names, rotation as nat),
                text::views(candidates@) == with_new(first, order.take(step as int)),
            decreases total - step,
        {
            let index: usize = if step < total - offset {
                offset + step
            } else {
                step - (total - offset)
            };
            proof {
                if step < total - offset {
                    vstd::arithmetic::div_mod::lemma_small_mod((offset + step) as nat, total as nat);
                } else {
                    vstd::arithmetic::div_mod::lemma_small_mod(index as nat, total as nat);
                    vstd::arithmetic::div_mod::lemma_mod_add_multiples_vanish(
                        index as int,
                        total as int,
                    );
                }
                assert(order[step as int] == fallbacks@[index as int]@);
                assert(order.take(step + 1).drop_last() =~= order.take(step as int));
                assert(order.take(step + 1).last() == order[step as int]);
            }
            let ghost before = text::views(candidates@);
            if !holds(&candidates, fallbacks[index].as_str()) {
                candidates.push(fallbacks[index].clone());
                assert(text::views(candidates@) =~= before.push(order[step as int]));
            }
            step += 1;
        }
        assert(order.take(total as int) =~= order);
    } else {
        assert(order =~= order.take(0));
    }
    if candidates.len() == 0 {
        candidates.push(String::new());
        assert(text::views(candidates@) =~= seq![Seq::<char>::empty()]);
    }
    candidates
}

// ---------------------------------------------------------------------------
// The request as it is passed on
// ---------------------------------------------------------------------------

/// A header of a request that is passed on: not one that concerns the client's
/// connection, nor one that the gateway writes itself.
pub open spec fn keeps_in_request(name: Seq<char>) -> bool {
    &&& !text::eq_ignore_case(name, "host"@)
    &&& !text::eq_ignore_case(name, "content-length"@)
    &&& !text::eq_ignore_case(name, "accept-encoding"@)
    &&& !http::hop_by_hop(name)
}

/// The host and port that a request is passed on to.
pub open spec fn authority(host: Seq<char>, port: u16) -> Seq<char> {
    host + seq![':'] + numbers::decimal(port as nat)
}

/// The headers that the gateway writes.
pub open spec fn own_fields(
    host: Seq<char>,
    port: u16,
    client_ip: Seq<char>,
    length: nat,
) -> Seq<(Seq<char>, Seq<char>)> {
    seq![
        ("Host"@, authority(host, port)),
        ("Accept-Encoding"@, "identity"@),
        ("X-Forwarded-For"@, client_ip),
        ("X-Real-Ip"@, client_ip),
        ("X-Forwarded-Proto"@, "http"@),
        ("Content-Length"@, numbers::decimal(length)),
        ("Connection"@, "close"@),
    ]
}

/// The headers of a request as it is passed on.
pub open spec fn forwarded_fields(
    headers: Seq<(Seq<char>, Seq<char>)>,
    host: Seq<char>,
    port: u16,
    client_ip: Seq<char>,
    length: nat,
) -> Seq<(Seq<char>, Seq<char>)> {
    relay::kept(headers, |name: Seq<char>| keeps_in_request(name)) + own_fields(
        host,
        port,
        client_ip,
        length,
    )
}

/// A request line.
pub open spec fn request_line(method: Seq<char>, path: Seq<char>) -> Seq<char> {
    method + seq![' '] + path + " HTTP/1.1"@
}

/// The head of a request as it is passed on.
pub open spec fn forwarded_head(
    request: reader::RequestModel,
    host: Seq<char>,
    port: u16,
    client_ip: Seq<char>,
    model: Seq<char>,
) -> Seq<char> {
    http::rendered_head(
        request_line(request.method, request.path),
        forwarded_fields(
            request.headers,
            host,
            port,
            client_ip,
            rewrite::replaced_model(request.body, model).len(),
        ),
    )
}

/// The bytes of a request as it is passed on with a model.
pub open spec fn forwarded_request(
    request: reader::RequestModel,
    host: Seq<char>,
    port: u16,
    client_ip: Seq<char>,
    model: Seq<char>,
) -> Seq<u8> {
    encode_utf8(forwarded_head(request, host, port, client_ip, model)) + rewrite::replaced_model(
        request.body,
        model,
    )
}

/// Whether a header of a request is passed on.
fn kept_in_request(name: &str) -> (r: bool)
    ensures
        r == keeps_in_request(name@),
{
    !text::text_eq_ignore_case(name, "host") && !text::text_eq_ignore_case(name, "content-length")
        && !text::text_eq_ignore_case(name, "accept-encoding") && !is_hop_by_hop(name)
}

/// The headers of a request that are passed on.
fn keep_headers(headers: &[(String, String)]) -> (r: Vec<(String, String)>)
    ensures
        http::fields(r@) == relay::kept(
            http::fields(headers@),
            |name: Seq<char>| keeps_in_request(name),
        ),
{
    let ghost all = http::fields(headers@);
    let ghost keep = |name: Seq<char>| keeps_in_request(name);
    let mut out: Vec<(String, String)> = Vec::new();
    let mut i: usize = 0;
    assert(http::fields(out@) =~= relay::kept(all.take(0), keep));
    while i < headers.len()
        invariant
            i <= headers@.len(),
            all == http::fields(headers@),
            keep == (|name: Seq<char>| keeps_in_request(name)),
            http::fields(out@) == relay::kept(all.take(i as int), keep),
        decreases headers@.len() - i,
    {
        let ghost before = http::fields(out@);
        let ghost field = (headers@[i as int].0@, headers@[i as int].1@);
        assert(all.take(i + 1).drop_last() =~= all.take(i as int));
        assert(all.take(i + 1).last() == field);
        if kept_in_request(headers[i].0.as_str()) {
            out.push(header(headers[i].0.as_str(), headers[i].1.as_str()));
            assert(http::fields(out@) =~= before.push(field));
        }
        i += 1;
    }
    assert(all.take(i as int) =~= all);
    out
}

/// Writes a request as it is passed on with a model.
pub fn upstream_request(
    request: &Request,
    host: &str,
    port: u16,
    client_ip: &str,
    model: &str,
) -> (r: Vec<u8>)
    ensures
        r@ == forwarded_request(request@, host@, port, client_ip@, model@),
{
    let body = replace_model(request.body.as_slice(), model);
    let mut target = host.to_owned();
    target.push(':');
    numbers::push_number(&mut target, port as u64, 10);
    assert(target@ =~= authority(host@, port));
    let length = numbers::decimal_text(body.len() as u64);
    let mut headers = keep_headers(&request.headers);
    let ghost front = http::fields(headers@);
    headers.push(header("Host", target.as_str()));
    headers.push(header("Accept-Encoding", "identity"));
    headers.push(header("X-Forwarded-For", client_ip));
    headers.push(header("X-Real-Ip", client_ip));
    headers.push(header("X-Forwarded-Proto", "http"));
    headers.push(header("Content-Length", length.as_str()));
    headers.push(header("Connection", "close"));
    assert(http::fields(headers@) =~= front + own_fields(
        host@,
        port,
        client_ip@,
        body@.len(),
    ));
    let mut line = request.method.clone();
    line.push(' ');
    push_text(&mut line, request.path.as_str());
    push_text(&mut line, " HTTP/1.1");
    assert(line@ =~= request_line(request@.method, request@.path));
    let head = render_head(line.as_str(), &headers);
    let mut out: Vec<u8> = Vec::new();
    bytes::push_text(&mut out, head.as_str());
    bytes::push_bytes(&mut out, body.as_slice());
    assert(out@ =~= forwarded_request(request@, host@, port, client_ip@, model@));
    out
}

// ---------------------------------------------------------------------------
// Decisions
// ---------------------------------------------------------------------------

/// What an error says once every model has been tried.
pub const EXHAUSTED: &'static str = "toolcase-gateway: all upstream models exhausted";

/// The reason phrase of a status, or another one where it has none here.
pub open spec fn reason_of(status: Option<u16>, otherwise: Seq<char>) -> Seq<char> {
    match status {
        Some(408) => "Request Timeout"@,
        Some(429) => "Too Many Requests"@,
        Some(503) => "Service Unavailable"@,
        Some(502) => "Bad Gateway"@,
        Some(500) => "Internal Server Error"@,
        Some(504) => "Gateway Timeout"@,
        _ => otherwise,
    }
}

/// Gives the reason phrase of a status.
pub fn reason_phrase(status: Option<u16>, otherwise: &str) -> (r: String)
    ensures
        r@ == reason_of(status, otherwise@),
{
    match status {
        Some(408) => "Request Timeout".to_owned(),
        Some(429) => "Too Many Requests".to_owned(),
        Some(503) => "Service Unavailable".to_owned(),
        Some(502) => "Bad Gateway".to_owned(),
        Some(500) => "Internal Server Error".to_owned(),
        Some(504) => "Gateway Timeout".to_owned(),
        _ => otherwise.to_owned(),
    }
}

/// How far the attempts at a request have come.
#[derive(Clone, Copy, Debug, PartialEq, Eq, Structural)]
pub struct ProxyState {
    /// The number of candidates.
    pub total: usize,
    /// The candidate that is being tried.
    pub index: usize,
    /// The status of the last response.
    pub last_status: Option<u16>,
    /// There are fallbacks, so a failure is not passed on.
    pub failover: bool,
    pub base_delay_ms: u64,
    pub max_delay_ms: u64,
}

impl ProxyState {
    /// The candidate that is being tried is one of the candidates.
    pub open spec fn wf(self) -> bool {
        self.index < self.total
    }

    /// The candidate that is being tried is the last one.
    pub open spec fn last(self) -> bool {
        self.index + 1 == self.total
    }
}

/// What has happened to an attempt.
pub enum ProxyEvent<'a> {
    /// The upstream has answered with this status and these headers.
    Head { status: u16, headers: &'a [(String, String)] },
    /// The attempt has failed before the upstream has answered.
    Failed,
    /// The response has been passed on.
    Relayed,
    /// The error has been written.
    Answered,
    /// What was going to the client has broken off: a part of it may be with
    /// the client.
    BrokenOff,
}

/// What has happened to an attempt.
#[verifier::ext_equal]
pub enum ProxyEventModel {
    Head { status: u16, headers: Seq<(Seq<char>, Seq<char>)> },
    Failed,
    Relayed,
    Answered,
    BrokenOff,
}

impl<'a> View for ProxyEvent<'a> {
    type V = ProxyEventModel;

    open spec fn view(&self) -> ProxyEventModel {
        match self {
            ProxyEvent::Head { status, headers } => ProxyEventModel::Head {
                status: *status,
                headers: http::fields(headers@),
            },
            ProxyEvent::Failed => ProxyEventModel::Failed,
            ProxyEvent::Relayed => ProxyEventModel::Relayed,
            ProxyEvent::Answered => ProxyEventModel::Answered,
            ProxyEvent::BrokenOff => ProxyEventModel::BrokenOff,
        }
    }
}

/// What to do next.
pub enum ProxyAction {
    /// Wait, and try the next candidate.
    TryNext { delay_ms: u64 },
    /// Pass the response on.
    Relay,
    /// Write this error, and go on with what becomes of it.
    Answer(String),
    /// Write this error, and end.
    AnswerAndEnd(String),
    /// End.
    End,
}

/// What to do next.
#[verifier::ext_equal]
pub enum ProxyActionModel {
    TryNext { delay_ms: nat },
    Relay,
    Answer(Seq<char>),
    AnswerAndEnd(Seq<char>),
    End,
}

impl View for ProxyAction {
    type V = ProxyActionModel;

    open spec fn view(&self) -> ProxyActionModel {
        match self {
            ProxyAction::TryNext { delay_ms } => ProxyActionModel::TryNext {
                delay_ms: *delay_ms as nat,
            },
            ProxyAction::Relay => ProxyActionModel::Relay,
            ProxyAction::Answer(t) => ProxyActionModel::Answer(t@),
            ProxyAction::AnswerAndEnd(t) => ProxyActionModel::AnswerAndEnd(t@),
            ProxyAction::End => ProxyActionModel::End,
        }
    }
}

/// The attempts at a request before the first one.
pub open spec fn proxy_start(
    total: usize,
    failover: bool,
    base_delay_ms: u64,
    max_delay_ms: u64,
) -> ProxyState {
    ProxyState { total, index: 0, last_status: None, failover, base_delay_ms, max_delay_ms }
}

/// What comes next when an attempt has failed: the next candidate, or an error
/// behind the last one.
pub open spec fn proxy_failed(state: ProxyState) -> (ProxyState, ProxyActionModel) {
    if state.last() {
        (
            state,
            ProxyActionModel::AnswerAndEnd(
                relay::error_answer(
                    502,
                    reason_of(state.last_status, "Bad Gateway"@),
                    EXHAUSTED@,
                ),
            ),
        )
    } else {
        (
            ProxyState { index: (state.index + 1) as usize, ..state },
            ProxyActionModel::TryNext {
                delay_ms: retry_delay(
                    state.index as nat,
                    state.base_delay_ms,
                    state.max_delay_ms,
                    None,
                ),
            },
        )
    }
}

/// What comes next when the upstream has answered: a response is passed on
/// unless its status asks for the next candidate and there are fallbacks.
pub open spec fn proxy_answered(
    state: ProxyState,
    status: u16,
    headers: Seq<(Seq<char>, Seq<char>)>,
) -> (ProxyState, ProxyActionModel) {
    let seen = ProxyState { last_status: Some(status), ..state };
    if !retryable(status) || !state.failover {
        (seen, ProxyActionModel::Relay)
    } else if state.last() {
        (
            seen,
            ProxyActionModel::Answer(
                relay::error_answer(
                    status,
                    reason_of(Some(status), "Service Unavailable"@),
                    EXHAUSTED@,
                ),
            ),
        )
    } else {
        (
            ProxyState { index: (state.index + 1) as usize, ..seen },
            ProxyActionModel::TryNext {
                delay_ms: retry_delay(
                    state.index as nat,
                    state.base_delay_ms,
                    state.max_delay_ms,
                    Some(headers),
                ),
            },
        )
    }
}

/// The status that an error behind the last candidate has.
pub open spec fn closing_status(state: ProxyState) -> u16 {
    match state.last_status {
        Some(status) => status,
        None => 502,
    }
}

/// What comes next. An error that has been written is followed by a closing
/// one, and what breaks off on its way to the client is a failed attempt.
pub open spec fn proxy_step(state: ProxyState, event: ProxyEventModel) -> (
    ProxyState,
    ProxyActionModel,
) {
    match event {
        ProxyEventModel::Head { status, headers } => proxy_answered(state, status, headers),
        ProxyEventModel::Failed => proxy_failed(state),
        ProxyEventModel::Relayed => (state, ProxyActionModel::End),
        ProxyEventModel::Answered => (
            state,
            ProxyActionModel::AnswerAndEnd(
                relay::error_answer(
                    closing_status(state),
                    reason_of(state.last_status, "Bad Gateway"@),
                    EXHAUSTED@,
                ),
            ),
        ),
        ProxyEventModel::BrokenOff => proxy_failed(state),
    }
}

/// Begins the attempts at a request.
pub fn start_proxy(
    total: usize,
    failover: bool,
    base_delay_ms: u64,
    max_delay_ms: u64,
) -> (r: ProxyState)
    requires
        total > 0,
    ensures
        r == proxy_start(total, failover, base_delay_ms, max_delay_ms),
        r.wf(),
{
    ProxyState { total, index: 0, last_status: None, failover, base_delay_ms, max_delay_ms }
}

/// The models to try for a request, and how far the attempts have come.
pub struct ProxyPlan {
    pub candidates: Vec<String>,
    pub state: ProxyState,
}

/// Begins the attempts at a request with this body: there is failover exactly
/// if there are fallbacks.
pub fn plan_proxy(
    body: &[u8],
    fallbacks: &[String],
    rotation: usize,
    base_delay_ms: u64,
    max_delay_ms: u64,
) -> (r: ProxyPlan)
    ensures
        text::views(r.candidates@) == candidates_of(
            body@,
            text::views(fallbacks@),
            rotation as nat,
        ),
        r.state == proxy_start(
            r.candidates.len(),
            fallbacks@.len() > 0,
            base_delay_ms,
            max_delay_ms,
        ),
        r.state.wf(),
{
    let candidates = candidate_models(body, fallbacks, rotation);
    let state = start_proxy(
        candidates.len(),
        fallbacks.len() > 0,
        base_delay_ms,
        max_delay_ms,
    );
    ProxyPlan { candidates, state }
}

/// Decides what comes next when an attempt has failed.
fn fail_attempt(state: ProxyState) -> (r: (ProxyState, ProxyAction))
    requires
        state.wf(),
    ensures
        (r.0, r.1@) == proxy_failed(state),
        r.0.wf(),
{
    if state.index + 1 == state.total {
        let reason = reason_phrase(state.last_status, "Bad Gateway");
        (state, ProxyAction::AnswerAndEnd(error_response(502, reason.as_str(), EXHAUSTED)))
    } else {
        let delay_ms = calculate_retry_delay(
            state.index,
            state.base_delay_ms,
            state.max_delay_ms,
            None,
        );
        (ProxyState { index: state.index + 1, ..state }, ProxyAction::TryNext { delay_ms })
    }
}

/// Decides what comes next.
pub fn advance_proxy(state: ProxyState, event: &ProxyEvent<'_>) -> (r: (ProxyState, ProxyAction))
    requires
        state.wf(),
    ensures
        (r.0, r.1@) == proxy_step(state, event@),
        r.0.wf(),
{
    let last = state.index + 1 == state.total;
    match event {
        ProxyEvent::Head { status, headers } => {
            let status: u16 = *status;
            let seen = ProxyState { last_status: Some(status), ..state };
            if !is_retryable(status) || !state.failover {
                (seen, ProxyAction::Relay)
            } else if last {
                let reason = reason_phrase(Some(status), "Service Unavailable");
                (seen, ProxyAction::Answer(error_response(status, reason.as_str(), EXHAUSTED)))
            } else {
                let delay_ms = calculate_retry_delay(
                    state.index,
                    state.base_delay_ms,
                    state.max_delay_ms,
                    Some(*headers),
                );
                (
                    ProxyState { index: state.index + 1, ..seen },
                    ProxyAction::TryNext { delay_ms },
                )
            }
        },
        ProxyEvent::Relayed => (state, ProxyAction::End),
        ProxyEvent::Answered => {
            let reason = reason_phrase(state.last_status, "Bad Gateway");
            let status: u16 = match state.last_status {
                Some(status) => status,
                None => 502,
            };
            (state, ProxyAction::AnswerAndEnd(error_response(status, reason.as_str(), EXHAUSTED)))
        },
        ProxyEvent::Failed => fail_attempt(state),
        ProxyEvent::BrokenOff => fail_attempt(state),
    }
}

} // verus!
