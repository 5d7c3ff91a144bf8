//! What is done with each outcome of an attempt.
use crate::http;
use crate::laws_candidates;
use crate::numbers;
use crate::omniroute;
use crate::omniroute::{ProxyActionModel, ProxyEventModel, ProxyState};
use crate::relay;
use crate::routing;
use crate::routing::{ServeActionModel, ServeState};
use vstd::arithmetic::div_mod::*;
use vstd::arithmetic::power2::*;
use vstd::prelude::*;

verus! {

broadcast use vstd::string::group_string_axioms;

/// A response that the upstream gives is passed on, unless there are fallbacks
/// and its status is one of nine: then the next model is tried after a wait,
/// and behind the last model the client is told that there is none left. The
/// status is kept in mind, and nothing else is changed.
pub proof fn responses_decide(
    state: ProxyState,
    status: u16,
    headers: Seq<(Seq<char>, Seq<char>)>,
)
    requires
        state.wf(),
    ensures
        ({
            let bad = status == 402 || status == 403 || status == 408 || status == 429 || status
                == 500 || status == 502 || status == 503 || status == 504 || status == 524;
            let (next, action) = omniroute::proxy_step(
                state,
                ProxyEventModel::Head { status, headers },
            );
            &&& next.total == state.total && next.failover == state.failover
            &&& next.base_delay_ms == state.base_delay_ms && next.max_delay_ms
                == state.max_delay_ms
            &&& next.last_status == Some(status)
            &&& !state.failover || !bad ==> action == ProxyActionModel::Relay && next.index
                == state.index
            &&& state.failover && bad && state.index + 1 < state.total ==> next.index == state.index
                + 1 && action == (ProxyActionModel::TryNext {
                delay_ms: omniroute::retry_delay(
                    state.index as nat,
                    state.base_delay_ms,
                    state.max_delay_ms,
                    Some(headers),
                ),
            })
            &&& state.failover && bad && state.index + 1 == state.total ==> next.index
                == state.index && action == ProxyActionModel::Answer(
                relay::error_answer(
                    status,
                    omniroute::reason_of(Some(status), "Service Unavailable"@),
                    "toolcase-gateway: all upstream models exhausted"@,
                ),
            )
        }),
{
    laws_candidates::nine_statuses_are_retried(status);
}

/// An attempt without a response, or one that breaks off, leads to the next
/// model after a wait that doubles from model to model; behind the last one
/// the client is told that there is none left.
pub proof fn failures_lead_on(state: ProxyState)
    requires
        state.wf(),
        state.index < 64,
    ensures
        ({
            let (next, action) = omniroute::proxy_step(state, ProxyEventModel::Failed);
            &&& omniroute::proxy_step(state, ProxyEventModel::BrokenOff) == (next, action)
            &&& next.total == state.total && next.failover == state.failover
            &&& next.base_delay_ms == state.base_delay_ms && next.max_delay_ms
                == state.max_delay_ms
            &&& next.last_status == state.last_status
            &&& state.index + 1 < state.total ==> next.index == state.index + 1 && action == (
            ProxyActionModel::TryNext {
                delay_ms: if state.base_delay_ms * pow2(state.index as nat)
                    <= state.max_delay_ms {
                    (state.base_delay_ms * pow2(state.index as nat)) as nat
                } else {
                    state.max_delay_ms as nat
                },
            })
            &&& state.index + 1 == state.total ==> next.index == state.index && action
                == ProxyActionModel::AnswerAndEnd(
                relay::error_answer(
                    502,
                    omniroute::reason_of(state.last_status, "Bad Gateway"@),
                    "toolcase-gateway: all upstream models exhausted"@,
                ),
            )
        }),
{
    laws_candidates::waits_are_doubled(
        state.index as nat,
        state.base_delay_ms,
        state.max_delay_ms,
    );
}

/// A response that has gone through ends the request; an error that has been
/// written is followed by a closing one with the last status, or 502 where
/// there has been none.
pub proof fn answers_end_the_request(state: ProxyState, status: u16)
    ensures
        omniroute::proxy_step(state, ProxyEventModel::Relayed) == (state, ProxyActionModel::End),
        state.last_status == Some(status) ==> omniroute::proxy_step(
            state,
            ProxyEventModel::Answered,
        ) == (
            state,
            ProxyActionModel::AnswerAndEnd(
                relay::error_answer(
                    status,
                    omniroute::reason_of(Some(status), "Bad Gateway"@),
                    "toolcase-gateway: all upstream models exhausted"@,
                ),
            ),
        ),
        state.last_status is None ==> omniroute::proxy_step(state, ProxyEventModel::Answered) == (
            state,
            ProxyActionModel::AnswerAndEnd(
                relay::error_answer(
                    502,
                    "Bad Gateway"@,
                    "toolcase-gateway: all upstream models exhausted"@,
                ),
            ),
        ),
{
}

/// The attempts begin with the first candidate and no status.
pub proof fn attempts_begin_at_the_front(total: usize, failover: bool, base: u64, max: u64)
    ensures
        omniroute::proxy_start(total, failover, base, max) == (ProxyState {
            total,
            index: 0,
            last_status: None,
            failover,
            base_delay_ms: base,
            max_delay_ms: max,
        }),
        routing::serve_start(total, failover, base, max) == (ServeState {
            total,
            index: 0,
            last_status: None,
            failover,
            settled: false,
            base_delay_ms: base,
            max_delay_ms: max,
        }),
{
}

// ---------------------------------------------------------------------------
// Requests that are served
// ---------------------------------------------------------------------------

/// The wait before attempt number `n`, of which the first is 1: the base
/// doubled once for each attempt before, up to the most that is allowed. What
/// the upstream asks for goes before it, in seconds and without a limit.
pub proof fn served_waits(n: nat, base: u64, max: u64, seconds: nat)
    requires
        1 <= n <= 64,
    ensures
        routing::retry_delay(n, base, max, None) == if base * pow2((n - 1) as nat) <= max {
            base * pow2((n - 1) as nat)
        } else {
            max as int
        },
        routing::retry_delay(0, base, max, None) == if base <= max {
            base
        } else {
            max
        },
        routing::retry_delay(n, base, max, Some(seconds)) == seconds * 1000,
        routing::retry_delay(0, base, max, Some(seconds)) == seconds * 1000,
{
    lemma2_to64();
    assert(base as nat * pow2(0) == base) by (nonlinear_arith)
        requires
            pow2(0) == 1,
    ;
    lemma_small_mod((n - 1) as nat, 0x1_0000_0000);
}

/// What the upstream asks for is the number that its first `Retry-After`
/// writes, in digits alone.
pub proof fn served_retry_after(headers: Seq<(Seq<char>, Seq<char>)>, seconds: nat)
    requires
        seconds <= u64::MAX,
    ensures
        http::first_value(headers, "retry-after"@) == Some(numbers::decimal(seconds))
            ==> routing::retry_after(headers) == Some(seconds),
        http::first_value(headers, "retry-after"@) is None ==> routing::retry_after(headers)
            is None,
        http::first_value(headers, "retry-after"@) matches Some(value) ==> routing::retry_after(
            headers,
        ) == numbers::parse_unsigned(value, 10, u64::MAX as nat),
{
    numbers::number_reads_back(seconds, 10, u64::MAX as nat);
}

/// The reason phrase of a status: four statuses have one, any other takes what
/// it is given.
pub proof fn four_statuses_have_reasons(status: u16, otherwise: Seq<char>)
    ensures
        routing::reason_of(status, otherwise) == if status == 500 {
            "Internal Server Error"@
        } else if status == 502 {
            "Bad Gateway"@
        } else if status == 503 {
            "Service Unavailable"@
        } else if status == 504 {
            "Gateway Timeout"@
        } else {
            otherwise
        },
{
}

/// A response to a request that is served is passed on, unless there are
/// fallbacks and its status is one of nine: then the next model is tried after
/// a wait, and behind the last model the client is told that there is none
/// left.
pub proof fn served_responses_decide(
    state: ServeState,
    status: u16,
    headers: Seq<(Seq<char>, Seq<char>)>,
)
    requires
        state.wf(),
        !state.settled,
    ensures
        ({
            let bad = status == 402 || status == 403 || status == 408 || status == 429 || status
                == 500 || status == 502 || status == 503 || status == 504 || status == 524;
            let (next, action) = routing::serve_answered(state, status, headers);
            &&& !state.failover || !bad ==> action == ServeActionModel::Relay && next == (
            ServeState { settled: true, ..state })
            &&& state.failover && bad && state.index + 1 < state.total ==> next == (ServeState {
                index: (state.index + 1) as usize,
                last_status: Some(status),
                ..state
            }) && action == (ServeActionModel::TryNext {
                delay_ms: routing::retry_delay(
                    (state.index + 1) as nat,
                    state.base_delay_ms,
                    state.max_delay_ms,
                    routing::retry_after(headers),
                ),
            })
            &&& state.failover && bad && state.index + 1 == state.total ==> next == (ServeState {
                settled: true,
                last_status: Some(status),
                ..state
            }) && action == ServeActionModel::Answer(
                relay::error_answer(
                    status,
                    routing::reason_of(status, "Service Unavailable"@),
                    "toolcase-gateway: all upstream models exhausted"@,
                ),
            )
        }),
{
    laws_candidates::nine_statuses_are_retried(status);
}

/// An attempt without a response leads to the next model after a wait; behind
/// the last one the client is told that the upstream is unavailable, with the
/// last status, or 502 where there has been none.
pub proof fn served_failures_lead_on(state: ServeState, status: u16)
    requires
        state.wf(),
        !state.settled,
    ensures
        ({
            let (next, action) = routing::serve_failed(state);
            &&& state.index + 1 < state.total ==> next == (ServeState {
                index: (state.index + 1) as usize,
                ..state
            }) && action == (ServeActionModel::TryNext {
                delay_ms: routing::retry_delay(
                    (state.index + 1) as nat,
                    state.base_delay_ms,
                    state.max_delay_ms,
                    None,
                ),
            })
            &&& state.index + 1 == state.total ==> next == (ServeState { settled: true, ..state })
            &&& state.index + 1 == state.total && state.last_status == Some(status) ==> action
                == ServeActionModel::Answer(
                relay::error_answer(
                    status,
                    routing::reason_of(status, "Bad Gateway"@),
                    "toolcase-gateway: upstream unavailable"@,
                ),
            )
            &&& state.index + 1 == state.total && state.last_status is None ==> action
                == ServeActionModel::Answer(
                relay::error_answer(
                    502,
                    "Bad Gateway"@,
                    "toolcase-gateway: upstream unavailable"@,
                ),
            )
        }),
{
}

} // verus!
