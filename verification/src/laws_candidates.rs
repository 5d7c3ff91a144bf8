//! Which models are tried for a request, in which order and after which wait.
use crate::http;
use crate::laws_names;
use crate::laws_primitives;
use crate::numbers;
use crate::omniroute;
use crate::text;
use vstd::arithmetic::div_mod::*;
use vstd::arithmetic::power2::*;
use vstd::prelude::*;
use vstd::utf8::*;

verus! {

broadcast use vstd::string::group_string_axioms;

/// The model that a body asks for is the quoted text behind the first key
/// `"model"`, whatever stands between the two but a quote.
pub proof fn bodies_name_their_model(
    front: Seq<char>,
    gap: Seq<char>,
    model: Seq<char>,
    rest: Seq<char>,
    text: Seq<char>,
    body: Seq<u8>,
)
    requires
        laws_names::no_earlier(front, "\"model\""@),
        !gap.contains('"'),
        !model.contains('"'),
    ensures
        omniroute::requested_model(
            encode_utf8(front + "\"model\""@ + gap + seq!['"'] + model + seq!['"'] + rest),
        ) == Some(model),
        (forall|j: int| 0 <= j ==> !text::occurs_at(text, "\"model\""@, j))
            ==> omniroute::requested_model(encode_utf8(text)) is None,
        !valid_utf8(body) ==> omniroute::requested_model(body) is None,
{
    reveal_strlit("model");
    reveal_strlit("\"model\"");
    let key = "\"model\""@;
    let quoted = seq!['"'] + "model"@ + seq!['"'];
    assert(quoted =~= key);
    laws_names::values_are_the_next_quoted_text(front, "model"@, gap, model, rest);
    let whole = front + key + gap + seq!['"'] + model + seq!['"'] + rest;
    encode_utf8_valid_utf8(whole);
    encode_utf8_decode_utf8(whole);
    encode_utf8_valid_utf8(text);
    encode_utf8_decode_utf8(text);
    if forall|j: int| 0 <= j ==> !text::occurs_at(text, key, j) {
        laws_names::no_key_no_value(text, "model"@);
    }
}

/// Adding to a list goes one by one: what is new goes behind, what is there
/// already is passed over.
pub proof fn new_ones_go_behind(
    list: Seq<Seq<char>>,
    front: Seq<Seq<char>>,
    rest: Seq<Seq<char>>,
    x: Seq<char>,
)
    ensures
        omniroute::with_new(list, front + rest) == omniroute::with_new(
            omniroute::with_new(list, front),
            rest,
        ),
        omniroute::with_new(list, Seq::empty()) == list,
        omniroute::with_new(list, seq![x]) == if list.contains(x) {
            list
        } else {
            list + seq![x]
        },
    decreases rest.len(),
{
    assert(seq![x].drop_last() =~= Seq::<Seq<char>>::empty());
    assert(omniroute::with_new(list, Seq::empty()) == list);
    assert(omniroute::with_new(list, seq![x].drop_last()) == list);
    assert(list.push(x) =~= list + seq![x]);
    if rest.len() == 0 {
        assert(front + rest =~= front);
    } else {
        new_ones_go_behind(list, front, rest.drop_last(), x);
        assert((front + rest).drop_last() =~= front + rest.drop_last());
    }
}

/// Turning by a number and going on from there is going on from the sum.
proof fn turned_index(n: nat, i: int, len: nat)
    requires
        len > 0,
        0 <= i,
    ensures
        (n % len + i) % len as int == (n + i) % len as int,
        0 <= (n + i) % len as int,
        (n + i) % len as int <= len - 1,
{
    lemma_add_mod_noop_right(i, n as int, len as int);
    lemma_mod_bound(n + i, len as int);
    assert(i + n as int == n + i);
    assert(i + (n as int) % (len as int) == n % len + i);
}

/// The order of the fallbacks: request by request each of them comes first in
/// turn, and the others follow in their order, round and round.
pub proof fn fallbacks_are_turned(fallbacks: Seq<Seq<char>>, n: nat)
    ensures
        omniroute::rotated(fallbacks, n).len() == fallbacks.len(),
        forall|i: int|
            0 <= i < fallbacks.len() ==> #[trigger] omniroute::rotated(fallbacks, n)[i]
                == fallbacks[(n + i) % fallbacks.len() as int],
{
    assert forall|i: int| 0 <= i < fallbacks.len() implies #[trigger] omniroute::rotated(
        fallbacks,
        n,
    )[i] == fallbacks[(n + i) % fallbacks.len() as int] by {
        turned_index(n, i, fallbacks.len());
    }
}

/// Two places of a turned list are places of the list, and not the same one.
proof fn turned_places_differ(n: nat, i: int, j: int, len: nat)
    requires
        0 <= i < j < len,
    ensures
        (n + i) % len as int != (n + j) % len as int,
{
    let d = len as int;
    if (n + i) % d == (n + j) % d {
        lemma_fundamental_div_mod(n + i, d);
        lemma_fundamental_div_mod(n + j, d);
        let p = (n + i) / d;
        let q = (n + j) / d;
        assert(d * q - d * p == j - i);
        assert(d * (q - p) == j - i) by (nonlinear_arith)
            requires
                d * q - d * p == j - i,
        ;
        assert(false) by (nonlinear_arith)
            requires
                d * (q - p) == j - i,
                0 < j - i < d,
        ;
    }
}

/// Ones that are all new go behind as they are.
proof fn all_new(list: Seq<Seq<char>>, more: Seq<Seq<char>>)
    requires
        more.no_duplicates(),
        forall|i: int| 0 <= i < more.len() ==> !list.contains(#[trigger] more[i]),
    ensures
        omniroute::with_new(list, more) == list + more,
    decreases more.len(),
{
    if more.len() == 0 {
        assert(list + more =~= list);
    } else {
        let front = more.drop_last();
        assert forall|i: int| 0 <= i < front.len() implies !list.contains(#[trigger] front[i]) by {
            assert(front[i] == more[i]);
        }
        assert(front.no_duplicates());
        all_new(list, front);
        let done = list + front;
        assert(!done.contains(more.last())) by {
            if done.contains(more.last()) {
                let k = choose|k: int| 0 <= k < done.len() && done[k] == more.last();
                if k < list.len() {
                    assert(list[k] == more[more.len() - 1]);
                    assert(list.contains(more[more.len() - 1]));
                } else {
                    assert(more[k - list.len()] == more[more.len() - 1]);
                }
            }
        }
        assert(done.push(more.last()) =~= list + more);
    }
}

/// The candidates of a request: the model that it asks for, then all the
/// fallbacks, beginning with another one from request to request and going
/// round. The fallbacks are all different, and the model is none of them.
pub proof fn candidates_go_round(body: Seq<u8>, model: Seq<char>, fallbacks: Seq<Seq<char>>, n: nat)
    requires
        omniroute::requested_model(body) == Some(model),
        fallbacks.no_duplicates(),
        !fallbacks.contains(model),
    ensures
        omniroute::candidates_of(body, fallbacks, n).len() == 1 + fallbacks.len(),
        omniroute::candidates_of(body, fallbacks, n)[0] == model,
        forall|i: int|
            0 <= i < fallbacks.len() ==> #[trigger] omniroute::candidates_of(body, fallbacks, n)[1
                + i] == fallbacks[(n + i) % fallbacks.len() as int],
{
    let order = omniroute::rotated(fallbacks, n);
    let len = fallbacks.len();
    fallbacks_are_turned(fallbacks, n);
    assert forall|i: int| 0 <= i < order.len() implies !seq![model].contains(
        #[trigger] order[i],
    ) by {
        turned_index(n, i, len);
        assert(order[i] == fallbacks[(n + i) % len as int]);
        assert(fallbacks.contains(fallbacks[(n + i) % len as int]));
    }
    assert forall|i: int, j: int| 0 <= i < order.len() && 0 <= j < order.len() && i != j
        implies order[i] != order[j] by {
        turned_index(n, i, len);
        turned_index(n, j, len);
        if i < j {
            turned_places_differ(n, i, j, len);
        } else {
            turned_places_differ(n, j, i, len);
        }
        assert(order[i] == fallbacks[(n + i) % len as int]);
        assert(order[j] == fallbacks[(n + j) % len as int]);
    }
    all_new(seq![model], order);
    assert forall|i: int| 0 <= i < len implies #[trigger] omniroute::candidates_of(
        body,
        fallbacks,
        n,
    )[1 + i] == fallbacks[(n + i) % len as int] by {
        assert((seq![model] + order)[1 + i] == order[i]);
    }
}

/// The candidates of any request: the model that it asks for, if it does, then
/// the fallbacks from the request's number on, round and round, each one that
/// is not there yet; the empty name where there are neither.
pub proof fn candidates_of_any_request(body: Seq<u8>, fallbacks: Seq<Seq<char>>, n: nat)
    ensures
        ({
            let turned = Seq::new(
                fallbacks.len(),
                |i: int| fallbacks[(n + i) % fallbacks.len() as int],
            );
            let candidates = omniroute::candidates_of(body, fallbacks, n);
            match omniroute::requested_model(body) {
                Some(model) => candidates == omniroute::with_new(seq![model], turned),
                None => if fallbacks.len() == 0 {
                    candidates == seq![Seq::<char>::empty()]
                } else {
                    candidates == omniroute::with_new(Seq::empty(), turned)
                },
            }
        }),
{
    let turned = Seq::new(fallbacks.len(), |i: int| fallbacks[(n + i) % fallbacks.len() as int]);
    fallbacks_are_turned(fallbacks, n);
    assert(turned =~= omniroute::rotated(fallbacks, n));
    match omniroute::requested_model(body) {
        Some(model) => {
            crate::laws_omniroute::with_new_holds(seq![model], turned);
            longer(seq![model], turned);
        },
        None => {
            if fallbacks.len() > 0 {
                let none = Seq::<Seq<char>>::empty();
                let first = turned.take(1);
                assert(first =~= seq![turned[0]]);
                assert(first + turned.skip(1) =~= turned);
                new_ones_go_behind(none, first, turned.skip(1), turned[0]);
                longer(none + first, turned.skip(1));
            } else {
                assert(turned =~= Seq::<Seq<char>>::empty());
            }
        },
    }
}

/// Adding to a list does not shorten it.
proof fn longer(list: Seq<Seq<char>>, more: Seq<Seq<char>>)
    ensures
        omniroute::with_new(list, more).len() >= list.len(),
    decreases more.len(),
{
    if more.len() > 0 {
        longer(list, more.drop_last());
    }
}

// ---------------------------------------------------------------------------
// Waits
// ---------------------------------------------------------------------------

/// The wait before an attempt is the base doubled once per attempt, and never
/// more than the most that is allowed.
pub proof fn waits_are_doubled(attempt: nat, base: u64, max: u64)
    requires
        attempt < 64,
    ensures
        omniroute::retry_delay(attempt, base, max, None) == if base * pow2(attempt) <= max {
            base * pow2(attempt)
        } else {
            max as int
        },
{
    lemma_small_mod(attempt, 0x1_0000_0000);
}

/// From the 64th doubling on the wait is the most that is allowed, unless there
/// is no wait at all.
pub proof fn late_waits_are_the_longest(attempt: nat, base: u64, max: u64)
    requires
        64 <= attempt < 0x1_0000_0000,
    ensures
        omniroute::retry_delay(attempt, base, max, None) == if base == 0 {
            0
        } else {
            max as nat
        },
{
    lemma_small_mod(attempt, 0x1_0000_0000);
    let times = u64::MAX as nat;
    assert(base as nat * times >= times || base == 0) by (nonlinear_arith)
        requires
            times >= 0,
    ;
    assert(0 * times == 0) by (nonlinear_arith);
}

/// What the upstream asks for in `Retry-After`, in seconds and with white
/// space around it, is the wait, in milliseconds, and never more than the most
/// that is allowed, whichever attempt it is; a header without such a number
/// asks for nothing.
pub proof fn upstreams_set_the_wait(
    headers: Seq<(Seq<char>, Seq<char>)>,
    before: Seq<char>,
    seconds: nat,
    behind: Seq<char>,
    attempt: nat,
    base: u64,
    max: u64,
)
    requires
        laws_primitives::blank(before),
        laws_primitives::blank(behind),
        seconds <= u64::MAX,
        http::first_value(headers, "retry-after"@) == Some(
            before + numbers::decimal(seconds) + behind,
        ),
    ensures
        omniroute::retry_delay(attempt, base, max, Some(headers)) == if seconds * 1000 <= max {
            seconds * 1000
        } else {
            max as nat
        },
{
    numbers::number_reads_back(seconds, 10, u64::MAX as nat);
    numbers::digits_have_value(seconds, 10);
    let digits = numbers::decimal(seconds);
    assert(!text::is_whitespace(digits[0]));
    assert(!text::is_whitespace(digits.last()));
    laws_primitives::trim_takes_off_the_ends(before, digits, behind);
}

/// A number of seconds that is written in another way counts as well.
pub proof fn any_number_sets_the_wait(
    headers: Seq<(Seq<char>, Seq<char>)>,
    value: Seq<char>,
    seconds: nat,
    attempt: nat,
    base: u64,
    max: u64,
)
    requires
        http::first_value(headers, "retry-after"@) == Some(value),
        numbers::parse_unsigned(text::trim(value), 10, u64::MAX as nat) == Some(seconds),
    ensures
        omniroute::retry_delay(attempt, base, max, Some(headers)) == if seconds * 1000 <= max {
            seconds * 1000
        } else {
            max as nat
        },
{
}

/// A response that asks for no number of seconds leaves the wait as it is.
pub proof fn silent_upstreams_leave_the_wait(
    headers: Seq<(Seq<char>, Seq<char>)>,
    attempt: nat,
    base: u64,
    max: u64,
)
    ensures
        http::first_value(headers, "retry-after"@) is None ==> omniroute::retry_delay(
            attempt,
            base,
            max,
            Some(headers),
        ) == omniroute::retry_delay(attempt, base, max, None),
        http::first_value(headers, "retry-after"@) matches Some(value) ==> numbers::parse_unsigned(
            text::trim(value),
            10,
            u64::MAX as nat,
        ) is None ==> omniroute::retry_delay(attempt, base, max, Some(headers))
            == omniroute::retry_delay(attempt, base, max, None),
{
}

/// Nine statuses make the gateway try the next model, and no others do.
pub proof fn nine_statuses_are_retried(status: u16)
    ensures
        omniroute::retryable(status) <==> status == 402 || status == 403 || status == 408 || status
            == 429 || status == 500 || status == 502 || status == 503 || status == 504 || status
            == 524,
{
    let all = omniroute::RETRYABLE@;
    assert(all[0] == 402 && all[1] == 403 && all[2] == 408 && all[3] == 429 && all[4] == 500
        && all[5] == 502 && all[6] == 503 && all[7] == 504 && all[8] == 524);
    if omniroute::retryable(status) {
        let i = choose|i: int| 0 <= i < all.len() && all[i] == status;
        assert(i == 0 || i == 1 || i == 2 || i == 3 || i == 4 || i == 5 || i == 6 || i == 7 || i
            == 8);
    }
}

/// The reason phrase of a status: six statuses have one, any other takes what
/// it is given.
pub proof fn six_statuses_have_reasons(status: Option<u16>, otherwise: Seq<char>)
    ensures
        omniroute::reason_of(status, otherwise) == if status == Some(408u16) {
            "Request Timeout"@
        } else if status == Some(429u16) {
            "Too Many Requests"@
        } else if status == Some(500u16) {
            "Internal Server Error"@
        } else if status == Some(502u16) {
            "Bad Gateway"@
        } else if status == Some(503u16) {
            "Service Unavailable"@
        } else if status == Some(504u16) {
            "Gateway Timeout"@
        } else {
            otherwise
        },
{
}

} // verus!
