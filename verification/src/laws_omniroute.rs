//! What holds of the passing on of a request, whatever it says.
use crate::chunked;
use crate::http;
use crate::laws_http;
use crate::laws_text;
use crate::numbers;
use crate::omniroute;
use crate::reader;
use crate::relay;
use crate::rewrite;
use crate::text;
use vstd::arithmetic::power2::*;
use vstd::prelude::*;
use vstd::utf8::*;

verus! {

broadcast use vstd::string::group_string_axioms;

// ---------------------------------------------------------------------------
// Delays
// ---------------------------------------------------------------------------

/// No delay is longer than the longest one, whatever the upstream asks for.
pub proof fn delays_are_bounded(
    attempt: nat,
    base: u64,
    max: u64,
    headers: Option<Seq<(Seq<char>, Seq<char>)>>,
)
    ensures
        omniroute::retry_delay(attempt, base, max, headers) <= max,
{
}

/// A later attempt waits at least as long as an earlier one.
pub proof fn delays_do_not_shrink(earlier: nat, later: nat, base: u64, max: u64)
    requires
        earlier <= later < 0x1_0000_0000,
    ensures
        omniroute::retry_delay(earlier, base, max, None) <= omniroute::retry_delay(
            later,
            base,
            max,
            None,
        ),
{
    let a = omniroute::multiplier(earlier);
    let b = omniroute::multiplier(later);
    assert(a <= b) by {
        vstd::arithmetic::div_mod::lemma_small_mod(earlier, 0x1_0000_0000);
        vstd::arithmetic::div_mod::lemma_small_mod(later, 0x1_0000_0000);
        lemma2_to64_rest();
        if later < 64 && earlier < later {
            lemma_pow2_strictly_increases(earlier, later);
        }
        if earlier < 63 {
            lemma_pow2_strictly_increases(earlier, 63);
        }
    }
    let n = base as nat;
    assert(n * a <= n * b) by (nonlinear_arith)
        requires
            a <= b,
    ;
}

/// Each delay is twice the one before, until it reaches the longest.
pub proof fn delays_double(attempt: nat, base: u64, max: u64)
    requires
        attempt < 63,
    ensures
        omniroute::retry_delay(attempt + 1, base, max, None) == omniroute::lesser(
            2 * omniroute::retry_delay(attempt, base, max, None),
            max as nat,
        ),
{
    lemma_pow2_unfold(attempt + 1);
    let n = base as nat;
    let p = pow2(attempt);
    assert(n * (2 * p) == 2 * (n * p)) by (nonlinear_arith);
}

// ---------------------------------------------------------------------------
// Candidates
// ---------------------------------------------------------------------------

/// What a list holds once others have been put behind it: what stood there
/// stays in front, each of the others is there, nothing else is, and nothing
/// comes twice.
pub proof fn with_new_holds(list: Seq<Seq<char>>, more: Seq<Seq<char>>)
    requires
        list.no_duplicates(),
    ensures
        omniroute::with_new(list, more).no_duplicates(),
        list.len() <= omniroute::with_new(list, more).len(),
        omniroute::with_new(list, more).take(list.len() as int) == list,
        forall|x: Seq<char>|
            #[trigger] omniroute::with_new(list, more).contains(x) <==> list.contains(x)
                || more.contains(x),
    decreases more.len(),
{
    let all = omniroute::with_new(list, more);
    if more.len() == 0 {
        assert(list.take(list.len() as int) =~= list);
    } else {
        let rest = more.drop_last();
        let last = more.last();
        with_new_holds(list, rest);
        let front = omniroute::with_new(list, rest);
        assert(more =~= rest.push(last));
        assert forall|x: Seq<char>|
            #[trigger] all.contains(x) <==> list.contains(x) || more.contains(x) by {
            laws_http::contains_of_push(rest, last, x);
            laws_http::contains_of_push(front, last, x);
            assert(front.contains(x) <==> list.contains(x) || rest.contains(x));
        }
        if !front.contains(last) {
            assert(all.take(list.len() as int) =~= front.take(list.len() as int));
            assert forall|i: int, j: int| 0 <= i < j < all.len() implies all[i] != all[j] by {
                if j == front.len() {
                    assert(front.contains(front[i]));
                }
            }
        }
    }
}

/// Rotating the fallbacks keeps them: each stands in the rotated list, and no
/// other does.
pub proof fn rotation_keeps_fallbacks(fallbacks: Seq<Seq<char>>, rotation: nat)
    ensures
        forall|x: Seq<char>|
            #[trigger] omniroute::rotated(fallbacks, rotation).contains(x) <==> fallbacks.contains(
                x,
            ),
{
    let n = fallbacks.len() as int;
    let order = omniroute::rotated(fallbacks, rotation);
    assert forall|x: Seq<char>| #[trigger] order.contains(x) <==> fallbacks.contains(x) by {
        if order.contains(x) {
            let i = order.index_of(x);
            let k = (rotation as int % n + i) % n;
            assert(0 <= k < n) by {
                vstd::arithmetic::div_mod::lemma_mod_bound(rotation as int % n + i, n);
            }
            assert(fallbacks[k] == x);
        }
        if fallbacks.contains(x) {
            let k = fallbacks.index_of(x);
            let offset = rotation as int % n;
            vstd::arithmetic::div_mod::lemma_mod_bound(rotation as int, n);
            let i = if k >= offset {
                k - offset
            } else {
                k - offset + n
            };
            if k < offset {
                vstd::arithmetic::div_mod::lemma_mod_add_multiples_vanish(k, n);
            }
            vstd::arithmetic::div_mod::lemma_small_mod(k as nat, n as nat);
            assert(order[i] == x);
        }
    }
}

/// The fallbacks go round: the first one of a request is that of its number,
/// and the next request begins with the one behind it.
pub proof fn fallbacks_go_round(fallbacks: Seq<Seq<char>>, rotation: nat, i: int)
    requires
        0 <= i < fallbacks.len(),
    ensures
        omniroute::rotated(fallbacks, rotation)[0] == fallbacks[(rotation % fallbacks.len()) as int],
        omniroute::rotated(fallbacks, rotation + 1)[i] == omniroute::rotated(
            fallbacks,
            rotation,
        )[(i + 1) % fallbacks.len() as int],
{
    let n = fallbacks.len() as int;
    let r = rotation as int;
    vstd::arithmetic::div_mod::lemma_mod_bound(r, n);
    vstd::arithmetic::div_mod::lemma_small_mod((r % n) as nat, n as nat);
    vstd::arithmetic::div_mod::lemma_mod_bound(i + 1, n);
    // Both sides are the fallback at `r + i + 1`, modulo the number of them.
    vstd::arithmetic::div_mod::lemma_add_mod_noop(r + 1, i, n);
    vstd::arithmetic::div_mod::lemma_add_mod_noop(r, i + 1, n);
    vstd::arithmetic::div_mod::lemma_add_mod_noop((r + 1) % n, i, n);
    vstd::arithmetic::div_mod::lemma_add_mod_noop(r % n, (i + 1) % n, n);
    vstd::arithmetic::div_mod::lemma_mod_bound(r + 1, n);
    vstd::arithmetic::div_mod::lemma_small_mod(((r + 1) % n) as nat, n as nat);
    vstd::arithmetic::div_mod::lemma_small_mod(((i + 1) % n) as nat, n as nat);
}

/// The models that are tried: there is one at least, none comes twice, the one
/// that the request names comes first, every fallback is among them, and no
/// other is.
pub proof fn candidates_are_the_models(
    body: Seq<u8>,
    fallbacks: Seq<Seq<char>>,
    rotation: nat,
)
    ensures
        ({
            let candidates = omniroute::candidates_of(body, fallbacks, rotation);
            let requested = omniroute::requested_model(body);
            &&& candidates.len() > 0
            &&& candidates.no_duplicates()
            &&& requested matches Some(model) ==> candidates[0] == model
            &&& forall|x: Seq<char>|
                fallbacks.contains(x) ==> #[trigger] candidates.contains(x)
            &&& forall|x: Seq<char>| #[trigger]
                candidates.contains(x) ==> requested == Some(x) || fallbacks.contains(x) || (
                requested is None && fallbacks.len() == 0 && x.len() == 0)
        }),
{
    let requested = omniroute::requested_model(body);
    let first = match requested {
        Some(model) => seq![model],
        None => Seq::empty(),
    };
    let order = omniroute::rotated(fallbacks, rotation);
    with_new_holds(first, order);
    rotation_keeps_fallbacks(fallbacks, rotation);
    let all = omniroute::with_new(first, order);
    let candidates = omniroute::candidates_of(body, fallbacks, rotation);
    if let Some(model) = requested {
        assert(all.take(1)[0] == first[0]);
    }
    assert forall|x: Seq<char>| fallbacks.contains(x) implies #[trigger] candidates.contains(x) by {
        assert(order.contains(x));
        assert(all.contains(x));
    }
    assert forall|x: Seq<char>| #[trigger] candidates.contains(x) implies requested == Some(x)
        || fallbacks.contains(x) || (requested is None && fallbacks.len() == 0 && x.len() == 0) by {
        if all.len() > 0 {
            assert(all.contains(x));
            assert(first.contains(x) || order.contains(x));
        } else if fallbacks.len() > 0 {
            assert(fallbacks.contains(fallbacks[0]));
            assert(order.contains(fallbacks[0]));
            assert(all.contains(fallbacks[0]));
        }
    }
}

/// With no fallbacks the model that the request names is the only candidate.
pub proof fn no_fallbacks_one_candidate(body: Seq<u8>, rotation: nat)
    ensures
        omniroute::candidates_of(body, Seq::empty(), rotation).len() == 1,
{
    assert(omniroute::rotated(Seq::empty(), rotation) =~= Seq::<Seq<char>>::empty());
}

// ---------------------------------------------------------------------------
// The request as it is passed on
// ---------------------------------------------------------------------------

/// A request that is accepted is well formed: its method is a token, its
/// target has no space or quote, its headers can carry no line end and give
/// the length of its body in one way at most, and its body is within the
/// limit.
pub proof fn accepted_requests_are_clean(stream: Seq<u8>, ended: bool)
    ensures
        reader::request_of(stream, ended) matches reader::ReadModel::Done(request) ==> {
            &&& http::token(request.method)
            &&& http::request_target(request.path)
            &&& laws_http::clean_fields(request.headers)
            &&& http::all_values(request.headers, "content-length"@).len() <= 1
            &&& http::chunked(request.headers) ==> http::all_values(
                request.headers,
                "content-length"@,
            ).len() == 0
            &&& request.body.len() <= http::MAX_REQUEST_BYTES
        },
{
    if let http::HeadProgress::Complete(end) = http::head_progress(
        stream,
        http::MAX_HEAD_BYTES as int,
    ) {
        let bytes = stream.take(end as int);
        if valid_utf8(bytes) {
            let lines = http::head_lines(decode_utf8(bytes));
            laws_http::read_headers_are_clean(lines.drop_first());
        }
        chunked::dechunk_is_bounded(Seq::empty(), stream.skip(end as int));
    }
}

/// What is held of a request that is not complete is bounded, however its body
/// is framed: a head that has not ended is no longer than the limit for heads,
/// a body of known length is no longer than the limit for bodies, and of a
/// chunked body no more than the body and one chunk's line within that limit.
pub proof fn waiting_is_bounded(stream: Seq<u8>)
    requires
        reader::request_of(stream, false) is More,
    ensures
        match http::head_end(stream) {
            None => stream.len() <= http::MAX_HEAD_BYTES,
            Some(end) => http::request_head(stream.take(end)) matches Ok(head)
                && match head.framing {
                http::Framing::Length(length) => stream.skip(end).len() < length
                    <= http::MAX_REQUEST_BYTES,
                http::Framing::Chunked => chunked::dechunk(Seq::empty(), stream.skip(end)) matches
                    chunked::BodyModel::More { body, rest } && body.len() <= http::MAX_REQUEST_BYTES
                    && body.len() + rest.len() <= chunked::MAX_HELD_BYTES,
            },
        },
{
    text::find_is_least(stream, http::head_mark(), 0);
    if let Some(end) = http::head_end(stream) {
        chunked::dechunk_is_bounded(Seq::empty(), stream.skip(end));
    }
}

/// A word ends at the first white space behind its beginning.
proof fn skip_word_stops(s: Seq<char>, from: int, to: int)
    requires
        0 <= from <= to < s.len(),
        forall|j: int| from <= j < to ==> !text::is_whitespace(#[trigger] s[j]),
        text::is_whitespace(s[to]),
    ensures
        text::skip_word(s, from) == to,
    decreases to - from,
{
    if from < to {
        skip_word_stops(s, from + 1, to);
    }
}

/// A request line that is written is read back.
proof fn request_line_reads_back(method: Seq<char>, path: Seq<char>)
    requires
        http::token(method),
        http::request_target(path),
    ensures
        http::line_method(omniroute::request_line(method, path)) == method,
        http::line_path(omniroute::request_line(method, path)) == path,
        !omniroute::request_line(method, path).contains('\r'),
{
    reveal_strlit(" HTTP/1.1");
    let line = omniroute::request_line(method, path);
    let n = method.len() as int;
    let m = path.len() as int;
    assert forall|j: int| 0 <= j < n implies !text::is_whitespace(#[trigger] line[j]) by {
        assert(http::is_token_char(method[j]));
    }
    assert forall|j: int| n + 1 <= j < n + 1 + m implies !text::is_whitespace(
        #[trigger] line[j],
    ) by {
        assert(http::is_target_char(path[j - n - 1]));
    }
    assert(line[n] == ' ');
    assert(line[n + 1 + m] == ' ');
    skip_word_stops(line, 0, n);
    assert(!text::is_whitespace(line[0]));
    assert(line.subrange(0, n) =~= method);
    assert(!text::is_whitespace(line[n + 1]));
    assert(text::skip_space(line, n + 1) == n + 1);
    assert(text::skip_space(line, n) == n + 1);
    skip_word_stops(line, n + 1, n + 1 + m);
    assert(line.subrange(n + 1, n + 1 + m) =~= path);
    assert forall|j: int| 0 <= j < line.len() implies line[j] != '\r' by {
        if j < n {
            assert(!text::is_whitespace(line[j]));
        } else if n + 1 <= j < n + 1 + m {
            assert(!text::is_whitespace(line[j]));
        }
    }
}

/// The values of a name in two lists in a row.
proof fn all_values_concat(
    a: Seq<(Seq<char>, Seq<char>)>,
    b: Seq<(Seq<char>, Seq<char>)>,
    name: Seq<char>,
)
    ensures
        http::all_values(a + b, name) == http::all_values(a, name) + http::all_values(b, name),
    decreases a.len(),
{
    if a.len() == 0 {
        assert(a + b =~= b);
        assert(http::all_values(a, name) + http::all_values(b, name) =~= http::all_values(b, name));
    } else {
        assert((a + b).drop_first() =~= a.drop_first() + b);
        all_values_concat(a.drop_first(), b, name);
        assert(http::all_values(a + b, name) =~= http::all_values(a, name) + http::all_values(
            b,
            name,
        ));
    }
}

/// A name that no header has has no values.
proof fn all_values_of_none(headers: Seq<(Seq<char>, Seq<char>)>, name: Seq<char>)
    requires
        forall|i: int|
            0 <= i < headers.len() ==> !text::eq_ignore_case(#[trigger] headers[i].0, name),
    ensures
        http::all_values(headers, name).len() == 0,
    decreases headers.len(),
{
    if headers.len() > 0 {
        let rest = headers.drop_first();
        assert forall|i: int| 0 <= i < rest.len() implies !text::eq_ignore_case(
            #[trigger] rest[i].0,
            name,
        ) by {
            assert(rest[i] == headers[i + 1]);
        }
        all_values_of_none(rest, name);
    }
}

/// Two texts of different lengths differ, letter case aside.
proof fn lengths_tell_apart(a: Seq<char>, b: Seq<char>)
    requires
        a.len() != b.len(),
    ensures
        !text::eq_ignore_case(a, b),
{
    assert(text::lower(a).len() != text::lower(b).len());
}

/// The headers that the gateway writes give one length and no encoding of the
/// transfer.
proof fn own_fields_frame(host: Seq<char>, port: u16, client_ip: Seq<char>, length: nat)
    ensures
        ({
            let own = omniroute::own_fields(host, port, client_ip, length);
            &&& http::all_values(own, "content-length"@) == seq![numbers::decimal(length)]
            &&& forall|i: int|
                0 <= i < own.len() ==> !text::eq_ignore_case(
                    #[trigger] own[i].0,
                    "transfer-encoding"@,
                )
        }),
{
    let own = omniroute::own_fields(host, port, client_ip, length);
    reveal_strlit("Host");
    reveal_strlit("Accept-Encoding");
    reveal_strlit("X-Forwarded-For");
    reveal_strlit("X-Real-Ip");
    reveal_strlit("X-Forwarded-Proto");
    reveal_strlit("Content-Length");
    reveal_strlit("Connection");
    reveal_strlit("content-length");
    reveal_strlit("transfer-encoding");
    let name = "content-length"@;
    let front = own.take(5);
    let rest = own.skip(6);
    assert forall|i: int| 0 <= i < front.len() implies !text::eq_ignore_case(
        #[trigger] front[i].0,
        name,
    ) by {
        lengths_tell_apart(front[i].0, name);
    }
    assert forall|i: int| 0 <= i < rest.len() implies !text::eq_ignore_case(
        #[trigger] rest[i].0,
        name,
    ) by {
        lengths_tell_apart(rest[i].0, name);
    }
    let one = seq![own[5]];
    assert(own =~= front + (one + rest));
    all_values_concat(front, one + rest, name);
    all_values_concat(one, rest, name);
    all_values_of_none(front, name);
    all_values_of_none(rest, name);
    assert(text::lower("Content-Length"@) =~= text::lower(name));
    all_values_of_none(one.drop_first(), name);
    assert(http::all_values(one, name) =~= seq![numbers::decimal(length)]);
    assert(http::all_values(own, name) =~= seq![numbers::decimal(length)]);
    let te = "transfer-encoding"@;
    assert forall|i: int| 0 <= i < own.len() implies !text::eq_ignore_case(
        #[trigger] own[i].0,
        te,
    ) by {
        if i == 4 {
            assert(text::lower("X-Forwarded-Proto"@)[0] == 'x');
            assert(text::lower(te)[0] == 't');
        } else {
            lengths_tell_apart(own[i].0, te);
        }
    }
}

/// The headers that the gateway writes are clean.
proof fn own_fields_are_clean(host: Seq<char>, port: u16, client_ip: Seq<char>, length: nat)
    requires
        http::plain_value(host),
        laws_text::trimmed(host),
        http::plain_value(client_ip),
        laws_text::trimmed(client_ip),
    ensures
        laws_http::clean_fields(omniroute::own_fields(host, port, client_ip, length)),
{
    let own = omniroute::own_fields(host, port, client_ip, length);
    reveal_strlit("Host");
    reveal_strlit("Accept-Encoding");
    reveal_strlit("identity");
    reveal_strlit("X-Forwarded-For");
    reveal_strlit("X-Real-Ip");
    reveal_strlit("X-Forwarded-Proto");
    reveal_strlit("http");
    reveal_strlit("Content-Length");
    reveal_strlit("Connection");
    reveal_strlit("close");
    crate::laws_relay::decimal_is_clean(length);
    crate::laws_relay::decimal_is_clean(port as nat);
    let target = omniroute::authority(host, port);
    let digits = numbers::decimal(port as nat);
    numbers::digits_have_value(port as nat, 10);
    assert(http::plain_value(target)) by {
        assert forall|i: int| 0 <= i < target.len() implies #[trigger] target[i] != '\r'
            && target[i] != '\n' && target[i] != '\0' by {
            if i < host.len() {
                assert(target[i] == host[i]);
            } else if i > host.len() {
                assert(target[i] == digits[i - host.len() - 1]);
            }
        }
    }
    assert(laws_text::trimmed(target)) by {
        assert(target.last() == digits.last());
        assert(host.len() > 0 ==> target[0] == host[0]);
    }
    assert(laws_http::clean_field(own[0]));
    assert(laws_http::clean_field(own[1]));
    assert(laws_http::clean_field(own[2]));
    assert(laws_http::clean_field(own[3]));
    assert(laws_http::clean_field(own[4]));
    assert(laws_http::clean_field(own[5]));
    assert(laws_http::clean_field(own[6]));
}

/// The headers of a request that is passed on are clean, and frame its body by
/// its length alone.
pub proof fn forwarded_fields_are_clean(
    headers: Seq<(Seq<char>, Seq<char>)>,
    host: Seq<char>,
    port: u16,
    client_ip: Seq<char>,
    length: nat,
)
    requires
        laws_http::clean_fields(headers),
        http::plain_value(host),
        laws_text::trimmed(host),
        http::plain_value(client_ip),
        laws_text::trimmed(client_ip),
        length <= http::MAX_REQUEST_BYTES,
    ensures
        laws_http::clean_fields(
            omniroute::forwarded_fields(headers, host, port, client_ip, length),
        ),
        http::request_framing(omniroute::forwarded_fields(headers, host, port, client_ip, length))
            == Ok::<http::Framing, crate::error::HttpError>(
            http::Framing::Length(length as usize),
        ),
{
    let keep = |name: Seq<char>| omniroute::keeps_in_request(name);
    let kept = relay::kept(headers, keep);
    let own = omniroute::own_fields(host, port, client_ip, length);
    let all = omniroute::forwarded_fields(headers, host, port, client_ip, length);
    laws_http::kept_are_the_kept(headers, keep);
    own_fields_are_clean(host, port, client_ip, length);
    own_fields_frame(host, port, client_ip, length);
    assert forall|i: int| 0 <= i < kept.len() implies laws_http::clean_field(#[trigger] kept[i])
        && omniroute::keeps_in_request(kept[i].0) by {
        assert(kept.contains(kept[i]));
        let k = headers.index_of(kept[i]);
        assert(laws_http::clean_field(headers[k]));
    }
    assert forall|i: int| 0 <= i < all.len() implies laws_http::clean_field(#[trigger] all[i]) by {
        if i < kept.len() {
            assert(all[i] == kept[i]);
        } else {
            assert(all[i] == own[i - kept.len()]);
        }
    }
    assert forall|i: int| 0 <= i < all.len() implies !text::eq_ignore_case(
        #[trigger] all[i].0,
        "transfer-encoding"@,
    ) by {
        if i < kept.len() {
            assert(all[i] == kept[i]);
            assert(http::HOP_BY_HOP@[6]@ == "transfer-encoding"@);
        } else {
            assert(all[i] == own[i - kept.len()]);
        }
    }
    all_values_concat(kept, own, "content-length"@);
    all_values_of_none(kept, "content-length"@);
    let lengths = http::all_values(all, "content-length"@);
    assert(lengths =~= seq![numbers::decimal(length)]);
    crate::laws_relay::decimal_is_clean(length);
    laws_text::trim_of_trimmed(numbers::decimal(length));
    numbers::number_reads_back(length, 10, usize::MAX as nat);
}

/// What is passed on is read as it is meant: the upstream sees one request,
/// with the client's method and target, with the client's headers but those
/// that concern its connection, with those that the gateway writes, and with
/// the body in which the model has been replaced.
pub proof fn forwarded_requests_read_back(
    request: reader::RequestModel,
    host: Seq<char>,
    port: u16,
    client_ip: Seq<char>,
    model: Seq<char>,
    ended: bool,
)
    requires
        http::token(request.method),
        http::request_target(request.path),
        laws_http::clean_fields(request.headers),
        http::plain_value(host),
        laws_text::trimmed(host),
        http::plain_value(client_ip),
        laws_text::trimmed(client_ip),
        rewrite::replaced_model(request.body, model).len() <= http::MAX_REQUEST_BYTES,
        encode_utf8(omniroute::forwarded_head(request, host, port, client_ip, model)).len()
            <= http::MAX_HEAD_BYTES,
    ensures
        reader::request_of(
            omniroute::forwarded_request(request, host, port, client_ip, model),
            ended,
        ) == reader::ReadModel::Done(
            reader::RequestModel {
                method: request.method,
                path: request.path,
                headers: omniroute::forwarded_fields(
                    request.headers,
                    host,
                    port,
                    client_ip,
                    rewrite::replaced_model(request.body, model).len(),
                ),
                body: rewrite::replaced_model(request.body, model),
            },
        ),
{
    let body = rewrite::replaced_model(request.body, model);
    let length = body.len();
    let fields = omniroute::forwarded_fields(request.headers, host, port, client_ip, length);
    let line = omniroute::request_line(request.method, request.path);
    let head = omniroute::forwarded_head(request, host, port, client_ip, model);
    let data = encode_utf8(head);
    let stream = omniroute::forwarded_request(request, host, port, client_ip, model);
    let end = data.len() as int;
    forwarded_fields_are_clean(request.headers, host, port, client_ip, length);
    request_line_reads_back(request.method, request.path);
    laws_http::rendered_head_ends(line, fields, body);
    assert(stream.take(end) =~= data);
    assert(stream.skip(end) =~= body);
    encode_utf8_valid_utf8(head);
    encode_utf8_decode_utf8(head);
    laws_http::rendered_head_lines(line, fields);
    let lines = http::head_lines(head);
    let blank = seq![Seq::<char>::empty(), Seq::<char>::empty()];
    assert(lines[0] == line);
    assert(lines.drop_first() =~= laws_http::field_lines(fields) + blank);
    laws_http::field_lines_read_back(fields, blank);
    assert(body.take(length as int) =~= body);
}

/// A request that is passed on with a model names that model, wherever it has
/// named one as an ordinary member and the model needs no escape.
pub proof fn forwarded_body_names_the_model(body: Seq<u8>, model: Seq<char>)
    requires
        valid_utf8(body),
        rewrite::model_span(decode_utf8(body)) is Some,
        rewrite::quoted_after(decode_utf8(body), rewrite::quoted_key("model"@), 0)
            == rewrite::model_span(decode_utf8(body)),
        !model.contains('"'),
        !model.contains('\\'),
    ensures
        omniroute::requested_model(rewrite::replaced_model(body, model)) == Some(model),
{
    let text = rewrite::with_model(decode_utf8(body), model);
    encode_utf8_valid_utf8(text);
    encode_utf8_decode_utf8(text);
    crate::laws_rewrite::replaced_model_reads_back(decode_utf8(body), model);
}

/// What a request says of the client's connection is not passed on, nor what
/// the gateway writes itself: the encoding that the upstream may use is the
/// identity alone.
pub proof fn no_hop_by_hop_header_is_forwarded(
    headers: Seq<(Seq<char>, Seq<char>)>,
    host: Seq<char>,
    port: u16,
    client_ip: Seq<char>,
    length: nat,
)
    ensures
        ({
            let all = omniroute::forwarded_fields(headers, host, port, client_ip, length);
            let n = all.len() - 7;
            &&& n >= 0
            &&& all.skip(n) == omniroute::own_fields(host, port, client_ip, length)
            &&& forall|i: int|
                0 <= i < n ==> headers.contains(#[trigger] all[i]) && omniroute::keeps_in_request(
                    all[i].0,
                )
        }),
{
    let keep = |name: Seq<char>| omniroute::keeps_in_request(name);
    let kept = relay::kept(headers, keep);
    let all = omniroute::forwarded_fields(headers, host, port, client_ip, length);
    laws_http::kept_are_the_kept(headers, keep);
    let n = all.len() - 7;
    assert(all.skip(n) =~= omniroute::own_fields(host, port, client_ip, length));
    assert forall|i: int| 0 <= i < n implies headers.contains(#[trigger] all[i])
        && omniroute::keeps_in_request(all[i].0) by {
        assert(all[i] == kept[i]);
        assert(kept.contains(kept[i]));
    }
}

// ---------------------------------------------------------------------------
// Decisions
// ---------------------------------------------------------------------------

/// A step goes to the next candidate, or stays: no candidate is tried twice
/// and none is left out.
pub proof fn attempts_go_forward(state: omniroute::ProxyState, event: omniroute::ProxyEventModel)
    requires
        state.wf(),
    ensures
        ({
            let (next, action) = omniroute::proxy_step(state, event);
            &&& next.wf()
            &&& next.total == state.total
            &&& action is TryNext ==> next.index == state.index + 1
            &&& !(action is TryNext) ==> next.index == state.index
            &&& action matches omniroute::ProxyActionModel::TryNext { delay_ms } ==> delay_ms
                <= state.max_delay_ms
        }),
{
}

/// A response that has been passed on ends the request. One that breaks off is
/// a failed attempt like any other: the next candidate is tried, or behind the
/// last one an error is written.
pub proof fn relays_end_or_fail(state: omniroute::ProxyState)
    ensures
        omniroute::proxy_step(state, omniroute::ProxyEventModel::Relayed)
            == (state, omniroute::ProxyActionModel::End),
        omniroute::proxy_step(state, omniroute::ProxyEventModel::BrokenOff)
            == omniroute::proxy_step(state, omniroute::ProxyEventModel::Failed),
{
}

/// A status that asks for a next candidate where there is none is answered by
/// an error with that status and, once it is written, by a closing one with
/// the same status; then the request ends.
pub proof fn exhaustion_is_answered_and_closed(
    state: omniroute::ProxyState,
    status: u16,
    headers: Seq<(Seq<char>, Seq<char>)>,
)
    requires
        state.wf(),
        state.last(),
        state.failover,
        omniroute::retryable(status),
    ensures
        ({
            let event = omniroute::ProxyEventModel::Head { status, headers };
            let (next, action) = omniroute::proxy_step(state, event);
            &&& action == omniroute::ProxyActionModel::Answer(
                relay::error_answer(
                    status,
                    omniroute::reason_of(Some(status), "Service Unavailable"@),
                    omniroute::EXHAUSTED@,
                ),
            )
            &&& omniroute::proxy_step(next, omniroute::ProxyEventModel::Answered).1
                == omniroute::ProxyActionModel::AnswerAndEnd(
                relay::error_answer(
                    status,
                    omniroute::reason_of(Some(status), "Bad Gateway"@),
                    omniroute::EXHAUSTED@,
                ),
            )
        }),
{
}

/// With no fallbacks the model that the request names is the only one that is
/// tried, and its response is passed on as it is, whatever its status.
pub proof fn without_fallbacks_responses_pass(
    body: Seq<u8>,
    rotation: nat,
    base_delay_ms: u64,
    max_delay_ms: u64,
    status: u16,
    headers: Seq<(Seq<char>, Seq<char>)>,
)
    ensures
        ({
            let fallbacks = Seq::<Seq<char>>::empty();
            let candidates = omniroute::candidates_of(body, fallbacks, rotation);
            let state = omniroute::proxy_start(
                candidates.len() as usize,
                fallbacks.len() > 0,
                base_delay_ms,
                max_delay_ms,
            );
            let event = omniroute::ProxyEventModel::Head { status, headers };
            &&& candidates.len() == 1
            &&& omniroute::requested_model(body) matches Some(model) ==> candidates[0] == model
            &&& omniroute::proxy_step(state, event).1 is Relay
        }),
{
    no_fallbacks_one_candidate(body, rotation);
    candidates_are_the_models(body, Seq::empty(), rotation);
}

/// With fallbacks, a response is passed on exactly if its status does not ask
/// for the next candidate; without, every response is.
pub proof fn only_good_responses_are_relayed(
    state: omniroute::ProxyState,
    status: u16,
    headers: Seq<(Seq<char>, Seq<char>)>,
)
    ensures
        ({
            let event = omniroute::ProxyEventModel::Head { status, headers };
            let (next, action) = omniroute::proxy_step(state, event);
            &&& action is Relay <==> !state.failover || !omniroute::retryable(status)
            &&& next.last_status == Some(status)
        }),
{
}

/// Behind the last candidate no other is tried: a failure is answered with an
/// error.
pub proof fn last_failure_is_answered(state: omniroute::ProxyState)
    requires
        state.wf(),
        state.last(),
    ensures
        omniroute::proxy_step(state, omniroute::ProxyEventModel::Failed).1
            == omniroute::ProxyActionModel::AnswerAndEnd(
            relay::error_answer(
                502,
                omniroute::reason_of(state.last_status, "Bad Gateway"@),
                omniroute::EXHAUSTED@,
            ),
        ),
{
}

/// What becomes of a request when `replies` holds, for each candidate, the
/// status and the headers that the upstream answers with, or nothing where the
/// attempt fails.
pub open spec fn proxy_run(
    state: omniroute::ProxyState,
    replies: Seq<Option<(u16, Seq<(Seq<char>, Seq<char>)>)>>,
) -> (omniroute::ProxyState, omniroute::ProxyActionModel)
    decreases state.total - state.index,
    when state.wf()
{
    let event = match replies[state.index as int] {
        Some((status, headers)) => omniroute::ProxyEventModel::Head { status, headers },
        None => omniroute::ProxyEventModel::Failed,
    };
    let (next, action) = omniroute::proxy_step(state, event);
    if action is TryNext {
        proxy_run(next, replies)
    } else {
        (next, action)
    }
}

/// The reply is one that is passed on.
pub open spec fn good_reply(reply: Option<(u16, Seq<(Seq<char>, Seq<char>)>)>) -> bool {
    reply matches Some((status, headers)) && !omniroute::retryable(status)
}

/// Failover: the response that is passed on is that of the first candidate with
/// a good one. Where none has, an error with the status of the last reply is
/// written, behind which a closing one comes, or a single one with 502 if
/// there was no last reply.
pub proof fn first_good_reply_is_relayed(
    state: omniroute::ProxyState,
    replies: Seq<Option<(u16, Seq<(Seq<char>, Seq<char>)>)>>,
)
    requires
        state.wf(),
        state.failover,
        replies.len() == state.total,
    ensures
        ({
            let (end, action) = proxy_run(state, replies);
            &&& end.wf()
            &&& forall|j: int| state.index <= j < end.index ==> !good_reply(#[trigger] replies[j])
            &&& good_reply(replies[end.index as int]) ==> action is Relay
            &&& !good_reply(replies[end.index as int]) ==> end.last() && match replies.last() {
                Some((status, headers)) => action == omniroute::ProxyActionModel::Answer(
                    relay::error_answer(
                        status,
                        omniroute::reason_of(Some(status), "Service Unavailable"@),
                        omniroute::EXHAUSTED@,
                    ),
                ),
                None => action == omniroute::ProxyActionModel::AnswerAndEnd(
                    relay::error_answer(
                        502,
                        omniroute::reason_of(end.last_status, "Bad Gateway"@),
                        omniroute::EXHAUSTED@,
                    ),
                ),
            }
        }),
    decreases state.total - state.index,
{
    let event = match replies[state.index as int] {
        Some((status, headers)) => omniroute::ProxyEventModel::Head { status, headers },
        None => omniroute::ProxyEventModel::Failed,
    };
    let (next, action) = omniroute::proxy_step(state, event);
    if action is TryNext {
        first_good_reply_is_relayed(next, replies);
    }
}

} // verus!
