//! Which headers go through the gateway, in either direction, and what a head
//! is in writing.
use crate::http;
use crate::omniroute;
use crate::reader;
use crate::relay;
use crate::rewrite;
use crate::text;
use vstd::prelude::*;
use vstd::utf8::*;

verus! {

broadcast use vstd::string::group_string_axioms;

/// Letter case aside, two names are the same.
pub open spec fn same(a: Seq<char>, b: Seq<char>) -> bool {
    text::eq_ignore_case(a, b)
}

/// Eight names concern one connection alone, and no others do.
pub proof fn eight_names_are_hop_by_hop(name: Seq<char>)
    ensures
        http::hop_by_hop(name) <==> same(name, "connection"@) || same(name, "keep-alive"@) || same(
            name,
            "proxy-authenticate"@,
        ) || same(name, "proxy-authorization"@) || same(name, "te"@) || same(name, "trailer"@)
            || same(name, "transfer-encoding"@) || same(name, "upgrade"@),
{
    assert(http::HOP_BY_HOP@[0]@ == "connection"@);
    assert(http::HOP_BY_HOP@[1]@ == "keep-alive"@);
    assert(http::HOP_BY_HOP@[2]@ == "proxy-authenticate"@);
    assert(http::HOP_BY_HOP@[3]@ == "proxy-authorization"@);
    assert(http::HOP_BY_HOP@[4]@ == "te"@);
    assert(http::HOP_BY_HOP@[5]@ == "trailer"@);
    assert(http::HOP_BY_HOP@[6]@ == "transfer-encoding"@);
    assert(http::HOP_BY_HOP@[7]@ == "upgrade"@);
    if http::hop_by_hop(name) {
        let i = choose|i: int|
            0 <= i < 8 && text::eq_ignore_case(name, #[trigger] http::HOP_BY_HOP@[i]@);
        assert(i == 0 || i == 1 || i == 2 || i == 3 || i == 4 || i == 5 || i == 6 || i == 7);
    }
}

/// The kept headers of two lists in a row are those of each.
pub proof fn kept_of_both(
    front: Seq<(Seq<char>, Seq<char>)>,
    rest: Seq<(Seq<char>, Seq<char>)>,
    keep: spec_fn(Seq<char>) -> bool,
)
    ensures
        relay::kept(front + rest, keep) == relay::kept(front, keep) + relay::kept(rest, keep),
    decreases rest.len(),
{
    if rest.len() == 0 {
        assert(front + rest =~= front);
        assert(relay::kept(front, keep) + relay::kept(rest, keep) =~= relay::kept(front, keep));
    } else {
        kept_of_both(front, rest.drop_last(), keep);
        assert((front + rest).drop_last() =~= front + rest.drop_last());
        assert(relay::kept(front + rest, keep) =~= relay::kept(front, keep) + relay::kept(
            rest,
            keep,
        ));
    }
}

/// The kept headers are a filtered list.
proof fn kept_is_filtered(
    headers: Seq<(Seq<char>, Seq<char>)>,
    keep: spec_fn(Seq<char>) -> bool,
    wanted: spec_fn((Seq<char>, Seq<char>)) -> bool,
)
    requires
        forall|field: (Seq<char>, Seq<char>)| #[trigger] wanted(field) == keep(field.0),
    ensures
        relay::kept(headers, keep) == headers.filter(wanted),
    decreases headers.len(),
{
    reveal(Seq::filter);
    if headers.len() > 0 {
        kept_is_filtered(headers.drop_last(), keep, wanted);
        assert(wanted(headers.last()) == keep(headers.last().0));
    } else {
        assert(headers.filter(wanted) =~= relay::kept(headers, keep));
    }
}

/// The head that goes back to the client holds each header of the upstream's
/// response, with its value and in its order, but for eleven names: three that
/// would be untrue of the body that goes back, and the eight that concern one
/// connection alone. Two headers of the gateway's own stand behind them.
pub proof fn responses_keep_the_other_headers(headers: Seq<(Seq<char>, Seq<char>)>)
    ensures
        relay::relayed_fields(headers) == headers.filter(
            |field: (Seq<char>, Seq<char>)|
                !same(field.0, "content-length"@) && !same(field.0, "content-encoding"@) && !same(
                    field.0,
                    "etag"@,
                ) && !same(field.0, "connection"@) && !same(field.0, "keep-alive"@) && !same(
                    field.0,
                    "proxy-authenticate"@,
                ) && !same(field.0, "proxy-authorization"@) && !same(field.0, "te"@) && !same(
                    field.0,
                    "trailer"@,
                ) && !same(field.0, "transfer-encoding"@) && !same(field.0, "upgrade"@),
        ) + seq![("Transfer-Encoding"@, "chunked"@), ("Connection"@, "close"@)],
{
    let keep = |name: Seq<char>| relay::keeps_in_response(name);
    let wanted = |field: (Seq<char>, Seq<char>)|
        !same(field.0, "content-length"@) && !same(field.0, "content-encoding"@) && !same(
            field.0,
            "etag"@,
        ) && !same(field.0, "connection"@) && !same(field.0, "keep-alive"@) && !same(
            field.0,
            "proxy-authenticate"@,
        ) && !same(field.0, "proxy-authorization"@) && !same(field.0, "te"@) && !same(
            field.0,
            "trailer"@,
        ) && !same(field.0, "transfer-encoding"@) && !same(field.0, "upgrade"@);
    assert forall|field: (Seq<char>, Seq<char>)| #[trigger] wanted(field) == keep(field.0) by {
        eight_names_are_hop_by_hop(field.0);
    }
    kept_is_filtered(headers, keep, wanted);
    assert(relay::relayed_fields(headers) =~= headers.filter(wanted) + seq![
        ("Transfer-Encoding"@, "chunked"@),
        ("Connection"@, "close"@),
    ]);
}

/// One header more in the upstream's response is one header more in the head
/// that goes back, at its place among the others, unless its name is one of
/// the eleven: then the head that goes back is the same.
pub proof fn each_response_header_counts(
    front: Seq<(Seq<char>, Seq<char>)>,
    name: Seq<char>,
    value: Seq<char>,
    rest: Seq<(Seq<char>, Seq<char>)>,
)
    ensures
        ({
            let before = relay::relayed_fields(front);
            let left_out = same(name, "content-length"@) || same(name, "content-encoding"@) || same(
                name,
                "etag"@,
            ) || same(name, "connection"@) || same(name, "keep-alive"@) || same(
                name,
                "proxy-authenticate"@,
            ) || same(name, "proxy-authorization"@) || same(name, "te"@) || same(name, "trailer"@)
                || same(name, "transfer-encoding"@) || same(name, "upgrade"@);
            relay::relayed_fields(front + seq![(name, value)] + rest) == if left_out {
                before.take(before.len() - 2) + relay::relayed_fields(rest)
            } else {
                before.take(before.len() - 2) + seq![(name, value)] + relay::relayed_fields(rest)
            }
        }),
{
    let keep = |name: Seq<char>| relay::keeps_in_response(name);
    let one = seq![(name, value)];
    eight_names_are_hop_by_hop(name);
    kept_of_both(front + one, rest, keep);
    kept_of_both(front, one, keep);
    assert(one.drop_last() =~= Seq::<(Seq<char>, Seq<char>)>::empty());
    assert(relay::kept(one.drop_last(), keep) =~= Seq::<(Seq<char>, Seq<char>)>::empty());
    assert(relay::kept(one, keep) =~= if keep(name) {
        one
    } else {
        Seq::empty()
    });
    let before = relay::relayed_fields(front);
    assert(before.take(before.len() - 2) =~= relay::kept(front, keep));
    assert(relay::relayed_fields(front + one + rest) =~= relay::kept(front, keep) + relay::kept(
        one,
        keep,
    ) + relay::relayed_fields(rest));
    assert(relay::kept(front, keep) + Seq::<(Seq<char>, Seq<char>)>::empty()
        + relay::relayed_fields(rest) =~= relay::kept(front, keep) + relay::relayed_fields(rest));
}

/// The head that goes to the upstream holds each header of the client's
/// request, with its value and in its order, but for eleven names; the seven
/// headers that the gateway writes stand behind them.
pub proof fn requests_keep_the_other_headers(
    headers: Seq<(Seq<char>, Seq<char>)>,
    host: Seq<char>,
    port: u16,
    client_ip: Seq<char>,
    length: nat,
)
    ensures
        omniroute::forwarded_fields(headers, host, port, client_ip, length) == headers.filter(
            |field: (Seq<char>, Seq<char>)|
                !same(field.0, "host"@) && !same(field.0, "content-length"@) && !same(
                    field.0,
                    "accept-encoding"@,
                ) && !same(field.0, "connection"@) && !same(field.0, "keep-alive"@) && !same(
                    field.0,
                    "proxy-authenticate"@,
                ) && !same(field.0, "proxy-authorization"@) && !same(field.0, "te"@) && !same(
                    field.0,
                    "trailer"@,
                ) && !same(field.0, "transfer-encoding"@) && !same(field.0, "upgrade"@),
        ) + seq![
            ("Host"@, host + seq![':'] + crate::numbers::decimal(port as nat)),
            ("Accept-Encoding"@, "identity"@),
            ("X-Forwarded-For"@, client_ip),
            ("X-Real-Ip"@, client_ip),
            ("X-Forwarded-Proto"@, "http"@),
            ("Content-Length"@, crate::numbers::decimal(length)),
            ("Connection"@, "close"@),
        ],
{
    let keep = |name: Seq<char>| omniroute::keeps_in_request(name);
    let wanted = |field: (Seq<char>, Seq<char>)|
        !same(field.0, "host"@) && !same(field.0, "content-length"@) && !same(
            field.0,
            "accept-encoding"@,
        ) && !same(field.0, "connection"@) && !same(field.0, "keep-alive"@) && !same(
            field.0,
            "proxy-authenticate"@,
        ) && !same(field.0, "proxy-authorization"@) && !same(field.0, "te"@) && !same(
            field.0,
            "trailer"@,
        ) && !same(field.0, "transfer-encoding"@) && !same(field.0, "upgrade"@);
    assert forall|field: (Seq<char>, Seq<char>)| #[trigger] wanted(field) == keep(field.0) by {
        eight_names_are_hop_by_hop(field.0);
    }
    kept_is_filtered(headers, keep, wanted);
}

/// One header more in the client's request is one header more in the head that
/// goes to the upstream, at its place among the others, unless its name is one
/// of the eleven: then the head is the same.
pub proof fn each_request_header_counts(
    front: Seq<(Seq<char>, Seq<char>)>,
    name: Seq<char>,
    value: Seq<char>,
    rest: Seq<(Seq<char>, Seq<char>)>,
    host: Seq<char>,
    port: u16,
    client_ip: Seq<char>,
    length: nat,
)
    ensures
        ({
            let before = omniroute::forwarded_fields(front, host, port, client_ip, length);
            let behind = omniroute::forwarded_fields(rest, host, port, client_ip, length);
            let left_out = same(name, "host"@) || same(name, "content-length"@) || same(
                name,
                "accept-encoding"@,
            ) || same(name, "connection"@) || same(name, "keep-alive"@) || same(
                name,
                "proxy-authenticate"@,
            ) || same(name, "proxy-authorization"@) || same(name, "te"@) || same(name, "trailer"@)
                || same(name, "transfer-encoding"@) || same(name, "upgrade"@);
            omniroute::forwarded_fields(
                front + seq![(name, value)] + rest,
                host,
                port,
                client_ip,
                length,
            ) == if left_out {
                before.take(before.len() - 7) + behind
            } else {
                before.take(before.len() - 7) + seq![(name, value)] + behind
            }
        }),
{
    let keep = |name: Seq<char>| omniroute::keeps_in_request(name);
    let one = seq![(name, value)];
    eight_names_are_hop_by_hop(name);
    kept_of_both(front + one, rest, keep);
    kept_of_both(front, one, keep);
    assert(one.drop_last() =~= Seq::<(Seq<char>, Seq<char>)>::empty());
    assert(relay::kept(one.drop_last(), keep) =~= Seq::<(Seq<char>, Seq<char>)>::empty());
    assert(relay::kept(one, keep) =~= if keep(name) {
        one
    } else {
        Seq::empty()
    });
    let before = omniroute::forwarded_fields(front, host, port, client_ip, length);
    let behind = omniroute::forwarded_fields(rest, host, port, client_ip, length);
    assert(before.take(before.len() - 7) =~= relay::kept(front, keep));
    assert(omniroute::forwarded_fields(front + one + rest, host, port, client_ip, length)
        =~= relay::kept(front, keep) + relay::kept(one, keep) + behind);
    assert(relay::kept(front, keep) + Seq::<(Seq<char>, Seq<char>)>::empty() + behind
        =~= relay::kept(front, keep) + behind);
}

/// A request as it goes to the upstream: the client's method and target on the
/// first line, the headers, and the body with the model replaced.
pub proof fn requests_are_passed_on(
    request: reader::RequestModel,
    host: Seq<char>,
    port: u16,
    client_ip: Seq<char>,
    model: Seq<char>,
)
    ensures
        ({
            let body = rewrite::replaced_model(request.body, model);
            omniroute::forwarded_request(request, host, port, client_ip, model) == encode_utf8(
                http::rendered_head(
                    request.method + seq![' '] + request.path + " HTTP/1.1"@,
                    omniroute::forwarded_fields(
                        request.headers,
                        host,
                        port,
                        client_ip,
                        body.len(),
                    ),
                ),
            ) + body
        }),
{
}

} // verus!
