//! What the gateway answers in writing, and what it passes on of a response.
use crate::chunked;
use crate::completion;
use crate::config;
use crate::http;
use crate::laws_settings;
use crate::numbers;
use crate::prism;
use crate::prism_reply;
use crate::relay;
use crate::rewrite;
use crate::routes;
use crate::routing;
use vstd::prelude::*;
use vstd::utf8::*;

verus! {

broadcast use vstd::string::group_string_axioms;

/// A connection is served while fewer than the most are, and the answer to one
/// beyond them says so.
pub proof fn connections_are_capped(active: nat, max_connections: nat)
    ensures
        config::admitted(active, max_connections) <==> active < max_connections,
        relay::busy_answer() == relay::error_answer(
            503,
            "Service Unavailable"@,
            "too many connections"@,
        ),
{
}

/// The answers that are made without the upstream all have the status 200, and
/// their own headers and bodies.
pub proof fn own_answers_are_written(default_model: Seq<char>, json: Seq<char>)
    ensures
        routes::preflight_answer() == http::rendered_head(
            "HTTP/1.1 200 OK"@,
            routes::preflight_fields(),
        ),
        routing::hello_answer() == http::rendered_head(
            "HTTP/1.1 200 OK"@,
            routing::hello_fields(),
        ),
        routes::catalog_answer(default_model) == http::rendered_head(
            "HTTP/1.1 200 OK"@,
            routes::catalog_fields(default_model),
        ) + routes::catalog_body(default_model),
        completion::json_answer(json) == http::rendered_head(
            "HTTP/1.1 200 OK"@,
            completion::json_fields(json),
        ) + json,
        completion::stream_head_text() == http::rendered_head(
            "HTTP/1.1 200 OK"@,
            completion::stream_fields(),
        ),
{
    reveal_strlit("HTTP/1.1 200 OK");
    reveal_strlit("HTTP/1.1 ");
    reveal_strlit("OK");
    let two = numbers::decimal(2);
    let twenty = numbers::decimal(20);
    assert(two =~= seq!['2']);
    assert(twenty =~= seq!['2', '0']);
    assert(numbers::decimal(200) =~= seq!['2', '0', '0']);
    assert(relay::status_line(200, "OK"@) =~= "HTTP/1.1 200 OK"@);
}

/// The head that goes back has the status and the reason of the upstream's.
pub proof fn heads_go_back(head: http::ResponseHeadModel)
    ensures
        relay::relayed_head_of(head) == http::rendered_head(
            "HTTP/1.1 "@ + numbers::decimal(head.status as nat) + seq![' '] + head.reason,
            relay::relayed_fields(head.headers),
        ),
{
}

/// A body is passed on from what has come in behind its head, in chunks or up
/// to its length as the head says, and what comes in goes behind what is
/// there.
pub proof fn bodies_come_in(
    headers: Seq<(Seq<char>, Seq<char>)>,
    buffered: Seq<u8>,
    relay: relay::RelayModel,
    data: Seq<u8>,
)
    ensures
        ({
            let begun = relay::relay_of(headers, buffered);
            &&& begun.in_chunks == http::chunked(headers)
            &&& begun.remaining == relay::response_length(headers)
            &&& begun.buffered == buffered
            &&& begun.output.len() == 0
        }),
        ({
            let fed = relay::relay_fed(relay, data);
            &&& fed.buffered == relay.buffered + data
            &&& fed.in_chunks == relay.in_chunks && fed.remaining == relay.remaining && fed.output
                == relay.output
        }),
{
}

/// A piece of a body goes to the client as one chunk with its tool names
/// restored, and the last one with the end of the body behind it.
pub proof fn pieces_are_written(body: Seq<u8>, request_body: Seq<u8>)
    ensures
        ({
            let data = rewrite::rewritten(body, request_body);
            let written = if data.len() > 0 {
                encode_utf8(numbers::hex(data.len())) + seq![13u8, 10] + data + seq![13u8, 10]
            } else {
                Seq::empty()
            };
            &&& chunked::piece_of(body, request_body) == written
            &&& chunked::last_piece_of(body, request_body) == written + seq![48u8, 13, 10, 13, 10]
        }),
{
}

/// The answers to a start that Prism has not taken: from the status 400 on it
/// is handed to the client with what Prism said, and what went wrong on the
/// way is told as 502.
pub proof fn starts_that_fail_are_answered(status: u16, said: Seq<char>)
    ensures
        status < 400 ==> prism_reply::start_refusal(status, said) is None,
        status >= 400 ==> prism_reply::start_refusal(status, said) == Some(
            relay::error_answer(
                status,
                "Upstream Prism Error"@,
                "Prism rejected request with HTTP "@ + numbers::decimal(status as nat) + ": "@
                    + said,
            ),
        ),
        prism_reply::bare_refusal(status) == relay::error_answer(
            status,
            "Upstream Prism Error"@,
            "Prism rejected request with HTTP "@ + numbers::decimal(status as nat),
        ),
        prism_reply::start_failure(said) == relay::error_answer(
            502,
            "Bad Gateway"@,
            "Prism start request failed (network or timeout): "@ + said,
        ),
        prism_reply::start_garbled(said) == relay::error_answer(
            502,
            "Bad Gateway"@,
            "Failed to parse Prism start response: "@ + said,
        ),
{
}

/// Where a completion is started and asked after, below a base with any number
/// of slashes at its end.
pub proof fn completions_have_two_places(base: Seq<char>, slashes: Seq<char>)
    requires
        base.len() > 0 ==> base.last() != '/',
        forall|i: int| 0 <= i < slashes.len() ==> #[trigger] slashes[i] == '/',
    ensures
        prism::start_url_of(base + slashes) == base + "/api/llm/response_with_tools_start"@,
        prism::status_url_of(base + slashes) == base + "/api/llm/response_with_tools_status"@,
{
    laws_settings::slashes_are_taken_off(base, slashes);
}

} // verus!
