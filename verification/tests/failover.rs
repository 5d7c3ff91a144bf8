use toolcase_gateway::http::parse_response_head;
use toolcase_gateway::omniroute::{
    advance_proxy, calculate_retry_delay, candidate_models, is_retryable, parse_retry_after,
    plan_proxy, reason_phrase, start_proxy, upstream_request, ProxyAction, ProxyEvent, ProxyState, EXHAUSTED,
};
use toolcase_gateway::reader::{ReadStep, Request, RequestReader};
use toolcase_gateway::relay::error_response;
use toolcase_gateway::routing;

fn field(name: &str, value: &str) -> (String, String) {
    (name.to_string(), value.to_string())
}

fn names(list: &[&str]) -> Vec<String> {
    list.iter().map(|s| s.to_string()).collect()
}

/// Asserts that the next candidate is tried after this delay.
fn assert_next(step: (ProxyState, ProxyAction), index: usize, delay: u64) -> ProxyState {
    match step.1 {
        ProxyAction::TryNext { delay_ms } => assert_eq!(delay_ms, delay),
        _ => panic!("the next candidate was expected"),
    }
    assert_eq!(step.0.index, index);
    step.0
}

#[test]
fn statuses_that_fail_over() {
    let listed = [402, 403, 408, 429, 500, 502, 503, 504, 524];
    for status in 0..1000u16 {
        assert_eq!(is_retryable(status), listed.contains(&status));
    }
}

#[test]
fn fallbacks_rotate() {
    let fallbacks = names(&["gpt-4o-mini", "mistral-large", "llama-3.3-70b"]);
    let body = br#"{"model":"gpt-4o"}"#;
    assert_eq!(
        candidate_models(body, &fallbacks, 0),
        ["gpt-4o", "gpt-4o-mini", "mistral-large", "llama-3.3-70b"]
    );
    assert_eq!(
        candidate_models(body, &fallbacks, 1),
        ["gpt-4o", "mistral-large", "llama-3.3-70b", "gpt-4o-mini"]
    );
    assert_eq!(
        candidate_models(body, &fallbacks, usize::MAX),
        candidate_models(body, &fallbacks, usize::MAX % 3)
    );
}

#[test]
fn no_candidate_comes_twice() {
    let fallbacks = names(&["b", "a", "b"]);
    assert_eq!(candidate_models(br#"{"model": "a"}"#, &fallbacks, 0), ["a", "b"]);
    assert_eq!(candidate_models(b"\xff", &fallbacks, 1), ["a", "b"]);
    assert_eq!(candidate_models(b"{}", &[], 7), [""]);
    assert_eq!(candidate_models(br#"{"model":"m"}"#, &[], 7), ["m"]);
}

#[test]
fn delays_double_up_to_the_longest() {
    assert_eq!(calculate_retry_delay(0, 100, 5000, None), 100);
    assert_eq!(calculate_retry_delay(1, 100, 5000, None), 200);
    assert_eq!(calculate_retry_delay(5, 100, 5000, None), 3200);
    assert_eq!(calculate_retry_delay(6, 100, 5000, None), 5000);
    assert_eq!(calculate_retry_delay(63, 1, u64::MAX, None), 1 << 63);
    assert_eq!(calculate_retry_delay(64, 1, u64::MAX, None), u64::MAX);
    assert_eq!(calculate_retry_delay(64, 0, 5000, None), 0);
    for attempt in 0..200usize {
        let times = 1u64.checked_shl(attempt as u32).unwrap_or(u64::MAX);
        let expected = 7u64.saturating_mul(times).min(1 << 40);
        assert_eq!(calculate_retry_delay(attempt, 7, 1 << 40, None), expected);
    }
}

#[test]
fn the_upstream_may_ask_for_a_delay() {
    let headers = vec![field("Retry-After", " 3 ")];
    assert_eq!(parse_retry_after(&headers), Some(3));
    assert_eq!(calculate_retry_delay(0, 100, 5000, Some(&headers)), 3000);
    assert_eq!(calculate_retry_delay(0, 100, 2000, Some(&headers)), 2000);
    let dated = vec![field("Retry-After", "Wed, 21 Oct 2015 07:28:00 GMT")];
    assert_eq!(parse_retry_after(&dated), None);
    assert_eq!(calculate_retry_delay(2, 100, 5000, Some(&dated)), 400);
    let long = vec![field("retry-after", "18446744073709551615")];
    assert_eq!(calculate_retry_delay(0, 100, 5000, Some(&long)), 5000);
}

#[test]
fn the_first_good_response_is_relayed() {
    let state = start_proxy(3, true, 100, 5000);
    let asked = vec![field("Retry-After", "1")];
    let state = assert_next(
        advance_proxy(state, &ProxyEvent::Head { status: 429, headers: &asked }),
        1,
        1000,
    );
    let state = assert_next(advance_proxy(state, &ProxyEvent::Failed), 2, 200);
    let (state, action) = advance_proxy(state, &ProxyEvent::Head { status: 404, headers: &[] });
    assert!(matches!(action, ProxyAction::Relay));
    assert_eq!(state.last_status, Some(404));
    let (_, action) = advance_proxy(state, &ProxyEvent::Relayed);
    assert!(matches!(action, ProxyAction::End));
}

#[test]
fn exhausted_models_are_answered() {
    let state = start_proxy(2, true, 100, 5000);
    let state = assert_next(
        advance_proxy(state, &ProxyEvent::Head { status: 500, headers: &[] }),
        1,
        100,
    );
    let (last, action) = advance_proxy(state, &ProxyEvent::Head { status: 524, headers: &[] });
    match action {
        ProxyAction::Answer(text) => {
            assert_eq!(text, error_response(524, "Service Unavailable", EXHAUSTED))
        }
        _ => panic!("an error was expected"),
    }
    // A closing error follows the one that has been written.
    match advance_proxy(last, &ProxyEvent::Answered).1 {
        ProxyAction::AnswerAndEnd(text) => {
            assert_eq!(text, error_response(524, "Bad Gateway", EXHAUSTED))
        }
        _ => panic!("an error was expected"),
    }
    match advance_proxy(last, &ProxyEvent::BrokenOff).1 {
        ProxyAction::AnswerAndEnd(text) => {
            assert_eq!(text, error_response(502, "Bad Gateway", EXHAUSTED))
        }
        _ => panic!("an error was expected"),
    }
    match advance_proxy(state, &ProxyEvent::Failed).1 {
        ProxyAction::AnswerAndEnd(text) => {
            assert_eq!(text, error_response(502, "Internal Server Error", EXHAUSTED))
        }
        _ => panic!("an error was expected"),
    }
}

#[test]
fn a_response_that_breaks_off_is_a_failure() {
    let state = start_proxy(2, true, 100, 5000);
    let (state, action) = advance_proxy(state, &ProxyEvent::Head { status: 200, headers: &[] });
    assert!(matches!(action, ProxyAction::Relay));
    let state = assert_next(advance_proxy(state, &ProxyEvent::BrokenOff), 1, 100);
    assert_eq!(state.last_status, Some(200));
    match advance_proxy(state, &ProxyEvent::BrokenOff).1 {
        ProxyAction::AnswerAndEnd(text) => {
            assert_eq!(text, error_response(502, "Bad Gateway", EXHAUSTED))
        }
        _ => panic!("an error was expected"),
    }
}

#[test]
fn plans_fail_over_with_fallbacks_alone() {
    let plan = plan_proxy(br#"{"model":"a"}"#, &names(&["b", "c"]), 1, 100, 5000);
    assert_eq!(plan.candidates, ["a", "c", "b"]);
    assert_eq!(plan.state, start_proxy(3, true, 100, 5000));
    let plan = plan_proxy(br#"{"model":"a"}"#, &[], 1, 100, 5000);
    assert_eq!(plan.candidates, ["a"]);
    assert_eq!(plan.state, start_proxy(1, false, 100, 5000));
    let (_, action) = advance_proxy(plan.state, &ProxyEvent::Head { status: 429, headers: &[] });
    assert!(matches!(action, ProxyAction::Relay));
    let plan = routing::plan_serve(br#"{"model":"a"}"#, &names(&["a"]), 0, 1, 2);
    assert_eq!(plan.candidates, ["a"]);
    assert_eq!(plan.state, routing::start_serve(1, true, 1, 2));
    assert!(!routing::plan_serve(b"", &[], 0, 1, 2).state.failover);
}

#[test]
fn a_failure_behind_the_last_model_is_answered() {
    let state = start_proxy(2, true, 100, 5000);
    let state = assert_next(
        advance_proxy(state, &ProxyEvent::Head { status: 429, headers: &[] }),
        1,
        100,
    );
    match advance_proxy(state, &ProxyEvent::Failed).1 {
        ProxyAction::AnswerAndEnd(text) => {
            assert_eq!(text, error_response(502, "Too Many Requests", EXHAUSTED));
            let head = parse_response_head(text.as_bytes()).unwrap();
            assert_eq!(head.status, 502);
        }
        _ => panic!("an error was expected"),
    }
}

#[test]
fn without_fallbacks_every_response_is_relayed() {
    let state = start_proxy(1, false, 100, 5000);
    let (_, action) = advance_proxy(state, &ProxyEvent::Head { status: 503, headers: &[] });
    assert!(matches!(action, ProxyAction::Relay));
}

#[test]
fn statuses_have_reasons() {
    assert_eq!(reason_phrase(Some(408), "x"), "Request Timeout");
    assert_eq!(reason_phrase(Some(429), "x"), "Too Many Requests");
    assert_eq!(reason_phrase(Some(500), "x"), "Internal Server Error");
    assert_eq!(reason_phrase(Some(502), "x"), "Bad Gateway");
    assert_eq!(reason_phrase(Some(503), "x"), "Service Unavailable");
    assert_eq!(reason_phrase(Some(504), "x"), "Gateway Timeout");
    assert_eq!(reason_phrase(Some(402), "x"), "x");
    assert_eq!(reason_phrase(None, "x"), "x");
}

#[test]
fn forwarded_requests_are_read_as_meant() {
    let request = Request {
        method: "POST".into(),
        path: "/v1/chat/completions?x=1".into(),
        headers: vec![
            field("Host", "gateway"),
            field("Authorization", "Bearer k"),
            field("Transfer-Encoding", "chunked"),
            field("Connection", "upgrade"),
            field("Upgrade", "h2c"),
            field("content-length", "99"),
        ],
        body: br#"{"model":"a","n":1}"#.to_vec(),
    };
    let sent = upstream_request(&request, "upstream", 8080, "10.0.0.1", "b\"c");
    assert_eq!(
        String::from_utf8(sent.clone()).unwrap(),
        "POST /v1/chat/completions?x=1 HTTP/1.1\r\nAuthorization: Bearer k\r\nHost: upstream:8080\r\nAccept-Encoding: identity\r\nX-Forwarded-For: 10.0.0.1\r\nX-Real-Ip: 10.0.0.1\r\nX-Forwarded-Proto: http\r\nContent-Length: 22\r\nConnection: close\r\n\r\n{\"model\":\"b\\\"c\",\"n\":1}"
    );
    let read = match RequestReader::new().feed(&sent) {
        ReadStep::Done(read) => read,
        _ => panic!("one request was expected"),
    };
    assert_eq!(read.method, "POST");
    assert_eq!(read.path, request.path);
    assert_eq!(read.headers.len(), 8);
    assert_eq!(read.body, br#"{"model":"b\"c","n":1}"#);
}

#[test]
fn the_plain_proxy_greets() {
    assert!(routing::is_greeting("head", "/api/hello"));
    assert!(!routing::is_greeting("GET", "/api/hello"));
    assert!(!routing::is_greeting("HEAD", "/api/hello/"));
    assert_eq!(
        routing::hello_response(),
        "HTTP/1.1 200 OK\r\nContent-Length: 0\r\nX-Content-Type-Options: nosniff\r\nConnection: close\r\n\r\n"
    );
    let head = parse_response_head(routing::hello_response().as_bytes()).unwrap();
    assert_eq!((head.status, head.headers.len()), (200, 3));
}

#[test]
fn the_plain_proxy_waits_as_asked() {
    assert_eq!(routing::calculate_retry_delay(1, 100, 5000, None), 100);
    assert_eq!(routing::calculate_retry_delay(3, 100, 5000, None), 400);
    assert_eq!(routing::calculate_retry_delay(0, 100, 5000, None), 100);
    assert_eq!(routing::calculate_retry_delay(9, 100, 5000, None), 5000);
    assert_eq!(routing::calculate_retry_delay(1, 100, 5000, Some(60)), 60000);
    assert_eq!(routing::parse_retry_after(&[field("Retry-After", "7")]), Some(7));
    assert_eq!(routing::parse_retry_after(&[field("Retry-After", " 7")]), None);
}

#[test]
fn the_plain_proxy_fails_over() {
    let candidates = routing::request_candidates(br#"{"model":"a"}"#, &names(&["b"]), 0);
    assert_eq!(candidates, ["a", "b"]);
    let state = routing::start_serve(2, true, 100, 5000);
    let (state, action) = routing::serve_head(state, 500, &[field("Retry-After", "2")]);
    assert!(matches!(action, routing::ServeAction::TryNext { delay_ms: 2000 }));
    assert_eq!((state.index, state.last_status), (1, Some(500)));
    match routing::serve_failure(state).1 {
        routing::ServeAction::Answer(text) => assert_eq!(
            text,
            error_response(500, "Internal Server Error", routing::UNAVAILABLE)
        ),
        _ => panic!("an error was expected"),
    }
    match routing::serve_head(state, 429, &[]).1 {
        routing::ServeAction::Answer(text) => {
            assert_eq!(text, error_response(429, "Service Unavailable", EXHAUSTED))
        }
        _ => panic!("an error was expected"),
    }
    assert!(matches!(
        routing::serve_head(state, 200, &[]).1,
        routing::ServeAction::Relay
    ));
    let (state, action) = routing::serve_failure(routing::start_serve(2, true, 100, 5000));
    assert!(matches!(action, routing::ServeAction::TryNext { delay_ms: 100 }));
    match routing::serve_failure(state).1 {
        routing::ServeAction::Answer(text) => {
            assert_eq!(text, error_response(502, "Bad Gateway", routing::UNAVAILABLE))
        }
        _ => panic!("an error was expected"),
    }
}

#[test]
fn the_plain_proxy_sends_one_response() {
    let start = routing::start_serve(2, true, 100, 5000);
    let (state, action) = routing::serve_head(start, 200, &[]);
    assert!(matches!(action, routing::ServeAction::Relay));
    assert!(state.settled);
    for complete in [true, false] {
        match routing::serve_relayed(state, complete).1 {
            routing::ServeAction::End { complete: told } => assert_eq!(told, complete),
            _ => panic!("the end was expected"),
        }
    }
    assert!(matches!(
        routing::serve_failure(state).1,
        routing::ServeAction::End { complete: false }
    ));
    assert!(matches!(
        routing::serve_head(state, 500, &[]).1,
        routing::ServeAction::End { complete: false }
    ));
    let (state, _) = routing::serve_failure(start);
    let (state, action) = routing::serve_failure(state);
    assert!(matches!(action, routing::ServeAction::Answer(_)));
    assert!(matches!(
        routing::serve_failure(state).1,
        routing::ServeAction::End { complete: false }
    ));
}
