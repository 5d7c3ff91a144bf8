use serde_json::Value;
use toolcase_gateway::chunked::encode_last_chunk;
use toolcase_gateway::completion::{chat_completion, json_response};
use toolcase_gateway::config::Config;
use toolcase_gateway::http::{
    header_value, is_chunked, is_hop_by_hop, is_request_target, is_token, parse_headers,
    parse_response_head, HOP_BY_HOP,
};
use toolcase_gateway::ids::{fresh_completion_id, fresh_conversation_id};
use toolcase_gateway::omniroute::{upstream_request, RETRYABLE};
use toolcase_gateway::prism::{
    build_injected_prism_inputs, extract_credentials, flexible_content, resolve_model,
    start_headers, start_request, start_url, status_headers, status_url, ContentPart,
    ContentValue, OpenAiChatRequest, OpenAiMessage,
};
use toolcase_gateway::prism_reply::{
    advance_poll, begin_poll, PollEvent, PrismInnerResponse, PrismOutputContent,
    PrismOutputMessage, PrismPayload, PrismResponse, PrismStep,
};
use toolcase_gateway::reader::{ReadStep, Request, RequestReader};
use toolcase_gateway::relay::{BodyRelay, RelayStep};
use toolcase_gateway::rewrite::{escape_json_string, replace_model, rewrite_tool_names};
use toolcase_gateway::routes::{cors_preflight_response, models_catalog_response};

fn config(base_url: &str, fallbacks: Vec<String>, prompt: &str) -> Config {
    Config {
        target_host: "127.0.0.1".into(),
        target_port: 8080,
        fallbacks,
        io_timeout: None,
        retry_base_delay_ms: 100,
        max_retry_delay_ms: 1000,
        prism_base_url: base_url.into(),
        prism_project_id: "default_proj".into(),
        prism_cookie: "default_cookie".into(),
        prism_sandbox_token: "default_token".into(),
        prism_user_id: "default_user".into(),
        prism_default_model: "gpt-5.6-sol".into(),
        prism_system_prompt: prompt.into(),
    }
}

fn read_request(bytes: &[u8]) -> Request {
    match RequestReader::new().feed(bytes) {
        ReadStep::Done(request) => request,
        ReadStep::More(_) => panic!("request incomplete"),
        ReadStep::Failed(error) => panic!("request refused: {:?}", error),
    }
}

fn text_at(value: &Value, key: &str) -> Option<String> {
    value.get(key).and_then(|v| v.as_str()).map(|s| s.to_string())
}

fn content_value(value: &Value) -> ContentValue {
    match value {
        Value::String(s) => ContentValue::Text(s.clone()),
        Value::Array(items) => ContentValue::Parts(
            items
                .iter()
                .map(|item| match (text_at(item, "text"), item.as_str()) {
                    (Some(text), _) => ContentPart::Object { text },
                    (None, Some(s)) => ContentPart::Text(s.to_string()),
                    (None, None) => ContentPart::Other,
                })
                .collect(),
        ),
        other => ContentValue::Other(other.to_string()),
    }
}

fn chat_request(body: &[u8]) -> OpenAiChatRequest {
    let json: Value = serde_json::from_slice(body).unwrap();
    OpenAiChatRequest {
        model: text_at(&json, "model"),
        messages: json["messages"]
            .as_array()
            .unwrap()
            .iter()
            .map(|m| OpenAiMessage {
                role: text_at(m, "role").unwrap(),
                content: flexible_content(&content_value(&m["content"])),
            })
            .collect(),
        stream: json.get("stream").and_then(|v| v.as_bool()),
        reasoning_effort: text_at(&json, "reasoning_effort"),
    }
}

fn prism_reply(body: &str) -> PrismResponse<Value> {
    let json: Value = serde_json::from_str(body).unwrap();
    PrismResponse {
        status: text_at(&json, "status"),
        request_id: text_at(&json, "request_id"),
        turn_state: json.get("turn_state").cloned(),
        response: json.get("response").map(|inner| PrismInnerResponse {
            status: text_at(inner, "status"),
            payload: inner.get("payload").map(|payload| PrismPayload {
                message: text_at(payload, "message"),
                output: payload.get("output").map(|output| {
                    output
                        .as_array()
                        .unwrap()
                        .iter()
                        .map(|message| PrismOutputMessage {
                            content: message.get("content").map(|content| {
                                content
                                    .as_array()
                                    .unwrap()
                                    .iter()
                                    .map(|item| PrismOutputContent { text: text_at(item, "text") })
                                    .collect()
                            }),
                        })
                        .collect()
                }),
            }),
        }),
    }
}

#[test]
fn replaces_model_without_changing_other_fields() {
    assert_eq!(
        replace_model(br#"{"model":"old","tools":[]}"#, "fail-try"),
        br#"{"model":"fail-try","tools":[]}"#
    );
}

#[test]
fn keeps_413_out_of_retry_statuses() {
    assert!(!RETRYABLE.contains(&413));
    assert!(RETRYABLE.contains(&429));
    assert!(RETRYABLE.contains(&500));
}

#[test]
fn rewrites_tool_name_after_chunked_body_is_decoded() {
    let request = br#"{"tools":[{"name":"MyTool"}]}"#;
    let decoded = br#"{"name":"mytool"}"#;
    assert_eq!(
        rewrite_tool_names(decoded, request),
        br#"{"name":"MyTool"}"#
    );
}

#[test]
fn rewrite_needs_full_name_pair() {
    let request = br#"{"tools":[{"name":"MyTool"}]}"#;
    assert_eq!(
        rewrite_tool_names(br#"{"name":"my"#, request),
        br#"{"name":"my"#
    );
    assert_eq!(rewrite_tool_names(br#"tool"}"#, request), br#"tool"}"#);
    let mut joined = rewrite_tool_names(br#"{"name":"my"#, request);
    joined.extend_from_slice(br#"tool"}"#);
    assert_eq!(
        rewrite_tool_names(&joined, request),
        br#"{"name":"MyTool"}"#
    );
}

#[test]
fn rewrites_tool_name_with_space_after_colon() {
    let request = br#"{"tools":[{"name":"MyTool"}]}"#;
    let decoded = br#"{"name": "mytool"}"#;
    assert_eq!(
        rewrite_tool_names(decoded, request),
        br#"{"name": "MyTool"}"#
    );
}

#[test]
fn filters_framing_headers() {
    let expected: [&str; 8] = [
        "connection",
        "keep-alive",
        "proxy-authenticate",
        "proxy-authorization",
        "te",
        "trailer",
        "transfer-encoding",
        "upgrade",
    ];
    assert_eq!(HOP_BY_HOP, expected);
    assert!(HOP_BY_HOP
        .iter()
        .any(|h| h.eq_ignore_ascii_case("transfer-encoding")));
    assert!(!["content-type", "content-length"]
        .iter()
        .any(|h| { HOP_BY_HOP.iter().any(|x| x.eq_ignore_ascii_case(h)) }));
    assert!(is_hop_by_hop("Transfer-Encoding"));
    assert!(!is_hop_by_hop("content-type"));
    assert!(!is_hop_by_hop("content-length"));
}

#[test]
fn forces_identity_encoding_upstream() {
    let request = Request {
        method: "GET".into(),
        path: "/dashboard".into(),
        headers: vec![("Accept-Encoding".into(), "gzip, br".into())],
        body: br#"{"model":"m","tools":[{"name":"MyTool"}]}"#.to_vec(),
    };
    let config = Config {
        target_host: "127.0.0.1".into(),
        target_port: 20128,
        fallbacks: vec![],
        io_timeout: Some(5),
        retry_base_delay_ms: 100,
        max_retry_delay_ms: 5000,
        prism_base_url: "https://prism.openai.com".into(),
        prism_project_id: "0f6fa2ad-f391-4d28-9770-e3d6d511f80c".into(),
        prism_cookie: "".into(),
        prism_sandbox_token: "".into(),
        prism_user_id: "".into(),
        prism_default_model: "gpt-5.6-sol".into(),
        prism_system_prompt: "".into(),
    };
    let sent = upstream_request(
        &request,
        &config.target_host,
        config.target_port,
        "127.0.0.1",
        "m",
    );
    let end = sent.windows(4).position(|w| w == b"\r\n\r\n").unwrap() + 4;
    let head = String::from_utf8(sent[..end].to_vec())
        .unwrap()
        .to_ascii_lowercase();
    let content_length = head
        .lines()
        .find_map(|line| line.strip_prefix("content-length:"))
        .unwrap()
        .trim()
        .parse::<usize>()
        .unwrap();
    assert_eq!(sent.len() - end, content_length);
    let encodings: Vec<_> = head
        .lines()
        .filter(|line| line.starts_with("accept-encoding:"))
        .collect();
    assert_eq!(encodings, ["accept-encoding: identity"]);
    assert!(!head.contains("gzip"));

    let body = br#"{"name":"mytool"}"#;
    let mut answer = format!(
        "HTTP/1.1 200 OK\r\nContent-Type: application/json\r\nContent-Length: {}\r\n\r\n",
        body.len()
    )
    .into_bytes();
    answer.extend_from_slice(body);
    let head = parse_response_head(&answer).unwrap();
    let length = header_value(&head.headers, "content-length")
        .unwrap()
        .parse::<usize>()
        .unwrap();
    let mut body = head.buffered_body;
    body.truncate(length);
    assert_eq!(head.status, 200);
    assert_eq!(
        rewrite_tool_names(&body, &request.body),
        br#"{"name":"MyTool"}"#
    );
    let mut relay = BodyRelay::new(&head.headers, body);
    match relay.advance() {
        RelayStep::Piece(piece) => assert!(piece.is_empty()),
        _ => panic!("a piece was expected"),
    }
    match relay.advance() {
        RelayStep::Finish(piece) => assert_eq!(
            encode_last_chunk(&piece, &request.body),
            b"11\r\n{\"name\":\"MyTool\"}\r\n0\r\n\r\n"
        ),
        _ => panic!("the end was expected"),
    }
}

#[test]
fn rejects_conflicting_framing_headers() {
    let headers = vec![
        ("Transfer-Encoding".to_string(), "chunked".to_string()),
        ("Content-Length".to_string(), "7".to_string()),
    ];
    assert!(is_chunked(&headers));
    let lengths = headers
        .iter()
        .filter(|(k, _)| k.eq_ignore_ascii_case("content-length"))
        .count();
    assert_eq!(lengths, 1);
}

#[test]
fn rejects_header_injection_in_names() {
    assert!(is_token("Content-Type"));
    assert!(!is_token("Content Type"));
    assert!(!is_token(""));
    assert!(parse_headers(&["X-Bad : 1".to_string()]).is_err());
    assert!(parse_headers(&["X-Good: 1".to_string()]).is_ok());
}

#[test]
fn rejects_malformed_request_targets() {
    assert!(is_request_target("/v1/chat/completions"));
    assert!(!is_request_target("/pa th"));
    assert!(!is_request_target(""));
}

#[test]
fn error_body_escapes_message() {
    assert_eq!(escape_json_string("a\"b\\c"), "a\\\"b\\\\c");
}

#[test]
fn extracts_prism_credentials_with_sentinel_and_triple_pipe() {
    let config = config("https://prism.openai.com", vec![], "");
    let headers = vec![
        (
            "Authorization".to_string(),
            "Bearer custom_cookie_val; a=b|||cookie_tail|||custom_sentinel|||custom_token|||custom_user|||custom_proj"
                .to_string(),
        ),
        (
            "openai-sentinel-token".to_string(),
            "test_sentinel_token_123".to_string(),
        ),
    ];

    let creds = extract_credentials(&headers, &config);
    assert_eq!(creds.cookie, "custom_cookie_val; a=b|||cookie_tail");
    assert_eq!(creds.sentinel_token.as_deref(), Some("custom_sentinel"));
    assert_eq!(creds.sandbox_token, "custom_token");
    assert_eq!(creds.user_id, "custom_user");
    assert_eq!(creds.project_id, "custom_proj");
}

#[test]
fn extracts_prism_credentials_from_x_api_key() {
    let config = config("https://prism.openai.com", vec![], "");
    let headers = vec![(
        "x-api-key".to_string(),
        "cookie|||{\"p\":\"sentinel\"}|||sandbox|||user|||project".to_string(),
    )];

    let creds = extract_credentials(&headers, &config);

    assert_eq!(creds.cookie, "cookie");
    assert_eq!(creds.sentinel_token.as_deref(), Some(r#"{"p":"sentinel"}"#));
    assert_eq!(creds.sandbox_token, "sandbox");
    assert_eq!(creds.user_id, "user");
    assert_eq!(creds.project_id, "project");
}

#[test]
fn extracts_prism_credentials_with_comma_delimiter() {
    let config = config("https://prism.openai.com", vec![], "");
    let headers = vec![(
        "x-api-key".to_string(),
        "cookie_part1, cookie_part2; key=val, token_123, user_456, proj_789".to_string(),
    )];

    let creds = extract_credentials(&headers, &config);
    assert_eq!(creds.cookie, "cookie_part1, cookie_part2; key=val");
    assert_eq!(creds.sandbox_token, "token_123");
    assert_eq!(creds.user_id, "user_456");
    assert_eq!(creds.project_id, "proj_789");
    assert_eq!(creds.sentinel_token, None);
}

#[test]
fn falls_back_to_config_credentials_when_header_is_missing_or_short() {
    let config = config("https://prism.openai.com", vec![], "");
    let headers = vec![(
        "Authorization".to_string(),
        "Bearer sk-singlekey".to_string(),
    )];
    let creds = extract_credentials(&headers, &config);
    assert_eq!(creds.cookie, "default_cookie");
    assert_eq!(creds.sandbox_token, "default_token");
    assert_eq!(creds.user_id, "default_user");
    assert_eq!(creds.project_id, "default_proj");

    let creds = extract_credentials(&[], &config);
    assert_eq!(creds.cookie, "default_cookie");
    assert_eq!(creds.project_id, "default_proj");
}

#[test]
fn test_models_catalog_response() {
    let config = config(
        "https://prism.openai.com",
        vec!["fallback-1".into(), "fallback-2".into()],
        "",
    );
    let answer = models_catalog_response(&config.prism_default_model);
    let head = parse_response_head(answer.as_bytes()).unwrap();
    assert_eq!(head.status, 200);
    let body = head.buffered_body;
    let length = header_value(&head.headers, "content-length")
        .unwrap()
        .parse::<usize>()
        .unwrap();
    assert_eq!(body.len(), length);
    let json: Value = serde_json::from_slice(&body[..length]).unwrap();
    assert_eq!(json["object"], "list");
    let models = json["data"].as_array().unwrap();
    assert_eq!(models.len(), 5);
    assert!(models
        .iter()
        .all(|model| { !model["id"].as_str().unwrap().contains("terra") }));
    assert!(models
        .iter()
        .any(|model| model["id"] == "gpt-5.6-sol-xhigh"));
}

#[test]
fn test_prism_successful_start_and_status_flow() {
    let expected_base_url = "http://127.0.0.1:8080";
    let config = config(expected_base_url, vec![], "Injected system");
    let openai_req = r#"{
        "model":"gpt-5.6-sol-xhigh",
        "messages":[{"role":"user","content":"hello"}]
    }"#;
    let api_key = "session=cookie-value|||cookie-tail|||{\"p\":\"packed-sentinel\"}|||sandbox_flow|||user_flow|||proj_flow";
    let request = read_request(
        format!(
            "POST /prism-openai/v1/chat/completions HTTP/1.1\r\nHost: 127.0.0.1:20129\r\nx-api-key: {api_key}\r\nContent-Length: {}\r\n\r\n{}",
            openai_req.len(),
            openai_req
        )
        .as_bytes(),
    );
    let chat = chat_request(&request.body);
    let creds = extract_credentials(&request.headers, &config);

    assert_eq!(
        start_url(&config.prism_base_url),
        "http://127.0.0.1:8080/api/llm/response_with_tools_start"
    );
    let headers = start_headers(&config.prism_base_url, &creds, &request.headers);
    assert_eq!(
        header_value(&headers, "cookie"),
        Some("session=cookie-value|||cookie-tail")
    );
    assert_eq!(
        header_value(&headers, "openai-sentinel-token"),
        Some(r#"{"p":"packed-sentinel"}"#)
    );
    assert_eq!(header_value(&headers, "origin"), Some(expected_base_url));
    assert_eq!(
        header_value(&headers, "referer"),
        Some(format!("{expected_base_url}/?u=proj_flow").as_str())
    );

    let start = start_request(&chat, &config, &creds, fresh_conversation_id());
    assert_eq!(start.metadata.project_id, "proj_flow");
    assert_eq!(start.metadata.user_id, "user_flow");
    assert_eq!(start.metadata.sandbox_token, "sandbox_flow");
    assert_eq!(start.metadata.model, "gpt-5.6-sol");
    assert_eq!(start.metadata.reasoning_effort, "xhigh");

    let start_body = r#"{
        "status":"running",
        "request_id":"request_flow",
        "turn_state":{"step":1}
    }"#;
    let poll = match begin_poll(prism_reply(start_body)) {
        PrismStep::Poll(poll) => poll,
        _ => panic!("the completion is not finished"),
    };

    assert_eq!(
        status_url(&config.prism_base_url),
        "http://127.0.0.1:8080/api/llm/response_with_tools_status"
    );
    let headers = status_headers(&config.prism_base_url, &creds, &request.headers);
    assert_eq!(
        header_value(&headers, "cookie"),
        Some("session=cookie-value|||cookie-tail")
    );
    assert_eq!(
        header_value(&headers, "openai-sentinel-token"),
        Some(r#"{"p":"packed-sentinel"}"#)
    );
    assert_eq!(poll.request_id, "request_flow");
    assert_eq!(poll.turn_state["step"], 1);

    let status_body = r#"{
        "status":"completed",
        "response":{
            "status":"completed",
            "payload":{
                "output":[{"content":[{"type":"output_text","text":"flow works"}]}]
            }
        }
    }"#;
    let text = match advance_poll(poll, PollEvent::Reply(prism_reply(status_body))) {
        PrismStep::Finished(text) => text,
        _ => panic!("the completion is finished"),
    };
    let (model, _) = resolve_model(&chat, &config.prism_default_model);
    let response = chat_completion(fresh_completion_id(), 1, model, text, request.body.len());
    assert_eq!(response.model, "gpt-5.6-sol");
    assert_eq!(response.choices[0].message.content, "flow works");
    assert_eq!(response.choices[0].message.role, "assistant");
    assert_eq!(response.usage.completion_tokens, 2);
    let answer = json_response("{}");
    let head = parse_response_head(answer.as_bytes()).unwrap();
    assert_eq!(head.status, 200);
    assert_eq!(header_value(&head.headers, "content-length"), Some("2"));
}

#[test]
fn test_cors_preflight_response() {
    let answer = cors_preflight_response();
    let head = parse_response_head(answer.as_bytes()).unwrap();
    assert_eq!(head.status, 200);
    assert_eq!(
        header_value(&head.headers, "access-control-allow-origin"),
        Some("*")
    );
}

#[test]
fn test_build_injected_prism_inputs_no_system() {
    let messages = vec![OpenAiMessage {
        role: "user".into(),
        content: "hello".into(),
    }];
    let prompt = "You are a test prompt";
    let prism_inputs = build_injected_prism_inputs(&messages, prompt);

    assert_eq!(prism_inputs.len(), 2);
    assert_eq!(prism_inputs[0].role, "system");
    assert!(prism_inputs[0].content[0]
        .text
        .starts_with("You are a test prompt"));

    assert_eq!(prism_inputs[1].role, "user");
    assert_eq!(prism_inputs[1].content[0].text, "hello");
}

#[test]
fn test_build_injected_prism_inputs_with_system() {
    let messages = vec![
        OpenAiMessage {
            role: "system".into(),
            content: "{\"openFile\": \"main.rs\"}".into(),
        },
        OpenAiMessage {
            role: "user".into(),
            content: "hello".into(),
        },
    ];
    let prompt = "You are a test prompt";
    let prism_inputs = build_injected_prism_inputs(&messages, prompt);

    assert_eq!(prism_inputs.len(), 2);
    assert_eq!(prism_inputs[0].role, "system");
    // Injection should be prepended
    assert!(prism_inputs[0].content[0]
        .text
        .starts_with("You are a test prompt"));
    assert!(prism_inputs[0].content[0]
        .text
        .contains("{\"openFile\": \"main.rs\"}"));

    assert_eq!(prism_inputs[1].role, "user");
    assert_eq!(prism_inputs[1].content[0].text, "hello");
}

#[test]
fn test_prism_403_forbidden_error_mapping() {
    let config = config("http://127.0.0.1:8080", vec![], "Injected system");
    let openai_req = r#"{
        "model": "gpt-5.6-sol-high",
        "messages": [
            {"role": "user", "content": "hello"}
        ]
    }"#;
    let request = read_request(
        format!(
            "POST /prism-openai/v1/chat/completions HTTP/1.1\r\nHost: 127.0.0.1:20129\r\nx-api-key: cookie|||test_sentinel_token_123|||token|||user|||proj_403\r\nContent-Length: {}\r\n\r\n{}",
            openai_req.len(),
            openai_req
        )
        .as_bytes(),
    );
    let chat = chat_request(&request.body);
    let creds = extract_credentials(&request.headers, &config);
    assert!(start_url(&config.prism_base_url).ends_with("/api/llm/response_with_tools_start"));
    let start = start_request(&chat, &config, &creds, fresh_conversation_id());
    assert_eq!(start.metadata.project_id, "proj_403");
    let headers = start_headers(&config.prism_base_url, &creds, &request.headers);
    assert_eq!(header_value(&headers, "cookie"), Some("cookie"));
    let sentinel = header_value(&headers, "openai-sentinel-token");
    assert_eq!(sentinel, Some("test_sentinel_token_123"));

    let mock_resp = r#"{
        "status": "completed",
        "request_id": "req_123",
        "response": {
            "status": "error",
            "payload": {
                "message": "Error while processing conversation (403 Forbidden). Submit prompt again."
            }
        }
    }"#;
    let answer = match begin_poll(prism_reply(mock_resp)) {
        PrismStep::Refused(answer) => answer,
        _ => panic!("the completion has failed"),
    };
    let head = parse_response_head(answer.as_bytes()).unwrap();
    assert_eq!(
        head.status, 403,
        "Should map inner Prism 403 Forbidden to HTTP 403"
    );
    assert_eq!(head.reason, "Forbidden");
    let length: usize = header_value(&head.headers, "content-length")
        .unwrap()
        .parse()
        .unwrap();
    assert_eq!(head.buffered_body.len(), length);
    let resp: Value = serde_json::from_slice(&head.buffered_body).unwrap();
    assert_eq!(
        resp["error"]["message"],
        "Prism error: Error while processing conversation (403 Forbidden). Submit prompt again."
    );
}
