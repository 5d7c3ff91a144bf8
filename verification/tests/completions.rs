use toolcase_gateway::completion::{
    chat_chunks, chat_completion, json_response, stream_event, stream_head, STREAM_END,
};
use toolcase_gateway::config::{read_settings, Config};
use toolcase_gateway::http::parse_response_head;
use toolcase_gateway::ids::{
    completion_id, conversation_id, fresh_completion_id, fresh_conversation_id,
};
use toolcase_gateway::prism::{
    build_injected_prism_inputs, extract_credentials, flexible_content, normalize_effort,
    resolve_model, split_effort, split_last, start_headers, start_request, status_headers,
    ContentPart, ContentValue, OpenAiChatRequest, OpenAiMessage,
};
use toolcase_gateway::prism_reply::{
    advance_poll, begin_poll, check_start, extract_text_from_output, failed_start,
    failure_response, refused_start, unreadable_start, PollEvent, PollState, PrismInnerResponse,
    PrismOutputContent, PrismOutputMessage, PrismPayload, PrismResponse, PrismStep, MAX_POLLS,
};
use toolcase_gateway::relay::error_response;

fn field(name: &str, value: &str) -> (String, String) {
    (name.to_string(), value.to_string())
}

fn config() -> Config {
    read_settings(&[field("GW_PRISM_BASE_URL", "https://prism.example//")]).config
}

fn message(role: &str, content: &str) -> OpenAiMessage {
    OpenAiMessage { role: role.to_string(), content: content.to_string() }
}

fn request(model: Option<&str>, effort: Option<&str>) -> OpenAiChatRequest {
    OpenAiChatRequest {
        model: model.map(|s| s.to_string()),
        messages: vec![message("user", "hi")],
        stream: None,
        reasoning_effort: effort.map(|s| s.to_string()),
    }
}

fn resolved(model: Option<&str>, effort: Option<&str>) -> (String, String) {
    resolve_model(&request(model, effort), "base-high")
}

fn pair(a: &str, b: &str) -> (String, String) {
    field(a, b)
}

fn content(texts: &[Option<&str>]) -> PrismOutputMessage {
    PrismOutputMessage {
        content: Some(
            texts
                .iter()
                .map(|t| PrismOutputContent { text: t.map(|s| s.to_string()) })
                .collect(),
        ),
    }
}

fn reply(
    status: Option<&str>,
    request_id: Option<&str>,
    turn_state: Option<u32>,
    inner: Option<PrismInnerResponse>,
) -> PrismResponse<u32> {
    PrismResponse {
        status: status.map(|s| s.to_string()),
        request_id: request_id.map(|s| s.to_string()),
        turn_state,
        response: inner,
    }
}

fn inner(
    status: Option<&str>,
    text: Option<&str>,
    said: Option<&str>,
) -> Option<PrismInnerResponse> {
    Some(PrismInnerResponse {
        status: status.map(|s| s.to_string()),
        payload: Some(PrismPayload {
            output: text.map(|t| vec![content(&[Some(t)])]),
            message: said.map(|s| s.to_string()),
        }),
    })
}

fn finished(step: PrismStep<u32>) -> String {
    match step {
        PrismStep::Finished(text) => text,
        _ => panic!("a text was expected"),
    }
}

fn polling(step: PrismStep<u32>) -> PollState<u32> {
    match step {
        PrismStep::Poll(state) => state,
        _ => panic!("a poll was expected"),
    }
}

fn refusal(step: PrismStep<u32>) -> String {
    match step {
        PrismStep::Refused(answer) => answer,
        _ => panic!("an error was expected"),
    }
}

#[test]
fn contents_are_flattened() {
    assert_eq!(flexible_content(&ContentValue::Text("a".into())), "a");
    assert_eq!(flexible_content(&ContentValue::Other("{\"a\":1}".into())), "{\"a\":1}");
    assert_eq!(
        flexible_content(&ContentValue::Parts(vec![
            ContentPart::Text("a".into()),
            ContentPart::Other,
            ContentPart::Object { text: "b".into() },
        ])),
        "ab"
    );
    assert_eq!(flexible_content(&ContentValue::Parts(vec![])), "");
}

#[test]
fn efforts_are_split_off_models() {
    assert_eq!(split_effort("m-xhigh"), ("m".to_string(), Some("xhigh".to_string())));
    assert_eq!(split_effort("m-low-high"), ("m-low".to_string(), Some("high".to_string())));
    assert_eq!(split_effort("-medium"), ("".to_string(), Some("medium".to_string())));
    assert_eq!(split_effort("m-Low"), ("m-Low".to_string(), None));
    assert_eq!(split_effort("low"), ("low".to_string(), None));
}

#[test]
fn models_and_efforts_are_resolved() {
    assert_eq!(resolved(Some("m"), None), pair("m", "medium"));
    assert_eq!(resolved(Some("m-low"), None), pair("m", "low"));
    assert_eq!(resolved(Some("m-medium"), None), pair("m", "medium"));
    assert_eq!(resolved(Some("m-high"), None), pair("m", "high"));
    assert_eq!(resolved(Some("m-xhigh"), None), pair("m", "xhigh"));
    assert_eq!(resolved(None, None), pair("base", "high"));
    assert_eq!(resolved(Some("m-low"), Some("XHighT")), pair("m", "xhigh"));
    assert_eq!(resolved(Some("m-low"), Some("extreme")), pair("m", "medium"));
    assert_eq!(resolved(Some("m-low"), Some("")), pair("m", "medium"));
}

#[test]
fn efforts_are_lower_cased_as_by_std() {
    let known = |effort: &str| {
        let mut lower = effort.to_lowercase();
        if lower == "xhight" {
            lower = "xhigh".to_string();
        }
        if !["low", "medium", "high", "xhigh"].contains(&lower.as_str()) {
            lower = "medium".to_string();
        }
        lower
    };
    for word in ["low", "medium", "high", "xhigh", "xhight", "LOW", "MeDium", "xHIGH", "none"] {
        assert_eq!(normalize_effort(word), known(word));
    }
    for c in (0u32..0x110000).filter_map(char::from_u32) {
        for (front, back) in [("l", "w"), ("", "ow"), ("h", "gh"), ("xhig", "t"), ("lo", "")] {
            let word = format!("{front}{c}{back}");
            if c.is_alphabetic() {
                assert_eq!(normalize_effort(&word), known(&word));
            }
        }
    }
}

#[test]
fn the_prompt_goes_before_the_first_system_message() {
    let messages = vec![
        message("user", "a"),
        message("system", "b"),
        message("system", "c"),
        message("System", "d"),
    ];
    let items = build_injected_prism_inputs(&messages, "P");
    let texts: Vec<(&str, &str)> = items
        .iter()
        .map(|i| (i.role.as_str(), i.content[0].text.as_str()))
        .collect();
    assert_eq!(
        texts,
        [("user", "a"), ("system", "P\n\nb"), ("system", "c"), ("System", "d")]
    );
    assert!(items.iter().all(|i| i.item_type == "message"
        && i.content.len() == 1
        && i.content[0].content_type == "input_text"));
    let items = build_injected_prism_inputs(&[], "P");
    assert_eq!(items.len(), 1);
    assert_eq!(items[0].content[0].text, "P");
}

#[test]
fn texts_are_split_at_the_last_separators() {
    for text in ["a|||b|||c", "|||", "||||", "a||||b|||||||c", "", "||", "x|||", "|||x"] {
        for limit in 1..5usize {
            let mut expected: Vec<&str> = text.rsplitn(limit, "|||").collect();
            expected.reverse();
            let chars: Vec<char> = text.chars().collect();
            assert_eq!(split_last(&chars, &['|', '|', '|'], limit), expected);
        }
    }
}

#[test]
fn four_parts_have_no_sentinel_token() {
    let creds = extract_credentials(
        &[field("authorization", "Bearer Bearer c ||| s ||| u ||| p ")],
        &config(),
    );
    assert_eq!(creds.cookie, "c");
    assert_eq!(creds.sentinel_token, None);
    assert_eq!(creds.sandbox_token, "s");
    assert_eq!(creds.user_id, "u");
    assert_eq!(creds.project_id, "p");
}

#[test]
fn short_keys_leave_the_configuration() {
    let vars = [field("GW_PRISM_COOKIE", "cc"), field("GW_PRISM_USER_ID", "uu")];
    let config = read_settings(&vars).config;
    for key in ["", "a", "a,b,c", "a|||b|||c", "a|||b,c,d,e"] {
        let creds = extract_credentials(&[field("x-api-key", key)], &config);
        assert_eq!(creds.cookie, "cc");
        assert_eq!(creds.user_id, "uu");
        assert_eq!(creds.project_id, "0f6fa2ad-f391-4d28-9770-e3d6d511f80c");
    }
    // The authorization goes first, even where it says nothing.
    let creds = extract_credentials(
        &[field("x-api-key", "a,b,c,d"), field("Authorization", "none")],
        &config,
    );
    assert_eq!(creds.cookie, "cc");
}

#[test]
fn a_start_says_what_is_asked() {
    let config = config();
    let creds = extract_credentials(&[field("x-api-key", "c,s,u,p")], &config);
    let start = start_request(
        &request(Some("m-low"), None),
        &config,
        &creds,
        conversation_id("1"),
    );
    assert_eq!(start.conversation_id, "cdx1_1");
    assert_eq!(start.metadata.model, "m");
    assert_eq!(start.metadata.reasoning_effort, "low");
    assert_eq!(start.metadata.sandbox_url, "https://prism.example/s/sandboxes/proxy/");
    assert_eq!(start.metadata.frontend_origin, "https://prism.example//");
    assert_eq!(start.metadata.sandbox_token, "s");
    assert_eq!(start.input.len(), 2);
    assert!(start.input[0].content[0].text.starts_with("You are ChatGPT"));
}

#[test]
fn prism_gets_the_cookie_and_the_token() {
    let config = config();
    let inbound = [field("x-api-key", "c,s,u,p"), field("OpenAI-Sentinel-Token", "t")];
    let creds = extract_credentials(&inbound, &config);
    let common = [
        field("Content-Type", "application/json"),
        field("Origin", "https://prism.example//"),
        field("Referer", "https://prism.example///?u=p"),
    ];
    let mut start = common.to_vec();
    start.push(field("Cookie", "c"));
    start.push(field("openai-sentinel-token", "t"));
    assert_eq!(start_headers(&config.prism_base_url, &creds, &inbound), start);
    let mut status = common.to_vec();
    status.push(field("openai-sentinel-token", "t"));
    status.push(field("Cookie", "c"));
    assert_eq!(status_headers(&config.prism_base_url, &creds, &inbound), status);
    let creds = extract_credentials(&[], &config);
    assert_eq!(start_headers("b", &creds, &[]).len(), 3);
}

#[test]
fn refused_starts_are_answered() {
    assert_eq!(check_start(399, "x"), None);
    assert_eq!(
        check_start(401, "no"),
        Some(error_response(
            401,
            "Upstream Prism Error",
            "Prism rejected request with HTTP 401: no"
        ))
    );
    assert_eq!(
        refused_start(429),
        error_response(429, "Upstream Prism Error", "Prism rejected request with HTTP 429")
    );
    assert_eq!(
        failed_start("io"),
        error_response(
            502,
            "Bad Gateway",
            "Prism start request failed (network or timeout): io"
        )
    );
    assert_eq!(
        unreadable_start("eof"),
        error_response(502, "Bad Gateway", "Failed to parse Prism start response: eof")
    );
}

#[test]
fn outputs_are_joined() {
    let output = vec![
        content(&[Some("a"), None, Some("b")]),
        PrismOutputMessage { content: None },
        content(&[]),
        content(&[Some("c")]),
    ];
    assert_eq!(extract_text_from_output(&output), "abc");
    assert_eq!(extract_text_from_output(&[]), "");
}

#[test]
fn starts_are_interpreted() {
    assert_eq!(finished(begin_poll(reply(None, Some("r"), Some(1), inner(None, Some("t"), None)))), "t");
    assert_eq!(finished(begin_poll(reply(None, None, Some(1), None))), "");
    assert_eq!(finished(begin_poll(reply(None, Some(""), Some(1), None))), "");
    assert_eq!(finished(begin_poll(reply(None, Some("r"), None, None))), "");
    let state = polling(begin_poll(reply(None, Some("r"), Some(1), inner(None, Some(""), None))));
    assert_eq!((state.request_id.as_str(), state.turn_state, state.attempts), ("r", 1, 0));
    assert_eq!(
        refusal(begin_poll(reply(None, None, None, inner(Some("error"), Some("t"), Some("bad"))))),
        error_response(400, "Bad Request", "Prism error: bad")
    );
    // A message without a failure is no failure.
    assert_eq!(
        finished(begin_poll(reply(None, None, None, inner(Some("ok"), Some("t"), Some("bad"))))),
        "t"
    );
    assert_eq!(
        failure_response("a 403 Forbidden b"),
        error_response(403, "Forbidden", "Prism error: a 403 Forbidden b")
    );
}

#[test]
fn polls_go_on_until_there_is_a_text() {
    let state = polling(begin_poll(reply(None, Some("r"), Some(1), None)));
    let state = polling(advance_poll(state, PollEvent::Unusable));
    assert_eq!((state.turn_state, state.attempts), (1, 1));
    let state = polling(advance_poll(
        state,
        PollEvent::Reply(reply(Some("running"), Some("other"), Some(2), None)),
    ));
    assert_eq!((state.request_id.as_str(), state.turn_state, state.attempts), ("r", 2, 2));
    let text = finished(advance_poll(
        state,
        PollEvent::Reply(reply(Some("running"), None, None, inner(None, Some("t"), None))),
    ));
    assert_eq!(text, "t");
}

#[test]
fn polls_end() {
    let fresh = || polling(begin_poll(reply(None, Some("r"), Some(1), None)));
    assert_eq!(finished(advance_poll(fresh(), PollEvent::Unsendable)), "");
    assert_eq!(
        finished(advance_poll(
            fresh(),
            PollEvent::Reply(reply(Some("completed"), None, Some(3), None))
        )),
        ""
    );
    assert_eq!(
        refusal(advance_poll(
            fresh(),
            PollEvent::Reply(reply(None, None, None, inner(Some("error"), None, Some("m"))))
        )),
        error_response(400, "Bad Request", "Prism error: m")
    );
    let mut state = fresh();
    let mut polls = 0;
    loop {
        polls += 1;
        match advance_poll(state, PollEvent::Unusable) {
            PrismStep::Poll(next) => state = next,
            PrismStep::Finished(text) => {
                assert_eq!(text, "");
                break;
            }
            PrismStep::Refused(_) => panic!("nothing was refused"),
        }
    }
    assert_eq!(polls, MAX_POLLS);
    assert_eq!(polls, 120);
}

#[test]
fn completions_count_tokens() {
    let done = chat_completion("i".into(), 5, "m".into(), "h\u{e9}llo w".into(), 43);
    assert_eq!(done.object, "chat.completion");
    assert_eq!(done.created, 5);
    assert_eq!(done.choices.len(), 1);
    assert_eq!(done.choices[0].index, 0);
    assert_eq!(done.choices[0].finish_reason, "stop");
    assert_eq!(done.usage.prompt_tokens, 10);
    assert_eq!(done.usage.completion_tokens, 2);
    assert_eq!(done.usage.total_tokens, 12);
}

#[test]
fn streams_have_three_parts_or_two() {
    let parts = chat_chunks("i", 5, "m", "text");
    assert_eq!(parts.len(), 3);
    assert!(parts.iter().all(|p| p.id == "i"
        && p.object == "chat.completion.chunk"
        && p.created == 5
        && p.model == "m"
        && p.choices.len() == 1));
    let delta = &parts[0].choices[0].delta;
    assert_eq!(delta.role.as_deref(), Some("assistant"));
    assert_eq!(delta.content.as_deref(), Some(""));
    let delta = &parts[1].choices[0].delta;
    assert_eq!((delta.role.as_deref(), delta.content.as_deref()), (None, Some("text")));
    let delta = &parts[2].choices[0].delta;
    assert_eq!((delta.role.as_deref(), delta.content.as_deref()), (None, None));
    let ends: Vec<Option<&str>> =
        parts.iter().map(|p| p.choices[0].finish_reason.as_deref()).collect();
    assert_eq!(ends, [None, None, Some("stop")]);
    assert_eq!(chat_chunks("i", 5, "m", "").len(), 2);
}

#[test]
fn answers_are_framed() {
    assert_eq!(
        stream_head(),
        "HTTP/1.1 200 OK\r\nContent-Type: text/event-stream\r\nCache-Control: no-cache\r\nConnection: close\r\n\r\n"
    );
    let head = parse_response_head(stream_head().as_bytes()).unwrap();
    assert_eq!((head.status, head.headers.len()), (200, 3));
    assert!(head.buffered_body.is_empty());
    assert_eq!(stream_event("{}"), "data: {}\n\n");
    assert_eq!(stream_event(STREAM_END), "data: [DONE]\n\n");
    assert_eq!(
        json_response("{\"\u{e9}\":1}"),
        "HTTP/1.1 200 OK\r\nContent-Type: application/json\r\nContent-Length: 8\r\nConnection: close\r\n\r\n{\"\u{e9}\":1}"
    );
}

#[test]
fn names_are_random_uuids() {
    let check = |id: &str, prefix: &str| {
        let uuid = id.strip_prefix(prefix).unwrap();
        let parsed = uuid::Uuid::parse_str(uuid).unwrap();
        assert_eq!(parsed.get_version_num(), 4);
        assert_eq!(parsed.to_string(), uuid);
    };
    for _ in 0..50 {
        check(&fresh_conversation_id(), "cdx1_");
        check(&fresh_completion_id(), "chatcmpl-prism-");
    }
    assert_ne!(fresh_conversation_id(), fresh_conversation_id());
    assert_eq!(completion_id("x"), "chatcmpl-prism-x");
    assert_ne!(conversation_id("x"), conversation_id("y"));
}
