use toolcase_gateway::config::{
    admits, env_or, env_or_duration_ms, is_loopback, read_fallback_models, read_settings,
};
use toolcase_gateway::http::parse_response_head;
use toolcase_gateway::routes::{
    cors_preflight_response, is_models_catalog_route, is_prism_completions_route, list_models,
    models_catalog_response, render_catalog, route_request, target_path, trim_slashes, Route,
};

fn var(name: &str, value: &str) -> (String, String) {
    (name.to_string(), value.to_string())
}

#[test]
fn settings_have_defaults() {
    let settings = read_settings(&[]);
    assert_eq!(settings.listen_host, "127.0.0.1");
    assert_eq!(settings.listen_port, 20129);
    assert_eq!(settings.max_connections, 256);
    let config = settings.config;
    assert_eq!(config.target_host, "127.0.0.1");
    assert_eq!(config.target_port, 20128);
    assert_eq!(config.fallbacks, ["fail-try"]);
    assert_eq!(config.io_timeout, Some(120));
    assert_eq!(config.retry_base_delay_ms, 100);
    assert_eq!(config.max_retry_delay_ms, 5000);
    assert_eq!(config.prism_base_url, "https://prism.openai.com");
    assert_eq!(config.prism_project_id, "0f6fa2ad-f391-4d28-9770-e3d6d511f80c");
    assert_eq!(config.prism_cookie, "");
    assert_eq!(config.prism_sandbox_token, "");
    assert_eq!(config.prism_user_id, "");
    assert_eq!(config.prism_default_model, "gpt-5.6-sol");
    assert_eq!(config.prism_system_prompt, "You are ChatGPT, a large language model trained by OpenAI. Carefully follow the user's instructions. Implement the requested tasks perfectly and exactly as directed.");
}

#[test]
fn settings_are_read() {
    let settings = read_settings(&[
        var("GW_LISTEN_HOST", "0.0.0.0"),
        var("GW_LISTEN_PORT", "1"),
        var("GW_TARGET_HOST", "up"),
        var("GW_TARGET_PORT", "65535"),
        var("GW_MAX_CONNECTIONS", "0"),
        var("GW_IO_TIMEOUT_SECS", "0"),
        var("GW_RETRY_BASE_DELAY_MS", " 7 "),
        var("GW_MAX_RETRY_DELAY_MS", "9"),
        var("GW_FALLBACK_MODELS", "gpt-4o-mini, mistral ,,llama"),
        var("GW_PRISM_BASE_URL", "u"),
        var("GW_PRISM_PROJECT_ID", "p"),
        var("GW_PRISM_COOKIE", "c"),
        var("GW_PRISM_SANDBOX_TOKEN", "s"),
        var("GW_PRISM_USER_ID", "i"),
        var("GW_PRISM_DEFAULT_MODEL", "m"),
        var("GW_PRISM_SYSTEM_PROMPT", "q"),
    ]);
    assert_eq!(settings.listen_host, "0.0.0.0");
    assert_eq!(settings.listen_port, 1);
    assert_eq!(settings.max_connections, 0);
    let config = settings.config;
    assert_eq!(config.target_host, "up");
    assert_eq!(config.target_port, 65535);
    assert_eq!(config.io_timeout, None);
    assert_eq!(config.retry_base_delay_ms, 7);
    assert_eq!(config.max_retry_delay_ms, 9);
    assert_eq!(config.fallbacks, ["gpt-4o-mini", "mistral", "llama"]);
    assert_eq!(config.prism_base_url, "u");
    assert_eq!(config.prism_project_id, "p");
    assert_eq!(config.prism_cookie, "c");
    assert_eq!(config.prism_sandbox_token, "s");
    assert_eq!(config.prism_user_id, "i");
    assert_eq!(config.prism_default_model, "m");
    assert_eq!(config.prism_system_prompt, "q");
}

#[test]
fn bad_values_fall_back() {
    let vars = [
        var("GW_LISTEN_PORT", "65536"),
        var("GW_TARGET_PORT", " 80"),
        var("GW_MAX_CONNECTIONS", "many"),
        var("GW_IO_TIMEOUT_SECS", "-1"),
        var("GW_RETRY_BASE_DELAY_MS", "1.5"),
        var("GW_TARGET_HOST", " \t"),
    ];
    let settings = read_settings(&vars);
    assert_eq!(settings.listen_port, 20129);
    assert_eq!(settings.max_connections, 256);
    assert_eq!(settings.config.target_port, 20128);
    assert_eq!(settings.config.io_timeout, Some(120));
    assert_eq!(settings.config.retry_base_delay_ms, 100);
    assert_eq!(settings.config.target_host, "127.0.0.1");
    assert_eq!(env_or(&vars, "GW_TARGET_HOST", "x"), "x");
    assert_eq!(env_or(&[var("A", " v ")], "A", "x"), " v ");
    assert_eq!(env_or(&[var("A", "1"), var("A", "2")], "A", "x"), "1");
    assert_eq!(env_or(&[var("a", "1")], "A", "x"), "x");
    assert_eq!(env_or_duration_ms(&[], "A", 3), 3);
    assert_eq!(env_or_duration_ms(&[var("A", "")], "A", 3), 3);
}

#[test]
fn a_single_space_disables_failover() {
    let models = |value: &str| read_fallback_models(&[var("GW_FALLBACK_MODELS", value)]);
    assert!(models(" ").is_empty());
    assert_eq!(models(""), ["fail-try"]);
    assert_eq!(models("  "), ["fail-try"]);
    assert!(models(",").is_empty());
    assert_eq!(models("a"), ["a"]);
}

#[test]
fn loopback_hosts_are_known() {
    assert!(is_loopback("127.0.0.1"));
    assert!(is_loopback("::1"));
    assert!(is_loopback("localhost"));
    assert!(!is_loopback("0.0.0.0"));
    assert!(!is_loopback("Localhost"));
}

#[test]
fn connections_are_capped() {
    assert!(admits(255, 256));
    assert!(!admits(256, 256));
    assert!(!admits(0, 0));
}

#[test]
fn requests_are_routed() {
    assert_eq!(route_request("OPTIONS", "/anything"), Route::Preflight);
    assert_eq!(route_request("options", "/v1/models"), Route::Preflight);
    assert_eq!(route_request("get", "/v1/models/?limit=1"), Route::ModelsCatalog);
    assert_eq!(route_request("GET", "/models//"), Route::ModelsCatalog);
    assert_eq!(route_request("GET", "/prism-openai/v1/models"), Route::ModelsCatalog);
    assert_eq!(route_request("POST", "/v1/models"), Route::Proxy);
    assert_eq!(
        route_request("POST", "/prism-openai/v1/chat/completions/"),
        Route::PrismCompletions
    );
    assert_eq!(
        route_request("GET", "/prism-openai/v1/chat/completions?a=/b"),
        Route::PrismCompletions
    );
    assert_eq!(route_request("POST", "/v1/chat/completions"), Route::Proxy);
    assert_eq!(target_path("/a/b///?c/"), "/a/b");
    assert_eq!(target_path("?x"), "");
    assert_eq!(trim_slashes("///"), "");
    assert!(is_models_catalog_route("/models"));
    assert!(!is_models_catalog_route("/models/"));
    assert!(!is_prism_completions_route("/prism-openai/v1/chat/completions/"));
}

#[test]
fn catalogs_are_in_order() {
    assert_eq!(list_models(""), ["gpt-5.6-sol"]);
    assert_eq!(list_models("gpt-5.6-sol"), ["gpt-5.6-sol"]);
    for name in ["gpt-5.6-so", "gpt-5.6-soz", "gpt-5.6-sola", "a", "z", "\u{e9}", "gpt"] {
        let mut expected = vec!["gpt-5.6-sol".to_string(), name.to_string()];
        expected.sort();
        assert_eq!(list_models(name), expected);
    }
}

#[test]
fn catalogs_list_every_effort() {
    let entry = |id: &str| {
        format!("{{\"id\":\"{id}\",\"object\":\"model\",\"created\":1700000000,\"owned_by\":\"system\"}}")
    };
    let names = ["gpt-5.6-sol", "m"]
        .iter()
        .flat_map(|m| ["", "-low", "-medium", "-high", "-xhigh"].map(|s| entry(&format!("{m}{s}"))))
        .collect::<Vec<_>>();
    let body = format!("{{\"object\":\"list\",\"data\":[{}]}}", names.join(","));
    assert_eq!(render_catalog("m"), body);
    assert_eq!(
        models_catalog_response("m"),
        format!(
            "HTTP/1.1 200 OK\r\nContent-Type: application/json\r\nAccess-Control-Allow-Origin: *\r\nContent-Length: {}\r\nConnection: close\r\n\r\n{}",
            body.len(),
            body
        )
    );
}

#[test]
fn preflights_allow_everything() {
    let answer = cors_preflight_response();
    assert_eq!(
        answer,
        "HTTP/1.1 200 OK\r\nAccess-Control-Allow-Origin: *\r\nAccess-Control-Allow-Methods: GET, POST, OPTIONS\r\nAccess-Control-Allow-Headers: *\r\nContent-Length: 0\r\nConnection: close\r\n\r\n"
    );
    assert_eq!(parse_response_head(answer.as_bytes()).unwrap().headers.len(), 5);
}
