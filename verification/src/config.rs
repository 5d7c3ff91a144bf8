//! The settings of the gateway, as its environment gives them.
use crate::http;
use crate::numbers;
use crate::text;
use vstd::prelude::*;

verus! {

broadcast use vstd::string::group_string_axioms;

/// What the handling of a request depends on.
pub struct Config {
    /// The host that requests are passed on to.
    pub target_host: String,
    /// The port that requests are passed on to.
    pub target_port: u16,
    /// The models to try behind the one that a request names.
    pub fallbacks: Vec<String>,
    /// How many seconds a read or a write may take, if there is a limit.
    pub io_timeout: Option<u64>,
    pub retry_base_delay_ms: u64,
    pub max_retry_delay_ms: u64,
    pub prism_base_url: String,
    pub prism_project_id: String,
    pub prism_cookie: String,
    pub prism_sandbox_token: String,
    pub prism_user_id: String,
    pub prism_default_model: String,
    pub prism_system_prompt: String,
}

/// What a configuration says.
#[verifier::ext_equal]
pub struct ConfigModel {
    pub target_host: Seq<char>,
    pub target_port: u16,
    pub fallbacks: Seq<Seq<char>>,
    pub io_timeout: Option<u64>,
    pub retry_base_delay_ms: u64,
    pub max_retry_delay_ms: u64,
    pub prism_base_url: Seq<char>,
    pub prism_project_id: Seq<char>,
    pub prism_cookie: Seq<char>,
    pub prism_sandbox_token: Seq<char>,
    pub prism_user_id: Seq<char>,
    pub prism_default_model: Seq<char>,
    pub prism_system_prompt: Seq<char>,
}

impl View for Config {
    type V = ConfigModel;

    open spec fn view(&self) -> ConfigModel {
        ConfigModel {
            target_host: self.target_host@,
            target_port: self.target_port,
            fallbacks: text::views(self.fallbacks@),
            io_timeout: self.io_timeout,
            retry_base_delay_ms: self.retry_base_delay_ms,
            max_retry_delay_ms: self.max_retry_delay_ms,
            prism_base_url: self.prism_base_url@,
            prism_project_id: self.prism_project_id@,
            prism_cookie: self.prism_cookie@,
            prism_sandbox_token: self.prism_sandbox_token@,
            prism_user_id: self.prism_user_id@,
            prism_default_model: self.prism_default_model@,
            prism_system_prompt: self.prism_system_prompt@,
        }
    }
}

/// What the gateway is started with.
pub struct Settings {
    pub listen_host: String,
    pub listen_port: u16,
    /// How many connections are served at a time.
    pub max_connections: usize,
    pub config: Config,
}

/// What the settings say.
#[verifier::ext_equal]
pub struct SettingsModel {
    pub listen_host: Seq<char>,
    pub listen_port: u16,
    pub max_connections: nat,
    pub config: ConfigModel,
}

impl View for Settings {
    type V = SettingsModel;

    open spec fn view(&self) -> SettingsModel {
        SettingsModel {
            listen_host: self.listen_host@,
            listen_port: self.listen_port,
            max_connections: self.max_connections as nat,
            config: self.config@,
        }
    }
}

// ---------------------------------------------------------------------------
// Single variables
// ---------------------------------------------------------------------------

/// The value of the first variable of this name.
pub open spec fn variable(vars: Seq<(Seq<char>, Seq<char>)>, key: Seq<char>) -> Option<Seq<char>>
    decreases vars.len(),
{
    if vars.len() == 0 {
        None
    } else if vars[0].0 == key {
        Some(vars[0].1)
    } else {
        variable(vars.drop_first(), key)
    }
}

/// The value of a variable, or the fallback if it is not set or only white
/// space.
pub open spec fn value_or(
    vars: Seq<(Seq<char>, Seq<char>)>,
    key: Seq<char>,
    fallback: Seq<char>,
) -> Seq<char> {
    match variable(vars, key) {
        Some(value) => if text::trim(value).len() > 0 {
            value
        } else {
            fallback
        },
        None => fallback,
    }
}

/// The number that a variable holds, or the fallback if it holds none up to
/// `max`.
pub open spec fn number_or(
    vars: Seq<(Seq<char>, Seq<char>)>,
    key: Seq<char>,
    max: nat,
    fallback: nat,
) -> nat {
    match numbers::parse_unsigned(value_or(vars, key, Seq::empty()), 10, max) {
        Some(n) => n,
        None => fallback,
    }
}

/// The number of milliseconds that a variable holds, white space around it
/// aside, or the fallback if it holds none.
pub open spec fn duration_or(
    vars: Seq<(Seq<char>, Seq<char>)>,
    key: Seq<char>,
    fallback: u64,
) -> u64 {
    match variable(vars, key) {
        Some(value) => match numbers::parse_unsigned(text::trim(value), 10, u64::MAX as nat) {
            Some(n) => n as u64,
            None => fallback,
        },
        None => fallback,
    }
}

/// Gives the value of the first variable of a name.
pub fn find_variable<'a>(vars: &'a [(String, String)], key: &str) -> (r: Option<&'a str>)
    ensures
        match r {
            Some(value) => variable(http::fields(vars@), key@) == Some(value@),
            None => variable(http::fields(vars@), key@) is None,
        },
{
    let ghost all = http::fields(vars@);
    let mut i: usize = 0;
    assert(all.skip(0) =~= all);
    while i < vars.len()
        invariant
            i <= vars@.len(),
            all == http::fields(vars@),
            variable(all, key@) == variable(all.skip(i as int), key@),
        decreases vars@.len() - i,
    {
        assert(all.skip(i as int)[0] == (vars@[i as int].0@, vars@[i as int].1@));
        assert(all.skip(i as int).drop_first() =~= all.skip(i + 1));
        if text::same_text(vars[i].0.as_str(), key) {
            return Some(vars[i].1.as_str());
        }
        i += 1;
    }
    None
}

/// The value of a variable, or a fallback if it is not set or only white
/// space.
pub fn env_or(vars: &[(String, String)], key: &str, fallback: &str) -> (r: String)
    ensures
        r@ == value_or(http::fields(vars@), key@, fallback@),
{
    match find_variable(vars, key) {
        Some(value) => {
            let kept = text::trim_text(value);
            if kept.as_str().is_empty() {
                fallback.to_owned()
            } else {
                value.to_owned()
            }
        },
        None => fallback.to_owned(),
    }
}

/// The number of milliseconds that a variable holds, or a fallback.
pub fn env_or_duration_ms(vars: &[(String, String)], key: &str, fallback: u64) -> (r: u64)
    ensures
        r == duration_or(http::fields(vars@), key@, fallback),
{
    match find_variable(vars, key) {
        Some(value) => {
            let kept = text::trim_text(value);
            match numbers::parse_u64(kept.as_str()) {
                Some(n) => n,
                None => fallback,
            }
        },
        None => fallback,
    }
}

// ---------------------------------------------------------------------------
// The fallback models
// ---------------------------------------------------------------------------

/// The parts that are not only white space, trimmed.
pub open spec fn listed(parts: Seq<Seq<char>>) -> Seq<Seq<char>>
    decreases parts.len(),
{
    if parts.len() == 0 {
        Seq::empty()
    } else if text::trim(parts.last()).len() > 0 {
        listed(parts.drop_last()).push(text::trim(parts.last()))
    } else {
        listed(parts.drop_last())
    }
}

/// The models to try behind the one that a request names: the parts of a list
/// with commas, or none if the variable is a single space.
pub open spec fn fallback_models(vars: Seq<(Seq<char>, Seq<char>)>) -> Seq<Seq<char>> {
    if variable(vars, "GW_FALLBACK_MODELS"@) == Some(seq![' ']) {
        Seq::empty()
    } else {
        listed(
            text::pieces(value_or(vars, "GW_FALLBACK_MODELS"@, "fail-try"@), seq![','], 0),
        )
    }
}

/// Reads the models to try behind the one that a request names.
pub fn read_fallback_models(vars: &[(String, String)]) -> (r: Vec<String>)
    ensures
        text::views(r@) == fallback_models(http::fields(vars@)),
{
    let ghost fields = http::fields(vars@);
    if let Some(value) = find_variable(vars, "GW_FALLBACK_MODELS") {
        let chars = text::chars_of(value);
        if chars.len() == 1 && chars[0] == ' ' {
            assert(value@ =~= seq![' ']);
            let none: Vec<String> = Vec::new();
            assert(text::views(none@) =~= fallback_models(fields));
            return none;
        }
        assert(value@ != seq![' ']) by {
            assert(seq![' '][0] == ' ');
        }
    }
    let list = env_or(vars, "GW_FALLBACK_MODELS", "fail-try");
    let chars = text::chars_of(list.as_str());
    let comma: [char; 1] = [','];
    assert(comma@ =~= seq![',']);
    let parts = text::split_chars(&chars, &comma);
    let ghost all = text::views(parts@);
    let mut out: Vec<String> = Vec::new();
    let mut i: usize = 0;
    assert(text::views(out@) =~= listed(all.take(0)));
    while i < parts.len()
        invariant
            i <= parts@.len(),
            all == text::views(parts@),
            text::views(out@) == listed(all.take(i as int)),
        decreases parts@.len() - i,
    {
        let ghost before = text::views(out@);
        let part = text::trim_text(parts[i].as_str());
        assert(all.take(i + 1).drop_last() =~= all.take(i as int));
        assert(all.take(i + 1).last() == parts@[i as int]@);
        if !part.as_str().is_empty() {
            out.push(part);
            assert(text::views(out@) =~= before.push(part@));
        }
        i += 1;
    }
    assert(all.take(i as int) =~= all);
    out
}

// ---------------------------------------------------------------------------
// All settings
// ---------------------------------------------------------------------------

/// The prompt that is put before a conversation where none is configured.
pub const DEFAULT_SYSTEM_PROMPT: &'static str = "You are ChatGPT, a large language model trained by OpenAI. Carefully follow the user's instructions. Implement the requested tasks perfectly and exactly as directed.";

/// The number of seconds that a read or a write may take: none for zero.
pub open spec fn timeout_of(seconds: nat) -> Option<u64> {
    if seconds > 0 {
        Some(seconds as u64)
    } else {
        None
    }
}

/// What the environment configures.
pub open spec fn config_of(vars: Seq<(Seq<char>, Seq<char>)>) -> ConfigModel {
    ConfigModel {
        target_host: value_or(vars, "GW_TARGET_HOST"@, "127.0.0.1"@),
        target_port: number_or(vars, "GW_TARGET_PORT"@, u16::MAX as nat, 20128) as u16,
        fallbacks: fallback_models(vars),
        io_timeout: timeout_of(number_or(vars, "GW_IO_TIMEOUT_SECS"@, u64::MAX as nat, 120)),
        retry_base_delay_ms: duration_or(vars, "GW_RETRY_BASE_DELAY_MS"@, 100),
        max_retry_delay_ms: duration_or(vars, "GW_MAX_RETRY_DELAY_MS"@, 5000),
        prism_base_url: value_or(vars, "GW_PRISM_BASE_URL"@, "https://prism.openai.com"@),
        prism_project_id: value_or(
            vars,
            "GW_PRISM_PROJECT_ID"@,
            "0f6fa2ad-f391-4d28-9770-e3d6d511f80c"@,
        ),
        prism_cookie: value_or(vars, "GW_PRISM_COOKIE"@, ""@),
        prism_sandbox_token: value_or(vars, "GW_PRISM_SANDBOX_TOKEN"@, ""@),
        prism_user_id: value_or(vars, "GW_PRISM_USER_ID"@, ""@),
        prism_default_model: value_or(vars, "GW_PRISM_DEFAULT_MODEL"@, "gpt-5.6-sol"@),
        prism_system_prompt: value_or(vars, "GW_PRISM_SYSTEM_PROMPT"@, DEFAULT_SYSTEM_PROMPT@),
    }
}

/// What the environment sets.
pub open spec fn settings_of(vars: Seq<(Seq<char>, Seq<char>)>) -> SettingsModel {
    SettingsModel {
        listen_host: value_or(vars, "GW_LISTEN_HOST"@, "127.0.0.1"@),
        listen_port: number_or(vars, "GW_LISTEN_PORT"@, u16::MAX as nat, 20129) as u16,
        max_connections: number_or(vars, "GW_MAX_CONNECTIONS"@, usize::MAX as nat, 256),
        config: config_of(vars),
    }
}

/// Reads a `u16`.
fn u16_or(vars: &[(String, String)], key: &str, fallback: u16) -> (r: u16)
    ensures
        r == number_or(http::fields(vars@), key@, u16::MAX as nat, fallback as nat),
{
    proof {
        reveal_strlit("");
        assert(""@ =~= Seq::<char>::empty());
    }
    let value = env_or(vars, key, "");
    match numbers::parse_u16(value.as_str()) {
        Some(n) => n,
        None => fallback,
    }
}

/// Reads a `u64`.
fn u64_or(vars: &[(String, String)], key: &str, fallback: u64) -> (r: u64)
    ensures
        r == number_or(http::fields(vars@), key@, u64::MAX as nat, fallback as nat),
{
    proof {
        reveal_strlit("");
        assert(""@ =~= Seq::<char>::empty());
    }
    let value = env_or(vars, key, "");
    match numbers::parse_u64(value.as_str()) {
        Some(n) => n,
        None => fallback,
    }
}

/// Reads a `usize`.
fn usize_or(vars: &[(String, String)], key: &str, fallback: usize) -> (r: usize)
    ensures
        r == number_or(http::fields(vars@), key@, usize::MAX as nat, fallback as nat),
{
    proof {
        reveal_strlit("");
        assert(""@ =~= Seq::<char>::empty());
    }
    let value = env_or(vars, key, "");
    match numbers::parse_usize(value.as_str()) {
        Some(n) => n,
        None => fallback,
    }
}

/// Reads the configuration.
pub fn read_config(vars: &[(String, String)]) -> (r: Config)
    ensures
        r@ == config_of(http::fields(vars@)),
{
    let seconds = u64_or(vars, "GW_IO_TIMEOUT_SECS", 120);
    Config {
        target_host: env_or(vars, "GW_TARGET_HOST", "127.0.0.1"),
        target_port: u16_or(vars, "GW_TARGET_PORT", 20128),
        fallbacks: read_fallback_models(vars),
        io_timeout: if seconds > 0 {
            Some(seconds)
        } else {
            None
        },
        retry_base_delay_ms: env_or_duration_ms(vars, "GW_RETRY_BASE_DELAY_MS", 100),
        max_retry_delay_ms: env_or_duration_ms(vars, "GW_MAX_RETRY_DELAY_MS", 5000),
        prism_base_url: env_or(vars, "GW_PRISM_BASE_URL", "https://prism.openai.com"),
        prism_project_id: env_or(
            vars,
            "GW_PRISM_PROJECT_ID",
            "0f6fa2ad-f391-4d28-9770-e3d6d511f80c",
        ),
        prism_cookie: env_or(vars, "GW_PRISM_COOKIE", ""),
        prism_sandbox_token: env_or(vars, "GW_PRISM_SANDBOX_TOKEN", ""),
        prism_user_id: env_or(vars, "GW_PRISM_USER_ID", ""),
        prism_default_model: env_or(vars, "GW_PRISM_DEFAULT_MODEL", "gpt-5.6-sol"),
        prism_system_prompt: env_or(vars, "GW_PRISM_SYSTEM_PROMPT", DEFAULT_SYSTEM_PROMPT),
    }
}

/// Reads all settings.
pub fn read_settings(vars: &[(String, String)]) -> (r: Settings)
    ensures
        r@ == settings_of(http::fields(vars@)),
{
    Settings {
        listen_host: env_or(vars, "GW_LISTEN_HOST", "127.0.0.1"),
        listen_port: u16_or(vars, "GW_LISTEN_PORT", 20129),
        max_connections: usize_or(vars, "GW_MAX_CONNECTIONS", 256),
        config: read_config(vars),
    }
}

// ---------------------------------------------------------------------------
// Connections
// ---------------------------------------------------------------------------

/// Only this machine can reach a listener on the host.
pub open spec fn loopback(host: Seq<char>) -> bool {
    host == "127.0.0.1"@ || host == "::1"@ || host == "localhost"@
}

/// Whether only this machine can reach a listener on a host.
pub fn is_loopback(host: &str) -> (r: bool)
    ensures
        r == loopback(host@),
{
    text::same_text(host, "127.0.0.1") || text::same_text(host, "::1") || text::same_text(
        host,
        "localhost",
    )
}

/// One more connection is served while `active` are.
pub open spec fn admitted(active: nat, max_connections: nat) -> bool {
    active < max_connections
}

/// Whether one more connection is served while `active` are.
pub fn admits(active: usize, max_connections: usize) -> (r: bool)
    ensures
        r == (active < max_connections),
        r == admitted(active as nat, max_connections as nat),
{
    active < max_connections
}

// ---------------------------------------------------------------------------
// Laws
// ---------------------------------------------------------------------------

/// A variable that is set to white space alone is as good as none, but for a
/// single space as the fallback models.
pub proof fn white_space_is_no_value(
    vars: Seq<(Seq<char>, Seq<char>)>,
    key: Seq<char>,
    fallback: Seq<char>,
)
    requires
        variable(vars, key) matches Some(value) ==> text::trim(value).len() == 0,
    ensures
        value_or(vars, key, fallback) == fallback,
{
}

/// No fallback model is empty or has white space at an end.
pub proof fn fallback_models_are_names(vars: Seq<(Seq<char>, Seq<char>)>)
    ensures
        forall|i: int|
            0 <= i < fallback_models(vars).len() ==> (#[trigger] fallback_models(vars)[i]).len() > 0
                && crate::laws_text::trimmed(fallback_models(vars)[i]),
{
    listed_are_names(
        text::pieces(value_or(vars, "GW_FALLBACK_MODELS"@, "fail-try"@), seq![','], 0),
    );
}

/// No part that is listed is empty or has white space at an end.
proof fn listed_are_names(parts: Seq<Seq<char>>)
    ensures
        forall|i: int|
            0 <= i < listed(parts).len() ==> (#[trigger] listed(parts)[i]).len() > 0
                && crate::laws_text::trimmed(listed(parts)[i]),
    decreases parts.len(),
{
    if parts.len() > 0 {
        listed_are_names(parts.drop_last());
        crate::laws_text::trim_trims(parts.last());
        let front = listed(parts.drop_last());
        assert forall|i: int| 0 <= i < listed(parts).len() implies (#[trigger] listed(
            parts,
        )[i]).len() > 0 && crate::laws_text::trimmed(listed(parts)[i]) by {
            if i < front.len() {
                assert(listed(parts)[i] == front[i]);
            }
        }
    }
}

/// A single space disables failover.
pub proof fn single_space_disables_failover(vars: Seq<(Seq<char>, Seq<char>)>)
    requires
        variable(vars, "GW_FALLBACK_MODELS"@) == Some(seq![' ']),
    ensures
        fallback_models(vars).len() == 0,
{
}

/// Where no fallback models are set there is one.
pub proof fn one_fallback_by_default(vars: Seq<(Seq<char>, Seq<char>)>)
    requires
        variable(vars, "GW_FALLBACK_MODELS"@) matches Some(value) ==> text::trim(value).len() == 0
            && value != seq![' '],
    ensures
        fallback_models(vars) == seq!["fail-try"@],
{
    reveal_strlit("fail-try");
    let value = "fail-try"@;
    assert forall|j: int| 0 <= j < value.len() implies !text::occurs_at(value, seq![','], j) by {
        assert(value.subrange(j, j + 1)[0] == value[j]);
        assert(seq![','][0] == ',');
    }
    text::find_is_least(value, seq![','], 0);
    let parts = text::pieces(value, seq![','], 0);
    assert(value.subrange(0, value.len() as int) =~= value);
    assert(parts =~= seq![value]);
    crate::laws_text::trim_of_trimmed(value);
    assert(parts.drop_last() =~= Seq::<Seq<char>>::empty());
    assert(listed(parts.drop_last()) =~= Seq::<Seq<char>>::empty());
    assert(listed(parts) =~= seq![value]);
}

} // verus!
