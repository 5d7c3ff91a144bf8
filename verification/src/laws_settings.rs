//! What the environment sets, and where a request goes.
use crate::config;
use crate::laws_heads::same;
use crate::laws_primitives;
use crate::laws_primitives::blank;
use crate::numbers;
use crate::routes;
use crate::routes::Route;
use crate::routing;
use crate::text;
use vstd::prelude::*;
use vstd::utf8::*;

verus! {

broadcast use vstd::string::group_string_axioms;

// ---------------------------------------------------------------------------
// Variables
// ---------------------------------------------------------------------------

/// The value of a name is that of the first variable with it.
pub proof fn the_first_variable_counts(
    front: Seq<(Seq<char>, Seq<char>)>,
    key: Seq<char>,
    value: Seq<char>,
    rest: Seq<(Seq<char>, Seq<char>)>,
)
    requires
        forall|i: int| 0 <= i < front.len() ==> #[trigger] front[i].0 != key,
    ensures
        config::variable(front + seq![(key, value)] + rest, key) == Some(value),
        config::variable(front, key) is None,
    decreases front.len(),
{
    let whole = front + seq![(key, value)] + rest;
    if front.len() > 0 {
        let less = front.drop_first();
        assert forall|i: int| 0 <= i < less.len() implies #[trigger] less[i].0 != key by {
            assert(less[i] == front[i + 1]);
        }
        the_first_variable_counts(less, key, value, rest);
        assert(whole.drop_first() =~= less + seq![(key, value)] + rest);
        assert(whole[0] == front[0]);
    } else {
        assert(whole[0] == (key, value));
    }
}

/// Trimming leaves something exactly of a text that is not blank.
pub proof fn trimming_leaves_something(s: Seq<char>)
    ensures
        text::trim(s).len() > 0 <==> !blank(s),
{
    if blank(s) {
        laws_primitives::trim_of_white_space(s);
    } else {
        let k = choose|k: int| 0 <= k < s.len() && !text::is_whitespace(#[trigger] s[k]);
        skip_goes_to(s, 0, k);
        drop_goes_to(s, s.len() as int, k);
    }
}

/// Skipping white space does not go past another character.
proof fn skip_goes_to(s: Seq<char>, from: int, k: int)
    requires
        0 <= from <= k < s.len(),
        !text::is_whitespace(s[k]),
    ensures
        0 <= text::skip_space(s, from) <= k,
    decreases k - from,
{
    if text::is_whitespace(s[from]) {
        skip_goes_to(s, from + 1, k);
    }
}

/// Dropping white space does not go past another character.
proof fn drop_goes_to(s: Seq<char>, to: int, k: int)
    requires
        0 <= k < to <= s.len(),
        !text::is_whitespace(s[k]),
    ensures
        k < text::drop_space(s, to) <= to,
    decreases to - k,
{
    if text::is_whitespace(s[to - 1]) {
        drop_goes_to(s, to - 1, k);
    }
}

/// A text is set by a variable that is not blank, and is the default
/// otherwise.
pub open spec fn sets_text(
    vars: Seq<(Seq<char>, Seq<char>)>,
    key: Seq<char>,
    default: Seq<char>,
    set: Seq<char>,
) -> bool {
    match config::variable(vars, key) {
        Some(value) => set == if blank(value) {
            default
        } else {
            value
        },
        None => set == default,
    }
}

/// A number is set by a variable that writes one up to `max`, and is the
/// default otherwise.
pub open spec fn sets_number(
    vars: Seq<(Seq<char>, Seq<char>)>,
    key: Seq<char>,
    max: nat,
    default: nat,
    set: nat,
) -> bool {
    match config::variable(vars, key) {
        Some(value) => match numbers::parse_unsigned(value, 10, max) {
            Some(n) => set == n,
            None => set == default,
        },
        None => set == default,
    }
}

/// White space writes no number.
proof fn blank_is_no_number(s: Seq<char>, max: nat)
    requires
        blank(s),
    ensures
        numbers::parse_unsigned(s, 10, max) is None,
{
    if s.len() > 0 {
        assert(text::is_whitespace(s[0]));
        laws_primitives::numbers_are_their_digits(s, 10, max);
        assert(!(laws_primitives::worth(s[0], 10) < 10));
    }
}

/// A value or its default.
proof fn values_are_set(vars: Seq<(Seq<char>, Seq<char>)>, key: Seq<char>, default: Seq<char>)
    ensures
        sets_text(vars, key, default, config::value_or(vars, key, default)),
{
    if let Some(value) = config::variable(vars, key) {
        trimming_leaves_something(value);
    }
}

/// A number or its default.
proof fn numbers_are_set(vars: Seq<(Seq<char>, Seq<char>)>, key: Seq<char>, max: nat, default: nat)
    requires
        default <= max,
    ensures
        sets_number(vars, key, max, default, config::number_or(vars, key, max, default)),
        config::number_or(vars, key, max, default) <= max,
{
    if let Some(value) = config::variable(vars, key) {
        trimming_leaves_something(value);
        if blank(value) {
            blank_is_no_number(value, max);
        }
    }
}

/// Every setting is read from its own variable, and has its own default.
pub proof fn settings_are_read(vars: Seq<(Seq<char>, Seq<char>)>)
    ensures
        ({
            let settings = config::settings_of(vars);
            let c = settings.config;
            &&& c == config::config_of(vars)
            &&& sets_text(vars, "GW_LISTEN_HOST"@, "127.0.0.1"@, settings.listen_host)
            &&& sets_number(vars, "GW_LISTEN_PORT"@, 65535, 20129, settings.listen_port as nat)
            &&& sets_number(
                vars,
                "GW_MAX_CONNECTIONS"@,
                usize::MAX as nat,
                256,
                settings.max_connections,
            )
            &&& sets_text(vars, "GW_TARGET_HOST"@, "127.0.0.1"@, c.target_host)
            &&& sets_number(vars, "GW_TARGET_PORT"@, 65535, 20128, c.target_port as nat)
            &&& exists|seconds: nat|
                #[trigger] sets_number(
                    vars,
                    "GW_IO_TIMEOUT_SECS"@,
                    u64::MAX as nat,
                    120,
                    seconds,
                ) && c.io_timeout == if seconds == 0 {
                    None
                } else {
                    Some(seconds as u64)
                }
            &&& sets_text(
                vars,
                "GW_PRISM_BASE_URL"@,
                "https://prism.openai.com"@,
                c.prism_base_url,
            )
            &&& sets_text(
                vars,
                "GW_PRISM_PROJECT_ID"@,
                "0f6fa2ad-f391-4d28-9770-e3d6d511f80c"@,
                c.prism_project_id,
            )
            &&& sets_text(vars, "GW_PRISM_COOKIE"@, ""@, c.prism_cookie)
            &&& sets_text(vars, "GW_PRISM_SANDBOX_TOKEN"@, ""@, c.prism_sandbox_token)
            &&& sets_text(vars, "GW_PRISM_USER_ID"@, ""@, c.prism_user_id)
            &&& sets_text(vars, "GW_PRISM_DEFAULT_MODEL"@, "gpt-5.6-sol"@, c.prism_default_model)
            &&& sets_text(
                vars,
                "GW_PRISM_SYSTEM_PROMPT"@,
                "You are ChatGPT, a large language model trained by OpenAI. Carefully follow the user's instructions. Implement the requested tasks perfectly and exactly as directed."@,
                c.prism_system_prompt,
            )
        }),
{
    values_are_set(vars, "GW_LISTEN_HOST"@, "127.0.0.1"@);
    numbers_are_set(vars, "GW_LISTEN_PORT"@, u16::MAX as nat, 20129);
    numbers_are_set(vars, "GW_MAX_CONNECTIONS"@, usize::MAX as nat, 256);
    values_are_set(vars, "GW_TARGET_HOST"@, "127.0.0.1"@);
    numbers_are_set(vars, "GW_TARGET_PORT"@, u16::MAX as nat, 20128);
    numbers_are_set(vars, "GW_IO_TIMEOUT_SECS"@, u64::MAX as nat, 120);
    values_are_set(vars, "GW_PRISM_BASE_URL"@, "https://prism.openai.com"@);
    values_are_set(vars, "GW_PRISM_PROJECT_ID"@, "0f6fa2ad-f391-4d28-9770-e3d6d511f80c"@);
    values_are_set(vars, "GW_PRISM_COOKIE"@, ""@);
    values_are_set(vars, "GW_PRISM_SANDBOX_TOKEN"@, ""@);
    values_are_set(vars, "GW_PRISM_USER_ID"@, ""@);
    values_are_set(vars, "GW_PRISM_DEFAULT_MODEL"@, "gpt-5.6-sol"@);
    values_are_set(vars, "GW_PRISM_SYSTEM_PROMPT"@, config::DEFAULT_SYSTEM_PROMPT@);
}

/// The two waits are set in milliseconds, with white space around the number,
/// and are 100 and 5000 where a variable is missing or writes no number.
pub proof fn waits_are_set(
    vars: Seq<(Seq<char>, Seq<char>)>,
    before: Seq<char>,
    n: u64,
    behind: Seq<char>,
)
    requires
        blank(before),
        blank(behind),
    ensures
        config::variable(vars, "GW_RETRY_BASE_DELAY_MS"@) == Some(
            before + numbers::decimal(n as nat) + behind,
        ) ==> config::config_of(vars).retry_base_delay_ms == n,
        config::variable(vars, "GW_MAX_RETRY_DELAY_MS"@) == Some(
            before + numbers::decimal(n as nat) + behind,
        ) ==> config::config_of(vars).max_retry_delay_ms == n,
        config::variable(vars, "GW_RETRY_BASE_DELAY_MS"@) is None ==> config::config_of(
            vars,
        ).retry_base_delay_ms == 100,
        config::variable(vars, "GW_MAX_RETRY_DELAY_MS"@) is None ==> config::config_of(
            vars,
        ).max_retry_delay_ms == 5000,
        config::variable(vars, "GW_RETRY_BASE_DELAY_MS"@) matches Some(value)
            ==> config::config_of(vars).retry_base_delay_ms == match numbers::parse_unsigned(
            text::trim(value),
            10,
            u64::MAX as nat,
        ) {
            Some(n) => n,
            None => 100,
        },
        config::variable(vars, "GW_MAX_RETRY_DELAY_MS"@) matches Some(value) ==> config::config_of(
            vars,
        ).max_retry_delay_ms == match numbers::parse_unsigned(
            text::trim(value),
            10,
            u64::MAX as nat,
        ) {
            Some(n) => n,
            None => 5000,
        },
{
    let digits = numbers::decimal(n as nat);
    numbers::digits_have_value(n as nat, 10);
    numbers::number_reads_back(n as nat, 10, u64::MAX as nat);
    assert(!text::is_whitespace(digits[0]));
    assert(!text::is_whitespace(digits.last()));
    laws_primitives::trim_takes_off_the_ends(before, digits, behind);
}

/// A list keeps each part that is not blank, trimmed and in its order.
pub proof fn lists_keep_their_parts(
    front: Seq<Seq<char>>,
    rest: Seq<Seq<char>>,
    part: Seq<char>,
)
    ensures
        config::listed(front + rest) == config::listed(front) + config::listed(rest),
        config::listed(seq![part]) == if blank(part) {
            Seq::empty()
        } else {
            seq![text::trim(part)]
        },
        config::listed(Seq::empty()).len() == 0,
    decreases rest.len(),
{
    let none = Seq::<Seq<char>>::empty();
    trimming_leaves_something(part);
    assert(config::listed(seq![part].drop_last()) =~= none);
    assert(config::listed(seq![part]) =~= if blank(part) {
        none
    } else {
        seq![text::trim(part)]
    });
    if rest.len() == 0 {
        assert(front + rest =~= front);
        assert(config::listed(front) + config::listed(rest) =~= config::listed(front));
    } else {
        lists_keep_their_parts(front, rest.drop_last(), part);
        assert((front + rest).drop_last() =~= front + rest.drop_last());
        assert(config::listed(front + rest) =~= config::listed(front) + config::listed(rest));
    }
}

/// The fallbacks are the names between the commas of a variable, each without
/// the white space around it and none of them empty; there is one where the
/// variable is missing or blank, and there are none where it is one space.
pub proof fn fallbacks_are_listed(
    vars: Seq<(Seq<char>, Seq<char>)>,
    more: Seq<(Seq<char>, Seq<char>)>,
    part: Seq<char>,
    rest: Seq<char>,
)
    requires
        !part.contains(','),
        !blank(part),
        !blank(rest),
        config::variable(vars, "GW_FALLBACK_MODELS"@) == Some(part + seq![','] + rest),
        config::variable(more, "GW_FALLBACK_MODELS"@) == Some(rest),
    ensures
        config::config_of(vars).fallbacks == seq![text::trim(part)] + config::config_of(
            more,
        ).fallbacks,
{
    let value = part + seq![','] + rest;
    assert(value[part.len() as int] == ',');
    assert(!blank(value)) by {
        assert(!text::is_whitespace(value[part.len() as int]));
    }
    assert(value != seq![' ']) by {
        assert(seq![' '][0] == ' ');
        assert(!text::is_whitespace(value[part.len() as int]));
    }
    assert(rest != seq![' ']) by {
        if rest == seq![' '] {
            assert(blank(rest));
        }
    }
    trimming_leaves_something(value);
    trimming_leaves_something(rest);
    laws_primitives::lists_split_at_commas(part, rest);
    let parts = text::pieces(rest, seq![','], 0);
    lists_keep_their_parts(seq![part], parts, part);
}

/// The fallbacks of a variable without a comma, of one that is missing, and of
/// one that is a space.
pub proof fn one_fallback_or_none(vars: Seq<(Seq<char>, Seq<char>)>, part: Seq<char>)
    requires
        !part.contains(','),
        !blank(part),
    ensures
        config::variable(vars, "GW_FALLBACK_MODELS"@) == Some(part) ==> config::config_of(
            vars,
        ).fallbacks == seq![text::trim(part)],
        config::variable(vars, "GW_FALLBACK_MODELS"@) matches Some(value) ==> !blank(value)
            ==> config::config_of(vars).fallbacks == config::listed(
            text::pieces(value, seq![','], 0),
        ),
        config::variable(vars, "GW_FALLBACK_MODELS"@) is None ==> config::config_of(vars).fallbacks
            == seq!["fail-try"@],
        config::variable(vars, "GW_FALLBACK_MODELS"@) == Some(seq![' ']) ==> config::config_of(
            vars,
        ).fallbacks.len() == 0,
        config::variable(vars, "GW_FALLBACK_MODELS"@) matches Some(value) ==> blank(value) && value
            != seq![' '] ==> config::config_of(vars).fallbacks == seq!["fail-try"@],
{
    reveal_strlit("fail-try");
    let name = "fail-try"@;
    let none = Seq::<Seq<char>>::empty();
    let space = seq![' '];
    assert(part != space) by {
        if part == space {
            assert(blank(part));
        }
    }
    trimming_leaves_something(part);
    if let Some(value) = config::variable(vars, "GW_FALLBACK_MODELS"@) {
        trimming_leaves_something(value);
        if value == space {
            assert(blank(value));
        }
    }
    assert(!name.contains(','));
    assert(!text::is_whitespace(name[0]) && !text::is_whitespace(name.last()));
    assert(!blank(name));
    laws_primitives::trim_takes_off_the_ends(Seq::empty(), name, Seq::empty());
    assert(Seq::<char>::empty() + name + Seq::<char>::empty() =~= name);
    laws_primitives::lists_split_at_commas(part, Seq::empty());
    laws_primitives::lists_split_at_commas(name, Seq::empty());
    lists_keep_their_parts(none, none, part);
    lists_keep_their_parts(none, none, name);
}

/// Three hosts are the machine itself, and no others are.
pub proof fn three_hosts_are_loopback(host: Seq<char>)
    ensures
        config::loopback(host) <==> host == "127.0.0.1"@ || host == "::1"@ || host == "localhost"@,
{
}

// ---------------------------------------------------------------------------
// Routes
// ---------------------------------------------------------------------------

/// Slashes behind a text that ends in none are taken off, all of them.
pub proof fn slashes_are_taken_off(path: Seq<char>, slashes: Seq<char>)
    requires
        path.len() > 0 ==> path.last() != '/',
        forall|i: int| 0 <= i < slashes.len() ==> #[trigger] slashes[i] == '/',
    ensures
        routes::without_slashes(path + slashes) == path,
    decreases slashes.len(),
{
    let whole = path + slashes;
    if slashes.len() > 0 {
        assert(slashes[slashes.len() - 1] == '/');
        assert(whole.drop_last() =~= path + slashes.drop_last());
        slashes_are_taken_off(path, slashes.drop_last());
    } else {
        assert(whole =~= path);
    }
}

/// Slashes at the end of a path and a query behind it make no difference.
pub proof fn queries_and_slashes_do_not_count(
    path: Seq<char>,
    slashes: Seq<char>,
    query: Seq<char>,
)
    requires
        !path.contains('?'),
        path.len() > 0 ==> path.last() != '/',
        forall|i: int| 0 <= i < slashes.len() ==> #[trigger] slashes[i] == '/',
    ensures
        routes::clean_path(path + slashes + seq!['?'] + query) == path,
        routes::clean_path(path + slashes) == path,
        routes::clean_path(path) == path,
{
    let none = Seq::<char>::empty();
    let front = path + slashes;
    assert(!front.contains('?')) by {
        if front.contains('?') {
            let i = front.index_of('?');
            if i < path.len() {
                assert(path.contains(path[i]));
            } else {
                assert(slashes[i - path.len()] == '/');
            }
        }
    }
    laws_primitives::item_behind_a_front(none, front, '?', query);
    let whole = front + seq!['?'] + query;
    assert(none + front + seq!['?'] + query =~= whole);
    assert(whole.take(front.len() as int) =~= front);
    slashes_are_taken_off(path, slashes);
    slashes_are_taken_off(path, none);
    assert(path + none =~= path);
    assert forall|j: int| 0 <= j < front.len() implies front[j] != '?' by {
        assert(front.contains(front[j]));
    }
    text::position_absent(front, '?', 0);
    assert forall|j: int| 0 <= j < path.len() implies path[j] != '?' by {
        assert(path.contains(path[j]));
    }
    text::position_absent(path, '?', 0);
}

/// Where a request goes: `OPTIONS` to the preflight; `GET` of one of three
/// paths to the catalog; one path, by any other method, to Prism; all else to
/// the upstream. Slashes at the end and a query do not count.
pub proof fn routes_by_method_and_path(
    method: Seq<char>,
    path: Seq<char>,
    slashes: Seq<char>,
    query: Seq<char>,
)
    requires
        !path.contains('?'),
        path.len() > 0 ==> path.last() != '/',
        forall|i: int| 0 <= i < slashes.len() ==> #[trigger] slashes[i] == '/',
    ensures
        ({
            let to = if same(method, "options"@) {
                Route::Preflight
            } else if same(method, "get"@) && (path == "/v1/models"@ || path == "/models"@ || path
                == "/prism-openai/v1/models"@) {
                Route::ModelsCatalog
            } else if path == "/prism-openai/v1/chat/completions"@ {
                Route::PrismCompletions
            } else {
                Route::Proxy
            };
            &&& routes::route_of(method, path + slashes + seq!['?'] + query) == to
            &&& routes::route_of(method, path + slashes) == to
            &&& routes::route_of(method, path) == to
        }),
{
    queries_and_slashes_do_not_count(path, slashes, query);
}

/// The greeting is a `HEAD` of one path.
pub proof fn one_request_is_a_greeting(method: Seq<char>, path: Seq<char>)
    ensures
        routing::greeting(method, path) <==> same(method, "HEAD"@) && path == "/api/hello"@,
{
}

/// The headers of the answers that have no body of their own.
pub proof fn bare_answers_are_written()
    ensures
        routes::preflight_fields() == seq![
            ("Access-Control-Allow-Origin"@, "*"@),
            ("Access-Control-Allow-Methods"@, "GET, POST, OPTIONS"@),
            ("Access-Control-Allow-Headers"@, "*"@),
            ("Content-Length"@, "0"@),
            ("Connection"@, "close"@),
        ],
        routing::hello_fields() == seq![
            ("Content-Length"@, "0"@),
            ("X-Content-Type-Options"@, "nosniff"@),
            ("Connection"@, "close"@),
        ],
{
}

// ---------------------------------------------------------------------------
// The catalog
// ---------------------------------------------------------------------------

/// The order of names is that of their first characters that differ, and a
/// name goes before any that begins with it.
pub proof fn names_are_ordered_by_their_characters(
    front: Seq<char>,
    x: char,
    y: char,
    a: Seq<char>,
    b: Seq<char>,
)
    ensures
        (x as int) < (y as int) ==> routes::precedes(front + seq![x] + a, front + seq![y] + b)
            && !routes::precedes(front + seq![y] + b, front + seq![x] + a),
        routes::precedes(front, front + seq![x] + a),
        !routes::precedes(front + seq![x] + a, front),
        !routes::precedes(front, front),
    decreases front.len(),
{
    let p = front + seq![x] + a;
    let q = front + seq![y] + b;
    if front.len() > 0 {
        let less = front.drop_first();
        names_are_ordered_by_their_characters(less, x, y, a, b);
        assert(p.drop_first() =~= less + seq![x] + a);
        assert(q.drop_first() =~= less + seq![y] + b);
    } else {
        assert(p[0] == x && q[0] == y);
    }
}

/// The models of the catalog: one is always there, and the default is beside
/// it, in the order of names, unless it is the same or empty.
pub proof fn catalogs_list_the_default(default_model: Seq<char>)
    ensures
        ({
            let models = routes::catalog_models(default_model);
            let base = "gpt-5.6-sol"@;
            &&& default_model.len() == 0 || default_model == base ==> models == seq![base]
            &&& default_model.len() > 0 && default_model != base && routes::precedes(
                default_model,
                base,
            ) ==> models == seq![default_model, base]
            &&& default_model.len() > 0 && default_model != base && !routes::precedes(
                default_model,
                base,
            ) ==> models == seq![base, default_model]
        }),
{
}

/// Each model is listed by itself and with each of the four efforts.
pub proof fn models_are_listed_with_efforts(
    front: Seq<Seq<char>>,
    rest: Seq<Seq<char>>,
    model: Seq<char>,
)
    ensures
        routes::catalog_names(front + rest) == routes::catalog_names(front) + routes::catalog_names(
            rest,
        ),
        routes::catalog_names(seq![model]) == seq![
            model,
            model + "-low"@,
            model + "-medium"@,
            model + "-high"@,
            model + "-xhigh"@,
        ],
        routes::catalog_names(Seq::empty()).len() == 0,
    decreases rest.len(),
{
    let none = Seq::<Seq<char>>::empty();
    assert(routes::catalog_names(seq![model].drop_last()) =~= none);
    assert(routes::catalog_names(seq![model]) =~= routes::model_names(model));
    if rest.len() == 0 {
        assert(front + rest =~= front);
        assert(routes::catalog_names(front) + routes::catalog_names(rest)
            =~= routes::catalog_names(front));
    } else {
        models_are_listed_with_efforts(front, rest.drop_last(), model);
        assert((front + rest).drop_last() =~= front + rest.drop_last());
        assert(routes::catalog_names(front + rest) =~= routes::catalog_names(front)
            + routes::catalog_names(rest));
    }
}

/// The entries of the catalog stand in a row with commas between them, each
/// with the name of its model.
pub proof fn entries_are_written_in_a_row(
    front: Seq<Seq<char>>,
    rest: Seq<Seq<char>>,
    name: Seq<char>,
)
    requires
        front.len() > 0,
        rest.len() > 0,
    ensures
        routes::catalog_entries(front + rest) == routes::catalog_entries(front) + seq![',']
            + routes::catalog_entries(rest),
        routes::catalog_entries(seq![name]) == "{\"id\":\""@ + name
            + "\",\"object\":\"model\",\"created\":1700000000,\"owned_by\":\"system\"}"@,
    decreases rest.len(),
{
    let both = front + rest;
    if rest.len() == 1 {
        assert(both.drop_last() =~= front);
        assert(both.last() == rest[0]);
    } else {
        entries_are_written_in_a_row(front, rest.drop_last(), name);
        assert(both.drop_last() =~= front + rest.drop_last());
        assert(both.last() == rest.last());
        assert(routes::catalog_entries(both) =~= routes::catalog_entries(front) + seq![',']
            + routes::catalog_entries(rest));
    }
}

/// The catalog in writing.
pub proof fn catalogs_are_written(default_model: Seq<char>)
    ensures
        routes::catalog_body(default_model) == "{\"object\":\"list\",\"data\":["@
            + routes::catalog_entries(
            routes::catalog_names(routes::catalog_models(default_model)),
        ) + "]}"@,
        routes::catalog_fields(default_model) == seq![
            ("Content-Type"@, "application/json"@),
            ("Access-Control-Allow-Origin"@, "*"@),
            (
                "Content-Length"@,
                numbers::decimal(encode_utf8(routes::catalog_body(default_model)).len()),
            ),
            ("Connection"@, "close"@),
        ],
{
}

} // verus!
