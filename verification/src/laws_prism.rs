//! What holds of completions by Prism, whatever is asked.
use crate::completion;
use crate::config;
use crate::laws_http;
use crate::laws_relay;
use crate::laws_text;
use crate::prism;
use crate::routes;
use crate::routing;
use crate::text;
use vstd::prelude::*;
use vstd::utf8::*;

verus! {

broadcast use vstd::string::group_string_axioms;

// ---------------------------------------------------------------------------
// The conversation
// ---------------------------------------------------------------------------

/// The prompt is there, once, and nothing else is changed: the conversation
/// that is sent has a message of the system, the first of which begins with
/// the prompt, and every other message is as the client has sent it.
pub proof fn prompt_is_injected(messages: Seq<(Seq<char>, Seq<char>)>, prompt: Seq<char>)
    ensures
        ({
            let items = prism::input_items(messages, prompt);
            let front = items.len() - messages.len();
            exists|k: int|
                0 <= k < items.len() && items[k].role == "system"@ && #[trigger] starts_with(
                    items[k].content[0].1,
                    prompt,
                ) && (forall|j: int| 0 <= j < k ==> (#[trigger] items[j]).role != "system"@) && (
                forall|j: int|
                    front <= j < items.len() && j != k ==> #[trigger] items[j]
                        == prism::message_item(messages[j - front].0, messages[j - front].1))
        }),
        prism::input_items(messages, prompt).len() == messages.len() + (if prism::first_system(
            messages,
            0,
        ) is None {
            1nat
        } else {
            0
        }),
{
    let items = prism::input_items(messages, prompt);
    let front = items.len() - messages.len();
    prism::first_system_is_first(messages, 0);
    let k = match prism::first_system(messages, 0) {
        Some(k) => k,
        None => 0,
    };
    match prism::first_system(messages, 0) {
        Some(_) => {
            let said = prism::prompted(prompt, messages[k].1);
            assert(said.take(prompt.len() as int) =~= prompt);
            assert forall|j: int| 0 <= j < k implies (#[trigger] items[j]).role != "system"@ by {
                assert(messages[j].0 != "system"@);
            }
        },
        None => {
            assert(prompt.take(prompt.len() as int) =~= prompt);
        },
    }
    assert(starts_with(items[k].content[0].1, prompt));
}

/// The text begins with `front`.
pub open spec fn starts_with(s: Seq<char>, front: Seq<char>) -> bool {
    s.len() >= front.len() && s.take(front.len() as int) == front
}

// ---------------------------------------------------------------------------
// Models
// ---------------------------------------------------------------------------

/// No effort can be split off the model's name.
pub open spec fn bare_model(model: Seq<char>) -> bool {
    prism::split_model(model).1 is None
}

/// A text with a suffix ends with it, and with no other of the same length.
proof fn suffix_ends(s: Seq<char>, suffix: Seq<char>, other: Seq<char>)
    ensures
        prism::ends_with(s + suffix, suffix),
        (s + suffix).take(s.len() as int) == s,
        other.len() <= suffix.len() ==> (prism::ends_with(s + suffix, other) <==> suffix.skip(
            suffix.len() - other.len(),
        ) == other),
{
    let whole = s + suffix;
    assert(whole.subrange(s.len() as int, whole.len() as int) =~= suffix);
    assert(whole.take(s.len() as int) =~= s);
    if other.len() <= suffix.len() {
        assert(whole.subrange(whole.len() - other.len(), whole.len() as int) =~= suffix.skip(
            suffix.len() - other.len(),
        ));
    }
}

/// Every name that the catalog lists of a model stands for the model and for
/// the effort that the name says, unless another effort is asked for.
pub proof fn catalog_names_resolve(model: Seq<char>, default_model: Seq<char>)
    ensures
        ({
            let names = routes::model_names(model);
            &&& bare_model(model) ==> prism::resolved(Some(names[0]), None, default_model) == (
                model,
                "medium"@,
            )
            &&& prism::resolved(Some(names[1]), None, default_model) == (model, "low"@)
            &&& prism::resolved(Some(names[2]), None, default_model) == (model, "medium"@)
            &&& prism::resolved(Some(names[3]), None, default_model) == (model, "high"@)
            &&& prism::resolved(Some(names[4]), None, default_model) == (model, "xhigh"@)
        }),
{
    let x = "-xhigh"@;
    let h = "-high"@;
    let m = "-medium"@;
    let l = "-low"@;
    reveal_strlit("-xhigh");
    reveal_strlit("-high");
    reveal_strlit("-medium");
    reveal_strlit("-low");
    reveal_strlit("xhigh");
    reveal_strlit("xhight");
    reveal_strlit("high");
    reveal_strlit("medium");
    reveal_strlit("low");
    assert(text::lower("medium"@).len() == 6);
    assert(text::lower("low"@).len() == 3);
    assert(text::lower("high"@).len() == 4);
    assert(text::lower("xhigh"@).len() == 5);
    assert(text::lower("xhight"@)[0] == 'x');
    assert(text::lower("medium"@)[0] == 'm');
    suffix_ends(model, l, l);
    suffix_ends(model, m, x);
    suffix_ends(model, m, h);
    suffix_ends(model, m, m);
    suffix_ends(model, h, h);
    suffix_ends(model, x, x);
    assert(m.skip(1)[0] == 'm');
    assert(m.skip(2)[0] == 'e');
    // A longer suffix would need the last letters to be its own.
    not_a_suffix(model + l, x);
    not_a_suffix(model + l, h);
    not_a_suffix(model + l, m);
    not_a_suffix(model + h, x);
}

/// The last but fourth or the last letter tells the suffixes apart.
proof fn not_a_suffix(s: Seq<char>, suffix: Seq<char>)
    requires
        s.len() >= 4,
        suffix.len() >= 5,
        s.last() != suffix.last() || (s.len() >= 5 && s[s.len() - 5] != suffix[suffix.len() - 5]),
    ensures
        !prism::ends_with(s, suffix),
{
    if prism::ends_with(s, suffix) {
        let at = s.len() - suffix.len();
        let found = s.subrange(at, s.len() as int);
        assert(found == suffix);
        assert(found.last() == s.last());
        assert(found[suffix.len() - 5] == s[s.len() - 5]);
    }
}

/// An effort that is resolved is one that Prism knows.
pub proof fn efforts_are_known(
    model: Option<Seq<char>>,
    effort: Option<Seq<char>>,
    default_model: Seq<char>,
)
    ensures
        ({
            let known = prism::resolved(model, effort, default_model).1;
            known == "low"@ || known == "medium"@ || known == "high"@ || known == "xhigh"@
        }),
{
}

// ---------------------------------------------------------------------------
// Credentials
// ---------------------------------------------------------------------------

/// Credentials in one key.
pub open spec fn packed(credentials: prism::CredentialsModel) -> Seq<char> {
    let bars = "|||"@;
    let tail = bars + credentials.sandbox_token + bars + credentials.user_id + bars
        + credentials.project_id;
    match credentials.sentinel_token {
        Some(token) => credentials.cookie + bars + token + tail,
        None => credentials.cookie + tail,
    }
}

/// A field that can be packed: trimmed, and without a bar.
pub open spec fn packable(s: Seq<char>) -> bool {
    laws_text::trimmed(s) && !s.contains('|')
}

/// The last separator stands before a text that has none of its characters.
proof fn last_part_splits_off(front: Seq<char>, part: Seq<char>, limit: nat)
    requires
        !part.contains('|'),
        limit > 1,
    ensures
        prism::last_parts(front + "|||"@ + part, "|||"@, limit) == prism::last_parts(
            front,
            "|||"@,
            (limit - 1) as nat,
        ).push(part),
{
    reveal_strlit("|||");
    let bars = "|||"@;
    let whole = front + bars + part;
    let at = front.len() as int;
    last_bars(front, part, whole.len() as int);
    assert(whole.take(at) =~= front);
    assert(whole.skip(at + 3) =~= part);
}

/// The last separator before a text that has none of its characters.
proof fn last_bars(front: Seq<char>, part: Seq<char>, to: int)
    requires
        !part.contains('|'),
        front.len() + 3 <= to <= front.len() + 3 + part.len(),
    ensures
        prism::find_last(front + "|||"@ + part, "|||"@, to) == Some(front.len() as int),
    decreases to,
{
    reveal_strlit("|||");
    let bars = "|||"@;
    let whole = front + bars + part;
    let found = whole.subrange(to - 3, to);
    if to == front.len() + 3 {
        assert(found =~= bars);
    } else {
        let j = to - 1 - front.len() - 3;
        assert(part.contains(part[j]));
        assert(found[2] == part[j]);
        assert(bars[2] == '|');
        last_bars(front, part, to - 1);
    }
}

/// A key in which credentials are packed is unpacked to the same credentials,
/// with a sentinel token or without; the cookie may hold separators of its own
/// if there is a sentinel token.
pub proof fn packed_credentials_unpack(
    credentials: prism::CredentialsModel,
    headers: Seq<(Seq<char>, Seq<char>)>,
    config: config::ConfigModel,
)
    requires
        prism::packed_key(headers) == packed(credentials),
        laws_text::trimmed(credentials.cookie),
        !text::occurs_at(credentials.cookie, "Bearer "@, 0),
        credentials.sentinel_token matches Some(token) ==> packable(token),
        credentials.sentinel_token is None ==> !credentials.cookie.contains('|'),
        packable(credentials.sandbox_token),
        packable(credentials.user_id),
        packable(credentials.project_id),
    ensures
        prism::credentials_of(headers, config) == credentials,
{
    reveal_strlit("|||");
    let bars = "|||"@;
    let c = credentials;
    let key = packed(c);
    let front = match c.sentinel_token {
        Some(token) => c.cookie + bars + token,
        None => c.cookie,
    };
    let two = front + bars + c.sandbox_token;
    let three = two + bars + c.user_id;
    assert(key =~= three + bars + c.project_id);
    last_part_splits_off(three, c.project_id, 5);
    last_part_splits_off(two, c.user_id, 4);
    last_part_splits_off(front, c.sandbox_token, 3);
    match c.sentinel_token {
        Some(token) => {
            last_part_splits_off(c.cookie, token, 2);
        },
        None => {
            no_bars(c.cookie, c.cookie.len() as int);
        },
    }
    let at = three.len() as int;
    assert(key.subrange(at, at + 3) =~= bars);
    assert(text::find_from(key, bars, 0) is Some) by {
        text::find_is_least(key, bars, 0);
        assert(text::occurs_at(key, bars, at));
    }
    let parts = prism::key_parts(key);
    laws_text::trim_of_trimmed(c.cookie);
    laws_text::trim_of_trimmed(c.sandbox_token);
    laws_text::trim_of_trimmed(c.user_id);
    laws_text::trim_of_trimmed(c.project_id);
    match c.sentinel_token {
        Some(token) => {
            laws_text::trim_of_trimmed(token);
            assert(parts =~= seq![c.cookie, token, c.sandbox_token, c.user_id, c.project_id]);
        },
        None => {
            assert(parts =~= seq![c.cookie, c.sandbox_token, c.user_id, c.project_id]);
        },
    }
}

/// A text without a bar has no separator.
proof fn no_bars(s: Seq<char>, to: int)
    requires
        !s.contains('|'),
        0 <= to <= s.len(),
    ensures
        prism::find_last(s, "|||"@, to) is None,
    decreases to,
{
    reveal_strlit("|||");
    if to >= 3 {
        assert(s.contains(s[to - 3]));
        assert(s.subrange(to - 3, to)[0] == s[to - 3]);
        assert("|||"@[0] == '|');
        no_bars(s, to - 1);
    }
}

/// A key that is not packed leaves the configured credentials.
pub proof fn short_keys_change_nothing(
    headers: Seq<(Seq<char>, Seq<char>)>,
    config: config::ConfigModel,
)
    requires
        forall|i: int|
            0 <= i < prism::packed_key(headers).len() ==> #[trigger] prism::packed_key(headers)[i]
                != '|' && prism::packed_key(headers)[i] != ',',
    ensures
        prism::credentials_of(headers, config) == prism::configured(config),
{
    reveal_strlit("|||");
    reveal_strlit(",");
    let key = prism::packed_key(headers);
    text::find_is_least(key, "|||"@, 0);
    if let Some(at) = text::find_from(key, "|||"@, 0) {
        assert(key.subrange(at, at + 3)[0] == key[at]);
        assert("|||"@[0] == '|');
    }
    no_comma(key, key.len() as int);
}

/// A text without a comma has no separator.
proof fn no_comma(s: Seq<char>, to: int)
    requires
        forall|i: int| 0 <= i < s.len() ==> #[trigger] s[i] != ',',
        0 <= to <= s.len(),
    ensures
        prism::find_last(s, ","@, to) is None,
    decreases to,
{
    reveal_strlit(",");
    if to >= 1 {
        assert(s.subrange(to - 1, to)[0] == s[to - 1]);
        assert(","@[0] == ',');
        no_comma(s, to - 1);
    }
}

// ---------------------------------------------------------------------------
// Answers
// ---------------------------------------------------------------------------

/// The answers that the gateway makes itself are read as they are meant: a
/// preflight, a greeting, the catalog, a completion and a stream each have a
/// head that ends where it should, with the status and the headers that were
/// written and no others.
pub proof fn own_answers_read_back(default_model: Seq<char>, json: Seq<char>, rest: Seq<u8>)
    ensures
        laws_relay::answers_with(200, "OK"@, routes::preflight_fields(), rest),
        laws_relay::answers_with(200, "OK"@, routing::hello_fields(), rest),
        laws_relay::answers_with(200, "OK"@, routes::catalog_fields(default_model), rest),
        laws_relay::answers_with(200, "OK"@, completion::json_fields(json), rest),
        laws_relay::answers_with(200, "OK"@, completion::stream_fields(), rest),
{
    reveal_strlit("OK");
    reveal_strlit("Access-Control-Allow-Origin");
    reveal_strlit("Access-Control-Allow-Methods");
    reveal_strlit("Access-Control-Allow-Headers");
    reveal_strlit("*");
    reveal_strlit("GET, POST, OPTIONS");
    reveal_strlit("Content-Length");
    reveal_strlit("0");
    reveal_strlit("Connection");
    reveal_strlit("close");
    reveal_strlit("X-Content-Type-Options");
    reveal_strlit("nosniff");
    reveal_strlit("Content-Type");
    reveal_strlit("application/json");
    reveal_strlit("text/event-stream");
    reveal_strlit("Cache-Control");
    reveal_strlit("no-cache");
    laws_relay::decimal_is_clean(encode_utf8(routes::catalog_body(default_model)).len());
    laws_relay::decimal_is_clean(encode_utf8(json).len());
    let preflight = routes::preflight_fields();
    assert(laws_http::clean_field(preflight[0]));
    assert(laws_http::clean_field(preflight[1]));
    assert(laws_http::clean_field(preflight[2]));
    assert(laws_http::clean_field(preflight[3]));
    assert(laws_http::clean_field(preflight[4]));
    let catalog = routes::catalog_fields(default_model);
    assert(laws_http::clean_field(catalog[0]));
    assert(laws_http::clean_field(catalog[2]));
    let stream = completion::stream_fields();
    assert(laws_http::clean_field(stream[0]));
    assert(laws_http::clean_field(stream[1]));
    let hello = routing::hello_fields();
    assert(laws_http::clean_field(hello[1]));
    laws_relay::answer_reads_back(200, "OK"@, preflight, rest);
    laws_relay::answer_reads_back(200, "OK"@, hello, rest);
    laws_relay::answer_reads_back(200, "OK"@, catalog, rest);
    laws_relay::answer_reads_back(200, "OK"@, completion::json_fields(json), rest);
    laws_relay::answer_reads_back(200, "OK"@, stream, rest);
}

} // verus!
