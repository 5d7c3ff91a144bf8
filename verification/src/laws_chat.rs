//! What is sent for a completion, and what becomes of the replies.
use crate::completion;
use crate::config;
use crate::http;
use crate::ids;
use crate::laws_settings;
use crate::numbers;
use crate::prism;
use crate::prism::{ContentPart, ContentValue, CredentialsModel, InputModel};
use crate::prism_reply;
use crate::prism_reply::{PollEvent, PollModel, PrismOutputContent, PrismOutputMessage, PrismResponse, StepModel};
use crate::relay;
use crate::text;
use vstd::prelude::*;
use vstd::utf8::*;

verus! {

broadcast use vstd::string::group_string_axioms;

// ---------------------------------------------------------------------------
// Contents
// ---------------------------------------------------------------------------

/// The text of a content is that of its parts in a row: a part that is a text,
/// or has one, gives it, and any other part gives none.
pub proof fn contents_are_their_parts_in_a_row(
    front: Seq<ContentPart>,
    rest: Seq<ContentPart>,
    part: ContentPart,
)
    ensures
        prism::parts_text(front + rest) == prism::parts_text(front) + prism::parts_text(rest),
        prism::parts_text(seq![part]) == match part {
            ContentPart::Text(t) => t@,
            ContentPart::Object { text } => text@,
            ContentPart::Other => Seq::empty(),
        },
        prism::parts_text(Seq::empty()).len() == 0,
    decreases rest.len(),
{
    let none = Seq::<char>::empty();
    assert(prism::parts_text(seq![part].drop_last()) =~= none);
    assert(prism::parts_text(seq![part]) =~= prism::part_text(part));
    if rest.len() == 0 {
        assert(front + rest =~= front);
        assert(prism::parts_text(front) + prism::parts_text(rest) =~= prism::parts_text(front));
    } else {
        contents_are_their_parts_in_a_row(front, rest.drop_last(), part);
        assert((front + rest).drop_last() =~= front + rest.drop_last());
        assert(prism::parts_text(front + rest) =~= prism::parts_text(front) + prism::parts_text(
            rest,
        ));
    }
}

/// A content that is a text is that text, one with parts is their texts, and
/// any other is its JSON.
pub proof fn contents_are_texts(value: ContentValue)
    ensures
        value matches ContentValue::Text(t) ==> prism::content_text(value) == t@,
        value matches ContentValue::Parts(parts) ==> prism::content_text(value)
            == prism::parts_text(parts@),
        value matches ContentValue::Other(json) ==> prism::content_text(value) == json@,
{
}

// ---------------------------------------------------------------------------
// The conversation
// ---------------------------------------------------------------------------

/// In a conversation with a message of the system, the prompt and an empty
/// line go before the first such message's text; each message is sent in its
/// place, with its role and its text.
pub proof fn prompts_go_before_the_system_message(
    front: Seq<(Seq<char>, Seq<char>)>,
    said: Seq<char>,
    rest: Seq<(Seq<char>, Seq<char>)>,
    prompt: Seq<char>,
)
    requires
        forall|i: int| 0 <= i < front.len() ==> #[trigger] front[i].0 != "system"@,
    ensures
        ({
            let items = prism::input_items(front + seq![("system"@, said)] + rest, prompt);
            let n = front.len() as int;
            &&& items.len() == n + 1 + rest.len()
            &&& items[n] == (InputModel {
                item_type: "message"@,
                role: "system"@,
                content: seq![("input_text"@, prompt + seq!['\n', '\n'] + said)],
            })
            &&& forall|i: int|
                0 <= i < n ==> #[trigger] items[i] == (InputModel {
                    item_type: "message"@,
                    role: front[i].0,
                    content: seq![("input_text"@, front[i].1)],
                })
            &&& forall|i: int|
                0 <= i < rest.len() ==> #[trigger] items[n + 1 + i] == (InputModel {
                    item_type: "message"@,
                    role: rest[i].0,
                    content: seq![("input_text"@, rest[i].1)],
                })
        }),
{
    reveal_strlit("\n\n");
    let all = front + seq![("system"@, said)] + rest;
    let n = front.len() as int;
    assert("\n\n"@ =~= seq!['\n', '\n']);
    prism::first_system_is_first(all, 0);
    assert(all[n] == ("system"@, said));
    assert(all[n].0 == "system"@);
    assert forall|j: int| 0 <= j < n implies #[trigger] all[j].0 != "system"@ by {
        assert(all[j] == front[j]);
    }
    assert(prism::first_system(all, 0) == Some(n)) by {
        match prism::first_system(all, 0) {
            Some(k) => {
                assert(!(k < n));
                assert(!(k > n));
            },
            None => {
                assert(all[n].0 != "system"@);
            },
        }
    }
    let items = prism::input_items(all, prompt);
    assert forall|i: int| 0 <= i < n implies #[trigger] items[i] == (InputModel {
        item_type: "message"@,
        role: front[i].0,
        content: seq![("input_text"@, front[i].1)],
    }) by {
        assert(all[i] == front[i]);
    }
    assert forall|i: int| 0 <= i < rest.len() implies #[trigger] items[n + 1 + i] == (InputModel {
        item_type: "message"@,
        role: rest[i].0,
        content: seq![("input_text"@, rest[i].1)],
    }) by {
        assert(all[n + 1 + i] == rest[i]);
    }
}

/// In a conversation without a message of the system, the prompt is one of its
/// own at the front, and all the others follow.
pub proof fn prompts_may_stand_alone(messages: Seq<(Seq<char>, Seq<char>)>, prompt: Seq<char>)
    requires
        forall|i: int| 0 <= i < messages.len() ==> #[trigger] messages[i].0 != "system"@,
    ensures
        ({
            let items = prism::input_items(messages, prompt);
            &&& items.len() == 1 + messages.len()
            &&& items[0] == (InputModel {
                item_type: "message"@,
                role: "system"@,
                content: seq![("input_text"@, prompt)],
            })
            &&& forall|i: int|
                0 <= i < messages.len() ==> #[trigger] items[1 + i] == (InputModel {
                    item_type: "message"@,
                    role: messages[i].0,
                    content: seq![("input_text"@, messages[i].1)],
                })
        }),
{
    prism::first_system_is_first(messages, 0);
}

/// What a completion is started with, field by field.
pub proof fn starts_are_made(
    request: prism::OpenAiChatRequest,
    config: config::ConfigModel,
    credentials: CredentialsModel,
    conversation_id: Seq<char>,
)
    ensures
        ({
            let start = prism::start_of(request, config, credentials, conversation_id);
            let (model, effort) = prism::resolved(
                prism::optional(request.model),
                prism::optional(request.reasoning_effort),
                config.prism_default_model,
            );
            &&& start.model == model
            &&& start.reasoning_effort == effort
            &&& start.input == prism::input_items(
                prism::conversation(request.messages@),
                config.prism_system_prompt,
            )
            &&& start.project_id == credentials.project_id
            &&& start.user_id == credentials.user_id
            &&& start.sandbox_token == credentials.sandbox_token
            &&& start.sandbox_url == prism::url_under(
                config.prism_base_url,
                "/s/sandboxes/proxy/"@,
            )
            &&& start.frontend_origin == config.prism_base_url
            &&& start.conversation_id == conversation_id
        }),
{
}

/// A path goes behind its base, with none of the slashes that the base ends
/// in.
pub proof fn urls_are_joined(base: Seq<char>, slashes: Seq<char>, path: Seq<char>)
    requires
        base.len() > 0 ==> base.last() != '/',
        forall|i: int| 0 <= i < slashes.len() ==> #[trigger] slashes[i] == '/',
    ensures
        prism::url_under(base + slashes, path) == base + path,
{
    laws_settings::slashes_are_taken_off(base, slashes);
}

// ---------------------------------------------------------------------------
// Credentials
// ---------------------------------------------------------------------------

/// The key of a client is its `Authorization`, without `Bearer` and a space
/// where it begins so; without such a header it is its `X-Api-Key`, and
/// without either it is empty.
pub proof fn keys_are_found(headers: Seq<(Seq<char>, Seq<char>)>, key: Seq<char>)
    ensures
        http::first_value(headers, "authorization"@) == Some("Bearer "@ + key)
            ==> prism::packed_key(headers) == key,
        http::first_value(headers, "authorization"@) == Some(key) && !text::occurs_at(
            key,
            "Bearer "@,
            0,
        ) ==> prism::packed_key(headers) == key,
        http::first_value(headers, "authorization"@) is None && http::first_value(
            headers,
            "x-api-key"@,
        ) == Some(key) ==> prism::packed_key(headers) == key,
        http::first_value(headers, "authorization"@) is None && http::first_value(
            headers,
            "x-api-key"@,
        ) is None ==> prism::packed_key(headers).len() == 0,
{
    let prefix = "Bearer "@;
    let whole = prefix + key;
    let n = prefix.len() as int;
    assert(whole.subrange(0, 0 + n) =~= prefix);
    assert(whole.skip(n) =~= key);
}

/// The last separator stands before a text without it.
proof fn last_separator(front: Seq<char>, sep: Seq<char>, part: Seq<char>, to: int)
    requires
        sep.len() > 0,
        front.len() + sep.len() <= to <= front.len() + sep.len() + part.len(),
        forall|j: int|
            front.len() < j <= front.len() + part.len() ==> !text::occurs_at(
                front + sep + part,
                sep,
                j,
            ),
    ensures
        prism::find_last(front + sep + part, sep, to) == Some(front.len() as int),
    decreases to,
{
    let whole = front + sep + part;
    if to == front.len() + sep.len() {
        assert(whole.subrange(front.len() as int, to) =~= sep);
    } else {
        assert(!text::occurs_at(whole, sep, to - sep.len()));
        last_separator(front, sep, part, to - 1);
    }
}

/// A key is split at its last separator first, into no more parts than the
/// limit allows.
pub proof fn last_part_goes_off(front: Seq<char>, sep: Seq<char>, part: Seq<char>, limit: nat)
    requires
        sep.len() > 0,
        limit > 1,
        forall|j: int|
            front.len() < j <= front.len() + part.len() ==> !text::occurs_at(
                front + sep + part,
                sep,
                j,
            ),
    ensures
        prism::last_parts(front + sep + part, sep, limit) == prism::last_parts(
            front,
            sep,
            (limit - 1) as nat,
        ).push(part),
{
    let whole = front + sep + part;
    last_separator(front, sep, part, whole.len() as int);
    assert(whole.take(front.len() as int) =~= front);
    assert(whole.skip(front.len() + sep.len() as int) =~= part);
}

/// A text without the separator, or with no further part allowed, is one part.
pub proof fn one_part_is_left(s: Seq<char>, sep: Seq<char>)
    requires
        sep.len() > 0,
    ensures
        prism::last_parts(s, sep, 1) == seq![s],
        (forall|j: int| 0 <= j ==> !text::occurs_at(s, sep, j)) ==> forall|limit: nat| #[trigger]
            prism::last_parts(s, sep, limit) == seq![s],
{
    if forall|j: int| 0 <= j ==> !text::occurs_at(s, sep, j) {
        no_separator(s, sep, s.len() as int);
    }
}

/// Where the separator does not stand it is not found.
proof fn no_separator(s: Seq<char>, sep: Seq<char>, to: int)
    requires
        sep.len() > 0,
        forall|j: int| 0 <= j ==> !text::occurs_at(s, sep, j),
    ensures
        prism::find_last(s, sep, to) is None,
    decreases to,
{
    if sep.len() <= to <= s.len() {
        assert(!text::occurs_at(s, sep, to - sep.len()));
        no_separator(s, sep, to - 1);
    }
}

/// A key with bars anywhere is split at them into five parts at most, any other
/// at its commas into four; four parts or five are credentials, and with fewer
/// the configured ones stand.
pub proof fn keys_are_split(headers: Seq<(Seq<char>, Seq<char>)>, config: config::ConfigModel)
    ensures
        ({
            let key = prism::packed_key(headers);
            let bars = exists|j: int| 0 <= j && #[trigger] text::occurs_at(key, "|||"@, j);
            let parts = if bars {
                prism::last_parts(key, "|||"@, 5)
            } else {
                prism::last_parts(key, ","@, 4)
            };
            let n = parts.len() as int;
            prism::credentials_of(headers, config) == if n >= 4 {
                CredentialsModel {
                    cookie: prism::without_prefix(text::trim(parts[0]), "Bearer "@),
                    sentinel_token: if n == 5 {
                        Some(text::trim(parts[1]))
                    } else {
                        None
                    },
                    sandbox_token: text::trim(parts[n - 3]),
                    user_id: text::trim(parts[n - 2]),
                    project_id: text::trim(parts[n - 1]),
                }
            } else {
                CredentialsModel {
                    cookie: config.prism_cookie,
                    sentinel_token: None,
                    sandbox_token: config.prism_sandbox_token,
                    user_id: config.prism_user_id,
                    project_id: config.prism_project_id,
                }
            }
        }),
{
    let key = prism::packed_key(headers);
    text::find_is_least(key, "|||"@, 0);
    if exists|j: int| 0 <= j && #[trigger] text::occurs_at(key, "|||"@, j) {
        let j = choose|j: int| 0 <= j && #[trigger] text::occurs_at(key, "|||"@, j);
        assert(text::occurs_at(key, "|||"@, j));
    }
}

/// A prefix is taken off once, where a text begins with it, and any other text
/// stays.
pub proof fn prefixes_are_taken_off(prefix: Seq<char>, rest: Seq<char>, other: Seq<char>)
    ensures
        prism::without_prefix(prefix + rest, prefix) == rest,
        !text::occurs_at(other, prefix, 0) ==> prism::without_prefix(other, prefix) == other,
{
    let whole = prefix + rest;
    let n = prefix.len() as int;
    assert(whole.subrange(0, 0 + n) =~= prefix);
    assert(whole.skip(n) =~= rest);
}

/// A comma does not stand in a text without one.
proof fn no_comma_behind(front: Seq<char>, part: Seq<char>)
    requires
        !part.contains(','),
    ensures
        forall|j: int|
            front.len() < j <= front.len() + part.len() ==> !text::occurs_at(
                front + ","@ + part,
                ","@,
                j,
            ),
{
    reveal_strlit(",");
    let whole = front + ","@ + part;
    assert forall|j: int| front.len() < j <= front.len() + part.len() implies !text::occurs_at(
        whole,
        ","@,
        j,
    ) by {
        if text::occurs_at(whole, ","@, j) {
            assert(whole.subrange(j, j + 1)[0] == part[j - front.len() - 1]);
            assert(","@[0] == ',');
            assert(part.contains(part[j - front.len() - 1]));
        }
    }
}

/// A key with commas and without bars gives a cookie, a sandbox token, a user
/// and a project, each without the white space around it; the cookie may hold
/// commas, and a `Bearer` before it does not count.
pub proof fn keys_with_commas_unpack(
    headers: Seq<(Seq<char>, Seq<char>)>,
    config: config::ConfigModel,
    cookie: Seq<char>,
    sandbox_token: Seq<char>,
    user_id: Seq<char>,
    project_id: Seq<char>,
)
    requires
        prism::packed_key(headers) == cookie + seq![','] + sandbox_token + seq![','] + user_id
            + seq![','] + project_id,
        !prism::packed_key(headers).contains('|'),
        !sandbox_token.contains(','),
        !user_id.contains(','),
        !project_id.contains(','),
    ensures
        prism::credentials_of(headers, config) == (CredentialsModel {
            cookie: prism::without_prefix(text::trim(cookie), "Bearer "@),
            sentinel_token: None,
            sandbox_token: text::trim(sandbox_token),
            user_id: text::trim(user_id),
            project_id: text::trim(project_id),
        }),
{
    reveal_strlit(",");
    reveal_strlit("|||");
    let sep = ","@;
    assert(sep =~= seq![',']);
    let key = prism::packed_key(headers);
    let two = cookie + sep + sandbox_token;
    let three = two + sep + user_id;
    assert(key =~= three + sep + project_id);
    no_comma_behind(three, project_id);
    no_comma_behind(two, user_id);
    no_comma_behind(cookie, sandbox_token);
    last_part_goes_off(three, sep, project_id, 4);
    last_part_goes_off(two, sep, user_id, 3);
    last_part_goes_off(cookie, sep, sandbox_token, 2);
    text::find_is_least(key, "|||"@, 0);
    if let Some(at) = text::find_from(key, "|||"@, 0) {
        assert(key.subrange(at, at + 3)[0] == key[at]);
        assert("|||"@[0] == '|');
        assert(key.contains(key[at]));
    }
    let parts = prism::key_parts(key);
    assert(parts =~= seq![cookie, sandbox_token, user_id, project_id]);
}

/// A bar does not begin a separator in a text without one.
proof fn no_bars_behind(front: Seq<char>, part: Seq<char>)
    requires
        !part.contains('|'),
    ensures
        forall|j: int|
            front.len() < j <= front.len() + part.len() ==> !text::occurs_at(
                front + "|||"@ + part,
                "|||"@,
                j,
            ),
{
    reveal_strlit("|||");
    let whole = front + "|||"@ + part;
    assert forall|j: int| front.len() < j <= front.len() + part.len() implies !text::occurs_at(
        whole,
        "|||"@,
        j,
    ) by {
        if text::occurs_at(whole, "|||"@, j) {
            assert(whole.subrange(j, j + 3)[2] == whole[j + 2]);
            assert("|||"@[2] == '|');
            assert(whole[j + 2] == part[j - front.len() - 1]);
            assert(part.contains(part[j - front.len() - 1]));
        }
    }
}

/// A key with bars gives a cookie, a sentinel token, a sandbox token, a user
/// and a project, each without the white space around it; without a sentinel
/// token it gives the other four.
pub proof fn keys_with_bars_unpack(
    headers: Seq<(Seq<char>, Seq<char>)>,
    config: config::ConfigModel,
    cookie: Seq<char>,
    sentinel_token: Seq<char>,
    sandbox_token: Seq<char>,
    user_id: Seq<char>,
    project_id: Seq<char>,
)
    requires
        !sentinel_token.contains('|'),
        !sandbox_token.contains('|'),
        !user_id.contains('|'),
        !project_id.contains('|'),
    ensures
        prism::packed_key(headers) == cookie + "|||"@ + sentinel_token + "|||"@ + sandbox_token
            + "|||"@ + user_id + "|||"@ + project_id ==> prism::credentials_of(headers, config) == (
        CredentialsModel {
            cookie: prism::without_prefix(text::trim(cookie), "Bearer "@),
            sentinel_token: Some(text::trim(sentinel_token)),
            sandbox_token: text::trim(sandbox_token),
            user_id: text::trim(user_id),
            project_id: text::trim(project_id),
        }),
        prism::packed_key(headers) == cookie + "|||"@ + sandbox_token + "|||"@ + user_id + "|||"@
            + project_id && !cookie.contains('|') ==> prism::credentials_of(headers, config) == (
        CredentialsModel {
            cookie: prism::without_prefix(text::trim(cookie), "Bearer "@),
            sentinel_token: None,
            sandbox_token: text::trim(sandbox_token),
            user_id: text::trim(user_id),
            project_id: text::trim(project_id),
        }),
{
    reveal_strlit("|||");
    let sep = "|||"@;
    let key = prism::packed_key(headers);
    if key == cookie + sep + sentinel_token + sep + sandbox_token + sep + user_id + sep
        + project_id {
        let one = cookie + sep + sentinel_token;
        let two = one + sep + sandbox_token;
        let three = two + sep + user_id;
        no_bars_behind(three, project_id);
        no_bars_behind(two, user_id);
        no_bars_behind(one, sandbox_token);
        no_bars_behind(cookie, sentinel_token);
        last_part_goes_off(three, sep, project_id, 5);
        last_part_goes_off(two, sep, user_id, 4);
        last_part_goes_off(one, sep, sandbox_token, 3);
        last_part_goes_off(cookie, sep, sentinel_token, 2);
        bars_are_found(three, project_id);
        let parts = prism::key_parts(key);
        assert(parts =~= seq![cookie, sentinel_token, sandbox_token, user_id, project_id]);
    }
    if key == cookie + sep + sandbox_token + sep + user_id + sep + project_id
        && !cookie.contains('|') {
        let two = cookie + sep + sandbox_token;
        let three = two + sep + user_id;
        no_bars_behind(three, project_id);
        no_bars_behind(two, user_id);
        no_bars_behind(cookie, sandbox_token);
        last_part_goes_off(three, sep, project_id, 5);
        last_part_goes_off(two, sep, user_id, 4);
        last_part_goes_off(cookie, sep, sandbox_token, 3);
        no_bars_in(cookie, cookie.len() as int);
        bars_are_found(three, project_id);
        let parts = prism::key_parts(key);
        assert(parts =~= seq![cookie, sandbox_token, user_id, project_id]);
    }
}

/// Bars are found where they stand.
proof fn bars_are_found(front: Seq<char>, part: Seq<char>)
    ensures
        text::find_from(front + "|||"@ + part, "|||"@, 0) is Some,
{
    let whole = front + "|||"@ + part;
    let at = front.len() as int;
    assert(whole.subrange(at, at + "|||"@.len()) =~= "|||"@);
    text::find_is_least(whole, "|||"@, 0);
    assert(text::occurs_at(whole, "|||"@, at));
}

/// A text without a bar has no separator.
proof fn no_bars_in(s: Seq<char>, to: int)
    requires
        !s.contains('|'),
        0 <= to <= s.len(),
    ensures
        prism::find_last(s, "|||"@, to) is None,
    decreases to,
{
    reveal_strlit("|||");
    if to >= 3 {
        assert(s.contains(s[to - 3]));
        assert(s.subrange(to - 3, to)[0] == s[to - 3]);
        assert("|||"@[0] == '|');
        no_bars_in(s, to - 1);
    }
}

/// A key with fewer than three commas and no bars leaves the configured
/// credentials, none of which is a sentinel token.
pub proof fn other_keys_leave_the_configured(
    headers: Seq<(Seq<char>, Seq<char>)>,
    config: config::ConfigModel,
    a: Seq<char>,
    b: Seq<char>,
    c: Seq<char>,
)
    requires
        !prism::packed_key(headers).contains('|'),
        !a.contains(','),
        !b.contains(','),
        !c.contains(','),
        prism::packed_key(headers) == a || prism::packed_key(headers) == a + seq![','] + b
            || prism::packed_key(headers) == a + seq![','] + b + seq![','] + c,
    ensures
        prism::credentials_of(headers, config) == (CredentialsModel {
            cookie: config.prism_cookie,
            sentinel_token: None,
            sandbox_token: config.prism_sandbox_token,
            user_id: config.prism_user_id,
            project_id: config.prism_project_id,
        }),
{
    reveal_strlit(",");
    reveal_strlit("|||");
    let sep = ","@;
    assert(sep =~= seq![',']);
    let key = prism::packed_key(headers);
    text::find_is_least(key, "|||"@, 0);
    if let Some(at) = text::find_from(key, "|||"@, 0) {
        assert(key.subrange(at, at + 3)[0] == key[at]);
        assert("|||"@[0] == '|');
        assert(key.contains(key[at]));
    }
    no_comma_in(a, a.len() as int);
    no_comma_behind(a, b);
    no_comma_behind(a + sep + b, c);
    last_part_goes_off(a, sep, b, 4);
    last_part_goes_off(a, sep, b, 3);
    last_part_goes_off(a + sep + b, sep, c, 4);
    assert(prism::key_parts(key).len() < 4);
}

/// A text without a comma has no separator.
proof fn no_comma_in(s: Seq<char>, to: int)
    requires
        !s.contains(','),
        0 <= to <= s.len(),
    ensures
        prism::find_last(s, ","@, to) is None,
    decreases to,
{
    reveal_strlit(",");
    if to >= 1 {
        assert(s.contains(s[to - 1]));
        assert(s.subrange(to - 1, to)[0] == s[to - 1]);
        assert(","@[0] == ',');
        no_comma_in(s, to - 1);
    }
}

/// The headers of the requests to Prism: three that each has, the cookie
/// unless it is empty, and the sentinel token that is packed or that the
/// client sends, if there is one; a start has the cookie first, a question
/// after the completion has the token first.
pub proof fn prism_headers_are_made(
    base: Seq<char>,
    credentials: CredentialsModel,
    headers: Seq<(Seq<char>, Seq<char>)>,
    packed: Seq<char>,
    sent: Seq<char>,
)
    ensures
        ({
            let common = seq![
                ("Content-Type"@, "application/json"@),
                ("Origin"@, base),
                ("Referer"@, base + "/?u="@ + credentials.project_id),
            ];
            let cookie = if credentials.cookie.len() > 0 {
                seq![("Cookie"@, credentials.cookie)]
            } else {
                Seq::empty()
            };
            let token = if credentials.sentinel_token == Some(packed) {
                seq![("openai-sentinel-token"@, packed)]
            } else if credentials.sentinel_token is None && http::first_value(
                headers,
                "openai-sentinel-token"@,
            ) == Some(sent) {
                seq![("openai-sentinel-token"@, sent)]
            } else {
                Seq::empty()
            };
            credentials.sentinel_token == Some(packed) || credentials.sentinel_token is None && (
            http::first_value(headers, "openai-sentinel-token"@) == Some(sent) || http::first_value(
                headers,
                "openai-sentinel-token"@,
            ) is None) ==> {
                &&& prism::start_fields(base, credentials, headers) == common + cookie + token
                &&& prism::status_fields(base, credentials, headers) == common + token + cookie
            }
        }),
{
}

// ---------------------------------------------------------------------------
// Replies
// ---------------------------------------------------------------------------

/// The text of a reply's parts in a row; a part without a text gives none.
pub proof fn reply_parts_in_a_row(
    front: Seq<PrismOutputContent>,
    rest: Seq<PrismOutputContent>,
    part: PrismOutputContent,
)
    ensures
        prism_reply::contents_text(front + rest) == prism_reply::contents_text(front)
            + prism_reply::contents_text(rest),
        prism_reply::contents_text(seq![part]) == match part.text {
            Some(t) => t@,
            None => Seq::empty(),
        },
        prism_reply::contents_text(Seq::empty()).len() == 0,
    decreases rest.len(),
{
    let none = Seq::<char>::empty();
    assert(prism_reply::contents_text(seq![part].drop_last()) =~= none);
    assert(prism_reply::contents_text(seq![part]) =~= match part.text {
        Some(t) => t@,
        None => none,
    });
    if rest.len() == 0 {
        assert(front + rest =~= front);
        assert(prism_reply::contents_text(front) + prism_reply::contents_text(rest)
            =~= prism_reply::contents_text(front));
    } else {
        reply_parts_in_a_row(front, rest.drop_last(), part);
        assert((front + rest).drop_last() =~= front + rest.drop_last());
        assert(prism_reply::contents_text(front + rest) =~= prism_reply::contents_text(front)
            + prism_reply::contents_text(rest));
    }
}

/// The text of a reply's messages in a row; a message without parts gives
/// none.
pub proof fn reply_messages_in_a_row(
    front: Seq<PrismOutputMessage>,
    rest: Seq<PrismOutputMessage>,
    message: PrismOutputMessage,
)
    ensures
        prism_reply::output_text(front + rest) == prism_reply::output_text(front)
            + prism_reply::output_text(rest),
        prism_reply::output_text(seq![message]) == match message.content {
            Some(parts) => prism_reply::contents_text(parts@),
            None => Seq::empty(),
        },
        prism_reply::output_text(Seq::empty()).len() == 0,
    decreases rest.len(),
{
    let none = Seq::<char>::empty();
    assert(prism_reply::output_text(seq![message].drop_last()) =~= none);
    assert(prism_reply::output_text(seq![message]) =~= match message.content {
        Some(parts) => prism_reply::contents_text(parts@),
        None => none,
    });
    if rest.len() == 0 {
        assert(front + rest =~= front);
        assert(prism_reply::output_text(front) + prism_reply::output_text(rest)
            =~= prism_reply::output_text(front));
    } else {
        reply_messages_in_a_row(front, rest.drop_last(), message);
        assert((front + rest).drop_last() =~= front + rest.drop_last());
        assert(prism_reply::output_text(front + rest) =~= prism_reply::output_text(front)
            + prism_reply::output_text(rest));
    }
}

/// The text of a reply is that of its output, and its error is its message
/// where the completion's status is `error`.
pub proof fn replies_say_text_or_error<T>(reply: PrismResponse<T>)
    ensures
        reply.response matches Some(inner) ==> inner.payload matches Some(payload)
            ==> payload.output matches Some(output) ==> prism_reply::reply_text(reply)
            == prism_reply::output_text(output@),
        reply.response is None ==> prism_reply::reply_text(reply).len() == 0
            && prism_reply::reply_error(reply) is None,
        reply.response matches Some(inner) ==> inner.payload is None ==> prism_reply::reply_text(
            reply,
        ).len() == 0 && prism_reply::reply_error(reply) is None,
        reply.response matches Some(inner) ==> inner.payload matches Some(payload)
            ==> payload.output is None ==> prism_reply::reply_text(reply).len() == 0,
        reply.response matches Some(inner) ==> inner.payload matches Some(payload)
            ==> inner.status matches Some(status) ==> payload.message matches Some(message)
            ==> status@ == "error"@ ==> prism_reply::reply_error(reply) == Some(message@),
        reply.response matches Some(inner) ==> inner.payload matches Some(payload)
            ==> payload.message is None ==> prism_reply::reply_error(reply) is None,
        reply.response matches Some(inner) ==> inner.status is None ==> prism_reply::reply_error(
            reply,
        ) is None,
        reply.response matches Some(inner) ==> inner.status matches Some(status) ==> status@
            != "error"@ ==> prism_reply::reply_error(reply) is None,
{
}

/// A failure is answered with the message, as 403 where the message says so
/// anywhere, and as 400 otherwise.
pub proof fn failures_are_answered(front: Seq<char>, rest: Seq<char>, message: Seq<char>)
    ensures
        prism_reply::failure_answer(front + "403 Forbidden"@ + rest) == relay::error_answer(
            403,
            "Forbidden"@,
            "Prism error: "@ + (front + "403 Forbidden"@ + rest),
        ),
        (forall|j: int| 0 <= j ==> !text::occurs_at(message, "403 Forbidden"@, j))
            ==> prism_reply::failure_answer(message) == relay::error_answer(
            400,
            "Bad Request"@,
            "Prism error: "@ + message,
        ),
{
    let pattern = "403 Forbidden"@;
    let whole = front + pattern + rest;
    let at = front.len() as int;
    assert(whole.subrange(at, at + pattern.len()) =~= pattern);
    text::find_is_least(whole, pattern, 0);
    assert(text::occurs_at(whole, pattern, at));
    if forall|j: int| 0 <= j ==> !text::occurs_at(message, pattern, j) {
        text::find_absent(message, pattern, 0);
    }
}

/// What is said of a start that Prism has refused.
pub proof fn rejections_are_told(status: u16, body: Seq<char>)
    ensures
        prism_reply::rejection(status) == "Prism rejected request with HTTP "@ + numbers::decimal(
            status as nat,
        ),
        prism_reply::rejection_with(status, body) == "Prism rejected request with HTTP "@
            + numbers::decimal(status as nat) + ": "@ + body,
{
}

/// What becomes of the reply to a start: an error is answered; a text is the
/// completion; without either it is asked after, if the reply gives a state of
/// the turn and a name to ask by, and is empty otherwise.
pub proof fn starts_lead_on<T>(reply: PrismResponse<T>)
    ensures
        prism_reply::reply_error(reply) matches Some(message) ==> prism_reply::step_of_start(reply)
            == StepModel::<T>::Refused(prism_reply::failure_answer(message)),
        prism_reply::reply_error(reply) is None && prism_reply::reply_text(reply).len() > 0
            ==> prism_reply::step_of_start(reply) == StepModel::<T>::Finished(
            prism_reply::reply_text(reply),
        ),
        prism_reply::reply_error(reply) is None && prism_reply::reply_text(reply).len() == 0 ==> (
        reply.turn_state matches Some(turn_state) ==> reply.request_id matches Some(request_id)
            ==> request_id@.len() > 0 ==> prism_reply::step_of_start(reply) == StepModel::Poll(
            PollModel { request_id: request_id@, turn_state, attempts: 0 },
        )),
        prism_reply::reply_error(reply) is None && prism_reply::reply_text(reply).len() == 0 && (
        reply.turn_state is None || reply.request_id is None) ==> prism_reply::step_of_start(reply)
            == StepModel::<T>::Finished(Seq::empty()),
        prism_reply::reply_error(reply) is None && prism_reply::reply_text(reply).len() == 0 ==> (
        reply.request_id matches Some(request_id) ==> request_id@.len() == 0
            ==> prism_reply::step_of_start(reply) == StepModel::<T>::Finished(Seq::empty())),
{
}

/// What becomes of the reply when a completion is asked after: an error is
/// answered; a text is the completion; a reply that says it is completed ends
/// it empty; any other reply, or none that can be read, leads to the next
/// question with the latest state of the turn, up to 120 questions in all; a
/// question that cannot be sent ends it empty.
pub proof fn questions_lead_on<T>(state: PollModel<T>, reply: PrismResponse<T>)
    ensures
        ({
            let next = prism_reply::step_of_poll(state, PollEvent::Reply(reply));
            let silent = prism_reply::reply_error(reply) is None && prism_reply::reply_text(
                reply,
            ).len() == 0;
            let completed = prism::optional(reply.status) == Some("completed"@);
            let none = StepModel::<T>::Finished(Seq::empty());
            let latest = match reply.turn_state {
                Some(turn_state) => turn_state,
                None => state.turn_state,
            };
            &&& prism_reply::reply_error(reply) matches Some(message) ==> next == StepModel::<
                T,
            >::Refused(prism_reply::failure_answer(message))
            &&& prism_reply::reply_error(reply) is None && prism_reply::reply_text(reply).len() > 0
                ==> next == StepModel::<T>::Finished(prism_reply::reply_text(reply))
            &&& silent && completed ==> next == none
            &&& silent && !completed && state.attempts < 119 ==> next == StepModel::Poll(
                PollModel {
                    request_id: state.request_id,
                    turn_state: latest,
                    attempts: state.attempts + 1,
                },
            )
            &&& silent && !completed && state.attempts >= 119 ==> next == none
            &&& prism_reply::step_of_poll(state, PollEvent::Unsendable) == none
            &&& state.attempts < 119 ==> prism_reply::step_of_poll(state, PollEvent::Unusable)
                == StepModel::Poll(
                PollModel {
                    request_id: state.request_id,
                    turn_state: state.turn_state,
                    attempts: state.attempts + 1,
                },
            )
            &&& state.attempts >= 119 ==> prism_reply::step_of_poll(state, PollEvent::Unusable)
                == none
        }),
        prism_reply::POLL_INTERVAL_MS == 1000,
{
}

// ---------------------------------------------------------------------------
// Completions
// ---------------------------------------------------------------------------

/// A completion says the text, once and to its end, and counts a token for
/// every four bytes of the request and of the text.
pub proof fn completions_are_made(
    id: Seq<char>,
    created: u64,
    model: Seq<char>,
    said: Seq<char>,
    request_bytes: nat,
)
    ensures
        ({
            let made = completion::completion_with(id, created, model, said, request_bytes);
            &&& made.id == id && made.created == created && made.model == model
            &&& made.object == "chat.completion"@
            &&& made.choices == seq![(0nat, "assistant"@, said, "stop"@)]
            &&& 4 * made.prompt_tokens <= request_bytes < 4 * made.prompt_tokens + 4
            &&& 4 * made.completion_tokens <= encode_utf8(said).len() < 4 * made.completion_tokens
                + 4
            &&& made.total_tokens == made.prompt_tokens + made.completion_tokens
        }),
        ({
            let json = said;
            completion::json_fields(json) == seq![
                ("Content-Type"@, "application/json"@),
                ("Content-Length"@, numbers::decimal(encode_utf8(json).len())),
                ("Connection"@, "close"@),
            ]
        }),
{
}

/// A completion in parts: who speaks, then the text if there is any, then the
/// end, all with the same name, time and model.
pub proof fn completions_are_parted(
    id: Seq<char>,
    created: u64,
    model: Seq<char>,
    said: Seq<char>,
)
    ensures
        ({
            let all = completion::parts_of(id, created, model, said);
            let last = all.len() - 1;
            &&& all.len() == if said.len() > 0 {
                3nat
            } else {
                2
            }
            &&& forall|i: int|
                0 <= i < all.len() ==> (#[trigger] all[i]).id == id && all[i].object
                    == "chat.completion.chunk"@ && all[i].created == created && all[i].model
                    == model && all[i].choices.len() == 1 && all[i].choices[0].index == 0
            &&& all[0].choices[0].role == Some("assistant"@)
            &&& all[0].choices[0].content == Some(Seq::<char>::empty())
            &&& all[0].choices[0].finish_reason is None
            &&& said.len() > 0 ==> all[1].choices[0].role is None && all[1].choices[0].content
                == Some(said) && all[1].choices[0].finish_reason is None
            &&& all[last].choices[0].role is None && all[last].choices[0].content is None
                && all[last].choices[0].finish_reason == Some("stop"@)
        }),
{
}

/// The names of conversations and completions in writing.
pub proof fn names_are_written(uuid: Seq<char>)
    ensures
        ids::conversation_of(uuid) == "cdx1_"@ + uuid,
        ids::completion_of(uuid) == "chatcmpl-prism-"@ + uuid,
{
}

/// A stream's headers, its events and its end in writing.
pub proof fn streams_are_written(data: Seq<char>)
    ensures
        completion::stream_fields() == seq![
            ("Content-Type"@, "text/event-stream"@),
            ("Cache-Control"@, "no-cache"@),
            ("Connection"@, "close"@),
        ],
        completion::event_of(data) == "data: "@ + data + seq!['\n', '\n'],
        completion::STREAM_END@ == "[DONE]"@,
{
    reveal_strlit("\n\n");
    assert("\n\n"@ =~= seq!['\n', '\n']);
}

} // verus!
