//! A completion by Prism: what is sent for it.
use crate::config;
use crate::config::Config;
use crate::http;
use crate::http::{header, header_value, push_text};
use crate::routes;
use crate::routes::trim_slashes;
use crate::text;
use vstd::prelude::*;

verus! {

broadcast use vstd::string::group_string_axioms;

// ---------------------------------------------------------------------------
// Requests for a completion
// ---------------------------------------------------------------------------

/// A request for a chat completion.
#[derive(Debug)]
pub struct OpenAiChatRequest {
    pub model: Option<String>,
    pub messages: Vec<OpenAiMessage>,
    pub stream: Option<bool>,
    pub reasoning_effort: Option<String>,
}

/// A message of a conversation.
#[derive(Clone, Debug)]
pub struct OpenAiMessage {
    pub role: String,
    pub content: String,
}

/// A part of a message's content.
pub enum ContentPart {
    /// A text by itself.
    Text(String),
    /// An object whose member `text` is a text.
    Object { text: String },
    /// Anything else.
    Other,
}

/// The content of a message as it is sent.
pub enum ContentValue {
    Text(String),
    Parts(Vec<ContentPart>),
    /// Anything else, as JSON.
    Other(String),
}

/// The text of a part.
pub open spec fn part_text(part: ContentPart) -> Seq<char> {
    match part {
        ContentPart::Text(t) => t@,
        ContentPart::Object { text } => text@,
        ContentPart::Other => Seq::empty(),
    }
}

/// The texts of all parts in a row.
pub open spec fn parts_text(parts: Seq<ContentPart>) -> Seq<char>
    decreases parts.len(),
{
    if parts.len() == 0 {
        Seq::empty()
    } else {
        parts_text(parts.drop_last()) + part_text(parts.last())
    }
}

/// The text of a content: a text as it is, the texts of its parts in a row, or
/// the JSON of anything else.
pub open spec fn content_text(value: ContentValue) -> Seq<char> {
    match value {
        ContentValue::Text(t) => t@,
        ContentValue::Parts(parts) => parts_text(parts@),
        ContentValue::Other(json) => json@,
    }
}

/// Gives the text of a content.
pub fn flexible_content(value: &ContentValue) -> (r: String)
    ensures
        r@ == content_text(*value),
{
    match value {
        ContentValue::Text(t) => t.clone(),
        ContentValue::Other(json) => json.clone(),
        ContentValue::Parts(parts) => {
            let mut out = String::new();
            let mut i: usize = 0;
            assert(out@ =~= parts_text(parts@.take(0)));
            while i < parts.len()
                invariant
                    i <= parts@.len(),
                    out@ == parts_text(parts@.take(i as int)),
                decreases parts@.len() - i,
            {
                let ghost before = out@;
                match &parts[i] {
                    ContentPart::Text(t) => push_text(&mut out, t.as_str()),
                    ContentPart::Object { text } => push_text(&mut out, text.as_str()),
                    ContentPart::Other => {},
                }
                i += 1;
                assert(parts@.take(i as int).drop_last() =~= parts@.take(i - 1));
                assert(out@ =~= before + part_text(parts@[i - 1]));
            }
            assert(parts@.take(i as int) =~= parts@);
            out
        },
    }
}

// ---------------------------------------------------------------------------
// Credentials
// ---------------------------------------------------------------------------

/// What a request to Prism is sent with.
pub struct PrismCredentials {
    pub cookie: String,
    pub sentinel_token: Option<String>,
    pub sandbox_token: String,
    pub user_id: String,
    pub project_id: String,
}

/// What credentials say.
#[verifier::ext_equal]
pub struct CredentialsModel {
    pub cookie: Seq<char>,
    pub sentinel_token: Option<Seq<char>>,
    pub sandbox_token: Seq<char>,
    pub user_id: Seq<char>,
    pub project_id: Seq<char>,
}

/// The text that there may be.
pub open spec fn optional(value: Option<String>) -> Option<Seq<char>> {
    match value {
        Some(t) => Some(t@),
        None => None,
    }
}

impl View for PrismCredentials {
    type V = CredentialsModel;

    open spec fn view(&self) -> CredentialsModel {
        CredentialsModel {
            cookie: self.cookie@,
            sentinel_token: optional(self.sentinel_token),
            sandbox_token: self.sandbox_token@,
            user_id: self.user_id@,
            project_id: self.project_id@,
        }
    }
}

/// The text without a prefix that it may have.
pub open spec fn without_prefix(s: Seq<char>, prefix: Seq<char>) -> Seq<char> {
    if text::occurs_at(s, prefix, 0) {
        s.skip(prefix.len() as int)
    } else {
        s
    }
}

/// The last index at which `pat` stands in the first `to` characters.
pub open spec fn find_last(s: Seq<char>, pat: Seq<char>, to: int) -> Option<int>
    decreases to,
{
    if to < pat.len() || to > s.len() {
        None
    } else if text::occurs_at(s, pat, to - pat.len()) {
        Some(to - pat.len())
    } else if to <= 0 {
        None
    } else {
        find_last(s, pat, to - 1)
    }
}

/// At most `limit` parts of a text, split at its last separators: what is left
/// of the text is the first part.
pub open spec fn last_parts(s: Seq<char>, sep: Seq<char>, limit: nat) -> Seq<Seq<char>>
    decreases limit,
{
    if limit <= 1 {
        seq![s]
    } else {
        match find_last(s, sep, s.len() as int) {
            None => seq![s],
            Some(at) => last_parts(s.take(at), sep, (limit - 1) as nat).push(
                s.skip(at + sep.len()),
            ),
        }
    }
}

/// The credentials that a client packs into its key.
pub open spec fn packed_key(headers: Seq<(Seq<char>, Seq<char>)>) -> Seq<char> {
    match http::first_value(headers, "authorization"@) {
        Some(value) => without_prefix(value, "Bearer "@),
        None => match http::first_value(headers, "x-api-key"@) {
            Some(value) => value,
            None => Seq::empty(),
        },
    }
}

/// A packed cookie, without what may stand before it.
pub open spec fn packed_cookie(part: Seq<char>) -> Seq<char> {
    without_prefix(text::trim(part), "Bearer "@)
}

/// The credentials of a configuration.
pub open spec fn configured(config: config::ConfigModel) -> CredentialsModel {
    CredentialsModel {
        cookie: config.prism_cookie,
        sentinel_token: None,
        sandbox_token: config.prism_sandbox_token,
        user_id: config.prism_user_id,
        project_id: config.prism_project_id,
    }
}

/// The credentials in these parts of a key, of which there are five with a
/// sentinel token and four without.
pub open spec fn unpacked(parts: Seq<Seq<char>>) -> CredentialsModel {
    let n = parts.len() as int;
    CredentialsModel {
        cookie: packed_cookie(parts[0]),
        sentinel_token: if n == 5 {
            Some(text::trim(parts[1]))
        } else {
            None
        },
        sandbox_token: text::trim(parts[n - 3]),
        user_id: text::trim(parts[n - 2]),
        project_id: text::trim(parts[n - 1]),
    }
}

/// The parts of a key: with `|||` between them where it has any, else with
/// commas.
pub open spec fn key_parts(key: Seq<char>) -> Seq<Seq<char>> {
    if text::find_from(key, "|||"@, 0) is Some {
        last_parts(key, "|||"@, 5)
    } else {
        last_parts(key, ","@, 4)
    }
}

/// The credentials of a request: those that the client has packed into its
/// key, or else the configured ones.
pub open spec fn credentials_of(
    headers: Seq<(Seq<char>, Seq<char>)>,
    config: config::ConfigModel,
) -> CredentialsModel {
    let parts = key_parts(packed_key(headers));
    if parts.len() >= 4 {
        unpacked(parts)
    } else {
        configured(config)
    }
}

/// Drops a prefix that a text may have.
pub fn strip_prefix(s: &str, prefix: &str) -> (r: String)
    ensures
        r@ == without_prefix(s@, prefix@),
{
    let chars = text::chars_of(s);
    let pattern = text::chars_of(prefix);
    if text::stands_at_chars(&chars, &pattern, 0) {
        let r = text::string_between(&chars, pattern.len(), chars.len());
        assert(r@ =~= s@.skip(prefix@.len() as int));
        r
    } else {
        s.to_owned()
    }
}

/// Finds the last place of a pattern.
fn find_last_chars(s: &[char], pat: &[char], to: usize) -> (r: Option<usize>)
    requires
        to <= s@.len(),
        pat@.len() > 0,
    ensures
        match r {
            Some(i) => find_last(s@, pat@, to as int) == Some(i as int) && i + pat@.len() <= to,
            None => find_last(s@, pat@, to as int) is None,
        },
{
    let mut end: usize = to;
    while end >= pat.len()
        invariant
            end <= to <= s@.len(),
            pat@.len() > 0,
            find_last(s@, pat@, to as int) == find_last(s@, pat@, end as int),
        decreases end,
    {
        if text::stands_at_chars(s, pat, end - pat.len()) {
            return Some(end - pat.len());
        }
        end -= 1;
    }
    None
}

/// What is found in a front is found in the whole.
proof fn find_last_in_front(s: Seq<char>, pat: Seq<char>, front: int, to: int)
    requires
        0 <= to <= front <= s.len(),
    ensures
        find_last(s.take(front), pat, to) == find_last(s, pat, to),
    decreases to,
{
    if to >= pat.len() {
        assert(s.take(front).subrange(to - pat.len(), to) =~= s.subrange(to - pat.len(), to));
        if to > 0 {
            find_last_in_front(s, pat, front, to - 1);
        }
    }
}

/// Splits a text at its last separators.
pub fn split_last(s: &[char], sep: &[char], limit: usize) -> (r: Vec<String>)
    requires
        sep@.len() > 0,
    ensures
        text::views(r@) == last_parts(s@, sep@, limit as nat),
        r@.len() > 0,
{
    // The parts behind the first, the last part first.
    let mut back: Vec<String> = Vec::new();
    let mut end: usize = s.len();
    let mut left: usize = limit;
    let ghost whole = last_parts(s@, sep@, limit as nat);
    assert(s@.take(end as int) =~= s@);
    assert(text::views(back@).reverse() =~= Seq::<Seq<char>>::empty());
    assert(whole =~= last_parts(s@.take(end as int), sep@, left as nat)
        + text::views(back@).reverse());
    loop
        invariant
            sep@.len() > 0,
            end <= s@.len(),
            whole == last_parts(s@.take(end as int), sep@, left as nat)
                + text::views(back@).reverse(),
        ensures
            end <= s@.len(),
            whole == seq![s@.take(end as int)] + text::views(back@).reverse(),
        decreases left,
    {
        if left <= 1 {
            break;
        }
        proof {
            find_last_in_front(s@, sep@, end as int, end as int);
        }
        let at = match find_last_chars(s, sep, end) {
            Some(at) => at,
            None => break,
        };
        let part = text::string_between(s, at + sep.len(), end);
        let ghost before = text::views(back@);
        proof {
            let front = s@.take(end as int);
            assert(front.take(at as int) =~= s@.take(at as int));
            assert(front.skip((at + sep@.len()) as int) =~= part@);
        }
        back.push(part);
        proof {
            let more = text::views(back@);
            assert(more =~= before.push(part@));
            assert(more.reverse() =~= seq![part@] + before.reverse());
            let rest = last_parts(s@.take(at as int), sep@, (left - 1) as nat);
            assert(rest.push(part@) + before.reverse() =~= rest + more.reverse());
        }
        end = at;
        left -= 1;
    }
    let mut out: Vec<String> = Vec::new();
    let first = text::string_between(s, 0, end);
    assert(first@ =~= s@.take(end as int));
    out.push(first);
    let ghost behind = text::views(back@).reverse();
    assert(text::views(out@) =~= seq![first@] + behind.take(0));
    let count: usize = back.len();
    let mut i: usize = 0;
    while i < count
        invariant
            i <= count,
            count == back@.len(),
            behind == text::views(back@).reverse(),
            text::views(out@) == seq![first@] + behind.take(i as int),
        decreases count - i,
    {
        let ghost before = text::views(out@);
        out.push(back[count - 1 - i].clone());
        assert(behind[i as int] == back@[count - 1 - i]@);
        assert(text::views(out@) =~= before.push(behind[i as int]));
        assert(behind.take(i + 1) =~= behind.take(i as int).push(behind[i as int]));
        i += 1;
        assert(text::views(out@) =~= seq![first@] + behind.take(i as int));
    }
    assert(behind.take(count as int) =~= behind);
    out
}

/// The key of a request.
fn read_key(headers: &[(String, String)]) -> (r: String)
    ensures
        r@ == packed_key(http::fields(headers@)),
{
    match header_value(headers, "authorization") {
        Some(value) => strip_prefix(value, "Bearer "),
        None => match header_value(headers, "x-api-key") {
            Some(value) => value.to_owned(),
            None => String::new(),
        },
    }
}

/// The parts of a key.
fn split_key(key: &str) -> (r: Vec<String>)
    ensures
        text::views(r@) == key_parts(key@),
        r@.len() > 0,
{
    let chars = text::chars_of(key);
    let bars = text::chars_of("|||");
    let comma = text::chars_of(",");
    proof {
        reveal_strlit("|||");
        reveal_strlit(",");
    }
    match text::find_chars(&chars, &bars, 0) {
        Some(_) => split_last(&chars, &bars, 5),
        None => split_last(&chars, &comma, 4),
    }
}

/// Reads the credentials of a request.
pub fn extract_credentials(headers: &[(String, String)], config: &Config) -> (r: PrismCredentials)
    ensures
        r@ == credentials_of(http::fields(headers@), config@),
{
    let key = read_key(headers);
    let parts = split_key(key.as_str());
    let ghost all = text::views(parts@);
    let n: usize = parts.len();
    if n >= 4 {
        proof {
            parts_are_limited(packed_key(http::fields(headers@)), "|||"@, 5);
            parts_are_limited(packed_key(http::fields(headers@)), ","@, 4);
        }
        let sentinel_token = if n == 5 {
            Some(text::trim_text(parts[1].as_str()))
        } else {
            None
        };
        let cookie = text::trim_text(parts[0].as_str());
        let r = PrismCredentials {
            cookie: strip_prefix(cookie.as_str(), "Bearer "),
            sentinel_token,
            sandbox_token: text::trim_text(parts[n - 3].as_str()),
            user_id: text::trim_text(parts[n - 2].as_str()),
            project_id: text::trim_text(parts[n - 1].as_str()),
        };
        assert(r@ =~= unpacked(all));
        r
    } else {
        PrismCredentials {
            cookie: config.prism_cookie.clone(),
            sentinel_token: None,
            sandbox_token: config.prism_sandbox_token.clone(),
            user_id: config.prism_user_id.clone(),
            project_id: config.prism_project_id.clone(),
        }
    }
}

/// There are no more parts than allowed.
pub proof fn parts_are_limited(s: Seq<char>, sep: Seq<char>, limit: nat)
    requires
        limit > 0,
    ensures
        0 < last_parts(s, sep, limit).len() <= limit,
    decreases limit,
{
    if limit > 1 {
        if let Some(at) = find_last(s, sep, s.len() as int) {
            parts_are_limited(s.take(at), sep, (limit - 1) as nat);
        }
    }
}

// ---------------------------------------------------------------------------
// The model and the effort
// ---------------------------------------------------------------------------

/// The text ends with `suffix`.
pub open spec fn ends_with(s: Seq<char>, suffix: Seq<char>) -> bool {
    text::occurs_at(s, suffix, s.len() - suffix.len())
}

/// A model without the suffix that names an effort, and that effort.
pub open spec fn split_model(model: Seq<char>) -> (Seq<char>, Option<Seq<char>>) {
    if ends_with(model, "-xhigh"@) {
        (model.take(model.len() - 6), Some("xhigh"@))
    } else if ends_with(model, "-high"@) {
        (model.take(model.len() - 5), Some("high"@))
    } else if ends_with(model, "-medium"@) {
        (model.take(model.len() - 7), Some("medium"@))
    } else if ends_with(model, "-low"@) {
        (model.take(model.len() - 4), Some("low"@))
    } else {
        (model, None)
    }
}

/// An effort that Prism knows: letter case aside the same, one common slip
/// mended, and `medium` for anything else.
pub open spec fn known_effort(effort: Seq<char>) -> Seq<char> {
    if text::eq_ignore_case(effort, "low"@) {
        "low"@
    } else if text::eq_ignore_case(effort, "high"@) {
        "high"@
    } else if text::eq_ignore_case(effort, "xhigh"@) || text::eq_ignore_case(effort, "xhight"@) {
        "xhigh"@
    } else {
        "medium"@
    }
}

/// The model and the effort of a completion: the effort that is asked for goes
/// before the one that the model's name gives.
pub open spec fn resolved(
    model: Option<Seq<char>>,
    effort: Option<Seq<char>>,
    default_model: Seq<char>,
) -> (Seq<char>, Seq<char>) {
    let named = match model {
        Some(model) => model,
        None => default_model,
    };
    let (base, inferred) = split_model(named);
    let wanted = match effort {
        Some(effort) => effort,
        None => match inferred {
            Some(effort) => effort,
            None => "medium"@,
        },
    };
    (base, known_effort(wanted))
}

/// Drops a suffix that a text has.
fn drop_suffix(s: &[char], suffix: &str) -> (r: Option<String>)
    ensures
        match r {
            Some(front) => ends_with(s@, suffix@) && front@ == s@.take(s@.len() - suffix@.len()),
            None => !ends_with(s@, suffix@),
        },
{
    let pattern = text::chars_of(suffix);
    if pattern.len() > s.len() {
        return None;
    }
    let at: usize = s.len() - pattern.len();
    if text::stands_at_chars(s, &pattern, at) {
        let front = text::string_between(s, 0, at);
        assert(front@ =~= s@.take(at as int));
        Some(front)
    } else {
        None
    }
}

/// Splits the effort off a model's name.
pub fn split_effort(model: &str) -> (r: (String, Option<String>))
    ensures
        (r.0@, optional(r.1)) == split_model(model@),
{
    proof {
        reveal_strlit("-xhigh");
        reveal_strlit("-high");
        reveal_strlit("-medium");
        reveal_strlit("-low");
    }
    let chars = text::chars_of(model);
    if let Some(front) = drop_suffix(&chars, "-xhigh") {
        return (front, Some("xhigh".to_owned()));
    }
    if let Some(front) = drop_suffix(&chars, "-high") {
        return (front, Some("high".to_owned()));
    }
    if let Some(front) = drop_suffix(&chars, "-medium") {
        return (front, Some("medium".to_owned()));
    }
    if let Some(front) = drop_suffix(&chars, "-low") {
        return (front, Some("low".to_owned()));
    }
    (model.to_owned(), None)
}

/// Gives an effort that Prism knows.
pub fn normalize_effort(effort: &str) -> (r: String)
    ensures
        r@ == known_effort(effort@),
{
    if text::text_eq_ignore_case(effort, "low") {
        "low".to_owned()
    } else if text::text_eq_ignore_case(effort, "high") {
        "high".to_owned()
    } else if text::text_eq_ignore_case(effort, "xhigh") || text::text_eq_ignore_case(
        effort,
        "xhight",
    ) {
        "xhigh".to_owned()
    } else {
        "medium".to_owned()
    }
}

/// Gives the model and the effort of a completion.
pub fn resolve_model(request: &OpenAiChatRequest, default_model: &str) -> (r: (String, String))
    ensures
        (r.0@, r.1@) == resolved(
            optional(request.model),
            optional(request.reasoning_effort),
            default_model@,
        ),
{
    let (base, inferred) = match &request.model {
        Some(model) => split_effort(model.as_str()),
        None => split_effort(default_model),
    };
    let effort = match &request.reasoning_effort {
        Some(effort) => normalize_effort(effort.as_str()),
        None => match &inferred {
            Some(effort) => normalize_effort(effort.as_str()),
            None => normalize_effort("medium"),
        },
    };
    (base, effort)
}

// ---------------------------------------------------------------------------
// The conversation as it is sent
// ---------------------------------------------------------------------------

/// A message as it is sent.
pub struct PrismInputItem {
    pub item_type: String,
    pub role: String,
    pub content: Vec<PrismContentItem>,
}

/// A part of a message as it is sent.
pub struct PrismContentItem {
    pub content_type: String,
    pub text: String,
}

/// What a message that is sent says.
#[verifier::ext_equal]
pub struct InputModel {
    pub item_type: Seq<char>,
    pub role: Seq<char>,
    /// The type and the text of each part.
    pub content: Seq<(Seq<char>, Seq<char>)>,
}

impl View for PrismInputItem {
    type V = InputModel;

    open spec fn view(&self) -> InputModel {
        InputModel {
            item_type: self.item_type@,
            role: self.role@,
            content: Seq::new(
                self.content@.len(),
                |i: int| (self.content@[i].content_type@, self.content@[i].text@),
            ),
        }
    }
}

/// What messages say.
pub open spec fn inputs(items: Seq<PrismInputItem>) -> Seq<InputModel> {
    Seq::new(items.len(), |i: int| items[i]@)
}

/// The roles and texts of a conversation.
pub open spec fn conversation(messages: Seq<OpenAiMessage>) -> Seq<(Seq<char>, Seq<char>)> {
    Seq::new(messages.len(), |i: int| (messages[i].role@, messages[i].content@))
}

/// A message of this role with this text.
pub open spec fn message_item(role: Seq<char>, text: Seq<char>) -> InputModel {
    InputModel { item_type: "message"@, role, content: seq![("input_text"@, text)] }
}

/// The first message of the system at or after `from`.
pub open spec fn first_system(messages: Seq<(Seq<char>, Seq<char>)>, from: int) -> Option<int>
    decreases messages.len() - from,
{
    if from < 0 || from >= messages.len() {
        None
    } else if messages[from].0 == "system"@ {
        Some(from)
    } else {
        first_system(messages, from + 1)
    }
}

/// The prompt with a text behind it.
pub open spec fn prompted(prompt: Seq<char>, text: Seq<char>) -> Seq<char> {
    prompt + "\n\n"@ + text
}

/// The conversation as it is sent: the prompt stands before the text of the
/// first message of the system, or in one of its own at the front.
pub open spec fn input_items(messages: Seq<(Seq<char>, Seq<char>)>, prompt: Seq<char>) -> Seq<
    InputModel,
> {
    match first_system(messages, 0) {
        Some(k) => Seq::new(
            messages.len(),
            |i: int|
                message_item(
                    messages[i].0,
                    if i == k {
                        prompted(prompt, messages[i].1)
                    } else {
                        messages[i].1
                    },
                ),
        ),
        None => seq![message_item("system"@, prompt)] + Seq::new(
            messages.len(),
            |i: int| message_item(messages[i].0, messages[i].1),
        ),
    }
}

/// `first_system` gives the least index of a message of the system.
pub proof fn first_system_is_first(messages: Seq<(Seq<char>, Seq<char>)>, from: int)
    requires
        0 <= from,
    ensures
        match first_system(messages, from) {
            Some(k) => from <= k < messages.len() && messages[k].0 == "system"@ && forall|j: int|
                from <= j < k ==> #[trigger] messages[j].0 != "system"@,
            None => forall|j: int|
                from <= j < messages.len() ==> #[trigger] messages[j].0 != "system"@,
        },
    decreases messages.len() - from,
{
    if from < messages.len() && messages[from].0 != "system"@ {
        first_system_is_first(messages, from + 1);
    }
}

/// Makes a message of a role with a text.
fn make_item(role: &str, text: String) -> (r: PrismInputItem)
    ensures
        r@ == message_item(role@, text@),
{
    let mut content: Vec<PrismContentItem> = Vec::new();
    content.push(PrismContentItem { content_type: "input_text".to_owned(), text });
    let r = PrismInputItem { item_type: "message".to_owned(), role: role.to_owned(), content };
    assert(r@ =~= message_item(role@, text@));
    r
}

/// Puts the prompt into a conversation.
pub fn build_injected_prism_inputs(messages: &[OpenAiMessage], system_prompt_inject: &str) -> (r:
    Vec<PrismInputItem>)
    ensures
        inputs(r@) == input_items(conversation(messages@), system_prompt_inject@),
{
    let ghost all = conversation(messages@);
    let ghost found = first_system(all, 0);
    let mut items: Vec<PrismInputItem> = Vec::new();
    let mut injected = false;
    let mut i: usize = 0;
    proof {
        first_system_is_first(all, 0);
    }
    while i < messages.len()
        invariant
            i <= messages@.len(),
            all == conversation(messages@),
            found == first_system(all, 0),
            match found {
                Some(k) => 0 <= k < all.len() && all[k].0 == "system"@ && forall|j: int|
                    0 <= j < k ==> #[trigger] all[j].0 != "system"@,
                None => forall|j: int| 0 <= j < all.len() ==> #[trigger] all[j].0 != "system"@,
            },
            injected == (found matches Some(k) && k < i),
            inputs(items@) == Seq::new(
                i as nat,
                |j: int|
                    message_item(
                        all[j].0,
                        if found == Some(j) {
                            prompted(system_prompt_inject@, all[j].1)
                        } else {
                            all[j].1
                        },
                    ),
            ),
        decreases messages@.len() - i,
    {
        let ghost before = inputs(items@);
        let role = messages[i].role.as_str();
        assert(all[i as int].0 == role@ && all[i as int].1 == messages@[i as int].content@);
        if !injected && text::same_text(role, "system") {
            injected = true;
            let mut text = system_prompt_inject.to_owned();
            push_text(&mut text, "\n\n");
            push_text(&mut text, messages[i].content.as_str());
            items.push(make_item(role, text));
        } else {
            items.push(make_item(role, messages[i].content.clone()));
        }
        assert(inputs(items@) =~= before.push(items@.last()@));
        i += 1;
    }
    if !injected {
        let ghost before = inputs(items@);
        items.insert(0, make_item("system", system_prompt_inject.to_owned()));
        assert(inputs(items@) =~= seq![message_item("system"@, system_prompt_inject@)] + before);
        assert(before =~= Seq::new(all.len(), |j: int| message_item(all[j].0, all[j].1)));
    }
    assert(inputs(items@) =~= input_items(all, system_prompt_inject@));
    items
}

// ---------------------------------------------------------------------------
// What is sent to Prism
// ---------------------------------------------------------------------------

/// What a completion is started with.
pub struct PrismStartRequest {
    pub input: Vec<PrismInputItem>,
    pub metadata: PrismMetadata,
    pub conversation_id: String,
}

/// What Prism is told of a completion.
pub struct PrismMetadata {
    pub project_id: String,
    pub user_id: String,
    pub model: String,
    pub reasoning_effort: String,
    pub sandbox_url: String,
    pub sandbox_token: String,
    pub frontend_origin: String,
}

/// What a start says.
#[verifier::ext_equal]
pub struct StartModel {
    pub input: Seq<InputModel>,
    pub project_id: Seq<char>,
    pub user_id: Seq<char>,
    pub model: Seq<char>,
    pub reasoning_effort: Seq<char>,
    pub sandbox_url: Seq<char>,
    pub sandbox_token: Seq<char>,
    pub frontend_origin: Seq<char>,
    pub conversation_id: Seq<char>,
}

impl View for PrismStartRequest {
    type V = StartModel;

    open spec fn view(&self) -> StartModel {
        StartModel {
            input: inputs(self.input@),
            project_id: self.metadata.project_id@,
            user_id: self.metadata.user_id@,
            model: self.metadata.model@,
            reasoning_effort: self.metadata.reasoning_effort@,
            sandbox_url: self.metadata.sandbox_url@,
            sandbox_token: self.metadata.sandbox_token@,
            frontend_origin: self.metadata.frontend_origin@,
            conversation_id: self.conversation_id@,
        }
    }
}

/// A path below a base URL.
pub open spec fn url_under(base: Seq<char>, path: Seq<char>) -> Seq<char> {
    routes::without_slashes(base) + path
}

/// What a completion is started with.
pub open spec fn start_of(
    request: OpenAiChatRequest,
    config: config::ConfigModel,
    credentials: CredentialsModel,
    conversation_id: Seq<char>,
) -> StartModel {
    let (model, effort) = resolved(
        optional(request.model),
        optional(request.reasoning_effort),
        config.prism_default_model,
    );
    StartModel {
        input: input_items(conversation(request.messages@), config.prism_system_prompt),
        project_id: credentials.project_id,
        user_id: credentials.user_id,
        model,
        reasoning_effort: effort,
        sandbox_url: url_under(config.prism_base_url, "/s/sandboxes/proxy/"@),
        sandbox_token: credentials.sandbox_token,
        frontend_origin: config.prism_base_url,
        conversation_id,
    }
}

/// A path below a base URL.
fn join_url(base: &str, path: &str) -> (r: String)
    ensures
        r@ == url_under(base@, path@),
{
    let mut out = trim_slashes(base);
    push_text(&mut out, path);
    out
}

/// Where a completion is started.
pub open spec fn start_url_of(base: Seq<char>) -> Seq<char> {
    url_under(base, "/api/llm/response_with_tools_start"@)
}

/// Where a completion is asked after.
pub open spec fn status_url_of(base: Seq<char>) -> Seq<char> {
    url_under(base, "/api/llm/response_with_tools_status"@)
}

/// Where a completion is started.
pub fn start_url(base: &str) -> (r: String)
    ensures
        r@ == url_under(base@, "/api/llm/response_with_tools_start"@),
        r@ == start_url_of(base@),
{
    join_url(base, "/api/llm/response_with_tools_start")
}

/// Where a completion is asked after.
pub fn status_url(base: &str) -> (r: String)
    ensures
        r@ == url_under(base@, "/api/llm/response_with_tools_status"@),
        r@ == status_url_of(base@),
{
    join_url(base, "/api/llm/response_with_tools_status")
}

/// Makes what a completion is started with.
pub fn start_request(
    request: &OpenAiChatRequest,
    config: &Config,
    credentials: &PrismCredentials,
    conversation_id: String,
) -> (r: PrismStartRequest)
    ensures
        r@ == start_of(*request, config@, credentials@, conversation_id@),
{
    let (model, reasoning_effort) = resolve_model(request, config.prism_default_model.as_str());
    PrismStartRequest {
        input: build_injected_prism_inputs(&request.messages, config.prism_system_prompt.as_str()),
        metadata: PrismMetadata {
            project_id: credentials.project_id.clone(),
            user_id: credentials.user_id.clone(),
            model,
            reasoning_effort,
            sandbox_url: join_url(config.prism_base_url.as_str(), "/s/sandboxes/proxy/"),
            sandbox_token: credentials.sandbox_token.clone(),
            frontend_origin: config.prism_base_url.clone(),
        },
        conversation_id,
    }
}

/// The sentinel token that is sent: the packed one, or else the one that the
/// client sends in a header of its own.
pub open spec fn sentinel_of(
    credentials: CredentialsModel,
    headers: Seq<(Seq<char>, Seq<char>)>,
) -> Option<Seq<char>> {
    match credentials.sentinel_token {
        Some(token) => Some(token),
        None => http::first_value(headers, "openai-sentinel-token"@),
    }
}

/// The headers that every request to Prism has.
pub open spec fn common_fields(base: Seq<char>, project_id: Seq<char>) -> Seq<
    (Seq<char>, Seq<char>),
> {
    seq![
        ("Content-Type"@, "application/json"@),
        ("Origin"@, base),
        ("Referer"@, base + "/?u="@ + project_id),
    ]
}

/// The cookie, unless it is empty.
pub open spec fn cookie_fields(credentials: CredentialsModel) -> Seq<(Seq<char>, Seq<char>)> {
    if credentials.cookie.len() > 0 {
        seq![("Cookie"@, credentials.cookie)]
    } else {
        Seq::empty()
    }
}

/// The sentinel token, if there is one.
pub open spec fn sentinel_fields(
    credentials: CredentialsModel,
    headers: Seq<(Seq<char>, Seq<char>)>,
) -> Seq<(Seq<char>, Seq<char>)> {
    match sentinel_of(credentials, headers) {
        Some(token) => seq![("openai-sentinel-token"@, token)],
        None => Seq::empty(),
    }
}

/// The headers that a completion is started with.
pub open spec fn start_fields(
    base: Seq<char>,
    credentials: CredentialsModel,
    headers: Seq<(Seq<char>, Seq<char>)>,
) -> Seq<(Seq<char>, Seq<char>)> {
    common_fields(base, credentials.project_id) + cookie_fields(credentials) + sentinel_fields(
        credentials,
        headers,
    )
}

/// The headers that a completion is asked after with.
pub open spec fn status_fields(
    base: Seq<char>,
    credentials: CredentialsModel,
    headers: Seq<(Seq<char>, Seq<char>)>,
) -> Seq<(Seq<char>, Seq<char>)> {
    common_fields(base, credentials.project_id) + sentinel_fields(credentials, headers)
        + cookie_fields(credentials)
}

/// Begins the headers of a request to Prism.
fn common_headers(base: &str, project_id: &str) -> (r: Vec<(String, String)>)
    ensures
        http::fields(r@) == common_fields(base@, project_id@),
{
    let mut referer = base.to_owned();
    push_text(&mut referer, "/?u=");
    push_text(&mut referer, project_id);
    let mut out: Vec<(String, String)> = Vec::new();
    out.push(header("Content-Type", "application/json"));
    out.push(header("Origin", base));
    out.push(header("Referer", referer.as_str()));
    assert(http::fields(out@) =~= common_fields(base@, project_id@));
    out
}

/// Appends the cookie.
fn push_cookie(out: &mut Vec<(String, String)>, credentials: &PrismCredentials)
    ensures
        http::fields(final(out)@) == http::fields(old(out)@) + cookie_fields(credentials@),
{
    let ghost before = http::fields(out@);
    if !credentials.cookie.as_str().is_empty() {
        out.push(header("Cookie", credentials.cookie.as_str()));
    }
    assert(http::fields(out@) =~= before + cookie_fields(credentials@));
}

/// Appends the sentinel token.
fn push_sentinel(
    out: &mut Vec<(String, String)>,
    credentials: &PrismCredentials,
    headers: &[(String, String)],
)
    ensures
        http::fields(final(out)@) == http::fields(old(out)@) + sentinel_fields(
            credentials@,
            http::fields(headers@),
        ),
{
    let ghost before = http::fields(out@);
    let token = match &credentials.sentinel_token {
        Some(token) => Some(token.as_str()),
        None => header_value(headers, "openai-sentinel-token"),
    };
    if let Some(token) = token {
        out.push(header("openai-sentinel-token", token));
    }
    assert(http::fields(out@) =~= before + sentinel_fields(credentials@, http::fields(headers@)));
}

/// Makes the headers that a completion is started with.
pub fn start_headers(
    base: &str,
    credentials: &PrismCredentials,
    headers: &[(String, String)],
) -> (r: Vec<(String, String)>)
    ensures
        http::fields(r@) == start_fields(base@, credentials@, http::fields(headers@)),
{
    let mut out = common_headers(base, credentials.project_id.as_str());
    push_cookie(&mut out, credentials);
    push_sentinel(&mut out, credentials, headers);
    out
}

/// Makes the headers that a completion is asked after with.
pub fn status_headers(
    base: &str,
    credentials: &PrismCredentials,
    headers: &[(String, String)],
) -> (r: Vec<(String, String)>)
    ensures
        http::fields(r@) == status_fields(base@, credentials@, http::fields(headers@)),
{
    let mut out = common_headers(base, credentials.project_id.as_str());
    push_sentinel(&mut out, credentials, headers);
    push_cookie(&mut out, credentials);
    out
}

} // verus!
