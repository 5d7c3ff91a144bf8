//! Where a request goes, and the answers that need no upstream.
use crate::http;
use crate::http::{header, push_text, render_head};
use crate::numbers;
use crate::relay;
use crate::relay::render_status_line;
use crate::text;
use vstd::prelude::*;
use vstd::utf8::*;

verus! {

broadcast use vstd::string::group_string_axioms;

/// The model that the catalog always lists.
pub const BASE_MODEL: &'static str = "gpt-5.6-sol";

// ---------------------------------------------------------------------------
// Routes
// ---------------------------------------------------------------------------

/// Where a request goes.
#[derive(Clone, Copy, Debug, PartialEq, Eq, Structural)]
pub enum Route {
    /// The answer to a preflight.
    Preflight,
    /// The catalog of models.
    ModelsCatalog,
    /// A completion by Prism.
    PrismCompletions,
    /// The upstream.
    Proxy,
}

/// The text without the slashes at its end.
pub open spec fn without_slashes(s: Seq<char>) -> Seq<char>
    decreases s.len(),
{
    if s.len() > 0 && s.last() == '/' {
        without_slashes(s.drop_last())
    } else {
        s
    }
}

/// The path of a target: what stands before the query, without slashes at its
/// end.
pub open spec fn clean_path(target: Seq<char>) -> Seq<char> {
    match text::position(target, '?', 0) {
        Some(at) => without_slashes(target.take(at)),
        None => without_slashes(target),
    }
}

/// The paths of the catalog of models.
pub open spec fn models_catalog_route(path: Seq<char>) -> bool {
    path == "/v1/models"@ || path == "/models"@ || path == "/prism-openai/v1/models"@
}

/// The path of completions by Prism.
pub open spec fn prism_completions_route(path: Seq<char>) -> bool {
    path == "/prism-openai/v1/chat/completions"@
}

/// Where a request with this method and this target goes.
pub open spec fn route_of(method: Seq<char>, target: Seq<char>) -> Route {
    if text::eq_ignore_case(method, "options"@) {
        Route::Preflight
    } else if text::eq_ignore_case(method, "get"@) && models_catalog_route(clean_path(target)) {
        Route::ModelsCatalog
    } else if prism_completions_route(clean_path(target)) {
        Route::PrismCompletions
    } else {
        Route::Proxy
    }
}

/// Drops the slashes at the end of a text.
pub fn trim_slashes(s: &str) -> (r: String)
    ensures
        r@ == without_slashes(s@),
{
    let chars = text::chars_of(s);
    let end = slashes_from(&chars, chars.len());
    proof {
        assert(chars@.take(chars@.len() as int) =~= chars@);
    }
    let r = text::string_between(&chars, 0, end);
    assert(r@ =~= without_slashes(s@));
    r
}

/// Where the slashes at the end of the first `to` characters begin.
fn slashes_from(chars: &[char], to: usize) -> (r: usize)
    requires
        to <= chars@.len(),
    ensures
        r <= to,
        chars@.take(r as int) == without_slashes(chars@.take(to as int)),
{
    let mut end: usize = to;
    while end > 0 && chars[end - 1] == '/'
        invariant
            end <= to <= chars@.len(),
            without_slashes(chars@.take(to as int)) == without_slashes(chars@.take(end as int)),
        decreases end,
    {
        assert(chars@.take(end as int).drop_last() =~= chars@.take(end - 1));
        end -= 1;
    }
    end
}

/// Gives the path of a target.
pub fn target_path(target: &str) -> (r: String)
    ensures
        r@ == clean_path(target@),
{
    let chars = text::chars_of(target);
    let to = match text::position_char(&chars, '?', 0) {
        Some(at) => at,
        None => chars.len(),
    };
    let end = slashes_from(&chars, to);
    proof {
        assert(chars@.take(chars@.len() as int) =~= chars@);
    }
    let r = text::string_between(&chars, 0, end);
    assert(r@ =~= chars@.take(end as int));
    r
}

/// Whether a path is one of the catalog of models.
pub fn is_models_catalog_route(path: &str) -> (r: bool)
    ensures
        r == models_catalog_route(path@),
{
    text::same_text(path, "/v1/models") || text::same_text(path, "/models") || text::same_text(
        path,
        "/prism-openai/v1/models",
    )
}

/// Whether a path is that of completions by Prism.
pub fn is_prism_completions_route(path: &str) -> (r: bool)
    ensures
        r == prism_completions_route(path@),
{
    text::same_text(path, "/prism-openai/v1/chat/completions")
}

/// Tells where a request goes.
pub fn route_request(method: &str, target: &str) -> (r: Route)
    ensures
        r == route_of(method@, target@),
{
    let path = target_path(target);
    if text::text_eq_ignore_case(method, "options") {
        Route::Preflight
    } else if text::text_eq_ignore_case(method, "get") && is_models_catalog_route(path.as_str()) {
        Route::ModelsCatalog
    } else if is_prism_completions_route(path.as_str()) {
        Route::PrismCompletions
    } else {
        Route::Proxy
    }
}

// ---------------------------------------------------------------------------
// The preflight
// ---------------------------------------------------------------------------

/// The headers of the answer to a preflight.
pub open spec fn preflight_fields() -> Seq<(Seq<char>, Seq<char>)> {
    seq![
        ("Access-Control-Allow-Origin"@, "*"@),
        ("Access-Control-Allow-Methods"@, "GET, POST, OPTIONS"@),
        ("Access-Control-Allow-Headers"@, "*"@),
        ("Content-Length"@, "0"@),
        ("Connection"@, "close"@),
    ]
}

/// The answer to a preflight.
pub open spec fn preflight_answer() -> Seq<char> {
    http::rendered_head(relay::status_line(200, "OK"@), preflight_fields())
}

/// Writes the answer to a preflight.
pub fn cors_preflight_response() -> (r: String)
    ensures
        r@ == http::rendered_head(relay::status_line(200, "OK"@), preflight_fields()),
        r@ == preflight_answer(),
{
    let mut headers: Vec<(String, String)> = Vec::new();
    headers.push(header("Access-Control-Allow-Origin", "*"));
    headers.push(header("Access-Control-Allow-Methods", "GET, POST, OPTIONS"));
    headers.push(header("Access-Control-Allow-Headers", "*"));
    headers.push(header("Content-Length", "0"));
    headers.push(header("Connection", "close"));
    assert(http::fields(headers@) =~= preflight_fields());
    let line = render_status_line(200, "OK");
    render_head(line.as_str(), &headers)
}

// ---------------------------------------------------------------------------
// The catalog of models
// ---------------------------------------------------------------------------

/// `a` stands before `b` in the order of the characters' numbers.
pub open spec fn precedes(a: Seq<char>, b: Seq<char>) -> bool
    decreases a.len(),
{
    if b.len() == 0 {
        false
    } else if a.len() == 0 {
        true
    } else if a[0] == b[0] {
        precedes(a.drop_first(), b.drop_first())
    } else {
        a[0] < b[0]
    }
}

/// The models that the catalog lists, in order and without repetition.
pub open spec fn catalog_models(default_model: Seq<char>) -> Seq<Seq<char>> {
    if default_model.len() == 0 || default_model == BASE_MODEL@ {
        seq![BASE_MODEL@]
    } else if precedes(default_model, BASE_MODEL@) {
        seq![default_model, BASE_MODEL@]
    } else {
        seq![BASE_MODEL@, default_model]
    }
}

/// A model and its names for each reasoning effort.
pub open spec fn model_names(model: Seq<char>) -> Seq<Seq<char>> {
    seq![model, model + "-low"@, model + "-medium"@, model + "-high"@, model + "-xhigh"@]
}

/// The names of all models.
pub open spec fn catalog_names(models: Seq<Seq<char>>) -> Seq<Seq<char>>
    decreases models.len(),
{
    if models.len() == 0 {
        Seq::empty()
    } else {
        catalog_names(models.drop_last()) + model_names(models.last())
    }
}

/// The entry of a name.
pub open spec fn catalog_entry(name: Seq<char>) -> Seq<char> {
    "{\"id\":\""@ + name
        + "\",\"object\":\"model\",\"created\":1700000000,\"owned_by\":\"system\"}"@
}

/// The entries of names, with commas between them.
pub open spec fn catalog_entries(names: Seq<Seq<char>>) -> Seq<char>
    decreases names.len(),
{
    if names.len() == 0 {
        Seq::empty()
    } else if names.len() == 1 {
        catalog_entry(names[0])
    } else {
        catalog_entries(names.drop_last()) + seq![','] + catalog_entry(names.last())
    }
}

/// The catalog of models.
pub open spec fn catalog_body(default_model: Seq<char>) -> Seq<char> {
    "{\"object\":\"list\",\"data\":["@ + catalog_entries(
        catalog_names(catalog_models(default_model)),
    ) + "]}"@
}

/// The headers of the catalog of models.
pub open spec fn catalog_fields(default_model: Seq<char>) -> Seq<(Seq<char>, Seq<char>)> {
    seq![
        ("Content-Type"@, "application/json"@),
        ("Access-Control-Allow-Origin"@, "*"@),
        ("Content-Length"@, numbers::decimal(encode_utf8(catalog_body(default_model)).len())),
        ("Connection"@, "close"@),
    ]
}

/// Whether a text stands before another.
fn stands_before(a: &[char], b: &[char]) -> (r: bool)
    ensures
        r == precedes(a@, b@),
{
    let mut i: usize = 0;
    assert(a@.skip(0) =~= a@);
    assert(b@.skip(0) =~= b@);
    while i < a.len() && i < b.len() && a[i] == b[i]
        invariant
            i <= a@.len(),
            i <= b@.len(),
            precedes(a@, b@) == precedes(a@.skip(i as int), b@.skip(i as int)),
        decreases a@.len() - i,
    {
        assert(a@.skip(i as int).drop_first() =~= a@.skip(i + 1));
        assert(b@.skip(i as int).drop_first() =~= b@.skip(i + 1));
        i += 1;
    }
    if i >= b.len() {
        false
    } else if i >= a.len() {
        true
    } else {
        a[i] < b[i]
    }
}

/// The models that the catalog lists.
pub fn list_models(default_model: &str) -> (r: Vec<String>)
    ensures
        text::views(r@) == catalog_models(default_model@),
{
    let mut out: Vec<String> = Vec::new();
    if default_model.is_empty() || text::same_text(default_model, BASE_MODEL) {
        out.push(BASE_MODEL.to_owned());
    } else {
        let name = text::chars_of(default_model);
        let base = text::chars_of(BASE_MODEL);
        if stands_before(&name, &base) {
            out.push(default_model.to_owned());
            out.push(BASE_MODEL.to_owned());
        } else {
            out.push(BASE_MODEL.to_owned());
            out.push(default_model.to_owned());
        }
    }
    assert(text::views(out@) =~= catalog_models(default_model@));
    out
}

/// A name with a suffix.
fn with_suffix(model: &str, suffix: &str) -> (r: String)
    ensures
        r@ == model@ + suffix@,
{
    let mut out = model.to_owned();
    push_text(&mut out, suffix);
    out
}

/// The names of all models.
fn list_names(models: &[String]) -> (r: Vec<String>)
    ensures
        text::views(r@) == catalog_names(text::views(models@)),
{
    let ghost all = text::views(models@);
    let mut out: Vec<String> = Vec::new();
    let mut i: usize = 0;
    assert(text::views(out@) =~= catalog_names(all.take(0)));
    while i < models.len()
        invariant
            i <= models@.len(),
            all == text::views(models@),
            text::views(out@) == catalog_names(all.take(i as int)),
        decreases models@.len() - i,
    {
        let ghost before = text::views(out@);
        let model = models[i].as_str();
        out.push(model.to_owned());
        out.push(with_suffix(model, "-low"));
        out.push(with_suffix(model, "-medium"));
        out.push(with_suffix(model, "-high"));
        out.push(with_suffix(model, "-xhigh"));
        i += 1;
        assert(all.take(i as int).drop_last() =~= all.take(i - 1));
        assert(all.take(i as int).last() == model@);
        assert(text::views(out@) =~= before + model_names(model@));
    }
    assert(all.take(i as int) =~= all);
    out
}

/// Writes the catalog of models.
pub fn render_catalog(default_model: &str) -> (r: String)
    ensures
        r@ == catalog_body(default_model@),
{
    let models = list_models(default_model);
    let names = list_names(&models);
    let ghost all = text::views(names@);
    let open = "{\"object\":\"list\",\"data\":[";
    let mut out = open.to_owned();
    let mut i: usize = 0;
    assert(out@ =~= open@ + catalog_entries(all.take(0)));
    while i < names.len()
        invariant
            i <= names@.len(),
            all == text::views(names@),
            out@ == open@ + catalog_entries(all.take(i as int)),
        decreases names@.len() - i,
    {
        let ghost before = out@;
        if i > 0 {
            out.push(',');
        }
        push_text(&mut out, "{\"id\":\"");
        push_text(&mut out, names[i].as_str());
        push_text(
            &mut out,
            "\",\"object\":\"model\",\"created\":1700000000,\"owned_by\":\"system\"}",
        );
        i += 1;
        assert(all.take(i as int).drop_last() =~= all.take(i - 1));
        assert(all.take(i as int).last() == names@[i - 1]@);
        assert(out@ =~= open@ + catalog_entries(all.take(i as int)));
    }
    assert(all.take(i as int) =~= all);
    push_text(&mut out, "]}");
    out
}

/// The answer with the catalog of models.
pub open spec fn catalog_answer(default_model: Seq<char>) -> Seq<char> {
    http::rendered_head(relay::status_line(200, "OK"@), catalog_fields(default_model))
        + catalog_body(default_model)
}

/// Writes the answer with the catalog of models.
pub fn models_catalog_response(default_model: &str) -> (r: String)
    ensures
        r@ == http::rendered_head(relay::status_line(200, "OK"@), catalog_fields(default_model@))
            + catalog_body(default_model@),
        r@ == catalog_answer(default_model@),
{
    let body = render_catalog(default_model);
    let length = numbers::decimal_text(body.as_str().as_bytes().len() as u64);
    let mut headers: Vec<(String, String)> = Vec::new();
    headers.push(header("Content-Type", "application/json"));
    headers.push(header("Access-Control-Allow-Origin", "*"));
    headers.push(header("Content-Length", length.as_str()));
    headers.push(header("Connection", "close"));
    assert(http::fields(headers@) =~= catalog_fields(default_model@));
    let line = render_status_line(200, "OK");
    let mut out = render_head(line.as_str(), &headers);
    push_text(&mut out, body.as_str());
    out
}

// ---------------------------------------------------------------------------
// Laws
// ---------------------------------------------------------------------------

/// A query and slashes at the end of the path decide nothing.
pub proof fn query_decides_nothing(method: Seq<char>, path: Seq<char>, query: Seq<char>)
    requires
        !path.contains('?'),
    ensures
        route_of(method, path + seq!['?'] + query) == route_of(method, path),
        route_of(method, path + seq!['/']) == route_of(method, path),
{
    let target = path + seq!['?'] + query;
    assert forall|j: int| 0 <= j < path.len() implies path[j] != '?' by {
        assert(path.contains(path[j]));
    }
    text::position_unique(target, '?', 0, path.len() as int);
    assert(target.take(path.len() as int) =~= path);
    text::position_absent(path, '?', 0);
    let slashed = path + seq!['/'];
    assert(slashed.drop_last() =~= path);
    text::position_absent(slashed, '?', 0);
}

/// Exactly one of two different texts stands before the other.
pub proof fn precedes_is_total(a: Seq<char>, b: Seq<char>)
    ensures
        a == b ==> !precedes(a, b),
        a != b ==> (precedes(a, b) <==> !precedes(b, a)),
    decreases a.len(),
{
    if a.len() > 0 && b.len() > 0 {
        precedes_is_total(a.drop_first(), b.drop_first());
        if a[0] == b[0] && a.drop_first() == b.drop_first() {
            assert(a =~= seq![a[0]] + a.drop_first());
            assert(b =~= seq![b[0]] + b.drop_first());
        }
    } else if a.len() == 0 && b.len() == 0 {
        assert(a =~= b);
    }
}

/// The catalog lists the base model and the default model, each once, in
/// order.
pub proof fn catalog_models_are_in_order(default_model: Seq<char>)
    ensures
        catalog_models(default_model).contains(BASE_MODEL@),
        default_model.len() > 0 ==> catalog_models(default_model).contains(default_model),
        forall|i: int, j: int|
            0 <= i < j < catalog_models(default_model).len() ==> precedes(
                #[trigger] catalog_models(default_model)[i],
                #[trigger] catalog_models(default_model)[j],
            ),
{
    precedes_is_total(default_model, BASE_MODEL@);
    let models = catalog_models(default_model);
    assert(models[0] == BASE_MODEL@ || models[1] == BASE_MODEL@);
    if default_model.len() > 0 {
        assert(models[0] == default_model || models[1] == default_model);
    }
}

} // verus!
