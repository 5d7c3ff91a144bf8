//! The answer with a completion, in one piece or as a stream of events.
use crate::http;
use crate::http::{header, push_text, render_head};
use crate::numbers;
use crate::prism;
use crate::relay;
use crate::relay::render_status_line;
use vstd::prelude::*;
use vstd::utf8::*;

verus! {

broadcast use vstd::string::group_string_axioms;

// ---------------------------------------------------------------------------
// In one piece
// ---------------------------------------------------------------------------

/// A chat completion.
pub struct OpenAiChatResponse {
    pub id: String,
    pub object: String,
    pub created: u64,
    pub model: String,
    pub choices: Vec<OpenAiChatChoice>,
    pub usage: OpenAiUsage,
}

/// A choice of a chat completion.
pub struct OpenAiChatChoice {
    pub index: usize,
    pub message: OpenAiResponseMessage,
    pub finish_reason: String,
}

/// The message of a choice.
pub struct OpenAiResponseMessage {
    pub role: String,
    pub content: String,
}

/// How many tokens a completion has taken.
pub struct OpenAiUsage {
    pub prompt_tokens: usize,
    pub completion_tokens: usize,
    pub total_tokens: usize,
}

/// What a chat completion says. A choice is its index, its role, its text and
/// why it ends.
#[verifier::ext_equal]
pub struct CompletionModel {
    pub id: Seq<char>,
    pub object: Seq<char>,
    pub created: u64,
    pub model: Seq<char>,
    pub choices: Seq<(nat, Seq<char>, Seq<char>, Seq<char>)>,
    pub prompt_tokens: nat,
    pub completion_tokens: nat,
    pub total_tokens: nat,
}

impl View for OpenAiChatResponse {
    type V = CompletionModel;

    open spec fn view(&self) -> CompletionModel {
        CompletionModel {
            id: self.id@,
            object: self.object@,
            created: self.created,
            model: self.model@,
            choices: Seq::new(
                self.choices@.len(),
                |i: int|
                    (
                        self.choices@[i].index as nat,
                        self.choices@[i].message.role@,
                        self.choices@[i].message.content@,
                        self.choices@[i].finish_reason@,
                    ),
            ),
            prompt_tokens: self.usage.prompt_tokens as nat,
            completion_tokens: self.usage.completion_tokens as nat,
            total_tokens: self.usage.total_tokens as nat,
        }
    }
}

/// The chat completion with this text. A token is reckoned as four bytes.
pub open spec fn completion_with(
    id: Seq<char>,
    created: u64,
    model: Seq<char>,
    text: Seq<char>,
    request_bytes: nat,
) -> CompletionModel {
    let prompt_tokens = request_bytes / 4;
    let completion_tokens = encode_utf8(text).len() / 4;
    CompletionModel {
        id,
        object: "chat.completion"@,
        created,
        model,
        choices: seq![(0nat, "assistant"@, text, "stop"@)],
        prompt_tokens,
        completion_tokens,
        total_tokens: prompt_tokens + completion_tokens,
    }
}

/// Makes the chat completion with a text.
pub fn chat_completion(
    id: String,
    created: u64,
    model: String,
    text: String,
    request_bytes: usize,
) -> (r: OpenAiChatResponse)
    ensures
        r@ == completion_with(id@, created, model@, text@, request_bytes as nat),
{
    let prompt_tokens: usize = request_bytes / 4;
    let completion_tokens: usize = text.as_str().as_bytes().len() / 4;
    let mut choices: Vec<OpenAiChatChoice> = Vec::new();
    let ghost said = text@;
    choices.push(
        OpenAiChatChoice {
            index: 0,
            message: OpenAiResponseMessage { role: "assistant".to_owned(), content: text },
            finish_reason: "stop".to_owned(),
        },
    );
    let r = OpenAiChatResponse {
        id,
        object: "chat.completion".to_owned(),
        created,
        model,
        choices,
        usage: OpenAiUsage {
            prompt_tokens,
            completion_tokens,
            total_tokens: prompt_tokens + completion_tokens,
        },
    };
    assert(r@ =~= completion_with(id@, created, model@, said, request_bytes as nat));
    r
}

/// The headers of an answer in JSON.
pub open spec fn json_fields(json: Seq<char>) -> Seq<(Seq<char>, Seq<char>)> {
    seq![
        ("Content-Type"@, "application/json"@),
        ("Content-Length"@, numbers::decimal(encode_utf8(json).len())),
        ("Connection"@, "close"@),
    ]
}

/// An answer in JSON.
pub open spec fn json_answer(json: Seq<char>) -> Seq<char> {
    http::rendered_head(relay::status_line(200, "OK"@), json_fields(json)) + json
}

/// Writes an answer in JSON.
pub fn json_response(json: &str) -> (r: String)
    ensures
        r@ == http::rendered_head(relay::status_line(200, "OK"@), json_fields(json@)) + json@,
        r@ == json_answer(json@),
{
    let length = numbers::decimal_text(json.as_bytes().len() as u64);
    let mut headers: Vec<(String, String)> = Vec::new();
    headers.push(header("Content-Type", "application/json"));
    headers.push(header("Content-Length", length.as_str()));
    headers.push(header("Connection", "close"));
    assert(http::fields(headers@) =~= json_fields(json@));
    let line = render_status_line(200, "OK");
    let mut out = render_head(line.as_str(), &headers);
    push_text(&mut out, json);
    out
}

// ---------------------------------------------------------------------------
// As a stream
// ---------------------------------------------------------------------------

/// A part of a chat completion.
pub struct OpenAiChatChunk {
    pub id: String,
    pub object: String,
    pub created: u64,
    pub model: String,
    pub choices: Vec<OpenAiChunkChoice>,
}

/// A choice of a part.
pub struct OpenAiChunkChoice {
    pub index: usize,
    pub delta: OpenAiChunkDelta,
    pub finish_reason: Option<String>,
}

/// What a part adds.
pub struct OpenAiChunkDelta {
    pub role: Option<String>,
    pub content: Option<String>,
}

/// What a choice of a part says.
#[verifier::ext_equal]
pub struct DeltaModel {
    pub index: nat,
    pub role: Option<Seq<char>>,
    pub content: Option<Seq<char>>,
    pub finish_reason: Option<Seq<char>>,
}

/// What a part of a chat completion says.
#[verifier::ext_equal]
pub struct PartModel {
    pub id: Seq<char>,
    pub object: Seq<char>,
    pub created: u64,
    pub model: Seq<char>,
    pub choices: Seq<DeltaModel>,
}

impl View for OpenAiChatChunk {
    type V = PartModel;

    open spec fn view(&self) -> PartModel {
        PartModel {
            id: self.id@,
            object: self.object@,
            created: self.created,
            model: self.model@,
            choices: Seq::new(
                self.choices@.len(),
                |i: int|
                    DeltaModel {
                        index: self.choices@[i].index as nat,
                        role: prism::optional(self.choices@[i].delta.role),
                        content: prism::optional(self.choices@[i].delta.content),
                        finish_reason: prism::optional(self.choices@[i].finish_reason),
                    },
            ),
        }
    }
}

/// A part with one choice.
pub open spec fn part_with(
    id: Seq<char>,
    created: u64,
    model: Seq<char>,
    role: Option<Seq<char>>,
    content: Option<Seq<char>>,
    finish_reason: Option<Seq<char>>,
) -> PartModel {
    PartModel {
        id,
        object: "chat.completion.chunk"@,
        created,
        model,
        choices: seq![DeltaModel { index: 0, role, content, finish_reason }],
    }
}

/// The parts of a chat completion: the role, the text unless it is empty, and
/// the end.
pub open spec fn parts_of(
    id: Seq<char>,
    created: u64,
    model: Seq<char>,
    text: Seq<char>,
) -> Seq<PartModel> {
    let first = part_with(id, created, model, Some("assistant"@), Some(Seq::empty()), None);
    let last = part_with(id, created, model, None, None, Some("stop"@));
    if text.len() > 0 {
        seq![first, part_with(id, created, model, None, Some(text), None), last]
    } else {
        seq![first, last]
    }
}

/// What parts say.
pub open spec fn parts(chunks: Seq<OpenAiChatChunk>) -> Seq<PartModel> {
    Seq::new(chunks.len(), |i: int| chunks[i]@)
}

/// Makes a part with one choice.
fn make_part(
    id: &str,
    created: u64,
    model: &str,
    role: Option<String>,
    content: Option<String>,
    finish_reason: Option<String>,
) -> (r: OpenAiChatChunk)
    ensures
        r@ == part_with(
            id@,
            created,
            model@,
            prism::optional(role),
            prism::optional(content),
            prism::optional(finish_reason),
        ),
{
    let mut choices: Vec<OpenAiChunkChoice> = Vec::new();
    choices.push(
        OpenAiChunkChoice { index: 0, delta: OpenAiChunkDelta { role, content }, finish_reason },
    );
    let r = OpenAiChatChunk {
        id: id.to_owned(),
        object: "chat.completion.chunk".to_owned(),
        created,
        model: model.to_owned(),
        choices,
    };
    assert(r@ =~= part_with(
        id@,
        created,
        model@,
        prism::optional(role),
        prism::optional(content),
        prism::optional(finish_reason),
    ));
    r
}

/// Makes the parts of a chat completion.
pub fn chat_chunks(id: &str, created: u64, model: &str, text: &str) -> (r: Vec<OpenAiChatChunk>)
    ensures
        parts(r@) == parts_of(id@, created, model@, text@),
{
    let mut out: Vec<OpenAiChatChunk> = Vec::new();
    let nothing = String::new();
    assert(nothing@ =~= Seq::<char>::empty());
    out.push(
        make_part(id, created, model, Some("assistant".to_owned()), Some(nothing), None),
    );
    if !text.is_empty() {
        out.push(make_part(id, created, model, None, Some(text.to_owned()), None));
    }
    out.push(make_part(id, created, model, None, None, Some("stop".to_owned())));
    assert(parts(out@) =~= parts_of(id@, created, model@, text@));
    out
}

/// The headers of a stream of events.
pub open spec fn stream_fields() -> Seq<(Seq<char>, Seq<char>)> {
    seq![
        ("Content-Type"@, "text/event-stream"@),
        ("Cache-Control"@, "no-cache"@),
        ("Connection"@, "close"@),
    ]
}

/// The head of a stream of events.
pub open spec fn stream_head_text() -> Seq<char> {
    http::rendered_head(relay::status_line(200, "OK"@), stream_fields())
}

/// Writes the head of a stream of events.
pub fn stream_head() -> (r: String)
    ensures
        r@ == http::rendered_head(relay::status_line(200, "OK"@), stream_fields()),
        r@ == stream_head_text(),
{
    let mut headers: Vec<(String, String)> = Vec::new();
    headers.push(header("Content-Type", "text/event-stream"));
    headers.push(header("Cache-Control", "no-cache"));
    headers.push(header("Connection", "close"));
    assert(http::fields(headers@) =~= stream_fields());
    let line = render_status_line(200, "OK");
    render_head(line.as_str(), &headers)
}

/// An event.
pub open spec fn event_of(data: Seq<char>) -> Seq<char> {
    "data: "@ + data + "\n\n"@
}

/// The data of the event behind the last part.
pub const STREAM_END: &'static str = "[DONE]";

/// Writes an event.
pub fn stream_event(data: &str) -> (r: String)
    ensures
        r@ == event_of(data@),
{
    let mut out = "data: ".to_owned();
    push_text(&mut out, data);
    push_text(&mut out, "\n\n");
    out
}

// ---------------------------------------------------------------------------
// Laws
// ---------------------------------------------------------------------------

/// The contents of parts in a row.
pub open spec fn streamed_text(parts: Seq<PartModel>) -> Seq<char>
    decreases parts.len(),
{
    if parts.len() == 0 {
        Seq::empty()
    } else {
        streamed_text(parts.drop_last()) + match parts.last().choices[0].content {
            Some(content) => content,
            None => Seq::empty(),
        }
    }
}

/// A stream says what the completion in one piece says: its contents in a row
/// are the text, its first part has the role, its last part alone the end.
pub proof fn streams_carry_the_text(id: Seq<char>, created: u64, model: Seq<char>, text: Seq<char>)
    ensures
        ({
            let all = parts_of(id, created, model, text);
            &&& streamed_text(all) == text
            &&& all[0].choices[0].role == Some("assistant"@)
            &&& forall|i: int|
                0 <= i < all.len() ==> ((#[trigger] all[i]).choices[0].finish_reason == Some(
                    "stop"@,
                ) <==> i == all.len() - 1) && all[i].id == id && all[i].model == model
                    && all[i].created == created
        }),
{
    let all = parts_of(id, created, model, text);
    let first = seq![all[0]];
    assert(first.drop_last() =~= Seq::<PartModel>::empty());
    assert(streamed_text(first.drop_last()) =~= Seq::<char>::empty());
    assert(streamed_text(first) =~= Seq::<char>::empty());
    if text.len() > 0 {
        let two = seq![all[0], all[1]];
        assert(two.drop_last() =~= first);
        assert(streamed_text(two) =~= text);
        assert(all.drop_last() =~= two);
    } else {
        assert(all.drop_last() =~= first);
    }
    assert(streamed_text(all) =~= text);
}

} // verus!
