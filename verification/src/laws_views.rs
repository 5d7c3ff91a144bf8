//! What the values of the library say: field by field, item by item, and
//! nothing besides.
use crate::completion::{OpenAiChatChunk, OpenAiChatResponse};
use crate::config::{Config, Settings};
use crate::http;
use crate::http::{RequestHead, ResponseHead};
use crate::omniroute::{ProxyAction, ProxyActionModel, ProxyEvent, ProxyEventModel};
use crate::prism;
use crate::prism::{OpenAiMessage, PrismCredentials, PrismInputItem, PrismStartRequest};
use crate::prism_reply::{PollState, PrismStep, StepModel};
use crate::reader::Request;
use crate::relay::{RelayStep, RelayStepModel};
use crate::routing::{ServeAction, ServeActionModel};
use crate::text;
use vstd::prelude::*;

verus! {

/// Lists of headers and of texts say what each of their items says, in order.
pub proof fn lists_say_their_items(headers: Seq<(String, String)>, list: Seq<String>)
    ensures
        http::fields(headers).len() == headers.len(),
        forall|i: int|
            0 <= i < headers.len() ==> #[trigger] http::fields(headers)[i] == (
                headers[i].0@,
                headers[i].1@,
            ),
        text::views(list).len() == list.len(),
        forall|i: int| 0 <= i < list.len() ==> #[trigger] text::views(list)[i] == list[i]@,
{
}

/// Requests and heads say their fields.
pub proof fn messages_say_their_fields(
    request: Request,
    head: RequestHead,
    response: ResponseHead,
)
    ensures
        request@.method == request.method@ && request@.path == request.path@ && request@.headers
            == http::fields(request.headers@) && request@.body == request.body@,
        head@.method == head.method@ && head@.path == head.path@ && head@.headers == http::fields(
            head.headers@,
        ) && head@.framing == head.framing,
        response@.status == response.status && response@.reason == response.reason@
            && response@.headers == http::fields(response.headers@) && response@.buffered_body
            == response.buffered_body@,
{
}

/// Events, actions and steps say which they are and what they carry.
pub proof fn steps_say_what_they_carry(
    event: ProxyEvent<'_>,
    action: ProxyAction,
    served: ServeAction,
    step: RelayStep,
)
    ensures
        event@ == match event {
            ProxyEvent::Head { status, headers } => ProxyEventModel::Head {
                status,
                headers: http::fields(headers@),
            },
            ProxyEvent::Failed => ProxyEventModel::Failed,
            ProxyEvent::Relayed => ProxyEventModel::Relayed,
            ProxyEvent::Answered => ProxyEventModel::Answered,
            ProxyEvent::BrokenOff => ProxyEventModel::BrokenOff,
        },
        action@ == match action {
            ProxyAction::TryNext { delay_ms } => ProxyActionModel::TryNext {
                delay_ms: delay_ms as nat,
            },
            ProxyAction::Relay => ProxyActionModel::Relay,
            ProxyAction::Answer(t) => ProxyActionModel::Answer(t@),
            ProxyAction::AnswerAndEnd(t) => ProxyActionModel::AnswerAndEnd(t@),
            ProxyAction::End => ProxyActionModel::End,
        },
        served@ == match served {
            ServeAction::TryNext { delay_ms } => ServeActionModel::TryNext {
                delay_ms: delay_ms as nat,
            },
            ServeAction::Relay => ServeActionModel::Relay,
            ServeAction::Answer(t) => ServeActionModel::Answer(t@),
            ServeAction::End { complete } => ServeActionModel::End { complete },
        },
        step@ == match step {
            RelayStep::Read => RelayStepModel::Read,
            RelayStep::Piece(piece) => RelayStepModel::Piece(piece@),
            RelayStep::Finish(piece) => RelayStepModel::Finish(piece@),
            RelayStep::Failed(e) => RelayStepModel::Failed(e),
        },
{
}

/// Settings say their fields.
pub proof fn settings_say_their_fields(settings: Settings, config: Config)
    ensures
        settings@.listen_host == settings.listen_host@ && settings@.listen_port
            == settings.listen_port && settings@.max_connections == settings.max_connections
            && settings@.config == settings.config@,
        config@.target_host == config.target_host@ && config@.target_port == config.target_port
            && config@.fallbacks == text::views(config.fallbacks@) && config@.io_timeout
            == config.io_timeout && config@.retry_base_delay_ms == config.retry_base_delay_ms
            && config@.max_retry_delay_ms == config.max_retry_delay_ms,
        config@.prism_base_url == config.prism_base_url@ && config@.prism_project_id
            == config.prism_project_id@ && config@.prism_cookie == config.prism_cookie@
            && config@.prism_sandbox_token == config.prism_sandbox_token@ && config@.prism_user_id
            == config.prism_user_id@ && config@.prism_default_model == config.prism_default_model@
            && config@.prism_system_prompt == config.prism_system_prompt@,
{
}

/// What is sent to Prism says its fields.
pub proof fn starts_say_their_fields(
    value: Option<String>,
    messages: Seq<OpenAiMessage>,
    items: Seq<PrismInputItem>,
    item: PrismInputItem,
    credentials: PrismCredentials,
    start: PrismStartRequest,
)
    ensures
        value is None ==> prism::optional(value) is None,
        value matches Some(t) ==> prism::optional(value) == Some(t@),
        prism::conversation(messages).len() == messages.len(),
        forall|i: int|
            0 <= i < messages.len() ==> #[trigger] prism::conversation(messages)[i] == (
                messages[i].role@,
                messages[i].content@,
            ),
        prism::inputs(items).len() == items.len(),
        forall|i: int| 0 <= i < items.len() ==> #[trigger] prism::inputs(items)[i] == items[i]@,
        item@.item_type == item.item_type@ && item@.role == item.role@ && item@.content.len()
            == item.content@.len(),
        forall|i: int|
            0 <= i < item.content@.len() ==> #[trigger] item@.content[i] == (
                item.content@[i].content_type@,
                item.content@[i].text@,
            ),
        credentials@.cookie == credentials.cookie@ && credentials@.sentinel_token
            == prism::optional(credentials.sentinel_token) && credentials@.sandbox_token
            == credentials.sandbox_token@ && credentials@.user_id == credentials.user_id@
            && credentials@.project_id == credentials.project_id@,
        start@.input == prism::inputs(start.input@) && start@.conversation_id
            == start.conversation_id@,
        start@.project_id == start.metadata.project_id@ && start@.user_id
            == start.metadata.user_id@ && start@.model == start.metadata.model@
            && start@.reasoning_effort == start.metadata.reasoning_effort@ && start@.sandbox_url
            == start.metadata.sandbox_url@ && start@.sandbox_token == start.metadata.sandbox_token@
            && start@.frontend_origin == start.metadata.frontend_origin@,
{
}

/// The steps of a completion say which they are and what they carry.
pub proof fn polls_say_what_they_carry<T>(state: PollState<T>, step: PrismStep<T>)
    ensures
        state@.request_id == state.request_id@ && state@.turn_state == state.turn_state
            && state@.attempts == state.attempts,
        step@ == match step {
            PrismStep::Refused(answer) => StepModel::Refused(answer@),
            PrismStep::Poll(next) => StepModel::Poll(next@),
            PrismStep::Finished(t) => StepModel::Finished(t@),
        },
{
}

/// Completions and their parts say their fields.
pub proof fn completions_say_their_fields(whole: OpenAiChatResponse, part: OpenAiChatChunk)
    ensures
        whole@.id == whole.id@ && whole@.object == whole.object@ && whole@.created == whole.created
            && whole@.model == whole.model@ && whole@.choices.len() == whole.choices@.len(),
        forall|i: int|
            0 <= i < whole.choices@.len() ==> #[trigger] whole@.choices[i] == (
                whole.choices@[i].index as nat,
                whole.choices@[i].message.role@,
                whole.choices@[i].message.content@,
                whole.choices@[i].finish_reason@,
            ),
        whole@.prompt_tokens == whole.usage.prompt_tokens && whole@.completion_tokens
            == whole.usage.completion_tokens && whole@.total_tokens == whole.usage.total_tokens,
        part@.id == part.id@ && part@.object == part.object@ && part@.created == part.created
            && part@.model == part.model@ && part@.choices.len() == part.choices@.len(),
        forall|i: int|
            0 <= i < part.choices@.len() ==> (#[trigger] part@.choices[i]).index
                == part.choices@[i].index && part@.choices[i].role == prism::optional(
                part.choices@[i].delta.role,
            ) && part@.choices[i].content == prism::optional(part.choices@[i].delta.content)
                && part@.choices[i].finish_reason == prism::optional(
                part.choices@[i].finish_reason,
            ),
{
}

} // verus!
