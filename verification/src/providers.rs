//! What a dialect is asked to send, and what it hands back.
use vstd::prelude::*;

use crate::json::{items_view, Json, JsonView};

verus! {

/// A model of a provider, and where it is served.
#[derive(Debug, PartialEq, Eq)]
pub struct Model {
    pub provider: String,
    pub id: String,
    pub base_url: String,
}

pub struct ModelView {
    pub provider: Seq<char>,
    pub id: Seq<char>,
    pub base_url: Seq<char>,
}

impl View for Model {
    type V = ModelView;

    open spec fn view(&self) -> ModelView {
        ModelView { provider: self.provider@, id: self.id@, base_url: self.base_url@ }
    }
}

/// A call of a tool that the model asks for.
#[derive(Debug, PartialEq, Eq)]
pub struct ToolCall {
    pub id: String,
    pub name: String,
    /// The arguments as the JSON text that the model wrote.
    pub arguments: String,
    /// A provider's seal on the call, in dialects that have one.
    pub signature: Option<String>,
}

pub struct ToolCallView {
    pub id: Seq<char>,
    pub name: Seq<char>,
    pub arguments: Seq<char>,
    pub signature: Option<Seq<char>>,
}

/// What a text that may be missing says.
pub open spec fn optional_text(text: Option<String>) -> Option<Seq<char>> {
    match text {
        Some(text) => Some(text@),
        None => None,
    }
}

impl View for ToolCall {
    type V = ToolCallView;

    open spec fn view(&self) -> ToolCallView {
        ToolCallView {
            id: self.id@,
            name: self.name@,
            arguments: self.arguments@,
            signature: optional_text(self.signature),
        }
    }
}

impl ToolCallView {
    /// A call of which nothing has arrived.
    pub open spec fn blank() -> ToolCallView {
        ToolCallView {
            id: Seq::empty(),
            name: Seq::empty(),
            arguments: Seq::empty(),
            signature: None,
        }
    }
}

impl ToolCall {
    /// A call of which nothing has arrived.
    pub fn blank() -> (call: ToolCall)
        ensures
            call@ == ToolCallView::blank(),
    {
        ToolCall {
            id: String::new(),
            name: String::new(),
            arguments: String::new(),
            signature: None,
        }
    }
}

/// A picture in a message, by its data URL.
#[derive(Debug, PartialEq, Eq)]
pub struct Image {
    pub data_url: String,
}

impl View for Image {
    type V = Seq<char>;

    open spec fn view(&self) -> Seq<char> {
        self.data_url@
    }
}

/// One message of the conversation.
#[derive(Debug, PartialEq, Eq)]
pub struct ChatMessage {
    pub role: String,
    pub content: String,
    pub tool_calls: Vec<ToolCall>,
    /// The call that a tool result answers.
    pub tool_call_id: Option<String>,
    pub images: Vec<Image>,
}

pub struct ChatMessageView {
    pub role: Seq<char>,
    pub content: Seq<char>,
    pub tool_calls: Seq<ToolCallView>,
    pub tool_call_id: Option<Seq<char>>,
    pub images: Seq<Seq<char>>,
}

impl View for ChatMessage {
    type V = ChatMessageView;

    open spec fn view(&self) -> ChatMessageView {
        ChatMessageView {
            role: self.role@,
            content: self.content@,
            tool_calls: self.tool_calls@.map_values(|call: ToolCall| call@),
            tool_call_id: optional_text(self.tool_call_id),
            images: self.images@.map_values(|image: Image| image@),
        }
    }
}

/// One step of a conversation, to be sent to a model.
#[derive(Debug, PartialEq, Eq)]
pub struct Request {
    pub model: Model,
    pub system: String,
    pub messages: Vec<ChatMessage>,
    /// How hard the model is asked to think, where it has such a knob.
    pub effort: Option<String>,
    /// The tools on offer, each as its JSON declaration.
    pub tools: Vec<Json>,
}

pub struct RequestView {
    pub model: ModelView,
    pub system: Seq<char>,
    pub messages: Seq<ChatMessageView>,
    pub effort: Option<Seq<char>>,
    pub tools: Seq<JsonView>,
}

impl View for Request {
    type V = RequestView;

    open spec fn view(&self) -> RequestView {
        RequestView {
            model: self.model@,
            system: self.system@,
            messages: self.messages@.map_values(|message: ChatMessage| message@),
            effort: optional_text(self.effort),
            tools: items_view(self.tools@),
        }
    }
}

/// What a stream reports as it arrives.
#[derive(Debug, PartialEq, Eq)]
pub enum Event {
    TextDelta(String),
    ReasoningDelta(String),
    ToolCallStart { key: String },
    ToolArgumentsDelta { key: String, delta: String },
    ToolCallEnd { key: String },
    ToolCall(ToolCall),
    Usage { input: u64, output: u64, cache_read: u64 },
}

pub enum EventView {
    TextDelta(Seq<char>),
    ReasoningDelta(Seq<char>),
    ToolCallStart { key: Seq<char> },
    ToolArgumentsDelta { key: Seq<char>, delta: Seq<char> },
    ToolCallEnd { key: Seq<char> },
    ToolCall(ToolCallView),
    Usage { input: u64, output: u64, cache_read: u64 },
}

impl View for Event {
    type V = EventView;

    open spec fn view(&self) -> EventView {
        match self {
            Event::TextDelta(text) => EventView::TextDelta(text@),
            Event::ReasoningDelta(text) => EventView::ReasoningDelta(text@),
            Event::ToolCallStart { key } => EventView::ToolCallStart { key: key@ },
            Event::ToolArgumentsDelta { key, delta } => EventView::ToolArgumentsDelta {
                key: key@,
                delta: delta@,
            },
            Event::ToolCallEnd { key } => EventView::ToolCallEnd { key: key@ },
            Event::ToolCall(call) => EventView::ToolCall(call@),
            Event::Usage { input, output, cache_read } => EventView::Usage {
                input: *input,
                output: *output,
                cache_read: *cache_read,
            },
        }
    }
}

/// What a list of events reports.
pub open spec fn events_view(events: Seq<Event>) -> Seq<EventView> {
    events.map_values(|event: Event| event@)
}

/// Why a stream ended.
#[derive(Debug, PartialEq, Eq)]
pub enum FinishReason {
    Normal,
    ToolCalls,
    Length,
    ContentFilter,
    Other(String),
}

pub enum FinishReasonView {
    Normal,
    ToolCalls,
    Length,
    ContentFilter,
    Other(Seq<char>),
}

impl View for FinishReason {
    type V = FinishReasonView;

    open spec fn view(&self) -> FinishReasonView {
        match self {
            FinishReason::Normal => FinishReasonView::Normal,
            FinishReason::ToolCalls => FinishReasonView::ToolCalls,
            FinishReason::Length => FinishReasonView::Length,
            FinishReason::ContentFilter => FinishReasonView::ContentFilter,
            FinishReason::Other(text) => FinishReasonView::Other(text@),
        }
    }
}

impl Clone for FinishReason {
    fn clone(&self) -> (copy: Self)
        ensures
            copy@ == self@,
    {
        match self {
            FinishReason::Normal => FinishReason::Normal,
            FinishReason::ToolCalls => FinishReason::ToolCalls,
            FinishReason::Length => FinishReason::Length,
            FinishReason::ContentFilter => FinishReason::ContentFilter,
            FinishReason::Other(text) => FinishReason::Other(text.clone()),
        }
    }
}

/// What events report keeps their number, their order and their kinds, each with what it holds.
pub proof fn law_events_are_what_they_report(events: Seq<Event>, k: int)
    requires
        0 <= k < events.len(),
    ensures
        events_view(events).len() == events.len(),
        match events[k] {
            Event::TextDelta(text) => events_view(events)[k] == EventView::TextDelta(text@),
            Event::ReasoningDelta(text) => events_view(events)[k] == EventView::ReasoningDelta(
                text@,
            ),
            Event::ToolCallStart { key } => events_view(events)[k] == (EventView::ToolCallStart {
                key: key@,
            }),
            Event::ToolArgumentsDelta { key, delta } => events_view(events)[k] == (
            EventView::ToolArgumentsDelta { key: key@, delta: delta@ }),
            Event::ToolCallEnd { key } => events_view(events)[k] == (EventView::ToolCallEnd {
                key: key@,
            }),
            Event::ToolCall(call) => events_view(events)[k] == EventView::ToolCall(
                ToolCallView {
                    id: call.id@,
                    name: call.name@,
                    arguments: call.arguments@,
                    signature: if call.signature is Some {
                        Some(call.signature->0@)
                    } else {
                        None
                    },
                },
            ),
            Event::Usage { input, output, cache_read } => events_view(events)[k] == (
            EventView::Usage { input, output, cache_read }),
        },
{
}

/// A message is read whole: its role, its content, its calls and pictures in their order, and the
/// call that it answers.
pub proof fn law_messages_are_read_whole(message: ChatMessage, k: int)
    ensures
        message@.role == message.role@,
        message@.content == message.content@,
        message@.tool_calls.len() == message.tool_calls@.len(),
        0 <= k < message.tool_calls@.len() ==> {
            let call = message.tool_calls@[k];
            &&& message@.tool_calls[k].id == call.id@
            &&& message@.tool_calls[k].name == call.name@
            &&& message@.tool_calls[k].arguments == call.arguments@
        },
        message@.images.len() == message.images@.len(),
        0 <= k < message.images@.len() ==> message@.images[k] == message.images@[k].data_url@,
        message@.tool_call_id is Some <==> message.tool_call_id is Some,
        message.tool_call_id is Some ==> message@.tool_call_id->0 == message.tool_call_id->0@,
{
}

/// A request is read whole: its model, its system prompt, its effort, and its messages and tools
/// in their order.
pub proof fn law_requests_are_read_whole(request: Request, k: int)
    ensures
        request@.model.provider == request.model.provider@,
        request@.model.id == request.model.id@,
        request@.model.base_url == request.model.base_url@,
        request@.system == request.system@,
        request@.messages.len() == request.messages@.len(),
        0 <= k < request.messages@.len() ==> request@.messages[k] == request.messages@[k]@,
        request@.tools.len() == request.tools@.len(),
        0 <= k < request.tools@.len() ==> request@.tools[k] == request.tools@[k]@,
        request@.effort is Some <==> request.effort is Some,
        request.effort is Some ==> request@.effort->0 == request.effort->0@,
{
}

/// Reasons are what they are called.
pub proof fn law_reasons_are_what_they_are_called(reason: FinishReason)
    ensures
        reason is Normal <==> reason@ is Normal,
        reason is ToolCalls <==> reason@ is ToolCalls,
        reason is Length <==> reason@ is Length,
        reason is ContentFilter <==> reason@ is ContentFilter,
        reason matches FinishReason::Other(text) ==> reason@ == FinishReasonView::Other(text@),
{
}

} // verus!
