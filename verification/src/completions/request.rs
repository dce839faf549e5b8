//! What goes over the wire: the endpoint, the messages and the request body.
use vstd::prelude::*;

use super::rejected::{model_key, reasoning_is_rejected, RejectedModels};
use crate::json::{items_view, lemma_array_view, Json, JsonView};
use crate::providers::{
    ChatMessage, ChatMessageView, Image, Model, ModelView, Request, RequestView, ToolCall,
    ToolCallView,
};
use crate::text::same_text;

verus! {

/// What the response is asked to be.
pub const ACCEPT: &'static str = "text/event-stream";

/// Where a model's requests are posted.
pub open spec fn endpoint_of(model: ModelView) -> Seq<char> {
    model.base_url + "/chat/completions"@
}

/// Where a model's requests are posted.
pub fn endpoint(model: &Model) -> (url: String)
    ensures
        url@ == endpoint_of(model@),
{
    let mut url = model.base_url.clone();
    url.append("/chat/completions");
    url
}

/// A tool call on the wire.
pub open spec fn call_json(call: ToolCallView) -> JsonView {
    JsonView::object().with("id"@, JsonView::Str(call.id)).with(
        "type"@,
        JsonView::Str("function"@),
    ).with(
        "function"@,
        JsonView::object().with("name"@, JsonView::Str(call.name)).with(
            "arguments"@,
            JsonView::Str(call.arguments),
        ),
    )
}

/// A picture on the wire.
pub open spec fn image_json(url: Seq<char>) -> JsonView {
    JsonView::object().with("type"@, JsonView::Str("image_url"@)).with(
        "image_url"@,
        JsonView::object().with("url"@, JsonView::Str(url)),
    )
}

/// A piece of text beside pictures on the wire.
pub open spec fn text_json(text: Seq<char>) -> JsonView {
    JsonView::object().with("type"@, JsonView::Str("text"@)).with("text"@, JsonView::Str(text))
}

/// The content of a message with pictures: its text, if it has any, then the pictures in order.
pub open spec fn parts_json(content: Seq<char>, images: Seq<Seq<char>>) -> Seq<JsonView> {
    (if content.len() == 0 {
        Seq::empty()
    } else {
        seq![text_json(content)]
    }) + images.map_values(|url: Seq<char>| image_json(url))
}

/// A message on the wire; nothing for the reasoning items of another dialect, which mean
/// nothing here.
pub open spec fn message_json(message: ChatMessageView) -> Option<JsonView> {
    if message.role == "assistant"@ && message.tool_calls.len() > 0 {
        let bare = JsonView::object().with("role"@, JsonView::Str("assistant"@)).with(
            "tool_calls"@,
            JsonView::Array(message.tool_calls.map_values(|call: ToolCallView| call_json(call))),
        );
        if message.content.len() == 0 {
            Some(bare)
        } else {
            Some(bare.with("content"@, JsonView::Str(message.content)))
        }
    } else if message.role == "tool"@ {
        Some(
            JsonView::object().with("role"@, JsonView::Str("tool"@)).with(
                "tool_call_id"@,
                JsonView::Str(
                    match message.tool_call_id {
                        Some(id) => id,
                        None => Seq::empty(),
                    },
                ),
            ).with("content"@, JsonView::Str(message.content)),
        )
    } else if message.role == "reasoning"@ {
        None
    } else if message.images.len() == 0 {
        Some(
            JsonView::object().with("role"@, JsonView::Str(message.role)).with(
                "content"@,
                JsonView::Str(message.content),
            ),
        )
    } else {
        Some(
            JsonView::object().with("role"@, JsonView::Str(message.role)).with(
                "content"@,
                JsonView::Array(parts_json(message.content, message.images)),
            ),
        )
    }
}

/// The messages on the wire, in order, without those that mean nothing there.
pub open spec fn messages_json(messages: Seq<ChatMessageView>) -> Seq<JsonView>
    decreases messages.len(),
{
    if messages.len() == 0 {
        Seq::empty()
    } else {
        let before = messages_json(messages.drop_last());
        match message_json(messages.last()) {
            Some(json) => before.push(json),
            None => before,
        }
    }
}

/// The system prompt on the wire.
pub open spec fn system_json(system: Seq<char>) -> JsonView {
    JsonView::object().with("role"@, JsonView::Str("system"@)).with(
        "content"@,
        JsonView::Str(system),
    )
}

/// The effort that is sent: the declared one, unless it is `off`, which has no wire encoding,
/// or the model is known to reject the knob.
pub open spec fn effort_sent(request: RequestView, rejected: Set<Seq<char>>) -> Option<Seq<char>> {
    match request.effort {
        Some(effort) => if effort != "off"@ && !rejected.contains(model_key(request.model)) {
            Some(effort)
        } else {
            None
        },
        None => None,
    }
}

/// The fields that every body has.
pub open spec fn base_json(request: RequestView) -> JsonView {
    JsonView::object().with("model"@, JsonView::Str(request.model.id)).with(
        "messages"@,
        JsonView::Array(seq![system_json(request.system)] + messages_json(request.messages)),
    ).with("stream"@, JsonView::Bool(true)).with(
        "stream_options"@,
        JsonView::object().with("include_usage"@, JsonView::Bool(true)),
    )
}

/// The request body.
pub open spec fn body_json(request: RequestView, rejected: Set<Seq<char>>) -> JsonView {
    let base = base_json(request);
    let with_effort = match effort_sent(request, rejected) {
        Some(effort) => base.with("reasoning_effort"@, JsonView::Str(effort)),
        None => base,
    };
    if request.tools.len() == 0 {
        with_effort
    } else {
        with_effort.with("tools"@, JsonView::Array(request.tools))
    }
}

fn call_to_json(call: &ToolCall) -> (json: Json)
    ensures
        json@ == call_json(call@),
{
    let function = Json::object().with("name", Json::text(call.name.as_str())).with(
        "arguments",
        Json::text(call.arguments.as_str()),
    );
    Json::object().with("id", Json::text(call.id.as_str())).with("type", Json::text("function")).with(
        "function",
        function,
    )
}

fn calls_to_json(calls: &Vec<ToolCall>) -> (json: Json)
    ensures
        json@ == JsonView::Array(
            calls@.map_values(|call: ToolCall| call@).map_values(
                |call: ToolCallView| call_json(call),
            ),
        ),
{
    let mut items: Vec<Json> = Vec::new();
    let mut i: usize = 0;
    while i < calls.len()
        invariant
            i <= calls@.len(),
            items@.len() == i,
            forall|k: int| 0 <= k < i ==> (#[trigger] items@[k])@ == call_json(calls@[k]@),
        decreases calls.len() - i,
    {
        items.push(call_to_json(&calls[i]));
        i = i + 1;
    }
    proof {
        lemma_array_view(items);
        assert(items_view(items@) =~= calls@.map_values(|call: ToolCall| call@).map_values(
            |call: ToolCallView| call_json(call),
        ));
    }
    Json::Array(items)
}

fn parts_to_json(content: &str, images: &Vec<Image>) -> (json: Json)
    ensures
        json@ == JsonView::Array(
            parts_json(content@, images@.map_values(|image: Image| image@)),
        ),
{
    let ghost urls = images@.map_values(|image: Image| image@);
    let mut parts: Vec<Json> = Vec::new();
    if !content.is_empty() {
        parts.push(
            Json::object().with("type", Json::text("text")).with("text", Json::text(content)),
        );
    }
    let ghost first = items_view(parts@);
    proof {
        if content@.len() == 0 {
            assert(first =~= Seq::empty());
        } else {
            assert(first =~= seq![text_json(content@)]);
        }
    }
    let mut i: usize = 0;
    while i < images.len()
        invariant
            i <= images@.len(),
            urls == images@.map_values(|image: Image| image@),
            items_view(parts@) == first + urls.take(i as int).map_values(
                |url: Seq<char>| image_json(url),
            ),
        decreases images.len() - i,
    {
        let url = Json::object().with("url", Json::text(images[i].data_url.as_str()));
        let part = Json::object().with("type", Json::text("image_url")).with("image_url", url);
        let ghost before = parts@;
        parts.push(part);
        i = i + 1;
        proof {
            assert(items_view(parts@) =~= items_view(before).push(part@));
            assert(urls.take(i as int) =~= urls.take(i - 1).push(urls[i - 1]));
            assert(urls.take(i as int).map_values(|url: Seq<char>| image_json(url))
                =~= urls.take(i - 1).map_values(|url: Seq<char>| image_json(url)).push(part@));
            assert(items_view(parts@) =~= first + urls.take(i as int).map_values(
                |url: Seq<char>| image_json(url),
            ));
        }
    }
    proof {
        assert(urls.take(urls.len() as int) =~= urls);
        lemma_array_view(parts);
    }
    Json::Array(parts)
}

/// A message as it is sent; nothing for one that means nothing in this dialect.
pub fn message_to_json(message: &ChatMessage) -> (json: Option<Json>)
    ensures
        match json {
            Some(json) => message_json(message@) == Some(json@),
            None => message_json(message@) is None,
        },
{
    let role = message.role.as_str();
    let content = message.content.as_str();
    if same_text(role, "assistant") && !message.tool_calls.is_empty() {
        let bare = Json::object().with("role", Json::text("assistant")).with(
            "tool_calls",
            calls_to_json(&message.tool_calls),
        );
        if content.is_empty() {
            Some(bare)
        } else {
            Some(bare.with("content", Json::text(content)))
        }
    } else if same_text(role, "tool") {
        let id = match &message.tool_call_id {
            Some(id) => Json::text(id.as_str()),
            None => Json::Str(String::new()),
        };
        Some(
            Json::object().with("role", Json::text("tool")).with("tool_call_id", id).with(
                "content",
                Json::text(content),
            ),
        )
    } else if same_text(role, "reasoning") {
        None
    } else if message.images.is_empty() {
        Some(Json::object().with("role", Json::text(role)).with("content", Json::text(content)))
    } else {
        Some(
            Json::object().with("role", Json::text(role)).with(
                "content",
                parts_to_json(content, &message.images),
            ),
        )
    }
}

fn messages_to_json(system: &str, messages: &Vec<ChatMessage>) -> (json: Json)
    ensures
        json@ == JsonView::Array(
            seq![system_json(system@)] + messages_json(
                messages@.map_values(|message: ChatMessage| message@),
            ),
        ),
{
    let ghost all = messages@.map_values(|message: ChatMessage| message@);
    let mut items: Vec<Json> = Vec::new();
    items.push(
        Json::object().with("role", Json::text("system")).with("content", Json::text(system)),
    );
    proof {
        assert(all.take(0) =~= Seq::empty());
        assert(items_view(items@) =~= seq![system_json(system@)] + messages_json(all.take(0)));
    }
    let mut i: usize = 0;
    while i < messages.len()
        invariant
            i <= messages@.len(),
            all == messages@.map_values(|message: ChatMessage| message@),
            items_view(items@) == seq![system_json(system@)] + messages_json(all.take(i as int)),
        decreases messages.len() - i,
    {
        let ghost before = items@;
        proof {
            assert(all.take(i + 1).drop_last() =~= all.take(i as int));
            assert(all.take(i + 1).last() == messages@[i as int]@);
        }
        match message_to_json(&messages[i]) {
            Some(json) => {
                items.push(json);
                assert(items_view(items@) =~= items_view(before).push(json@));
                assert(items_view(items@) =~= seq![system_json(system@)] + messages_json(
                    all.take(i + 1),
                ));
            },
            None => {},
        }
        i = i + 1;
    }
    proof {
        assert(all.take(all.len() as int) =~= all);
        lemma_array_view(items);
    }
    Json::Array(items)
}

/// The request body.
pub fn request_body(request: &Request, rejected: &RejectedModels) -> (body: Json)
    ensures
        body@ == body_json(request@, rejected@),
        body@ is Object,
{
    let messages = messages_to_json(request.system.as_str(), &request.messages);
    let options = Json::object().with("include_usage", Json::Bool(true));
    let mut body = Json::object().with("model", Json::text(request.model.id.as_str())).with(
        "messages",
        messages,
    ).with("stream", Json::Bool(true)).with("stream_options", options);
    assert(body@ == base_json(request@));
    if let Some(effort) = &request.effort {
        if !same_text(effort.as_str(), "off") && !reasoning_is_rejected(rejected, &request.model) {
            body = body.with("reasoning_effort", Json::text(effort.as_str()));
        }
    }
    if !request.tools.is_empty() {
        let mut tools: Vec<Json> = Vec::new();
        let mut i: usize = 0;
        while i < request.tools.len()
            invariant
                i <= request.tools@.len(),
                tools@.len() == i,
                forall|k: int| 0 <= k < i ==> (#[trigger] tools@[k])@ == request.tools@[k]@,
            decreases request.tools.len() - i,
        {
            tools.push(request.tools[i].clone());
            i = i + 1;
        }
        proof {
            lemma_array_view(tools);
            assert(items_view(tools@) =~= request@.tools);
        }
        body = body.with("tools", Json::Array(tools));
    }
    body
}

} // verus!
