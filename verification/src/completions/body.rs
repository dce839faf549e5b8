//! What a gateway reads in a request body.
use vstd::prelude::*;
use vstd::string::*;

use super::rejected::model_key;
use super::request::{
    body_json, call_json, endpoint_of, image_json, message_json, messages_json, parts_json,
    system_json, text_json,
};
use crate::json::{law_added_field_is_found, law_bare_object_is_empty, JsonView};
use crate::providers::{ChatMessageView, ModelView, RequestView, ToolCallView};

verus! {

/// The names of the fields are told apart.
proof fn lemma_names()
    ensures
        "role"@.len() == 4,
        "content"@.len() == 7,
        "tool_calls"@.len() == 10,
        "tool_call_id"@.len() == 12,
        "id"@.len() == 2,
        "type"@.len() == 4,
        "text"@.len() == 4,
        "type"@ != "text"@,
        "function"@.len() == 8,
        "name"@.len() == 4,
        "arguments"@.len() == 9,
        "image_url"@.len() == 9,
        "url"@.len() == 3,
        "model"@.len() == 5,
        "tools"@.len() == 5,
        "model"@ != "tools"@,
        "messages"@.len() == 8,
        "stream"@.len() == 6,
        "stream_options"@.len() == 14,
        "reasoning_effort"@.len() == 16,
        "include_usage"@.len() == 13,
        "assistant"@ != "tool"@,
        "assistant"@ != "reasoning"@,
        "tool"@ != "reasoning"@,
{
    reveal_strlit("role");
    reveal_strlit("content");
    reveal_strlit("tool_calls");
    reveal_strlit("tool_call_id");
    reveal_strlit("id");
    reveal_strlit("type");
    reveal_strlit("text");
    reveal_strlit("function");
    reveal_strlit("name");
    reveal_strlit("arguments");
    reveal_strlit("image_url");
    reveal_strlit("url");
    reveal_strlit("model");
    reveal_strlit("tools");
    reveal_strlit("messages");
    reveal_strlit("stream");
    reveal_strlit("stream_options");
    reveal_strlit("reasoning_effort");
    reveal_strlit("include_usage");
    reveal_strlit("assistant");
    reveal_strlit("tool");
    reveal_strlit("reasoning");
    assert("type"@[1] == 'y' && "text"@[1] == 'e');
    assert("model"@[0] == 'm' && "tools"@[0] == 't');
    assert("assistant"@[0] == 'a' && "tool"@[0] == 't' && "reasoning"@[0] == 'r');
}

/// Whether a document is a call as the wire has it: a function by its name and the text of its
/// arguments, under the call's id.
pub open spec fn tells_call(json: JsonView, call: ToolCallView) -> bool {
    &&& forall|key: Seq<char>|
        key != "id"@ && key != "type"@ && key != "function"@ ==> #[trigger] json.get(key) is None
    &&& json.get("id"@) == Some(JsonView::Str(call.id))
    &&& json.get("type"@) == Some(JsonView::Str("function"@))
    &&& json.get("function"@) is Some
    &&& json.get("function"@)->0.get("name"@) == Some(JsonView::Str(call.name))
    &&& json.get("function"@)->0.get("arguments"@) == Some(JsonView::Str(call.arguments))
}

/// Whether a document is a piece of text as the wire has it.
pub open spec fn tells_text(json: JsonView, text: Seq<char>) -> bool {
    &&& json.get("type"@) == Some(JsonView::Str("text"@))
    &&& json.get("text"@) == Some(JsonView::Str(text))
}

/// Whether a document is a picture as the wire has it.
pub open spec fn tells_image(json: JsonView, url: Seq<char>) -> bool {
    &&& json.get("type"@) == Some(JsonView::Str("image_url"@))
    &&& json.get("image_url"@) is Some
    &&& json.get("image_url"@)->0.get("url"@) == Some(JsonView::Str(url))
}

/// Whether a list holds a text, unless it is empty, and then the pictures in their order.
pub open spec fn tells_parts(
    parts: Seq<JsonView>,
    content: Seq<char>,
    images: Seq<Seq<char>>,
) -> bool {
    let first: int = if content.len() > 0 {
        1
    } else {
        0
    };
    &&& parts.len() == first + images.len()
    &&& content.len() > 0 ==> tells_text(parts[0], content)
    &&& forall|k: int| 0 <= k < images.len() ==> tells_image(parts[first + k], #[trigger] images[k])
}

/// Whether an assistant's message asks for tools.
pub open spec fn calls_tools(message: ChatMessageView) -> bool {
    message.role == "assistant"@ && message.tool_calls.len() > 0
}

/// Whether a document tells a message and nothing else: its role, its calls in order, the call
/// that it answers, and its content, beside pictures or alone.
pub open spec fn tells_message(json: JsonView, message: ChatMessageView) -> bool {
    &&& forall|key: Seq<char>|
        key != "role"@ && key != "tool_calls"@ && key != "tool_call_id"@ && key != "content"@
            ==> #[trigger] json.get(key) is None
    &&& json.get("role"@) == Some(JsonView::Str(message.role))
    &&& json.get("tool_calls"@) is Some <==> calls_tools(message)
    &&& calls_tools(message) ==> {
        let calls = json.get("tool_calls"@)->0;
        &&& calls is Array
        &&& calls->Array_0.len() == message.tool_calls.len()
        &&& forall|k: int|
            0 <= k < message.tool_calls.len() ==> tells_call(
                calls->Array_0[k],
                #[trigger] message.tool_calls[k],
            )
    }
    &&& json.get("tool_call_id"@) == (if message.role != "tool"@ {
        None
    } else if message.tool_call_id is Some {
        Some(JsonView::Str(message.tool_call_id->0))
    } else {
        Some(JsonView::Str(Seq::empty()))
    })
    &&& if calls_tools(message) && message.content.len() == 0 {
        json.get("content"@) is None
    } else if calls_tools(message) || message.role == "tool"@ || message.images.len() == 0 {
        json.get("content"@) == Some(JsonView::Str(message.content))
    } else {
        &&& json.get("content"@) is Some
        &&& json.get("content"@)->0 is Array
        &&& tells_parts(json.get("content"@)->0->Array_0, message.content, message.images)
    }
}

/// Whether a message is sent: all but the reasoning items of another dialect.
pub open spec fn is_sent() -> spec_fn(ChatMessageView) -> bool {
    |message: ChatMessageView| message.role != "reasoning"@
}

proof fn lemma_call(call: ToolCallView)
    ensures
        tells_call(call_json(call), call),
{
    broadcast use {law_added_field_is_found, law_bare_object_is_empty};

    lemma_names();
}

proof fn lemma_image(url: Seq<char>)
    ensures
        tells_image(image_json(url), url),
{
    broadcast use {law_added_field_is_found, law_bare_object_is_empty};

    lemma_names();
}

proof fn lemma_text(text: Seq<char>)
    ensures
        tells_text(text_json(text), text),
{
    broadcast use {law_added_field_is_found, law_bare_object_is_empty};

    lemma_names();
}

proof fn lemma_parts(content: Seq<char>, images: Seq<Seq<char>>)
    ensures
        tells_parts(parts_json(content, images), content, images),
{
    let parts = parts_json(content, images);
    let first: int = if content.len() > 0 {
        1
    } else {
        0
    };
    lemma_text(content);
    assert forall|k: int| 0 <= k < images.len() implies tells_image(
        parts[first + k],
        #[trigger] images[k],
    ) by {
        lemma_image(images[k]);
        assert(parts[first + k] == image_json(images[k]));
    }
}

/// Every message but a reasoning item is sent, and what is sent tells it.
pub proof fn law_messages_are_told(message: ChatMessageView)
    ensures
        message_json(message) is Some <==> message.role != "reasoning"@,
        message_json(message) is Some ==> tells_message(message_json(message)->0, message),
{
    broadcast use {law_added_field_is_found, law_bare_object_is_empty};

    lemma_names();
    lemma_parts(message.content, message.images);
    if calls_tools(message) {
        let calls = message_json(message)->0.get("tool_calls"@)->0->Array_0;
        assert forall|k: int| 0 <= k < message.tool_calls.len() implies tells_call(
            calls[k],
            #[trigger] message.tool_calls[k],
        ) by {
            lemma_call(message.tool_calls[k]);
            assert(calls[k] == call_json(message.tool_calls[k]));
        }
    }
}

/// The entries of one conversation followed by another are the entries of the one followed by the
/// entries of the other.
pub proof fn law_conversations_are_told_one_after_the_other(
    one: Seq<ChatMessageView>,
    other: Seq<ChatMessageView>,
)
    ensures
        messages_json(one + other) == messages_json(one) + messages_json(other),
    decreases other.len(),
{
    if other.len() == 0 {
        assert(one + other =~= one);
        assert(messages_json(one) + messages_json(other) =~= messages_json(one));
    } else {
        let rest = other.drop_last();
        law_conversations_are_told_one_after_the_other(one, rest);
        assert((one + other).drop_last() =~= one + rest);
        assert((one + other).last() == other.last());
        assert(messages_json(one + other) =~= messages_json(one) + messages_json(other));
    }
}

/// The messages that are sent are told in order, each by one entry.
pub proof fn law_messages_are_told_in_order(messages: Seq<ChatMessageView>)
    ensures
        messages_json(messages).len() == messages.filter(is_sent()).len(),
        forall|k: int|
            0 <= k < messages_json(messages).len() ==> tells_message(
                #[trigger] messages_json(messages)[k],
                messages.filter(is_sent())[k],
            ),
        (forall|k: int|
            0 <= k < messages.len() ==> (#[trigger] messages[k]).role != "reasoning"@)
            ==> messages.filter(is_sent()) == messages,
    decreases messages.len(),
{
    reveal(Seq::filter);
    if messages.len() > 0 {
        let rest = messages.drop_last();
        let last = messages.last();
        law_messages_are_told_in_order(rest);
        law_messages_are_told(last);
        assert(is_sent()(last) == (last.role != "reasoning"@));
        if forall|k: int| 0 <= k < messages.len() ==> (#[trigger] messages[k]).role
            != "reasoning"@ {
            assert(forall|k: int| 0 <= k < rest.len() ==> #[trigger] rest[k] == messages[k]);
            assert(last == messages[messages.len() - 1]);
            assert(rest.push(last) =~= messages);
        }
    } else {
        assert(messages.filter(is_sent()) =~= messages);
    }
}

/// A body holds the system prompt and behind it the messages that are sent, in order: where all
/// are, message `k` is entry `k + 1`.
pub proof fn law_bodies_hold_the_conversation(request: RequestView, rejected: Set<Seq<char>>)
    ensures
        body_json(request, rejected).get("messages"@) is Some,
        body_json(request, rejected).get("messages"@)->0 is Array,
        ({
            let entries = body_json(request, rejected).get("messages"@)->0->Array_0;
            let sent = request.messages.filter(is_sent());
            &&& entries.len() == 1 + sent.len()
            &&& entries[0].get("role"@) == Some(JsonView::Str("system"@))
            &&& entries[0].get("content"@) == Some(JsonView::Str(request.system))
            &&& forall|k: int|
                0 <= k < sent.len() ==> tells_message(entries[k + 1], #[trigger] sent[k])
            &&& (forall|k: int|
                0 <= k < request.messages.len() ==> (#[trigger] request.messages[k]).role
                    != "reasoning"@) ==> sent == request.messages
        }),
{
    broadcast use {law_added_field_is_found, law_bare_object_is_empty};

    lemma_names();
    law_messages_are_told_in_order(request.messages);
    let entries = body_json(request, rejected).get("messages"@)->0->Array_0;
    let told = messages_json(request.messages);
    assert(entries == seq![system_json(request.system)] + told);
    assert forall|k: int| 0 <= k < told.len() implies tells_message(
        entries[k + 1],
        #[trigger] request.messages.filter(is_sent())[k],
    ) by {
        assert(entries[k + 1] == told[k]);
    }
}

/// A body names the model and asks for a stream with usage. It declares the tools where there are
/// any, and the effort where there is one, it is not `off` and the model is not known to reject
/// it. It holds nothing else.
pub proof fn law_bodies_hold_what_is_asked(
    request: RequestView,
    rejected: Set<Seq<char>>,
    key: Seq<char>,
)
    ensures
        body_json(request, rejected) is Object,
        body_json(request, rejected).get("model"@) == Some(JsonView::Str(request.model.id)),
        body_json(request, rejected).get("stream"@) == Some(JsonView::Bool(true)),
        body_json(request, rejected).get("stream_options"@) is Some,
        body_json(request, rejected).get("stream_options"@)->0.get("include_usage"@) == Some(
            JsonView::Bool(true),
        ),
        body_json(request, rejected).get("tools"@) == (if request.tools.len() > 0 {
            Some(JsonView::Array(request.tools))
        } else {
            None
        }),
        body_json(request, rejected).get("reasoning_effort"@) == (if request.effort is Some
            && request.effort->0 != "off"@ && !rejected.contains(
            request.model.provider + "/"@ + request.model.id,
        ) {
            Some(JsonView::Str(request.effort->0))
        } else {
            None
        }),
        key != "model"@ && key != "messages"@ && key != "stream"@ && key != "stream_options"@
            && key != "tools"@ && key != "reasoning_effort"@ ==> body_json(
            request,
            rejected,
        ).get(key) is None,
{
    broadcast use {law_added_field_is_found, law_bare_object_is_empty};

    lemma_names();
    law_models_are_known_by_provider_and_id(request.model);
}

/// A model is remembered under its provider and its id, with a slash between them.
pub proof fn law_models_are_known_by_provider_and_id(model: ModelView)
    ensures
        model_key(model) == model.provider + "/"@ + model.id,
{
    reveal_strlit("/");
    assert(model_key(model) =~= model.provider + "/"@ + model.id);
}

/// Requests are posted to the chat completions of the model's own base.
pub proof fn law_requests_are_posted_under_the_base(model: ModelView)
    ensures
        model.base_url.is_prefix_of(endpoint_of(model)),
        endpoint_of(model).skip(model.base_url.len() as int) == "/chat/completions"@,
{
    assert(endpoint_of(model).take(model.base_url.len() as int) =~= model.base_url);
    assert(endpoint_of(model).skip(model.base_url.len() as int) =~= "/chat/completions"@);
}

} // verus!
