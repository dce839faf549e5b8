use e_agent::completions::decoder::{finish_reason, Decoder, Step};
use e_agent::completions::exchange::{repair, Exchange, OnRejection, OnStatus};
use e_agent::completions::rejected::{
    mark_reasoning_rejected, reasoning_is_rejected, reasoning_rejected,
};
use e_agent::completions::request::{endpoint, message_to_json, request_body, ACCEPT};
use e_agent::json::{parse, Json};
use e_agent::providers::{ChatMessage, Event, FinishReason, Image, Model, Request, ToolCall};

fn model() -> Model {
    Model {
        provider: "mock".to_string(),
        id: "m-1".to_string(),
        base_url: "http://127.0.0.1:9".to_string(),
    }
}

fn message(role: &str, content: &str) -> ChatMessage {
    ChatMessage {
        role: role.to_string(),
        content: content.to_string(),
        tool_calls: Vec::new(),
        tool_call_id: None,
        images: Vec::new(),
    }
}

fn call(id: &str, name: &str, arguments: &str) -> ToolCall {
    ToolCall {
        id: id.to_string(),
        name: name.to_string(),
        arguments: arguments.to_string(),
        signature: None,
    }
}

fn request(effort: Option<&str>) -> Request {
    Request {
        model: model(),
        system: "sys".to_string(),
        messages: vec![message("user", "hello")],
        effort: effort.map(|effort| effort.to_string()),
        tools: Vec::new(),
    }
}

fn json(text: &str) -> Json {
    parse(text).unwrap()
}

/// Two documents are the same where they agree field by field, in whatever order.
fn same(a: &Json, b: &Json) -> bool {
    match (a, b) {
        (Json::Object(x), Json::Object(y)) => {
            x.len() == y.len()
                && x.iter().all(|(key, value)| b.get(key).map_or(false, |other| same(value, other)))
        }
        (Json::Array(x), Json::Array(y)) => {
            x.len() == y.len() && x.iter().zip(y).all(|(one, other)| same(one, other))
        }
        _ => a == b,
    }
}

fn stream(payloads: &[&str]) -> (Vec<Event>, Option<FinishReason>, usize) {
    let mut decoder = Decoder::new();
    let mut events = Vec::new();
    let mut malformed = 0;
    for payload in payloads {
        match decoder.payload(payload) {
            Step::Continue(more) => events.extend(more),
            Step::Malformed => malformed += 1,
            Step::Done(more, finish) => {
                events.extend(more);
                return (events, Some(finish), malformed);
            }
        }
    }
    (events, None, malformed)
}

#[test]
fn the_endpoint_is_under_the_base() {
    assert_eq!(endpoint(&model()), "http://127.0.0.1:9/chat/completions");
    assert_eq!(ACCEPT, "text/event-stream");
}

#[test]
fn messages_have_their_shapes() {
    let plain = message_to_json(&message("user", "hi")).unwrap();
    assert!(same(&plain, &json(r#"{"role":"user","content":"hi"}"#)));

    assert!(message_to_json(&message("reasoning", "x")).is_none());

    let mut tool = message("tool", "out");
    assert!(same(
        &message_to_json(&tool).unwrap(),
        &json(r#"{"role":"tool","tool_call_id":"","content":"out"}"#)
    ));
    tool.tool_call_id = Some("c1".to_string());
    assert!(same(
        &message_to_json(&tool).unwrap(),
        &json(r#"{"role":"tool","tool_call_id":"c1","content":"out"}"#)
    ));

    let mut calling = message("assistant", "");
    assert!(same(
        &message_to_json(&calling).unwrap(),
        &json(r#"{"role":"assistant","content":""}"#)
    ));
    calling.tool_calls.push(call("c1", "read", "{}"));
    let calls =
        r#""tool_calls":[{"id":"c1","type":"function","function":{"name":"read","arguments":"{}"}}]"#;
    assert!(same(
        &message_to_json(&calling).unwrap(),
        &json(&format!(r#"{{"role":"assistant",{calls}}}"#))
    ));
    calling.content = "so".to_string();
    assert!(same(
        &message_to_json(&calling).unwrap(),
        &json(&format!(r#"{{"role":"assistant",{calls},"content":"so"}}"#))
    ));
}

#[test]
fn images_make_parts() {
    let mut seen = message("user", "");
    seen.images.push(Image { data_url: "data:image/png;base64,AA".to_string() });
    let image = r#"{"type":"image_url","image_url":{"url":"data:image/png;base64,AA"}}"#;
    assert!(same(
        &message_to_json(&seen).unwrap(),
        &json(&format!(r#"{{"role":"user","content":[{image}]}}"#))
    ));
    seen.content = "look".to_string();
    assert!(same(
        &message_to_json(&seen).unwrap(),
        &json(&format!(
            r#"{{"role":"user","content":[{{"type":"text","text":"look"}},{image}]}}"#
        ))
    ));
}

#[test]
fn bodies_carry_what_is_asked() {
    let rejected = reasoning_rejected();
    let bare = r#""model":"m-1","messages":[{"role":"system","content":"sys"},{"role":"user","content":"hello"}],"stream":true,"stream_options":{"include_usage":true}"#;
    assert!(same(&request_body(&request(None), &rejected), &json(&format!("{{{bare}}}"))));
    assert!(same(&request_body(&request(Some("off")), &rejected), &json(&format!("{{{bare}}}"))));
    assert!(same(
        &request_body(&request(Some("high")), &rejected),
        &json(&format!(r#"{{{bare},"reasoning_effort":"high"}}"#))
    ));
    let mut tooled = request(None);
    tooled.messages.push(message("reasoning", "private"));
    tooled.tools.push(json(r#"{"type":"function","function":{"name":"read"}}"#));
    let body = request_body(&tooled, &rejected);
    assert_eq!(body.get("messages").unwrap().as_array().unwrap().len(), 2);
    let function = body.get("tools").unwrap().item(0).unwrap().get("function").unwrap();
    assert_eq!(function.get("name").unwrap().as_str(), Some("read"));
}

#[test]
fn rejected_models_are_remembered_by_provider_and_id() {
    let mut rejected = reasoning_rejected();
    assert!(!reasoning_is_rejected(&rejected, &model()));
    mark_reasoning_rejected(&mut rejected, &model());
    mark_reasoning_rejected(&mut rejected, &model());
    assert!(reasoning_is_rejected(&rejected, &model()));
    let mut other = model();
    other.provider = "other".to_string();
    assert!(!reasoning_is_rejected(&rejected, &other));
    let body = request_body(&request(Some("high")), &rejected);
    assert!(body.get("reasoning_effort").is_none());
    let again = Exchange::new(&request(Some("high")), &rejected);
    assert_eq!(again.body(), &body);
}

#[test]
fn a_blamed_effort_is_dropped_and_remembered() {
    let mut rejected = reasoning_rejected();
    let asked = request(Some("high"));
    let mut exchange = Exchange::new(&asked, &rejected);
    assert_eq!(exchange.on_status(400), OnStatus::Inspect);
    assert_eq!(
        exchange.on_rejection("This model's THINKING can't be tuned", &asked.model, &mut rejected),
        OnRejection::Resend
    );
    assert!(exchange.body().get("reasoning_effort").is_none());
    assert!(exchange.body().get("stream_options").is_some());
    assert!(reasoning_is_rejected(&rejected, &asked.model));
    // The body is the one that is built from now on.
    assert_eq!(exchange.body(), &request_body(&asked, &rejected));
    // A second validation error is final.
    assert_eq!(exchange.on_status(400), OnStatus::Conclude);
}

#[test]
fn a_blamed_usage_option_is_dropped() {
    let mut rejected = reasoning_rejected();
    let asked = request(Some("high"));
    let mut exchange = Exchange::new(&asked, &rejected);
    assert_eq!(exchange.on_status(422), OnStatus::Inspect);
    assert_eq!(
        exchange.on_rejection("unknown field: Stream_Options", &asked.model, &mut rejected),
        OnRejection::Resend
    );
    assert!(exchange.body().get("stream_options").is_none());
    assert_eq!(exchange.body().get("reasoning_effort").unwrap().as_str(), Some("high"));
    assert!(!reasoning_is_rejected(&rejected, &asked.model));
}

#[test]
fn other_rejections_are_final() {
    let mut rejected = reasoning_rejected();
    let asked = request(None);
    let mut exchange = Exchange::new(&asked, &rejected);
    for status in [200, 401, 404, 429, 500] {
        assert_eq!(exchange.on_status(status), OnStatus::Conclude);
    }
    let before = request_body(&asked, &rejected);
    // No effort was sent, so none can be to blame.
    assert_eq!(
        exchange.on_rejection("reasoning is not supported", &asked.model, &mut rejected),
        OnRejection::Fail
    );
    assert_eq!(exchange.body(), &before);
    assert!(!reasoning_is_rejected(&rejected, &asked.model));
}

#[test]
fn a_repair_is_complete() {
    let rejected = reasoning_rejected();
    let text = "stream_options and reasoning_effort are unknown";
    let once = repair(request_body(&request(Some("low")), &rejected), text);
    assert!(once.usage_dropped && once.effort_dropped);
    let twice = repair(once.body, text);
    assert!(!twice.usage_dropped && !twice.effort_dropped);
    let kept = [("model", true), ("stream", true), ("messages", true), ("stream_options", false)];
    for (key, there) in kept {
        assert_eq!(twice.body.get(key).is_some(), there);
    }
}

#[test]
fn a_stream_reports_text_tools_and_usage() {
    let (events, finish, malformed) = stream(&[
        "{\"choices\":[{\"delta\":{\"content\":\"Hel\"}}]}",
        "{\"choices\":[{\"delta\":{\"content\":\"lo\"}}]}",
        "{\"choices\":[{\"delta\":{\"reasoning_content\":\"hmm\"}}]}",
        "{\"choices\":[{\"delta\":{\"tool_calls\":[{\"index\":0,\"id\":\"c1\",\"function\":{\"name\":\"read\",\"arguments\":\"{\\\"path\\\":\\\"a.txt\\\"}\"}}]}}]}",
        "{\"choices\":[],\"usage\":{\"prompt_tokens\":12,\"completion_tokens\":3,\"prompt_tokens_details\":{\"cached_tokens\":4}}}",
        "[DONE]",
    ]);
    assert_eq!(finish, Some(FinishReason::Normal));
    assert_eq!(malformed, 0);
    let arguments = "{\"path\":\"a.txt\"}";
    assert_eq!(
        events,
        vec![
            Event::TextDelta("Hel".to_string()),
            Event::TextDelta("lo".to_string()),
            Event::ReasoningDelta("hmm".to_string()),
            Event::ToolCallStart { key: "0".to_string() },
            Event::ToolArgumentsDelta { key: "0".to_string(), delta: arguments.to_string() },
            Event::Usage { input: 12, output: 3, cache_read: 4 },
            Event::ToolCallEnd { key: "0".to_string() },
            Event::ToolCall(call("c1", "read", arguments)),
        ]
    );
}

#[test]
fn fragments_accumulate_by_index() {
    let (events, finish, _) = stream(&[
        r#"{"choices":[{"delta":{"tool_calls":[{"index":1,"id":"b","function":{"name":"wri","arguments":""}},{"id":"a","function":{"name":"read"}}]}}]}"#,
        r#"{"choices":[{"delta":{"tool_calls":[{"index":1,"function":{"name":"te","arguments":"{"}},{"index":2,"id":"n"}]}}]}"#,
        r#"{"choices":[{"delta":{"tool_calls":[{"index":1,"id":"b2","function":{"arguments":"}"}}]},"finish_reason":"tool_calls"}]}"#,
        "[DONE]",
    ]);
    let key = |index: &str| index.to_string();
    assert_eq!(finish, Some(FinishReason::ToolCalls));
    assert_eq!(
        events,
        vec![
            Event::ToolCallStart { key: key("1") },
            Event::ToolCallStart { key: key("0") },
            Event::ToolArgumentsDelta { key: key("1"), delta: "{".to_string() },
            Event::ToolCallStart { key: key("2") },
            Event::ToolArgumentsDelta { key: key("1"), delta: "}".to_string() },
            Event::ToolCallEnd { key: key("0") },
            Event::ToolCall(call("a", "read", "")),
            Event::ToolCallEnd { key: key("1") },
            Event::ToolCall(call("b2", "write", "{}")),
        ]
    );
}

#[test]
fn a_closed_call_starts_anew() {
    let fragment = r#"{"choices":[{"delta":{"tool_calls":[{"index":0,"id":"a","function":{"name":"x","arguments":"1"}}]},"finish_reason":"tool_calls"}]}"#;
    let (events, _, _) = stream(&[fragment, fragment, "[DONE]"]);
    let starts = events.iter().filter(|e| matches!(e, Event::ToolCallStart { .. })).count();
    let calls: Vec<&Event> = events.iter().filter(|e| matches!(e, Event::ToolCall(_))).collect();
    assert_eq!(starts, 2);
    assert_eq!(
        calls,
        vec![&Event::ToolCall(call("a", "x", "1")), &Event::ToolCall(call("a", "x", "1"))]
    );
}

#[test]
fn empty_words_are_not_reported() {
    let (events, finish, _) = stream(&[
        r#"{"choices":[{"delta":{"content":"","reasoning_content":"","reasoning":"r"}}]}"#,
        r#"{"choices":[{"delta":{"content":null}}],"usage":null}"#,
        r#"{"choices":[{"delta":"x"}]}"#,
        r#"{"choices":{"delta":{"content":"x"}}}"#,
        r#"{"other":1}"#,
        r#"[1]"#,
    ]);
    assert_eq!(events, vec![Event::ReasoningDelta("r".to_string())]);
    assert_eq!(finish, None);
}

#[test]
fn usage_without_numbers_counts_nothing() {
    let (events, _, _) = stream(&[r#"{"usage":{"prompt_tokens":-1,"completion_tokens":"3"}}"#]);
    assert_eq!(events, vec![Event::Usage { input: 0, output: 0, cache_read: 0 }]);
}

#[test]
fn malformed_payloads_are_skipped() {
    let (events, finish, malformed) = stream(&[
        "{\"choices\":[",
        "",
        r#"{"choices":[{"delta":{"content":"ok"}}]}"#,
        "[DONE]",
        r#"{"choices":[{"delta":{"content":"late"}}]}"#,
    ]);
    assert_eq!(malformed, 2);
    assert_eq!(events, vec![Event::TextDelta("ok".to_string())]);
    assert_eq!(finish, Some(FinishReason::Normal));
}

#[test]
fn the_last_reason_counts() {
    let reason = |word: &str| format!(r#"{{"choices":[{{"finish_reason":"{word}"}}]}}"#);
    let cases = [
        ("stop", FinishReason::Normal),
        ("tool_calls", FinishReason::ToolCalls),
        ("length", FinishReason::Length),
        ("content_filter", FinishReason::ContentFilter),
        ("odd", FinishReason::Other("odd".to_string())),
    ];
    for (word, finish) in cases {
        assert_eq!(finish_reason(word), finish);
        let (_, ended, _) = stream(&[&reason("length"), &reason(word), "{}", "[DONE]"]);
        assert_eq!(ended, Some(finish));
    }
}

#[test]
fn chunks_are_read_one_by_one() {
    let mut decoder = Decoder::new();
    let events = decoder.chunk(&json(r#"{"choices":[{"delta":{"content":"a","reasoning":"b"}}]}"#));
    assert_eq!(
        events,
        vec![Event::TextDelta("a".to_string()), Event::ReasoningDelta("b".to_string())]
    );
    assert_eq!(decoder.chunk(&Json::Null), Vec::new());
    let step = decoder.payload("[DONE]");
    assert_eq!(step, Step::Done(Vec::new(), FinishReason::Normal));
}

#[test]
fn a_stream_reads_as_its_chunks_alone() {
    let payloads = [
        "not json",
        r#"{"choices":[{"delta":{"content":"a","tool_calls":[{"index":3,"id":"c","function":{"name":"n","arguments":"{"}}]}}]}"#,
        "{",
        r#"{"choices":[{"delta":{"content":"b","tool_calls":[{"index":3,"function":{"arguments":"}"}}]},"finish_reason":"length"}]}"#,
        "",
        "[DONE]",
    ];
    let mut decoder = Decoder::new();
    let mut expected = Vec::new();
    for payload in payloads {
        if let Some(chunk) = parse(payload) {
            expected.extend(decoder.chunk(&chunk));
        }
    }
    expected.push(Event::ToolCallEnd { key: "3".to_string() });
    expected.push(Event::ToolCall(call("c", "n", "{}")));
    let (events, finish, malformed) = stream(&payloads);
    assert_eq!(events, expected);
    assert_eq!(finish, Some(FinishReason::Length));
    assert_eq!(malformed, 3);
}
