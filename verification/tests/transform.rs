use llm_proxy::json::Json;
use llm_proxy::transform::{
    build_response, chat_response_to_responses, chat_response_to_responses_as, input_to_messages,
    responses_to_chat_request, transform_chat_sse_chunk, StreamTransformState,
};
use serde_json::Value;

fn parse(text: &str) -> Json {
    Json::parse(text.as_bytes()).unwrap()
}

fn value(json: &Json) -> Value {
    serde_json::from_str(&json.to_text()).unwrap()
}

/// The events in a text of events, without the line that ends a stream.
fn events(text: &str) -> Vec<Value> {
    text.split("\n\n")
        .filter(|e| !e.is_empty() && *e != "data: [DONE]")
        .map(|e| serde_json::from_str(e.strip_prefix("data: ").unwrap()).unwrap())
        .collect()
}

fn kinds(events: &[Value]) -> Vec<&str> {
    events.iter().map(|e| e["type"].as_str().unwrap()).collect()
}

#[test]
fn test_input_to_messages_simple_string() {
    let body = parse(
        r#"{
            "model": "gpt-4",
            "instructions": "You are helpful.",
            "input": "Hello"
        }"#,
    );
    let msgs = value(&input_to_messages(&body));
    let arr = msgs.as_array().unwrap();
    assert_eq!(arr.len(), 2);
    assert_eq!(arr[0]["role"], "system");
    assert_eq!(arr[0]["content"], "You are helpful.");
    assert_eq!(arr[1]["role"], "user");
    assert_eq!(arr[1]["content"], "Hello");
}

#[test]
fn test_input_to_messages_with_tools() {
    let body = parse(
        r#"{
            "model": "gpt-4",
            "input": [
                {"role": "user", "content": "What is the weather?"},
                {"type": "function_call", "id": "call_1", "name": "get_weather", "arguments": "{\"city\":\"Tokyo\"}"},
                {"type": "function_call_output", "call_id": "call_1", "output": "Sunny, 20C"}
            ]
        }"#,
    );
    let msgs = value(&input_to_messages(&body));
    let arr = msgs.as_array().unwrap();
    assert_eq!(arr.len(), 3);
    assert_eq!(arr[0]["role"], "user");
    // function_call → assistant with tool_calls
    assert_eq!(arr[1]["role"], "assistant");
    let tc = arr[1]["tool_calls"][0].clone();
    assert_eq!(tc["function"]["name"], "get_weather");
    // function_call_output → tool message
    assert_eq!(arr[2]["role"], "tool");
    assert_eq!(arr[2]["content"], "Sunny, 20C");
}

#[test]
fn test_responses_to_chat_request() {
    let body = r#"{
        "model": "test-model",
        "instructions": "Be helpful",
        "input": "hi",
        "stream": true,
        "reasoning": {"effort": "high"}
    }"#;
    let result = responses_to_chat_request(body.as_bytes()).unwrap();
    let chat: Value = serde_json::from_slice(&result).unwrap();
    assert_eq!(chat["model"], "test-model");
    assert_eq!(chat["stream"], true);
    assert_eq!(chat["reasoning_effort"], "high");
    assert_eq!(chat["messages"].as_array().unwrap().len(), 2);
}

#[test]
fn settings_arrive_under_their_names() {
    let body = r#"{
        "model": "m",
        "temperature": 0.5,
        "max_output_tokens": 100,
        "top_p": 1,
        "tools": [
            {"type": "function", "name": "f", "description": "d", "parameters": {"type": "object"}},
            {"type": "web_search"},
            {"type": "function", "function": {"name": "g"}}
        ]
    }"#;
    let result = responses_to_chat_request(body.as_bytes()).unwrap();
    let chat: Value = serde_json::from_slice(&result).unwrap();
    assert_eq!(chat["temperature"], 0.5);
    assert_eq!(chat["max_tokens"], 100);
    assert_eq!(chat["top_p"], 1);
    assert_eq!(chat["stream"], false);
    assert!(chat.get("reasoning_effort").is_none());
    let tools = chat["tools"].as_array().unwrap();
    assert_eq!(tools.len(), 2);
    assert_eq!(tools[0]["function"]["name"], "f");
    assert_eq!(tools[0]["function"]["parameters"]["type"], "object");
    assert_eq!(tools[1]["function"]["name"], "g");
    assert_eq!(tools[1]["function"]["description"], "");
}

#[test]
fn unset_settings_stay_unset() {
    let result = responses_to_chat_request(br#"{"temperature": null, "tools": []}"#).unwrap();
    assert_eq!(
        result,
        br#"{"messages":[],"model":"","stream":false}"#.to_vec()
    );
}

#[test]
fn tool_calls_are_kept_in_order() {
    let body = parse(
        r#"{"input": [
            "first",
            {"type": "function_call", "call_id": "a"},
            {"type": "function_call", "id": "b"},
            {"role": "developer", "content": [{"type": "input_text", "text": "x"},
                {"type": "input_image"}, {"type": "other", "text": "y"}]},
            7,
            {"type": "function_call", "call_id": "c", "id": "d"}
        ]}"#,
    );
    let msgs = value(&input_to_messages(&body));
    let arr = msgs.as_array().unwrap();
    assert_eq!(arr.len(), 4);
    assert_eq!(arr[0]["content"], "first");
    assert_eq!(arr[1]["tool_calls"][0]["id"], "a");
    assert_eq!(arr[1]["tool_calls"][1]["id"], "b");
    assert_eq!(arr[2]["role"], "system");
    assert_eq!(arr[2]["content"], "x\n[image]\ny");
    assert_eq!(arr[3]["tool_calls"][0]["id"], "c");
    assert!(arr[3]["content"].is_null());
}

#[test]
fn request_that_is_not_json_is_not_converted() {
    assert_eq!(responses_to_chat_request(b"not json"), None);
    assert_eq!(responses_to_chat_request(b""), None);
}

#[test]
fn test_chat_response_to_responses_non_streaming() {
    let chat = r#"{
        "model": "test",
        "choices": [{
            "message": {
                "role": "assistant",
                "content": "Hello!"
            }
        }],
        "usage": {"prompt_tokens": 10, "completion_tokens": 5, "total_tokens": 15}
    }"#;
    let result = chat_response_to_responses(chat.as_bytes()).unwrap();
    let resp: Value = serde_json::from_slice(&result).unwrap();
    assert_eq!(resp["object"], "response");
    assert_eq!(resp["status"], "completed");
    assert_eq!(resp["model"], "test");
}

#[test]
fn response_holds_text_calls_and_usage() {
    let chat = parse(
        r#"{
        "model": "up",
        "choices": [{"message": {"content": "Hi", "tool_calls": [
            {"id": "c1", "function": {"name": "f", "arguments": "{\"a\":1}"}},
            {"id": "c2"}
        ]}}],
        "usage": {"prompt_tokens": 1, "completion_tokens": 2, "total_tokens": 3}
    }"#,
    );
    let r = value(&build_response(&chat, Some("shown"), "msg_1", "resp_1", 77));
    assert_eq!(r["id"], "resp_1");
    assert_eq!(r["created_at"], 77);
    assert_eq!(r["model"], "shown");
    assert_eq!(r["output"][0]["id"], "msg_1");
    let parts = r["output"][0]["content"].as_array().unwrap();
    assert_eq!(parts.len(), 3);
    assert_eq!(parts[0]["text"], "Hi");
    assert_eq!(parts[1]["call_id"], "c1");
    assert_eq!(parts[1]["arguments"], "{\"a\":1}");
    assert_eq!(parts[2]["name"], "");
    assert_eq!(parts[2]["arguments"], "{}");
    assert_eq!(r["usage"]["input_tokens"], 1);
    assert_eq!(r["usage"]["total_tokens"], 3);
}

#[test]
fn response_shows_the_given_model() {
    let chat = br#"{"model": "up", "choices": []}"#;
    let shown = chat_response_to_responses_as(chat, Some("mine")).unwrap();
    let resp: Value = serde_json::from_slice(&shown).unwrap();
    assert_eq!(resp["model"], "mine");
    assert_eq!(chat_response_to_responses_as(b"{", Some("mine")), None);
}

#[test]
fn identifiers_are_random() {
    let chat = br#"{"choices": []}"#;
    let id = |bytes: Vec<u8>| {
        let v: Value = serde_json::from_slice(&bytes).unwrap();
        v["id"].as_str().unwrap().to_string()
    };
    let a = id(chat_response_to_responses(chat).unwrap());
    let b = id(chat_response_to_responses(chat).unwrap());
    assert_ne!(a, b);
    assert!(a.starts_with("resp_"));
    assert_eq!(a.len(), 5 + 24);
    assert!(a[5..].chars().all(|c| c.is_ascii_hexdigit()));
}

#[test]
fn stream_opens_once_and_ends() {
    let mut state = StreamTransformState::new("m", None);
    let first = transform_chat_sse_chunk(
        r#"data: {"choices":[{"delta":{"content":"Hel"}}]}"#,
        &mut state,
    )
    .unwrap();
    let first = events(&first);
    assert_eq!(
        kinds(&first),
        vec![
            "response.created",
            "response.in_progress",
            "response.output_item.added",
            "response.content_part.added",
            "response.output_text.delta"
        ]
    );
    assert_eq!(first[0]["response"]["model"], "m");
    assert_eq!(first[4]["delta"], "Hel");
    let second = transform_chat_sse_chunk(
        r#"data: {"choices":[{"delta":{"content":"lo"}}],"usage":{"prompt_tokens":3,"completion_tokens":4}}"#,
        &mut state,
    )
    .unwrap();
    assert_eq!(kinds(&events(&second)), vec!["response.output_text.delta"]);
    let last = transform_chat_sse_chunk("data: [DONE]", &mut state).unwrap();
    assert!(last.ends_with("data: [DONE]\n\n"));
    let last = events(&last);
    assert_eq!(
        kinds(&last),
        vec![
            "response.content_part.done",
            "response.output_item.done",
            "response.completed"
        ]
    );
    let response = &last[2]["response"];
    assert_eq!(response["output"][0]["content"][0]["text"], "Hello");
    assert_eq!(response["usage"]["input_tokens"], 3);
    assert_eq!(response["usage"]["total_tokens"], 7);
    assert_eq!(response["id"], first[0]["response"]["id"]);
}

#[test]
fn stream_collects_tool_calls() {
    let mut state = StreamTransformState::new("m", None);
    let line = r#"data: {"choices":[{"delta":{"tool_calls":[{"index":0,"id":"c1","function":{"name":"f","arguments":"{"}}]}}]}"#;
    let opened = events(&transform_chat_sse_chunk(line, &mut state).unwrap());
    assert_eq!(
        kinds(&opened)[4..],
        [
            "response.content_part.done",
            "response.output_item.done",
            "response.output_item.added"
        ]
    );
    assert_eq!(opened[6]["output_index"], 1);
    assert_eq!(opened[6]["item"]["arguments"], "");
    let line = r#"data: {"choices":[{"delta":{"tool_calls":[{"index":0,"function":{"arguments":"}"}}]}}]}"#;
    let more = events(&transform_chat_sse_chunk(line, &mut state).unwrap());
    assert_eq!(kinds(&more), vec!["response.function_call_arguments.delta"]);
    assert_eq!(more[0]["item_id"], "c1");
    let line = r#"data: {"choices":[{"delta":{},"finish_reason":"tool_calls"}]}"#;
    let done = events(&transform_chat_sse_chunk(line, &mut state).unwrap());
    assert_eq!(
        kinds(&done),
        vec![
            "response.function_call_arguments.done",
            "response.output_item.done"
        ]
    );
    assert_eq!(done[0]["arguments"], "{}");
    let last = events(&transform_chat_sse_chunk("data: [DONE]", &mut state).unwrap());
    assert_eq!(kinds(&last), vec!["response.completed"]);
    let output = last[0]["response"]["output"].as_array().unwrap();
    assert_eq!(output.len(), 1);
    assert_eq!(output[0]["arguments"], "{}");
}

#[test]
fn unfinished_tool_calls_are_completed_at_the_end() {
    let mut state = StreamTransformState::new("m", None);
    let line = r#"data: {"choices":[{"delta":{"tool_calls":[{"index":2,"id":"c3","function":{"name":"g","arguments":"[]"}}]}}]}"#;
    transform_chat_sse_chunk(line, &mut state).unwrap();
    let last = events(&transform_chat_sse_chunk("data: [DONE]", &mut state).unwrap());
    assert_eq!(
        kinds(&last),
        vec![
            "response.function_call_arguments.done",
            "response.output_item.done",
            "response.completed"
        ]
    );
    assert_eq!(last[0]["output_index"], 3);
    assert_eq!(last[2]["response"]["output"][0]["name"], "g");
}

#[test]
fn second_end_is_silent() {
    let mut state = StreamTransformState::new("m", None);
    transform_chat_sse_chunk(
        r#"data: {"choices":[{"delta":{"content":"Hi"}}]}"#,
        &mut state,
    );
    assert!(!state.ended);
    assert!(transform_chat_sse_chunk("data: [DONE]", &mut state).is_some());
    assert!(state.ended);
    assert_eq!(transform_chat_sse_chunk("data: [DONE]", &mut state), None);
    assert_eq!(transform_chat_sse_chunk("data: [DONE]", &mut state), None);
    assert_eq!(state.full_text, "Hi");
}

#[test]
fn reasoning_is_passed_on_but_not_kept() {
    let mut state = StreamTransformState::new("m", None);
    let line = r#"data: {"choices":[{"delta":{"reasoning_content":"hmm"}}]}"#;
    let e = events(&transform_chat_sse_chunk(line, &mut state).unwrap());
    assert_eq!(kinds(&e)[4], "response.reasoning_text.delta");
    assert_eq!(e[4]["delta"], "hmm");
    assert_eq!(state.full_text, "");
}

#[test]
fn other_lines_give_nothing() {
    let mut state = StreamTransformState::new("m", None);
    assert_eq!(transform_chat_sse_chunk("", &mut state), None);
    assert_eq!(transform_chat_sse_chunk(": comment", &mut state), None);
    assert_eq!(transform_chat_sse_chunk("event: x", &mut state), None);
    assert_eq!(transform_chat_sse_chunk("data: {", &mut state), None);
    assert!(!state.headers_emitted);
}

#[test]
fn chunk_with_usage_only_is_silent_after_the_first() {
    let mut state = StreamTransformState::new("m", None);
    assert!(transform_chat_sse_chunk("data: {}", &mut state).is_some());
    let line = r#"data: {"choices":[],"usage":{"prompt_tokens":8,"completion_tokens":9}}"#;
    assert_eq!(transform_chat_sse_chunk(line, &mut state), None);
    assert_eq!((state.total_input, state.total_output), (8, 9));
}
