use http::HeaderMap;
use llm_proxy::config::{Config, Defaults, Route};
use llm_proxy::proxy::{
    change_body, choose_relay, dispatch, passes_error_on, plan, relay_head, Change, ChatStream,
    Dispatch, Plan, Relay, SseRewriter,
};
use llm_proxy::server::{judge_look, Look};
use serde_json::Value;

fn make_plan(transform: bool, rewrite: bool) -> Plan {
    let mut config = Config::new(Defaults::default());
    config.insert_route(
        "r".to_string(),
        Route {
            target: "http://x".to_string(),
            transform: if transform {
                Some("responses_to_chat".to_string())
            } else {
                None
            },
            upstream_model: None,
            rewrite_response_model: Some(rewrite),
            models: vec![],
            max_retries: None,
            base_delay_ms: None,
            max_delay_ms: None,
            max_total_wait_ms: None,
            connect_timeout_secs: None,
            retry_status_codes: None,
        },
    );
    match dispatch(&config, "/r/x") {
        Dispatch::Routed(r) => plan(&r, "POST", &HeaderMap::new(), &br#"{"model":"mine"}"#.to_vec()),
        other => panic!("{:?}", other),
    }
}

fn typed(content_type: &str) -> HeaderMap {
    let mut headers = HeaderMap::new();
    headers.insert("content-type", content_type.parse().unwrap());
    headers.insert("content-length", "9".parse().unwrap());
    headers.insert("x-id", "7".parse().unwrap());
    headers
}

fn names(headers: &HeaderMap) -> Vec<&str> {
    let mut names: Vec<&str> = headers.keys().map(|n| n.as_str()).collect();
    names.sort();
    names
}

fn completions(out: &[String]) -> usize {
    out.iter()
        .map(|t| t.matches("\"type\":\"response.completed\"").count())
        .sum()
}

#[test]
fn unchanged_answers_are_passed() {
    let p = make_plan(false, false);
    let relay = choose_relay(&p, &typed("text/event-stream"));
    assert!(matches!(relay, Relay::Pass));
    let head = relay_head(&relay, 418, &typed("text/event-stream"));
    assert_eq!(head.status, 418);
    assert_eq!(names(&head.headers), vec!["content-type", "x-id"]);
}

#[test]
fn rewritten_bodies_keep_status_and_fields() {
    let p = make_plan(false, true);
    let relay = choose_relay(&p, &typed("application/json"));
    let head = relay_head(&relay, 404, &typed("application/json"));
    assert_eq!(head.status, 404);
    assert_eq!(names(&head.headers), vec!["content-type", "x-id"]);
    match relay {
        Relay::Whole(change) => assert_eq!(
            change_body(&change, &br#"{"model":"theirs"}"#.to_vec()),
            br#"{"model":"mine"}"#.to_vec()
        ),
        other => panic!("{:?}", other),
    }
}

#[test]
fn rewritten_streams_have_fields_of_their_own() {
    let p = make_plan(false, true);
    let relay = choose_relay(&p, &typed("text/event-stream"));
    assert!(matches!(&relay, Relay::Stream(Change::Model(m)) if m == "mine"));
    let head = relay_head(&relay, 201, &typed("text/event-stream"));
    assert_eq!(head.status, 201);
    assert_eq!(head.headers.len(), 2);
    assert_eq!(head.headers["content-type"], "text/event-stream");
    assert_eq!(head.headers["cache-control"], "no-cache");
}

#[test]
fn transformed_answers_are_successes() {
    let p = make_plan(true, false);
    let relay = choose_relay(&p, &typed("application/json"));
    let head = relay_head(&relay, 400, &typed("application/json"));
    assert_eq!(head.status, 200);
    assert_eq!(names(&head.headers), vec!["content-type"]);
    match relay {
        Relay::Whole(change) => {
            let out = change_body(
                &change,
                &br#"{"model":"up","choices":[{"message":{"content":"Hi"}}]}"#.to_vec(),
            );
            let v: Value = serde_json::from_slice(&out).unwrap();
            assert_eq!(v["model"], "up");
            assert_eq!(v["output"][0]["content"][0]["text"], "Hi");
            assert_eq!(change_body(&change, &b"oops".to_vec()), b"oops".to_vec());
        }
        other => panic!("{:?}", other),
    }
    let relay = choose_relay(&p, &typed("text/event-stream"));
    let head = relay_head(&relay, 400, &typed("text/event-stream"));
    assert_eq!(head.status, 200);
    assert_eq!(names(&head.headers), vec!["cache-control", "content-type"]);
}

#[test]
fn transformed_answers_show_the_clients_model() {
    let change = Change::Protocol(Some("mine".to_string()));
    let out = change_body(&change, &br#"{"model":"up"}"#.to_vec());
    let v: Value = serde_json::from_slice(&out).unwrap();
    assert_eq!(v["model"], "mine");
}

#[test]
fn rewriter_waits_for_whole_lines() {
    let mut r = SseRewriter::new("mine");
    assert!(r.push(b"data: {\"model\":").is_empty());
    assert_eq!(
        r.push(b"\"x\"}\n\ndata: [DONE]\n"),
        vec![
            "data: {\"model\":\"mine\"}\n\n".to_string(),
            "\n".to_string(),
            "data: [DONE]\n".to_string(),
        ]
    );
    assert!(r.push(b"rest").is_empty());
    assert_eq!(r.buffer.rest, "rest");
}

#[test]
fn bytes_that_are_no_text_are_replaced() {
    let mut r = SseRewriter::new("mine");
    assert_eq!(r.push(b": \xff\n"), vec![": \u{fffd}\n".to_string()]);
}

#[test]
fn how_a_stream_is_cut_makes_no_difference() {
    let text = "data: {\"model\":\"up\",\"choices\":[{\"delta\":{\"content\":\"Hi\"}}]}\r\n\r\n: x\ndata: [DONE]\n";
    let id = |s: &ChatStream| {
        (
            s.state.full_text.clone(),
            s.model.clone(),
            s.state.ended,
            s.buffer.rest.clone(),
        )
    };
    let mut whole = ChatStream::new(None);
    let out = whole.push(text.as_bytes());
    for cut in 0..text.len() {
        let mut parts = ChatStream::new(None);
        let mut o = parts.push(&text.as_bytes()[..cut]);
        o.extend(parts.push(&text.as_bytes()[cut..]));
        assert_eq!(o.len(), out.len());
        assert_eq!(id(&parts), id(&whole));
    }
}

#[test]
fn model_is_taken_from_the_first_chunk_that_names_one() {
    let mut s = ChatStream::new(None);
    let out = s.push(b"data: {\"model\":\"up\",\"choices\":[]}\ndata: {\"model\":\"later\"}\n");
    assert_eq!(out.len(), 1);
    assert!(out[0].contains("\"model\":\"up\""));
    assert_eq!(s.state.model, "up");
    let mut s = ChatStream::new(Some("mine"));
    s.push(b"data: {\"model\":\"up\",\"choices\":[]}\n");
    assert_eq!(s.state.model, "mine");
}

#[test]
fn response_ends_once_if_the_upstream_announces_its_end() {
    let mut s = ChatStream::new(Some("m"));
    let mut out = s.push(b"data: {\"choices\":[{\"delta\":{\"content\":\"a\"}}]}\n");
    out.extend(s.push(b"data: [DONE]\n\ndata: [DONE]\n"));
    assert_eq!(completions(&out), 1);
    assert!(s.state.ended);
    assert_eq!(s.finish(), None);
}

#[test]
fn response_ends_once_if_the_upstream_just_closes() {
    let mut s = ChatStream::new(Some("m"));
    let mut out = s.push(b"data: {\"choices\":[{\"delta\":{\"content\":\"a\"}}]}\ndata: {\"cho");
    assert_eq!(completions(&out), 0);
    out.extend(s.finish());
    assert_eq!(completions(&out), 1);
    assert!(out.last().unwrap().ends_with("data: [DONE]\n\n"));
    assert_eq!(s.finish(), None);
}

#[test]
fn only_unchanged_answers_break_off() {
    assert!(passes_error_on(&Relay::Pass));
    let model = || Change::Model("m".to_string());
    assert!(!passes_error_on(&Relay::Whole(model())));
    assert!(!passes_error_on(&Relay::Stream(model())));
    assert!(!passes_error_on(&Relay::Stream(Change::Protocol(None))));
}

#[test]
fn second_look_decides() {
    assert_eq!(judge_look(false, true, Some(1)), Look::Again(50));
    assert_eq!(judge_look(false, true, Some(0)), Look::Gone);
    assert_eq!(judge_look(false, true, None), Look::Gone);
    assert_eq!(judge_look(false, false, Some(1)), Look::Gone);
    assert_eq!(judge_look(true, true, Some(1)), Look::Gone);
}
