use http::HeaderMap;
use llm_proxy::config::{Config, Defaults, ModelConfig, Route};
use llm_proxy::log::extract_model;
use llm_proxy::metrics::{record_action, record_request, Metric};
use llm_proxy::proxy::{
    build_upstream_url, choose_relay, dispatch, extract_model_from_sse_line, has_body, match_route, plan,
    plan_for, rewrite_model_in_body, rewrite_model_in_json, rewrite_model_in_sse_line,
    unreadable_body, Action, Attempts, Dispatch, Event, Phase, Plan, Relay, Routed,
};
use llm_proxy::reply::Reply;
use serde_json::Value;

fn route(target: &str) -> Route {
    Route {
        target: target.to_string(),
        transform: None,
        upstream_model: None,
        rewrite_response_model: None,
        models: vec![],
        max_retries: None,
        base_delay_ms: None,
        max_delay_ms: None,
        max_total_wait_ms: None,
        connect_timeout_secs: None,
        retry_status_codes: None,
    }
}

fn defaults(max_retries: u32, base: u64, max: u64, budget: u64, codes: &[u16]) -> Defaults {
    Defaults {
        max_retries,
        base_delay_ms: base,
        max_delay_ms: max,
        max_total_wait_ms: budget,
        connect_timeout_secs: 5,
        retry_status_codes: codes.to_vec(),
    }
}

fn config(defaults: Defaults, name: &str, route: Route) -> Config {
    let mut config = Config::new(defaults);
    config.insert_route(name.to_string(), route);
    config
}

fn routed(config: &Config, path: &str) -> Routed {
    match dispatch(config, path) {
        Dispatch::Routed(r) => r,
        other => panic!("not routed: {:?}", other),
    }
}

fn refused(config: &Config, path: &str) -> Reply {
    match dispatch(config, path) {
        Dispatch::Refused(r) => r,
        other => panic!("not refused: {:?}", other),
    }
}

fn message(reply: &Reply) -> String {
    let v: Value = serde_json::from_slice(&reply.body).unwrap();
    v["error"]["message"].as_str().unwrap().to_string()
}

fn kind(reply: &Reply) -> String {
    let v: Value = serde_json::from_slice(&reply.body).unwrap();
    v["error"]["type"].as_str().unwrap().to_string()
}

/// What came of a request: its plan, its last action, the number of attempts, and the waits.
struct Outcome {
    plan: Plan,
    last: Action,
    sends: u32,
    waits: Vec<u64>,
}

/// Runs a request against an upstream that answers each attempt.
fn drive(
    config: &Config,
    path: &str,
    body: &str,
    upstream: impl Fn(&Plan, u32) -> Event,
) -> Outcome {
    let routed = routed(config, path);
    let headers = HeaderMap::new();
    let plan = plan(&routed, "POST", &headers, &body.as_bytes().to_vec());
    let mut attempts = Attempts::new();
    let mut sends = 0;
    let mut waits = vec![];
    let mut action = attempts.step(&plan.settings, Event::Begin);
    loop {
        action = match action {
            Action::Send => {
                sends += 1;
                attempts.step(&plan.settings, upstream(&plan, sends))
            }
            Action::Wait(ms) => {
                waits.push(ms);
                attempts.step(&plan.settings, Event::Elapsed)
            }
            last => {
                return Outcome {
                    plan,
                    last,
                    sends,
                    waits,
                }
            }
        }
    }
}

fn status(code: u16) -> Event {
    Event::Response {
        status: code,
        retry_after_ms: None,
    }
}

/// Whether the client gets the upstream's JSON answer as it is.
fn passed_unchanged(outcome: &Outcome) -> bool {
    let mut headers = HeaderMap::new();
    headers.insert("content-type", "application/json".parse().unwrap());
    matches!(choose_relay(&outcome.plan, &headers), Relay::Pass)
}

fn reply(outcome: &Outcome) -> &Reply {
    match &outcome.last {
        Action::Reply(r) => r,
        other => panic!("no reply: {:?}", other),
    }
}

const BODY: &str = r#"{"model":"test","messages":[]}"#;
const CODES: [u16; 7] = [429, 500, 502, 503, 504, 408, 529];

// Attempts

#[test]
fn test_retry_then_success() {
    let c = config(
        defaults(9999, 10, 100, 0, &CODES),
        "mock",
        route("http://up"),
    );
    let o = drive(
        &c,
        "/mock/v1/chat/completions",
        r#"{"model":"test-model","messages":[]}"#,
        |_, n| status(if n <= 3 { 429 } else { 200 }),
    );
    assert!(matches!(o.last, Action::Relay(200)));
    assert!(passed_unchanged(&o));
    assert_eq!(o.sends, 4); // 3 failures + 1 success
    assert_eq!(o.waits.len(), 3);
}

#[test]
fn test_max_retries_exhausted() {
    let c = config(defaults(3, 10, 50, 0, &[429]), "mock", route("http://up"));
    let o = drive(&c, "/mock/v1/chat/completions", BODY, |_, _| status(429));
    assert_eq!(reply(&o).status, 502);
    assert_eq!(kind(reply(&o)), "retry_proxy_upstream_failed");
    assert_eq!(
        message(reply(&o)),
        "retry-proxy: upstream request failed after 3 attempts (max retries exceeded)"
    );
    assert_eq!(o.sends, 3);
}

#[test]
fn test_non_retryable_status_passed_through() {
    let c = config(
        defaults(9999, 10, 100, 0, &CODES),
        "mock",
        route("http://up"),
    );
    let o = drive(&c, "/mock/v1/chat/completions", BODY, |_, _| status(400));
    assert!(matches!(o.last, Action::Relay(400)));
    assert!(passed_unchanged(&o));
    assert_eq!(o.sends, 1);
}

#[test]
fn test_streaming_passthrough() {
    let c = config(
        defaults(9999, 10, 100, 0, &[429]),
        "mock",
        route("http://up"),
    );
    let o = drive(&c, "/mock/v1/chat/completions", BODY, |_, _| status(200));
    assert!(matches!(o.last, Action::Relay(200)));
    assert!(passed_unchanged(&o));
}

#[test]
fn test_unknown_route_404() {
    let c = config(
        defaults(9999, 10, 100, 0, &CODES),
        "known",
        route("http://127.0.0.1:9999"),
    );
    let r = refused(&c, "/unknown/v1/chat/completions");
    assert_eq!(r.status, 404);
    assert_eq!(kind(&r), "retry_proxy_unknown_route");
    assert_eq!(
        message(&r),
        "retry-proxy: unknown route \"unknown\". Available routes: known"
    );
}

#[test]
fn test_retry_after_header() {
    let c = config(
        defaults(9999, 5000, 10000, 0, &[429]),
        "mock",
        route("http://up"),
    );
    let o = drive(&c, "/mock/v1/chat/completions", BODY, |_, n| {
        if n == 1 {
            Event::Response {
                status: 429,
                retry_after_ms: Some(1000),
            }
        } else {
            status(200)
        }
    });
    assert!(matches!(o.last, Action::Relay(200)));
    // retry-after is 1s, backoff at least 2.5s
    assert_eq!(o.waits, vec![1000]);
}

#[test]
fn test_network_error_retry() {
    let c = config(
        defaults(2, 10, 50, 0, &[429, 500]),
        "dead",
        route("http://127.0.0.1:1"),
    );
    let o = drive(&c, "/dead/v1/chat/completions", BODY, |_, _| {
        Event::NetworkError("refused".to_string())
    });
    assert_eq!(reply(&o).status, 502);
    assert_eq!(kind(reply(&o)), "retry_proxy_upstream_failed");
    assert_eq!(o.sends, 2);
}

#[test]
fn test_max_total_wait_exceeded() {
    let c = config(
        defaults(9999, 100, 200, 500, &[429]),
        "mock",
        route("http://up"),
    );
    let o = drive(&c, "/mock/v1/chat/completions", BODY, |_, _| {
        Event::Response {
            status: 429,
            retry_after_ms: Some(10000),
        }
    });
    assert_eq!(reply(&o).status, 502);
    assert_eq!(kind(reply(&o)), "retry_proxy_upstream_failed");
    assert!(o.waits.iter().sum::<u64>() <= 500);
}

#[test]
fn budget_messages_tell_what_happened() {
    let c = config(
        defaults(9999, 100, 200, 100, &[429]),
        "mock",
        route("http://up"),
    );
    let s = routed(&c, "/mock/x").settings;

    let mut a = Attempts::new();
    a.step_with(&s, Event::Begin, 0);
    let r = a.step_with(&s, status(429), 101);
    match r {
        Action::Reply(r) => assert_eq!(
            message(&r),
            "retry-proxy: upstream request failed after total wait budget (100ms) would be exceeded"
        ),
        other => panic!("{:?}", other),
    }

    let mut a = Attempts::new();
    a.step_with(&s, Event::Begin, 0);
    match a.step_with(&s, Event::NetworkError("reset".to_string()), 101) {
        Action::Reply(r) => assert_eq!(
            message(&r),
            "retry-proxy: upstream request failed after total wait budget (100ms) would be exceeded: reset"
        ),
        other => panic!("{:?}", other),
    }

    let mut a = Attempts::new();
    a.step_with(&s, Event::Begin, 0);
    assert!(matches!(
        a.step_with(&s, status(429), 100),
        Action::Wait(100)
    ));
    match a.step_with(&s, Event::Elapsed, 0) {
        Action::Reply(r) => assert_eq!(
            message(&r),
            "retry-proxy: upstream request failed after total wait budget (100ms) exceeded"
        ),
        other => panic!("{:?}", other),
    }
    assert_eq!(a.phase, Phase::Finished);
    assert_eq!(a.total_wait_ms, 100);
}

#[test]
fn network_error_without_attempts_left_is_told() {
    let c = config(defaults(1, 10, 10, 0, &[]), "mock", route("http://up"));
    let s = routed(&c, "/mock/x").settings;
    let mut a = Attempts {
        attempt: 1,
        total_wait_ms: 0,
        phase: Phase::Sending,
    };
    match a.step_with(&s, Event::NetworkError("down".to_string()), 5) {
        Action::Reply(r) => assert_eq!(
            message(&r),
            "retry-proxy: upstream request failed after 2 attempts: down"
        ),
        other => panic!("{:?}", other),
    }
}

#[test]
fn disconnect_stops_sending_and_waiting() {
    let c = config(
        defaults(9999, 10, 100, 0, &CODES),
        "mock",
        route("http://up"),
    );
    let s = routed(&c, "/mock/x").settings;
    for waiting in [false, true] {
        let mut a = Attempts::new();
        a.step(&s, Event::Begin);
        if waiting {
            a.step(&s, status(429));
            assert_eq!(a.phase, Phase::Waiting);
        }
        match a.step(&s, Event::Disconnected) {
            Action::Reply(r) => {
                assert_eq!(r.status, 499);
                assert_eq!(message(&r), "retry-proxy: client disconnected");
                assert_eq!(kind(&r), "retry_proxy_client_disconnected");
            }
            other => panic!("{:?}", other),
        }
        assert!(matches!(a.step(&s, Event::Elapsed), Action::Nothing));
        assert!(matches!(a.step(&s, status(200)), Action::Nothing));
    }
}

#[test]
fn started_stream_is_not_tried_again() {
    let c = config(
        defaults(9999, 10, 100, 0, &CODES),
        "mock",
        route("http://up"),
    );
    let s = routed(&c, "/mock/x").settings;
    let mut a = Attempts::new();
    a.step(&s, Event::Begin);
    assert!(matches!(a.step(&s, status(200)), Action::Relay(200)));
    assert!(matches!(a.step(&s, status(429)), Action::Nothing));
    let lost = Event::NetworkError("lost".to_string());
    assert!(matches!(a.step(&s, lost), Action::Nothing));
    assert!(matches!(a.step(&s, Event::Ended), Action::Close));
    assert_eq!(a.phase, Phase::Finished);
}

#[test]
fn no_wait_is_longer_than_the_longest_delay() {
    let c = config(
        defaults(40, 1000, 1500, 0, &[429]),
        "mock",
        route("http://up"),
    );
    let o = drive(&c, "/mock/x", BODY, |_, _| status(429));
    assert_eq!(o.waits.len(), 40);
    assert!(o.waits.iter().all(|w| *w <= 1500));
    assert!(o.waits.iter().skip(1).all(|w| *w >= 750));
}

#[test]
fn every_attempt_goes_to_the_same_upstream() {
    let c = config(defaults(3, 1, 1, 0, &[429]), "mock", route("http://up/"));
    drive(&c, "/mock/v1/x", BODY, |plan, _| {
        assert_eq!(plan.upstream_url, "http://up/v1/x");
        assert_eq!(plan.body, Some(BODY.as_bytes().to_vec()));
        status(429)
    });
}

#[test]
fn actions_are_recorded() {
    let r = record_request("r", "m");
    assert_eq!(r.metric, Metric::Requests);
    assert_eq!(r.labels, vec!["r", "m"]);
    let w = record_action(&Action::Wait(3), "r", "m");
    assert_eq!(w.len(), 1);
    assert_eq!(w[0].metric, Metric::Retries);
    let p = record_action(&Action::Relay(503), "r", "m");
    assert_eq!(p.len(), 2);
    assert_eq!(p[0].metric, Metric::UpstreamStatus);
    assert_eq!(p[0].labels, vec!["r", "m", "503"]);
    assert_eq!(p[1].metric, Metric::Duration);
    assert!(record_action(&Action::Send, "r", "m").is_empty());
}

#[test]
fn metrics_have_names_and_labels() {
    assert_eq!(Metric::Requests.name(), "proxy_requests_total");
    assert_eq!(Metric::Retries.name(), "proxy_retries_total");
    assert_eq!(Metric::UpstreamStatus.name(), "proxy_upstream_status_total");
    assert_eq!(Metric::Duration.name(), "proxy_request_duration_seconds");
    assert_eq!(Metric::Duration.help(), "Request duration in seconds");
    assert_eq!(
        Metric::UpstreamStatus.label_names(),
        vec!["route", "model", "status"]
    );
    assert_eq!(Metric::Retries.label_names(), vec!["route", "model"]);
}

// Routes

#[test]
fn first_segment_is_the_route() {
    assert_eq!(
        match_route("/tkehub/v1/chat/completions"),
        Some(("tkehub", "v1/chat/completions"))
    );
    assert_eq!(match_route("/a/"), Some(("a", "")));
    assert_eq!(match_route("/a"), None);
    assert_eq!(match_route("//b"), None);
    assert_eq!(match_route("a/b"), None);
    assert_eq!(match_route(""), None);
}

#[test]
fn slashes_at_the_end_of_a_target_are_dropped() {
    assert_eq!(build_upstream_url("http://x", "v1/y"), "http://x/v1/y");
    assert_eq!(build_upstream_url("http://x///", "v1/y"), "http://x/v1/y");
    assert_eq!(build_upstream_url("http://x/v1", ""), "http://x/v1/");
}

#[test]
fn special_paths_are_no_routes() {
    let c = config(Defaults::default(), "r", route("http://x"));
    assert!(matches!(dispatch(&c, "/healthz"), Dispatch::Healthz));
    assert!(matches!(dispatch(&c, "/metrics"), Dispatch::Metrics));
    let r = refused(&c, "/r");
    assert_eq!(
        message(&r),
        "retry-proxy: unknown route \"/r\". Available routes: r"
    );
    assert_eq!(routed(&c, "/r/a/b").rest, "a/b");
}

// Plans

#[test]
fn plan_without_transform_passes_everything_on() {
    let c = config(Defaults::default(), "r", route("http://x"));
    let mut headers = HeaderMap::new();
    headers.insert("host", "h".parse().unwrap());
    headers.insert("x-key", "k".parse().unwrap());
    let p = plan(
        &routed(&c, "/r/v1/responses"),
        "POST",
        &headers,
        &b"not json".to_vec(),
    );
    assert_eq!(p.upstream_url, "http://x/v1/responses");
    assert_eq!(p.body, Some(b"not json".to_vec()));
    assert_eq!(p.headers.len(), 1);
    assert_eq!(p.headers["x-key"], "k");
    assert_eq!(p.tag, "[r]");
    assert_eq!(p.model, "");
    assert_eq!(p.response_model, None);
    assert!(!p.transform);
}

#[test]
fn plan_for_get_has_no_body() {
    let c = config(Defaults::default(), "r", route("http://x"));
    let p = plan(
        &routed(&c, "/r/v1/models"),
        "GET",
        &HeaderMap::new(),
        &BODY.as_bytes().to_vec(),
    );
    assert_eq!(p.body, None);
    assert_eq!(p.model, "");
    assert!(!has_body("HEAD"));
    assert!(has_body("DELETE"));
}

#[test]
fn plan_with_transform_rewrites_path_and_body() {
    let mut r = route("http://x/v1");
    r.transform = Some("responses_to_chat".to_string());
    let c = config(Defaults::default(), "r", r);
    let body = br#"{"model":"m","input":"hi"}"#.to_vec();
    let p = plan(&routed(&c, "/r/v1/responses"), "POST", &HeaderMap::new(), &body);
    assert_eq!(p.upstream_url, "http://x/v1/chat/completions");
    assert!(p.transform);
    let sent: Value = serde_json::from_slice(&p.body.unwrap()).unwrap();
    assert_eq!(sent["messages"][0]["content"], "hi");
    assert_eq!(sent["stream"], false);
    let p = plan(&routed(&c, "/r/v2/responses"), "POST", &HeaderMap::new(), &body);
    assert_eq!(p.upstream_url, "http://x/v1/chat/completions");
    let p = plan(
        &routed(&c, "/r/responses"),
        "POST",
        &HeaderMap::new(),
        &b"oops".to_vec(),
    );
    assert_eq!(p.upstream_url, "http://x/v1/chat/completions");
    assert_eq!(p.body, Some(b"oops".to_vec()));
}

#[test]
fn plan_maps_the_model() {
    let mut r = route("http://x");
    r.insert_model(
        "mine".to_string(),
        ModelConfig {
            target: Some("http://y".to_string()),
            transform: None,
            upstream_model: Some("theirs".to_string()),
            rewrite_response_model: Some(true),
            max_retries: Some(7),
            base_delay_ms: None,
            max_delay_ms: None,
            max_total_wait_ms: None,
            connect_timeout_secs: None,
            retry_status_codes: None,
        },
    );
    let c = config(Defaults::default(), "r", r);
    let p = plan(
        &routed(&c, "/r/v1/chat"),
        "POST",
        &HeaderMap::new(),
        &br#"{"model":"mine","n":1}"#.to_vec(),
    );
    assert_eq!(p.upstream_url, "http://y/v1/chat");
    assert_eq!(p.tag, "[r|mine]");
    assert_eq!(p.settings.max_retries, 7);
    assert_eq!(p.response_model, Some("mine".to_string()));
    assert_eq!(p.body, Some(br#"{"model":"theirs","n":1}"#.to_vec()));

    let p = plan_for(
        &routed(&c, "/r/v1/chat"),
        "POST",
        &HeaderMap::new(),
        Some("other"),
        &BODY.as_bytes().to_vec(),
    );
    assert_eq!(p.upstream_url, "http://x/v1/chat");
    assert_eq!(p.response_model, None);
    assert_eq!(p.body, Some(BODY.as_bytes().to_vec()));
}

#[test]
fn upstream_sees_its_model_beside_fractions() {
    for transform in [None, Some("responses_to_chat".to_string())] {
        let mut r = route("http://x");
        r.transform = transform;
        r.upstream_model = Some("theirs".to_string());
        let c = config(Defaults::default(), "r", r);
        let body = br#"{"model":"mine","input":"hi","temperature":0.7,"top_p":1e-3}"#;
        let p = plan(&routed(&c, "/r/v1/responses"), "POST", &HeaderMap::new(), &body.to_vec());
        let sent = p.body.unwrap();
        assert_eq!(extract_model(&sent), Some("theirs".to_string()));
        let text = String::from_utf8(sent).unwrap();
        assert!(text.contains("\"temperature\":0.7"));
        assert!(text.contains("\"top_p\":0.001"));
    }
}

#[test]
fn unreadable_body_is_answered() {
    let r = unreadable_body("reset");
    assert_eq!(r.status, 400);
    assert_eq!(
        message(&r),
        "retry-proxy: failed to read request body: reset"
    );
    assert_eq!(kind(&r), "retry_proxy_read_body_failed");
}

// Models in bodies and lines

#[test]
fn model_in_a_request_is_rewritten() {
    assert_eq!(
        rewrite_model_in_body(br#"{"a":1,"model":"x"}"#, "y"),
        br#"{"a":1,"model":"y"}"#.to_vec()
    );
}

#[test]
fn request_without_model_stays_as_it_is() {
    for body in [
        &b"{ \"a\": 1 }"[..],
        &b"[ 1 ]"[..],
        &b"not json"[..],
        &b""[..],
    ] {
        assert_eq!(rewrite_model_in_body(body, "y"), body.to_vec());
    }
}

#[test]
fn model_in_a_response_is_rewritten() {
    assert_eq!(
        rewrite_model_in_json(br#"{"model":"x"}"#, "y"),
        br#"{"model":"y"}"#.to_vec()
    );
    assert_eq!(rewrite_model_in_json(b"[ 1 ]", "y"), b"[1]".to_vec());
    assert_eq!(rewrite_model_in_json(b"oops", "y"), b"oops".to_vec());
}

#[test]
fn model_in_a_line_is_rewritten() {
    assert_eq!(
        rewrite_model_in_sse_line("data: {\"model\":\"x\"}\n", "y"),
        "data: {\"model\":\"y\"}\n\n"
    );
    for line in [
        "data: [DONE]\n",
        "event: x\n",
        ": ping\n",
        "\n",
        "data: {\n",
        "data:{}\n",
    ] {
        assert_eq!(rewrite_model_in_sse_line(line, "y"), line);
    }
}

#[test]
fn model_is_read_from_a_line() {
    assert_eq!(
        extract_model_from_sse_line("data: {\"model\":\"x\"}"),
        Some("x".to_string())
    );
    assert_eq!(extract_model_from_sse_line("data: [DONE]"), None);
    assert_eq!(extract_model_from_sse_line("data: {}"), None);
    assert_eq!(extract_model_from_sse_line("{\"model\":\"x\"}"), None);
}
