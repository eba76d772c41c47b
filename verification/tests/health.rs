use llm_proxy::config::{Config, Defaults, Route};
use llm_proxy::health::{handle_healthz, handle_metrics};
use llm_proxy::reply::error_response;
use serde_json::Value;

fn route(target: &str) -> Route {
    Route {
        target: target.to_string(),
        transform: None,
        upstream_model: None,
        rewrite_response_model: None,
        models: vec![],
        max_retries: None,
        base_delay_ms: None,
        max_delay_ms: None,
        max_total_wait_ms: None,
        connect_timeout_secs: None,
        retry_status_codes: None,
    }
}

#[test]
fn health_check_tells_version_and_routes() {
    let mut config = Config::new(Defaults::default());
    config.insert_route("test".to_string(), route("http://127.0.0.1:9999"));
    config.insert_route("other".to_string(), route("http://127.0.0.1:9998"));
    let reply = handle_healthz(&config, "0.1.0");
    assert_eq!(reply.status, 200);
    assert_eq!(reply.headers.len(), 1);
    assert_eq!(reply.headers["content-type"], "application/json");
    let body: Value = serde_json::from_slice(&reply.body).unwrap();
    assert_eq!(body["ok"], true);
    assert_eq!(body["version"], "0.1.0");
    assert_eq!(body["routes"][0], "test");
    assert_eq!(body["routes"][1], "other");
    assert_eq!(body["routes"].as_array().unwrap().len(), 2);
}

#[test]
fn metrics_are_plain_text() {
    let reply = handle_metrics("proxy_requests_total 1\n");
    assert_eq!(reply.status, 200);
    assert_eq!(reply.headers.len(), 1);
    assert_eq!(reply.headers["content-type"], "text/plain; version=0.0.4");
    assert_eq!(reply.body, b"proxy_requests_total 1\n".to_vec());
}

#[test]
fn errors_are_json() {
    let reply = error_response(404, "no \"such\" thing", "kind");
    assert_eq!(reply.status, 404);
    assert_eq!(reply.headers["content-type"], "application/json");
    assert_eq!(
        reply.body,
        br#"{"error":{"message":"no \"such\" thing","type":"kind"}}"#.to_vec()
    );
}
