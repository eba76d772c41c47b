use llm_proxy::config::{
    check_defaults, check_model, check_route, default_base_delay_ms, default_connect_timeout_secs,
    default_max_delay_ms, default_max_retries, default_retry_status_codes, leads_to_reload,
    normalize_transform, Config, ConfigError, Defaults, FileChange, ModelConfig, Route,
};

fn route(target: &str) -> Route {
    Route {
        target: target.to_string(),
        transform: None,
        upstream_model: None,
        rewrite_response_model: None,
        models: vec![],
        max_retries: None,
        base_delay_ms: None,
        max_delay_ms: None,
        max_total_wait_ms: None,
        connect_timeout_secs: None,
        retry_status_codes: None,
    }
}

fn model() -> ModelConfig {
    ModelConfig {
        target: None,
        transform: None,
        upstream_model: None,
        rewrite_response_model: None,
        max_retries: None,
        base_delay_ms: None,
        max_delay_ms: None,
        max_total_wait_ms: None,
        connect_timeout_secs: None,
        retry_status_codes: None,
    }
}

fn with_route(name: &str, route: Route) -> Config {
    let mut config = Config::new(Defaults::default());
    config.insert_route(name.to_string(), route);
    config
}

fn problem(config: &Config) -> Option<String> {
    config.validate().err().map(|e| e.0)
}

#[test]
fn defaults_are_as_documented() {
    let d = Defaults::default();
    assert_eq!(d.max_retries, 9999);
    assert_eq!(d.base_delay_ms, 1000);
    assert_eq!(d.max_delay_ms, 60000);
    assert_eq!(d.max_total_wait_ms, 0);
    assert_eq!(d.connect_timeout_secs, 30);
    assert_eq!(
        d.retry_status_codes,
        vec![429, 500, 502, 503, 504, 408, 529]
    );
    assert_eq!(default_max_retries(), 9999);
    assert_eq!(default_base_delay_ms(), 1000);
    assert_eq!(default_max_delay_ms(), 60000);
    assert_eq!(default_connect_timeout_secs(), 30);
    assert_eq!(default_retry_status_codes(), d.retry_status_codes);
}

#[test]
fn route_takes_defaults_for_what_it_does_not_name() {
    let mut r = route("https://api.example.com");
    r.max_retries = Some(500);
    r.transform = Some("responses_to_chat".to_string());
    let config = with_route("myapi", r);
    let s = config.resolve_route("myapi").unwrap();
    assert_eq!(s.target, "https://api.example.com");
    assert_eq!(s.max_retries, 500);
    assert_eq!(s.base_delay_ms, 1000);
    assert_eq!(s.transform, Some("responses_to_chat".to_string()));
    assert!(!s.rewrite_response_model);
    assert_eq!(s.retry_status_codes.len(), 7);
    assert!(config.resolve_route("other").is_none());
}

#[test]
fn model_overrides_route() {
    let mut r = route("http://tkehub.woa.com");
    r.transform = Some("responses_to_chat".to_string());
    r.max_delay_ms = Some(20000);
    let mut glm = model();
    glm.transform = Some("none".to_string());
    r.insert_model("tke/glm-latest".to_string(), glm);
    let mut deepseek = model();
    deepseek.target = Some("https://tokenhub.tencentmaas.com".to_string());
    deepseek.upstream_model = Some("deepseek-chat".to_string());
    deepseek.rewrite_response_model = Some(true);
    deepseek.max_delay_ms = Some(30000);
    deepseek.retry_status_codes = Some(vec![429]);
    r.insert_model("tke/deepseek-flash-latest".to_string(), deepseek);
    let s = with_route("tkehub", r).resolve_route("tkehub").unwrap();
    assert_eq!(
        s.model_names(),
        vec!["tke/glm-latest", "tke/deepseek-flash-latest"]
    );

    let glm = s.resolve_model("tke/glm-latest");
    assert_eq!(glm.transform, None);
    assert_eq!(glm.target, "http://tkehub.woa.com");
    assert_eq!(glm.max_delay_ms, 20000);

    let deepseek = s.resolve_model("tke/deepseek-flash-latest");
    assert_eq!(deepseek.transform, Some("responses_to_chat".to_string()));
    assert_eq!(deepseek.target, "https://tokenhub.tencentmaas.com");
    assert_eq!(deepseek.upstream_model, Some("deepseek-chat".to_string()));
    assert!(deepseek.rewrite_response_model);
    assert_eq!(deepseek.max_delay_ms, 30000);
    assert_eq!(deepseek.base_delay_ms, 1000);
    assert_eq!(deepseek.retry_status_codes, vec![429]);

    let other = s.resolve_model("unknown");
    assert_eq!(other.transform, Some("responses_to_chat".to_string()));
    assert_eq!(other.target, s.target);
    assert_eq!(other.max_delay_ms, 20000);
}

#[test]
fn model_without_an_upstream_name_takes_that_of_its_route() {
    let mut r = route("http://x");
    r.transform = Some("none".to_string());
    r.upstream_model = Some("theirs".to_string());
    r.insert_model("plain".to_string(), model());
    let mut own = model();
    own.transform = Some("responses_to_chat".to_string());
    own.upstream_model = Some("its-own".to_string());
    r.insert_model("own".to_string(), own);
    let s = with_route("a", r).resolve_route("a").unwrap();

    let plain = s.resolve_model("plain");
    assert_eq!(plain.upstream_model, Some("theirs".to_string()));
    assert_eq!(plain.transform, None);
    let own = s.resolve_model("own");
    assert_eq!(own.upstream_model, Some("its-own".to_string()));
    assert_eq!(own.transform, Some("responses_to_chat".to_string()));
}

#[test]
fn none_turns_a_transform_off() {
    assert_eq!(normalize_transform(&Some("none".to_string())), None);
    assert_eq!(normalize_transform(&None), None);
    assert_eq!(
        normalize_transform(&Some("responses_to_chat".to_string())),
        Some("responses_to_chat".to_string())
    );
    let mut r = route("http://x");
    r.transform = Some("none".to_string());
    assert_eq!(
        with_route("a", r).resolve_route("a").unwrap().transform,
        None
    );
}

#[test]
fn inserting_a_route_again_replaces_it() {
    let mut config = with_route("a", route("http://one"));
    config.insert_route("b".to_string(), route("http://two"));
    config.insert_route("a".to_string(), route("http://three"));
    assert_eq!(config.route_names(), vec!["a", "b"]);
    assert_eq!(config.route_list(), "a, b");
    assert_eq!(config.resolve_route("a").unwrap().target, "http://three");
}

#[test]
fn good_configuration_is_valid() {
    let mut r = route("https://api.example.com/v1");
    let mut m = model();
    m.target = Some("http://other:8080".to_string());
    r.insert_model("m".to_string(), m);
    assert_eq!(problem(&with_route("a", r)), None);
}

#[test]
fn configuration_without_routes_is_refused() {
    assert_eq!(
        problem(&Config::new(Defaults::default())),
        Some("no routes defined".to_string())
    );
}

#[test]
fn route_name_with_slash_is_refused() {
    assert_eq!(
        problem(&with_route("a/b", route("http://x"))),
        Some("route name 'a/b' must not contain '/'".to_string())
    );
}

#[test]
fn empty_target_is_refused() {
    assert_eq!(
        problem(&with_route("a", route(""))),
        Some("route 'a' has empty target".to_string())
    );
}

#[test]
fn target_that_is_no_uri_is_refused() {
    assert_eq!(
        problem(&with_route("a", route("not a url"))),
        Some(
            "route 'a' target 'not a url' is not a valid URL: invalid uri character".to_string()
        )
    );
}

#[test]
fn models_without_name_or_target_are_refused() {
    let mut r = route("http://x");
    r.insert_model("".to_string(), model());
    assert_eq!(
        problem(&with_route("a", r)),
        Some("route 'a' has a model entry with empty name".to_string())
    );
    let mut r = route("http://x");
    let mut m = model();
    m.target = Some("".to_string());
    r.insert_model("m".to_string(), m);
    assert_eq!(
        problem(&with_route("a", r)),
        Some("route 'a' model 'm' has empty target".to_string())
    );
    let mut r = route("http://x");
    let mut m = model();
    m.target = Some("a b".to_string());
    r.insert_model("m".to_string(), m);
    assert_eq!(
        problem(&with_route("a", r)),
        Some(
            "route 'a' model 'm' target 'a b' is not a valid URL: invalid uri character"
                .to_string()
        )
    );
}

#[test]
fn defaults_of_zero_are_refused() {
    let mut config = with_route("a", route("http://x"));
    config.defaults.max_delay_ms = 0;
    assert_eq!(
        problem(&config),
        Some("defaults.max_delay_ms must be > 0".to_string())
    );
    config.defaults.base_delay_ms = 0;
    assert_eq!(
        problem(&config),
        Some("defaults.base_delay_ms must be > 0".to_string())
    );
    config.defaults.max_retries = 0;
    assert_eq!(
        problem(&config),
        Some("defaults.max_retries must be > 0".to_string())
    );
}

#[test]
fn first_problem_is_told() {
    let mut config = with_route("good", route("http://x"));
    config.insert_route("bad/1".to_string(), route("http://x"));
    config.insert_route("bad2".to_string(), route(""));
    config.defaults.max_retries = 0;
    assert_eq!(
        problem(&config),
        Some("route name 'bad/1' must not contain '/'".to_string())
    );
}

#[test]
fn parts_of_the_check_take_the_uri_error() {
    assert_eq!(check_route("a", "t", None), None);
    assert_eq!(
        check_route("a", "t", Some("boom")),
        Some("route 'a' target 't' is not a valid URL: boom".to_string())
    );
    assert_eq!(check_model("a", "m", None, None), None);
    assert_eq!(check_model("a", "m", Some("t"), None), None);
    assert_eq!(
        check_model("a", "m", Some("t"), Some("boom")),
        Some("route 'a' model 'm' target 't' is not a valid URL: boom".to_string())
    );
    assert_eq!(check_defaults(&Defaults::default()), None);
}

#[test]
fn failed_reload_keeps_the_configuration() {
    let mut config = with_route("a", route("http://x"));
    let e = config.reload(Err(ConfigError("unreadable".to_string())));
    assert_eq!(e.unwrap().0, "unreadable");
    assert_eq!(config.route_names(), vec!["a"]);
    let e = config.reload(Ok(with_route("b", route(""))));
    assert_eq!(e.unwrap().0, "route 'b' has empty target");
    assert_eq!(config.route_names(), vec!["a"]);
    assert!(config.reload(Ok(with_route("c", route("http://y")))).is_none());
    assert_eq!(config.route_names(), vec!["c"]);
}

#[test]
fn checked_configuration_is_handed_back() {
    let config = with_route("a", route("http://x")).checked().unwrap();
    assert_eq!(config.route_names(), vec!["a"]);
    assert!(with_route("a", route("")).checked().is_err());
    assert_eq!(config.clone().route_names(), vec!["a"]);
}

#[test]
fn changes_of_the_file_lead_to_a_reload() {
    assert!(leads_to_reload(FileChange::Created));
    assert!(leads_to_reload(FileChange::Modified));
    assert!(leads_to_reload(FileChange::Removed));
    assert!(!leads_to_reload(FileChange::Other));
}
