use llm_proxy::json::Json;
use llm_proxy::log::{extract_model, named_model};

#[test]
fn test_extract_model_openai() {
    let body = br#"{"model": "glm-latest", "messages": []}"#;
    assert_eq!(extract_model(body), Some("glm-latest".into()));
}

#[test]
fn test_extract_model_anthropic() {
    let body = br#"{"model": "some-model-3", "max_tokens": 1024}"#;
    assert_eq!(extract_model(body), Some("some-model-3".into()));
}

#[test]
fn test_extract_model_empty() {
    assert_eq!(extract_model(b""), None);
}

#[test]
fn test_extract_model_no_model_field() {
    let body = br#"{"foo": "bar"}"#;
    assert_eq!(extract_model(body), None);
}

#[test]
fn test_extract_model_invalid_json() {
    assert_eq!(extract_model(b"not json"), None);
}

#[test]
fn model_that_is_no_string_is_not_extracted() {
    assert_eq!(extract_model(br#"{"model": 7}"#), None);
    assert_eq!(extract_model(br#"["model"]"#), None);
}

#[test]
fn last_of_repeated_models_counts() {
    assert_eq!(
        extract_model(br#"{"model": "a", "model": "b"}"#),
        Some("b".into())
    );
}

#[test]
fn named_model_reads_a_value() {
    let value = Json::object().with("model", Json::string("m"));
    assert_eq!(named_model(&value), Some("m".into()));
    assert_eq!(named_model(&Json::Null), None);
}
