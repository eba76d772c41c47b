use http::{HeaderMap, HeaderName, HeaderValue};
use llm_proxy::headers::{build_forward_headers, is_event_stream, strip_response_hop_by_hop};
use llm_proxy::retry::retry_after_texts;

/// Values of the same name are kept one after the other.
fn headers(list: &[(&str, &str)]) -> HeaderMap {
    let mut map = HeaderMap::new();
    for (name, value) in list {
        map.append(
            HeaderName::from_bytes(name.as_bytes()).unwrap(),
            value.parse().unwrap(),
        );
    }
    map
}

#[test]
fn fields_of_the_connection_are_not_forwarded() {
    let given = headers(&[
        ("Host", "localhost"),
        ("connection", "close"),
        ("content-length", "3"),
        ("transfer-encoding", "chunked"),
        ("keep-alive", "1"),
        ("proxy-authorization", "x"),
        ("te", "x"),
        ("trailer", "x"),
        ("Upgrade", "x"),
        ("Authorization", "Bearer x"),
        ("accept", "*/*"),
    ]);
    assert_eq!(
        build_forward_headers(&given),
        headers(&[("authorization", "Bearer x"), ("accept", "*/*")])
    );
}

#[test]
fn last_of_repeated_fields_is_forwarded() {
    let given = headers(&[("x-a", "1"), ("x-b", "2"), ("X-A", "3")]);
    assert_eq!(
        build_forward_headers(&given),
        headers(&[("x-a", "3"), ("x-b", "2")])
    );
}

/// A map with as many names as it can hold, each with one value.
fn full_map() -> HeaderMap {
    let mut map = HeaderMap::new();
    for i in 0..24576 {
        let name = HeaderName::from_bytes(format!("x-{}", i).as_bytes()).unwrap();
        let value = HeaderValue::from(i);
        if map.try_insert(name.clone(), value.clone()).is_err() {
            map.try_insert(name, value).unwrap();
        }
    }
    assert!(map
        .try_insert(HeaderName::from_static("x-more"), HeaderValue::from(0))
        .is_err());
    map
}

#[test]
fn many_fields_are_forwarded() {
    let given = full_map();
    assert_eq!(build_forward_headers(&given), given);
    assert_eq!(strip_response_hop_by_hop(&given), given);
}

#[test]
fn last_values_of_many_fields_are_forwarded() {
    let given = full_map();
    let mut expected = given.clone();
    expected.remove("x-0");
    expected.remove("x-1");
    let mut doubled = HeaderMap::new();
    let host = (HeaderName::from_static("host"), HeaderValue::from_static("a"));
    let list = expected.iter().map(|(n, v)| (n.clone(), v.clone()));
    for (name, value) in list.chain([host]) {
        for v in [HeaderValue::from_static("first"), value] {
            if doubled.try_append(name.clone(), v.clone()).is_err() {
                doubled.try_append(name.clone(), v).unwrap();
            }
        }
    }
    assert_eq!(doubled.keys_len(), 24575);
    assert_eq!(build_forward_headers(&doubled), expected);
}

#[test]
fn forwarded_fields_are_forwarded_again() {
    let given = headers(&[
        ("host", "localhost"),
        ("authorization", "Bearer x"),
        ("proxy-authorization", "Bearer y"),
        ("x-a", "1"),
        ("x-a", "2"),
    ]);
    let once = build_forward_headers(&given);
    assert_eq!(once, headers(&[("authorization", "Bearer x"), ("x-a", "2")]));
    assert_eq!(build_forward_headers(&once), once);
    let passed = strip_response_hop_by_hop(&given);
    assert_eq!(strip_response_hop_by_hop(&passed), passed);
}

#[test]
fn fields_of_the_connection_are_not_passed_on() {
    let given = headers(&[
        ("content-length", "3"),
        ("Content-Encoding", "gzip"),
        ("transfer-encoding", "chunked"),
        ("connection", "close"),
        ("keep-alive", "1"),
        ("host", "kept"),
        ("content-type", "application/json"),
    ]);
    assert_eq!(
        strip_response_hop_by_hop(&given),
        headers(&[("host", "kept"), ("content-type", "application/json")])
    );
}

#[test]
fn first_of_several_values_is_read() {
    let given = headers(&[("Retry-After", "1"), ("retry-after", "2")]);
    assert_eq!(retry_after_texts(&given), (None, Some("1".to_string())));
}

#[test]
fn field_with_other_bytes_is_no_text() {
    let mut given = HeaderMap::new();
    given.insert("retry-after", HeaderValue::from_bytes(b"a\xff").unwrap());
    assert_eq!(retry_after_texts(&given), (None, None));
    given.insert("retry-after", HeaderValue::from_bytes(b"a\t~").unwrap());
    assert_eq!(retry_after_texts(&given), (None, Some("a\t~".to_string())));
}

#[test]
fn event_streams_are_told_by_their_type() {
    assert!(is_event_stream(&headers(&[(
        "Content-Type",
        "text/event-stream; charset=utf-8"
    )])));
    assert!(!is_event_stream(&headers(&[(
        "content-type",
        "application/json"
    )])));
    assert!(!is_event_stream(&headers(&[])));
}
