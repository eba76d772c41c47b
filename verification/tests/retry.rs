use http::{HeaderMap, HeaderName};
use llm_proxy::retry::{
    backoff_with_jitter, choose_retry_after, compute_backoff_ms, compute_delay_ms,
    is_retryable_status, parse_retry_after_ms, retry_after_texts,
};


/// Reads the numbers in the fields, then everything.
fn requested(headers: &HeaderMap) -> Option<u64> {
    let (millis, seconds) = retry_after_texts(headers);
    let millis = millis.and_then(|t| t.parse::<f64>().ok());
    let seconds = seconds.and_then(|t| t.parse::<f64>().ok());
    parse_retry_after_ms(
        headers,
        millis.map(|ms| ms as i128),
        seconds.map(|s| (s * 1000.0) as i128),
    )
}

#[test]
fn test_backoff_exponential_growth() {
    // With large max_delay, backoff should grow exponentially
    for attempt in 0..10 {
        let delay = compute_backoff_ms(1000, 60000, attempt);
        let exp = (1000u64 * 2u64.pow(attempt)).min(60000);
        assert!(
            delay >= exp / 2 && delay <= exp,
            "attempt {}: delay {} not in [{}, {}]",
            attempt,
            delay,
            exp / 2,
            exp
        );
    }
}

#[test]
fn test_backoff_max_cap() {
    // Should be capped at max_delay_ms
    for _ in 0..100 {
        let delay = compute_backoff_ms(1000, 5000, 10);
        assert!(delay <= 5000, "delay {} exceeded max_delay 5000", delay);
    }
}

#[test]
fn test_backoff_jitter_range() {
    // Run 1000 iterations, check all within [exp/2, exp]
    let base = 1000u64;
    let max = 60000u64;
    let attempt = 0u32;
    let exp = base.min(max);
    for _ in 0..1000 {
        let delay = compute_backoff_ms(base, max, attempt);
        assert!(
            delay >= exp / 2 && delay <= exp,
            "delay {} not in [{}, {}]",
            delay,
            exp / 2,
            exp
        );
    }
}

#[test]
fn jitter_is_not_constant() {
    let first = compute_backoff_ms(1 << 40, 1 << 40, 0);
    assert!((0..20).any(|_| compute_backoff_ms(1 << 40, 1 << 40, 0) != first));
}

#[test]
fn backoff_is_half_and_jitter() {
    assert_eq!(backoff_with_jitter(1000, 60000, 0, 0), 500);
    assert_eq!(backoff_with_jitter(1000, 60000, 0, 500), 1000);
    assert_eq!(backoff_with_jitter(1000, 60000, 3, 123), 4123);
    assert_eq!(backoff_with_jitter(1000, 60000, 6, 30000), 60000);
    assert_eq!(backoff_with_jitter(3, 60000, 0, 1), 2);
}

#[test]
fn backoff_of_late_attempts_does_not_overflow() {
    assert_eq!(backoff_with_jitter(1000, 60000, u32::MAX, 0), 30000);
    assert_eq!(backoff_with_jitter(u64::MAX, u64::MAX, 64, 0), u64::MAX / 2);
    assert_eq!(backoff_with_jitter(1, u64::MAX, 63, 0), 1 << 62);
    assert_eq!(backoff_with_jitter(0, 60000, 9, 0), 0);
    assert_eq!(backoff_with_jitter(1000, 0, 9, 0), 0);
}

#[test]
fn backoff_doubles_until_the_limit() {
    let mut last = 0;
    for attempt in 0..20 {
        let least = backoff_with_jitter(1000, 60000, attempt, 0);
        assert!(least >= last);
        assert!(least == 2 * last || attempt == 0 || least == 30000);
        last = least;
    }
}

#[test]
fn test_parse_retry_after_ms_header() {
    let mut headers = HeaderMap::new();
    headers.insert("retry-after-ms", "5000".parse().unwrap());
    assert_eq!(requested(&headers), Some(5000));
}

#[test]
fn test_parse_retry_after_ms_header_float() {
    let mut headers = HeaderMap::new();
    headers.insert("retry-after-ms", "1500.5".parse().unwrap());
    assert_eq!(requested(&headers), Some(1500));
}

#[test]
fn test_parse_retry_after_seconds() {
    let mut headers = HeaderMap::new();
    headers.insert("retry-after", "5".parse().unwrap());
    assert_eq!(requested(&headers), Some(5000));
}

#[test]
fn test_parse_retry_after_http_date() {
    let mut headers = HeaderMap::new();
    // Use a date far in the future
    headers.insert(
        "retry-after",
        "Wed, 21 Oct 2099 07:28:00 GMT".parse().unwrap(),
    );
    let ms = requested(&headers);
    assert!(ms.is_some(), "should parse future date");
    assert!(ms.unwrap() > 0, "should be positive");
}

#[test]
fn test_parse_retry_after_missing() {
    let headers = HeaderMap::new();
    assert_eq!(requested(&headers), None);
}

#[test]
fn test_parse_retry_after_invalid() {
    let mut headers = HeaderMap::new();
    headers.insert("retry-after", "garbage".parse().unwrap());
    assert_eq!(requested(&headers), None);
}

#[test]
fn past_date_asks_for_no_delay() {
    let mut headers = HeaderMap::new();
    headers.insert("retry-after", "Sun, 06 Nov 1994 08:49:37 GMT".parse().unwrap());
    assert_eq!(requested(&headers), Some(0));
}

#[test]
fn white_space_around_a_date_or_number_is_dropped() {
    let mut headers = HeaderMap::new();
    headers.insert(HeaderName::from_bytes(b"Retry-After").unwrap(), " 2 ".parse().unwrap());
    assert_eq!(requested(&headers), Some(2000));
    headers.insert("retry-after", " Sun, 06 Nov 1994 08:49:37 GMT ".parse().unwrap());
    assert_eq!(requested(&headers), Some(0));
}

#[test]
fn milliseconds_come_before_seconds() {
    let mut headers = HeaderMap::new();
    headers.insert("retry-after", "5".parse().unwrap());
    headers.insert("retry-after-ms", "7".parse().unwrap());
    assert_eq!(requested(&headers), Some(7));
    assert_eq!(
        retry_after_texts(&headers),
        (Some("7".to_string()), Some("5".to_string()))
    );
}

#[test]
fn milliseconds_without_a_number_do_not_count() {
    let mut headers = HeaderMap::new();
    headers.insert("retry-after", "5".parse().unwrap());
    for text in ["soon", "", "5s", "Wed, 21 Oct 2099 07:28:00 GMT"] {
        headers.insert("retry-after-ms", text.parse().unwrap());
        assert_eq!(requested(&headers), Some(5000));
    }
    headers.remove("retry-after");
    assert_eq!(requested(&headers), None);
}

#[test]
fn seconds_do_not_matter_beside_milliseconds() {
    for text in ["5", "garbage", "-1", "Wed, 21 Oct 2099 07:28:00 GMT"] {
        let mut headers = HeaderMap::new();
        headers.insert("retry-after-ms", "7.9".parse().unwrap());
        headers.insert("retry-after", text.parse().unwrap());
        assert_eq!(requested(&headers), Some(7));
    }
}

#[test]
fn negative_numbers_ask_for_no_delay() {
    let mut headers = HeaderMap::new();
    headers.insert("retry-after", "-5".parse().unwrap());
    assert_eq!(requested(&headers), Some(0));
    headers.insert("retry-after-ms", "-1500.5".parse().unwrap());
    assert_eq!(requested(&headers), Some(0));
    assert_eq!(choose_retry_after(Some(-1), Some(2), Some(3), 0), Some(0));
    assert_eq!(choose_retry_after(None, Some(-2), Some(3), 0), Some(0));
}

#[test]
fn huge_numbers_ask_for_the_longest_delay() {
    let mut headers = HeaderMap::new();
    headers.insert("retry-after", "1e300".parse().unwrap());
    assert_eq!(requested(&headers), Some(u64::MAX));
    headers.insert("retry-after-ms", "inf".parse().unwrap());
    assert_eq!(requested(&headers), Some(u64::MAX));
    headers.insert("retry-after-ms", "nan".parse().unwrap());
    assert_eq!(requested(&headers), Some(0));
    assert_eq!(choose_retry_after(Some(i128::MAX), None, None, 0), Some(u64::MAX));
}

#[test]
fn requested_delay_is_chosen_in_order() {
    assert_eq!(choose_retry_after(Some(1), Some(2), Some(3), 0), Some(1));
    assert_eq!(choose_retry_after(None, Some(2), Some(3), 0), Some(2));
    assert_eq!(choose_retry_after(None, None, Some(300), 100), Some(200));
    assert_eq!(choose_retry_after(None, None, Some(100), 100), Some(0));
    assert_eq!(choose_retry_after(None, None, Some(100), 300), Some(0));
    assert_eq!(choose_retry_after(None, None, None, 300), None);
}

#[test]
fn test_is_retryable_status() {
    let codes = [429, 500, 502, 503, 504, 408, 529];
    assert!(is_retryable_status(429, &codes));
    assert!(is_retryable_status(529, &codes));
    assert!(!is_retryable_status(200, &codes));
    assert!(!is_retryable_status(400, &codes));
    assert!(!is_retryable_status(404, &codes));
}

#[test]
fn no_status_is_retryable_without_codes() {
    assert!(!is_retryable_status(429, &[]));
}

#[test]
fn test_compute_delay_min() {
    // Retry-After < backoff → use Retry-After
    assert_eq!(compute_delay_ms(Some(500), 1000), 500);
    // Retry-After > backoff → cap at backoff
    assert_eq!(compute_delay_ms(Some(120000), 1000), 1000);
    // Retry-After == backoff → either is fine
    assert_eq!(compute_delay_ms(Some(1000), 1000), 1000);
}

#[test]
fn test_compute_delay_no_retry_after() {
    assert_eq!(compute_delay_ms(None, 1000), 1000);
}
