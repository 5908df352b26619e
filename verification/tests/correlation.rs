use lazylog::log::correlation::scan;

#[test]
fn scans_trace_id() {
    assert_eq!(
        scan(r#"{"trace_id":"abc-123","msg":"x"}"#).as_deref(),
        Some("abc-123")
    );
}

#[test]
fn scans_request_id_variants() {
    assert_eq!(
        scan(r#"msg "requestId":"xyz789""#).as_deref(),
        Some("xyz789")
    );
    assert_eq!(
        scan(r#"[X-Request-Id] garbage "x-request-id":"xx-1""#).as_deref(),
        Some("xx-1")
    );
}

#[test]
fn scans_monolog_token() {
    assert_eq!(
        scan(r#"[token => "abc12345"]"#).as_deref(),
        Some("abc12345")
    );
}

#[test]
fn nothing_to_find() {
    assert!(scan("some boring line with no id").is_none());
}
