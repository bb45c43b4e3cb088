use agent_marketplace::capture::{
    capture_target, CaptureError,
    http_body_text, http_request, try_dechunk, try_response_body, CaptureKeyLog,
};

#[test]
fn dechunks_a_chunked_body() {
    assert_eq!(try_dechunk("4\r\nWiki\r\n5\r\npedia\r\n0\r\n\r\n"), Some("Wikipedia".to_string()));
}

#[test]
fn dechunking_reads_hex_sizes_with_spaces() {
    assert_eq!(try_dechunk(" a \r\n0123456789\r\n0\r\n"), Some("0123456789".to_string()));
    assert_eq!(try_dechunk("A\r\n0123456789\r\n"), Some("0123456789".to_string()));
}

#[test]
fn dechunking_stops_at_a_bad_size_line() {
    assert_eq!(try_dechunk("zz\r\nabc\r\n"), Some(String::new()));
    assert_eq!(try_dechunk("3\r\nabc\r\nzz\r\ndef\r\n"), Some("abc".to_string()));
    assert_eq!(try_dechunk("3\r\nabc"), Some("abc".to_string()));
    assert_eq!(try_dechunk("5"), Some(String::new()));
    assert_eq!(try_dechunk(""), Some(String::new()));
}

#[test]
fn dechunking_stops_at_a_chunk_past_the_end() {
    assert_eq!(try_dechunk("3\r\nabc\r\n9\r\nxy"), Some("abc".to_string()));
}

#[test]
fn dechunking_marks_a_chunk_that_splits_a_character() {
    assert_eq!(try_dechunk("1\r\né\r\n"), None);
}

#[test]
fn dechunking_marks_a_size_beyond_the_machine_word() {
    assert_eq!(try_dechunk("ffffffffffffffff\r\nab"), None);
}

#[test]
fn a_plain_body_is_trimmed() {
    let text = "HTTP/1.1 200 OK\r\nContent-Type: application/json\r\n\r\n  {\"a\": 1}\n";
    assert_eq!(try_response_body(text), Some("{\"a\": 1}".to_string()));
}

#[test]
fn a_chunked_body_is_joined() {
    let text = "HTTP/1.1 200 OK\r\nTransfer-Encoding: Chunked\r\n\r\n2\r\n{}\r\n0\r\n\r\n";
    assert_eq!(try_response_body(text), Some("{}".to_string()));
}

#[test]
fn a_response_without_headers_is_trimmed_whole() {
    assert_eq!(try_response_body("  hello \t"), Some("hello".to_string()));
}

#[test]
fn invalid_utf8_is_replaced_before_reading() {
    let raw = b"HTTP/1.1 200 OK\r\n\r\nab\xffcd";
    assert_eq!(http_body_text(raw), Some("ab\u{fffd}cd".to_string()));
}

#[test]
fn the_request_asks_for_the_path_at_the_host() {
    assert_eq!(
        http_request("/repos/a/b", "api.github.com"),
        "GET /repos/a/b HTTP/1.1\r\nHost: api.github.com\r\nUser-Agent: zkTLS-Prover/1.0\r\nAccept: application/vnd.github.v3+json\r\nConnection: close\r\n\r\n"
    );
}

#[test]
fn the_key_log_finds_the_first_secret_under_a_label() {
    let mut log = CaptureKeyLog::new();
    assert_eq!(log.find_secret("SERVER_TRAFFIC_SECRET_0"), None);
    log.log("CLIENT_HANDSHAKE_TRAFFIC_SECRET", &[1], &[10]);
    log.log("SERVER_TRAFFIC_SECRET_0", &[1], &[20]);
    log.log("SERVER_TRAFFIC_SECRET_0", &[2], &[30]);
    assert_eq!(log.find_secret("SERVER_TRAFFIC_SECRET_0"), Some(vec![20]));
    assert_eq!(log.find_secret("CLIENT_HANDSHAKE_TRAFFIC_SECRET"), Some(vec![10]));
    assert_eq!(log.find_secret("EXPORTER_SECRET"), None);
}

#[test]
fn logging_another_secret_keeps_earlier_lookups() {
    let mut log = CaptureKeyLog::new();
    log.log("A", &[], &[1]);
    let before = log.find_secret("A");
    log.log("B", &[], &[2]);
    log.log("A", &[], &[3]);
    assert_eq!(log.find_secret("A"), before);
    assert_eq!(log.find_secret("B"), Some(vec![2]));
}

#[test]
fn a_capture_connects_to_the_host_port_and_path_of_its_url() {
    assert_eq!(
        capture_target("https://api.github.com/repos/a/b?x=1"),
        Ok(("api.github.com".to_string(), 443, "/repos/a/b".to_string()))
    );
    assert_eq!(
        capture_target("http://example.com:8080"),
        Ok(("example.com".to_string(), 8080, "/".to_string()))
    );
}

#[test]
fn a_capture_refuses_urls_it_cannot_reach() {
    assert_eq!(capture_target("not a url"), Err(CaptureError::InvalidUrl));
    assert_eq!(capture_target("mailto:someone@example.com"), Err(CaptureError::MissingHost));
    assert_eq!(capture_target("foo://example.com/x"), Err(CaptureError::UnknownPort));
    assert_eq!(CaptureError::MissingHost.message(), "URL must have a host");
    assert_eq!(CaptureError::UnknownPort.message(), "Unknown port");
    assert_eq!(CaptureError::InvalidUrl.message(), "invalid URL");
}
