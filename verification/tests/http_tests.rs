use agent_marketplace::http::{extract_json_field, parse_http_response};

#[test]
fn the_body_follows_the_blank_line() {
    let resp = b"HTTP/1.1 200 OK\r\nContent-Type: text/plain\r\n\r\nhello\r\n\r\nworld";
    assert_eq!(parse_http_response(resp), Some("hello\r\n\r\nworld"));
}

#[test]
fn an_empty_body_is_a_body() {
    assert_eq!(parse_http_response(b"HTTP/1.1 204 No Content\r\n\r\n"), Some(""));
}

#[test]
fn a_response_without_blank_line_has_no_body() {
    assert_eq!(parse_http_response(b"HTTP/1.1 200 OK\r\nX: y\r\n"), None);
    assert_eq!(parse_http_response(b""), None);
}

#[test]
fn a_response_that_is_not_utf8_has_no_body() {
    assert_eq!(parse_http_response(b"HTTP/1.1 200 OK\r\n\r\n\xff\xfe"), None);
}

#[test]
fn a_multibyte_body_is_kept_whole() {
    let resp = "HTTP/1.1 200 OK\r\n\r\n{\"n\": \"é\"}".as_bytes();
    assert_eq!(parse_http_response(resp), Some("{\"n\": \"é\"}"));
}

#[test]
fn reads_an_unsigned_json_field() {
    assert_eq!(extract_json_field("{\"stars\": 12345}", "stars"), Some(12345));
    assert_eq!(extract_json_field("{\"a\": 0, \"b\": 18446744073709551615}", "b"), Some(u64::MAX));
}

#[test]
fn refuses_what_is_no_unsigned_integer() {
    assert_eq!(extract_json_field("{\"stars\": -1}", "stars"), None);
    assert_eq!(extract_json_field("{\"stars\": 1.5}", "stars"), None);
    assert_eq!(extract_json_field("{\"stars\": \"12\"}", "stars"), None);
    assert_eq!(extract_json_field("{\"stars\": 12}", "forks"), None);
    assert_eq!(extract_json_field("not json", "stars"), None);
    assert_eq!(extract_json_field("[1, 2]", "stars"), None);
}
