use webserver::request::{IncomingRequest, ParsedRequest};
use webserver::string_map::StringMap;

fn parsed(input: &[u8]) -> IncomingRequest {
    match IncomingRequest::parse_request(input) {
        ParsedRequest::Parsed(request) => *request,
        other => panic!("not parsed: {:?}", other),
    }
}

fn listing(m: &StringMap) -> Vec<(String, String)> {
    let mut out = Vec::new();
    let mut i = 0;
    while let Some((k, v)) = m.entry(i) {
        out.push((k.clone(), v.clone()));
        i += 1;
    }
    out
}

fn kv(k: &str, v: &str) -> (String, String) {
    (k.to_string(), v.to_string())
}

#[test]
fn parses_a_request_with_query_headers_and_body() {
    let body = "{\n\t\"body\":[\"thing1\", \"thing2\"]\n}";
    let input = format!(
        "POST /page?key1=value1&key2=value2 HTTP/1.1\r\nFirst-Header: Value\r\nContent-Length: {}\r\nContent-Type: application/json \r\n\r\n{}",
        body.len(),
        body
    );
    let request = parsed(input.as_bytes());
    assert_eq!(request.method, "POST");
    assert_eq!(request.path, "/page");
    assert_eq!(listing(&request.query), vec![kv("key1", "value1"), kv("key2", "value2")]);
    assert_eq!(request.version, "HTTP/1.1");
    assert_eq!(
        listing(&request.headers),
        vec![
            kv("first-header", "Value"),
            kv("content-length", "32"),
            kv("content-type", "application/json"),
        ]
    );
    assert!(request.cookies.is_empty());
    assert_eq!(body.len(), 32);
    assert_eq!(request.body, body.as_bytes());
}

#[test]
fn nothing_read_is_an_empty_request() {
    assert!(matches!(IncomingRequest::parse_request(b""), ParsedRequest::Empty));
}

#[test]
fn a_request_line_without_a_space_is_a_bad_request() {
    assert!(matches!(IncomingRequest::parse_request(b"GET\r\n\r\n"), ParsedRequest::BadRequest));
    assert!(matches!(IncomingRequest::parse_request(b"\r\n"), ParsedRequest::BadRequest));
    assert!(matches!(IncomingRequest::parse_request(b"x"), ParsedRequest::BadRequest));
}

#[test]
fn a_missing_version_defaults_to_http_1_1() {
    let request = parsed(b"GET /index\r\n\r\n");
    assert_eq!(request.method, "GET");
    assert_eq!(request.path, "/index");
    assert_eq!(request.version, "HTTP/1.1");
    assert!(request.query.is_empty());
    assert!(request.headers.is_empty());
    assert!(request.body.is_empty());
}

#[test]
fn the_version_follows_the_last_space() {
    let request = parsed(b"GET /a b HTTP/1.0\r\n\r\n");
    assert_eq!(request.method, "GET");
    assert_eq!(request.path, "/a b");
    assert_eq!(request.version, "HTTP/1.0");
}

#[test]
fn the_query_follows_the_first_question_mark() {
    let request = parsed(b"GET /s?q=a?b&x=1&q=last&broken HTTP/1.1\r\n\r\n");
    assert_eq!(request.path, "/s");
    assert_eq!(listing(&request.query), vec![kv("q", "last"), kv("x", "1")]);
}

#[test]
fn header_names_are_trimmed_and_lowercased_and_values_trimmed() {
    let request = parsed(b"GET / HTTP/1.1\r\n  HOST :  localhost:8080  \r\nX-\xc3\x89: caf\xc3\xa9\r\n\r\n");
    assert_eq!(
        listing(&request.headers),
        vec![kv("host", "localhost:8080"), kv("x-\u{e9}", "caf\u{e9}")]
    );
}

#[test]
fn a_header_line_without_a_colon_is_a_name_without_a_value() {
    let request = parsed(b"GET / HTTP/1.1\r\nBroken Line\r\nA: 1\r\n\r\n");
    assert_eq!(listing(&request.headers), vec![kv("broken line", ""), kv("a", "1")]);
}

#[test]
fn a_repeated_header_takes_the_later_value() {
    let request = parsed(b"GET / HTTP/1.1\r\nA: 1\r\nB: 2\r\na: 3\r\n\r\n");
    assert_eq!(listing(&request.headers), vec![kv("a", "3"), kv("b", "2")]);
}

#[test]
fn cookies_come_from_the_cookie_header() {
    let request = parsed(b"GET / HTTP/1.1\r\nCookie: sessionID=abc; theme=dark; junk\r\n\r\n");
    assert_eq!(listing(&request.cookies), vec![kv("sessionID", "abc"), kv("theme", "dark")]);
}

#[test]
fn the_body_has_exactly_the_announced_length() {
    let request = parsed(b"POST / HTTP/1.1\r\nContent-Length: 4\r\n\r\nbody and more");
    assert_eq!(request.body, b"body");
    let none = parsed(b"POST / HTTP/1.1\r\n\r\nignored");
    assert!(none.body.is_empty());
    let zero = parsed(b"POST / HTTP/1.1\r\nContent-Length: 0\r\n\r\nignored");
    assert!(zero.body.is_empty());
}

#[test]
fn the_body_is_raw_bytes() {
    let request = parsed(b"POST / HTTP/1.1\r\nContent-Length: 3\r\n\r\n\xff\x00\r");
    assert_eq!(request.body, vec![0xffu8, 0x00, 0x0d]);
}

#[test]
fn an_unreadable_content_length_is_a_bad_request() {
    for value in ["abc", "-1", "1.5", "", "99999999999999999999999999"] {
        let input = format!("POST / HTTP/1.1\r\nContent-Length: {}\r\n\r\nbody", value);
        assert!(
            matches!(IncomingRequest::parse_request(input.as_bytes()), ParsedRequest::BadRequest),
            "for {:?}",
            value
        );
    }
}

#[test]
fn a_short_body_is_a_bad_request() {
    let input = b"POST / HTTP/1.1\r\nContent-Length: 10\r\n\r\nshort";
    assert!(matches!(IncomingRequest::parse_request(input), ParsedRequest::BadRequest));
    let no_blank_line = b"POST / HTTP/1.1\r\nContent-Length: 1\r\n";
    assert!(matches!(IncomingRequest::parse_request(no_blank_line), ParsedRequest::BadRequest));
}

#[test]
fn a_head_that_is_not_utf8_is_a_bad_request() {
    let input = b"GET /\xff HTTP/1.1\r\n\r\n";
    assert!(matches!(IncomingRequest::parse_request(input), ParsedRequest::BadRequest));
}

#[test]
fn a_head_without_an_empty_line_ends_with_the_input() {
    let request = parsed(b"GET /x HTTP/1.1\r\nA: 1\r\n");
    assert_eq!(request.path, "/x");
    assert_eq!(listing(&request.headers), vec![kv("a", "1")]);
}

#[test]
fn body_length_reads_the_announcement() {
    assert_eq!(IncomingRequest::body_length(b"POST / HTTP/1.1\r\nContent-Length: 12\r\n\r\n"), 12);
    assert_eq!(IncomingRequest::body_length(b"POST / HTTP/1.1\r\ncontent-length:  7 \r\n"), 7);
    assert_eq!(IncomingRequest::body_length(b"POST / HTTP/1.1\r\n\r\n"), 0);
    assert_eq!(IncomingRequest::body_length(b"POST / HTTP/1.1\r\nContent-Length: x\r\n\r\n"), 0);
    assert_eq!(IncomingRequest::body_length(b"\xff\r\nContent-Length: 3\r\n\r\n"), 0);
    assert_eq!(IncomingRequest::body_length(b""), 0);
}

#[test]
fn a_new_request_is_empty() {
    let request = IncomingRequest::new();
    assert_eq!(request.method, "");
    assert_eq!(request.path, "");
    assert_eq!(request.version, "");
    assert!(request.query.is_empty());
    assert!(request.headers.is_empty());
    assert!(request.cookies.is_empty());
    assert!(request.body.is_empty());
}

#[test]
fn as_json_of_a_new_request() {
    let expected = "{\n            \"method\":\"\",\n            \"path\":\"\",\n            \"query\":{},\n            \"version\":\"\",\n            \"headers\":{},\n            \"cookies\":{},\n            \"body\":\"\"\n        }";
    assert_eq!(IncomingRequest::new().as_json(), expected);
}

#[test]
fn as_json_lists_the_request() {
    let request = parsed(
        b"POST /index?key1=value1&key2=value2 HTTP/1.1\r\nAccept-Language: en-US,en;q=0.9\r\nCookie: sessionID=9999;cookie2=hello\r\nContent-Length: 2\r\n\r\nhi",
    );
    let expected = "{\n            \"method\":\"POST\",\n            \"path\":\"/index\",\n            \"query\":{\"key1\":\"value1\",\"key2\":\"value2\"},\n            \"version\":\"HTTP/1.1\",\n            \"headers\":{\"accept-language\":\"en-US,en;q=0.9\",\"cookie\":\"sessionID=9999;cookie2=hello\",\"content-length\":\"2\"},\n            \"cookies\":{\"sessionID\":\"9999\",\"cookie2\":\"hello\"},\n            \"body\":\"hi\"\n        }";
    assert_eq!(request.as_json(), expected);
}

#[test]
fn as_json_quotes_keys_and_values_and_drops_their_spaces() {
    let mut request = IncomingRequest::new();
    request.query.insert("a \"b\"".to_string(), "line\nbreak x".to_string());
    let json = request.as_json();
    assert!(json.contains("\"query\":{\"a\\\"b\\\"\":\"line\\nbreakx\"},"), "{}", json);
}

#[test]
fn as_json_reads_the_body_with_replacement_characters() {
    let mut request = IncomingRequest::new();
    request.body = vec![b'o', b'k', 0xff, b'!'];
    let json = request.as_json();
    assert!(json.contains("\"body\":\"ok\u{fffd}!\""), "{}", json);
}
