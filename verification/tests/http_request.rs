use fast_web_server::errors::ParseError;
use fast_web_server::http_version::HttpVersion;
use fast_web_server::request_target::{QueryParams, RequestTarget};
use fast_web_server::request_type::RequestType;
use fast_web_server::start_line::StartLine;
use fast_web_server::HttpRequest;

#[test]
fn test_parse_headers() {
    let input = b"Content-Type: text/plain\r\nUser-Agent: curl/7.64.1\r\n\r\n" as &[u8];
    let (headers, _consumed) = HttpRequest::parse_headers(input).unwrap();
    assert_eq!(headers.get("Content-Type"), Some(&"text/plain".to_owned()));
    assert_eq!(headers.get("User-Agent"), Some(&"curl/7.64.1".to_owned()));
    assert_eq!(headers.get("Content-Length"), None);
}

#[test]
fn test_parse_headers_with_invalid_header() {
    let input = b"Content-Type text/plain\r\n\r\n" as &[u8];
    let result = HttpRequest::parse_headers(input);
    assert!(result.is_err());
    assert_eq!(result.err().unwrap().message(), "Could not parse header");
}

#[test]
fn test_parse_body() {
    let input = b"hello world" as &[u8];
    let len = input.len();
    let body = HttpRequest::parse_body(input, len).unwrap();
    assert_eq!(body, "hello world");
}

#[test]
fn test_parse_body_with_incomplete_input() {
    let input = b"hello world" as &[u8];
    let len = input.len();
    let body = HttpRequest::parse_body(input, len + 1); // input.len() + 1 bytes
    assert!(body.is_err());
    let err = body.err().unwrap();
    assert!(matches!(err, ParseError::BodyTruncated));
}

#[test]
fn http_request_test_new() {
    let input =
        b"GET / HTTP/1.1\r\nHost: localhost:3000\r\nContent-Type: text/plain\r\nContent-Length: 11\r\n\r\nhello world";
    let request = HttpRequest::new(&input[..]).unwrap();
    let expected = StartLine {
        request_type: RequestType::GET,
        request_target: RequestTarget { uri: String::from("/"), request_params: QueryParams::new() },
        http_version: HttpVersion::HTTP1_1,
    };
    assert_eq!(request.start_line, expected);
    let headers = request.headers;
    assert_eq!(headers.get("Host"), Some(&"localhost:3000".to_owned()));
    assert_eq!(headers.get("Content-Type"), Some(&"text/plain".to_owned()));
    assert_eq!(headers.get("Content-Length"), Some(&"11".to_owned()));
    assert_eq!(request.body, "hello world");
}

#[test]
fn test_new_with_incomplete_input() {
    let input =
        b"GET / HTTP/1.1\r\nHost: localhost:3000\r\nContent-Type: text/plain\r\nContent-Length: 12\r\n\r\nhello world";
    let result = HttpRequest::new(&input[..(input.len() - 1)]); // last byte missing
    assert!(result.is_err());
    assert_eq!(result.err().unwrap().message(), "Could not read entire body");
}

#[test]
fn parse_full_request() {
    let input = b"GET /x HTTP/1.1\r\nHost: h\r\nContent-Length: 5\r\n\r\nhello";
    let request = HttpRequest::new(&input[..]).unwrap();
    assert_eq!(request.start_line.request_type, RequestType::GET);
    assert_eq!(request.start_line.request_target.uri, "/x");
    assert_eq!(request.start_line.http_version, HttpVersion::HTTP1_1);
    assert_eq!(request.headers.get("Host"), Some(&"h".to_owned()));
    assert_eq!(request.body, "hello");
}

#[test]
fn truncated_body_never_partial() {
    // Content-Length 12 with only 11 body bytes available.
    let input = b"POST /u HTTP/1.1\r\nContent-Length: 12\r\n\r\nhello world";
    let result = HttpRequest::new(&input[..]);
    assert!(matches!(result, Err(ParseError::BodyTruncated)));
}

#[test]
fn missing_content_length_means_empty_body() {
    let input = b"GET / HTTP/1.1\r\nHost: h\r\n\r\nignored";
    let request = HttpRequest::new(&input[..]).unwrap();
    assert_eq!(request.body, "");
}

#[test]
fn non_numeric_content_length_is_rejected() {
    let input = b"GET / HTTP/1.1\r\nContent-Length: ten\r\n\r\n";
    let result = HttpRequest::new(&input[..]);
    match result {
        Err(ParseError::HeaderError { line }) => assert_eq!(line, "ten"),
        other => panic!("expected a header failure, got {:?}", other),
    }
}

#[test]
fn invalid_utf8_body_is_rejected() {
    let mut input = b"GET / HTTP/1.1\r\nContent-Length: 2\r\n\r\n".to_vec();
    input.push(0xff);
    input.push(0xfe);
    let result = HttpRequest::new(&input);
    assert!(matches!(result, Err(ParseError::InvalidEncoding)));
}

#[test]
fn unknown_method_is_rejected() {
    let input = b"FETCH / HTTP/1.1\r\n\r\n";
    let result = HttpRequest::new(&input[..]);
    assert!(matches!(result, Err(ParseError::RequestType)));
}

#[test]
fn unknown_version_is_a_start_line_failure() {
    let input = b"GET / HTTP/9.9\r\n\r\n";
    let result = HttpRequest::new(&input[..]);
    match result {
        Err(ParseError::StartLineError { line, length }) => {
            assert_eq!(line, "GET / HTTP/9.9");
            assert_eq!(length, 14);
        },
        other => panic!("expected a start-line failure, got {:?}", other),
    }
}

#[test]
fn header_section_may_end_at_end_of_input() {
    let input = b"Host: h" as &[u8];
    let (headers, consumed) = HttpRequest::parse_headers(input).unwrap();
    assert_eq!(headers.get("Host"), Some(&"h".to_owned()));
    assert_eq!(consumed, input.len());
}

#[test]
fn bare_lf_line_endings_are_accepted() {
    let input = b"GET /x HTTP/1.1\nHost: h\n\n";
    let request = HttpRequest::new(&input[..]).unwrap();
    assert_eq!(request.start_line.request_target.uri, "/x");
    assert_eq!(request.headers.get("Host"), Some(&"h".to_owned()));
}

#[test]
fn duplicate_header_keeps_the_last_value() {
    let input = b"X: 1\r\nX: 2\r\n\r\n" as &[u8];
    let (headers, _consumed) = HttpRequest::parse_headers(input).unwrap();
    assert_eq!(headers.get("X"), Some(&"2".to_owned()));
}

#[test]
fn empty_header_name_or_value_is_rejected() {
    assert!(HttpRequest::parse_headers(b": v\r\n\r\n").is_err());
    assert!(HttpRequest::parse_headers(b"Name: \r\n\r\n").is_err());
}
