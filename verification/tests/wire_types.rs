use fast_web_server::http_version::HttpVersion;
use fast_web_server::request_type::RequestType;
use fast_web_server::status_code::StatusCode;
use fast_web_server::status_line::StatusLine;
use fast_web_server::text::{parse_usize, usize_to_string};
use fast_web_server::Responder;

#[test]
fn simple_get() {
    let actual = RequestType::from_str("GET");
    assert_eq!(RequestType::GET, actual.unwrap())
}

#[test]
fn unimplemented() {
    let actual = RequestType::from_str("unimplemented");
    assert!(actual.is_err());
    assert_eq!(actual.err().unwrap().message(), "Could not parse request type");
}

#[test]
fn every_method_parses() {
    let cases = vec![
        ("GET", RequestType::GET),
        ("HEAD", RequestType::HEAD),
        ("POST", RequestType::POST),
        ("PUT", RequestType::PUT),
        ("DELETE", RequestType::DELETE),
        ("CONNECT", RequestType::CONNECT),
        ("OPTIONS", RequestType::OPTIONS),
        ("TRACE", RequestType::TRACE),
        ("PATCH", RequestType::PATCH),
    ];
    for (text, expected) in cases {
        assert_eq!(RequestType::from_str(text).unwrap(), expected);
    }
    assert!(RequestType::from_str("get").is_err());
    assert!(RequestType::from_str("").is_err());
}

#[test]
fn ok() {
    assert_eq!("200 OK", StatusCode::Code200.to_string());
}

#[test]
fn status_code_to_vec() {
    let expected = "200 OK".as_bytes().to_vec();
    let actual: Vec<u8> = StatusCode::Code200.to_bytes();
    assert_eq!(expected, actual)
}

#[test]
fn status_line_to_vec() {
    let status_line = StatusLine { protocol: HttpVersion::HTTP1_0, status_code: StatusCode::Code200 };
    let expected = "HTTP/1.0 200 OK\r\n".as_bytes().to_vec();
    let actual: Vec<u8> = status_line.to_bytes();
    assert_eq!(expected, actual);
}

#[test]
fn version_round_trip() {
    assert_eq!(HttpVersion::from_string(&"HTTP/1.0".to_string()), Some(HttpVersion::HTTP1_0));
    assert_eq!(HttpVersion::from_string(&"HTTP/1.1".to_string()), Some(HttpVersion::HTTP1_1));
    assert_eq!(HttpVersion::from_string(&"HTTP/2".to_string()), None);
    assert_eq!(HttpVersion::HTTP1_0.to_string(), "HTTP/1.0");
    assert_eq!(HttpVersion::HTTP1_1.to_string(), "HTTP/1.1");
}

#[test]
fn decimal_rendering() {
    assert_eq!(usize_to_string(0), "0");
    assert_eq!(usize_to_string(7), "7");
    assert_eq!(usize_to_string(10), "10");
    assert_eq!(usize_to_string(12345), "12345");
}

#[test]
fn decimal_parsing() {
    assert_eq!(parse_usize("0"), Some(0));
    assert_eq!(parse_usize("42"), Some(42));
    assert_eq!(parse_usize("007"), Some(7));
    assert_eq!(parse_usize(""), None);
    assert_eq!(parse_usize("12a"), None);
    assert_eq!(parse_usize("-1"), None);
    assert_eq!(parse_usize("99999999999999999999999999"), None);
}

#[test]
fn responder_returns_own_bytes() {
    let payload: Vec<u8> = vec![1, 2, 3];
    assert_eq!(payload.transform(), vec![1, 2, 3]);
}
