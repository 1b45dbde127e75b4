use fast_web_server::errors::ParseError;
use fast_web_server::http_version::HttpVersion;
use fast_web_server::request_target::RequestTarget;
use fast_web_server::request_type::RequestType;
use fast_web_server::start_line::StartLine;

#[test]
fn test_start_line_new_valid_input() {
    let input = "GET /index.html HTTP/1.1\n";

    let expected = StartLine {
        request_type: RequestType::GET,
        request_target: RequestTarget::new(&String::from("/index.html")).unwrap(),
        http_version: HttpVersion::HTTP1_1,
    };

    let actual = StartLine::new(input).unwrap();

    assert_eq!(actual, expected);
}

#[test]
fn test_start_line_new_invalid_input() {
    let input = "INVALID\n";

    let expected = ParseError::StartLineError { line: "INVALID".to_string(), length: 7 };
    let actual = StartLine::new(input).unwrap_err();
    assert_eq!(actual.message(), expected.message());
}

#[test]
fn invalid_start_line_names_line_and_length() {
    let actual = StartLine::new("INVALID\r\n").unwrap_err();
    match actual {
        ParseError::StartLineError { line, length } => {
            assert_eq!(line, "INVALID");
            assert_eq!(length, 7);
        },
        other => panic!("expected a start-line failure, got {:?}", other),
    }
}

#[test]
fn start_line_error_message_names_line_and_length() {
    let err = StartLine::new("INVALID\r\n").unwrap_err();
    assert_eq!(err.message(), "Could not parse start line INVALID of length 7");
}
