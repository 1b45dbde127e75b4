use fast_web_server::HttpResponse;

#[test]
fn test_empty() {
    let response = HttpResponse::from_body(String::from(""));
    let expected = "HTTP/1.1 200 OK\r\nConnection: close\r\nContent-Length: 0\r\n\r\n".as_bytes().to_vec();
    let actual: Vec<u8> = response.to_bytes();
    assert_eq!(expected, actual);
}

#[test]
fn http_response_test_into() {
    let response = HttpResponse::from_body("test".to_string());
    let expected =
        "HTTP/1.1 200 OK\r\nConnection: close\r\nContent-Length: 4\r\n\r\ntest".as_bytes().to_vec();
    let actual: Vec<u8> = response.to_bytes();
    assert_eq!(expected, actual);
}

#[test]
fn content_length_counts_bytes_not_chars() {
    // "héllo" has five characters but six UTF-8 bytes.
    let body = String::from("h\u{e9}llo");
    assert_eq!(body.len(), 6);
    let response = HttpResponse::from_body(body);
    assert_eq!(response.headers.get("Content-Length"), Some(&"6".to_string()));
    assert_eq!(response.headers.get("Connection"), Some(&"close".to_string()));
    let bytes = response.to_bytes();
    let expected =
        "HTTP/1.1 200 OK\r\nConnection: close\r\nContent-Length: 6\r\n\r\nh\u{e9}llo".as_bytes().to_vec();
    assert_eq!(bytes, expected);
}
