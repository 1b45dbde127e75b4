use fast_web_server::HttpHeaders;

#[test]
fn http_headers_test_new() {
    let headers = HttpHeaders::new();
    assert!(headers.iter().is_empty());
}

#[test]
fn test_insert() {
    let mut headers = HttpHeaders::new();
    headers.insert("Content-Type".to_string(), "application/json".to_string());
    assert_eq!(headers.get("Content-Type"), Some(&"application/json".to_string()));
}

#[test]
fn test_get() {
    let mut headers = HttpHeaders::new();
    headers.insert("Content-Type".to_string(), "application/json".to_string());
    assert_eq!(headers.get("Content-Type"), Some(&"application/json".to_string()));
    assert_eq!(headers.get("Accept"), None);
}

#[test]
fn test_iter() {
    let mut headers = HttpHeaders::new();
    headers.insert("Content-Type".to_string(), "application/json".to_string());
    headers.insert("Accept".to_string(), "text/html".to_string());
    let iter = headers.iter();
    assert_eq!(iter.len(), 2);
}

#[test]
fn http_headers_test_into() {
    let mut headers = HttpHeaders::new();
    headers.insert("Content-Type".to_string(), "application/json".to_string());
    headers.insert("Accept".to_string(), "text/html".to_string());
    let expected_bytes = b"Accept: text/html\r\nContent-Type: application/json\r\n".to_vec();
    let bytes: Vec<u8> = headers.to_bytes();
    assert_eq!(bytes, expected_bytes);
}

#[test]
fn last_write_wins() {
    let mut headers = HttpHeaders::new();
    headers.insert("Accept".to_string(), "text/html".to_string());
    headers.insert("Accept".to_string(), "application/json".to_string());
    assert_eq!(headers.get("Accept"), Some(&"application/json".to_string()));
    assert_eq!(headers.iter().len(), 1);
}

#[test]
fn encoding_sorts_names() {
    let mut headers = HttpHeaders::new();
    headers.insert("Zeta".to_string(), "1".to_string());
    headers.insert("Alpha".to_string(), "2".to_string());
    headers.insert("Mid".to_string(), "3".to_string());
    let expected = b"Alpha: 2\r\nMid: 3\r\nZeta: 1\r\n".to_vec();
    assert_eq!(headers.to_bytes(), expected);
}
