use fast_web_server::request_target::RequestTarget;

#[test]
fn test_new_with_uri_only() {
    let s = String::from("/path/to/resource");
    let rt = RequestTarget::new(&s).unwrap();
    assert_eq!(rt.uri, "/path/to/resource");
    assert!(rt.request_params.is_empty());
}

#[test]
fn test_new_with_uri_and_params() {
    let s = String::from("/path/to/resource?param1=value1&param2=value2");
    let rt = RequestTarget::new(&s).unwrap();
    assert_eq!(rt.uri, "/path/to/resource");
    assert_eq!(rt.request_params.get("param1"), Some(&String::from("value1")));
    assert_eq!(rt.request_params.get("param2"), Some(&String::from("value2")));
}

#[test]
fn test_new_with_invalid_input() {
    // input with no URI or query parameters: no `?`, so the whole string
    // is the (empty) uri
    let s = String::from("");
    let rt = RequestTarget::new(&s).unwrap();
    assert_eq!(rt.uri, "");
    assert!(rt.request_params.is_empty());

    // input with invalid query parameters
    let s = String::from("/path/to/resource?");
    assert!(RequestTarget::new(&s).is_err());

    let s = String::from("/path/to/resource?key=");
    assert!(RequestTarget::new(&s).is_err());

    let s = String::from("/path/to/resource?=value");
    assert!(RequestTarget::new(&s).is_err());
}

#[test]
fn scenario_two_params() {
    let s = String::from("/p?a=1&b=2");
    let rt = RequestTarget::new(&s).unwrap();
    assert_eq!(rt.uri, "/p");
    assert_eq!(rt.request_params.get("a"), Some(&String::from("1")));
    assert_eq!(rt.request_params.get("b"), Some(&String::from("2")));
    assert_eq!(rt.request_params.get("c"), None);
}

#[test]
fn param_without_equals_is_rejected() {
    let s = String::from("/p?justakey");
    let err = RequestTarget::new(&s).unwrap_err();
    assert_eq!(err, "Could not parse request param");
}

#[test]
fn later_duplicate_param_wins() {
    let s = String::from("/p?a=1&a=2");
    let rt = RequestTarget::new(&s).unwrap();
    assert_eq!(rt.request_params.get("a"), Some(&String::from("2")));
}
