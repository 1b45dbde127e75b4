use fast_web_server::dispatch::{dispatch_request, get_404, response_from_payload, RequestOutcome};
use fast_web_server::request_type::RequestType;
use fast_web_server::router::RouteTable;
use fast_web_server::HttpRequest;

type HttpFn = fn(HttpRequest) -> Vec<u8>;

fn greet(_request: HttpRequest) -> Vec<u8> {
    b"greetings".to_vec()
}

fn mirror(request: HttpRequest) -> Vec<u8> {
    request.body.into_bytes()
}

fn count(request: HttpRequest) -> Vec<u8> {
    request.body.len().to_string().into_bytes()
}

fn run(table: &RouteTable<HttpFn>, input: &[u8]) -> Option<Vec<u8>> {
    match dispatch_request(table, input) {
        RequestOutcome::Handle(handler, request) => {
            let payload = handler(request);
            let response = response_from_payload(payload)?;
            Some(response.to_bytes())
        },
        RequestOutcome::NotFound(_request, response) => Some(response.to_bytes()),
        RequestOutcome::ParseFailed(_) => None,
    }
}

#[test]
fn resolve_twice_returns_same_handler() {
    let mut table: RouteTable<HttpFn> = RouteTable::new();
    table.bind(RequestType::GET, "/a", greet as HttpFn);
    let first = table.resolve(&RequestType::GET, "/a").copied();
    let second = table.resolve(&RequestType::GET, "/a").copied();
    assert!(first.is_some());
    assert_eq!(first.map(|f| f as usize), second.map(|f| f as usize));
}

#[test]
fn rebinding_overwrites() {
    let mut table: RouteTable<HttpFn> = RouteTable::new();
    table.bind(RequestType::GET, "/a", greet as HttpFn);
    table.bind(RequestType::GET, "/a", mirror as HttpFn);
    let handler = table.resolve(&RequestType::GET, "/a").copied().unwrap();
    assert_eq!(handler as usize, mirror as HttpFn as usize);
}

#[test]
fn resolution_is_exact_match() {
    let mut table: RouteTable<HttpFn> = RouteTable::new();
    table.bind(RequestType::GET, "/a", greet as HttpFn);
    assert!(table.resolve(&RequestType::GET, "/a").is_some());
    assert!(table.resolve(&RequestType::POST, "/a").is_none());
    assert!(table.resolve(&RequestType::GET, "/A").is_none());
    assert!(table.resolve(&RequestType::GET, "/a/").is_none());
}

#[test]
fn unmatched_route_gets_the_fixed_404() {
    let mut table: RouteTable<HttpFn> = RouteTable::new();
    table.bind(RequestType::GET, "/bound", greet as HttpFn);
    let bytes = run(&table, b"GET /unbound HTTP/1.1\r\n\r\n").unwrap();
    let expected = "HTTP/1.1 404 Not Found\r\nConnection: close\r\nContent-Length: 22\r\nContent-Type: application/json\r\n\r\n{\"error\": \"not_found\"}";
    assert_eq!(bytes, expected.as_bytes().to_vec());
}

#[test]
fn get_404_carries_the_specified_headers() {
    let response = get_404();
    assert_eq!(response.body, "{\"error\": \"not_found\"}");
    assert_eq!(response.headers.get("Content-Type"), Some(&"application/json".to_string()));
    assert_eq!(response.headers.get("Connection"), Some(&"close".to_string()));
    assert_eq!(response.headers.get("Content-Length"), Some(&"22".to_string()));
}

#[test]
fn parse_failure_closes_silently() {
    let table: RouteTable<HttpFn> = RouteTable::new();
    assert!(run(&table, b"INVALID\r\n").is_none());
}

#[test]
fn distinct_routes_get_their_own_responses() {
    // N connections to N distinct bound routes: each response carries
    // exactly its own handler's output.
    let mut table: RouteTable<HttpFn> = RouteTable::new();
    table.bind(RequestType::GET, "/greet", greet as HttpFn);
    table.bind(RequestType::POST, "/mirror", mirror as HttpFn);
    table.bind(RequestType::POST, "/count", count as HttpFn);

    let r1 = run(&table, b"GET /greet HTTP/1.1\r\n\r\n").unwrap();
    let r2 = run(&table, b"POST /mirror HTTP/1.1\r\nContent-Length: 5\r\n\r\nhello").unwrap();
    let r3 = run(&table, b"POST /count HTTP/1.1\r\nContent-Length: 3\r\n\r\nabc").unwrap();

    assert_eq!(
        r1,
        b"HTTP/1.1 200 OK\r\nConnection: close\r\nContent-Length: 9\r\n\r\ngreetings".to_vec()
    );
    assert_eq!(
        r2,
        b"HTTP/1.1 200 OK\r\nConnection: close\r\nContent-Length: 5\r\n\r\nhello".to_vec()
    );
    assert_eq!(
        r3,
        b"HTTP/1.1 200 OK\r\nConnection: close\r\nContent-Length: 1\r\n\r\n3".to_vec()
    );
}

#[test]
fn handler_payload_becomes_the_body() {
    let mut table: RouteTable<HttpFn> = RouteTable::new();
    table.bind(RequestType::POST, "/mirror", mirror as HttpFn);
    let bytes =
        run(&table, b"POST /mirror?debug=1 HTTP/1.1\r\nContent-Length: 2\r\n\r\nok").unwrap();
    assert_eq!(
        bytes,
        b"HTTP/1.1 200 OK\r\nConnection: close\r\nContent-Length: 2\r\n\r\nok".to_vec()
    );
}

#[test]
fn non_utf8_payload_yields_no_response() {
    assert!(response_from_payload(vec![0xff, 0xfe]).is_none());
    assert!(response_from_payload(b"fine".to_vec()).is_some());
}
