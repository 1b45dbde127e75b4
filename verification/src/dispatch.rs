//! Per-connection dispatch: parse the bytes, resolve a handler against the
//! frozen table, and shape the response.  The embedding program performs
//! the socket reads and writes and invokes the handler; every decision is
//! made here.

use vstd::prelude::*;
use vstd::utf8::{decode_utf8, encode_utf8, valid_utf8};
use crate::errors::{ParseError, ParseErrorModel};
use crate::http_request::{spec_parse_request, HttpRequest, RequestModel};
use crate::http_response::{
    lemma_connection_before_content_length, spec_from_body_entries, HttpResponse,
};
use crate::http_version::HttpVersion;
use crate::router::{spec_resolve, RouteTable};
use crate::request_type::RequestType;
use crate::start_line::StartLineModel;
use crate::status_code::StatusCode;
use crate::status_line::StatusLine;
use crate::text::{byte_len, dec_chars, lemma_lex_lt_trans, lex_lt, string_from_utf8, usize_to_string};

verus! {

/// The fixed body an unmatched route is answered with.
pub open spec fn spec_not_found_body() -> Seq<char> {
    "{\"error\": \"not_found\"}"@
}

/// The header pairs of the fixed 404 response, in canonical order.
pub open spec fn spec_not_found_entries() -> Seq<(Seq<char>, Seq<char>)> {
    seq![
        ("Connection"@, "close"@),
        ("Content-Length"@, dec_chars(encode_utf8(spec_not_found_body()).len())),
        ("Content-Type"@, "application/json"@),
    ]
}

/// `Content-Length` sorts strictly before `Content-Type`.
pub proof fn lemma_content_length_before_content_type()
    ensures
        lex_lt("Content-Length"@, "Content-Type"@),
{
    reveal_strlit("Content-Length");
    reveal_strlit("Content-Type");
    let a = "Content-Length"@;
    let b = "Content-Type"@;
    let a1 = a.drop_first();
    let b1 = b.drop_first();
    let a2 = a1.drop_first();
    let b2 = b1.drop_first();
    let a3 = a2.drop_first();
    let b3 = b2.drop_first();
    let a4 = a3.drop_first();
    let b4 = b3.drop_first();
    let a5 = a4.drop_first();
    let b5 = b4.drop_first();
    let a6 = a5.drop_first();
    let b6 = b5.drop_first();
    let a7 = a6.drop_first();
    let b7 = b6.drop_first();
    let a8 = a7.drop_first();
    let b8 = b7.drop_first();
    assert(a8[0] == a[8] && b8[0] == b[8]);
    assert(lex_lt(a8, b8));
    assert(a7[0] == a[7] && b7[0] == b[7]);
    assert(lex_lt(a7, b7));
    assert(a6[0] == a[6] && b6[0] == b[6]);
    assert(lex_lt(a6, b6));
    assert(a5[0] == a[5] && b5[0] == b[5]);
    assert(lex_lt(a5, b5));
    assert(a4[0] == a[4] && b4[0] == b[4]);
    assert(lex_lt(a4, b4));
    assert(a3[0] == a[3] && b3[0] == b[3]);
    assert(lex_lt(a3, b3));
    assert(a2[0] == a[2] && b2[0] == b[2]);
    assert(lex_lt(a2, b2));
    assert(a1[0] == a[1] && b1[0] == b[1]);
    assert(lex_lt(a1, b1));
    assert(lex_lt(a, b));
}

/// Law: the exact encoding of the fixed 404 response: its status line,
/// the `Connection: close`, `Content-Length` and
/// `Content-Type: application/json` lines, a blank line, then exactly the
/// literal JSON body.
pub proof fn lemma_not_found_encoding()
    ensures
        crate::http_response::spec_response_bytes(
            StatusLine { protocol: HttpVersion::HTTP1_1, status_code: StatusCode::Code404 },
            spec_not_found_entries(),
            spec_not_found_body(),
        ) == encode_utf8(
            crate::status_line::spec_status_line_chars(
                StatusLine { protocol: HttpVersion::HTTP1_1, status_code: StatusCode::Code404 },
            ) + "\r\n"@ + "Connection"@ + ": "@ + "close"@ + "\r\n"@ + "Content-Length"@ + ": "@
                + dec_chars(encode_utf8(spec_not_found_body()).len()) + "\r\n"@ + "Content-Type"@
                + ": "@ + "application/json"@ + "\r\n"@ + "\r\n"@,
        ) + encode_utf8(spec_not_found_body()),
{
    let status = StatusLine { protocol: HttpVersion::HTTP1_1, status_code: StatusCode::Code404 };
    let es = spec_not_found_entries();
    let es1 = es.drop_last();
    let es2 = es1.drop_last();
    assert(es2 =~= seq![("Connection"@, "close"@)]);
    assert(es2.drop_last().len() == 0);
    assert(crate::http_headers::spec_header_block_chars(es2.drop_last()) == Seq::<char>::empty());
    let line1 = "Connection"@ + ": "@ + "close"@ + "\r\n"@;
    let line2 = "Content-Length"@ + ": "@ + dec_chars(encode_utf8(spec_not_found_body()).len())
        + "\r\n"@;
    let line3 = "Content-Type"@ + ": "@ + "application/json"@ + "\r\n"@;
    assert(crate::http_headers::spec_header_block_chars(es2) =~= line1);
    assert(es1.last() == ("Content-Length"@, dec_chars(encode_utf8(spec_not_found_body()).len())));
    assert(crate::http_headers::spec_header_block_chars(es1) =~= line1 + line2);
    assert(es.last() == ("Content-Type"@, "application/json"@));
    assert(crate::http_headers::spec_header_block_chars(es) =~= line1 + line2 + line3);
    let sc = crate::status_line::spec_status_line_chars(status) + "\r\n"@;
    crate::text::lemma_encode_utf8_concat(sc, line1 + line2 + line3);
    crate::text::lemma_encode_utf8_concat(sc + (line1 + line2 + line3), "\r\n"@);
    assert(sc + (line1 + line2 + line3) + "\r\n"@ =~= crate::status_line::spec_status_line_chars(
        status,
    ) + "\r\n"@ + "Connection"@ + ": "@ + "close"@ + "\r\n"@ + "Content-Length"@ + ": "@
        + dec_chars(encode_utf8(spec_not_found_body()).len()) + "\r\n"@ + "Content-Type"@ + ": "@
        + "application/json"@ + "\r\n"@ + "\r\n"@);
    assert(crate::http_response::spec_response_bytes(status, es, spec_not_found_body())
        =~= encode_utf8(sc + (line1 + line2 + line3) + "\r\n"@) + encode_utf8(
        spec_not_found_body(),
    ));
}

/// The fixed response for an unmatched route: status `404 Not Found`, the
/// literal JSON body, `Content-Type: application/json` and
/// `Connection: close` (with the `Content-Length` every response carries).
pub fn get_404() -> (r: HttpResponse)
    ensures
        r.status_line == (StatusLine {
            protocol: HttpVersion::HTTP1_1,
            status_code: StatusCode::Code404,
        }),
        r.headers.wf(),
        r.headers.entries_view() == spec_not_found_entries(),
        r.body@ == spec_not_found_body(),
{
    let body = String::from_str("{\"error\": \"not_found\"}");
    let length = byte_len(body.as_str());
    let length_str = usize_to_string(length);
    let mut entries: Vec<(String, String)> = Vec::new();
    entries.push((String::from_str("Connection"), String::from_str("close")));
    entries.push((String::from_str("Content-Length"), length_str));
    entries.push((String::from_str("Content-Type"), String::from_str("application/json")));
    proof {
        lemma_connection_before_content_length();
        lemma_content_length_before_content_type();
        lemma_lex_lt_trans("Connection"@, "Content-Length"@, "Content-Type"@);
        assert(crate::entries::entry_views(entries@) =~= spec_not_found_entries());
    }
    let headers = crate::http_headers::HttpHeaders::from_sorted_entries(entries);
    HttpResponse {
        status_line: StatusLine { protocol: HttpVersion::HTTP1_1, status_code: StatusCode::Code404 },
        headers,
        body,
    }
}

/// What one connection's bytes lead to.
pub enum RequestOutcome<'a, H> {
    /// A parsed request and the handler its route is bound to.
    Handle(&'a H, HttpRequest),
    /// A parsed request whose route is unbound, with the fixed 404
    /// response to write back.
    NotFound(HttpRequest, HttpResponse),
    /// The bytes did not parse; the connection closes without a response.
    ParseFailed(ParseError),
}

/// The (method, path) route key of a parsed request.
pub open spec fn spec_request_key(m: RequestModel) -> (RequestType, Seq<char>) {
    (m.start_line.method, m.start_line.uri)
}

/// Decides a connection: parse the bytes, then resolve the request's
/// (method, path) against the table.  Parse failures yield no response;
/// a miss yields the fixed 404.
pub fn dispatch_request<'a, H>(table: &'a RouteTable<H>, input: &[u8]) -> (r: RequestOutcome<
    'a,
    H,
>)
    requires
        table.wf(),
    ensures
        r matches RequestOutcome::ParseFailed(e) ==> spec_parse_request(input@) == Err::<
            RequestModel,
            ParseErrorModel,
        >(e@),
        r matches RequestOutcome::Handle(h, q) ==> spec_parse_request(input@) == Ok::<
            RequestModel,
            ParseErrorModel,
        >(spec_request_model(&q)) && spec_resolve(
            table@,
            q.start_line.request_type,
            q.start_line.request_target.uri@,
        ) == Some(*h) && q.headers.wf() && q.start_line.request_target.request_params.wf(),
        r matches RequestOutcome::NotFound(q, resp) ==> spec_parse_request(input@) == Ok::<
            RequestModel,
            ParseErrorModel,
        >(spec_request_model(&q)) && spec_resolve(
            table@,
            q.start_line.request_type,
            q.start_line.request_target.uri@,
        ) is None && resp.status_line == (StatusLine {
            protocol: HttpVersion::HTTP1_1,
            status_code: StatusCode::Code404,
        }) && resp.headers.wf() && resp.headers.entries_view() == spec_not_found_entries()
            && resp.body@ == spec_not_found_body(),
{
    let q = match HttpRequest::new(input) {
        Ok(q) => q,
        Err(e) => {
            return RequestOutcome::ParseFailed(e);
        },
    };
    match table.resolve(&q.start_line.request_type, q.start_line.request_target.uri.as_str()) {
        Some(h) => RequestOutcome::Handle(h, q),
        None => {
            let resp = get_404();
            RequestOutcome::NotFound(q, resp)
        },
    }
}

/// The model a parsed request denotes.
pub open spec fn spec_request_model(q: &HttpRequest) -> RequestModel {
    RequestModel {
        start_line: StartLineModel {
            method: q.start_line.request_type,
            uri: q.start_line.request_target.uri@,
            params: q.start_line.request_target.request_params@,
            version: q.start_line.http_version,
        },
        headers: q.headers@,
        body: q.body@,
    }
}

/// Wraps a handler's raw payload in a `200 OK` response; a payload that is
/// not UTF-8 yields no response.
pub fn response_from_payload(payload: Vec<u8>) -> (r: Option<HttpResponse>)
    ensures
        r is Some <==> valid_utf8(payload@),
        r matches Some(resp) ==> resp.body@ == decode_utf8(payload@) && resp.status_line == (
        StatusLine { protocol: HttpVersion::HTTP1_1, status_code: StatusCode::Code200 })
            && resp.headers.wf() && resp.headers.entries_view() == spec_from_body_entries(
            decode_utf8(payload@),
        ),
{
    match string_from_utf8(payload) {
        None => None,
        Some(b) => Some(HttpResponse::from_body(b)),
    }
}

/// Law: connections cannot contaminate one another.  A connection's
/// outcome is a function of the frozen table and its own bytes alone, so
/// two requests bound to distinct routes each resolve to their own
/// handler.
pub proof fn lemma_connections_independent<H>(
    m: Map<(RequestType, Seq<char>), H>,
    q1: RequestModel,
    q2: RequestModel,
    h1: H,
    h2: H,
)
    requires
        spec_request_key(q1) != spec_request_key(q2),
        m.contains_key(spec_request_key(q1)),
        m[spec_request_key(q1)] == h1,
        m.contains_key(spec_request_key(q2)),
        m[spec_request_key(q2)] == h2,
    ensures
        spec_resolve(m, q1.start_line.method, q1.start_line.uri) == Some(h1),
        spec_resolve(m, q2.start_line.method, q2.start_line.uri) == Some(h2),
{
}

} // verus!
