//! The response encoder: a response always carries `Content-Length` equal
//! to its body's byte length and `Connection: close`, and encodes as the
//! status line, the header block, a blank line, then the raw body bytes.

use vstd::prelude::*;
use vstd::utf8::encode_utf8;
use crate::entries::map_of_entries;
use crate::http_headers::{
    spec_header_block_chars, HttpHeaders,
};
use crate::status_line::{spec_status_line_bytes, StatusLine};
use crate::text::{byte_len, dec_chars, lex_lt, usize_to_string};

verus! {

/// The header pairs a body-built response carries, in canonical order.
pub open spec fn spec_from_body_entries(body: Seq<char>) -> Seq<(Seq<char>, Seq<char>)> {
    seq![
        ("Connection"@, "close"@),
        ("Content-Length"@, dec_chars(encode_utf8(body).len())),
    ]
}

/// The header map a body-built response carries.
pub open spec fn spec_from_body_headers(body: Seq<char>) -> Map<Seq<char>, Seq<char>> {
    map_of_entries(spec_from_body_entries(body))
}

/// The wire bytes of a response with the given status line, header pairs
/// and body.
pub open spec fn spec_response_bytes(
    status: StatusLine,
    entries: Seq<(Seq<char>, Seq<char>)>,
    body: Seq<char>,
) -> Seq<u8> {
    spec_status_line_bytes(status) + encode_utf8(spec_header_block_chars(entries)) + encode_utf8(
        "\r\n"@,
    ) + encode_utf8(body)
}

/// `Connection` sorts strictly before `Content-Length`.
pub proof fn lemma_connection_before_content_length()
    ensures
        lex_lt("Connection"@, "Content-Length"@),
        "Connection"@ != "Content-Length"@,
{
    reveal_strlit("Connection");
    reveal_strlit("Content-Length");
    let a = "Connection"@;
    let b = "Content-Length"@;
    let a1 = a.drop_first();
    let b1 = b.drop_first();
    let a2 = a1.drop_first();
    let b2 = b1.drop_first();
    let a3 = a2.drop_first();
    let b3 = b2.drop_first();
    assert(a3[0] == a[3] && b3[0] == b[3]);
    assert(lex_lt(a3, b3));
    assert(a2[0] == a[2] && b2[0] == b[2]);
    assert(lex_lt(a2, b2));
    assert(a1[0] == a[1] && b1[0] == b[1]);
    assert(lex_lt(a1, b1));
    assert(lex_lt(a, b));
    assert(a != b) by {
        assert(a.len() != b.len());
    }
}

/// Law: a response built from a body declares a `Content-Length` equal to
/// the body's byte length — the length of its UTF-8 encoding, not its
/// character count.
pub proof fn lemma_from_body_content_length(body: Seq<char>)
    ensures
        spec_from_body_headers(body).contains_key("Content-Length"@),
        spec_from_body_headers(body)["Content-Length"@] == dec_chars(encode_utf8(body).len()),
        spec_from_body_headers(body).contains_key("Connection"@),
        spec_from_body_headers(body)["Connection"@] == "close"@,
{
    let es = spec_from_body_entries(body);
    let es1 = es.drop_last();
    assert(es1 =~= seq![("Connection"@, "close"@)]);
    assert(es1.drop_last().len() == 0);
    assert(map_of_entries(es1.drop_last()) == Map::<Seq<char>, Seq<char>>::empty());
    assert(es1.last() == ("Connection"@, "close"@));
    assert(map_of_entries(es1) == Map::<Seq<char>, Seq<char>>::empty().insert(
        "Connection"@,
        "close"@,
    ));
    assert(es.last() == ("Content-Length"@, dec_chars(encode_utf8(body).len())));
    assert(map_of_entries(es) == map_of_entries(es1).insert(
        "Content-Length"@,
        dec_chars(encode_utf8(body).len()),
    ));
    lemma_connection_before_content_length();
}

/// Law: the exact encoding of a body-built response, whatever its status
/// line: the status line, a `Connection: close` line, a `Content-Length`
/// line carrying the decimal byte length of the body, a blank line, and
/// then the body's raw bytes.
pub proof fn lemma_from_body_encoding(status: StatusLine, body: Seq<char>)
    ensures
        spec_response_bytes(status, spec_from_body_entries(body), body) == encode_utf8(
            crate::status_line::spec_status_line_chars(status) + "\r\n"@ + "Connection"@ + ": "@
                + "close"@ + "\r\n"@ + "Content-Length"@ + ": "@ + dec_chars(
                encode_utf8(body).len(),
            ) + "\r\n"@ + "\r\n"@,
        ) + encode_utf8(body),
{
    let es = spec_from_body_entries(body);
    let es1 = es.drop_last();
    assert(es1 =~= seq![("Connection"@, "close"@)]);
    assert(es1.drop_last().len() == 0);
    assert(spec_header_block_chars(es1.drop_last()) == Seq::<char>::empty());
    let line1 = "Connection"@ + ": "@ + "close"@ + "\r\n"@;
    let line2 = "Content-Length"@ + ": "@ + dec_chars(encode_utf8(body).len()) + "\r\n"@;
    assert(spec_header_block_chars(es1) =~= line1);
    assert(spec_header_block_chars(es) =~= line1 + line2);
    let sc = crate::status_line::spec_status_line_chars(status) + "\r\n"@;
    crate::text::lemma_encode_utf8_concat(sc, line1 + line2);
    crate::text::lemma_encode_utf8_concat(sc + (line1 + line2), "\r\n"@);
    assert(sc + (line1 + line2) + "\r\n"@ =~= crate::status_line::spec_status_line_chars(status)
        + "\r\n"@ + "Connection"@ + ": "@ + "close"@ + "\r\n"@ + "Content-Length"@ + ": "@
        + dec_chars(encode_utf8(body).len()) + "\r\n"@ + "\r\n"@);
    assert(spec_response_bytes(status, es, body) =~= encode_utf8(sc + (line1 + line2) + "\r\n"@)
        + encode_utf8(body));
}

/// A response: status line, headers, body.
#[derive(Debug, Clone)]
pub struct HttpResponse {
    pub status_line: StatusLine,
    pub headers: HttpHeaders,
    pub body: String,
}

impl HttpResponse {
    /// Builds a `200 OK` response around a body, injecting exactly the
    /// `Content-Length` and `Connection: close` headers.
    pub fn from_body(body: String) -> (r: Self)
        ensures
            r.status_line == (StatusLine {
                protocol: crate::http_version::HttpVersion::HTTP1_1,
                status_code: crate::status_code::StatusCode::Code200,
            }),
            r.headers.wf(),
            r.headers.entries_view() == spec_from_body_entries(body@),
            r.headers@ == spec_from_body_headers(body@),
            r.body == body,
    {
        let length = byte_len(body.as_str());
        let length_str = usize_to_string(length);
        let mut entries: Vec<(String, String)> = Vec::new();
        entries.push((String::from_str("Connection"), String::from_str("close")));
        entries.push((String::from_str("Content-Length"), length_str));
        proof {
            lemma_connection_before_content_length();
            assert(crate::entries::entry_views(entries@) =~= spec_from_body_entries(body@));
        }
        let headers = HttpHeaders::from_sorted_entries(entries);
        HttpResponse { status_line: StatusLine::default(), headers, body }
    }

    /// The response's exact wire bytes: status line, header block, blank
    /// line, body.
    pub fn to_bytes(&self) -> (r: Vec<u8>)
        ensures
            r@ == spec_response_bytes(self.status_line, self.headers.entries_view(), self.body@),
    {
        let mut buf = self.status_line.to_bytes();
        let mut header_bytes = self.headers.to_bytes();
        buf.append(&mut header_bytes);
        let mut blank = "\r\n".as_bytes_vec();
        buf.append(&mut blank);
        let mut body_bytes = self.body.as_str().as_bytes_vec();
        buf.append(&mut body_bytes);
        proof {
            assert(buf@ =~= spec_response_bytes(
                self.status_line,
                self.headers.entries_view(),
                self.body@,
            ));
        }
        buf
    }
}

} // verus!
