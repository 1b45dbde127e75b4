//! The request parser: turns raw bytes into a structured request or a
//! typed failure.  A request is a start line, then header lines up to a
//! blank line (or the end of the input), then exactly `Content-Length`
//! bytes of UTF-8 body.

use vstd::prelude::*;
use vstd::slice::slice_to_vec;
use vstd::utf8::{decode_utf8, valid_utf8};
use crate::errors::{ParseError, ParseErrorModel};
use crate::http_headers::HttpHeaders;
use crate::start_line::{spec_start_line, StartLine, StartLineModel};
use crate::text::{
    dec_value, is_dec_digits, parse_usize, spec_trim_crlf, string_from_utf8, trim_crlf,
};

verus! {

/// The first line of a byte sequence: its content up to (and excluding)
/// the first LF, and the offset where the rest begins.  Without an LF the
/// whole sequence is the line.
pub open spec fn spec_first_line(s: Seq<u8>) -> (Seq<u8>, int)
    decreases s.len(),
{
    if s.len() == 0 {
        (Seq::<u8>::empty(), 0int)
    } else if s[0] == 10u8 {
        (Seq::<u8>::empty(), 1int)
    } else {
        let r = spec_first_line(s.drop_first());
        (seq![s[0]] + r.0, 1 + r.1)
    }
}

/// The offset a line consumes stays within the sequence.
pub proof fn lemma_first_line_bounds(s: Seq<u8>)
    ensures
        0 <= spec_first_line(s).1 <= s.len(),
        s.len() > 0 ==> spec_first_line(s).1 >= 1,
    decreases s.len(),
{
    if s.len() > 0 && s[0] != 10u8 {
        lemma_first_line_bounds(s.drop_first());
    }
}

/// A LF at `j` after a LF-free prefix closes the first line there.
pub proof fn lemma_first_line_found(s: Seq<u8>, j: int)
    requires
        0 <= j < s.len(),
        s[j] == 10u8,
        forall|l: int| 0 <= l < j ==> s[l] != 10u8,
    ensures
        spec_first_line(s) == (s.take(j), j + 1),
    decreases j,
{
    if j == 0 {
        assert(s.take(0) =~= Seq::<u8>::empty());
    } else {
        lemma_first_line_found(s.drop_first(), j - 1);
        assert(seq![s[0]] + s.drop_first().take(j - 1) =~= s.take(j));
    }
}

/// Without any LF the whole sequence is the first line.
pub proof fn lemma_first_line_none(s: Seq<u8>)
    requires
        forall|l: int| 0 <= l < s.len() ==> s[l] != 10u8,
    ensures
        spec_first_line(s) == (s, s.len() as int),
    decreases s.len(),
{
    if s.len() > 0 {
        lemma_first_line_none(s.drop_first());
        assert(seq![s[0]] + s.drop_first() =~= s);
    }
}

/// Index of the first `": "` in a line, if any.
pub open spec fn spec_find_colon_space(s: Seq<char>) -> Option<int>
    decreases s.len(),
{
    if s.len() < 2 {
        None
    } else if s[0] == ':' && s[1] == ' ' {
        Some(0int)
    } else {
        match spec_find_colon_space(s.drop_first()) {
            Some(i) => Some(i + 1),
            None => None,
        }
    }
}

/// What the first `": "` index satisfies.
pub proof fn lemma_find_colon_space_props(s: Seq<char>)
    ensures
        spec_find_colon_space(s) matches Some(i) ==> 0 <= i && i + 1 < s.len() && s[i] == ':'
            && s[i + 1] == ' ' && forall|j: int| 0 <= j < i ==> !(#[trigger] s[j] == ':' && s[j + 1] == ' '),
        spec_find_colon_space(s) is None ==> forall|j: int|
            0 <= j && j + 1 < s.len() ==> !(#[trigger] s[j] == ':' && s[j + 1] == ' '),
    decreases s.len(),
{
    if s.len() < 2 {
    } else if s[0] == ':' && s[1] == ' ' {
    } else {
        let d = s.drop_first();
        lemma_find_colon_space_props(d);
        match spec_find_colon_space(d) {
            Some(i0) => {
                assert(d[i0] == s[i0 + 1]);
                assert(d[i0 + 1] == s[i0 + 2]);
                assert forall|j: int| 0 <= j < i0 + 1 implies !(#[trigger] s[j] == ':' && s[j
                    + 1] == ' ') by {
                    if j > 0 {
                        assert(d[j - 1] == s[j]);
                        assert(d[j] == s[j + 1]);
                    }
                }
            },
            None => {
                assert forall|j: int| 0 <= j && j + 1 < s.len() implies !(#[trigger] s[j] == ':'
                    && s[j + 1] == ' ') by {
                    if j > 0 {
                        assert(d[j - 1] == s[j]);
                        assert(d[j] == s[j + 1]);
                    }
                }
            },
        }
    }
}

/// A `": "` at `i` after a clean prefix is the first occurrence.
pub proof fn lemma_find_colon_space_first(s: Seq<char>, i: int)
    requires
        0 <= i,
        i + 1 < s.len(),
        s[i] == ':',
        s[i + 1] == ' ',
        forall|j: int| 0 <= j < i ==> !(#[trigger] s[j] == ':' && s[j + 1] == ' '),
    ensures
        spec_find_colon_space(s) == Some(i),
    decreases i,
{
    if i > 0 {
        lemma_find_colon_space_first(s.drop_first(), i - 1);
    }
}

/// Finds the first `": "` in `s`.
fn find_colon_space(s: &str) -> (r: Option<usize>)
    ensures
        r matches Some(i) ==> spec_find_colon_space(s@) == Some(i as int),
        r is None ==> spec_find_colon_space(s@) is None,
{
    let n = s.unicode_len();
    if n < 2 {
        return None;
    }
    let mut i: usize = 0;
    while i + 1 < n
        invariant
            i + 1 <= n,
            n == s@.len(),
            n >= 2,
            forall|j: int| 0 <= j < i ==> !(#[trigger] s@[j] == ':' && s@[j + 1] == ' '),
        decreases n - i,
    {
        if s.get_char(i) == ':' && s.get_char(i + 1) == ' ' {
            proof {
                lemma_find_colon_space_first(s@, i as int);
            }
            return Some(i);
        }
        i = i + 1;
    }
    proof {
        lemma_find_colon_space_props(s@);
    }
    None
}

/// One header line's (name, value): split at the first `": "`; rejected
/// when the separator is missing or either side is empty.
pub open spec fn spec_header_pair(line: Seq<char>) -> Option<(Seq<char>, Seq<char>)> {
    match spec_find_colon_space(line) {
        None => None,
        Some(i) => {
            let k = line.take(i);
            let v = line.skip(i + 2);
            if k.len() == 0 || v.len() == 0 {
                None
            } else {
                Some((k, v))
            }
        },
    }
}

/// What a header section denotes, given the bindings made so far: the
/// final name-to-value map (a later line overrides an earlier one) and how
/// many bytes the section consumes, blank line included; or the first
/// failure.  The section ends at a blank line or at the end of the input.
pub open spec fn spec_parse_headers_from(s: Seq<u8>, acc: Map<Seq<char>, Seq<char>>) -> Result<
    (Map<Seq<char>, Seq<char>>, int),
    ParseErrorModel,
>
    decreases s.len(),
    via spec_parse_headers_from_decreases
{
    let (lb, off) = spec_first_line(s);
    if !valid_utf8(lb) {
        Err(ParseErrorModel::InvalidEncoding)
    } else {
        let lc = spec_trim_crlf(decode_utf8(lb));
        if lc.len() == 0 {
            Ok((acc, off))
        } else {
            match spec_header_pair(lc) {
                None => Err(ParseErrorModel::HeaderError { line: lc }),
                Some(pair) => match spec_parse_headers_from(s.skip(off), acc.insert(
                    pair.0,
                    pair.1,
                )) {
                    Err(e) => Err(e),
                    Ok(p) => Ok((p.0, off + p.1)),
                },
            }
        }
    }
}

#[via_fn]
proof fn spec_parse_headers_from_decreases(s: Seq<u8>, acc: Map<Seq<char>, Seq<char>>) {
    lemma_first_line_bounds(s);
}

/// `spec_parse_headers_from` with its consumed count shifted by `d`.
pub open spec fn shift_consumed(
    r: Result<(Map<Seq<char>, Seq<char>>, int), ParseErrorModel>,
    d: int,
) -> Result<(Map<Seq<char>, Seq<char>>, int), ParseErrorModel> {
    match r {
        Ok(p) => Ok((p.0, p.1 + d)),
        Err(e) => Err(e),
    }
}

/// The declared body length: the `Content-Length` value, `"0"` when the
/// header is absent.
pub open spec fn spec_content_length(hm: Map<Seq<char>, Seq<char>>) -> Seq<char> {
    if hm.contains_key("Content-Length"@) {
        hm["Content-Length"@]
    } else {
        "0"@
    }
}

/// The mathematical shape of a parsed request.
pub ghost struct RequestModel {
    pub start_line: StartLineModel,
    pub headers: Map<Seq<char>, Seq<char>>,
    pub body: Seq<char>,
}

/// What a whole byte stream denotes: a request, or its first failure.
pub open spec fn spec_parse_request(s: Seq<u8>) -> Result<RequestModel, ParseErrorModel> {
    let (lb, off) = spec_first_line(s);
    if !valid_utf8(lb) {
        Err(ParseErrorModel::InvalidEncoding)
    } else {
        match spec_start_line(decode_utf8(lb)) {
            Err(e) => Err(e),
            Ok(slm) => match spec_parse_headers_from(
                s.skip(off),
                Map::<Seq<char>, Seq<char>>::empty(),
            ) {
                Err(e) => Err(e),
                Ok(hp) => {
                    let clv = spec_content_length(hp.0);
                    if !(is_dec_digits(clv) && dec_value(clv) <= usize::MAX) {
                        Err(ParseErrorModel::HeaderError { line: clv })
                    } else {
                        let body_bytes = s.skip(off + hp.1);
                        let cl = dec_value(clv) as int;
                        if cl > body_bytes.len() {
                            Err(ParseErrorModel::BodyTruncated)
                        } else if !valid_utf8(body_bytes.take(cl)) {
                            Err(ParseErrorModel::InvalidEncoding)
                        } else {
                            Ok(
                                RequestModel {
                                    start_line: slm,
                                    headers: hp.0,
                                    body: decode_utf8(body_bytes.take(cl)),
                                },
                            )
                        }
                    }
                },
            },
        }
    }
}

/// Law: a parsed request is never partial — its body's byte length equals
/// exactly the declared `Content-Length`.  Too few available bytes never
/// parse; they fail as truncated.
pub proof fn lemma_parsed_body_matches_content_length(s: Seq<u8>)
    requires
        spec_parse_request(s) is Ok,
    ensures
        ({
            let m = spec_parse_request(s)->Ok_0;
            vstd::utf8::encode_utf8(m.body).len() == dec_value(spec_content_length(m.headers))
        }),
{
    broadcast use vstd::utf8::decode_utf8_encode_utf8;

    let (lb, off) = spec_first_line(s);
    let hp = spec_parse_headers_from(s.skip(off), Map::<Seq<char>, Seq<char>>::empty())->Ok_0;
    let cl = dec_value(spec_content_length(hp.0)) as int;
    let taken = s.skip(off + hp.1).take(cl);
    assert(vstd::utf8::encode_utf8(decode_utf8(taken)) == taken);
    assert(taken.len() == cl);
}

/// A parsed request.
#[derive(Debug, Clone, PartialEq)]
pub struct HttpRequest {
    pub start_line: StartLine,
    pub headers: HttpHeaders,
    pub body: String,
}

/// Scans for the first LF at or after `pos`: the line's content ends at
/// the first offset returned and the rest begins at the second.
fn find_line_end(input: &[u8], pos: usize) -> (r: (usize, usize))
    requires
        pos <= input@.len(),
    ensures
        pos <= r.0 <= r.1 <= input@.len(),
        spec_first_line(input@.skip(pos as int)) == (
            input@.subrange(pos as int, r.0 as int),
            r.1 - pos as int,
        ),
{
    let n = input.len();
    let mut i: usize = pos;
    let ghost s = input@.skip(pos as int);
    while i < n
        invariant
            pos <= i <= n,
            n == input@.len(),
            s == input@.skip(pos as int),
            forall|l: int| pos <= l < i ==> input@[l] != 10u8,
        decreases n - i,
    {
        if input[i] == 10u8 {
            proof {
                assert forall|l: int| 0 <= l < i - pos implies s[l] != 10u8 by {
                    assert(s[l] == input@[pos + l]);
                }
                assert(s[i - pos] == input@[i as int]);
                lemma_first_line_found(s, i - pos);
                assert(s.take(i - pos) =~= input@.subrange(pos as int, i as int));
            }
            return (i, i + 1);
        }
        i = i + 1;
    }
    proof {
        assert forall|l: int| 0 <= l < s.len() implies s[l] != 10u8 by {
            assert(s[l] == input@[pos + l]);
        }
        lemma_first_line_none(s);
        assert(s =~= input@.subrange(pos as int, n as int));
    }
    (n, n)
}

impl HttpRequest {
    /// Splits a header section into its name-to-value map and reports how
    /// many bytes it consumed, exactly as `spec_parse_headers_from`
    /// describes on an initially empty map.
    pub fn parse_headers(input: &[u8]) -> (r: Result<(HttpHeaders, usize), ParseError>)
        ensures
            r matches Ok(p) ==> spec_parse_headers_from(input@, Map::<Seq<char>, Seq<char>>::empty())
                == Ok::<(Map<Seq<char>, Seq<char>>, int), ParseErrorModel>((p.0@, p.1 as int))
                && p.0.wf() && p.1 <= input@.len(),
            r matches Err(e) ==> spec_parse_headers_from(
                input@,
                Map::<Seq<char>, Seq<char>>::empty(),
            ) == Err::<(Map<Seq<char>, Seq<char>>, int), ParseErrorModel>(e@),
    {
        let mut headers = HttpHeaders::new();
        let mut pos: usize = 0;
        let n = input.len();
        let ghost full = spec_parse_headers_from(input@, Map::<Seq<char>, Seq<char>>::empty());
        proof {
            assert(input@.skip(0) =~= input@);
            assert(full == shift_consumed(
                spec_parse_headers_from(input@.skip(0), headers@),
                0,
            ));
        }
        loop
            invariant
                pos <= n,
                n == input@.len(),
                headers.wf(),
                full == spec_parse_headers_from(input@, Map::<Seq<char>, Seq<char>>::empty()),
                full == shift_consumed(
                    spec_parse_headers_from(input@.skip(pos as int), headers@),
                    pos as int,
                ),
            decreases n - pos,
        {
            let ghost s = input@.skip(pos as int);
            let (content_end, line_end) = find_line_end(input, pos);
            proof {
                assert(spec_first_line(s).0 == input@.subrange(
                    pos as int,
                    content_end as int,
                ));
                assert(spec_first_line(s).1 == line_end - pos);
            }
            let line_slice = slice_to_vec(&input[pos..content_end]);
            match string_from_utf8(line_slice) {
                None => {
                    return Err(ParseError::InvalidEncoding);
                },
                Some(ls) => {
                    let lc = trim_crlf(ls.as_str());
                    if lc.as_str().is_empty() {
                        return Ok((headers, line_end));
                    }
                    match find_colon_space(lc.as_str()) {
                        None => {
                            proof {
                                assert(spec_header_pair(lc@) is None);
                            }
                            return Err(ParseError::HeaderError { line: lc });
                        },
                        Some(ci) => {
                            proof {
                                lemma_find_colon_space_props(lc@);
                            }
                            let m = lc.as_str().unicode_len();
                            if ci == 0 || ci + 2 == m {
                                proof {
                                    assert(lc@.take(ci as int).len() == 0 || lc@.skip(
                                        ci as int + 2,
                                    ).len() == 0);
                                    assert(spec_header_pair(lc@) is None);
                                }
                                return Err(ParseError::HeaderError { line: lc });
                            }
                            let key = lc.as_str().substring_char(0, ci);
                            let value = lc.as_str().substring_char(ci + 2, m);
                            proof {
                                assert(key@ =~= lc@.take(ci as int));
                                assert(value@ =~= lc@.skip(ci as int + 2));
                                assert(spec_header_pair(lc@) == Some((key@, value@)));
                            }
                            headers.insert(key.to_owned(), value.to_owned());
                            proof {
                                assert(s.skip(line_end - pos) =~= input@.skip(line_end as int));
                            }
                            pos = line_end;
                        },
                    }
                },
            }
        }
    }

    /// Takes exactly `content_length` bytes as the UTF-8 body: truncated
    /// input or an invalid encoding is a typed failure.
    pub fn parse_body(input: &[u8], content_length: usize) -> (r: Result<String, ParseError>)
        ensures
            r is Ok <==> content_length <= input@.len() && valid_utf8(
                input@.take(content_length as int),
            ),
            r matches Ok(b) ==> b@ == decode_utf8(input@.take(content_length as int)),
            r matches Err(e) ==> e@ == (if content_length > input@.len() {
                ParseErrorModel::BodyTruncated
            } else {
                ParseErrorModel::InvalidEncoding
            }),
    {
        if content_length > input.len() {
            return Err(ParseError::BodyTruncated);
        }
        let body_bytes = slice_to_vec(&input[0..content_length]);
        proof {
            assert(body_bytes@ =~= input@.take(content_length as int));
        }
        match string_from_utf8(body_bytes) {
            None => Err(ParseError::InvalidEncoding),
            Some(b) => Ok(b),
        }
    }

    /// Parses a whole request from raw bytes, exactly as
    /// `spec_parse_request` describes.
    pub fn new(input: &[u8]) -> (r: Result<Self, ParseError>)
        ensures
            r is Ok <==> spec_parse_request(input@) is Ok,
            r matches Ok(q) ==> spec_parse_request(input@) == Ok::<RequestModel, ParseErrorModel>(
                RequestModel {
                    start_line: StartLineModel {
                        method: q.start_line.request_type,
                        uri: q.start_line.request_target.uri@,
                        params: q.start_line.request_target.request_params@,
                        version: q.start_line.http_version,
                    },
                    headers: q.headers@,
                    body: q.body@,
                },
            ) && q.headers.wf() && q.start_line.request_target.request_params.wf(),
            r matches Err(e) ==> spec_parse_request(input@) == Err::<
                RequestModel,
                ParseErrorModel,
            >(e@),
    {
        let n = input.len();
        proof {
            assert(input@.skip(0) =~= input@);
        }
        let (content_end, line_end) = find_line_end(input, 0);
        proof {
            assert(spec_first_line(input@).0 == input@.subrange(0, content_end as int));
            assert(spec_first_line(input@).1 == line_end as int);
        }
        let line_slice = slice_to_vec(&input[0..content_end]);
        let ls = match string_from_utf8(line_slice) {
            None => {
                return Err(ParseError::InvalidEncoding);
            },
            Some(ls) => ls,
        };
        let start_line = match StartLine::new(ls.as_str()) {
            Ok(sl) => sl,
            Err(e) => {
                return Err(e);
            },
        };
        let head_rest = &input[line_end..n];
        proof {
            assert(head_rest@ =~= input@.skip(line_end as int));
        }
        let (headers, header_len) = match Self::parse_headers(head_rest) {
            Ok(p) => p,
            Err(e) => {
                return Err(e);
            },
        };
        let cl = match crate::http_request::content_length_of(&headers) {
            Ok(v) => v,
            Err(e) => {
                return Err(e);
            },
        };
        let body_start = line_end + header_len;
        let body_rest = &input[body_start..n];
        proof {
            assert(body_rest@ =~= input@.skip(body_start as int));
            assert(input@.skip(line_end as int).skip(header_len as int) =~= input@.skip(
                body_start as int,
            ));
        }
        let body = match Self::parse_body(body_rest, cl) {
            Ok(b) => b,
            Err(e) => {
                return Err(e);
            },
        };
        Ok(HttpRequest { start_line, headers, body })
    }
}

/// Reads the declared body length out of a header map: the parsed
/// `Content-Length` value, zero when the header is absent; a value that is
/// not a number fitting `usize` is a header failure naming the value.
pub fn content_length_of(headers: &HttpHeaders) -> (r: Result<usize, ParseError>)
    requires
        headers.wf(),
    ensures
        r is Ok <==> is_dec_digits(spec_content_length(headers@)) && dec_value(
            spec_content_length(headers@),
        ) <= usize::MAX,
        r matches Ok(v) ==> v == dec_value(spec_content_length(headers@)),
        r matches Err(e) ==> e@ == (ParseErrorModel::HeaderError {
            line: spec_content_length(headers@),
        }),
{
    match headers.get("Content-Length") {
        Some(v) => {
            match parse_usize(v.as_str()) {
                Some(cl) => Ok(cl),
                None => Err(ParseError::HeaderError { line: v.clone() }),
            }
        },
        None => {
            proof {
                reveal_strlit("0");
                assert("0"@ =~= seq!['0']);
                assert(is_dec_digits("0"@));
                assert("0"@.drop_last() =~= Seq::<char>::empty());
                assert("0"@.last() == '0');
                assert(crate::text::digit_value('0') == 0);
                assert(dec_value("0"@.drop_last()) == 0);
                assert(dec_value("0"@) == 0);
            }
            Ok(0)
        },
    }
}

} // verus!
