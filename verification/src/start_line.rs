//! The request start line: `<METHOD> <target> <HTTP/1.x>`, split on single
//! spaces into exactly three tokens.

use vstd::prelude::*;
use vstd::utf8::encode_utf8;
use crate::errors::{ParseError, ParseErrorModel};
use crate::http_version::{spec_version, HttpVersion};
use crate::request_target::{spec_target, RequestTarget};
use crate::request_type::{spec_method, RequestType};
use crate::text::{spec_split_char, spec_trim_crlf, split_char, string_views, trim_crlf};

verus! {

/// The mathematical shape of a parsed start line.
pub ghost struct StartLineModel {
    pub method: RequestType,
    pub uri: Seq<char>,
    pub params: Map<Seq<char>, Seq<char>>,
    pub version: HttpVersion,
}

/// What a raw start line denotes.  The line is trimmed of CR/LF and split
/// at every space; anything but exactly three tokens, a malformed target,
/// or an unknown version is a start-line failure carrying the trimmed line
/// and its byte length; an unknown method is a method failure.
pub open spec fn spec_start_line(line: Seq<char>) -> Result<StartLineModel, ParseErrorModel> {
    let t = spec_trim_crlf(line);
    let parts = spec_split_char(t, ' ');
    let failure = ParseErrorModel::StartLineError { line: t, length: encode_utf8(t).len() };
    if parts.len() != 3 {
        Err(failure)
    } else {
        match spec_method(parts[0]) {
            None => Err(ParseErrorModel::RequestType),
            Some(m) => match spec_target(parts[1]) {
                None => Err(failure),
                Some(tg) => match spec_version(parts[2]) {
                    None => Err(failure),
                    Some(v) => Ok(
                        StartLineModel { method: m, uri: tg.0, params: tg.1, version: v },
                    ),
                },
            },
        }
    }
}

/// The first line of a request.
#[derive(Debug, Clone, PartialEq)]
pub struct StartLine {
    pub request_type: RequestType,
    pub request_target: RequestTarget,
    pub http_version: HttpVersion,
}

impl StartLine {
    /// Parses a raw start line, exactly as `spec_start_line` describes.
    pub fn new(line: &str) -> (r: Result<Self, ParseError>)
        ensures
            r is Ok <==> spec_start_line(line@) is Ok,
            r matches Ok(sl) ==> spec_start_line(line@) == Ok::<StartLineModel, ParseErrorModel>(
                StartLineModel {
                    method: sl.request_type,
                    uri: sl.request_target.uri@,
                    params: sl.request_target.request_params@,
                    version: sl.http_version,
                },
            ) && sl.request_target.request_params.wf(),
            r matches Err(e) ==> spec_start_line(line@) == Err::<
                StartLineModel,
                ParseErrorModel,
            >(e@),
    {
        let t = trim_crlf(line);
        let parts = split_char(t.as_str(), ' ');
        if parts.len() != 3 {
            let length = crate::text::byte_len(t.as_str());
            return Err(ParseError::StartLineError { line: t, length });
        }
        proof {
            assert(string_views(parts@)[0] == parts@[0]@);
            assert(string_views(parts@)[1] == parts@[1]@);
            assert(string_views(parts@)[2] == parts@[2]@);
        }
        let request_type = match RequestType::from_string(&parts[0]) {
            Ok(m) => m,
            Err(_) => {
                return Err(ParseError::RequestType);
            },
        };
        let request_target = match RequestTarget::new(&parts[1]) {
            Ok(tg) => tg,
            Err(_) => {
                let length = crate::text::byte_len(t.as_str());
                return Err(ParseError::StartLineError { line: t, length });
            },
        };
        let http_version = match HttpVersion::from_string(&parts[2]) {
            Some(v) => v,
            None => {
                let length = crate::text::byte_len(t.as_str());
                return Err(ParseError::StartLineError { line: t, length });
            },
        };
        Ok(StartLine { request_type, request_target, http_version })
    }
}

} // verus!
