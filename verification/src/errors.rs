//! Typed parse failures.  Every failure is local to one connection: the
//! parser returns one of these instead of aborting.

use vstd::prelude::*;
use crate::text::{dec_chars, usize_to_string};

verus! {

/// The mathematical shape of a parse failure.
pub ghost enum ParseErrorModel {
    /// The start line did not split into exactly three tokens, or its
    /// target or version token was malformed; carries the trimmed line and
    /// its byte length.
    StartLineError { line: Seq<char>, length: nat },
    /// A header line without a well-formed `name: value` shape.
    HeaderError { line: Seq<char> },
    /// The stream ended before `Content-Length` bytes of body arrived.
    BodyTruncated,
    /// A byte sequence that is not valid UTF-8.
    InvalidEncoding,
    /// A method token that is not a known verb.
    RequestType,
}

/// A parse failure, as the parser reports it.
#[derive(Debug, Clone, PartialEq)]
pub enum ParseError {
    StartLineError { line: String, length: usize },
    HeaderError { line: String },
    BodyTruncated,
    InvalidEncoding,
    RequestType,
}

impl View for ParseError {
    type V = ParseErrorModel;

    open spec fn view(&self) -> ParseErrorModel {
        match self {
            ParseError::StartLineError { line, length } => ParseErrorModel::StartLineError {
                line: line@,
                length: *length as nat,
            },
            ParseError::HeaderError { line } => ParseErrorModel::HeaderError { line: line@ },
            ParseError::BodyTruncated => ParseErrorModel::BodyTruncated,
            ParseError::InvalidEncoding => ParseErrorModel::InvalidEncoding,
            ParseError::RequestType => ParseErrorModel::RequestType,
        }
    }
}

/// The human-readable description of a failure.
pub open spec fn spec_message(m: ParseErrorModel) -> Seq<char> {
    match m {
        ParseErrorModel::StartLineError { line, length } => "Could not parse start line "@ + line
            + " of length "@ + dec_chars(length),
        ParseErrorModel::HeaderError { line } => "Could not parse header"@,
        ParseErrorModel::BodyTruncated => "Could not read entire body"@,
        ParseErrorModel::InvalidEncoding => "Could not transform body to utf8"@,
        ParseErrorModel::RequestType => "Could not parse request type"@,
    }
}

impl ParseError {
    /// Renders the failure exactly as `spec_message` describes.
    pub fn message(&self) -> (r: String)
        ensures
            r@ == spec_message(self@),
    {
        match self {
            ParseError::StartLineError { line, length } => {
                let mut s = String::from_str("Could not parse start line ");
                s.append(line.as_str());
                s.append(" of length ");
                let d = usize_to_string(*length);
                s.append(d.as_str());
                proof {
                    assert(s@ =~= spec_message(self@));
                }
                s
            },
            ParseError::HeaderError { line: _ } => String::from_str("Could not parse header"),
            ParseError::BodyTruncated => String::from_str("Could not read entire body"),
            ParseError::InvalidEncoding => String::from_str("Could not transform body to utf8"),
            ParseError::RequestType => String::from_str("Could not parse request type"),
        }
    }
}

} // verus!
