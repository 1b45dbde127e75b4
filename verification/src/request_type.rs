//! The HTTP request method: a closed set of verbs, parsed from the first
//! token of the start line.

use vstd::prelude::*;
use crate::text::str_eq;

verus! {

/// An HTTP request verb.
#[derive(Debug, Clone, Copy, PartialEq, Eq, Structural, Hash)]
pub enum RequestType {
    GET,
    HEAD,
    POST,
    PUT,
    DELETE,
    CONNECT,
    OPTIONS,
    TRACE,
    PATCH,
}

/// The failure returned when a method token is not one of the known verbs.
#[derive(Debug, Clone, Copy, PartialEq, Eq, Structural)]
pub struct RequestTypeError;

/// The verb whose literal spelling is `s`, if any.
pub open spec fn spec_method(s: Seq<char>) -> Option<RequestType> {
    if s == "GET"@ {
        Some(RequestType::GET)
    } else if s == "HEAD"@ {
        Some(RequestType::HEAD)
    } else if s == "POST"@ {
        Some(RequestType::POST)
    } else if s == "PUT"@ {
        Some(RequestType::PUT)
    } else if s == "DELETE"@ {
        Some(RequestType::DELETE)
    } else if s == "CONNECT"@ {
        Some(RequestType::CONNECT)
    } else if s == "OPTIONS"@ {
        Some(RequestType::OPTIONS)
    } else if s == "TRACE"@ {
        Some(RequestType::TRACE)
    } else if s == "PATCH"@ {
        Some(RequestType::PATCH)
    } else {
        None
    }
}

impl RequestType {
    /// Parses a method token: `Ok` exactly on the nine known verbs,
    /// `Err(RequestTypeError)` on every other string.
    pub fn from_string(s: &String) -> (r: Result<Self, RequestTypeError>)
        ensures
            r matches Ok(m) ==> spec_method(s@) == Some(m),
            r is Err <==> spec_method(s@) is None,
    {
        Self::from_str(s.as_str())
    }

    /// Parses a method token given as a string slice; same contract as
    /// `from_string`.
    pub fn from_str(s: &str) -> (r: Result<Self, RequestTypeError>)
        ensures
            r matches Ok(m) ==> spec_method(s@) == Some(m),
            r is Err <==> spec_method(s@) is None,
    {
        if str_eq(s, "GET") {
            Ok(RequestType::GET)
        } else if str_eq(s, "HEAD") {
            Ok(RequestType::HEAD)
        } else if str_eq(s, "POST") {
            Ok(RequestType::POST)
        } else if str_eq(s, "PUT") {
            Ok(RequestType::PUT)
        } else if str_eq(s, "DELETE") {
            Ok(RequestType::DELETE)
        } else if str_eq(s, "CONNECT") {
            Ok(RequestType::CONNECT)
        } else if str_eq(s, "OPTIONS") {
            Ok(RequestType::OPTIONS)
        } else if str_eq(s, "TRACE") {
            Ok(RequestType::TRACE)
        } else if str_eq(s, "PATCH") {
            Ok(RequestType::PATCH)
        } else {
            Err(RequestTypeError)
        }
    }
}

impl RequestTypeError {
    /// The human-readable description of the failure.
    pub fn message(&self) -> (r: String)
        ensures
            r@ == "Could not parse request type"@,
    {
        String::from_str("Could not parse request type")
    }
}

} // verus!
