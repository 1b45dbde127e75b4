//! The HTTP protocol version: HTTP/1.0 or HTTP/1.1, with HTTP/1.1 the
//! default.

use vstd::prelude::*;
use crate::text::str_eq;

verus! {

/// An HTTP protocol version.
#[derive(Debug, Clone, Copy, PartialEq, Eq, Structural)]
pub enum HttpVersion {
    HTTP1_0,
    HTTP1_1,
}

/// The literal spelling of a version.
pub open spec fn spec_version_chars(v: HttpVersion) -> Seq<char> {
    match v {
        HttpVersion::HTTP1_0 => "HTTP/1.0"@,
        HttpVersion::HTTP1_1 => "HTTP/1.1"@,
    }
}

/// The version whose literal spelling is `s`, if any.
pub open spec fn spec_version(s: Seq<char>) -> Option<HttpVersion> {
    if s == "HTTP/1.0"@ {
        Some(HttpVersion::HTTP1_0)
    } else if s == "HTTP/1.1"@ {
        Some(HttpVersion::HTTP1_1)
    } else {
        None
    }
}

impl HttpVersion {
    /// Renders the version exactly as it appears on the wire.
    pub fn to_string(&self) -> (r: String)
        ensures
            r@ == spec_version_chars(*self),
    {
        match self {
            HttpVersion::HTTP1_0 => String::from_str("HTTP/1.0"),
            HttpVersion::HTTP1_1 => String::from_str("HTTP/1.1"),
        }
    }

    /// Parses a version token: `Some` exactly on the two known spellings.
    pub fn from_string(s: &String) -> (r: Option<Self>)
        ensures
            r == spec_version(s@),
    {
        if str_eq(s.as_str(), "HTTP/1.0") {
            Some(HttpVersion::HTTP1_0)
        } else if str_eq(s.as_str(), "HTTP/1.1") {
            Some(HttpVersion::HTTP1_1)
        } else {
            None
        }
    }
}

impl Default for HttpVersion {
    /// The default version is HTTP/1.1.
    fn default() -> (r: Self)
        ensures
            r == HttpVersion::HTTP1_1,
    {
        HttpVersion::HTTP1_1
    }
}

} // verus!
