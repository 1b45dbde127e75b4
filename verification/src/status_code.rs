//! The response status: a closed set of codes, each with its reason phrase.

use vstd::prelude::*;

verus! {

/// A response status code.
#[derive(Debug, Clone, Copy, PartialEq, Eq, Structural)]
pub enum StatusCode {
    Code200,
    Code404,
}

/// The wire spelling of a status: code, space, reason phrase.
pub open spec fn spec_status_chars(c: StatusCode) -> Seq<char> {
    match c {
        StatusCode::Code200 => "200 OK"@,
        StatusCode::Code404 => "404 Not Found"@,
    }
}

impl StatusCode {
    /// Renders the status exactly as it appears in the status line.
    pub fn to_string(&self) -> (r: String)
        ensures
            r@ == spec_status_chars(*self),
    {
        match self {
            StatusCode::Code200 => String::from_str("200 OK"),
            StatusCode::Code404 => String::from_str("404 Not Found"),
        }
    }

    /// The status rendering as raw bytes.
    pub fn to_bytes(&self) -> (r: Vec<u8>)
        ensures
            r@ == vstd::utf8::encode_utf8(spec_status_chars(*self)),
    {
        let s = self.to_string();
        s.as_str().as_bytes_vec()
    }
}

impl Default for StatusCode {
    /// The default status is 200 OK.
    fn default() -> (r: Self)
        ensures
            r == StatusCode::Code200,
    {
        StatusCode::Code200
    }
}

} // verus!
