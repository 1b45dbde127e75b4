//! The response status line: `<version> <code><SP><reason>\r\n`.

use vstd::prelude::*;
use vstd::utf8::encode_utf8;
use crate::http_version::{spec_version_chars, HttpVersion};
use crate::status_code::{spec_status_chars, StatusCode};

verus! {

/// The first line of a response.
#[derive(Debug, Clone, Copy, PartialEq, Eq, Structural)]
pub struct StatusLine {
    pub protocol: HttpVersion,
    pub status_code: StatusCode,
}

/// The status line's characters, without the trailing CRLF.
pub open spec fn spec_status_line_chars(l: StatusLine) -> Seq<char> {
    spec_version_chars(l.protocol) + " "@ + spec_status_chars(l.status_code)
}

/// The status line's wire bytes, CRLF included.
pub open spec fn spec_status_line_bytes(l: StatusLine) -> Seq<u8> {
    encode_utf8(spec_status_line_chars(l) + "\r\n"@)
}

impl StatusLine {
    /// Renders `<version> <code><SP><reason>`, without the line break.
    pub fn to_string(&self) -> (r: String)
        ensures
            r@ == spec_status_line_chars(*self),
    {
        let mut s = self.protocol.to_string();
        s.append(" ");
        let code = self.status_code.to_string();
        s.append(code.as_str());
        s
    }

    /// The status line's wire bytes, CRLF included.
    pub fn to_bytes(&self) -> (r: Vec<u8>)
        ensures
            r@ == spec_status_line_bytes(*self),
    {
        let mut s = self.to_string();
        s.append("\r\n");
        s.as_str().as_bytes_vec()
    }
}

impl Default for StatusLine {
    /// The default status line is `HTTP/1.1 200 OK`.
    fn default() -> (r: Self)
        ensures
            r == (StatusLine { protocol: HttpVersion::HTTP1_1, status_code: StatusCode::Code200 }),
    {
        StatusLine { protocol: HttpVersion::HTTP1_1, status_code: StatusCode::Code200 }
    }
}

} // verus!
