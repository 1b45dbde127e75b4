//! A minimal HTTP/1.1 server library.
//!
//! The library holds the wire-protocol engine: immutable wire types with
//! canonical byte encodings, a request parser that turns raw bytes into a
//! structured request or a typed failure, a response encoder, and an
//! exact-match routing table.  Listening, accepting and reading sockets is
//! left to the embedding program; the library works on plain byte buffers
//! and strings.

pub mod dispatch;
pub mod entries;
pub mod errors;
pub mod http_headers;
pub mod http_request;
pub mod http_response;
pub mod http_version;
pub mod request_target;
pub mod request_type;
pub mod router;
pub mod start_line;
pub mod status_code;
pub mod status_line;
pub mod text;

pub use dispatch::{dispatch_request, get_404, response_from_payload, RequestOutcome};
pub use errors::ParseError;
pub use http_headers::HttpHeaders;
pub use http_request::HttpRequest;
pub use http_response::HttpResponse;
pub use http_version::HttpVersion;
pub use request_target::{QueryParams, RequestTarget};
pub use request_type::{RequestType, RequestTypeError};
pub use router::RouteTable;
pub use start_line::StartLine;
pub use status_code::StatusCode;
pub use status_line::StatusLine;
pub use text::usize_to_string;

use vstd::prelude::*;

verus! {

/// A value that can serve as a handler's response payload.
pub trait Responder {
    /// The payload bytes the value stands for.
    spec fn payload(&self) -> Seq<u8>;

    /// Renders the value as its payload bytes.
    fn transform(&self) -> (r: Vec<u8>)
        ensures
            r@ == self.payload(),
    ;
}

impl Responder for Vec<u8> {
    /// A byte vector is its own payload.
    open spec fn payload(&self) -> Seq<u8> {
        self@
    }

    fn transform(&self) -> (r: Vec<u8>) {
        vstd::slice::slice_to_vec(self.as_slice())
    }
}

} // verus!
