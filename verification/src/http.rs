//! The request the simple HTTP client sends.

use vstd::prelude::*;
use vstd::string::*;

verus! {

/// The request line and headers of a `GET /` for `host`.
pub open spec fn spec_get_request(host: Seq<char>) -> Seq<char> {
    "GET / HTTP/1.1\r\nHost: "@ + host + "\r\nAccept: */*\r\n\r\n"@
}

/// Builds `GET / HTTP/1.1`, a `Host` header for `host` and an `Accept: */*`
/// header, each line ended by CR LF, then the empty line.
pub fn http_get_request(host: &str) -> (req: String)
    ensures
        req@ == spec_get_request(host@),
{
    String::from_str("GET / HTTP/1.1\r\nHost: ").concat(host).concat("\r\nAccept: */*\r\n\r\n")
}

} // verus!
