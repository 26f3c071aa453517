//! The request builder and the client shell around it. Building the
//! request is pure and verified here; resolving the host, connecting and
//! moving bytes are the transport's work and stay outside this crate.

use vstd::prelude::*;

verus! {

/// The exact request text sent for `host` and `path`: the request line
/// `GET /path HTTP/1.1`, then the `Host`, `Accept` and `Connection`
/// header lines, then the blank terminator line. Every line ends with
/// carriage return and line feed, as the wire standard asks; the search
/// part of the address is deliberately not appended.
pub open spec fn request_text(host: Seq<char>, path: Seq<char>) -> Seq<char> {
    "GET /"@ + path + " HTTP/1.1\r\n"@ + "Host: "@ + host + "\r\n"@ + "Accept: text/html\r\n"@
        + "Connection: close\r\n"@ + "\r\n"@
}

/// Lays out the bytes of the one request this client sends.
pub fn build_request(host: &str, path: &str) -> (r: String)
    ensures
        r@ == request_text(host@, path@),
{
    let mut req = String::from_str("GET /");
    req.append(path);
    req.append(" HTTP/1.1\r\n");
    req.append("Host: ");
    req.append(host);
    req.append("\r\n");
    req.append("Accept: text/html\r\n");
    req.append("Connection: close\r\n");
    req.append("\r\n");
    req
}

/// The client: it builds the request with `build_request`; sending it and
/// collecting the response bytes belong to the transport outside this
/// crate, which hands the bytes back to `HttpResponse::new`.
#[derive(Debug)]
pub struct HttpClient {}

impl HttpClient {
    /// A client; it holds no state, as each fetch owns its own data.
    pub fn new() -> (r: Self) {
        Self {  }
    }
}

impl Clone for HttpClient {
    /// A copy of the stateless client.
    fn clone(&self) -> (r: Self)
        ensures
            r == *self,
    {
        HttpClient {  }
    }
}

} // verus!
