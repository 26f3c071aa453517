//! Network front-end of a minimal browser engine: an address parser that
//! decomposes `http://host:port/path?query` into its fields, a request
//! builder that lays out the exact bytes of a `GET` request, and a response
//! parser that decomposes raw response text into status line, headers and
//! body. The transport itself (resolution, sockets, I/O) is an external
//! collaborator and lives outside this crate.

pub mod client;
pub mod error;
pub mod http;
pub mod text;
pub mod url;

pub use client::build_request;
pub use client::HttpClient;
pub use error::Error;
pub use http::Header;
pub use http::HttpResponse;
pub use url::Url;
