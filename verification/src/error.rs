use vstd::prelude::*;

verus! {

/// Everything that can go wrong between an address string and a parsed
/// response. The address parser rejects a bad scheme, a missing host or a
/// malformed port; the transport reports its failures under `Network`; the
/// response parser rejects empty or malformed response text.
#[derive(Debug, PartialEq, Eq)]
pub enum Error {
    /// The address does not begin with the one supported scheme prefix.
    UnsupportedScheme,
    /// The authority part of the address names no host.
    MissingHost,
    /// The text after `:` in the authority part is empty or not a number.
    InvalidPort,
    /// Resolution, connection or I/O failed in the transport; the string
    /// carries the transport's diagnostic.
    Network(String),
    /// The response held no text at all.
    EmptyResponse,
    /// The status line has fewer than two whitespace-separated tokens.
    MalformedStatusLine,
    /// The second token of the status line is not a number between 100 and 599.
    InvalidStatusCode,
}

/// The description that `Error::message` returns for each error.
pub open spec fn error_message(e: Error) -> Seq<char> {
    match e {
        Error::UnsupportedScheme => "Only HTTP schema is supported."@,
        Error::MissingHost => "No host is given."@,
        Error::InvalidPort => "The port is not a number."@,
        Error::Network(reason) => reason@,
        Error::EmptyResponse => "The response is empty."@,
        Error::MalformedStatusLine => "The status line is malformed."@,
        Error::InvalidStatusCode => "The status code is not a number in range."@,
    }
}

impl Error {
    /// Describes the error in words, for whatever front end reports it.
    pub fn message(&self) -> (r: String)
        ensures
            r@ == error_message(*self),
    {
        match self {
            Error::UnsupportedScheme => String::from_str("Only HTTP schema is supported."),
            Error::MissingHost => String::from_str("No host is given."),
            Error::InvalidPort => String::from_str("The port is not a number."),
            Error::Network(reason) => reason.clone(),
            Error::EmptyResponse => String::from_str("The response is empty."),
            Error::MalformedStatusLine => String::from_str("The status line is malformed."),
            Error::InvalidStatusCode => String::from_str("The status code is not a number in range."),
        }
    }
}

impl Clone for Error {
    fn clone(&self) -> (r: Self)
        ensures
            r == *self,
    {
        match self {
            Error::UnsupportedScheme => Error::UnsupportedScheme,
            Error::MissingHost => Error::MissingHost,
            Error::InvalidPort => Error::InvalidPort,
            Error::Network(reason) => Error::Network(reason.clone()),
            Error::EmptyResponse => Error::EmptyResponse,
            Error::MalformedStatusLine => Error::MalformedStatusLine,
            Error::InvalidStatusCode => Error::InvalidStatusCode,
        }
    }
}

} // verus!
