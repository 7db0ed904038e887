//! The ways a request can fail.

use vstd::prelude::*;
use vstd::string::*;

verus! {

/// Why a request produced no body.
///
/// The three transport variants carry the operating system's description of
/// the failure; `HttpStatus` carries the status line that was received.
#[derive(Debug, Clone, PartialEq, Eq)]
pub enum HttpError {
    /// The URL does not begin with `http://`.
    InvalidUrl,
    /// The text after the colon of the authority is not a port number.
    Parse,
    /// No connection could be opened.
    Connection(String),
    /// The request could not be written.
    Write(String),
    /// The response could not be read.
    Read(String),
    /// The response's status line does not announce success.
    HttpStatus(String),
}

impl HttpError {
    /// The text shown to the caller for this failure.
    pub open spec fn text(self) -> Seq<char> {
        match self {
            HttpError::InvalidUrl => "Invalid URL"@,
            HttpError::Parse => "Invalid port"@,
            HttpError::Connection(reason) => reason@,
            HttpError::Write(reason) => reason@,
            HttpError::Read(reason) => reason@,
            HttpError::HttpStatus(line) => "HTTP error: "@ + line@,
        }
    }

    /// Flattens the failure to the single string that crosses the boundary to
    /// the caller.
    pub fn message(&self) -> (r: String)
        ensures
            r@ == self.text(),
    {
        match self {
            HttpError::InvalidUrl => "Invalid URL".to_owned(),
            HttpError::Parse => "Invalid port".to_owned(),
            HttpError::Connection(reason) => reason.clone(),
            HttpError::Write(reason) => reason.clone(),
            HttpError::Read(reason) => reason.clone(),
            HttpError::HttpStatus(line) => {
                let mut r = "HTTP error: ".to_owned();
                r.append(line.as_str());
                r
            },
        }
    }
}

} // verus!
