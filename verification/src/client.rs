//! The two operations, up to the point where bytes have to move: what to
//! connect to and what to send. Moving the bytes is the caller's part; the
//! text that comes back goes to `decode_response`.

use crate::error::HttpError;
use crate::request::{encode_get, encode_post, get_request, post_request};
use crate::url::{check_scheme, has_scheme, resolve, url_target};
use vstd::prelude::*;
use vstd::string::*;

verus! {

/// One request ready to be sent: the peer and the complete request text.
#[derive(Debug, Clone, PartialEq, Eq)]
pub struct Exchange {
    pub host: String,
    pub port: u16,
    pub request: String,
}

/// An `Exchange` as plain mathematical values.
pub ghost struct ExchangeView {
    pub host: Seq<char>,
    pub port: u16,
    pub request: Seq<char>,
}

impl View for Exchange {
    type V = ExchangeView;

    open spec fn view(&self) -> ExchangeView {
        ExchangeView { host: self.host@, port: self.port, request: self.request@ }
    }
}

/// What posting `data` to `url` sends, and where. The scheme prefix is not
/// demanded here: a URL without it is taken apart as it stands.
pub open spec fn post_exchange(url: Seq<char>, data: Seq<char>) -> Result<ExchangeView, HttpError> {
    match url_target(url) {
        Some(target) => Ok(
            ExchangeView {
                host: target.host,
                port: target.port,
                request: post_request(target.path, target.host, data),
            },
        ),
        None => Err(HttpError::Parse),
    }
}

/// What fetching `url` sends, and where. A URL that does not begin with
/// `http://` is refused before anything else is looked at.
pub open spec fn fetch_exchange(url: Seq<char>) -> Result<ExchangeView, HttpError> {
    if !has_scheme(url) {
        Err(HttpError::InvalidUrl)
    } else {
        match url_target(url) {
            Some(target) => Ok(
                ExchangeView {
                    host: target.host,
                    port: target.port,
                    request: get_request(target.path, target.host),
                },
            ),
            None => Err(HttpError::Parse),
        }
    }
}

/// Prepares the GET exchange for `url`.
pub fn plan_fetch(url: &str) -> (r: Result<Exchange, HttpError>)
    ensures
        match fetch_exchange(url@) {
            Ok(exchange) => r matches Ok(found) && found@ == exchange,
            Err(e) => r matches Err(found) && found == e,
        },
        !has_scheme(url@) <==> r matches Err(HttpError::InvalidUrl),
{
    if !check_scheme(url) {
        return Err(HttpError::InvalidUrl);
    }
    match resolve(url) {
        Ok(target) => {
            let request = encode_get(target.path.as_str(), target.host.as_str());
            Ok(Exchange { host: target.host, port: target.port, request })
        },
        Err(e) => Err(e),
    }
}

/// Prepares the POST exchange that carries `data` to `url`.
pub fn plan_post(url: &str, data: &str) -> (r: Result<Exchange, HttpError>)
    ensures
        match post_exchange(url@, data@) {
            Ok(exchange) => r matches Ok(found) && found@ == exchange,
            Err(e) => r matches Err(found) && found == e,
        },
{
    match resolve(url) {
        Ok(target) => {
            let request = encode_post(target.path.as_str(), target.host.as_str(), data);
            Ok(Exchange { host: target.host, port: target.port, request })
        },
        Err(e) => Err(e),
    }
}

} // verus!
