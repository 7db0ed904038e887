//! Taking a URL apart: scheme prefix, authority, path, host and port.

use crate::error::HttpError;
use crate::number::{decimal, lemma_decimal_round_trip, parse_port, port_number};
use crate::text::{
    chars_of, find, first_occurrence, lemma_first_occurrence, lemma_first_occurrence_is,
    lemma_occurs_at_char, occurs_at, occurs_in, starts_with,
};
use vstd::prelude::*;
use vstd::string::*;

verus! {

/// The port used when the authority names none.
pub const DEFAULT_PORT: u16 = 80;

/// `url` begins with the scheme prefix `http://`, compared case-sensitively.
pub open spec fn has_scheme(url: Seq<char>) -> bool {
    "http://"@.is_prefix_of(url)
}

/// `url` without its scheme prefix: `http://` is removed from the front once,
/// if it stands there; a text that does not begin with it is left as it is.
pub open spec fn without_scheme(url: Seq<char>) -> Seq<char> {
    if has_scheme(url) {
        url.skip("http://"@.len() as int)
    } else {
        url
    }
}

/// The authority of `url`: what stands between the scheme prefix and the first
/// `/` after it, or everything after the prefix if no `/` follows.
pub open spec fn url_authority(url: Seq<char>) -> Seq<char> {
    let rest = without_scheme(url);
    match first_occurrence(rest, "/"@) {
        Some(i) => rest.take(i),
        None => rest,
    }
}

/// The path of `url`: from the first `/` after the scheme prefix to the end,
/// or `/` if there is none.
pub open spec fn url_path(url: Seq<char>) -> Seq<char> {
    let rest = without_scheme(url);
    match first_occurrence(rest, "/"@) {
        Some(i) => rest.skip(i),
        None => "/"@,
    }
}

/// The host of an authority: what stands before its first `:`, or all of it
/// if it has none.
pub open spec fn authority_host(authority: Seq<char>) -> Seq<char> {
    match first_occurrence(authority, ":"@) {
        Some(i) => authority.take(i),
        None => authority,
    }
}

/// The port of an authority: the number written after its first `:`, the
/// default if it has no `:`, and `None` if what follows the `:` is no port
/// number.
pub open spec fn authority_port(authority: Seq<char>) -> Option<u16> {
    match first_occurrence(authority, ":"@) {
        Some(i) => port_number(authority.skip(i + 1)),
        None => Some(DEFAULT_PORT),
    }
}

/// Where a request goes: the peer to connect to and the path to ask for.
#[derive(Debug, Clone, PartialEq, Eq)]
pub struct Target {
    pub host: String,
    pub port: u16,
    pub path: String,
}

/// A `Target` as plain mathematical values.
pub ghost struct TargetView {
    pub host: Seq<char>,
    pub port: u16,
    pub path: Seq<char>,
}

impl View for Target {
    type V = TargetView;

    open spec fn view(&self) -> TargetView {
        TargetView { host: self.host@, port: self.port, path: self.path@ }
    }
}

impl TargetView {
    /// The path is never empty and begins with `/`.
    pub open spec fn wf(self) -> bool {
        self.path.len() > 0 && self.path[0] == '/'
    }
}

/// The target that `url` names, if its port can be read.
pub open spec fn url_target(url: Seq<char>) -> Option<TargetView> {
    match authority_port(url_authority(url)) {
        Some(port) => Some(
            TargetView { host: authority_host(url_authority(url)), port, path: url_path(url) },
        ),
        None => None,
    }
}

/// The path of any URL is non-empty and begins with `/`.
pub proof fn lemma_path_begins_with_slash(url: Seq<char>)
    ensures
        url_path(url).len() > 0,
        url_path(url)[0] == '/',
{
    reveal_strlit("/");
    let rest = without_scheme(url);
    lemma_first_occurrence(rest, "/"@);
    match first_occurrence(rest, "/"@) {
        Some(i) => {
            assert("/"@ =~= seq!['/']);
            lemma_occurs_at_char(rest, '/', i);
        },
        None => {},
    }
}

/// In `front + [c] + back`, where `front` does not contain `c`, the first
/// occurrence of `c` is right after `front`.
proof fn lemma_first_separator(front: Seq<char>, c: char, back: Seq<char>)
    requires
        !front.contains(c),
    ensures
        first_occurrence(front + seq![c] + back, seq![c]) == Some(front.len() as int),
{
    let s = front + seq![c] + back;
    assert forall|j: int| 0 <= j < front.len() implies !occurs_at(s, seq![c], j) by {
        lemma_occurs_at_char(s, c, j);
        assert(s[j] == front[j]);
    }
    lemma_occurs_at_char(s, c, front.len() as int);
    lemma_first_occurrence_is(s, seq![c], front.len() as int);
}

/// A text that does not contain `c` has no first occurrence of it.
proof fn lemma_no_separator(s: Seq<char>, c: char)
    requires
        !s.contains(c),
    ensures
        first_occurrence(s, seq![c]) is None,
{
    assert forall|j: int| !occurs_at(s, seq![c], j) by {
        lemma_occurs_at_char(s, c, j);
    }
}

/// Decomposing `http://` + `host` + `/` + `rest` gives the authority `host`
/// and the path `/` + `rest`, whatever `rest` is, for every `host` without a
/// `/`.
pub proof fn lemma_url_with_path(host: Seq<char>, rest: Seq<char>)
    requires
        !host.contains('/'),
    ensures
        url_authority("http://"@ + host + "/"@ + rest) == host,
        url_path("http://"@ + host + "/"@ + rest) == "/"@ + rest,
{
    reveal_strlit("http://");
    reveal_strlit("/");
    let url = "http://"@ + host + "/"@ + rest;
    let tail = host + seq!['/'] + rest;
    assert("/"@ =~= seq!['/']);
    assert("http://"@ =~= url.subrange(0, 7));
    assert(without_scheme(url) =~= tail);
    lemma_first_separator(host, '/', rest);
    assert(tail.take(host.len() as int) =~= host);
    assert(tail.skip(host.len() as int) =~= "/"@ + rest);
}

/// Decomposing `http://` + `host` gives the authority `host` and the path
/// `/`, for every `host` without a `/`.
pub proof fn lemma_url_without_path(host: Seq<char>)
    requires
        !host.contains('/'),
    ensures
        url_authority("http://"@ + host) == host,
        url_path("http://"@ + host) == "/"@,
{
    reveal_strlit("http://");
    reveal_strlit("/");
    let url = "http://"@ + host;
    assert("/"@ =~= seq!['/']);
    assert("http://"@ =~= url.subrange(0, 7));
    assert(without_scheme(url) =~= host);
    lemma_no_separator(host, '/');
}

/// The prefix is taken once only: of a URL that begins with `http://` twice,
/// the second stays in what is decomposed, so the authority is `http:` and
/// the path begins with `//`.
pub proof fn lemma_url_with_doubled_scheme(rest: Seq<char>)
    ensures
        without_scheme("http://"@ + ("http://"@ + rest)) == "http://"@ + rest,
        url_authority("http://"@ + ("http://"@ + rest)) == "http:"@,
        url_path("http://"@ + ("http://"@ + rest)) == "//"@ + rest,
{
    reveal_strlit("http://");
    reveal_strlit("http:");
    reveal_strlit("//");
    reveal_strlit("/");
    let inner = "http://"@ + rest;
    let url = "http://"@ + inner;
    assert("http://"@ =~= url.subrange(0, 7));
    assert(without_scheme(url) =~= inner);
    assert(inner =~= "http:"@ + seq!['/'] + (seq!['/'] + rest));
    assert(!"http:"@.contains('/'));
    assert("/"@ =~= seq!['/']);
    lemma_first_separator("http:"@, '/', seq!['/'] + rest);
    assert(inner.take(5) =~= "http:"@);
    assert(inner.skip(5) =~= "//"@ + rest);
}

/// A URL that begins with `http://` twice names no target: its authority is
/// `http:`, and nothing follows that colon.
pub proof fn lemma_doubled_scheme_has_no_target(rest: Seq<char>)
    ensures
        url_target("http://"@ + ("http://"@ + rest)) is None,
{
    reveal_strlit("http:");
    reveal_strlit("http");
    reveal_strlit(":");
    lemma_url_with_doubled_scheme(rest);
    let authority = "http:"@;
    let empty = Seq::<char>::empty();
    assert(":"@ =~= seq![':']);
    assert(authority =~= "http"@ + seq![':'] + empty);
    assert(!"http"@.contains(':'));
    lemma_first_separator("http"@, ':', empty);
    assert(authority.skip(5) =~= empty);
}

/// What `parse_url` returns joins back to what was decomposed: where the
/// text after the scheme prefix holds a `/`, authority and path together are
/// that text; where it holds none, the authority alone is. The authority
/// never holds a `/`.
pub proof fn lemma_url_parts_join(url: Seq<char>)
    ensures
        !url_authority(url).contains('/'),
        occurs_in(without_scheme(url), "/"@) ==> url_authority(url) + url_path(url)
            == without_scheme(url),
        !occurs_in(without_scheme(url), "/"@) ==> url_authority(url) == without_scheme(url)
            && url_path(url) == "/"@,
{
    reveal_strlit("/");
    let rest = without_scheme(url);
    let authority = url_authority(url);
    assert("/"@ =~= seq!['/']);
    lemma_first_occurrence(rest, "/"@);
    match first_occurrence(rest, "/"@) {
        Some(i) => {
            assert(rest.take(i) + rest.skip(i) =~= rest);
        },
        None => {},
    }
    assert forall|j: int| 0 <= j < authority.len() implies authority[j] != '/' by {
        lemma_occurs_at_char(rest, '/', j);
        assert(authority[j] == rest[j]);
    }
}

/// Parsing `host` + `:` + `port` gives the host `host` and whatever port the
/// text `port` denotes, for every `host` without a `:`. In particular it
/// fails exactly when `port` is no port number.
pub proof fn lemma_authority_with_port(host: Seq<char>, port: Seq<char>)
    requires
        !host.contains(':'),
    ensures
        authority_host(host + ":"@ + port) == host,
        authority_port(host + ":"@ + port) == port_number(port),
{
    reveal_strlit(":");
    let authority = host + seq![':'] + port;
    assert(":"@ =~= seq![':']);
    lemma_first_separator(host, ':', port);
    assert(authority.take(host.len() as int) =~= host);
    assert(authority.skip(host.len() as int + 1) =~= port);
}

/// Parsing `host` + `:` + the decimal numeral of `port` gives `host` and
/// `port`, for every `host` without a `:`.
pub proof fn lemma_authority_with_decimal_port(host: Seq<char>, port: u16)
    requires
        !host.contains(':'),
    ensures
        authority_host(host + ":"@ + decimal(port as nat)) == host,
        authority_port(host + ":"@ + decimal(port as nat)) == Some(port),
{
    lemma_authority_with_port(host, decimal(port as nat));
    lemma_decimal_round_trip(port as nat);
}

/// Parsing an authority without a `:` gives the whole of it as host, and the
/// default port 80.
pub proof fn lemma_authority_without_port(host: Seq<char>)
    requires
        !host.contains(':'),
    ensures
        authority_host(host) == host,
        authority_port(host) == Some(80u16),
{
    reveal_strlit(":");
    assert(":"@ =~= seq![':']);
    lemma_no_separator(host, ':');
}

/// Whether `url` begins with `http://`.
pub fn check_scheme(url: &str) -> (b: bool)
    ensures
        b == has_scheme(url@),
{
    let v = chars_of(url);
    let scheme = chars_of("http://");
    starts_with(&v, &scheme)
}

/// Removes the scheme prefix `http://` from the front of `url`, once, if it
/// stands there.
pub fn strip_scheme(url: &str) -> (rest: &str)
    ensures
        rest@ == without_scheme(url@),
{
    let v = chars_of(url);
    let scheme = chars_of("http://");
    if starts_with(&v, &scheme) {
        url.substring_char(scheme.len(), v.len())
    } else {
        url
    }
}

/// Splits a URL into authority and path. Never fails.
pub fn parse_url(url: &str) -> (r: Result<(String, String), HttpError>)
    ensures
        r matches Ok((authority, path)) && authority@ == url_authority(url@) && path@ == url_path(
            url@,
        ),
{
    let rest = strip_scheme(url);
    let v = chars_of(rest);
    let slash = chars_of("/");
    match find(&v, &slash) {
        Some(i) => {
            proof {
                lemma_first_occurrence(rest@, "/"@);
            }
            Ok((rest.substring_char(0, i).to_owned(), rest.substring_char(i, v.len()).to_owned()))
        },
        None => Ok((rest.to_owned(), "/".to_owned())),
    }
}

/// Splits an authority into host and port. Fails exactly when a `:` is
/// present and what follows it is not a port number.
pub fn parse_host_port(host: &str) -> (r: Result<(&str, u16), HttpError>)
    ensures
        match authority_port(host@) {
            Some(port) => r matches Ok((name, number)) && name@ == authority_host(host@) && number
                == port,
            None => r matches Err(HttpError::Parse),
        },
{
    let v = chars_of(host);
    let colon = chars_of(":");
    match find(&v, &colon) {
        Some(i) => {
            proof {
                reveal_strlit(":");
                lemma_first_occurrence(host@, ":"@);
                assert(i < v.len());
            }
            let name = host.substring_char(0, i);
            let number = host.substring_char(i + 1, v.len());
            match parse_port(number) {
                Some(port) => Ok((name, port)),
                None => Err(HttpError::Parse),
            }
        },
        None => Ok((host, DEFAULT_PORT)),
    }
}

/// Works out where the request for `url` goes. Fails exactly when the
/// authority has a `:` that is not followed by a port number.
pub fn resolve(url: &str) -> (r: Result<Target, HttpError>)
    ensures
        match url_target(url@) {
            Some(target) => r matches Ok(found) && found@ == target && target.wf(),
            None => r matches Err(HttpError::Parse),
        },
{
    proof {
        lemma_path_begins_with_slash(url@);
    }
    match parse_url(url) {
        Ok((authority, path)) => {
            match parse_host_port(authority.as_str()) {
                Ok((name, port)) => Ok(Target { host: name.to_owned(), port, path }),
                Err(e) => Err(e),
            }
        },
        Err(e) => Err(e),
    }
}

} // verus!
