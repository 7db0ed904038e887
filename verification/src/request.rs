//! Writing requests: the exact text sent for a GET and for a POST.

use crate::number::{decimal, render_decimal};
use crate::response::{first_line, header_block, lemma_response_with_body, message_body};
use crate::text::{lemma_first_occurrence_is, occurs_at};
use vstd::prelude::*;
use vstd::string::*;
use vstd::utf8::encode_utf8;

verus! {

/// The number of bytes `body` occupies on the wire, that is in UTF-8.
pub open spec fn byte_length(body: Seq<char>) -> nat {
    encode_utf8(body).len()
}

/// The text of a GET request for `path` on `host`. It has no body.
pub open spec fn get_request(path: Seq<char>, host: Seq<char>) -> Seq<char> {
    "GET "@ + path + " HTTP/1.1\r\nHost: "@ + host + "\r\nConnection: close\r\n\r\n"@
}

/// The header block of a POST request for `path` on `host` that carries
/// `length` bytes of JSON, up to and including the blank line.
pub open spec fn post_head(path: Seq<char>, host: Seq<char>, length: nat) -> Seq<char> {
    "POST "@ + path + " HTTP/1.1\r\nHost: "@ + host
        + "\r\nContent-Type: application/json\r\nContent-Length: "@ + decimal(length)
        + "\r\nConnection: close\r\n\r\n"@
}

/// The text of a POST request for `path` on `host` with `body`: the header
/// block, whose `Content-Length` is the byte length of `body`, then `body`
/// itself.
pub open spec fn post_request(path: Seq<char>, host: Seq<char>, body: Seq<char>) -> Seq<char> {
    post_head(path, host, byte_length(body)) + body
}

/// `s` holds neither a carriage return nor a line feed.
pub open spec fn single_line(s: Seq<char>) -> bool {
    !s.contains('\r') && !s.contains('\n')
}

/// A GET request reads back: for a path and a host that are single lines,
/// the request's header block is everything before its final blank line, its
/// body is empty, and its first line is `GET`, the path and the protocol
/// version.
pub proof fn lemma_get_request_reads_back(path: Seq<char>, host: Seq<char>)
    requires
        single_line(path),
        single_line(host),
    ensures
        header_block(get_request(path, host)) == "GET "@ + path + " HTTP/1.1\r\nHost: "@ + host
            + "\r\nConnection: close"@,
        message_body(get_request(path, host)) == Seq::<char>::empty(),
        first_line(header_block(get_request(path, host))) == Some(
            "GET "@ + path + " HTTP/1.1"@,
        ),
{
    reveal_strlit("GET ");
    reveal_strlit(" HTTP/1.1\r\nHost: ");
    reveal_strlit("\r\nConnection: close\r\n\r\n");
    reveal_strlit("\r\nConnection: close");
    reveal_strlit(" HTTP/1.1");
    reveal_strlit("\r\n\r\n");
    reveal_strlit("\r\n");
    reveal_strlit("\n");
    let separator = "\r\n\r\n"@;
    let line = "GET "@ + path + " HTTP/1.1"@;
    let head = "GET "@ + path + " HTTP/1.1\r\nHost: "@ + host + "\r\nConnection: close"@;
    let a: int = path.len() as int + 13;
    let b: int = a + 8 + host.len() as int;
    assert(head.len() == b + 19);
    assert forall|j: int| 0 <= j < head.len() && head[j] == '\r' implies j == a || j == b by {
        if 4 <= j < 4 + path.len() {
            assert(head[j] == path[j - 4]);
        } else if a + 8 <= j < b {
            assert(head[j] == host[j - a - 8]);
        }
    }
    assert(head[a + 2] == 'H');
    assert(head[b + 2] == 'C');
    assert forall|j: int| !occurs_at(head, separator, j) by {
        if occurs_at(head, separator, j) {
            let window = head.subrange(j, j + 4);
            assert(window[0] == head[j] && window[2] == head[j + 2]);
        }
    }
    assert(head.subrange(head.len() - 2, head.len() as int)[1] == head[head.len() - 1]);
    assert(get_request(path, host) =~= head + separator + Seq::<char>::empty());
    lemma_response_with_body(head, Seq::<char>::empty());

    assert forall|j: int| 0 <= j < a + 1 implies !occurs_at(head, "\n"@, j) by {
        if occurs_at(head, "\n"@, j) {
            assert(head.subrange(j, j + 1)[0] == head[j]);
            if 4 <= j < 4 + path.len() {
                assert(head[j] == path[j - 4]);
            }
        }
    }
    assert(head.subrange(a + 1, a + 2) =~= "\n"@);
    lemma_first_occurrence_is(head, "\n"@, a + 1);
    assert(head.take(a + 1).last() == '\r');
    assert(head.take(a + 1).drop_last() =~= line);
}

/// Encodes a GET request.
pub fn encode_get(path: &str, host: &str) -> (r: String)
    ensures
        r@ == get_request(path@, host@),
{
    let mut r = "GET ".to_owned();
    r.append(path);
    r.append(" HTTP/1.1\r\nHost: ");
    r.append(host);
    r.append("\r\nConnection: close\r\n\r\n");
    r
}

/// Encodes a POST request.
pub fn encode_post(path: &str, host: &str, body: &str) -> (r: String)
    ensures
        r@ == post_request(path@, host@, body@),
{
    let length = render_decimal(body.as_bytes().len());
    let mut r = "POST ".to_owned();
    r.append(path);
    r.append(" HTTP/1.1\r\nHost: ");
    r.append(host);
    r.append("\r\nContent-Type: application/json\r\nContent-Length: ");
    r.append(length.as_str());
    r.append("\r\nConnection: close\r\n\r\n");
    r.append(body);
    r
}

} // verus!
