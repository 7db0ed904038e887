//! Reading responses: header block, body, status line, and the verdict.

use crate::error::HttpError;
use crate::text::{
    chars_of, find, first_occurrence, lemma_first_occurrence, lemma_first_occurrence_is,
    occurs_at, occurs_in, starts_with,
};
use vstd::prelude::*;
use vstd::string::*;

verus! {

/// The header block of a response: the text before the first blank line
/// (`\r\n\r\n`), or the whole text if it has none.
pub open spec fn header_block(text: Seq<char>) -> Seq<char> {
    match first_occurrence(text, "\r\n\r\n"@) {
        Some(i) => text.take(i),
        None => text,
    }
}

/// The body of a response: the text after the first blank line, or nothing if
/// it has none.
pub open spec fn message_body(text: Seq<char>) -> Seq<char> {
    match first_occurrence(text, "\r\n\r\n"@) {
        Some(i) => text.skip(i + "\r\n\r\n"@.len()),
        None => Seq::empty(),
    }
}

/// `line` without one trailing carriage return, if it ends in one.
pub open spec fn without_trailing_cr(line: Seq<char>) -> Seq<char> {
    if line.len() > 0 && line.last() == '\r' {
        line.drop_last()
    } else {
        line
    }
}

/// The first line of `block`. An empty block has no line. Otherwise the line
/// runs up to the first line feed, without the carriage return that may
/// precede it; a block without a line feed is one line, taken as it stands.
pub open spec fn first_line(block: Seq<char>) -> Option<Seq<char>> {
    if block.len() == 0 {
        None
    } else {
        match first_occurrence(block, "\n"@) {
            Some(i) => Some(without_trailing_cr(block.take(i))),
            None => Some(block),
        }
    }
}

/// The status line announces success: it begins with `HTTP/1.1 200`.
pub open spec fn is_success(line: Seq<char>) -> bool {
    "HTTP/1.1 200"@.is_prefix_of(line)
}

/// What a response amounts to: its body, unless it has a status line that
/// does not announce success, in which case that status line.
pub open spec fn response_outcome(text: Seq<char>) -> Result<Seq<char>, Seq<char>> {
    match first_line(header_block(text)) {
        Some(line) => if is_success(line) {
            Ok(message_body(text))
        } else {
            Err(line)
        },
        None => Ok(message_body(text)),
    }
}

/// A response without a blank line is all header block and has an empty
/// body; its verdict goes by the first line of the whole text.
pub proof fn lemma_response_without_separator(text: Seq<char>)
    requires
        !occurs_in(text, "\r\n\r\n"@),
    ensures
        header_block(text) == text,
        message_body(text) == Seq::<char>::empty(),
        response_outcome(text) == match first_line(text) {
            Some(line) => if is_success(line) {
                Ok(Seq::<char>::empty())
            } else {
                Err::<Seq<char>, Seq<char>>(line)
            },
            None => Ok(Seq::<char>::empty()),
        },
{
}

/// Framing is undone by splitting: a header block that holds no blank line
/// and does not end in `\r\n`, followed by a blank line and a body, splits
/// into exactly that block and that body.
pub proof fn lemma_response_with_body(headers: Seq<char>, body: Seq<char>)
    requires
        !occurs_in(headers, "\r\n\r\n"@),
        !"\r\n"@.is_suffix_of(headers),
    ensures
        header_block(headers + "\r\n\r\n"@ + body) == headers,
        message_body(headers + "\r\n\r\n"@ + body) == body,
{
    reveal_strlit("\r\n\r\n");
    reveal_strlit("\r\n");
    let separator = "\r\n\r\n"@;
    let text = headers + separator + body;
    let h = headers.len() as int;
    assert(text.subrange(h, h + 4) =~= separator);
    assert forall|j: int| 0 <= j < h implies !occurs_at(text, separator, j) by {
        if occurs_at(text, separator, j) {
            let window = text.subrange(j, j + 4);
            assert(window[0] == text[j] && window[1] == text[j + 1] && window[2] == text[j + 2]
                && window[3] == text[j + 3]);
            if j + 4 <= h {
                assert(headers.subrange(j, j + 4) =~= window);
                assert(occurs_at(headers, separator, j));
            } else if j == h - 2 {
                assert(headers.subrange(h - 2, h) =~= "\r\n"@);
            }
        }
    }
    lemma_first_occurrence_is(text, separator, h);
    assert(text.take(h) =~= headers);
    assert(text.skip(h + 4) =~= body);
}

/// Splits a response into header block and body.
pub fn split_response(text: &str) -> (parts: (&str, &str))
    ensures
        parts.0@ == header_block(text@),
        parts.1@ == message_body(text@),
{
    let v = chars_of(text);
    let separator = chars_of("\r\n\r\n");
    match find(&v, &separator) {
        Some(i) => {
            proof {
                reveal_strlit("\r\n\r\n");
                lemma_first_occurrence(text@, "\r\n\r\n"@);
                assert(i + 4 <= v.len());
            }
            let headers = text.substring_char(0, i);
            let body = text.substring_char(i + 4, v.len());
            (headers, body)
        },
        None => {
            proof {
                reveal_strlit("");
            }
            (text, "")
        },
    }
}

/// The first line of a header block, if it has one.
pub fn status_line(headers: &str) -> (r: Option<&str>)
    ensures
        match first_line(headers@) {
            Some(line) => r matches Some(found) && found@ == line,
            None => r is None,
        },
{
    let v = chars_of(headers);
    if v.len() == 0 {
        return None;
    }
    let line_feed = chars_of("\n");
    match find(&v, &line_feed) {
        Some(i) => {
            proof {
                lemma_first_occurrence(headers@, "\n"@);
            }
            if i > 0 && v[i - 1] == '\r' {
                assert(headers@.take(i as int).drop_last() =~= headers@.take(i - 1));
                Some(headers.substring_char(0, i - 1))
            } else {
                Some(headers.substring_char(0, i))
            }
        },
        None => Some(headers),
    }
}

/// Whether a status line begins with `HTTP/1.1 200`.
pub fn check_status(line: &str) -> (b: bool)
    ensures
        b == is_success(line@),
{
    let v = chars_of(line);
    let expected = chars_of("HTTP/1.1 200");
    starts_with(&v, &expected)
}

/// Decodes a complete response: the body on success, the status line as an
/// `HttpStatus` failure otherwise.
pub fn decode_response(text: &str) -> (r: Result<String, HttpError>)
    ensures
        match response_outcome(text@) {
            Ok(body) => r matches Ok(found) && found@ == body,
            Err(line) => r matches Err(HttpError::HttpStatus(found)) && found@ == line,
        },
{
    let (headers, body) = split_response(text);
    match status_line(headers) {
        Some(line) => {
            if check_status(line) {
                Ok(body.to_owned())
            } else {
                Err(HttpError::HttpStatus(line.to_owned()))
            }
        },
        None => Ok(body.to_owned()),
    }
}

} // verus!
