//! The small piece of HTTP/1.1 the servers speak.
use vstd::prelude::*;
use crate::numfmt::{decimal, push_decimal};
use crate::text::{chars_of, push_str, split, split_chars, split_once, split_once_chars, string_of, trim, trim_chars};

verus! {

/// A `200 OK` response carrying `body` with the given content type; the
/// length is the body's size in UTF-8 bytes.
pub open spec fn ok_response(content_type: Seq<char>, body: Seq<char>) -> Seq<char> {
    "HTTP/1.1 200 OK\r\nContent-Type: "@ + content_type + "\r\nContent-Length: "@ + decimal(
        vstd::utf8::encode_utf8(body).len(),
    ) + "\r\n\r\n"@ + body
}

/// The blank line that ends the head of an HTTP message.
pub open spec fn head_end() -> Seq<char> {
    "\r\n\r\n"@
}

/// Everything after the first blank line, trimmed; empty when there is
/// no blank line.
pub open spec fn trimmed_payload(request: Seq<char>) -> Seq<char> {
    match split_once(request, head_end()) {
        Some(parts) => trim(parts.1),
        None => trim(Seq::empty()),
    }
}

/// The text between the first and the second blank line (the second
/// piece when splitting at blank lines), or empty.
pub open spec fn second_section(request: Seq<char>) -> Seq<char> {
    let pieces = split(request, head_end());
    if pieces.len() > 1 {
        pieces[1]
    } else {
        Seq::empty()
    }
}

/// A `200 OK` response.
pub fn http_ok_response(content_type: &str, body: &str) -> (r: String)
    ensures
        r@ == ok_response(content_type@, body@),
{
    let mut out = chars_of("HTTP/1.1 200 OK\r\nContent-Type: ");
    push_str(&mut out, content_type);
    push_str(&mut out, "\r\nContent-Length: ");
    push_decimal(&mut out, body.as_bytes().len() as u128);
    push_str(&mut out, "\r\n\r\n");
    push_str(&mut out, body);
    string_of(out.as_slice())
}

/// The trimmed text after the head of a request.
pub fn request_payload(request: &str) -> (r: String)
    ensures
        r@ == trimmed_payload(request@),
{
    let cs = chars_of(request);
    let sep = chars_of("\r\n\r\n");
    match split_once_chars(cs.as_slice(), sep.as_slice()) {
        Some(parts) => {
            let t = trim_chars(parts.1.as_slice());
            string_of(t.as_slice())
        },
        None => {
            let e: Vec<char> = Vec::new();
            let t = trim_chars(e.as_slice());
            string_of(t.as_slice())
        },
    }
}

/// The second section of an HTTP message, as `split("\r\n\r\n").nth(1)`
/// gives it, or empty.
pub fn message_body(request: &str) -> (r: String)
    ensures
        r@ == second_section(request@),
{
    let cs = chars_of(request);
    let sep = chars_of("\r\n\r\n");
    proof {
        reveal_strlit("\r\n\r\n");
    }
    let pieces = split_chars(cs.as_slice(), sep.as_slice());
    if pieces.len() > 1 {
        string_of(pieces[1].as_slice())
    } else {
        String::new()
    }
}

} // verus!
