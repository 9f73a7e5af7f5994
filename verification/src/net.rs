//! HTTP requests and responses as the adapters use them.
use vstd::prelude::*;
use crate::http::second_section;
use crate::numfmt::{
    decimal, lemma_signed_decimal_reads_back, parse_unsigned, parse_unsigned_chars, push_decimal,
    signed_decimal,
};
use crate::text::{
    find, lemma_find_from_bounds, lemma_match_at_char, lemma_split_once_char, lemma_split_once_char_before,
    chars_of, lines, lines_chars, push_all, push_str, slice_chars, split_once, split_once_chars,
    starts_with, starts_with_chars, string_of, words, words_chars,
};

verus! {

/// An HTTP request to send.
#[derive(Debug, Clone)]
pub struct HttpRequest {
    pub method: String,
    pub url: String,
    pub headers: Vec<(String, String)>,
    pub body: String,
}

/// An HTTP response received.
#[derive(Debug, Clone)]
pub struct HttpResponse {
    pub status_code: u16,
    pub body: String,
}

/// Why a request failed.
#[derive(Debug, Clone, PartialEq, Eq)]
pub enum HttpError {
    InvalidUrl,
    Transport(String),
    InvalidResponse,
}

/// The `{:?}` rendering of a string: quoted, with escapes.
pub uninterp spec fn str_debug(s: Seq<char>) -> Seq<char>;

/// Renders a string by `format!("{:?}", ..)`, that is `<str as Debug>::fmt`;
/// the contract only names the result (`str_debug`), which depends on the
/// characters of the string alone; the escaping rules are not stated.
#[verifier::external_body]
fn debug_str(s: &str) -> (r: String)
    ensures
        r@ == str_debug(s@),
{
    format!("{:?}", s)
}

/// The `{:?}` rendering of an `HttpError`.
pub open spec fn http_error_debug(e: HttpError) -> Seq<char> {
    match e {
        HttpError::InvalidUrl => "InvalidUrl"@,
        HttpError::Transport(m) => "Transport("@ + str_debug(m@) + ")"@,
        HttpError::InvalidResponse => "InvalidResponse"@,
    }
}

impl HttpError {
    /// The error as `{:?}` renders it.
    pub fn debug_text(&self) -> (r: String)
        ensures
            r@ == http_error_debug(*self),
    {
        match self {
            HttpError::InvalidUrl => String::from_str("InvalidUrl"),
            HttpError::Transport(m) => {
                let mut out = chars_of("Transport(");
                let d = debug_str(m.as_str());
                push_str(&mut out, d.as_str());
                push_str(&mut out, ")");
                string_of(out.as_slice())
            },
            HttpError::InvalidResponse => String::from_str("InvalidResponse"),
        }
    }
}

/// Something that carries HTTP requests.
pub trait HttpTransport {
    /// Whether `reply` is what this transport may give back for `request`;
    /// a transport that does not say admits every reply.
    open spec fn answers(&self, request: HttpRequest, reply: Result<HttpResponse, HttpError>) -> bool {
        true
    }

    fn send(&self, request: &HttpRequest) -> (r: Result<HttpResponse, HttpError>)
        ensures
            self.answers(*request, r),
    ;
}

/// The host, port and path of a plain-HTTP URL: the host runs up to the
/// first `/` (and a `:port` after it, 80 when absent or unreadable), the
/// path is `/` and the rest.
pub open spec fn url_parts(url: Seq<char>) -> Option<(Seq<char>, nat, Seq<char>)> {
    if !starts_with(url, "http://"@) {
        None
    } else {
        let rest = url.subrange(7, url.len() as int);
        let (host_port, path) = match split_once(rest, "/"@) {
            Some(hp) => (hp.0, "/"@ + hp.1),
            None => (rest, "/"@),
        };
        let (host, port) = match split_once(host_port, ":"@) {
            Some(hp) => (
                hp.0,
                match parse_unsigned(hp.1, u16::MAX as nat) {
                    Some(n) => n,
                    None => 80,
                },
            ),
            None => (host_port, 80),
        };
        Some((host, port, path))
    }
}

/// For `http://H:P` followed by nothing or by a path starting with `/`,
/// where the host `H` holds no `:` and no `/` and the port `P` is the
/// decimal text of a number that fits a `u16`, the host is `H`, the port
/// is `P` and the path is the given one (`/` when none is given).
pub proof fn lemma_url_host_and_port(host: Seq<char>, port: nat, tail: Seq<char>)
    requires
        forall|i: int| 0 <= i < host.len() ==> host[i] != ':' && host[i] != '/',
        port <= u16::MAX,
        tail.len() == 0 || tail[0] == '/',
    ensures
        url_parts("http://"@ + host + ":"@ + decimal(port) + tail) == Some(
            (
                host,
                port,
                if tail.len() == 0 {
                    "/"@
                } else {
                    tail
                },
            ),
        ),
{
    reveal_strlit("http://");
    reveal_strlit("/");
    reveal_strlit(":");
    assert("/"@ =~= seq!['/']);
    assert(":"@ =~= seq![':']);
    lemma_signed_decimal_reads_back(port as int, u16::MAX as nat);
    let dec = decimal(port);
    assert(signed_decimal(port as int) == dec);
    let url = "http://"@ + host + ":"@ + dec + tail;
    let hp = host + ":"@ + dec;
    let rest = hp + tail;
    assert(url.subrange(0, 7) =~= "http://"@);
    assert(url.subrange(7, url.len() as int) =~= rest);
    let k = hp.len() as int;
    assert forall|i: int| 0 <= i < k implies rest[i] != '/' by {
        if i < host.len() {
            assert(rest[i] == host[i]);
        } else if i == host.len() {
            assert(rest[i] == ':');
        } else {
            assert(rest[i] == dec[i - host.len() - 1]);
            assert('0' <= dec[i - host.len() - 1] <= '9');
        }
    }
    if tail.len() > 0 {
        assert(rest[k] == tail[0]);
        lemma_split_once_char(rest, '/', k);
        assert(rest.subrange(0, k) =~= hp);
        assert("/"@ + rest.subrange(k + 1, rest.len() as int) =~= tail);
    } else {
        assert(rest =~= hp);
        lemma_split_once_char(rest, '/', k);
    }
    let h = host.len() as int;
    assert forall|i: int| 0 <= i < h implies hp[i] != ':' by {
        assert(hp[i] == host[i]);
    }
    assert(hp[h] == ':');
    lemma_split_once_char(hp, ':', h);
    assert(hp.subrange(0, h) =~= host);
    assert(hp.subrange(h + 1, hp.len() as int) =~= dec);
    assert(parse_unsigned(dec, u16::MAX as nat) == Some(port));
}

/// For `http://H` followed by nothing or by a path starting with `/`,
/// where the host `H` holds no `:` and no `/`, the host is `H`, the port
/// is 80 and the path is the given one (`/` when none is given).
pub proof fn lemma_url_default_port(host: Seq<char>, tail: Seq<char>)
    requires
        forall|i: int| 0 <= i < host.len() ==> host[i] != ':' && host[i] != '/',
        tail.len() == 0 || tail[0] == '/',
    ensures
        url_parts("http://"@ + host + tail) == Some(
            (
                host,
                80nat,
                if tail.len() == 0 {
                    "/"@
                } else {
                    tail
                },
            ),
        ),
{
    reveal_strlit("http://");
    reveal_strlit("/");
    reveal_strlit(":");
    assert("/"@ =~= seq!['/']);
    assert(":"@ =~= seq![':']);
    let url = "http://"@ + host + tail;
    let rest = host + tail;
    assert(url.subrange(0, 7) =~= "http://"@);
    assert(url.subrange(7, url.len() as int) =~= rest);
    let k = host.len() as int;
    assert forall|i: int| 0 <= i < k implies rest[i] != '/' by {
        assert(rest[i] == host[i]);
    }
    if tail.len() > 0 {
        assert(rest[k] == tail[0]);
        lemma_split_once_char(rest, '/', k);
        assert(rest.subrange(0, k) =~= host);
        assert("/"@ + rest.subrange(k + 1, rest.len() as int) =~= tail);
    } else {
        assert(rest =~= host);
        lemma_split_once_char(rest, '/', k);
    }
    lemma_split_once_char(host, ':', k);
}

/// Whatever the URL, the host read from it holds no `:` and no `/`, and
/// the path starts with `/`.
pub proof fn lemma_url_host_is_plain(url: Seq<char>)
    ensures
        url_parts(url) matches Some(parts) ==> (forall|i: int|
            0 <= i < parts.0.len() ==> parts.0[i] != ':' && parts.0[i] != '/') && parts.2.len() > 0
            && parts.2[0] == '/',
{
    reveal_strlit("/");
    reveal_strlit(":");
    assert("/"@ =~= seq!['/']);
    assert(":"@ =~= seq![':']);
    if starts_with(url, "http://"@) {
        let rest = url.subrange(7, url.len() as int);
        lemma_split_once_char_before(rest, '/');
        let host_port = match split_once(rest, "/"@) {
            Some(hp) => hp.0,
            None => rest,
        };
        if split_once(rest, "/"@) is None {
            lemma_find_from_bounds(rest, "/"@, 0);
            assert forall|i: int| 0 <= i < rest.len() implies rest[i] != '/' by {
                lemma_match_at_char(rest, '/', i);
            }
        }
        lemma_split_once_char_before(host_port, ':');
        if split_once(host_port, ":"@) is None {
            lemma_find_from_bounds(host_port, ":"@, 0);
            assert forall|i: int| 0 <= i < host_port.len() implies host_port[i] != ':' by {
                lemma_match_at_char(host_port, ':', i);
            }
        } else {
            lemma_find_from_bounds(host_port, ":"@, 0);
            let f = find(host_port, ":"@)->0;
            let hp = split_once(host_port, ":"@)->0;
            assert(hp.0 == host_port.subrange(0, f));
            assert(f + 1 <= host_port.len());
            assert forall|i: int| 0 <= i < hp.0.len() implies hp.0[i] != '/' by {
                assert(hp.0[i] == host_port[i]);
            }
        }
    }
}

/// Splits a plain-HTTP URL into host, port and path.
pub fn parse_http_url(url: &str) -> (r: Result<(String, u16, String), HttpError>)
    ensures
        url_parts(url@) is None ==> r == Err::<(String, u16, String), HttpError>(HttpError::InvalidUrl),
        url_parts(url@) matches Some(p) ==> (r matches Ok(t) && t.0@ == p.0 && t.1 == p.1 && t.2@ == p.2),
{
    let cs = chars_of(url);
    let scheme = chars_of("http://");
    proof {
        reveal_strlit("http://");
    }
    if !starts_with_chars(cs.as_slice(), scheme.as_slice()) {
        return Err(HttpError::InvalidUrl);
    }
    let rest = slice_chars(cs.as_slice(), 7, cs.len());
    let slash = chars_of("/");
    let colon = chars_of(":");
    let (host_port, path) = match split_once_chars(rest.as_slice(), slash.as_slice()) {
        Some(hp) => {
            let mut p = chars_of("/");
            push_all(&mut p, hp.1.as_slice());
            (hp.0, p)
        },
        None => (rest, chars_of("/")),
    };
    let (host, port) = match split_once_chars(host_port.as_slice(), colon.as_slice()) {
        Some(hp) => {
            let port: u16 = match parse_unsigned_chars(hp.1.as_slice(), 65535) {
                Some(n) => n as u16,
                None => 80,
            };
            (hp.0, port)
        },
        None => (host_port, 80u16),
    };
    Ok((string_of(host.as_slice()), port, string_of(path.as_slice())))
}

/// The header lines of a request, each `name: value` ending in CRLF.
pub open spec fn header_lines(hs: Seq<(String, String)>) -> Seq<char>
    decreases hs.len(),
{
    if hs.len() == 0 {
        Seq::empty()
    } else {
        header_lines(hs.drop_last()) + hs.last().0@ + ": "@ + hs.last().1@ + "\r\n"@
    }
}

/// The text of a request as it goes on the wire.
pub open spec fn request_text(r: HttpRequest, host: Seq<char>, path: Seq<char>) -> Seq<char> {
    r.method@ + " "@ + path + " HTTP/1.1\r\nHost: "@ + host + "\r\nContent-Length: "@ + decimal(
        vstd::utf8::encode_utf8(r.body@).len(),
    ) + "\r\nConnection: close\r\n"@ + header_lines(r.headers@) + "\r\n"@ + r.body@
}

/// Renders a request for the given host and path.
pub fn render_http_request(request: &HttpRequest, host: &str, path: &str) -> (r: String)
    ensures
        r@ == request_text(*request, host@, path@),
{
    let mut hs: Vec<char> = Vec::new();
    let n = request.headers.len();
    for i in 0..n
        invariant
            n == request.headers@.len(),
            hs@ == header_lines(request.headers@.take(i as int)),
    {
        assert(request.headers@.take(i + 1).drop_last() == request.headers@.take(i as int));
        push_str(&mut hs, request.headers[i].0.as_str());
        push_str(&mut hs, ": ");
        push_str(&mut hs, request.headers[i].1.as_str());
        push_str(&mut hs, "\r\n");
    }
    assert(request.headers@.take(n as int) == request.headers@);
    let mut out = chars_of(request.method.as_str());
    push_str(&mut out, " ");
    push_str(&mut out, path);
    push_str(&mut out, " HTTP/1.1\r\nHost: ");
    push_str(&mut out, host);
    push_str(&mut out, "\r\nContent-Length: ");
    push_decimal(&mut out, request.body.as_str().as_bytes().len() as u128);
    push_str(&mut out, "\r\nConnection: close\r\n");
    push_all(&mut out, hs.as_slice());
    push_str(&mut out, "\r\n");
    push_str(&mut out, request.body.as_str());
    string_of(out.as_slice())
}

/// What a raw response reads as: the status code is the second word of
/// the first line, the body is the second section.
pub open spec fn response_parts(response: Seq<char>) -> Option<(nat, Seq<char>)> {
    let ls = lines(response);
    if ls.len() == 0 {
        None
    } else {
        let ws = words(ls[0]);
        if ws.len() < 2 {
            None
        } else {
            match parse_unsigned(ws[1], u16::MAX as nat) {
                Some(code) => Some((code, second_section(response))),
                None => None,
            }
        }
    }
}

/// Reads a raw HTTP response.
pub fn parse_http_response(response: &str) -> (r: Result<HttpResponse, HttpError>)
    ensures
        response_parts(response@) is None ==> r == Err::<HttpResponse, HttpError>(HttpError::InvalidResponse),
        response_parts(response@) matches Some(p) ==> (r matches Ok(resp) && resp.status_code == p.0 && resp.body@ == p.1),
{
    let cs = chars_of(response);
    let ls = lines_chars(cs.as_slice());
    if ls.len() == 0 {
        return Err(HttpError::InvalidResponse);
    }
    let ws = words_chars(ls[0].as_slice());
    if ws.len() < 2 {
        return Err(HttpError::InvalidResponse);
    }
    let code = match parse_unsigned_chars(ws[1].as_slice(), 65535) {
        Some(n) => n as u16,
        None => {
            return Err(HttpError::InvalidResponse);
        },
    };
    let body = crate::http::message_body(response);
    Ok(HttpResponse { status_code: code, body })
}

} // verus!
