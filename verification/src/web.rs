//! The single-page web interface.
use vstd::prelude::*;
use crate::http::second_section;
use crate::text::{
    lemma_replace_char_by_char, lemma_split_once_char, chars_of, replace_char, replace_char_chars, split, split_chars, split_once, split_once_chars,
    starts_with, string_of, chars_eq,
};

verus! {

/// The HTML page of the web interface.
pub fn web_ui_html() -> (r: &'static str)
    ensures
        r@ == "<!doctype html>\n<html><head><meta charset='utf-8'><title>Secure LightClaw v2</title></head>\n<body>\n<h1>Secure LightClaw v2</h1>\n<form method='POST' action='/chat'>\n<input name='user' value='web-user'/>\n<input name='message' placeholder='Say something'/>\n<button type='submit'>Send</button>\n</form>\n</body></html>"@,
{
    "<!doctype html>\n<html><head><meta charset='utf-8'><title>Secure LightClaw v2</title></head>\n<body>\n<h1>Secure LightClaw v2</h1>\n<form method='POST' action='/chat'>\n<input name='user' value='web-user'/>\n<input name='message' placeholder='Say something'/>\n<button type='submit'>Send</button>\n</form>\n</body></html>"
}

/// The value of the first `key=value` pair among `pairs` whose key is
/// `key`, with each `+` read as a space.
pub open spec fn form_value(pairs: Seq<Seq<char>>, key: Seq<char>) -> Option<Seq<char>>
    decreases pairs.len(),
{
    if pairs.len() == 0 {
        None
    } else {
        match split_once(pairs[0], "="@) {
            Some(kv) => if kv.0 == key {
                Some(replace_char(kv.1, '+', " "@))
            } else {
                form_value(pairs.drop_first(), key)
            },
            None => form_value(pairs.drop_first(), key),
        }
    }
}

/// A form value is read with every `+` as a space: a value read holds
/// no `+`.
pub proof fn lemma_form_value_has_no_plus(pairs: Seq<Seq<char>>, key: Seq<char>)
    ensures
        form_value(pairs, key) matches Some(v) ==> forall|i: int| 0 <= i < v.len() ==> v[i] != '+',
    decreases pairs.len(),
{
    reveal_strlit(" ");
    assert(" "@ =~= seq![' ']);
    if pairs.len() > 0 {
        match split_once(pairs[0], "="@) {
            Some(kv) => if kv.0 == key {
                lemma_replace_char_by_char(kv.1, '+', ' ');
            } else {
                lemma_form_value_has_no_plus(pairs.drop_first(), key);
            },
            None => lemma_form_value_has_no_plus(pairs.drop_first(), key),
        }
    }
}

/// The pair `key=raw` (a key without `=`) gives the value `raw` with each
/// `+` read as a space and every other character kept, whatever pairs
/// follow it.
pub proof fn lemma_form_value_of_pair(key: Seq<char>, raw: Seq<char>, rest: Seq<Seq<char>>)
    requires
        forall|i: int| 0 <= i < key.len() ==> key[i] != '=',
    ensures
        form_value(seq![key + "="@ + raw] + rest, key) matches Some(v) && v.len() == raw.len()
            && forall|i: int| 0 <= i < raw.len() ==> v[i] == (if raw[i] == '+' {
            ' '
        } else {
            raw[i]
        }),
{
    reveal_strlit(" ");
    reveal_strlit("=");
    assert(" "@ =~= seq![' ']);
    assert("="@ =~= seq!['=']);
    let pair = key + "="@ + raw;
    let pairs = seq![pair] + rest;
    assert(pairs[0] == pair);
    assert forall|i: int| 0 <= i < key.len() implies pair[i] != '=' by {
        assert(pair[i] == key[i]);
    }
    assert(pair[key.len() as int] == '=');
    lemma_split_once_char(pair, '=', key.len() as int);
    assert(pair.subrange(0, key.len() as int) =~= key);
    assert(pair.subrange(key.len() as int + 1, pair.len() as int) =~= raw);
    lemma_replace_char_by_char(raw, '+', ' ');
}

/// A pair whose key is another one is passed over: the value read is the
/// one the following pairs give.
pub proof fn lemma_form_value_skips_other_key(
    other: Seq<char>,
    raw: Seq<char>,
    rest: Seq<Seq<char>>,
    key: Seq<char>,
)
    requires
        forall|i: int| 0 <= i < other.len() ==> other[i] != '=',
        other != key,
    ensures
        form_value(seq![other + "="@ + raw] + rest, key) == form_value(rest, key),
{
    reveal_strlit("=");
    assert("="@ =~= seq!['=']);
    let pair = other + "="@ + raw;
    let pairs = seq![pair] + rest;
    assert(pairs[0] == pair);
    assert(pairs.drop_first() =~= rest);
    assert forall|i: int| 0 <= i < other.len() implies pair[i] != '=' by {
        assert(pair[i] == other[i]);
    }
    assert(pair[other.len() as int] == '=');
    lemma_split_once_char(pair, '=', other.len() as int);
    assert(pair.subrange(0, other.len() as int) =~= other);
}

/// The value of `key` in a form-encoded body.
pub fn parse_form_value(body: &str, key: &str) -> (r: Option<String>)
    ensures
        r matches Some(v) ==> form_value(split(body@, "&"@), key@) == Some(v@),
        r is None ==> form_value(split(body@, "&"@), key@) is None,
{
    let cs = chars_of(body);
    let amp = chars_of("&");
    let eq = chars_of("=");
    let sp = chars_of(" ");
    let k = chars_of(key);
    proof {
        reveal_strlit("&");
    }
    let pairs = split_chars(cs.as_slice(), amp.as_slice());
    let ghost pv = split(body@, "&"@);
    let n = pairs.len();
    let mut i: usize = 0;
    assert(pv.subrange(0, pv.len() as int) == pv);
    while i < n
        invariant
            n == pairs@.len(),
            n == pv.len(),
            pv == split(body@, "&"@),
            i <= n,
            eq@ == "="@,
            sp@ == " "@,
            k@ == key@,
            forall|j: int| 0 <= j < n ==> #[trigger] pairs@[j]@ == pv[j],
            form_value(pv, key@) == form_value(pv.subrange(i as int, n as int), key@),
        decreases n - i,
    {
        let ghost rest = pv.subrange(i as int, n as int);
        assert(rest[0] == pairs@[i as int]@);
        assert(rest.drop_first() == pv.subrange(i + 1, n as int));
        match split_once_chars(pairs[i].as_slice(), eq.as_slice()) {
            Some(kv) => {
                if chars_eq(kv.0.as_slice(), k.as_slice()) {
                    let v = replace_char_chars(kv.1.as_slice(), '+', sp.as_slice());
                    assert(split_once(rest[0], "="@) == Some((kv.0@, kv.1@)));
                    assert(form_value(rest, key@) == Some(v@));
                    return Some(string_of(v.as_slice()));
                }
            },
            None => {},
        }
        i += 1;
    }
    None
}

/// What the web server does with a request.
#[derive(Debug, Clone)]
pub enum WebRoute {
    /// Serve the page.
    Page,
    /// Answer a chat message from a user.
    Chat { user: String, message: String },
    /// Anything else.
    NotFound,
}

/// The chat fields of a request body, with their defaults.
pub open spec fn chat_fields(body: Seq<char>) -> (Seq<char>, Seq<char>) {
    let pairs = split(body, "&"@);
    let user = match form_value(pairs, "user"@) {
        Some(u) => u,
        None => "web-user"@,
    };
    let message = match form_value(pairs, "message"@) {
        Some(m) => m,
        None => "hello"@,
    };
    (user, message)
}

/// Routes a raw request: `GET /` serves the page, `POST /chat` is a chat
/// message, everything else is not found.
pub fn route_request(request: &str) -> (r: WebRoute)
    ensures
        starts_with(request@, "GET / "@) ==> r is Page,
        !starts_with(request@, "GET / "@) && starts_with(request@, "POST /chat "@) ==> (r matches WebRoute::Chat { user, message } && (user@, message@) == chat_fields(second_section(request@))),
        !starts_with(request@, "GET / "@) && !starts_with(request@, "POST /chat "@) ==> r is NotFound,
{
    let cs = chars_of(request);
    let get = chars_of("GET / ");
    let post = chars_of("POST /chat ");
    if crate::text::starts_with_chars(cs.as_slice(), get.as_slice()) {
        WebRoute::Page
    } else if crate::text::starts_with_chars(cs.as_slice(), post.as_slice()) {
        let body = crate::http::message_body(request);
        let message = match parse_form_value(body.as_str(), "message") {
            Some(m) => m,
            None => String::from_str("hello"),
        };
        let user = match parse_form_value(body.as_str(), "user") {
            Some(u) => u,
            None => String::from_str("web-user"),
        };
        WebRoute::Chat { user, message }
    } else {
        WebRoute::NotFound
    }
}

} // verus!
