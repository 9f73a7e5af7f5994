//! Telegram Bot API adapter: polling, replies and webhook messages.
use std::sync::Arc;
use vstd::prelude::*;
use crate::agent::{Agent, AgentError, reply_text};
use crate::channels::{ChannelAdapter, IncomingMessage, WebhookAdapter};
use crate::config::TelegramConfig;
use crate::http::second_section;
use crate::net::{HttpError, HttpRequest, HttpResponse, HttpTransport, http_error_debug};
use crate::numfmt::{
    all_digits, digits_value, lemma_signed_decimal_reads_back, parse_unsigned, parse_unsigned_chars,
    push_signed_decimal, signed_decimal,
};
use crate::text::{
    chars_of, contains, contains_chars, digit_prefix_len, push_all, push_str, replace_char,
    replace_char_chars, slice_chars, split, split_chars, split_once, split_once_chars,
    strip_end_char, string_of, trim_start, trim_start_chars, is_ascii_digit,
};

verus! {

broadcast use vstd::slice::group_slice_axioms;

/// One message received by the bot.
#[derive(Debug, Clone)]
pub struct TelegramUpdate {
    pub update_id: i64,
    pub chat_id: String,
    pub text: String,
    pub user: String,
}

/// Why a Telegram operation failed.
#[derive(Debug, Clone, PartialEq, Eq)]
pub enum TelegramError {
    Config(String),
    Transport(String),
    Parse,
}

/// An update as plain values: id, chat id, text and user name.
pub open spec fn update_view(u: TelegramUpdate) -> (int, Seq<char>, Seq<char>, Seq<char>) {
    (u.update_id as int, u.chat_id@, u.text@, u.user@)
}

// ---------------------------------------------------------------------
// Reading the JSON the Bot API sends
// ---------------------------------------------------------------------

/// The text of a string field: what follows the first `"key":"` up to
/// the next quote.
pub open spec fn json_string_field(source: Seq<char>, key: Seq<char>) -> Option<Seq<char>> {
    match split_once(source, "\""@ + key + "\":\""@) {
        Some(parts) => Some(split(parts.1, "\""@)[0]),
        None => None,
    }
}

/// Length of the run of digits and minus signs that starts at `i`.
pub open spec fn number_run_end(s: Seq<char>, i: int) -> int
    decreases s.len() - i,
{
    if i < 0 || i >= s.len() || !(is_ascii_digit(s[i]) || s[i] == '-') {
        i
    } else {
        number_run_end(s, i + 1)
    }
}

/// The text of a number field: after the first `"key":` and any white
/// space, the run of digits and minus signs (possibly empty).
pub open spec fn json_number_field(source: Seq<char>, key: Seq<char>) -> Option<Seq<char>> {
    match split_once(source, "\""@ + key + "\":"@) {
        Some(parts) => {
            let t = trim_start(parts.1);
            Some(t.subrange(0, number_run_end(t, 0)))
        },
        None => None,
    }
}

/// The update id at the start of a chunk: its leading digits as an `i64`,
/// or 0 when there are none or they do not fit.
pub open spec fn update_id_of(chunk: Seq<char>) -> int {
    match parse_unsigned(chunk.subrange(0, digit_prefix_len(chunk, 0)), i64::MAX as nat) {
        Some(n) => n as int,
        None => 0,
    }
}

/// The update a chunk of the response describes.
pub open spec fn chunk_update(chunk: Seq<char>) -> (int, Seq<char>, Seq<char>, Seq<char>) {
    (
        update_id_of(chunk),
        match json_number_field(chunk, "id"@) {
            Some(v) => v,
            None => "0"@,
        },
        match json_string_field(chunk, "text"@) {
            Some(v) => v,
            None => Seq::empty(),
        },
        match json_string_field(chunk, "username"@) {
            Some(v) => v,
            None => "telegram-user"@,
        },
    )
}

/// The updates of the chunks, leaving out those without text.
pub open spec fn chunk_updates(chunks: Seq<Seq<char>>) -> Seq<(int, Seq<char>, Seq<char>, Seq<char>)>
    decreases chunks.len(),
{
    if chunks.len() == 0 {
        Seq::empty()
    } else {
        let rest = chunk_updates(chunks.drop_last());
        let u = chunk_update(chunks.last());
        if u.2.len() > 0 {
            rest.push(u)
        } else {
            rest
        }
    }
}

/// The updates a `getUpdates` body holds; `None` when it has no result.
pub open spec fn updates_in(body: Seq<char>) -> Option<Seq<(int, Seq<char>, Seq<char>, Seq<char>)>> {
    if !contains(body, "\"result\""@) {
        None
    } else {
        Some(chunk_updates(split(body, "\"update_id\":"@).drop_first()))
    }
}

/// The parse result matches what the body holds.
pub open spec fn parsed_as(r: Result<Vec<TelegramUpdate>, TelegramError>, body: Seq<char>) -> bool {
    match updates_in(body) {
        None => r == Err::<Vec<TelegramUpdate>, TelegramError>(TelegramError::Parse),
        Some(us) => r matches Ok(v) && v@.map_values(|u: TelegramUpdate| update_view(u)) == us,
    }
}

/// The string field `key` of a JSON text.
pub fn extract_json_string(source: &str, key: &str) -> (r: Option<String>)
    ensures
        r matches Some(v) ==> json_string_field(source@, key@) == Some(v@),
        r is None ==> json_string_field(source@, key@) is None,
{
    let cs = chars_of(source);
    let mut token = chars_of("\"");
    push_str(&mut token, key);
    push_str(&mut token, "\":\"");
    let quote = chars_of("\"");
    proof {
        reveal_strlit("\"");
    }
    match split_once_chars(cs.as_slice(), token.as_slice()) {
        Some(parts) => {
            let pieces = split_chars(parts.1.as_slice(), quote.as_slice());
            proof {
                crate::text::lemma_split_scan_nonempty(parts.1@, quote@, 0, 0);
            }
            Some(string_of(pieces[0].as_slice()))
        },
        None => None,
    }
}

/// The number field `key` of a JSON text, as text.
pub fn extract_json_number(source: &str, key: &str) -> (r: Option<String>)
    ensures
        r matches Some(v) ==> json_number_field(source@, key@) == Some(v@),
        r is None ==> json_number_field(source@, key@) is None,
{
    let cs = chars_of(source);
    let mut token = chars_of("\"");
    push_str(&mut token, key);
    push_str(&mut token, "\":");
    match split_once_chars(cs.as_slice(), token.as_slice()) {
        Some(parts) => {
            let t = trim_start_chars(parts.1.as_slice());
            let mut i: usize = 0;
            while i < t.len() && (('0' <= t[i] && t[i] <= '9') || t[i] == '-')
                invariant
                    i <= t@.len(),
                    number_run_end(t@, 0) == number_run_end(t@, i as int),
                decreases t@.len() - i,
            {
                i += 1;
            }
            Some(string_of(slice_chars(t.as_slice(), 0, i).as_slice()))
        },
        None => None,
    }
}

/// Index of the first character of `s` that is not an ASCII digit.
fn digit_prefix(s: &[char]) -> (r: usize)
    ensures
        r == digit_prefix_len(s@, 0),
        r <= s@.len(),
{
    let mut i: usize = 0;
    while i < s.len() && '0' <= s[i] && s[i] <= '9'
        invariant
            i <= s@.len(),
            digit_prefix_len(s@, 0) == digit_prefix_len(s@, i as int),
        decreases s@.len() - i,
    {
        i += 1;
    }
    i
}

/// The update a chunk describes.
fn parse_chunk(chunk: &[char]) -> (r: TelegramUpdate)
    ensures
        update_view(r) == chunk_update(chunk@),
{
    let k = digit_prefix(chunk);
    let digits = slice_chars(chunk, 0, k);
    let update_id: i64 = match parse_unsigned_chars(digits.as_slice(), 9223372036854775807) {
        Some(n) => n as i64,
        None => 0,
    };
    let text_chunk = string_of(chunk);
    let chat_id = match extract_json_number(text_chunk.as_str(), "id") {
        Some(v) => v,
        None => String::from_str("0"),
    };
    let text = match extract_json_string(text_chunk.as_str(), "text") {
        Some(v) => v,
        None => String::new(),
    };
    let user = match extract_json_string(text_chunk.as_str(), "username") {
        Some(v) => v,
        None => String::from_str("telegram-user"),
    };
    TelegramUpdate { update_id, chat_id, text, user }
}

/// The updates in a `getUpdates` response body.
pub fn parse_updates(body: &str) -> (r: Result<Vec<TelegramUpdate>, TelegramError>)
    ensures
        parsed_as(r, body@),
{
    let cs = chars_of(body);
    let marker = chars_of("\"result\"");
    if !contains_chars(cs.as_slice(), marker.as_slice()) {
        return Err(TelegramError::Parse);
    }
    let sep = chars_of("\"update_id\":");
    proof {
        reveal_strlit("\"update_id\":");
    }
    let chunks = split_chars(cs.as_slice(), sep.as_slice());
    let ghost cv = split(body@, "\"update_id\":"@).drop_first();
    let mut updates: Vec<TelegramUpdate> = Vec::new();
    let n = chunks.len();
    let mut i: usize = 1;
    proof {
        crate::text::lemma_split_scan_nonempty(body@, sep@, 0, 0);
    }
    while i < n
        invariant
            1 <= i <= n,
            n == chunks@.len(),
            cv.len() + 1 == n,
            forall|k: int| 1 <= k < n ==> #[trigger] chunks@[k]@ == cv[k - 1],
            updates@.map_values(|u: TelegramUpdate| update_view(u)) == chunk_updates(
                cv.take(i - 1),
            ),
        decreases n - i,
    {
        let u = parse_chunk(chunks[i].as_slice());
        let ghost before = updates@.map_values(|u: TelegramUpdate| update_view(u));
        assert(cv.take(i as int).drop_last() == cv.take(i - 1));
        assert(cv.take(i as int).last() == chunks@[i as int]@);
        if u.text.as_str().unicode_len() > 0 {
            updates.push(u);
            assert(updates@.map_values(|u: TelegramUpdate| update_view(u)) == before.push(
                update_view(u),
            ));
        }
        i += 1;
    }
    assert(cv.take(n - 1) == cv);
    Ok(updates)
}

/// The message a webhook body carries: a text field is needed; the user
/// defaults to `telegram-user`.
pub open spec fn webhook_message_of(body: Seq<char>) -> Option<(Seq<char>, Seq<char>)> {
    match json_string_field(body, "text"@) {
        Some(text) => Some(
            (
                match json_string_field(body, "username"@) {
                    Some(u) => u,
                    None => "telegram-user"@,
                },
                text,
            ),
        ),
        None => None,
    }
}

/// The incoming message of a webhook body, if it has a text.
pub fn parse_webhook_message(body: &str) -> (r: Option<IncomingMessage>)
    ensures
        webhook_message_of(body@) is None ==> r is None,
        webhook_message_of(body@) matches Some(m) ==> (r matches Some(msg) && msg.channel@ == "telegram-webhook"@
            && msg.user@ == m.0 && msg.text@ == m.1),
{
    let text = extract_json_string(body, "text")?;
    let user = match extract_json_string(body, "username") {
        Some(u) => u,
        None => String::from_str("telegram-user"),
    };
    Some(IncomingMessage { channel: String::from_str("telegram-webhook"), user, text })
}

/// The incoming message of a raw webhook request: the message of its body,
/// or an empty message from `unknown`.
pub fn webhook_incoming(request: &str) -> (r: IncomingMessage)
    ensures
        r.channel@ == "telegram-webhook"@,
        webhook_message_of(second_section(request@)) matches Some(m) ==> r.user@ == m.0 && r.text@ == m.1,
        webhook_message_of(second_section(request@)) is None ==> r.user@ == "unknown"@ && r.text@ == Seq::<char>::empty(),
{
    let body = crate::http::message_body(request);
    match parse_webhook_message(body.as_str()) {
        Some(m) => m,
        None => IncomingMessage {
            channel: String::from_str("telegram-webhook"),
            user: String::from_str("unknown"),
            text: String::new(),
        },
    }
}

// ---------------------------------------------------------------------
// The adapter
// ---------------------------------------------------------------------

/// The Bot API base URL used when none is configured.
pub open spec fn default_api_base() -> Seq<char> {
    "http://127.0.0.1:8081"@
}

/// The URL of a Bot API method.
pub open spec fn method_url(api_base: Seq<char>, token: Seq<char>, method: Seq<char>) -> Seq<char> {
    strip_end_char(api_base, '/') + "/bot"@ + token + "/"@ + method
}

/// The `getUpdates` URL, with the offset when one is given.
pub open spec fn updates_url(api_base: Seq<char>, token: Seq<char>, offset: Option<i64>) -> Seq<char> {
    let base = method_url(api_base, token, "getUpdates"@);
    match offset {
        Some(o) => base + "?offset="@ + signed_decimal(o as int),
        None => base,
    }
}

/// The offset of a `getUpdates` URL is written in decimal after
/// `?offset=`: a non-negative offset with no sign, as digits that read
/// back as the offset; a negative one as `-` and the digits of its
/// magnitude.
pub proof fn lemma_updates_offset_reads_back(api_base: Seq<char>, token: Seq<char>, offset: i64)
    ensures
        ({
            let base = method_url(api_base, token, "getUpdates"@) + "?offset="@;
            let url = updates_url(api_base, token, Some(offset));
            let q = url.subrange(base.len() as int, url.len() as int);
            &&& base.len() <= url.len()
            &&& url.subrange(0, base.len() as int) == base
            &&& (offset >= 0 ==> q.len() > 0 && all_digits(q) && digits_value(q) == offset)
            &&& (offset < 0 ==> q.len() > 1 && q[0] == '-' && all_digits(q.drop_first())
                && digits_value(q.drop_first()) == -offset)
        }),
{
    lemma_signed_decimal_reads_back(offset as int, 0);
    let base = method_url(api_base, token, "getUpdates"@) + "?offset="@;
    let url = updates_url(api_base, token, Some(offset));
    assert(url == base + signed_decimal(offset as int));
    assert(url.subrange(0, base.len() as int) =~= base);
    assert(url.subrange(base.len() as int, url.len() as int) =~= signed_decimal(offset as int));
}

/// The JSON body of a `sendMessage` request; quotes in the text are
/// escaped.
pub open spec fn send_body(chat: Seq<char>, text: Seq<char>) -> Seq<char> {
    "{\"chat_id\":\""@ + chat + "\",\"text\":\""@ + replace_char(text, '"', "\\\""@) + "\"}"@
}

/// The error a failed transport call turns into.
pub open spec fn transport_error(r: TelegramError, e: HttpError) -> bool {
    r matches TelegramError::Transport(m) && m@ == http_error_debug(e)
}

/// The poll result for what the transport gave back.
pub open spec fn polled_as(
    r: Result<Vec<TelegramUpdate>, TelegramError>,
    outcome: Result<HttpResponse, HttpError>,
) -> bool {
    match outcome {
        Err(e) => r matches Err(te) && transport_error(te, e),
        Ok(resp) => parsed_as(r, resp.body@),
    }
}

/// The send result for what the transport gave back.
pub open spec fn sent_as(r: Result<(), TelegramError>, outcome: Result<HttpResponse, HttpError>) -> bool {
    match outcome {
        Err(e) => r matches Err(te) && transport_error(te, e),
        Ok(_) => r is Ok,
    }
}

/// A Telegram bot talking to the Bot API through a transport of type `T`.
#[derive(Clone)]
pub struct TelegramAdapter<T> {
    bot_token: String,
    api_base: String,
    default_chat_id: String,
    transport: Arc<T>,
}

impl<T: HttpTransport> TelegramAdapter<T> {
    pub closed spec fn bot_token(&self) -> Seq<char> {
        self.bot_token@
    }

    pub closed spec fn api_base(&self) -> Seq<char> {
        self.api_base@
    }

    pub closed spec fn default_chat_id(&self) -> Seq<char> {
        self.default_chat_id@
    }

    /// The transport requests go through.
    pub closed spec fn transport_view(&self) -> Arc<T> {
        self.transport
    }

    /// `request` is the `getUpdates` request from `offset`.
    pub open spec fn is_updates_request(&self, request: HttpRequest, offset: Option<i64>) -> bool {
        &&& request.method@ == "GET"@
        &&& request.url@ == updates_url(self.api_base(), self.bot_token(), offset)
        &&& request.headers@.len() == 0
        &&& request.body@ == Seq::<char>::empty()
    }

    /// `request` is the `sendMessage` request of `text` to `chat`.
    pub open spec fn is_send_request(&self, request: HttpRequest, chat: Seq<char>, text: Seq<char>) -> bool {
        &&& request.method@ == "POST"@
        &&& request.url@ == method_url(self.api_base(), self.bot_token(), "sendMessage"@)
        &&& request.headers@.len() == 1
        &&& request.headers@[0].0@ == "Content-Type"@
        &&& request.headers@[0].1@ == "application/json"@
        &&& request.body@ == send_body(chat, text)
    }

    /// The chat a message goes to: the one given, or the default chat.
    pub open spec fn target_chat(&self, chat_id: Option<&str>) -> Seq<char> {
        match chat_id {
            Some(c) => c@,
            None => self.default_chat_id(),
        }
    }

    /// `r` is a poll result: the `getUpdates` request from `offset` went to
    /// the transport, and `r` is what its reply reads as.
    pub open spec fn polls(&self, offset: Option<i64>, r: Result<Vec<TelegramUpdate>, TelegramError>) -> bool {
        exists|request: HttpRequest, reply: Result<HttpResponse, HttpError>|
            #[trigger] self.transport_view().answers(request, reply) && self.is_updates_request(
                request,
                offset,
            ) && polled_as(r, reply)
    }

    /// `r` is a send result: the `sendMessage` request of `text` to `chat`
    /// went to the transport, and `r` is what its reply reads as.
    pub open spec fn sends(&self, chat: Seq<char>, text: Seq<char>, r: Result<(), TelegramError>) -> bool {
        exists|request: HttpRequest, reply: Result<HttpResponse, HttpError>|
            #[trigger] self.transport_view().answers(request, reply) && self.is_send_request(
                request,
                chat,
                text,
            ) && sent_as(r, reply)
    }

    /// An adapter for the configuration that sends through `transport`; the
    /// bot token and chat id are required, the API base defaults to
    /// `http://127.0.0.1:8081`.
    pub fn with_transport(config: &TelegramConfig, transport: Arc<T>) -> (r: Result<Self, TelegramError>)
        ensures
            config.bot_token is None ==> (r matches Err(TelegramError::Config(m)) && m@ == "missing bot token"@),
            config.bot_token is Some && config.chat_id is None ==> (r matches Err(TelegramError::Config(m)) && m@ == "missing chat id"@),
            config.bot_token is Some && config.chat_id is Some ==> (r matches Ok(a)
                && a.bot_token() == config.bot_token->0@ && a.default_chat_id() == config.chat_id->0@
                && a.transport_view() == transport && a.api_base() == match config.api_base {
                    Some(b) => b@,
                    None => default_api_base(),
                }),
    {
        let bot_token = match &config.bot_token {
            Some(t) => t.clone(),
            None => {
                return Err(TelegramError::Config(String::from_str("missing bot token")));
            },
        };
        let chat_id = match &config.chat_id {
            Some(c) => c.clone(),
            None => {
                return Err(TelegramError::Config(String::from_str("missing chat id")));
            },
        };
        let api_base = match &config.api_base {
            Some(b) => b.clone(),
            None => String::from_str("http://127.0.0.1:8081"),
        };
        Ok(TelegramAdapter { bot_token, api_base, default_chat_id: chat_id, transport })
    }

    /// `api_base` without trailing slashes, then `/bot<token>/<method>`.
    fn method_url_chars(&self, method: &str) -> (r: Vec<char>)
        ensures
            r@ == method_url(self.api_base(), self.bot_token(), method@),
    {
        let base = chars_of(self.api_base.as_str());
        let mut j: usize = base.len();
        assert(base@.subrange(0, base@.len() as int) == base@);
        while j > 0 && base[j - 1] == '/'
            invariant
                j <= base@.len(),
                strip_end_char(base@, '/') == strip_end_char(base@.subrange(0, j as int), '/'),
            decreases j,
        {
            assert(base@.subrange(0, j as int).drop_last() == base@.subrange(0, j - 1));
            j -= 1;
        }
        let mut out = slice_chars(base.as_slice(), 0, j);
        push_str(&mut out, "/bot");
        push_str(&mut out, self.bot_token.as_str());
        push_str(&mut out, "/");
        push_str(&mut out, method);
        out
    }

    /// The `getUpdates` request.
    pub fn updates_request(&self, offset: Option<i64>) -> (r: HttpRequest)
        ensures
            self.is_updates_request(r, offset),
    {
        let mut url = self.method_url_chars("getUpdates");
        match offset {
            Some(o) => {
                push_str(&mut url, "?offset=");
                push_signed_decimal(&mut url, o);
            },
            None => {},
        }
        HttpRequest {
            method: String::from_str("GET"),
            url: string_of(url.as_slice()),
            headers: Vec::new(),
            body: String::new(),
        }
    }

    /// Fetches and reads the pending updates.
    pub fn poll_updates_once(&self, offset: Option<i64>) -> (r: Result<Vec<TelegramUpdate>, TelegramError>)
        ensures
            self.polls(offset, r),
    {
        let request = self.updates_request(offset);
        let reply = self.transport.send(&request);
        assert(self.transport_view().answers(request, reply));
        match reply {
            Err(e) => {
                let m = e.debug_text();
                let r = Err(TelegramError::Transport(m));
                assert(polled_as(r, Err(e)));
                r
            },
            Ok(response) => {
                let r = parse_updates(response.body.as_str());
                assert(polled_as(r, Ok(response)));
                r
            },
        }
    }

    /// The `sendMessage` request for `text` to `chat_id`, or to the default
    /// chat.
    pub fn send_message_request(&self, chat_id: Option<&str>, text: &str) -> (r: HttpRequest)
        ensures
            self.is_send_request(r, self.target_chat(chat_id), text@),
    {
        let url = self.method_url_chars("sendMessage");
        let mut body = chars_of("{\"chat_id\":\"");
        match chat_id {
            Some(c) => push_str(&mut body, c),
            None => push_str(&mut body, self.default_chat_id.as_str()),
        }
        push_str(&mut body, "\",\"text\":\"");
        let t = chars_of(text);
        let esc = chars_of("\\\"");
        let escaped = replace_char_chars(t.as_slice(), '"', esc.as_slice());
        push_all(&mut body, escaped.as_slice());
        push_str(&mut body, "\"}");
        let mut headers: Vec<(String, String)> = Vec::new();
        headers.push((String::from_str("Content-Type"), String::from_str("application/json")));
        HttpRequest {
            method: String::from_str("POST"),
            url: string_of(url.as_slice()),
            headers,
            body: string_of(body.as_slice()),
        }
    }

    /// Sends `text` to `chat_id`, or to the default chat.
    pub fn send_message(&self, chat_id: Option<&str>, text: &str) -> (r: Result<(), TelegramError>)
        ensures
            self.sends(self.target_chat(chat_id), text@, r),
    {
        let request = self.send_message_request(chat_id, text);
        let reply = self.transport.send(&request);
        assert(self.transport_view().answers(request, reply));
        match reply {
            Err(e) => {
                let m = e.debug_text();
                let r = Err(TelegramError::Transport(m));
                assert(sent_as(r, Err(e)));
                r
            },
            Ok(response) => {
                assert(sent_as(Ok(()), Ok(response)));
                Ok(())
            },
        }
    }

    /// Answering `update` took the agent from `pre` to `post`, and `sent`
    /// is what sending the reply gave: the update's text went to the agent
    /// as a webhook message; a reply went to the update's chat; an update
    /// the agent could not answer was passed over.
    pub open spec fn update_answered(
        &self,
        pre: Agent,
        post: Agent,
        update: TelegramUpdate,
        sent: Result<(), TelegramError>,
    ) -> bool {
        exists|reply: Result<String, AgentError>|
            #[trigger] Agent::prompt_run(pre, post, update.text@, reply) && match reply {
                Ok(text) => self.sends(update.chat_id@, text@, sent),
                Err(_) => sent is Ok,
            }
    }

    /// The `i`-th update was answered, taking the agent from `agents[i]` to
    /// `agents[i + 1]`, and its reply, if any, was sent.
    pub open spec fn answered_at(&self, agents: Seq<Agent>, updates: Seq<TelegramUpdate>, i: int) -> bool {
        self.update_answered(agents[i], agents[i + 1], updates[i], Ok(()))
    }

    /// `agents` are the agent's states while the first `k` updates were
    /// answered in order, each reply sent.
    pub open spec fn answered_through(&self, agents: Seq<Agent>, updates: Seq<TelegramUpdate>, k: int) -> bool {
        &&& 0 <= k <= updates.len()
        &&& agents.len() == k + 1
        &&& forall|i: int| 0 <= i < k ==> #[trigger] self.answered_at(agents, updates, i)
    }

    /// What answering `updates` does to the agent and gives: every update
    /// is answered in order and the count of updates is the result; or
    /// the first reply that could not be sent stops the run with its error.
    pub open spec fn answered(
        &self,
        pre: Agent,
        post: Agent,
        updates: Seq<TelegramUpdate>,
        r: Result<usize, TelegramError>,
    ) -> bool {
        match r {
            Ok(n) => n == updates.len() && exists|agents: Seq<Agent>|
                #[trigger] self.answered_through(agents, updates, updates.len() as int) && agents[0]
                    == pre && agents.last() == post,
            Err(e) => exists|agents: Seq<Agent>, k: int|
                #[trigger] self.answered_through(agents, updates, k) && k < updates.len() && agents[0]
                    == pre && self.update_answered(agents.last(), post, updates[k], Err(e)),
        }
    }

    /// Answers the updates in order through the agent and sends each reply
    /// to the update's chat; an update the agent cannot answer is passed
    /// over. Gives the number of updates, or the first send error.
    pub fn answer_updates(&self, agent: &mut Agent, updates: &[TelegramUpdate]) -> (r: Result<usize, TelegramError>)
        ensures
            self.answered(*old(agent), *final(agent), updates@, r),
    {
        let ghost start = *agent;
        let ghost mut trace: Seq<Agent> = seq![*agent];
        let n = updates.len();
        for i in 0..n
            invariant
                n == updates@.len(),
                self.answered_through(trace, updates@, i as int),
                trace[0] == start,
                start == *old(agent),
                trace.last() == *agent,
        {
            let update = &updates[i];
            let adapter = WebhookAdapter;
            let incoming = adapter.normalize(update.user.as_str(), update.text.as_str());
            let ghost before = *agent;
            let answer = agent.handle_message(incoming);
            let ghost reply = reply_text(answer);
            assert(Agent::prompt_run(before, *agent, update.text@, reply));
            match answer {
                Ok(outgoing) => {
                    let sent = self.send_message(Some(update.chat_id.as_str()), outgoing.text.as_str());
                    match sent {
                        Err(e) => {
                            proof {
                                assert(self.update_answered(before, *agent, updates@[i as int], Err(e)));
                                assert(self.answered_through(trace, updates@, i as int));
                            }
                            let r: Result<usize, TelegramError> = Err(e);
                            assert(self.answered(start, *agent, updates@, r));
                            return r;
                        },
                        Ok(()) => {},
                    }
                },
                Err(_) => {},
            }
            proof {
                let old_trace = trace;
                trace = trace.push(*agent);
                assert(self.update_answered(before, *agent, updates@[i as int], Ok(())));
                assert forall|j: int| 0 <= j < i + 1 implies #[trigger] self.answered_at(trace, updates@, j) by {
                    if j < i {
                        assert(self.answered_at(old_trace, updates@, j));
                        assert(trace[j] == old_trace[j] && trace[j + 1] == old_trace[j + 1]);
                    } else {
                        assert(trace[j] == before);
                    }
                }
            }
        }
        assert(self.answered_through(trace, updates@, n as int));
        Ok(n)
    }

    /// Polls once and answers every update through the agent, sending each
    /// reply to the update's chat; an update the agent cannot answer is
    /// passed over. Gives the number of updates.
    pub fn handle_polling_once(&self, agent: &mut Agent) -> (r: Result<usize, TelegramError>)
        ensures
            exists|polled: Result<Vec<TelegramUpdate>, TelegramError>|
                #[trigger] self.polls(None, polled) && match polled {
                    Err(e) => r == Err::<usize, TelegramError>(e) && *final(agent) == *old(agent),
                    Ok(updates) => self.answered(*old(agent), *final(agent), updates@, r),
                },
    {
        let polled = self.poll_updates_once(None);
        let ghost g = polled;
        match polled {
            Err(e) => Err(e),
            Ok(updates) => self.answer_updates(agent, updates.as_slice()),
        }
    }
}

} // verus!
