//! Language-model providers of the command-line program.
use vstd::prelude::*;
use crate::numfmt::{decimal, push_decimal};
use crate::text::{chars_of, lines, lines_chars, push_all, push_str, replace_char, replace_char_chars, string_of};

verus! {

/// A prompt for a model.
#[derive(Debug, Clone)]
pub struct LlmRequest {
    pub prompt: String,
}

/// A model's answer.
#[derive(Debug, Clone)]
pub struct LlmResponse {
    pub text: String,
    pub model: String,
}

/// A language-model backend.
pub trait LlmProvider: Send + Sync {
    /// Whether `reply` is an answer this backend may give to `prompt`; a
    /// backend that does not say admits every reply.
    open spec fn answers(&self, prompt: Seq<char>, reply: Result<LlmResponse, String>) -> bool {
        true
    }

    fn generate(&self, req: LlmRequest) -> (r: Result<LlmResponse, String>)
        ensures
            self.answers(req.prompt@, r),
    ;
}

/// The OpenAI chat-completions backend.
pub struct OpenAiProvider {
    pub api_key: String,
    pub model: String,
}

/// The JSON body of a chat request; double quotes in the prompt become
/// single quotes.
pub open spec fn openai_body(model: Seq<char>, prompt: Seq<char>) -> Seq<char> {
    "{\"model\":\""@ + model + "\",\"messages\":[{\"role\":\"user\",\"content\":\""@ + replace_char(
        prompt,
        '"',
        "'"@,
    ) + "\"}]}"@
}

/// The HTTP request text of a chat request.
pub open spec fn openai_request(api_key: Seq<char>, body: Seq<char>) -> Seq<char> {
    "POST /v1/chat/completions HTTP/1.1\r\nHost: api.openai.com\r\nAuthorization: Bearer "@ + api_key
        + "\r\nContent-Type: application/json\r\nContent-Length: "@ + decimal(
        vstd::utf8::encode_utf8(body).len(),
    ) + "\r\n\r\n"@ + body
}

/// The answer text for a raw reply: its first line, marked as raw.
pub open spec fn openai_answer(raw: Seq<char>) -> Seq<char> {
    "openai_raw_response:"@ + (if lines(raw).len() > 0 {
        lines(raw)[0]
    } else {
        Seq::empty()
    })
}

impl OpenAiProvider {
    /// The JSON body for a prompt.
    pub fn chat_body(&self, prompt: &str) -> (r: String)
        ensures
            r@ == openai_body(self.model@, prompt@),
    {
        let mut out = chars_of("{\"model\":\"");
        push_str(&mut out, self.model.as_str());
        push_str(&mut out, "\",\"messages\":[{\"role\":\"user\",\"content\":\"");
        let p = chars_of(prompt);
        let q = chars_of("'");
        let escaped = replace_char_chars(p.as_slice(), '"', q.as_slice());
        push_all(&mut out, escaped.as_slice());
        push_str(&mut out, "\"}]}");
        string_of(out.as_slice())
    }

    /// The HTTP request text for a prompt.
    pub fn chat_request(&self, prompt: &str) -> (r: String)
        ensures
            r@ == openai_request(self.api_key@, openai_body(self.model@, prompt@)),
    {
        let body = self.chat_body(prompt);
        let mut out = chars_of(
            "POST /v1/chat/completions HTTP/1.1\r\nHost: api.openai.com\r\nAuthorization: Bearer ",
        );
        push_str(&mut out, self.api_key.as_str());
        push_str(&mut out, "\r\nContent-Type: application/json\r\nContent-Length: ");
        push_decimal(&mut out, body.as_str().as_bytes().len() as u128);
        push_str(&mut out, "\r\n\r\n");
        push_str(&mut out, body.as_str());
        string_of(out.as_slice())
    }

    /// The response for a raw reply.
    pub fn response_from_raw(&self, raw: &str) -> (r: LlmResponse)
        ensures
            r.text@ == openai_answer(raw@),
            r.model@ == self.model@,
    {
        let cs = chars_of(raw);
        let ls = lines_chars(cs.as_slice());
        let mut out = chars_of("openai_raw_response:");
        if ls.len() > 0 {
            push_all(&mut out, ls[0].as_slice());
        } else {
            assert(out@ + Seq::<char>::empty() == out@);
        }
        LlmResponse { text: string_of(out.as_slice()), model: self.model.clone() }
    }
}

/// A backend that echoes the prompt.
pub struct MockProvider;

/// The echo backend's answer to `prompt`.
pub open spec fn mock_answers(prompt: Seq<char>, reply: Result<LlmResponse, String>) -> bool {
    reply matches Ok(resp) && resp.text@ == "echo:"@ + prompt && resp.model@ == "mock"@
}

impl LlmProvider for MockProvider {
    open spec fn answers(&self, prompt: Seq<char>, reply: Result<LlmResponse, String>) -> bool {
        mock_answers(prompt, reply)
    }

    fn generate(&self, req: LlmRequest) -> (r: Result<LlmResponse, String>)
        ensures
            r matches Ok(resp) && resp.text@ == "echo:"@ + req.prompt@ && resp.model@ == "mock"@,
    {
        let mut out = chars_of("echo:");
        push_str(&mut out, req.prompt.as_str());
        Ok(LlmResponse { text: string_of(out.as_slice()), model: String::from_str("mock") })
    }
}

} // verus!
