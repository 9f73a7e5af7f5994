//! The Telegram polling adapter of the command-line program.
use vstd::prelude::*;
use crate::lc_core::{Core, xor_cipher};
use crate::lc_provider::{LlmProvider, LlmResponse};

verus! {

/// A Telegram bot identity.
#[derive(Clone)]
pub struct TelegramAdapter {
    token: String,
    chat_id: String,
}

impl TelegramAdapter {
    pub closed spec fn token_view(&self) -> Seq<char> {
        self.token@
    }

    pub closed spec fn chat_id_view(&self) -> Seq<char> {
        self.chat_id@
    }

    pub fn new(token: String, chat_id: String) -> (r: Self)
        ensures
            r.token_view() == token@,
            r.chat_id_view() == chat_id@,
    {
        TelegramAdapter { token, chat_id }
    }

    /// Handles one polled message: a test prompt sent to the core; gives
    /// the number of messages handled, or the core's error.
    pub fn poll_once<P: LlmProvider>(&self, core: &mut Core<P>) -> (r: Result<usize, String>)
        ensures
            final(core).key() == old(core).key(),
            final(core).provider_view() == old(core).provider_view(),
            exists|reply: Result<LlmResponse, String>|
                #[trigger] old(core).provider_view().answers("telegram-test"@, reply) && match reply {
                    Ok(resp) => r == Ok::<usize, String>(1) && final(core).stored() == old(core).stored().insert(
                        "last_user_message"@,
                        xor_cipher("telegram-test"@, old(core).key()),
                    ).insert("last_assistant_message"@, xor_cipher(resp.text@, old(core).key())),
                    Err(e) => r == Err::<usize, String>(e) && final(core).stored() == old(core).stored(),
                },
    {
        let _ = core.handle_message("telegram-test")?;
        Ok(1)
    }
}

} // verus!
