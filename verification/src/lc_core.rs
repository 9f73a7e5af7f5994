//! The command-line program's core: a provider, an enciphered memory and
//! the plugin scheduler.
use std::sync::Arc;
use vstd::prelude::*;
use crate::lc_provider::{LlmProvider, LlmRequest, LlmResponse};
use crate::lc_sandbox::{PluginManifest, WasmSandbox, execute_result};
use crate::lc_scheduler::ScheduledTask;
use crate::memory::{MemoryStore, latin1, xor_all};
use crate::text::{string_of, words};

verus! {

broadcast use vstd::slice::group_slice_axioms;

/// All bytes XOR-ed together.
pub open spec fn xor_fold(b: Seq<u8>) -> u8
    decreases b.len(),
{
    if b.len() == 0 {
        0
    } else {
        xor_fold(b.drop_last()) ^ b.last()
    }
}

/// The one-byte key derived from a secret: the XOR of its UTF-8 bytes.
pub open spec fn derive_key(secret: Seq<char>) -> u8 {
    xor_fold(vstd::utf8::encode_utf8(secret))
}

/// Each UTF-8 byte of `text` XOR-ed with `key` and read as a character;
/// it both enciphers and deciphers.
pub open spec fn xor_cipher(text: Seq<char>, key: u8) -> Seq<char> {
    latin1(xor_all(vstd::utf8::encode_utf8(text), key))
}

/// The core of the command-line program. Its memory is a `MemoryStore`
/// (a map kept as a list of entries with distinct keys) rather than a
/// `BTreeMap<String, String>` behind a mutex: vstd specifies the map only
/// for key types that obey its ordering model, which `String` is not
/// granted, and it gives the mutex no specification; the methods that
/// write take `&mut self` instead.
pub struct Core<P> {
    pub provider: Arc<P>,
    pub sandbox: WasmSandbox,
    memory: MemoryStore,
    encryption_key: u8,
}

/// What the scheduler loop does next.
#[derive(Debug, Clone)]
pub enum SchedulerAction {
    /// Load the manifest at `path` for the task at index `task`.
    LoadManifest { task: usize, path: String },
    /// No task is left; the count of tasks run.
    Finished(usize),
}

/// Where a scheduler run stands: the next task index to look at and the
/// number of tasks run so far.
#[derive(Debug, Clone, Copy)]
pub struct SchedulerRun {
    pub next: usize,
    pub fired: usize,
}

/// The first task at or after `from` that is due.
pub open spec fn first_due_from(tasks: Seq<ScheduledTask>, from: int) -> Option<int>
    decreases tasks.len() - from,
{
    if from < 0 || from >= tasks.len() {
        None
    } else if words(tasks[from].cron@).len() == 5 {
        Some(from)
    } else {
        first_due_from(tasks, from + 1)
    }
}

/// A run at its start.
pub fn scheduler_start() -> (r: SchedulerRun)
    ensures
        r.next == 0,
        r.fired == 0,
{
    SchedulerRun { next: 0, fired: 0 }
}

/// Enciphers or deciphers `text` with `key`.
pub fn xor_text(text: &str, key: u8) -> (r: String)
    ensures
        r@ == xor_cipher(text@, key),
{
    let bytes = text.as_bytes();
    let mut out: Vec<char> = Vec::new();
    let n = bytes.len();
    for i in 0..n
        invariant
            n == bytes@.len(),
            bytes@ == vstd::utf8::encode_utf8(text@),
            out@ == latin1(xor_all(bytes@.take(i as int), key)),
    {
        out.push((bytes[i] ^ key) as char);
        assert(latin1(xor_all(bytes@.take(i + 1), key)) == latin1(xor_all(bytes@.take(i as int), key)).push(
            (bytes@[i as int] ^ key) as char,
        ));
    }
    assert(bytes@.take(n as int) == bytes@);
    string_of(out.as_slice())
}

impl<P: LlmProvider> Core<P> {
    /// What the memory holds, enciphered.
    pub closed spec fn stored(&self) -> Map<Seq<char>, Seq<char>> {
        self.memory@
    }

    /// The provider answering prompts.
    pub closed spec fn provider_view(&self) -> Arc<P> {
        self.provider
    }

    /// The memory key.
    pub closed spec fn key(&self) -> u8 {
        self.encryption_key
    }

    /// A core answering through `provider`, with empty memory and the key
    /// derived from `encryption_key`.
    pub fn new(provider: Arc<P>, _db_path: &str, encryption_key: &str) -> (r: Result<Self, String>)
        ensures
            r matches Ok(c) && c.stored() == Map::<Seq<char>, Seq<char>>::empty() && c.key() == derive_key(
                encryption_key@,
            ) && c.provider_view() == provider,
    {
        let bytes = encryption_key.as_bytes();
        let mut key: u8 = 0;
        let n = bytes.len();
        for i in 0..n
            invariant
                n == bytes@.len(),
                key == xor_fold(bytes@.take(i as int)),
        {
            assert(bytes@.take(i + 1).drop_last() == bytes@.take(i as int));
            key = key ^ bytes[i];
        }
        assert(bytes@.take(n as int) == bytes@);
        Ok(Core { provider, sandbox: WasmSandbox, memory: MemoryStore::new(), encryption_key: key })
    }

    /// The memory of `self` after an exchange of `input` answered by the
    /// backend with `reply`, and the answer given for it: the answer text
    /// on success, with both messages stored enciphered; the backend's
    /// error otherwise, with the memory unchanged.
    pub open spec fn exchange(
        self,
        next: Self,
        input: Seq<char>,
        reply: Result<LlmResponse, String>,
        r: Result<String, String>,
    ) -> bool {
        match reply {
            Ok(resp) => r == Ok::<String, String>(resp.text) && next.stored() == self.stored().insert(
                "last_user_message"@,
                xor_cipher(input, self.key()),
            ).insert("last_assistant_message"@, xor_cipher(resp.text@, self.key())),
            Err(e) => r == Err::<String, String>(e) && next.stored() == self.stored(),
        }
    }

    /// Asks the provider and remembers the exchange.
    pub fn handle_message(&mut self, input: &str) -> (r: Result<String, String>)
        ensures
            final(self).key() == old(self).key(),
            final(self).provider_view() == old(self).provider_view(),
            exists|reply: Result<LlmResponse, String>|
                #[trigger] old(self).provider_view().answers(input@, reply) && old(self).exchange(
                    *final(self),
                    input@,
                    reply,
                    r,
                ),
    {
        let prompt = String::from_str(input);
        let reply = self.provider.generate(LlmRequest { prompt });
        let ghost g = reply;
        assert(self.provider_view().answers(input@, g));
        match reply {
            Ok(answer) => {
                let _ = self.put_memory("last_user_message", input);
                let _ = self.put_memory("last_assistant_message", answer.text.as_str());
                let r = Ok(answer.text);
                assert(old(self).exchange(*self, input@, g, r));
                r
            },
            Err(e) => {
                let r = Err(e);
                assert(old(self).exchange(*self, input@, g, r));
                r
            },
        }
    }

    /// Stores `value`, enciphered, under `key`.
    pub fn put_memory(&mut self, key: &str, value: &str) -> (r: Result<(), String>)
        ensures
            r is Ok,
            final(self).stored() == old(self).stored().insert(key@, xor_cipher(value@, old(self).key())),
            final(self).key() == old(self).key(),
            final(self).provider_view() == old(self).provider_view(),
    {
        let encrypted = xor_text(value, self.encryption_key);
        self.memory.put(key, encrypted.as_str());
        Ok(())
    }

    /// The deciphered value stored under `key`, if any.
    pub fn get_memory(&self, key: &str) -> (r: Result<Option<String>, String>)
        ensures
            r matches Ok(v) && (match v {
                Some(s) => self.stored().contains_key(key@) && s@ == xor_cipher(self.stored()[key@], self.key()),
                None => !self.stored().contains_key(key@),
            }),
    {
        match self.memory.get(key) {
            Some(v) => Ok(Some(xor_text(v, self.encryption_key))),
            None => Ok(None),
        }
    }

    /// The next step of a scheduler run over `tasks`: load the manifest of
    /// the next due task, or finish with the count of tasks run.
    pub fn scheduler_next(&self, tasks: &[ScheduledTask], run: SchedulerRun) -> (r: SchedulerAction)
        ensures
            first_due_from(tasks@, run.next as int) is None ==> (r matches SchedulerAction::Finished(n) && n == run.fired),
            first_due_from(tasks@, run.next as int) matches Some(i) ==> (r matches SchedulerAction::LoadManifest {
                task,
                path,
            } && task == i && path@ == tasks@[i].plugin_manifest@),
    {
        let mut i = run.next;
        while i < tasks.len()
            invariant
                run.next <= i,
                tasks.len() == tasks@.len(),
                first_due_from(tasks@, run.next as int) == first_due_from(tasks@, i as int),
            decreases tasks@.len() - i,
        {
            if tasks[i].is_due_every_minute() {
                return SchedulerAction::LoadManifest { task: i, path: tasks[i].plugin_manifest.clone() };
            }
            i += 1;
        }
        SchedulerAction::Finished(run.fired)
    }

    /// Runs the capability of the task at `task` with its loaded manifest;
    /// on success the run moves past the task with one more task run.
    pub fn scheduler_task_done(
        &self,
        tasks: &[ScheduledTask],
        run: SchedulerRun,
        task: usize,
        manifest: Result<PluginManifest, String>,
        wasm_file_exists: bool,
    ) -> (r: Result<SchedulerRun, String>)
        requires
            task < tasks@.len(),
            run.fired < usize::MAX,
        ensures
            manifest matches Err(e) ==> r == Err::<SchedulerRun, String>(e),
            manifest matches Ok(m) ==> match execute_result(m, tasks@[task as int].capability@, wasm_file_exists) {
                Err(msg) => r matches Err(e) && e@ == msg,
                Ok(_) => r matches Ok(next) && next.next == task + 1 && next.fired == run.fired + 1,
            },
    {
        let m = manifest?;
        let _ = self.sandbox.execute(&m, tasks[task].capability.as_str(), wasm_file_exists)?;
        Ok(SchedulerRun { next: task + 1, fired: run.fired + 1 })
    }
}

/// Enciphering twice with a key below 128 gives ASCII text back.
pub proof fn lemma_xor_cipher_round_trip(text: Seq<char>, key: u8)
    requires
        vstd::utf8::is_ascii_chars(text),
        key < 128,
    ensures
        xor_cipher(xor_cipher(text, key), key) == text,
{
    let e = vstd::utf8::encode_utf8(text);
    vstd::utf8::is_ascii_chars_encode_utf8(text);
    let c = xor_cipher(text, key);
    assert forall|i: int| 0 <= i < c.len() implies '\0' <= #[trigger] c[i] <= '\u{7f}' by {
        let b = e[i];
        assert(b == text[i] as u8);
        assert(b < 128);
        assert((b ^ key) < 128) by (bit_vector)
            requires
                b < 128,
                key < 128,
        ;
    }
    vstd::utf8::is_ascii_chars_encode_utf8(c);
    let e2 = vstd::utf8::encode_utf8(c);
    assert forall|i: int| 0 <= i < text.len() implies xor_cipher(c, key)[i] == text[i] by {
        let b = e[i];
        assert(e2[i] == c[i] as u8);
        assert(c[i] == (b ^ key) as char);
        assert(((b ^ key) ^ key) == b) by (bit_vector);
        assert(b == text[i] as u8);
    }
    assert(xor_cipher(c, key) =~= text);
}

/// The key derived from an ASCII secret is below 128.
pub proof fn lemma_ascii_secret_key(secret: Seq<char>)
    requires
        vstd::utf8::is_ascii_chars(secret),
    ensures
        derive_key(secret) < 128,
{
    let e = vstd::utf8::encode_utf8(secret);
    vstd::utf8::is_ascii_chars_encode_utf8(secret);
    assert forall|i: int| 0 <= i < e.len() implies #[trigger] e[i] < 128 by {
        assert(e[i] == secret[i] as u8);
    }
    lemma_xor_fold_small(e);
}

proof fn lemma_xor_fold_small(b: Seq<u8>)
    requires
        forall|i: int| 0 <= i < b.len() ==> #[trigger] b[i] < 128,
    ensures
        xor_fold(b) < 128,
    decreases b.len(),
{
    if b.len() > 0 {
        let d = b.drop_last();
        assert forall|i: int| 0 <= i < d.len() implies #[trigger] d[i] < 128 by {
            assert(d[i] == b[i]);
        }
        lemma_xor_fold_small(d);
        let x = xor_fold(d);
        let y = b.last();
        assert(y < 128);
        assert((x ^ y) < 128) by (bit_vector)
            requires
                x < 128,
                y < 128,
        ;
    }
}

} // verus!
