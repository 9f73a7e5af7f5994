//! The agent: ties policy, memory, plugins, providers, audit log,
//! scheduler and tool sandbox together.
use vstd::prelude::*;
use crate::audit::{AuditEvent, AuditLog};
use crate::channels::{IncomingMessage, OutgoingMessage};
use crate::memory::MemoryStore;
use crate::numfmt::{decimal, push_decimal};
use crate::plugins::{PluginManifest, PluginRegistry};
use crate::policy::{Permission, Policy};
use crate::providers::{
    LlmProvider, ProviderError, ProviderRequest, ProviderResponse, ProviderRouter, route, routed,
};
use crate::sandbox::{SandboxError, ToolRequest, ToolSandbox, sandbox_error_name};
use crate::scheduler::{ScheduledTask, Scheduler, due_at};
use crate::text::{chars_of, push_str, string_of};

verus! {

/// Why the agent could not complete a request.
#[derive(Debug)]
pub enum AgentError {
    Provider(ProviderError),
    Sandbox(SandboxError),
}

/// The message of an agent error.
pub open spec fn agent_error_message(e: AgentError) -> Seq<char> {
    match e {
        AgentError::Provider(_) => "provider error: "@ + "provider unavailable"@,
        AgentError::Sandbox(s) => "sandbox error: "@ + sandbox_error_name(s),
    }
}

impl AgentError {
    /// The human-readable message for the error.
    pub fn message(&self) -> (r: String)
        ensures
            r@ == agent_error_message(*self),
    {
        match self {
            AgentError::Provider(err) => {
                let mut out = chars_of("provider error: ");
                let m = err.message();
                push_str(&mut out, m.as_str());
                string_of(out.as_slice())
            },
            AgentError::Sandbox(err) => {
                let mut out = chars_of("sandbox error: ");
                let m = err.debug_name();
                push_str(&mut out, m.as_str());
                string_of(out.as_slice())
            },
        }
    }
}

impl From<ProviderError> for AgentError {
    fn from(value: ProviderError) -> (r: AgentError) {
        AgentError::Provider(value)
    }
}

impl vstd::std_specs::convert::FromSpecImpl<ProviderError> for AgentError {
    open spec fn obeys_from_spec() -> bool {
        true
    }

    open spec fn from_spec(v: ProviderError) -> AgentError {
        AgentError::Provider(v)
    }
}

impl From<SandboxError> for AgentError {
    fn from(value: SandboxError) -> (r: AgentError) {
        AgentError::Sandbox(value)
    }
}

impl vstd::std_specs::convert::FromSpecImpl<SandboxError> for AgentError {
    open spec fn obeys_from_spec() -> bool {
        true
    }

    open spec fn from_spec(v: SandboxError) -> AgentError {
        AgentError::Sandbox(v)
    }
}

/// The event has the given actor, action, verdict and detail.
pub open spec fn event_is(
    e: AuditEvent,
    actor: Seq<char>,
    action: Seq<char>,
    allowed: bool,
    detail: Seq<char>,
) -> bool {
    &&& e.actor@ == actor
    &&& e.action@ == action
    &&& e.allowed == allowed
    &&& e.detail@ == detail
}

/// The detail recorded for a generated response.
pub open spec fn generate_detail(model: Seq<char>, plugins: nat) -> Seq<char> {
    "Generated response via "@ + model + " with "@ + decimal(plugins) + " plugins loaded"@
}

/// The memory key under which the last prompt is kept.
pub open spec fn last_prompt_key() -> Seq<char> {
    "last_prompt"@
}

/// The context handed to the providers: the last prompt, when memory may
/// be read and holds one.
pub open spec fn prompt_context(allowed: Set<Permission>, memory: Map<Seq<char>, Seq<char>>) -> Seq<
    Seq<char>,
> {
    if allowed.contains(Permission::MemoryRead) && memory.contains_key(last_prompt_key()) {
        seq![memory[last_prompt_key()]]
    } else {
        Seq::empty()
    }
}

/// The agent, running tools in a sandbox of type `S`.
pub struct Agent<S = Box<dyn ToolSandbox>> {
    policy: Policy,
    memory: MemoryStore,
    plugins: PluginRegistry,
    router: ProviderRouter,
    audit: AuditLog,
    scheduler: Scheduler,
    sandbox: S,
}

/// The input of the latest of the first `k` prompts that was answered.
pub open spec fn last_answered(
    inputs: Seq<Seq<char>>,
    replies: Seq<Result<String, AgentError>>,
    k: int,
) -> Option<Seq<char>>
    decreases k,
{
    if k <= 0 {
        None
    } else if replies[k - 1] is Ok {
        Some(inputs[k - 1])
    } else {
        last_answered(inputs, replies, k - 1)
    }
}

/// The text of a reply, or its error.
pub open spec fn reply_text(r: Result<OutgoingMessage, AgentError>) -> Result<String, AgentError> {
    match r {
        Ok(out) => Ok(out.text),
        Err(e) => Err(e),
    }
}

impl<S: ToolSandbox> Agent<S> {
    /// The agent's policy.
    pub closed spec fn policy(&self) -> Policy {
        self.policy
    }

    /// The permissions the agent has.
    pub open spec fn allowed(&self) -> Set<Permission> {
        self.policy()@
    }

    /// What the agent remembers.
    pub closed spec fn memory(&self) -> Map<Seq<char>, Seq<char>> {
        self.memory@
    }

    /// The plugins registered with the agent.
    pub closed spec fn plugins(&self) -> Seq<PluginManifest> {
        self.plugins.manifests()
    }

    /// The audit trail.
    pub closed spec fn audit(&self) -> Seq<AuditEvent> {
        self.audit@
    }

    /// The agent's scheduler.
    pub closed spec fn schedule(&self) -> Scheduler {
        self.scheduler
    }

    /// The providers the agent routes among, in order of preference.
    pub closed spec fn providers(&self) -> Seq<Box<dyn LlmProvider>> {
        self.router.providers()
    }

    /// How many providers the agent routes among.
    pub open spec fn provider_count(&self) -> nat {
        self.providers().len()
    }

    /// Whether the agent's sandbox may give `reply` for `request` under
    /// `policy`.
    pub closed spec fn sandbox_answers(
        &self,
        policy: Policy,
        request: ToolRequest,
        reply: Result<String, SandboxError>,
    ) -> bool {
        self.sandbox.answers(policy, request, reply)
    }

    /// The agent runs tools in the same sandbox as `other`.
    pub closed spec fn same_sandbox(&self, other: &Self) -> bool {
        self.sandbox == other.sandbox
    }

    /// Everything but the memory and audit trail is as in `other`.
    pub open spec fn same_setup(&self, other: &Self) -> bool {
        &&& self.policy() == other.policy()
        &&& self.plugins() == other.plugins()
        &&& self.schedule() == other.schedule()
        &&& self.providers() == other.providers()
        &&& self.same_sandbox(other)
    }

    /// An agent with the given policy, providers and tool sandbox, and
    /// empty memory, plugin registry, audit log and schedule.
    pub fn new(policy: Policy, router: ProviderRouter, sandbox: S) -> (r: Self)
        ensures
            r.policy() == policy,
            r.memory() == Map::<Seq<char>, Seq<char>>::empty(),
            r.plugins() == Seq::<PluginManifest>::empty(),
            r.audit() == Seq::<AuditEvent>::empty(),
            r.schedule().tick() == 0,
            r.schedule().tasks() == Seq::<ScheduledTask>::empty(),
            r.providers() == router.providers(),
            forall|p: Policy, q: ToolRequest, reply: Result<String, SandboxError>|
                #[trigger] r.sandbox_answers(p, q, reply) == sandbox.answers(p, q, reply),
    {
        Agent {
            policy,
            memory: MemoryStore::new(),
            plugins: PluginRegistry::new(false),
            router,
            audit: AuditLog::default(),
            scheduler: Scheduler::default(),
            sandbox,
        }
    }

    /// Replaces the plugin registry.
    pub fn register_plugins(&mut self, registry: PluginRegistry)
        ensures
            final(self).plugins() == registry.manifests(),
            final(self).policy() == old(self).policy(),
            final(self).memory() == old(self).memory(),
            final(self).audit() == old(self).audit(),
            final(self).schedule() == old(self).schedule(),
            final(self).providers() == old(self).providers(),
            final(self).same_sandbox(old(self)),
    {
        self.plugins = registry;
    }

    /// Schedules `payload` every `interval_ticks` heartbeats.
    pub fn add_schedule(&mut self, name: &str, interval_ticks: u64, payload: &str)
        requires
            old(self).schedule().tick() + crate::scheduler::effective_interval(interval_ticks)
                <= u64::MAX,
        ensures
            final(self).schedule().tick() == old(self).schedule().tick(),
            final(self).schedule().tasks().len() == old(self).schedule().tasks().len() + 1,
            final(self).schedule().tasks().drop_last() == old(self).schedule().tasks(),
            final(self).schedule().tasks().last().name@ == name@,
            final(self).schedule().tasks().last().payload@ == payload@,
            final(self).schedule().tasks().last().interval_ticks
                == crate::scheduler::effective_interval(interval_ticks),
            final(self).schedule().tasks().last().next_tick == old(self).schedule().tick()
                + crate::scheduler::effective_interval(interval_ticks),
            final(self).policy() == old(self).policy(),
            final(self).memory() == old(self).memory(),
            final(self).audit() == old(self).audit(),
            final(self).plugins() == old(self).plugins(),
            final(self).providers() == old(self).providers(),
            final(self).same_sandbox(old(self)),
    {
        self.scheduler.add_task(name, interval_ticks, payload);
    }

    /// Advances the schedule one tick and returns the payloads of the tasks
    /// that are due, in order.
    pub fn heartbeat(&mut self) -> (r: Vec<String>)
        requires
            old(self).schedule().can_heartbeat(),
        ensures
            final(self).schedule().tick() == old(self).schedule().tick() + 1,
            final(self).schedule().tasks() == old(self).schedule().tasks().map_values(
                |t: ScheduledTask| crate::scheduler::task_after(t, old(self).schedule().tick() + 1),
            ),
            r@ == old(self).schedule().tasks().filter(
                |t: ScheduledTask| due_at(t, old(self).schedule().tick() + 1),
            ).map_values(|t: ScheduledTask| t.payload),
            final(self).policy() == old(self).policy(),
            final(self).memory() == old(self).memory(),
            final(self).audit() == old(self).audit(),
            final(self).plugins() == old(self).plugins(),
            final(self).providers() == old(self).providers(),
            final(self).same_sandbox(old(self)),
    {
        let due = self.scheduler.heartbeat();
        let mut out: Vec<String> = Vec::new();
        let n = due.len();
        for i in 0..n
            invariant
                n == due@.len(),
                out@ == due@.take(i as int).map_values(|t: ScheduledTask| t.payload),
        {
            out.push(due[i].payload.clone());
            assert(due@.take(i + 1).map_values(|t: ScheduledTask| t.payload) == due@.take(
                i as int,
            ).map_values(|t: ScheduledTask| t.payload).push(due@[i as int].payload));
        }
        assert(due@.take(n as int) == due@);
        out
    }

    /// Answers an incoming message on its own channel.
    pub fn handle_message(&mut self, message: IncomingMessage) -> (r: Result<OutgoingMessage, AgentError>)
        ensures
            Self::prompt_run(*old(self), *final(self), message.text@, reply_text(r)),
            r matches Ok(out) ==> out.channel == message.channel,
    {
        let response = self.run_prompt(message.text.as_str());
        match response {
            Ok(text) => Ok(OutgoingMessage { channel: message.channel, text }),
            Err(e) => Err(e),
        }
    }

    /// The request handed to the sandbox for a tool call.
    pub fn tool_request(name: &str, args: &[String]) -> (r: ToolRequest)
        ensures
            r.name@ == name@,
            r.args@ == args@,
    {
        let mut v: Vec<String> = Vec::new();
        let n = args.len();
        for i in 0..n
            invariant
                n == args@.len(),
                v@ == args@.take(i as int),
        {
            v.push(args[i].clone());
            assert(args@.take(i + 1) == args@.take(i as int).push(args@[i as int]));
        }
        assert(args@.take(n as int) == args@);
        ToolRequest { name: String::from_str(name), args: v }
    }

    /// What a tool call does once the sandbox gave `reply`: its output is
    /// the result and the run is audited; its error is the result, with
    /// the audit trail unchanged. Nothing else changes.
    pub open spec fn tool_effect(
        pre: Self,
        post: Self,
        name: Seq<char>,
        reply: Result<String, SandboxError>,
        r: Result<String, AgentError>,
    ) -> bool {
        &&& post.same_setup(&pre)
        &&& post.memory() == pre.memory()
        &&& match reply {
            Ok(out) => {
                &&& r == Ok::<String, AgentError>(out)
                &&& post.audit().len() == pre.audit().len() + 1
                &&& post.audit().drop_last() == pre.audit()
                &&& event_is(
                    post.audit().last(),
                    "agent"@,
                    "tool_exec:"@ + name,
                    true,
                    "tool execution approved by policy"@,
                )
            },
            Err(e) => r == Err::<String, AgentError>(AgentError::Sandbox(e)) && post.audit() == pre.audit(),
        }
    }

    /// Finishes a call of the tool `name` on the sandbox's reply: audits a
    /// tool that ran and gives its output, or gives the sandbox's error.
    pub fn finish_tool(&mut self, name: &str, reply: Result<String, SandboxError>) -> (r: Result<String, AgentError>)
        ensures
            Self::tool_effect(*old(self), *final(self), name@, reply, r),
    {
        match reply {
            Err(e) => Err(AgentError::Sandbox(e)),
            Ok(out) => {
                let mut action = chars_of("tool_exec:");
                push_str(&mut action, name);
                self.audit.push(
                    AuditEvent {
                        actor: String::from_str("agent"),
                        action: string_of(action.as_slice()),
                        allowed: true,
                        detail: String::from_str("tool execution approved by policy"),
                    },
                );
                assert(self.audit().drop_last() =~= old(self).audit());
                Ok(out)
            },
        }
    }

    /// Runs a tool in the sandbox under the agent's policy; a tool that ran
    /// is recorded in the audit trail.
    pub fn run_tool(&mut self, name: &str, args: &[String]) -> (r: Result<String, AgentError>)
        ensures
            exists|request: ToolRequest, reply: Result<String, SandboxError>|
                #[trigger] old(self).sandbox_answers(old(self).policy(), request, reply)
                    && request.name@ == name@ && request.args@ == args@ && Self::tool_effect(
                    *old(self),
                    *final(self),
                    name@,
                    reply,
                    r,
                ),
    {
        let request = Self::tool_request(name, args);
        let reply = self.sandbox.execute(&self.policy, &request);
        let ghost g = reply;
        assert(self.sandbox_answers(self.policy(), request, g));
        self.finish_tool(name, reply)
    }

    /// `request` is what the providers are handed for the prompt `input`:
    /// the prompt, with the last remembered prompt as context when memory
    /// may be read and holds one.
    pub open spec fn is_prompt_request(&self, request: ProviderRequest, input: Seq<char>) -> bool {
        &&& request.user_input@ == input
        &&& request.context@.map_values(|s: String| s@) == prompt_context(self.allowed(), self.memory())
    }

    /// The request handed to the providers for a prompt.
    pub fn prompt_request(&self, input: &str) -> (r: ProviderRequest)
        ensures
            self.is_prompt_request(r, input@),
    {
        let mut context: Vec<String> = Vec::new();
        if self.policy.allows(&Permission::MemoryRead) {
            if let Some(last) = self.memory.get("last_prompt") {
                context.push(String::from_str(last));
                assert(context@.map_values(|s: String| s@) =~= seq![self.memory()[last_prompt_key()]]);
            }
        }
        assert(context@.map_values(|s: String| s@) =~= prompt_context(self.allowed(), self.memory()));
        ProviderRequest { user_input: String::from_str(input), context }
    }

    /// What a prompt answered by `model` does: the prompt is remembered when
    /// memory may be written, and a skipped write is audited; the
    /// generation is audited with the model and the number of plugins.
    pub open spec fn prompt_effect(pre: Self, post: Self, input: Seq<char>, model: Seq<char>) -> bool {
        let writes = pre.allowed().contains(Permission::MemoryWrite);
        let skipped = if writes {
            0nat
        } else {
            1nat
        };
        &&& post.memory() == (if writes {
            pre.memory().insert(last_prompt_key(), input)
        } else {
            pre.memory()
        })
        &&& post.audit().len() == pre.audit().len() + skipped + 1
        &&& post.audit().subrange(0, pre.audit().len() as int) == pre.audit()
        &&& !writes ==> event_is(
            post.audit()[pre.audit().len() as int],
            "agent"@,
            "memory_write"@,
            false,
            "Skipped storing prompt because memory_write permission is disabled"@,
        )
        &&& event_is(
            post.audit().last(),
            "agent"@,
            "provider_generate"@,
            true,
            generate_detail(model, pre.plugins().len()),
        )
    }

    /// What a prompt run does: the providers are handed the prompt request
    /// for `input` and answer in order; on the first success its output is
    /// the result, with the effect of `prompt_effect`; when none succeeds
    /// the result is the router's error and memory and audit trail are
    /// unchanged. The setup never changes.
    pub open spec fn prompt_run(pre: Self, post: Self, input: Seq<char>, r: Result<String, AgentError>) -> bool {
        &&& post.same_setup(&pre)
        &&& exists|request: ProviderRequest, outcomes: Seq<Result<ProviderResponse, ProviderError>>|
            #[trigger] routed(pre.providers(), request, outcomes) && pre.is_prompt_request(request, input)
                && match route(outcomes) {
                Ok(resp) => r == Ok::<String, AgentError>(resp.output) && Self::prompt_effect(
                    pre,
                    post,
                    input,
                    resp.model@,
                ),
                Err(e) => r == Err::<String, AgentError>(AgentError::Provider(e)) && post.memory()
                    == pre.memory() && post.audit() == pre.audit(),
            }
    }

    /// Finishes a prompt the providers answered with `response`: remembers
    /// the prompt when memory may be written (auditing the skip otherwise),
    /// audits the generation and gives the response's output.
    pub fn complete_prompt(&mut self, input: &str, response: ProviderResponse) -> (r: String)
        ensures
            r == response.output,
            final(self).same_setup(old(self)),
            Self::prompt_effect(*old(self), *final(self), input@, response.model@),
    {
        let ghost pre = *self;
        if self.policy.allows(&Permission::MemoryWrite) {
            self.memory.put("last_prompt", input);
        } else {
            self.audit.push(
                AuditEvent {
                    actor: String::from_str("agent"),
                    action: String::from_str("memory_write"),
                    allowed: false,
                    detail: String::from_str(
                        "Skipped storing prompt because memory_write permission is disabled",
                    ),
                },
            );
        }
        let ghost mid = self.audit@;
        let mut detail = chars_of("Generated response via ");
        push_str(&mut detail, response.model.as_str());
        push_str(&mut detail, " with ");
        push_decimal(&mut detail, self.plugins.all().len() as u128);
        push_str(&mut detail, " plugins loaded");
        self.audit.push(
            AuditEvent {
                actor: String::from_str("agent"),
                action: String::from_str("provider_generate"),
                allowed: true,
                detail: string_of(detail.as_slice()),
            },
        );
        proof {
            let model = response.model@;
            assert(self.audit().subrange(0, pre.audit().len() as int) =~= pre.audit());
            if !pre.allowed().contains(Permission::MemoryWrite) {
                assert(self.audit()[pre.audit().len() as int] == mid.last());
            }
            assert(generate_detail(model, pre.plugins().len()) =~= "Generated response via "@
                + model + " with "@ + decimal(pre.plugins().len()) + " plugins loaded"@);
        }
        response.output
    }

    /// Sends the prompt, with the last remembered prompt as context when
    /// memory may be read, to the providers; remembers the prompt when
    /// memory may be written (auditing the skip otherwise) and audits the
    /// generation.
    pub fn run_prompt(&mut self, input: &str) -> (r: Result<String, AgentError>)
        ensures
            Self::prompt_run(*old(self), *final(self), input@, r),
            r is Err ==> (r matches Err(AgentError::Provider(ProviderError::Unavailable))),
            r is Err ==> final(self).memory() == old(self).memory(),
            r is Err ==> final(self).audit() == old(self).audit(),
            old(self).provider_count() == 0 ==> r is Err,
    {
        let request = self.prompt_request(input);
        let reply = self.router.generate(&request);
        let ghost g = reply;
        let ghost outcomes = choose|o: Seq<Result<ProviderResponse, ProviderError>>|
            #[trigger] routed(self.providers(), request, o) && g == route(o);
        let ghost pre = *self;
        let r = match reply {
            Ok(resp) => Ok(self.complete_prompt(input, resp)),
            Err(e) => Err(AgentError::Provider(e)),
        };
        proof {
            assert(routed(pre.providers(), request, outcomes) && pre.is_prompt_request(request, input@));
            if outcomes.len() == 0 {
                assert(route(outcomes) is Err);
            }
        }
        r
    }

    /// `agents[i + 1]` is what the prompt `inputs[i]` made of `agents[i]`,
    /// with the reply `replies[i]`.
    pub open spec fn prompted_at(
        agents: Seq<Self>,
        inputs: Seq<Seq<char>>,
        replies: Seq<Result<String, AgentError>>,
        i: int,
    ) -> bool {
        Self::prompt_run(agents[i], agents[i + 1], inputs[i], replies[i])
    }

    proof fn lemma_memory_after_prompts(
        agents: Seq<Self>,
        inputs: Seq<Seq<char>>,
        replies: Seq<Result<String, AgentError>>,
        k: int,
    )
        requires
            agents.len() == inputs.len() + 1,
            replies.len() == inputs.len(),
            forall|i: int| 0 <= i < inputs.len() ==> #[trigger] Self::prompted_at(agents, inputs, replies, i),
            0 <= k <= inputs.len(),
        ensures
            agents[k].allowed() == agents[0].allowed(),
            agents[k].memory() == (if agents[0].allowed().contains(Permission::MemoryWrite) {
                match last_answered(inputs, replies, k) {
                    Some(x) => agents[0].memory().insert(last_prompt_key(), x),
                    None => agents[0].memory(),
                }
            } else {
                agents[0].memory()
            }),
        decreases k,
    {
        if k > 0 {
            Self::lemma_memory_after_prompts(agents, inputs, replies, k - 1);
            assert(Self::prompted_at(agents, inputs, replies, k - 1));
            let pre = agents[k - 1];
            let post = agents[k];
            let (req, outs) = choose|req: ProviderRequest, outs: Seq<Result<ProviderResponse, ProviderError>>|
                #[trigger] routed(pre.providers(), req, outs) && pre.is_prompt_request(req, inputs[k - 1])
                    && match route(outs) {
                    Ok(resp) => replies[k - 1] == Ok::<String, AgentError>(resp.output) && Self::prompt_effect(
                        pre,
                        post,
                        inputs[k - 1],
                        resp.model@,
                    ),
                    Err(e) => replies[k - 1] == Err::<String, AgentError>(AgentError::Provider(e))
                        && post.memory() == pre.memory() && post.audit() == pre.audit(),
                };
            if agents[0].allowed().contains(Permission::MemoryWrite) && replies[k - 1] is Ok {
                let x = inputs[k - 1];
                let m0 = agents[0].memory();
                assert(post.memory() == pre.memory().insert(last_prompt_key(), x));
                match last_answered(inputs, replies, k - 1) {
                    Some(y) => {
                        assert(m0.insert(last_prompt_key(), y).insert(last_prompt_key(), x) =~= m0.insert(
                            last_prompt_key(),
                            x,
                        ));
                    },
                    None => {},
                }
            }
        }
    }

    /// The context of a series of prompts: while the policy lets memory be
    /// read and written, each prompt is sent with the latest earlier prompt
    /// that was answered (or, before any, with what memory held at the
    /// start); without the read permission no context is sent; with read
    /// but not write the context stays what memory held at the start.
    pub proof fn lemma_context_is_last_answered_prompt(
        agents: Seq<Self>,
        inputs: Seq<Seq<char>>,
        replies: Seq<Result<String, AgentError>>,
        k: int,
    )
        requires
            agents.len() == inputs.len() + 1,
            replies.len() == inputs.len(),
            forall|i: int| 0 <= i < inputs.len() ==> #[trigger] Self::prompted_at(agents, inputs, replies, i),
            0 <= k <= inputs.len(),
        ensures
            prompt_context(agents[k].allowed(), agents[k].memory()) == (if !agents[0].allowed().contains(
                Permission::MemoryRead,
            ) {
                Seq::<Seq<char>>::empty()
            } else if agents[0].allowed().contains(Permission::MemoryWrite) {
                match last_answered(inputs, replies, k) {
                    Some(x) => seq![x],
                    None => prompt_context(agents[0].allowed(), agents[0].memory()),
                }
            } else {
                prompt_context(agents[0].allowed(), agents[0].memory())
            }),
    {
        Self::lemma_memory_after_prompts(agents, inputs, replies, k);
    }

    /// The audit trail, oldest event first.
    pub fn audit_events(&self) -> (r: &[AuditEvent])
        ensures
            r@ == self.audit(),
    {
        self.audit.events()
    }
}


} // verus!
