//! Language-model providers and the router that falls back among them.
use vstd::prelude::*;
use crate::text::{push_str, string_of};

verus! {

/// What a provider is asked.
#[derive(Debug, Clone)]
pub struct ProviderRequest {
    pub user_input: String,
    pub context: Vec<String>,
}

/// What a provider answers.
#[derive(Debug, Clone)]
pub struct ProviderResponse {
    pub output: String,
    pub model: String,
}

/// Why no answer came.
#[derive(Debug, Clone, PartialEq, Eq, Structural)]
pub enum ProviderError {
    Unavailable,
}

impl ProviderError {
    /// The human-readable message for the error.
    pub fn message(&self) -> (r: String)
        ensures
            r@ == "provider unavailable"@,
    {
        match self {
            ProviderError::Unavailable => String::from_str("provider unavailable"),
        }
    }
}

/// A language-model backend.
pub trait LlmProvider {
    /// Whether `reply` is an answer this backend may give to `request`; a
    /// backend that does not say admits every reply.
    open spec fn answers(&self, request: ProviderRequest, reply: Result<ProviderResponse, ProviderError>) -> bool {
        true
    }

    fn name(&self) -> &str;

    fn generate(&self, request: &ProviderRequest) -> (r: Result<ProviderResponse, ProviderError>)
        ensures
            self.answers(*request, r),
    ;
}

/// The output of the echo providers: the user input, prefixed with
/// `[ctx] ` when context was supplied.
pub open spec fn echo_output(user_input: Seq<char>, context_len: nat) -> Seq<char> {
    if context_len == 0 {
        user_input
    } else {
        "[ctx] "@ + user_input
    }
}

fn echo_text(request: &ProviderRequest) -> (r: String)
    ensures
        r@ == echo_output(request.user_input@, request.context@.len()),
{
    let mut out: Vec<char> = Vec::new();
    if request.context.len() != 0 {
        push_str(&mut out, "[ctx] ");
    }
    push_str(&mut out, request.user_input.as_str());
    string_of(out.as_slice())
}

/// A provider that answers with its input.
pub struct EchoProvider;

/// An echo answer to `request`, from `model`.
pub open spec fn echo_answer(
    request: ProviderRequest,
    model: Seq<char>,
    reply: Result<ProviderResponse, ProviderError>,
) -> bool {
    reply matches Ok(resp) && resp.output@ == echo_output(request.user_input@, request.context@.len())
        && resp.model@ == model
}

impl LlmProvider for EchoProvider {
    open spec fn answers(&self, request: ProviderRequest, reply: Result<ProviderResponse, ProviderError>) -> bool {
        echo_answer(request, "echo-local"@, reply)
    }

    fn name(&self) -> (r: &str)
        ensures
            r@ == "echo-local"@,
    {
        "echo-local"
    }

    fn generate(&self, request: &ProviderRequest) -> (r: Result<ProviderResponse, ProviderError>)
        ensures
            r matches Ok(resp) && resp.output@ == echo_output(
                request.user_input@,
                request.context@.len(),
            ) && resp.model@ == "echo-local"@,
    {
        Ok(ProviderResponse { output: echo_text(request), model: String::from_str(self.name()) })
    }
}

/// An echo provider with a configured name and model.
pub struct ConfiguredEchoProvider {
    name: String,
    model: String,
}

impl ConfiguredEchoProvider {
    /// The configured provider name.
    pub closed spec fn name_view(&self) -> Seq<char> {
        self.name@
    }

    /// The configured model name.
    pub closed spec fn model_view(&self) -> Seq<char> {
        self.model@
    }

    pub fn new(name: &str, model: &str) -> (r: Self)
        ensures
            r.name_view() == name@,
            r.model_view() == model@,
    {
        ConfiguredEchoProvider { name: String::from_str(name), model: String::from_str(model) }
    }
}

impl LlmProvider for ConfiguredEchoProvider {
    open spec fn answers(&self, request: ProviderRequest, reply: Result<ProviderResponse, ProviderError>) -> bool {
        echo_answer(request, self.model_view(), reply)
    }

    fn name(&self) -> (r: &str)
        ensures
            r@ == self.name_view(),
    {
        self.name.as_str()
    }

    fn generate(&self, request: &ProviderRequest) -> (r: Result<ProviderResponse, ProviderError>)
        ensures
            r matches Ok(resp) && resp.output@ == echo_output(
                request.user_input@,
                request.context@.len(),
            ) && resp.model@ == self.model_view(),
    {
        Ok(ProviderResponse { output: echo_text(request), model: self.model.clone() })
    }
}

/// The answer a router gives for the outcomes of the providers it tried,
/// in order: the first success, or `Unavailable` when none succeeded.
pub open spec fn route(outcomes: Seq<Result<ProviderResponse, ProviderError>>) -> Result<
    ProviderResponse,
    ProviderError,
>
    decreases outcomes.len(),
{
    if outcomes.len() == 0 {
        Err(ProviderError::Unavailable)
    } else if outcomes[0] is Ok {
        outcomes[0]
    } else {
        route(outcomes.drop_first())
    }
}

/// `outcomes` is how a router over `n` providers can have run: it asked
/// the providers in order, stopped at the first success, and asked all
/// of them when none succeeded.
pub open spec fn tried_in_order(outcomes: Seq<Result<ProviderResponse, ProviderError>>, n: nat) -> bool {
    &&& outcomes.len() <= n
    &&& forall|i: int| 0 <= i < outcomes.len() - 1 ==> (#[trigger] outcomes[i]) is Err
    &&& outcomes.len() < n ==> outcomes.len() > 0 && outcomes.last() is Ok
}

/// `outcomes` is how `providers` can have answered `request`: asked in
/// order, stopping at the first success, each outcome an answer that
/// provider may give to `request`.
pub open spec fn routed(
    providers: Seq<Box<dyn LlmProvider>>,
    request: ProviderRequest,
    outcomes: Seq<Result<ProviderResponse, ProviderError>>,
) -> bool {
    &&& tried_in_order(outcomes, providers.len())
    &&& forall|i: int| 0 <= i < outcomes.len() ==> providers[i].answers(request, #[trigger] outcomes[i])
}

/// Providers in order of preference.
pub struct ProviderRouter {
    providers: Vec<Box<dyn LlmProvider>>,
}

impl ProviderRouter {
    /// The providers, in order of preference.
    pub closed spec fn providers(&self) -> Seq<Box<dyn LlmProvider>> {
        self.providers@
    }

    /// The number of providers.
    pub open spec fn provider_count(&self) -> nat {
        self.providers().len()
    }

    pub fn new(providers: Vec<Box<dyn LlmProvider>>) -> (r: Self)
        ensures
            r.providers() == providers@,
    {
        ProviderRouter { providers }
    }

    /// Asks the providers in order and returns the first answer; when every
    /// provider fails, or there is none, the error is `Unavailable`.
    pub fn generate(&self, request: &ProviderRequest) -> (r: Result<ProviderResponse, ProviderError>)
        ensures
            exists|outcomes: Seq<Result<ProviderResponse, ProviderError>>|
                #[trigger] routed(self.providers(), *request, outcomes) && r == route(outcomes),
            self.provider_count() == 0 ==> r == Err::<ProviderResponse, ProviderError>(
                ProviderError::Unavailable,
            ),
    {
        let mut tried: Vec<Result<ProviderResponse, ProviderError>> = Vec::new();
        let n = self.providers.len();
        let mut i: usize = 0;
        let mut answered = false;
        while i < n && !answered
            invariant
                n == self.providers@.len(),
                i <= n,
                tried@.len() == i,
                answered ==> i > 0 && tried@.last() is Ok,
                forall|j: int| 0 <= j < tried@.len() - 1 ==> (#[trigger] tried@[j]) is Err,
                forall|j: int| 0 <= j < tried@.len() ==> self.providers@[j].answers(*request, #[trigger] tried@[j]),
                !answered ==> forall|j: int| 0 <= j < tried@.len() ==> (#[trigger] tried@[j]) is Err,
            decreases n - i,
        {
            let outcome = self.providers[i].generate(request);
            answered = outcome.is_ok();
            tried.push(outcome);
            i += 1;
        }
        assert(tried_in_order(tried@, n as nat));
        assert(routed(self.providers(), *request, tried@));
        route_outcomes(tried)
    }
}

/// The success found so far, as a list of outcomes.
pub open spec fn found(best: Option<ProviderResponse>) -> Seq<Result<ProviderResponse, ProviderError>> {
    match best {
        Some(b) => seq![Ok(b)],
        None => Seq::empty(),
    }
}

/// The answer for the outcomes of the providers tried, in order: the first
/// success, or `Unavailable` when none succeeded.
pub fn route_outcomes(outcomes: Vec<Result<ProviderResponse, ProviderError>>) -> (r: Result<
    ProviderResponse,
    ProviderError,
>)
    ensures
        r == route(outcomes@),
{
    let ghost orig = outcomes@;
    let mut rest = outcomes;
    let mut best: Option<ProviderResponse> = None;
    while rest.len() > 0
        invariant
            route(orig) == route(rest@ + found(best)),
        decreases rest@.len(),
    {
        let ghost before = rest@;
        let ghost tail = found(best);
        let x = rest.pop().unwrap();
        assert(before == rest@.push(x));
        assert(before + tail == rest@ + seq![x] + tail);
        match x {
            Ok(resp) => {
                proof {
                    lemma_route_stops_at_success(rest@, x, tail);
                }
                best = Some(resp);
            },
            Err(_) => {
                proof {
                    lemma_route_skips_failure(rest@, x, tail);
                }
            },
        }
    }
    assert(rest@ == Seq::<Result<ProviderResponse, ProviderError>>::empty());
    match best {
        Some(b) => {
            assert(route(seq![Ok::<ProviderResponse, ProviderError>(b)]) == Ok::<ProviderResponse, ProviderError>(b));
            assert(rest@ + seq![Ok::<ProviderResponse, ProviderError>(b)] == seq![Ok::<ProviderResponse, ProviderError>(b)]);
            Ok(b)
        },
        None => {
            assert(rest@ + Seq::<Result<ProviderResponse, ProviderError>>::empty() == rest@);
            Err(ProviderError::Unavailable)
        },
    }
}

/// A success ends the routing: what follows it does not matter.
pub proof fn lemma_route_stops_at_success(
    a: Seq<Result<ProviderResponse, ProviderError>>,
    x: Result<ProviderResponse, ProviderError>,
    t: Seq<Result<ProviderResponse, ProviderError>>,
)
    requires
        x is Ok,
    ensures
        route(a + seq![x] + t) == route(a + seq![x]),
    decreases a.len(),
{
    if a.len() == 0 {
        assert((a + seq![x] + t)[0] == x);
        assert((a + seq![x])[0] == x);
    } else {
        assert((a + seq![x] + t).drop_first() == a.drop_first() + seq![x] + t);
        assert((a + seq![x]).drop_first() == a.drop_first() + seq![x]);
        assert((a + seq![x] + t)[0] == a[0]);
        assert((a + seq![x])[0] == a[0]);
        lemma_route_stops_at_success(a.drop_first(), x, t);
    }
}

/// A failure is passed over.
pub proof fn lemma_route_skips_failure(
    a: Seq<Result<ProviderResponse, ProviderError>>,
    x: Result<ProviderResponse, ProviderError>,
    t: Seq<Result<ProviderResponse, ProviderError>>,
)
    requires
        x is Err,
    ensures
        route(a + seq![x] + t) == route(a + t),
    decreases a.len(),
{
    if a.len() == 0 {
        assert((a + seq![x] + t)[0] == x);
        assert((a + seq![x] + t).drop_first() == a + t);
    } else {
        assert((a + seq![x] + t).drop_first() == a.drop_first() + seq![x] + t);
        assert((a + t).drop_first() == a.drop_first() + t);
        assert((a + seq![x] + t)[0] == a[0]);
        assert((a + t)[0] == a[0]);
        lemma_route_skips_failure(a.drop_first(), x, t);
    }
}

/// The route of outcomes that fail before position `k` and succeed at
/// `k` is the success at `k`.
pub proof fn lemma_route_first_success(outcomes: Seq<Result<ProviderResponse, ProviderError>>, k: int)
    requires
        0 <= k < outcomes.len(),
        forall|i: int| 0 <= i < k ==> (#[trigger] outcomes[i]) is Err,
        outcomes[k] is Ok,
    ensures
        route(outcomes) == outcomes[k],
    decreases k,
{
    if k > 0 {
        let rest = outcomes.drop_first();
        assert forall|i: int| 0 <= i < k - 1 implies (#[trigger] rest[i]) is Err by {
            assert(rest[i] == outcomes[i + 1]);
        }
        lemma_route_first_success(rest, k - 1);
        assert(outcomes[0] is Err);
    }
}

/// Fallback: when every answer the providers before position `k` may give
/// to `request` is an error, and every answer provider `k` may give is a
/// success, the router answers with an answer of provider `k`.
pub proof fn lemma_router_falls_back(
    providers: Seq<Box<dyn LlmProvider>>,
    request: ProviderRequest,
    outcomes: Seq<Result<ProviderResponse, ProviderError>>,
    k: int,
)
    requires
        routed(providers, request, outcomes),
        0 <= k < providers.len(),
        forall|i: int, reply: Result<ProviderResponse, ProviderError>|
            0 <= i < k && #[trigger] providers[i].answers(request, reply) ==> reply is Err,
        forall|reply: Result<ProviderResponse, ProviderError>|
            #[trigger] providers[k].answers(request, reply) ==> reply is Ok,
    ensures
        route(outcomes) is Ok,
        providers[k].answers(request, route(outcomes)),
{
    assert forall|i: int| 0 <= i < outcomes.len() && i < k implies (#[trigger] outcomes[i]) is Err by {
        assert(providers[i].answers(request, outcomes[i]));
    }
    if outcomes.len() <= k {
        assert(outcomes.len() < providers.len());
        assert(outcomes[outcomes.len() - 1] is Err);
    }
    assert(providers[k].answers(request, outcomes[k]));
    if k < outcomes.len() - 1 {
        assert(outcomes[k] is Err);
    }
    lemma_route_first_success(outcomes, k);
}

} // verus!
