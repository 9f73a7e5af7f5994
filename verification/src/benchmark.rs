//! Start-up benchmark of the agent.
use std::time::{Duration, Instant};
use vstd::prelude::*;
use crate::agent::Agent;
use crate::policy::{Permission, Policy};
use crate::providers::{EchoProvider, LlmProvider, ProviderRouter};
use crate::sandbox::{DenyByDefaultSandbox, ToolSandbox};

verus! {

#[verifier::external_type_specification]
#[verifier::external_body]
pub struct ExInstant(Instant);

/// `<Duration as Clone>::clone`: `Duration` is `Copy`, so the clone is the
/// same duration.
pub assume_specification[ <Duration as Clone>::clone ](d: &Duration) -> (r: Duration)
    ensures
        r == *d,
;

/// How long the benchmark took.
#[derive(Debug, Clone)]
pub struct BenchmarkResult {
    pub iterations: usize,
    pub total: Duration,
    pub average_micros: u128,
}

/// The whole microseconds in a duration (`Duration::as_micros`).
pub uninterp spec fn micros_in(d: Duration) -> u128;

/// The current time, by `Instant::now`; nothing is stated of it.
#[verifier::external_body]
fn now() -> Instant {
    Instant::now()
}

/// The time since `start`, by `Instant::elapsed`; nothing is stated of it.
#[verifier::external_body]
fn elapsed_since(start: &Instant) -> Duration {
    start.elapsed()
}

/// The whole microseconds of a duration, by `Duration::as_micros`; the
/// contract only names the result (`micros_in`), a function of the
/// duration alone.
#[verifier::external_body]
fn as_micros(d: &Duration) -> (r: u128)
    ensures
        r == micros_in(*d),
{
    d.as_micros()
}

/// Builds an agent with all permissions and an echo provider, and runs
/// one prompt through it, `iterations` times (at least once); reports the
/// total time and the average in whole microseconds.
pub fn run_startup_benchmark(iterations: usize) -> (r: BenchmarkResult)
    ensures
        r.iterations == (if iterations == 0 {
            1
        } else {
            iterations
        }),
        r.average_micros == micros_in(r.total) / (r.iterations as u128),
{
    let loops: usize = if iterations > 1 {
        iterations
    } else {
        1
    };
    let start = now();
    for _i in 0..loops {
        let policy = Policy::allow_list(
            [Permission::MemoryRead, Permission::MemoryWrite, Permission::ToolExec],
        );
        let mut providers: Vec<Box<dyn LlmProvider>> = Vec::new();
        providers.push(Box::new(EchoProvider));
        let router = ProviderRouter::new(providers);
        let mut agent = Agent::new(policy, router, Box::new(DenyByDefaultSandbox));
        let _ = agent.run_prompt("bench");
    }
    let total = elapsed_since(&start);
    let micros = as_micros(&total);
    BenchmarkResult { iterations: loops, average_micros: micros / (loops as u128), total }
}

} // verus!
