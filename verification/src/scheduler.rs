//! Tick-driven scheduler of repeating tasks.
use vstd::prelude::*;

verus! {

/// A task that comes due every `interval_ticks` heartbeats.
#[derive(Debug, Clone)]
pub struct ScheduledTask {
    pub name: String,
    pub interval_ticks: u64,
    pub next_tick: u64,
    pub payload: String,
}

/// The interval a task is stored with: at least one tick.
pub open spec fn effective_interval(interval_ticks: u64) -> nat {
    if interval_ticks == 0 {
        1
    } else {
        interval_ticks as nat
    }
}

/// A task is due at `tick` once its next tick has been reached.
pub open spec fn due_at(t: ScheduledTask, tick: nat) -> bool {
    tick >= t.next_tick
}

/// The next tick of a task after a heartbeat that brings the clock to
/// `tick`.
pub open spec fn next_tick_after(interval: nat, next: nat, tick: nat) -> nat {
    if tick >= next {
        tick + interval
    } else {
        next
    }
}

/// The task after a heartbeat that brings the clock to `tick`: a due task
/// is rescheduled one interval after `tick`, others are unchanged.
pub open spec fn task_after(t: ScheduledTask, tick: nat) -> ScheduledTask {
    ScheduledTask {
        next_tick: next_tick_after(t.interval_ticks as nat, t.next_tick as nat, tick) as u64,
        ..t
    }
}

/// A task keeps `tick < next_tick <= tick + interval_ticks`: it is not
/// overdue, and comes due within one interval.
pub open spec fn task_in_window(t: ScheduledTask, tick: nat) -> bool {
    &&& t.interval_ticks >= 1
    &&& tick < t.next_tick
    &&& t.next_tick <= tick + t.interval_ticks
}

/// Repeating tasks and the current tick.
#[derive(Debug)]
pub struct Scheduler {
    tick: u64,
    tasks: Vec<ScheduledTask>,
}

impl Default for Scheduler {
    fn default() -> (r: Self)
        ensures
            r.tick() == 0,
            r.tasks() == Seq::<ScheduledTask>::empty(),
    {
        Scheduler { tick: 0, tasks: Vec::new() }
    }
}

impl Scheduler {
    /// The number of heartbeats so far.
    pub closed spec fn tick(&self) -> nat {
        self.tick as nat
    }

    /// The tasks, in the order they were added.
    pub closed spec fn tasks(&self) -> Seq<ScheduledTask> {
        self.tasks@
    }

    #[verifier::type_invariant]
    closed spec fn tasks_in_window(&self) -> bool {
        forall|i: int| 0 <= i < self.tasks@.len() ==> task_in_window(#[trigger] self.tasks@[i], self.tick as nat)
    }

    /// Every task is in its window: not overdue, and due within one
    /// interval of the current tick.
    pub open spec fn all_in_window(&self) -> bool {
        forall|i: int| 0 <= i < self.tasks().len() ==> task_in_window(#[trigger] self.tasks()[i], self.tick())
    }

    /// The next heartbeat cannot overflow the clock or a task's next tick.
    pub open spec fn can_heartbeat(&self) -> bool {
        &&& self.tick() + 1 <= u64::MAX
        &&& forall|i: int|
            0 <= i < self.tasks().len() ==> self.tick() + 1 + (#[trigger] self.tasks()[i]).interval_ticks
                <= u64::MAX
    }

    /// Adds a task that first comes due one interval from now; an interval
    /// of zero counts as one.
    pub fn add_task(&mut self, name: &str, interval_ticks: u64, payload: &str)
        requires
            old(self).tick() + effective_interval(interval_ticks) <= u64::MAX,
        ensures
            final(self).tick() == old(self).tick(),
            final(self).tasks().len() == old(self).tasks().len() + 1,
            final(self).tasks().drop_last() == old(self).tasks(),
            final(self).tasks().last().name@ == name@,
            final(self).tasks().last().payload@ == payload@,
            final(self).tasks().last().interval_ticks == effective_interval(interval_ticks),
            final(self).tasks().last().next_tick == old(self).tick() + effective_interval(interval_ticks),
            final(self).all_in_window(),
    {
        proof {
            use_type_invariant(&*self);
        }
        let interval = if interval_ticks > 1 {
            interval_ticks
        } else {
            1
        };
        let task = ScheduledTask {
            name: String::from_str(name),
            interval_ticks: interval,
            next_tick: self.tick + interval,
            payload: String::from_str(payload),
        };
        let mut tasks: Vec<ScheduledTask> = Vec::new();
        std::mem::swap(&mut tasks, &mut self.tasks);
        let ghost before = tasks@;
        tasks.push(task);
        assert forall|i: int| 0 <= i < tasks@.len() implies task_in_window(
            #[trigger] tasks@[i],
            self.tick as nat,
        ) by {
            if i < before.len() {
                assert(tasks@[i] == before[i]);
            }
        }
        self.tasks = tasks;
        assert(self.tasks().drop_last() == before);
    }

    /// Advances the clock by one tick and returns the tasks that are due
    /// at the new tick, in order; each of them is rescheduled one interval
    /// later, the others are left unchanged.
    pub fn heartbeat(&mut self) -> (due: Vec<ScheduledTask>)
        requires
            old(self).can_heartbeat(),
        ensures
            final(self).tick() == old(self).tick() + 1,
            final(self).tasks() == old(self).tasks().map_values(
                |t: ScheduledTask| task_after(t, old(self).tick() + 1),
            ),
            due@ == old(self).tasks().filter(|t: ScheduledTask| due_at(t, old(self).tick() + 1)),
            final(self).all_in_window(),
            heartbeat_step(*old(self), *final(self)),
    {
        proof {
            use_type_invariant(&*self);
        }
        let now = self.tick + 1;
        let ghost pred = |t: ScheduledTask| due_at(t, now as nat);
        let ghost step = |t: ScheduledTask| task_after(t, now as nat);
        let mut tasks: Vec<ScheduledTask> = Vec::new();
        std::mem::swap(&mut tasks, &mut self.tasks);
        let ghost old_tasks = tasks@;
        let mut updated: Vec<ScheduledTask> = Vec::new();
        let mut due: Vec<ScheduledTask> = Vec::new();
        let n = tasks.len();
        for i in 0..n
            invariant
                n == tasks@.len(),
                tasks@ == old_tasks,
                now == old(self).tick() + 1,
                old(self).tasks() == old_tasks,
                old(self).can_heartbeat(),
                pred == (|t: ScheduledTask| due_at(t, now as nat)),
                step == (|t: ScheduledTask| task_after(t, now as nat)),
                updated@ == old_tasks.take(i as int).map_values(step),
                due@ == old_tasks.take(i as int).filter(pred),
                forall|j: int| 0 <= j < old_tasks.len() ==> task_in_window(#[trigger] old_tasks[j], (now - 1) as nat),
                forall|j: int| 0 <= j < i ==> task_in_window(#[trigger] updated@[j], now as nat),
        {
            let t = &tasks[i];
            assert(task_in_window(old_tasks[i as int], (now - 1) as nat));
            assert(now + t.interval_ticks <= u64::MAX) by {
                assert(old(self).tasks()[i as int] == *t);
            }
            let copy = ScheduledTask {
                name: t.name.clone(),
                interval_ticks: t.interval_ticks,
                next_tick: t.next_tick,
                payload: t.payload.clone(),
            };
            assert(copy == *t);
            let ghost taken = old_tasks.take(i + 1);
            assert(taken.drop_last() == old_tasks.take(i as int));
            assert(taken.last() == *t);
            proof {
                reveal_with_fuel(Seq::filter, 1);
            }
            if now >= t.next_tick {
                due.push(copy.clone_task());
                let moved = ScheduledTask { next_tick: now + t.interval_ticks, ..copy };
                updated.push(moved);
            } else {
                updated.push(copy);
            }
            assert(updated@ == old_tasks.take(i + 1).map_values(step));
        }
        assert(old_tasks.take(n as int) == old_tasks);
        self.tick = now;
        self.tasks = updated;
        due
    }
}

impl ScheduledTask {
    /// A copy of the task.
    pub fn clone_task(&self) -> (r: ScheduledTask)
        ensures
            r == *self,
    {
        ScheduledTask {
            name: self.name.clone(),
            interval_ticks: self.interval_ticks,
            next_tick: self.next_tick,
            payload: self.payload.clone(),
        }
    }
}

// ---------------------------------------------------------------------
// Periodicity
// ---------------------------------------------------------------------

/// The next tick of a task with the given interval after `k` heartbeats,
/// starting at clock `tick` with next tick `next`.
pub open spec fn next_tick_after_beats(interval: nat, next: nat, tick: nat, k: nat) -> nat
    decreases k,
{
    if k == 0 {
        next
    } else {
        next_tick_after(interval, next_tick_after_beats(interval, next, tick, (k - 1) as nat), tick + k)
    }
}

/// The task is due at the `k`-th heartbeat (`k >= 1`) after clock `tick`.
pub open spec fn due_at_beat(interval: nat, next: nat, tick: nat, k: nat) -> bool {
    tick + k >= next_tick_after_beats(interval, next, tick, (k - 1) as nat)
}

proof fn lemma_next_closed_form(n: nat, tick: nat, k: nat)
    requires
        n >= 1,
    ensures
        next_tick_after_beats(n, tick + n, tick, k) == tick + (k / n + 1) * n,
    decreases k,
{
    if k == 0 {
        assert((0nat / n + 1) * n == n) by (nonlinear_arith)
            requires
                n >= 1,
        ;
    } else {
        lemma_next_closed_form(n, tick, (k - 1) as nat);
        let prev = tick + (((k - 1) as nat) / n + 1) * n;
        assert(next_tick_after_beats(n, tick + n, tick, k) == next_tick_after(n, prev, tick + k));
        let q = ((k - 1) as nat) / n;
        let r = ((k - 1) as nat) % n;
        assert((k - 1) as nat == q * n + r && r < n) by (nonlinear_arith)
            requires
                n >= 1,
                q == ((k - 1) as nat) / n,
                r == ((k - 1) as nat) % n,
        ;
        if r == n - 1 {
            assert(k == (q + 1) * n) by (nonlinear_arith)
                requires
                    (k - 1) as nat == q * n + r,
                    r == n - 1,
                    k >= 1,
            ;
            assert(k / n == q + 1) by (nonlinear_arith)
                requires
                    k == (q + 1) * n,
                    n >= 1,
            ;
            assert(prev == tick + k) by (nonlinear_arith)
                requires
                    prev == tick + (q + 1) * n,
                    k == (q + 1) * n,
            ;
            assert(tick + (k / n + 1) * n == tick + k + n) by (nonlinear_arith)
                requires
                    k / n == q + 1,
                    k == (q + 1) * n,
            ;
        } else {
            assert(k == q * n + r + 1 && r + 1 < n);
            assert(k / n == q) by (nonlinear_arith)
                requires
                    k == q * n + (r + 1),
                    r + 1 < n,
                    n >= 1,
            ;
            assert(prev > tick + k) by (nonlinear_arith)
                requires
                    prev == tick + (q + 1) * n,
                    k == q * n + r + 1,
                    r + 1 < n,
            ;
            assert(tick + (k / n + 1) * n == prev) by (nonlinear_arith)
                requires
                    k / n == q,
                    prev == tick + (q + 1) * n,
            ;
        }
    }
}

/// A task added with interval `n` comes due at exactly the heartbeats that
/// are multiples of `n` after it was added.
pub proof fn lemma_task_due_every_interval(n: nat, tick: nat, k: nat)
    requires
        n >= 1,
        k >= 1,
    ensures
        due_at_beat(n, tick + n, tick, k) <==> k % n == 0,
{
    lemma_next_closed_form(n, tick, (k - 1) as nat);
    let q = ((k - 1) as nat) / n;
    let r = ((k - 1) as nat) % n;
    assert((k - 1) as nat == q * n + r && r < n) by (nonlinear_arith)
        requires
            n >= 1,
            q == ((k - 1) as nat) / n,
            r == ((k - 1) as nat) % n,
    ;
    if r == n - 1 {
        assert(k == (q + 1) * n) by (nonlinear_arith)
            requires
                (k - 1) as nat == q * n + r,
                r == n - 1,
                k >= 1,
        ;
        assert(k % n == 0) by (nonlinear_arith)
            requires
                k == (q + 1) * n,
                n >= 1,
        ;
    } else {
        assert(k % n == r + 1) by (nonlinear_arith)
            requires
                k == q * n + (r + 1),
                r + 1 < n,
                n >= 1,
        ;
        assert(tick + (q + 1) * n > tick + k) by (nonlinear_arith)
            requires
                k == q * n + r + 1,
                r + 1 < n,
        ;
    }
}

/// `post` is what a heartbeat makes of `pre`: the clock advances one
/// tick and every task is rescheduled as `task_after` says.
pub open spec fn heartbeat_step(pre: Scheduler, post: Scheduler) -> bool {
    &&& pre.can_heartbeat()
    &&& post.tick() == pre.tick() + 1
    &&& post.tasks() == pre.tasks().map_values(|t: ScheduledTask| task_after(t, pre.tick() + 1))
}

/// `run[j + 1]` is what a heartbeat makes of `run[j]`.
pub open spec fn beat_at(run: Seq<Scheduler>, j: int) -> bool {
    heartbeat_step(run[j], run[j + 1])
}

/// `run` is a series of schedulers, each made from the one before by a
/// heartbeat.
pub open spec fn heartbeat_run(run: Seq<Scheduler>) -> bool {
    forall|j: int| 0 <= j < run.len() - 1 ==> #[trigger] beat_at(run, j)
}

proof fn lemma_run_tracks_task(run: Seq<Scheduler>, i: int, j: nat)
    requires
        heartbeat_run(run),
        j < run.len(),
        0 <= i < run[0].tasks().len(),
        run[0].tasks()[i].interval_ticks >= 1,
        run[0].tasks()[i].next_tick == run[0].tick() + run[0].tasks()[i].interval_ticks,
    ensures
        run[j as int].tick() == run[0].tick() + j,
        run[j as int].tasks().len() == run[0].tasks().len(),
        run[j as int].tasks()[i].interval_ticks == run[0].tasks()[i].interval_ticks,
        run[j as int].tasks()[i].next_tick == next_tick_after_beats(
            run[0].tasks()[i].interval_ticks as nat,
            run[0].tick() + run[0].tasks()[i].interval_ticks as nat,
            run[0].tick(),
            j,
        ),
    decreases j,
{
    if j > 0 {
        let p = (j - 1) as nat;
        lemma_run_tracks_task(run, i, p);
        assert(beat_at(run, p as int));
        let pre = run[p as int];
        let t = pre.tasks()[i];
        assert(run[j as int].tasks()[i] == task_after(t, pre.tick() + 1));
        assert(pre.tick() + 1 + t.interval_ticks <= u64::MAX);
    }
}

/// Over a run of heartbeats, a task added with interval `n` comes due at
/// exactly the heartbeats that are multiples of `n` after it was added:
/// at the `k`-th heartbeat it is due if and only if `k % n == 0`.
pub proof fn lemma_heartbeats_due_every_interval(run: Seq<Scheduler>, i: int, k: nat)
    requires
        heartbeat_run(run),
        1 <= k < run.len(),
        0 <= i < run[0].tasks().len(),
        run[0].tasks()[i].interval_ticks >= 1,
        run[0].tasks()[i].next_tick == run[0].tick() + run[0].tasks()[i].interval_ticks,
    ensures
        due_at(run[k - 1].tasks()[i], run[k as int].tick()) <==> k % (run[0].tasks()[i].interval_ticks as nat) == 0,
{
    let n = run[0].tasks()[i].interval_ticks as nat;
    let t0 = run[0].tick();
    lemma_run_tracks_task(run, i, (k - 1) as nat);
    lemma_run_tracks_task(run, i, k);
    lemma_task_due_every_interval(n, t0, k);
    assert(due_at_beat(n, t0 + n, t0, k) == (t0 + k >= next_tick_after_beats(n, t0 + n, t0, (k - 1) as nat)));
}

} // verus!
