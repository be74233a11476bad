//! The two-phase schedule of one run: every non-sequential action runs in
//! the parallel phase; only when all of them have reported `Done` does the
//! sequential phase start, running its actions strictly in order.
//!
//! The application owns one [`Scheduler`] per run and reports every event
//! through it: the scheduler's preconditions force the two-phase order, and
//! its ghost trace carries the proof that no sequential action starts before
//! every parallel action has finished.

use vstd::prelude::*;

use crate::actions::ActionDefinition;

verus! {

/// One observable event of a run, naming an action by its index in the run's
/// action list.
pub enum RunEvent {
    Started(usize),
    Done(usize),
}

/// Which phase the run is in.
#[derive(Clone, Copy, Debug, PartialEq, Eq, Structural)]
pub enum SchedulerPhase {
    Parallel,
    Sequential,
}

/// The indices of the actions whose `run_sequentially` flag is `want`, in
/// their original order.
pub open spec fn indices_where(s: Seq<ActionDefinition>, want: bool) -> Seq<usize>
    decreases s.len(),
{
    if s.len() == 0 {
        Seq::empty()
    } else {
        let rest = indices_where(s.drop_last(), want);
        if s.last().run_sequentially == want {
            rest.push((s.len() - 1) as usize)
        } else {
            rest
        }
    }
}

proof fn lemma_indices_where_elems(s: Seq<ActionDefinition>, want: bool)
    requires
        s.len() <= usize::MAX,
    ensures
        forall|q: int|
            0 <= q < indices_where(s, want).len() ==> ((#[trigger] indices_where(s, want)[q])
                < s.len() && s[indices_where(s, want)[q] as int].run_sequentially == want),
    decreases s.len(),
{
    if s.len() > 0 {
        lemma_indices_where_elems(s.drop_last(), want);
        assert forall|q: int|
            0 <= q < indices_where(s, want).len() implies ((#[trigger] indices_where(s, want)[q])
            < s.len() && s[indices_where(s, want)[q] as int].run_sequentially == want) by {
            let r = indices_where(s, want);
            let rest = indices_where(s.drop_last(), want);
            if s.last().run_sequentially == want {
                if q < rest.len() {
                    assert(r[q] == rest[q]);
                    assert(s.drop_last()[rest[q] as int] == s[rest[q] as int]);
                }
            } else {
                assert(r[q] == rest[q]);
                assert(s.drop_last()[rest[q] as int] == s[rest[q] as int]);
            }
        }
    }
}

/// The event is the `Started` of an action that runs sequentially.
pub open spec fn is_sequential_start(e: RunEvent, actions: Seq<ActionDefinition>) -> bool {
    e matches RunEvent::Started(x) && (x as int) < actions.len()
        && actions[x as int].run_sequentially
}

/// The trace holds `Done(p)` somewhere before position `a`.
pub open spec fn done_before(trace: Seq<RunEvent>, a: int, p: usize) -> bool {
    exists|b: int| 0 <= b < a && trace[b] == RunEvent::Done(p)
}

/// The phase-order property of a trace: wherever a sequential action's
/// `Started` stands, a `Done` of every parallel-phase action stands before
/// it.
pub open spec fn trace_phase_ordered(
    trace: Seq<RunEvent>,
    actions: Seq<ActionDefinition>,
    parallel: Seq<usize>,
) -> bool {
    forall|a: int, k: int|
        0 <= a < trace.len() && is_sequential_start(#[trigger] trace[a], actions) && 0 <= k
            < parallel.len() ==> done_before(trace, a, #[trigger] parallel[k])
}

/// Appending an event that is not a sequential `Started` preserves the
/// phase-order property of a trace.
proof fn lemma_trace_extend_keeps_order(
    trace: Seq<RunEvent>,
    e: RunEvent,
    actions: Seq<ActionDefinition>,
    parallel: Seq<usize>,
)
    requires
        trace_phase_ordered(trace, actions, parallel),
        !is_sequential_start(e, actions),
    ensures
        trace_phase_ordered(trace.push(e), actions, parallel),
{
    assert forall|a: int, k: int|
        0 <= a < trace.push(e).len() && is_sequential_start(#[trigger] trace.push(e)[a], actions)
            && 0 <= k < parallel.len() implies done_before(
        trace.push(e),
        a,
        #[trigger] parallel[k],
    ) by {
        assert(a < trace.len());
        assert(trace.push(e)[a] == trace[a]);
        assert(done_before(trace, a, parallel[k]));
        let b = choose|b: int| 0 <= b < a && trace[b] == RunEvent::Done(parallel[k]);
        assert(trace.push(e)[b] == RunEvent::Done(parallel[k]));
    }
}

/// Every parallel action marked done has its `Done` event in the trace.
pub open spec fn done_flags_witnessed(
    trace: Seq<RunEvent>,
    parallel: Seq<usize>,
    done: Seq<bool>,
) -> bool {
    forall|k: int|
        0 <= k < done.len() && done[k] ==> done_before(
            trace,
            trace.len() as int,
            #[trigger] parallel[k],
        )
}

/// Appending an event keeps every done flag's witness in the trace.
proof fn lemma_trace_push_keeps_done_witnesses(
    trace: Seq<RunEvent>,
    e: RunEvent,
    parallel: Seq<usize>,
    done: Seq<bool>,
)
    requires
        done_flags_witnessed(trace, parallel, done),
    ensures
        done_flags_witnessed(trace.push(e), parallel, done),
{
    assert forall|k: int| 0 <= k < done.len() && done[k] implies done_before(
        trace.push(e),
        trace.push(e).len() as int,
        #[trigger] parallel[k],
    ) by {
        let b = choose|b: int| 0 <= b < trace.len() && trace[b] == RunEvent::Done(parallel[k]);
        assert(trace.push(e)[b] == RunEvent::Done(parallel[k]));
    }
}

/// The scheduler of one run: it partitions the action list into the two
/// phases and checks every reported event against the phase order.
pub struct Scheduler {
    parallel: Vec<usize>,
    sequential: Vec<usize>,
    parallel_started: Vec<bool>,
    parallel_done: Vec<bool>,
    seq_next: usize,
    seq_running: bool,
    phase: SchedulerPhase,
    actions_model: Ghost<Seq<ActionDefinition>>,
    trace: Ghost<Seq<RunEvent>>,
}

impl Scheduler {
    pub closed spec fn spec_parallel(&self) -> Seq<usize> {
        self.parallel@
    }

    pub closed spec fn spec_sequential(&self) -> Seq<usize> {
        self.sequential@
    }

    pub closed spec fn spec_started_flags(&self) -> Seq<bool> {
        self.parallel_started@
    }

    pub closed spec fn spec_done_flags(&self) -> Seq<bool> {
        self.parallel_done@
    }

    pub closed spec fn spec_phase(&self) -> SchedulerPhase {
        self.phase
    }

    pub closed spec fn spec_seq_next(&self) -> int {
        self.seq_next as int
    }

    pub closed spec fn spec_seq_running(&self) -> bool {
        self.seq_running
    }

    pub closed spec fn spec_actions(&self) -> Seq<ActionDefinition> {
        self.actions_model@
    }

    /// The events reported so far, in order.
    pub closed spec fn spec_trace(&self) -> Seq<RunEvent> {
        self.trace@
    }

    /// The scheduler's invariant; its heart is the trace's phase-order
    /// property.
    pub open spec fn wf(&self) -> bool {
        &&& self.spec_parallel() == indices_where(self.spec_actions(), false)
        &&& self.spec_sequential() == indices_where(self.spec_actions(), true)
        &&& self.spec_started_flags().len() == self.spec_parallel().len()
        &&& self.spec_done_flags().len() == self.spec_parallel().len()
        &&& (forall|q: int|
            0 <= q < self.spec_parallel().len() ==> ((#[trigger] self.spec_parallel()[q])
                < self.spec_actions().len()
                && !self.spec_actions()[self.spec_parallel()[q] as int].run_sequentially))
        &&& (forall|q: int|
            0 <= q < self.spec_sequential().len() ==> ((#[trigger] self.spec_sequential()[q])
                < self.spec_actions().len()
                && self.spec_actions()[self.spec_sequential()[q] as int].run_sequentially))
        &&& 0 <= self.spec_seq_next() <= self.spec_sequential().len()
        &&& done_flags_witnessed(self.spec_trace(), self.spec_parallel(), self.spec_done_flags())
        &&& (self.spec_phase() == SchedulerPhase::Sequential ==> forall|k: int|
            0 <= k < self.spec_done_flags().len() ==> self.spec_done_flags()[k])
        &&& trace_phase_ordered(self.spec_trace(), self.spec_actions(), self.spec_parallel())
    }

    /// Partition the run's actions into the parallel and the sequential
    /// phase, keeping the original order within each.
    pub fn new(actions: &Vec<ActionDefinition>) -> (r: Self)
        ensures
            r.wf(),
            r.spec_actions() == actions@,
            r.spec_parallel() == indices_where(actions@, false),
            r.spec_sequential() == indices_where(actions@, true),
            r.spec_phase() == SchedulerPhase::Parallel,
            r.spec_trace().len() == 0,
            r.spec_seq_next() == 0,
            !r.spec_seq_running(),
            forall|q: int| 0 <= q < r.spec_started_flags().len() ==> !r.spec_started_flags()[q],
    {
        let n = actions.len();
        let mut parallel: Vec<usize> = Vec::new();
        let mut sequential: Vec<usize> = Vec::new();
        let mut i: usize = 0;
        while i < n
            invariant
                n == actions@.len(),
                i <= n,
                parallel@ == indices_where(actions@.subrange(0, i as int), false),
                sequential@ == indices_where(actions@.subrange(0, i as int), true),
            decreases n - i,
        {
            proof {
                assert(actions@.subrange(0, i as int + 1).drop_last() =~= actions@.subrange(
                    0,
                    i as int,
                ));
                assert(actions@.subrange(0, i as int + 1).last() == actions@[i as int]);
            }
            if actions[i].run_sequentially {
                sequential.push(i);
            } else {
                parallel.push(i);
            }
            proof {
                assert(parallel@ =~= indices_where(actions@.subrange(0, i as int + 1), false));
                assert(sequential@ =~= indices_where(actions@.subrange(0, i as int + 1), true));
            }
            i = i + 1;
        }
        proof {
            assert(actions@.subrange(0, n as int) =~= actions@);
        }
        let mut parallel_started: Vec<bool> = Vec::new();
        let mut parallel_done: Vec<bool> = Vec::new();
        let m = parallel.len();
        let mut k: usize = 0;
        while k < m
            invariant
                k <= m,
                parallel_started@.len() == k,
                parallel_done@.len() == k,
                forall|q: int| 0 <= q < k ==> !parallel_started@[q] && !parallel_done@[q],
            decreases m - k,
        {
            parallel_started.push(false);
            parallel_done.push(false);
            k = k + 1;
        }
        let r = Scheduler {
            parallel,
            sequential,
            parallel_started,
            parallel_done,
            seq_next: 0,
            seq_running: false,
            phase: SchedulerPhase::Parallel,
            actions_model: Ghost(actions@),
            trace: Ghost(Seq::empty()),
        };
        proof {
            lemma_indices_where_elems(actions@, false);
            lemma_indices_where_elems(actions@, true);
        }
        r
    }

    pub fn parallel_count(&self) -> (r: usize)
        ensures
            r == self.spec_parallel().len(),
    {
        self.parallel.len()
    }

    pub fn sequential_count(&self) -> (r: usize)
        ensures
            r == self.spec_sequential().len(),
    {
        self.sequential.len()
    }

    /// The action index of the `k`-th parallel-phase action.
    pub fn parallel_action(&self, k: usize) -> (r: usize)
        requires
            k < self.spec_parallel().len(),
        ensures
            r == self.spec_parallel()[k as int],
    {
        self.parallel[k]
    }

    /// The action index of the `k`-th sequential-phase action.
    pub fn sequential_action(&self, k: usize) -> (r: usize)
        requires
            k < self.spec_sequential().len(),
        ensures
            r == self.spec_sequential()[k as int],
    {
        self.sequential[k]
    }

    /// Record that the `k`-th parallel action emitted `Started`. Parallel
    /// actions may start in any order, but only during the parallel phase.
    pub fn note_parallel_started(&mut self, k: usize)
        requires
            old(self).wf(),
            old(self).spec_phase() == SchedulerPhase::Parallel,
            k < old(self).spec_parallel().len(),
            !old(self).spec_started_flags()[k as int],
        ensures
            final(self).wf(),
            final(self).spec_phase() == SchedulerPhase::Parallel,
            final(self).spec_parallel() == old(self).spec_parallel(),
            final(self).spec_sequential() == old(self).spec_sequential(),
            final(self).spec_actions() == old(self).spec_actions(),
            final(self).spec_done_flags() == old(self).spec_done_flags(),
            final(self).spec_seq_next() == old(self).spec_seq_next(),
            final(self).spec_seq_running() == old(self).spec_seq_running(),
            final(self).spec_started_flags() == old(self).spec_started_flags().update(
                k as int,
                true,
            ),
            final(self).spec_trace() == old(self).spec_trace().push(
                RunEvent::Started(old(self).spec_parallel()[k as int]),
            ),
    {
        let idx = self.parallel[k];
        let e = &mut self.parallel_started[k];
        *e = true;
        proof {
            self.trace = Ghost(self.trace@.push(RunEvent::Started(idx)));
            assert(self.parallel_started@ =~= old(self).parallel_started@.update(k as int, true));
            assert(!is_sequential_start(RunEvent::Started(idx), self.actions_model@));
            lemma_trace_extend_keeps_order(
                old(self).trace@,
                RunEvent::Started(idx),
                self.actions_model@,
                self.parallel@,
            );
            lemma_trace_push_keeps_done_witnesses(
                old(self).trace@,
                RunEvent::Started(idx),
                self.parallel@,
                self.parallel_done@,
            );
        }
    }

    /// Record that the `k`-th parallel action emitted `Done`.
    pub fn note_parallel_done(&mut self, k: usize)
        requires
            old(self).wf(),
            old(self).spec_phase() == SchedulerPhase::Parallel,
            k < old(self).spec_parallel().len(),
        ensures
            final(self).wf(),
            final(self).spec_phase() == SchedulerPhase::Parallel,
            final(self).spec_parallel() == old(self).spec_parallel(),
            final(self).spec_sequential() == old(self).spec_sequential(),
            final(self).spec_actions() == old(self).spec_actions(),
            final(self).spec_started_flags() == old(self).spec_started_flags(),
            final(self).spec_seq_next() == old(self).spec_seq_next(),
            final(self).spec_seq_running() == old(self).spec_seq_running(),
            final(self).spec_done_flags() == old(self).spec_done_flags().update(k as int, true),
            final(self).spec_trace() == old(self).spec_trace().push(
                RunEvent::Done(old(self).spec_parallel()[k as int]),
            ),
    {
        let idx = self.parallel[k];
        let e = &mut self.parallel_done[k];
        *e = true;
        proof {
            self.trace = Ghost(self.trace@.push(RunEvent::Done(idx)));
            assert(self.parallel_done@ =~= old(self).parallel_done@.update(k as int, true));
            lemma_trace_extend_keeps_order(
                old(self).trace@,
                RunEvent::Done(idx),
                self.actions_model@,
                self.parallel@,
            );
            lemma_trace_push_keeps_done_witnesses(
                old(self).trace@,
                RunEvent::Done(idx),
                self.parallel@,
                old(self).parallel_done@,
            );
            assert forall|j: int|
                0 <= j < self.parallel_done@.len() && self.parallel_done@[j] implies done_before(
                self.trace@,
                self.trace@.len() as int,
                #[trigger] self.parallel@[j],
            ) by {
                if j == k as int {
                    assert(self.trace@[self.trace@.len() - 1] == RunEvent::Done(
                        self.parallel@[j],
                    ));
                } else {
                    assert(old(self).parallel_done@[j]);
                }
            }
        }
    }

    /// Have all parallel actions reported `Done`?
    pub fn all_parallel_done(&self) -> (r: bool)
        ensures
            r == (forall|k: int|
                0 <= k < self.spec_done_flags().len() ==> self.spec_done_flags()[k]),
    {
        let n = self.parallel_done.len();
        let mut k: usize = 0;
        while k < n
            invariant
                n == self.parallel_done@.len(),
                k <= n,
                forall|q: int| 0 <= q < k ==> self.parallel_done@[q],
            decreases n - k,
        {
            if !self.parallel_done[k] {
                proof {
                    assert(!self.spec_done_flags()[k as int]);
                }
                return false;
            }
            k = k + 1;
        }
        true
    }

    /// Enter the sequential phase. This demands — and so proves — that the
    /// whole parallel phase has completed first.
    pub fn begin_sequential(&mut self)
        requires
            old(self).wf(),
            old(self).spec_phase() == SchedulerPhase::Parallel,
            forall|k: int|
                0 <= k < old(self).spec_done_flags().len() ==> old(self).spec_done_flags()[k],
        ensures
            final(self).wf(),
            final(self).spec_phase() == SchedulerPhase::Sequential,
            final(self).spec_parallel() == old(self).spec_parallel(),
            final(self).spec_sequential() == old(self).spec_sequential(),
            final(self).spec_actions() == old(self).spec_actions(),
            final(self).spec_trace() == old(self).spec_trace(),
            final(self).spec_seq_next() == old(self).spec_seq_next(),
            final(self).spec_seq_running() == old(self).spec_seq_running(),
    {
        self.phase = SchedulerPhase::Sequential;
    }

    /// Record that the next sequential action emitted `Started`: only in the
    /// sequential phase, only in order, and only one at a time.
    pub fn note_sequential_started(&mut self, k: usize)
        requires
            old(self).wf(),
            old(self).spec_phase() == SchedulerPhase::Sequential,
            !old(self).spec_seq_running(),
            k as int == old(self).spec_seq_next(),
            k < old(self).spec_sequential().len(),
        ensures
            final(self).wf(),
            final(self).spec_phase() == SchedulerPhase::Sequential,
            final(self).spec_seq_running(),
            final(self).spec_parallel() == old(self).spec_parallel(),
            final(self).spec_sequential() == old(self).spec_sequential(),
            final(self).spec_actions() == old(self).spec_actions(),
            final(self).spec_seq_next() == old(self).spec_seq_next(),
            final(self).spec_trace() == old(self).spec_trace().push(
                RunEvent::Started(old(self).spec_sequential()[k as int]),
            ),
    {
        let idx = self.sequential[k];
        self.seq_running = true;
        proof {
            self.trace = Ghost(self.trace@.push(RunEvent::Started(idx)));
            lemma_trace_push_keeps_done_witnesses(
                old(self).trace@,
                RunEvent::Started(idx),
                self.parallel@,
                self.parallel_done@,
            );
            // The appended Started is of a sequential action, but every
            // parallel action already has its Done in the trace.
            assert forall|a: int, j: int|
                0 <= a < self.trace@.len() && is_sequential_start(
                    #[trigger] self.trace@[a],
                    self.actions_model@,
                ) && 0 <= j < self.parallel@.len() implies done_before(
                self.trace@,
                a,
                #[trigger] self.parallel@[j],
            ) by {
                if a < self.trace@.len() - 1 {
                    assert(self.trace@[a] == old(self).trace@[a]);
                    assert(done_before(old(self).trace@, a, self.parallel@[j]));
                    let b = choose|b: int|
                        0 <= b < a && old(self).trace@[b] == RunEvent::Done(self.parallel@[j]);
                    assert(self.trace@[b] == RunEvent::Done(self.parallel@[j]));
                } else {
                    assert(old(self).parallel_done@[j]);
                    assert(done_before(
                        old(self).trace@,
                        old(self).trace@.len() as int,
                        self.parallel@[j],
                    ));
                    let b = choose|b: int|
                        0 <= b < old(self).trace@.len() && old(self).trace@[b] == RunEvent::Done(
                            self.parallel@[j],
                        );
                    assert(self.trace@[b] == RunEvent::Done(self.parallel@[j]));
                }
            }
        }
    }

    /// Record that the running sequential action emitted `Done`; the next
    /// sequential action may then start.
    pub fn note_sequential_done(&mut self, k: usize)
        requires
            old(self).wf(),
            old(self).spec_phase() == SchedulerPhase::Sequential,
            old(self).spec_seq_running(),
            k as int == old(self).spec_seq_next(),
            k < old(self).spec_sequential().len(),
        ensures
            final(self).wf(),
            final(self).spec_phase() == SchedulerPhase::Sequential,
            !final(self).spec_seq_running(),
            final(self).spec_parallel() == old(self).spec_parallel(),
            final(self).spec_sequential() == old(self).spec_sequential(),
            final(self).spec_actions() == old(self).spec_actions(),
            final(self).spec_seq_next() == old(self).spec_seq_next() + 1,
            final(self).spec_trace() == old(self).spec_trace().push(
                RunEvent::Done(old(self).spec_sequential()[k as int]),
            ),
    {
        let idx = self.sequential[k];
        let m = self.sequential.len();
        self.seq_running = false;
        self.seq_next = k + 1;
        proof {
            self.trace = Ghost(self.trace@.push(RunEvent::Done(idx)));
            lemma_trace_extend_keeps_order(
                old(self).trace@,
                RunEvent::Done(idx),
                self.actions_model@,
                self.parallel@,
            );
            lemma_trace_push_keeps_done_witnesses(
                old(self).trace@,
                RunEvent::Done(idx),
                self.parallel@,
                self.parallel_done@,
            );
        }
    }
}

/// Law (phase ordering): in every trace this scheduler admits, a sequential
/// action's `Started` is never observed before the `Done` of every
/// parallel-phase action.
pub proof fn lemma_phase_ordering(s: &Scheduler, a: int, k: int)
    requires
        s.wf(),
        0 <= a < s.spec_trace().len(),
        is_sequential_start(s.spec_trace()[a], s.spec_actions()),
        0 <= k < s.spec_parallel().len(),
    ensures
        done_before(s.spec_trace(), a, s.spec_parallel()[k]),
{
}

} // verus!
