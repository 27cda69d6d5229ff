//! The threaded executor model: workers pop tasks, acquire exclusive
//! ownership of the target processor, drive it, propagate readiness into the
//! task queue, and stop on completion, failure, cancellation or deadlock.

use vstd::prelude::*;

use crate::graph::Graph;
use crate::laws::{
    lemma_complete_conserves_rows, lemma_conserved_frame, lemma_step_conserves_rows,
    rows_conserved,
};
use crate::measure::{
    asyncs, lemma_complete_decreases, lemma_finish_decreases, lemma_issue_decreases,
    lemma_max_outputs_bound, lemma_measure_frame, lemma_potential_nonneg,
    lemma_progress_decreases, live, max_outputs, potential,
};
use crate::processor::{AsyncSlot, Edge, OpKind, PollState, Status};
use crate::step::StepResult;
use crate::tasks::TaskQueue;

verus! {

/// Terminal result of running a graph.
#[derive(Debug)]
pub enum Outcome {
    /// Every sink finished; one result stream per processor identifier
    /// (empty for non-sinks), rows in arrival order.
    Completed { streams: Vec<Vec<u64>> },
    /// An operator failed; `proc` is the first failure observed.
    Failed { proc: usize },
    /// Execution was stopped by the external cancellation trigger.
    Cancelled,
    /// No task was runnable and no asynchronous operation was pending, yet
    /// some sink had not finished: the dependencies are deadlocked.
    Deadlocked,
}

/// Rows collected for sink `s`, in arrival order.
pub open spec fn rows_of(collected: Seq<(usize, u64)>, s: int) -> Seq<u64>
    decreases collected.len(),
{
    if collected.len() == 0 {
        Seq::empty()
    } else {
        rows_of(collected.drop_last(), s) + (if collected.last().0 as int == s {
            seq![collected.last().1]
        } else {
            Seq::empty()
        })
    }
}

impl Graph {
    /// Exact semantics of one attempt to take the mutual-exclusion flag of
    /// processor `p`.
    pub open spec fn acquire_rel(pre: Graph, post: Graph, p: int, ok: bool) -> bool {
        &&& ok == !pre.running@[p]
        &&& if ok {
            post.running@ == pre.running@.update(p, true)
        } else {
            post.running@ == pre.running@
        }
        &&& post.procs@ == pre.procs@
        &&& post.edges@ == pre.edges@
        &&& post.status@ == pre.status@
        &&& post.cursor@ == pre.cursor@
        &&& post.aslot@ == pre.aslot@
        &&& post.collected@ == pre.collected@
        &&& post.cancelled == pre.cancelled
        &&& post.failed == pre.failed
    }

    /// Attempts to mark processor `p` as being driven by a worker. Fails
    /// exactly when another worker already holds it: at no instant do two
    /// workers hold the running flag of the same processor.
    pub fn try_acquire(&mut self, p: usize) -> (ok: bool)
        requires
            old(self).wf(),
            p < old(self).procs@.len(),
        ensures
            final(self).wf(),
            Graph::acquire_rel(*old(self), *final(self), p as int, ok),
    {
        let ghost pre = *self;
        if self.running[p] {
            false
        } else {
            self.running.set(p, true);
            proof {
                Graph::lemma_wf_preserved(pre, *self);
            }
            true
        }
    }

    /// Releases the mutual-exclusion flag of processor `p` after a drive.
    pub fn release(&mut self, p: usize)
        requires
            old(self).wf(),
            p < old(self).procs@.len(),
        ensures
            final(self).wf(),
            final(self).running@ == old(self).running@.update(p as int, false),
            final(self).procs@ == old(self).procs@,
            final(self).edges@ == old(self).edges@,
            final(self).status@ == old(self).status@,
            final(self).cursor@ == old(self).cursor@,
            final(self).aslot@ == old(self).aslot@,
            final(self).collected@ == old(self).collected@,
            final(self).cancelled == old(self).cancelled,
            final(self).failed == old(self).failed,
    {
        let ghost pre = *self;
        self.running.set(p, false);
        proof {
            Graph::lemma_wf_preserved(pre, *self);
        }
    }

    /// Lowest-numbered processor with an asynchronous operation in flight.
    pub fn find_held(&self) -> (r: Option<usize>)
        requires
            self.wf(),
        ensures
            match r {
                Some(p) => (p as int) < self.procs@.len() && self.aslot@[p as int] is Held,
                None => forall|p: int| 0 <= p < self.procs@.len() ==> !(self.aslot@[p] is Held),
            },
    {
        let n = self.aslot.len();
        let mut p: usize = 0;
        while p < n
            invariant
                self.wf(),
                n == self.aslot@.len(),
                n == self.procs@.len(),
                p <= n,
                forall|k: int| 0 <= k < p ==> !(self.aslot@[k] is Held),
            decreases n - p,
        {
            match self.aslot[p] {
                AsyncSlot::Held(_) => {
                    return Some(p);
                },
                _ => {},
            }
            p = p + 1;
        }
        None
    }

    /// Whether every sink processor has finished: the completion condition.
    pub open spec fn sinks_finished(self) -> bool {
        forall|p: int|
            0 <= p < self.procs@.len() && (#[trigger] self.procs@[p].kind) is Sink
                ==> self.status@[p] is Finished
    }

    /// Checks the completion condition.
    pub fn check_sinks_finished(&self) -> (r: bool)
        requires
            self.wf(),
        ensures
            r == self.sinks_finished(),
    {
        let n = self.procs.len();
        let mut p: usize = 0;
        while p < n
            invariant
                self.wf(),
                n == self.procs@.len(),
                p <= n,
                forall|k: int|
                    0 <= k < p && (#[trigger] self.procs@[k].kind) is Sink
                        ==> self.status@[k] is Finished,
            decreases n - p,
        {
            let is_sink = match &self.procs[p].kind {
                OpKind::Sink => true,
                _ => false,
            };
            if is_sink {
                match self.status[p] {
                    Status::Finished => {},
                    _ => {
                        return false;
                    },
                }
            }
            p = p + 1;
        }
        true
    }

    /// Extracts one result stream per processor identifier from the rows the
    /// sinks collected, preserving arrival order.
    pub fn collect_streams(&self) -> (streams: Vec<Vec<u64>>)
        requires
            self.wf(),
            forall|k: int|
                0 <= k < self.collected@.len() ==> (#[trigger] self.collected@[k]).0
                    < self.procs@.len(),
        ensures
            streams@.len() == self.procs@.len(),
            forall|p: int|
                0 <= p < self.procs@.len() ==> (#[trigger] streams@[p])@ == rows_of(
                    self.collected@,
                    p,
                ),
    {
        let n = self.procs.len();
        let mut streams: Vec<Vec<u64>> = Vec::new();
        let mut p: usize = 0;
        while p < n
            invariant
                streams@.len() == p,
                p <= n,
                forall|k: int| 0 <= k < p ==> (#[trigger] streams@[k])@ == Seq::<u64>::empty(),
            decreases n - p,
        {
            streams.push(Vec::new());
            p = p + 1;
        }
        proof {
            assert forall|q: int| 0 <= q < n implies rows_of(self.collected@.subrange(0, 0), q)
                == Seq::<u64>::empty() by {
                assert(self.collected@.subrange(0, 0) =~= Seq::<(usize, u64)>::empty());
            }
        }
        let m = self.collected.len();
        let mut i: usize = 0;
        while i < m
            invariant
                self.wf(),
                forall|k: int|
                    0 <= k < self.collected@.len() ==> (#[trigger] self.collected@[k]).0
                        < self.procs@.len(),
                m == self.collected@.len(),
                i <= m,
                n == self.procs@.len(),
                streams@.len() == n,
                forall|q: int|
                    0 <= q < n ==> (#[trigger] streams@[q])@ == rows_of(
                        self.collected@.subrange(0, i as int),
                        q,
                    ),
            decreases m - i,
        {
            let (s, item) = self.collected[i];
            let ghost old_streams = streams@;
            let slot = &mut streams[s];
            slot.push(item);
            proof {
                assert forall|q: int|
                    0 <= q < n implies (#[trigger] streams@[q])@ == rows_of(
                    self.collected@.subrange(0, i as int + 1),
                    q,
                ) by {
                    let c1 = self.collected@.subrange(0, i as int + 1);
                    assert(c1.drop_last() =~= self.collected@.subrange(0, i as int));
                    assert(c1.last() == self.collected@[i as int]);
                    if q == s as int {
                        assert(streams@[q]@ =~= rows_of(c1, q));
                    } else {
                        assert(streams@[q]@ =~= rows_of(c1, q));
                    }
                }
            }
            i = i + 1;
        }
        proof {
            assert(self.collected@.subrange(0, m as int) =~= self.collected@);
        }
        streams
    }
}

/// A `Progressed` drive of `p` can change the readiness only of `p` itself,
/// of the producer feeding the edge it drained, and of the consumer reading
/// the edge it filled; every other processor polls exactly as before.
proof fn lemma_progress_poll_frame(pre: Graph, post: Graph, p: int, drained: Option<usize>, filled: Option<usize>)
    requires
        pre.wf(),
        0 <= p < pre.procs@.len(),
        Graph::progresses(pre, post, p, drained, filled),
    ensures
        drained matches Some(d) ==> (d as int) < pre.edges@.len() && pre.edges@[d as int].to == p,
        filled matches Some(f) ==> (f as int) < pre.edges@.len() && pre.edges@[f as int].from == p,
        forall|e: int|
            0 <= e < pre.edges@.len() ==> (#[trigger] post.edges@[e]).from == pre.edges@[e].from
                && post.edges@[e].to == pre.edges@[e].to,
        forall|x: int|
            0 <= x < pre.procs@.len() && x != p && (drained matches Some(d) ==> x
                != pre.edges@[d as int].from) && (filled matches Some(f) ==> x
                != pre.edges@[f as int].to) ==> post.poll_spec(x) == pre.poll_spec(x),
{
    assert(pre.proc_ok(p));
    let pr = pre.procs@[p];
    // The step touched at most the drained and the filled edge, which hang
    // off p itself.
    match pr.kind {
        OpKind::Merge => {
            let i = choose|i: int|
                {
                    let in_e = pr.inputs@[i] as int;
                    let item = pre.edges@[in_e].slot->0;
                    &&& #[trigger] pre.input_has_at(p, i)
                    &&& 0 <= i < pr.inputs@.len()
                    &&& forall|k: int| 0 <= k < i ==> !pre.input_has_at(p, k)
                    &&& drained == Some(pr.inputs@[i])
                    &&& filled == Some(pr.outputs@[0])
                    &&& Graph::moves_row(pre, post, pr.inputs@[i] as int, pr.outputs@[0] as int, item)
                };
            assert(pre.edges@[pr.inputs@[i] as int].to == p);
        },
        _ => {},
    }
    assert forall|e: int|
        0 <= e < pre.edges@.len() && (drained matches Some(d) ==> e != d as int) && (
        filled matches Some(f) ==> e != f as int) implies post.edges@[e] == pre.edges@[e] by {}
    assert forall|x: int|
        0 <= x < pre.procs@.len() && x != p && (drained matches Some(d) ==> x
            != pre.edges@[d as int].from) && (filled matches Some(f) ==> x
            != pre.edges@[f as int].to) implies post.poll_spec(x) == pre.poll_spec(x) by {
        assert(pre.proc_ok(x));
        let px = pre.procs@[x];
        assert forall|i: int|
            0 <= i < px.inputs@.len() implies post.edges@[(#[trigger] px.inputs@[i]) as int]
                == pre.edges@[px.inputs@[i] as int] by {
            let e = px.inputs@[i] as int;
            assert(pre.edges@[e].to == x);
        }
        assert forall|j: int|
            0 <= j < px.outputs@.len() implies post.edges@[(#[trigger] px.outputs@[j]) as int]
                == pre.edges@[px.outputs@[j] as int] by {
            let e = px.outputs@[j] as int;
            assert(pre.edges@[e].from == x);
        }
        Graph::lemma_poll_frame(pre, post, x);
    }
}

/// A finishing drive of `p` can change the readiness only of `p` itself and
/// of the consumers of its output edges.
proof fn lemma_finish_poll_frame(pre: Graph, post: Graph, p: int)
    requires
        pre.wf(),
        0 <= p < pre.procs@.len(),
        Graph::finishes(pre, post, p),
    ensures
        forall|e: int|
            0 <= e < pre.edges@.len() ==> (#[trigger] post.edges@[e]).from == pre.edges@[e].from
                && post.edges@[e].to == pre.edges@[e].to,
        forall|x: int|
            0 <= x < pre.procs@.len() && x != p && !(exists|j: int|
                0 <= j < pre.procs@[p].outputs@.len()
                    && pre.edges@[(#[trigger] pre.procs@[p].outputs@[j]) as int].to == x)
                ==> post.poll_spec(x) == pre.poll_spec(x),
{
    assert(pre.proc_ok(p));
    assert forall|e: int|
        0 <= e < pre.edges@.len() implies (#[trigger] post.edges@[e]).from == pre.edges@[e].from
            && post.edges@[e].to == pre.edges@[e].to by {
        if Graph::edge_among(pre.procs@[p].outputs@, e) {
            let k = choose|k: int|
                0 <= k < pre.procs@[p].outputs@.len() && (#[trigger] pre.procs@[p].outputs@[k])
                    as int == e;
            assert(post.edges@[pre.procs@[p].outputs@[k] as int] == (Edge {
                finished: true,
                ..pre.edges@[pre.procs@[p].outputs@[k] as int]
            }));
        }
    }
    assert forall|x: int|
        0 <= x < pre.procs@.len() && x != p && !(exists|j: int|
            0 <= j < pre.procs@[p].outputs@.len()
                && pre.edges@[(#[trigger] pre.procs@[p].outputs@[j]) as int].to == x)
            implies post.poll_spec(x) == pre.poll_spec(x) by {
        assert(pre.proc_ok(x));
        let px = pre.procs@[x];
        assert forall|i: int|
            0 <= i < px.inputs@.len() implies post.edges@[(#[trigger] px.inputs@[i]) as int]
                == pre.edges@[px.inputs@[i] as int] by {
            let e = px.inputs@[i] as int;
            assert(pre.edges@[e].to == x);
            if Graph::edge_among(pre.procs@[p].outputs@, e) {
                let k = choose|k: int|
                    0 <= k < pre.procs@[p].outputs@.len() && (#[trigger] pre.procs@[p].outputs@[k])
                        as int == e;
                assert(pre.edges@[pre.procs@[p].outputs@[k] as int].to == x);
            }
        }
        assert forall|j: int|
            0 <= j < px.outputs@.len() implies post.edges@[(#[trigger] px.outputs@[j]) as int]
                == pre.edges@[px.outputs@[j] as int] by {
            let e = px.outputs@[j] as int;
            assert(pre.edges@[e].from == x);
            if Graph::edge_among(pre.procs@[p].outputs@, e) {
                let k = choose|k: int|
                    0 <= k < pre.procs@[p].outputs@.len() && (#[trigger] pre.procs@[p].outputs@[k])
                        as int == e;
                assert(pre.edges@[pre.procs@[p].outputs@[k] as int].from == p);
            }
        }
        Graph::lemma_poll_frame(pre, post, x);
    }
}

/// Issuing an asynchronous operation at `p` can change the readiness only of
/// `p` itself and of the producer feeding its input edge.
proof fn lemma_issue_poll_frame(pre: Graph, post: Graph, p: int)
    requires
        pre.wf(),
        0 <= p < pre.procs@.len(),
        Graph::issues_async(pre, post, p),
    ensures
        (pre.procs@[p].inputs@[0] as int) < pre.edges@.len(),
        forall|e: int|
            0 <= e < pre.edges@.len() ==> (#[trigger] post.edges@[e]).from == pre.edges@[e].from
                && post.edges@[e].to == pre.edges@[e].to,
        forall|x: int|
            0 <= x < pre.procs@.len() && x != p && x != pre.edges@[pre.procs@[p].inputs@[0] as int].from
                ==> post.poll_spec(x) == pre.poll_spec(x),
{
    assert(pre.proc_ok(p));
    let d = pre.procs@[p].inputs@[0] as int;
    assert forall|x: int|
        0 <= x < pre.procs@.len() && x != p && x != pre.edges@[d].from implies post.poll_spec(x)
            == pre.poll_spec(x) by {
        assert(pre.proc_ok(x));
        let px = pre.procs@[x];
        assert forall|i: int|
            0 <= i < px.inputs@.len() implies post.edges@[(#[trigger] px.inputs@[i]) as int]
                == pre.edges@[px.inputs@[i] as int] by {
            let e = px.inputs@[i] as int;
            assert(pre.edges@[e].to == x);
            assert(pre.edges@[d].to == p);
        }
        assert forall|j: int|
            0 <= j < px.outputs@.len() implies post.edges@[(#[trigger] px.outputs@[j]) as int]
                == pre.edges@[px.outputs@[j] as int] by {
            let e = px.outputs@[j] as int;
            assert(pre.edges@[e].from == x);
        }
        Graph::lemma_poll_frame(pre, post, x);
    }
}

/// After a drive of `p` by worker `w` produced `r`, re-evaluates readiness
/// edge-triggered: `p` itself, the consumer of every edge the step filled or
/// finished, and the producer of every edge it drained. Every processor found
/// `Runnable` is enqueued, so a filled edge never leaves its consumer without
/// a queued wake-up.
pub fn propagate_readiness(g: &Graph, q: &mut TaskQueue, w: usize, p: usize, r: StepResult)
    requires
        g.wf(),
        p < g.procs@.len(),
        w < old(q).locals@.len(),
        match r {
            StepResult::Progressed { drained, filled } => (drained matches Some(e) ==> (e as int)
                < g.edges@.len()) && (filled matches Some(e) ==> (e as int) < g.edges@.len()),
            _ => true,
        },
    ensures
        final(q).locals@.len() == old(q).locals@.len(),
        final(q).total() <= old(q).total() + (match r {
            StepResult::Progressed { .. } => 3int,
            StepResult::NowFinished => g.procs@[p as int].outputs@.len() as int,
            StepResult::AsyncIssued => 1int,
            StepResult::Failed => 0int,
        }),
        forall|x: usize| old(q).has_task(x) ==> final(q).has_task(x),
        forall|x: usize|
            final(q).has_task(x) && !old(q).has_task(x) ==> (x as int) < g.procs@.len(),
        match r {
            StepResult::Progressed { drained, filled } => {
                &&& (g.poll_spec(p as int) is Runnable ==> final(q).has_task(p))
                &&& (filled matches Some(e) ==> (g.poll_spec(g.edges@[e as int].to as int)
                    is Runnable ==> final(q).has_task(g.edges@[e as int].to)))
                &&& (drained matches Some(e) ==> (g.poll_spec(g.edges@[e as int].from as int)
                    is Runnable ==> final(q).has_task(g.edges@[e as int].from)))
            },
            StepResult::NowFinished => forall|j: int|
                0 <= j < g.procs@[p as int].outputs@.len() ==> {
                    let c = g.edges@[(#[trigger] g.procs@[p as int].outputs@[j]) as int].to;
                    g.poll_spec(c as int) is Runnable ==> final(q).has_task(c)
                },
            StepResult::AsyncIssued => {
                let in_e = g.procs@[p as int].inputs@[0] as int;
                g.procs@[p as int].inputs@.len() == 1 ==> (g.poll_spec(g.edges@[in_e].from as int)
                    is Runnable ==> final(q).has_task(g.edges@[in_e].from))
            },
            StepResult::Failed => true,
        },
{
    proof {
        assert(g.proc_ok(p as int));
    }
    match r {
        StepResult::Progressed { drained, filled } => {
            if g.poll(p) == PollState::Runnable {
                q.push_local(w, p);
            }
            match filled {
                Some(e) => {
                    proof {
                        assert(g.edge_ok(e as int));
                    }
                    let c = g.edges[e].to;
                    if g.poll(c) == PollState::Runnable {
                        q.push_local(w, c);
                    }
                },
                None => {},
            }
            match drained {
                Some(e) => {
                    proof {
                        assert(g.edge_ok(e as int));
                    }
                    let f = g.edges[e].from;
                    if g.poll(f) == PollState::Runnable {
                        q.push_local(w, f);
                    }
                },
                None => {},
            }
        },
        StepResult::NowFinished => {
            let m = g.procs[p].outputs.len();
            let mut j: usize = 0;
            #[verifier::loop_isolation(false)]
            while j < m
                invariant
                    q.locals@.len() == old(q).locals@.len(),
                    q.total() <= old(q).total() + j,
                    forall|x: usize| old(q).has_task(x) ==> q.has_task(x),
                    forall|x: usize|
                        q.has_task(x) && !old(q).has_task(x) ==> (x as int) < g.procs@.len(),
                    j <= m,
                    forall|k: int|
                        0 <= k < j ==> {
                            let c = g.edges@[(#[trigger] g.procs@[p as int].outputs@[k]) as int].to;
                            g.poll_spec(c as int) is Runnable ==> q.has_task(c)
                        },
                decreases m - j,
            {
                let e = g.procs[p].outputs[j];
                proof {
                    assert(g.edge_ok(e as int));
                }
                let c = g.edges[e].to;
                if g.poll(c) == PollState::Runnable {
                    q.push_local(w, c);
                }
                j = j + 1;
            }
        },
        StepResult::AsyncIssued => {
            let has_input = g.procs[p].inputs.len() == 1;
            if has_input {
                let e = g.procs[p].inputs[0];
                proof {
                    assert(g.edge_ok(e as int));
                }
                let f = g.edges[e].from;
                if g.poll(f) == PollState::Runnable {
                    q.push_local(w, f);
                }
            }
        },
        StepResult::Failed => {},
    }
}

/// A worker-step budget sufficient for the run to converge, computed from
/// the initial graph alone: every loop iteration of `run` either converges
/// or spends at least one unit of this quantity, so under a larger
/// `step_limit` the cancellation trigger can never fire.
pub open spec fn run_bound(g: Graph) -> int {
    6 * potential(g) + 2 * asyncs(g) + (max_outputs(g) + 2) * live(g) + g.procs@.len()
}

/// Runs the graph to a terminal outcome with a fixed pool of `workers`
/// logical workers. Workers take turns popping tasks (their local queue
/// first, then the global queue, then stealing), acquire exclusive ownership
/// of the target processor, drive it one step, and propagate readiness.
/// When no task is queued, a pending asynchronous completion is bridged back
/// into the queue; if none is pending either, execution has converged.
///
/// `step_limit` is the external cancellation trigger: if the limit is reached
/// before convergence, the run is cooperatively cancelled, exactly as a
/// timeout fired by an external timer would do.
pub fn run(g: &mut Graph, workers: usize, step_limit: u64) -> (out: Outcome)
    requires
        old(g).wf(),
        workers >= 1,
        !old(g).cancelled,
        old(g).failed is None,
        forall|x: int| 0 <= x < old(g).procs@.len() ==> !old(g).running@[x],
        forall|e: int| 0 <= e < old(g).edges@.len() ==> (#[trigger] old(g).edges@[e]).slot is None,
        forall|x: int| 0 <= x < old(g).aslot@.len() ==> (#[trigger] old(g).aslot@[x]) is Idle,
        old(g).collected@.len() == 0,
    ensures
        final(g).wf(),
        final(g).procs@ == old(g).procs@,
        rows_conserved(*final(g)),
        match out {
            Outcome::Completed { streams } => {
                &&& final(g).sinks_finished()
                &&& final(g).failed is None
                &&& !final(g).cancelled
                &&& streams@.len() == final(g).procs@.len()
                &&& forall|p: int|
                    0 <= p < final(g).procs@.len() ==> (#[trigger] streams@[p])@ == rows_of(
                        final(g).collected@,
                        p,
                    )
            },
            Outcome::Failed { proc } => {
                &&& final(g).failed == Some(proc)
                &&& (proc as int) < final(g).procs@.len()
                &&& (final(g).procs@[proc as int].kind matches OpKind::Filter { fail_on, .. }
                    && fail_on is Some)
                &&& !final(g).cancelled
                &&& forall|x: int|
                    0 <= x < final(g).procs@.len() ==> !(final(g).status@[x] is Active)
            },
            Outcome::Cancelled => {
                &&& final(g).cancelled
                &&& final(g).failed is None
                &&& forall|x: int|
                    0 <= x < final(g).procs@.len() ==> !(final(g).status@[x] is Active)
            },
            Outcome::Deadlocked => {
                &&& !final(g).sinks_finished()
                &&& final(g).failed is None
                &&& !final(g).cancelled
                &&& forall|p: int|
                    0 <= p < final(g).procs@.len() ==> !(final(g).aslot@[p] is Held)
                &&& forall|p: int|
                    0 <= p < final(g).procs@.len() ==> !(final(g).poll_spec(p) is Runnable)
            },
        },
        step_limit as int > run_bound(*old(g)) ==> !(out is Cancelled),
{
    let n = g.procs.len();
    let mut q = TaskQueue::new(workers);

    // Seed: every processor that is runnable at build time becomes a task.
    let mut p: usize = 0;
    while p < n
        invariant
            g.wf(),
            n == g.procs@.len(),
            p <= n,
            q.locals@.len() == workers,
            q.total() <= p as int,
            forall|x: usize| q.has_task(x) ==> (x as int) < g.procs@.len(),
            forall|x: usize|
                (x as int) < p && g.poll_spec(x as int) is Runnable ==> q.has_task(x),
            g.collected@.len() == 0,
        decreases n - p,
    {
        if g.poll(p) == PollState::Runnable {
            q.push_global(p);
        }
        p = p + 1;
    }

    let mut steps: u64 = 0;
    let mut w: usize = 0;
    let mut converged = false;
    while steps < step_limit && !converged
        invariant
            g.wf(),
            n == g.procs@.len(),
            workers >= 1,
            w < workers,
            q.locals@.len() == workers,
            forall|x: usize| q.has_task(x) ==> (x as int) < g.procs@.len(),
            !g.cancelled,
            g.failed is None,
            g.procs@ == old(g).procs@,
            forall|x: int| 0 <= x < g.procs@.len() ==> !g.running@[x],
            forall|k: int|
                0 <= k < g.collected@.len() ==> (#[trigger] g.collected@[k]).0 < g.procs@.len(),
            converged ==> forall|p: int|
                0 <= p < g.procs@.len() ==> !(g.aslot@[p] is Held),
            converged ==> q.total() == 0,
            forall|x: usize|
                (x as int) < g.procs@.len() && g.poll_spec(x as int) is Runnable
                    ==> q.has_task(x),
            !converged ==> steps as int + 6 * potential(*g) + 2 * asyncs(*g) + (max_outputs(*g)
                + 2) * live(*g) + q.total() <= run_bound(*old(g)),
            rows_conserved(*g),
            steps <= step_limit,
        decreases step_limit - steps,
    {
        steps = steps + 1;
        let ghost g0 = *g;
        let ghost q0 = q;
        let task = q.pop(w);
        match task {
            Some(t) => {
                if g.try_acquire(t) {
                    let ghost g_a = *g;
                    let s = g.poll(t);
                    if s == PollState::Runnable {
                        let r = g.run_step(t);
                        let ghost g_b = *g;
                        g.release(t);
                        match r {
                            StepResult::Failed => {
                                // First failure wins: cancel the rest
                                // cooperatively and drain without driving.
                                let ghost g_c = *g;
                                g.fail_all();
                                proof {
                                    assert(g.failed == Some(t));
                                    assert(g.procs@[t as int].kind matches OpKind::Filter {
                                        fail_on,
                                        ..
                                    } && fail_on is Some);
                                    lemma_conserved_frame(g0, g_a);
                                    lemma_step_conserves_rows(g_a, g_b, t as int, r);
                                    lemma_conserved_frame(g_b, g_c);
                                    lemma_conserved_frame(g_c, *g);
                                }
                                return Outcome::Failed { proc: t };
                            },
                            _ => {
                                let ghost g_c = *g;
                                propagate_readiness(g, &mut q, w, t, r);
                                proof {
                                    let ti = t as int;
                                    lemma_measure_frame(g0, g_a);
                                    lemma_measure_frame(g_b, g_c);
                                    lemma_conserved_frame(g0, g_a);
                                    lemma_step_conserves_rows(g_a, g_b, ti, r);
                                    lemma_conserved_frame(g_b, g_c);
                                    match r {
                                        StepResult::Progressed { drained, filled } => {
                                            lemma_progress_decreases(g_a, g_b, ti, drained, filled);
                                        },
                                        StepResult::NowFinished => {
                                            lemma_finish_decreases(g_a, g_b, ti);
                                            lemma_max_outputs_bound(g.procs@, n as int, ti);
                                            let kk = max_outputs(*g) + 2;
                                            assert(kk * live(*g) <= kk * live(g0) - kk)
                                                by (nonlinear_arith)
                                                requires
                                                    live(*g) <= live(g0) - 1,
                                                    kk >= 2,
                                            ;
                                        },
                                        StepResult::AsyncIssued => {
                                            lemma_issue_decreases(g_a, g_b, ti);
                                        },
                                        StepResult::Failed => {
                                            assert(false);
                                        },
                                    }
                                    assert forall|x: usize|
                                        (x as int) < n && g.poll_spec(x as int) is Runnable
                                            implies q.has_task(x) by {
                                        let xi = x as int;
                                        assert(g.proc_ok(ti));
                                        Graph::lemma_poll_frame(g_b, g_c, xi);
                                        Graph::lemma_poll_frame(g0, g_a, xi);
                                        if x == t {
                                            match r {
                                                StepResult::Progressed { .. } => {},
                                                StepResult::NowFinished => {
                                                    assert(g_c.status@[ti] is Finished);
                                                    assert(!(g.poll_spec(xi) is Runnable));
                                                },
                                                StepResult::AsyncIssued => {
                                                    assert(g_c.aslot@[ti] is Held);
                                                    assert(!(g.poll_spec(xi) is Runnable));
                                                },
                                                StepResult::Failed => {
                                                    assert(false);
                                                },
                                            }
                                        } else {
                                            match r {
                                                StepResult::Progressed { drained, filled } => {
                                                    lemma_progress_poll_frame(
                                                        g_a,
                                                        g_b,
                                                        ti,
                                                        drained,
                                                        filled,
                                                    );
                                                    let on_drain = drained matches Some(d) && xi
                                                        == g_a.edges@[d as int].from;
                                                    let on_fill = filled matches Some(f) && xi
                                                        == g_a.edges@[f as int].to;
                                                    if on_drain {
                                                        let d = drained->0 as int;
                                                        assert(g.edges@[d].from == x);
                                                    } else if on_fill {
                                                        let f = filled->0 as int;
                                                        assert(g.edges@[f].to == x);
                                                    } else {
                                                        assert(q0.has_task(x));
                                                    }
                                                },
                                                StepResult::NowFinished => {
                                                    let outs = g_a.procs@[ti].outputs@;
                                                    if exists|j: int|
                                                        0 <= j < outs.len() && g_a.edges@[(
                                                        #[trigger] outs[j]) as int].to == x {
                                                        let j = choose|j: int|
                                                            0 <= j < outs.len() && g_a.edges@[(
                                                            #[trigger] outs[j]) as int].to == x;
                                                        assert(g_a.proc_ok(ti));
                                                        assert(g.procs@[ti].outputs@[j]
                                                            == outs[j]);
                                                        assert(g.edges@[g.procs@[ti].outputs@[j] as int].to
                                                            == x);
                                                    } else {
                                                        lemma_finish_poll_frame(g_a, g_b, ti);
                                                        assert(q0.has_task(x));
                                                    }
                                                },
                                                StepResult::AsyncIssued => {
                                                    lemma_issue_poll_frame(g_a, g_b, ti);
                                                    let d = g_a.procs@[ti].inputs@[0] as int;
                                                    if xi != g_a.edges@[d].from {
                                                        assert(q0.has_task(x));
                                                    } else {
                                                        assert(g.edges@[g.procs@[ti].inputs@[0] as int].from
                                                            == x);
                                                    }
                                                },
                                                StepResult::Failed => {
                                                    assert(false);
                                                },
                                            }
                                        }
                                    }
                                }
                            },
                        }
                    } else {
                        // Stale task: the processor is no longer runnable.
                        g.release(t);
                        proof {
                            lemma_measure_frame(g0, g_a);
                            lemma_measure_frame(g_a, *g);
                            lemma_conserved_frame(g0, g_a);
                            lemma_conserved_frame(g_a, *g);
                            assert forall|x: usize|
                                (x as int) < n && g.poll_spec(x as int) is Runnable
                                    implies q.has_task(x) by {
                                let xi = x as int;
                                Graph::lemma_poll_frame(g0, g_a, xi);
                                Graph::lemma_poll_frame(g_a, *g, xi);
                                if x != t {
                                    assert(q0.has_task(x));
                                }
                            }
                        }
                    }
                } else {
                    proof {
                        assert(false);
                    }
                }
            },
            None => {
                // Nothing queued anywhere: bridge a pending asynchronous
                // completion back into the queue, or converge.
                match g.find_held() {
                    Some(a) => {
                        let ghost g_pre = *g;
                        g.complete_async(a);
                        q.push_global(a);
                        proof {
                            lemma_complete_decreases(g_pre, *g, a as int);
                            lemma_complete_conserves_rows(g_pre, *g, a as int);
                            assert forall|x: usize|
                                (x as int) < n && g.poll_spec(x as int) is Runnable
                                    implies q.has_task(x) by {
                                if x != a {
                                    Graph::lemma_poll_frame(g_pre, *g, x as int);
                                    assert(q0.has_task(x));
                                }
                            }
                        }
                    },
                    None => {
                        converged = true;
                    },
                }
            },
        }
        w = if w + 1 < workers {
            w + 1
        } else {
            0
        };
    }

    if g.check_sinks_finished() {
        let streams = g.collect_streams();
        Outcome::Completed { streams }
    } else if converged {
        proof {
            q.lemma_empty_has_no_task();
            assert forall|x: int|
                0 <= x < g.procs@.len() implies !(g.poll_spec(x) is Runnable) by {
                if g.poll_spec(x) is Runnable {
                    assert(q.has_task(x as usize));
                }
            }
        }
        Outcome::Deadlocked
    } else {
        // The external cancellation trigger fired before convergence; under
        // a budget above `run_bound` this cannot happen, since every
        // non-converging iteration pays for itself out of the measure.
        proof {
            if step_limit as int > run_bound(*old(g)) {
                lemma_potential_nonneg(*g);
                if n > 0 {
                    lemma_max_outputs_bound(g.procs@, n as int, 0);
                } else {
                    assert(max_outputs(*g) == 0);
                }
                assert((max_outputs(*g) + 2) * live(*g) >= 0) by (nonlinear_arith)
                    requires
                        max_outputs(*g) >= 0,
                        live(*g) >= 0,
                ;
                assert(false);
            }
        }
        let ghost g_f = *g;
        g.cancel();
        proof {
            lemma_conserved_frame(g_f, *g);
        }
        Outcome::Cancelled
    }
}

} // verus!
