//! The execution graph: an arena of processors and edges indexed by stable
//! integer identifiers, with per-processor runtime status, the per-processor
//! mutual-exclusion flag, and readiness computation.

use vstd::prelude::*;

use crate::processor::{AsyncSlot, Edge, OpKind, PollState, Processor, Status};

verus! {

/// The directed set of processors and edges for one query execution.
///
/// `procs` is fixed once built; everything that changes while the graph runs
/// (edge slots, statuses, cursors, async slots, collected rows, flags) lives
/// in the remaining fields, indexed by processor identifier.
#[derive(Debug)]
pub struct Graph {
    /// Operators and their port lists; immutable after build.
    pub procs: Vec<Processor>,
    /// The flow-controlled channels.
    pub edges: Vec<Edge>,
    /// Per-processor terminal-or-active status.
    pub status: Vec<Status>,
    /// Per-processor mutual-exclusion flag: true while a worker drives it.
    pub running: Vec<bool>,
    /// Per-processor counter: next row for a source, next output for a split.
    pub cursor: Vec<usize>,
    /// Per-processor asynchronous-operation slot.
    pub aslot: Vec<AsyncSlot>,
    /// Rows accepted by sinks, as (sink, row) pairs in arrival order.
    pub collected: Vec<(usize, u64)>,
    /// Set once by external cancellation; never cleared.
    pub cancelled: bool,
    /// First processor that failed, if any.
    pub failed: Option<usize>,
}

impl Graph {
    /// Number of processors.
    pub open spec fn n(self) -> int {
        self.procs@.len() as int
    }

    /// The per-processor bookkeeping vectors all have one entry per processor.
    pub open spec fn lens_ok(self) -> bool {
        &&& self.status@.len() == self.procs@.len()
        &&& self.running@.len() == self.procs@.len()
        &&& self.cursor@.len() == self.procs@.len()
        &&& self.aslot@.len() == self.procs@.len()
    }

    /// An edge runs from a lower processor identifier to a strictly higher
    /// one: the numbering is a topological order, so the graph is acyclic.
    pub open spec fn edge_ok(self, e: int) -> bool {
        &&& self.edges@[e].from < self.edges@[e].to
        &&& (self.edges@[e].to as int) < self.n()
    }

    /// Port lists of processor `p` reference valid edges whose matching
    /// endpoint is `p` itself.
    pub open spec fn ports_ok(self, p: int) -> bool {
        let pr = self.procs@[p];
        &&& forall|i: int|
            0 <= i < pr.inputs@.len() ==> (#[trigger] pr.inputs@[i]) < self.edges@.len()
                && self.edges@[pr.inputs@[i] as int].to == p
        &&& forall|j: int|
            0 <= j < pr.outputs@.len() ==> (#[trigger] pr.outputs@[j]) < self.edges@.len()
                && self.edges@[pr.outputs@[j] as int].from == p
    }

    /// Arity and counter constraints demanded by each operator kind.
    pub open spec fn kind_ok(self, p: int) -> bool {
        let pr = self.procs@[p];
        match pr.kind {
            OpKind::Source { rows } => pr.inputs@.len() == 0 && pr.outputs@.len() == 1
                && self.cursor@[p] <= rows@.len() && self.aslot@[p] is Idle,
            OpKind::Filter { .. } => pr.inputs@.len() == 1 && pr.outputs@.len() == 1
                && self.aslot@[p] is Idle,
            OpKind::Split => pr.inputs@.len() == 1 && pr.outputs@.len() >= 1
                && (self.cursor@[p] as int) < pr.outputs@.len() && self.aslot@[p] is Idle,
            OpKind::Merge => pr.inputs@.len() >= 1 && pr.outputs@.len() == 1
                && self.aslot@[p] is Idle,
            OpKind::AsyncMap => pr.inputs@.len() == 1 && pr.outputs@.len() == 1,
            OpKind::Sink => pr.inputs@.len() == 1 && pr.outputs@.len() == 0
                && self.aslot@[p] is Idle,
        }
    }

    /// All structural constraints on processor `p`.
    pub open spec fn proc_ok(self, p: int) -> bool {
        self.ports_ok(p) && self.kind_ok(p)
    }

    /// Well-formedness of the whole graph; established by the builder and
    /// preserved by every drive step.
    pub open spec fn wf(self) -> bool {
        &&& self.lens_ok()
        &&& forall|e: int| 0 <= e < self.edges@.len() ==> #[trigger] self.edge_ok(e)
        &&& forall|p: int| 0 <= p < self.n() ==> #[trigger] self.proc_ok(p)
    }

    /// Input edge `i` of processor `p` currently buffers a row.
    pub open spec fn input_has_at(self, p: int, i: int) -> bool {
        self.edges@[self.procs@[p].inputs@[i] as int].has_data()
    }

    /// Some input edge of `p` buffers a row.
    pub open spec fn some_input_has(self, p: int) -> bool {
        exists|i: int| 0 <= i < self.procs@[p].inputs@.len() && #[trigger] self.input_has_at(p, i)
    }

    /// Input edge `i` of processor `p` is finished and drained.
    pub open spec fn input_exhausted_at(self, p: int, i: int) -> bool {
        self.edges@[self.procs@[p].inputs@[i] as int].exhausted()
    }

    /// Every input edge of `p` is finished and drained: end of stream.
    pub open spec fn all_inputs_exhausted(self, p: int) -> bool {
        forall|i: int|
            0 <= i < self.procs@[p].inputs@.len() ==> #[trigger] self.input_exhausted_at(p, i)
    }

    /// Readiness relative to one output edge: runnable if it has capacity,
    /// otherwise blocked on downstream backpressure.
    pub open spec fn push_poll_spec(self, e: int) -> PollState {
        if self.edges@[e].can_push() {
            PollState::Runnable
        } else {
            PollState::HasOutputReady
        }
    }

    /// Readiness of an operator that moves one row from an input edge to an
    /// output edge, or finishes once the input is exhausted.
    pub open spec fn relay_poll_spec(self, in_e: int, out_e: int) -> PollState {
        if self.edges@[in_e].has_data() {
            self.push_poll_spec(out_e)
        } else if self.edges@[in_e].exhausted() {
            PollState::Runnable
        } else {
            PollState::NeedsInput
        }
    }

    /// Pure readiness of processor `p`, computed from its status, its
    /// counters and the flags of its adjacent edges; mutates nothing.
    pub open spec fn poll_spec(self, p: int) -> PollState {
        let pr = self.procs@[p];
        if self.status@[p] is Failed {
            PollState::Failed
        } else if self.status@[p] is Finished {
            PollState::Finished
        } else {
            match pr.kind {
                OpKind::Source { rows } => if (self.cursor@[p] as int) < rows@.len() {
                    self.push_poll_spec(pr.outputs@[0] as int)
                } else {
                    PollState::Runnable
                },
                OpKind::Filter { .. } => self.relay_poll_spec(
                    pr.inputs@[0] as int,
                    pr.outputs@[0] as int,
                ),
                OpKind::Split => self.relay_poll_spec(
                    pr.inputs@[0] as int,
                    pr.outputs@[self.cursor@[p] as int] as int,
                ),
                OpKind::Merge => if self.some_input_has(p) {
                    self.push_poll_spec(pr.outputs@[0] as int)
                } else if self.all_inputs_exhausted(p) {
                    PollState::Runnable
                } else {
                    PollState::NeedsInput
                },
                OpKind::AsyncMap => match self.aslot@[p] {
                    AsyncSlot::Ready(_) => self.push_poll_spec(pr.outputs@[0] as int),
                    AsyncSlot::Held(_) => PollState::WaitingAsync,
                    AsyncSlot::Idle => if self.edges@[pr.inputs@[0] as int].has_data() {
                        PollState::Runnable
                    } else if self.edges@[pr.inputs@[0] as int].exhausted() {
                        PollState::Runnable
                    } else {
                        PollState::NeedsInput
                    },
                },
                OpKind::Sink => if self.edges@[pr.inputs@[0] as int].has_data()
                    || self.edges@[pr.inputs@[0] as int].exhausted() {
                    PollState::Runnable
                } else {
                    PollState::NeedsInput
                },
            }
        }
    }

    /// Readiness relative to output edge `e`.
    fn push_poll(&self, e: usize) -> (s: PollState)
        requires
            e < self.edges@.len(),
        ensures
            s == self.push_poll_spec(e as int),
    {
        let ed = self.edges[e];
        if ed.slot.is_none() && !ed.finished {
            PollState::Runnable
        } else {
            PollState::HasOutputReady
        }
    }

    /// Lowest-indexed input edge of `p` that buffers a row, if any.
    ///
    /// Returns the position within `p`'s input list; `None` exactly when no
    /// input edge of `p` has data.
    pub fn first_ready_input(&self, p: usize) -> (r: Option<usize>)
        requires
            self.wf(),
            p < self.procs@.len(),
        ensures
            match r {
                Some(i) => (i as int) < self.procs@[p as int].inputs@.len()
                    && self.input_has_at(p as int, i as int)
                    && forall|k: int| 0 <= k < i ==> !self.input_has_at(p as int, k),
                None => !self.some_input_has(p as int),
            },
    {
        proof {
            assert(self.proc_ok(p as int));
        }
        let pr = &self.procs[p];
        let mut i: usize = 0;
        while i < pr.inputs.len()
            invariant
                self.wf(),
                p < self.procs@.len(),
                pr == &self.procs@[p as int],
                i <= pr.inputs@.len(),
                forall|k: int| 0 <= k < i ==> !self.input_has_at(p as int, k),
            decreases pr.inputs@.len() - i,
        {
            proof {
                assert(self.proc_ok(p as int));
            }
            let e = pr.inputs[i];
            if self.edges[e].slot.is_some() {
                return Some(i);
            }
            i = i + 1;
        }
        None
    }

    /// Whether every input edge of `p` is finished and drained.
    pub fn inputs_exhausted(&self, p: usize) -> (r: bool)
        requires
            self.wf(),
            p < self.procs@.len(),
        ensures
            r == self.all_inputs_exhausted(p as int),
    {
        proof {
            assert(self.proc_ok(p as int));
        }
        let pr = &self.procs[p];
        let mut i: usize = 0;
        while i < pr.inputs.len()
            invariant
                self.wf(),
                p < self.procs@.len(),
                pr == &self.procs@[p as int],
                i <= pr.inputs@.len(),
                forall|k: int| 0 <= k < i ==> self.input_exhausted_at(p as int, k),
            decreases pr.inputs@.len() - i,
        {
            proof {
                assert(self.proc_ok(p as int));
            }
            let e = pr.inputs[i];
            let ed = self.edges[e];
            if !(ed.finished && ed.slot.is_none()) {
                proof {
                    assert(!self.input_exhausted_at(p as int, i as int));
                }
                return false;
            }
            i = i + 1;
        }
        true
    }

    /// Computes the readiness of processor `p`: a pure inspection of its
    /// status and its edges' flags that mutates no data.
    pub fn poll(&self, p: usize) -> (s: PollState)
        requires
            self.wf(),
            p < self.procs@.len(),
        ensures
            s == self.poll_spec(p as int),
    {
        proof {
            assert(self.proc_ok(p as int));
        }
        match self.status[p] {
            Status::Failed => PollState::Failed,
            Status::Finished => PollState::Finished,
            Status::Active => {
                let pr = &self.procs[p];
                match &pr.kind {
                    OpKind::Source { rows } => {
                        if self.cursor[p] < rows.len() {
                            self.push_poll(pr.outputs[0])
                        } else {
                            PollState::Runnable
                        }
                    },
                    OpKind::Filter { .. } => {
                        self.relay_poll(pr.inputs[0], pr.outputs[0])
                    },
                    OpKind::Split => {
                        self.relay_poll(pr.inputs[0], pr.outputs[self.cursor[p]])
                    },
                    OpKind::Merge => {
                        if self.first_ready_input(p).is_some() {
                            self.push_poll(pr.outputs[0])
                        } else if self.inputs_exhausted(p) {
                            PollState::Runnable
                        } else {
                            PollState::NeedsInput
                        }
                    },
                    OpKind::AsyncMap => {
                        match self.aslot[p] {
                            AsyncSlot::Ready(_) => self.push_poll(pr.outputs[0]),
                            AsyncSlot::Held(_) => PollState::WaitingAsync,
                            AsyncSlot::Idle => {
                                let ed = self.edges[pr.inputs[0]];
                                if ed.slot.is_some() || ed.finished {
                                    PollState::Runnable
                                } else {
                                    PollState::NeedsInput
                                }
                            },
                        }
                    },
                    OpKind::Sink => {
                        let ed = self.edges[pr.inputs[0]];
                        if ed.slot.is_some() || ed.finished {
                            PollState::Runnable
                        } else {
                            PollState::NeedsInput
                        }
                    },
                }
            },
        }
    }

    /// Readiness is local: the poll of a processor depends only on its own
    /// status, counters and adjacent edges. A change anywhere else in the
    /// graph cannot alter it.
    pub proof fn lemma_poll_frame(g1: Graph, g2: Graph, x: int)
        requires
            g1.wf(),
            0 <= x < g1.procs@.len(),
            g2.procs@ == g1.procs@,
            g2.edges@.len() == g1.edges@.len(),
            g2.status@.len() == g1.status@.len(),
            g2.cursor@.len() == g1.cursor@.len(),
            g2.aslot@.len() == g1.aslot@.len(),
            g2.status@[x] == g1.status@[x],
            g2.cursor@[x] == g1.cursor@[x],
            g2.aslot@[x] == g1.aslot@[x],
            forall|i: int|
                0 <= i < g1.procs@[x].inputs@.len() ==> g2.edges@[(
                #[trigger] g1.procs@[x].inputs@[i]) as int] == g1.edges@[g1.procs@[x].inputs@[i] as int],
            forall|j: int|
                0 <= j < g1.procs@[x].outputs@.len() ==> g2.edges@[(
                #[trigger] g1.procs@[x].outputs@[j]) as int] == g1.edges@[g1.procs@[x].outputs@[j] as int],
        ensures
            g2.poll_spec(x) == g1.poll_spec(x),
    {
        assert(g1.proc_ok(x));
        let pr = g1.procs@[x];
        assert forall|i: int| 0 <= i < pr.inputs@.len() implies g2.input_has_at(x, i)
            == g1.input_has_at(x, i) && g2.input_exhausted_at(x, i) == g1.input_exhausted_at(
            x,
            i,
        ) by {
            assert(g2.edges@[pr.inputs@[i] as int] == g1.edges@[pr.inputs@[i] as int]);
        }
        assert(g2.some_input_has(x) == g1.some_input_has(x)) by {
            if g1.some_input_has(x) {
                let i = choose|i: int|
                    0 <= i < g1.procs@[x].inputs@.len() && #[trigger] g1.input_has_at(x, i);
                assert(g2.input_has_at(x, i));
            }
            if g2.some_input_has(x) {
                let i = choose|i: int|
                    0 <= i < g2.procs@[x].inputs@.len() && #[trigger] g2.input_has_at(x, i);
                assert(g1.input_has_at(x, i));
            }
        }
        assert(g2.all_inputs_exhausted(x) == g1.all_inputs_exhausted(x)) by {
            if g1.all_inputs_exhausted(x) {
                assert forall|i: int|
                    0 <= i < g2.procs@[x].inputs@.len() implies #[trigger] g2.input_exhausted_at(
                    x,
                    i,
                ) by {
                    assert(g1.input_exhausted_at(x, i));
                }
            }
            if g2.all_inputs_exhausted(x) {
                assert forall|i: int|
                    0 <= i < g1.procs@[x].inputs@.len() implies #[trigger] g1.input_exhausted_at(
                    x,
                    i,
                ) by {
                    assert(g2.input_exhausted_at(x, i));
                }
            }
        }
        match pr.kind {
            OpKind::Source { .. } => {
                assert(g2.edges@[pr.outputs@[0] as int] == g1.edges@[pr.outputs@[0] as int]);
            },
            OpKind::Filter { .. } => {
                assert(g2.edges@[pr.inputs@[0] as int] == g1.edges@[pr.inputs@[0] as int]);
                assert(g2.edges@[pr.outputs@[0] as int] == g1.edges@[pr.outputs@[0] as int]);
            },
            OpKind::Split => {
                assert(g2.edges@[pr.inputs@[0] as int] == g1.edges@[pr.inputs@[0] as int]);
                assert(g2.edges@[pr.outputs@[g1.cursor@[x] as int] as int] == g1.edges@[pr.outputs@[
                    g1.cursor@[x] as int] as int]);
            },
            OpKind::Merge => {
                assert(g2.edges@[pr.outputs@[0] as int] == g1.edges@[pr.outputs@[0] as int]);
            },
            OpKind::AsyncMap => {
                assert(g2.edges@[pr.inputs@[0] as int] == g1.edges@[pr.inputs@[0] as int]);
                assert(g2.edges@[pr.outputs@[0] as int] == g1.edges@[pr.outputs@[0] as int]);
            },
            OpKind::Sink => {
                assert(g2.edges@[pr.inputs@[0] as int] == g1.edges@[pr.inputs@[0] as int]);
            },
        }
    }

    /// Readiness of a one-in, one-out relay stage.
    fn relay_poll(&self, in_e: usize, out_e: usize) -> (s: PollState)
        requires
            in_e < self.edges@.len(),
            out_e < self.edges@.len(),
        ensures
            s == self.relay_poll_spec(in_e as int, out_e as int),
    {
        let ie = self.edges[in_e];
        if ie.slot.is_some() {
            self.push_poll(out_e)
        } else if ie.finished {
            PollState::Runnable
        } else {
            PollState::NeedsInput
        }
    }
}

} // verus!
