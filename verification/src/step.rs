//! Driving a processor: one bounded unit of computation, applied to the
//! graph, together with the exact transition relations that describe it.

use vstd::prelude::*;

use crate::graph::Graph;
use crate::processor::{AsyncSlot, Edge, OpKind, PollState, Status};

verus! {

/// What a single drive of a processor did.
#[derive(Clone, Copy, Debug)]
pub enum StepResult {
    /// Rows moved: `drained` was emptied and/or `filled` received a row.
    Progressed { drained: Option<usize>, filled: Option<usize> },
    /// The processor reached `Finished` and notified its output edges.
    NowFinished,
    /// The processor issued an asynchronous operation and now waits.
    AsyncIssued,
    /// The processor failed; the graph records it as the first failure if no
    /// earlier one exists.
    Failed,
}

impl Graph {
    /// Fields no drive step ever touches.
    pub open spec fn step_frame(pre: Graph, post: Graph) -> bool {
        &&& post.procs@ == pre.procs@
        &&& post.running@ == pre.running@
        &&& post.cancelled == pre.cancelled
    }

    /// Whether edge `e` appears among the first `upto` entries of a port list.
    pub open spec fn edge_among_upto(ports: Seq<usize>, upto: int, e: int) -> bool {
        exists|k: int| 0 <= k < upto && (#[trigger] ports[k]) as int == e
    }

    /// Whether edge `e` appears in a port list.
    pub open spec fn edge_among(ports: Seq<usize>, e: int) -> bool {
        Graph::edge_among_upto(ports, ports.len() as int, e)
    }

    /// One row moved from edge `in_e` to edge `out_e`; no other edge changed.
    pub open spec fn moves_row(pre: Graph, post: Graph, in_e: int, out_e: int, item: u64) -> bool {
        &&& pre.edges@[in_e].slot == Some(item)
        &&& pre.edges@[out_e].can_push()
        &&& in_e != out_e
        &&& post.edges@ == pre.edges@.update(in_e, (Edge { slot: None, ..pre.edges@[in_e] }))
            .update(out_e, (Edge { slot: Some(item), ..pre.edges@[out_e] }))
    }

    /// Exact transition for a `Progressed` step of processor `p`.
    pub open spec fn progresses(pre: Graph, post: Graph, p: int, drained: Option<usize>, filled: Option<usize>) -> bool {
        let pr = pre.procs@[p];
        &&& match pr.kind {
            OpKind::Source { rows } => {
                let c = pre.cursor@[p] as int;
                let out_e = pr.outputs@[0] as int;
                &&& c < rows@.len()
                &&& pre.edges@[out_e].can_push()
                &&& drained is None
                &&& filled == Some(pr.outputs@[0])
                &&& post.edges@ == pre.edges@.update(out_e, (Edge { slot: Some(rows@[c]), ..pre.edges@[out_e] }))
                &&& post.cursor@ == pre.cursor@.update(p, ((pre.cursor@[p] + 1) as usize))
                &&& post.aslot@ == pre.aslot@
                &&& post.collected@ == pre.collected@
            },
            OpKind::Filter { pred, fail_on } => {
                let in_e = pr.inputs@[0] as int;
                let item = pre.edges@[in_e].slot->0;
                &&& pre.edges@[in_e].has_data()
                &&& fail_on != Some(item)
                &&& drained == Some(pr.inputs@[0])
                &&& if pred.keeps_spec(item) {
                    &&& filled == Some(pr.outputs@[0])
                    &&& Graph::moves_row(pre, post, in_e, pr.outputs@[0] as int, item)
                } else {
                    &&& filled is None
                    &&& post.edges@ == pre.edges@.update(in_e, (Edge { slot: None, ..pre.edges@[in_e] }))
                }
                &&& post.cursor@ == pre.cursor@
                &&& post.aslot@ == pre.aslot@
                &&& post.collected@ == pre.collected@
            },
            OpKind::Split => {
                let in_e = pr.inputs@[0] as int;
                let out_e = pr.outputs@[pre.cursor@[p] as int] as int;
                let item = pre.edges@[in_e].slot->0;
                &&& pre.edges@[in_e].has_data()
                &&& drained == Some(pr.inputs@[0])
                &&& filled == Some(pr.outputs@[pre.cursor@[p] as int])
                &&& Graph::moves_row(pre, post, in_e, out_e, item)
                &&& post.cursor@ == pre.cursor@.update(p, (((pre.cursor@[p] + 1) as int % pr.outputs@.len() as int) as usize))
                &&& post.aslot@ == pre.aslot@
                &&& post.collected@ == pre.collected@
            },
            OpKind::Merge => {
                let out_e = pr.outputs@[0] as int;
                &&& exists|i: int| {
                    let in_e = pr.inputs@[i] as int;
                    let item = pre.edges@[in_e].slot->0;
                    &&& #[trigger] pre.input_has_at(p, i)
                    &&& 0 <= i < pr.inputs@.len()
                    &&& forall|k: int| 0 <= k < i ==> !pre.input_has_at(p, k)
                    &&& drained == Some(pr.inputs@[i])
                    &&& filled == Some(pr.outputs@[0])
                    &&& Graph::moves_row(pre, post, in_e, out_e, item)
                }
                &&& post.cursor@ == pre.cursor@
                &&& post.aslot@ == pre.aslot@
                &&& post.collected@ == pre.collected@
            },
            OpKind::AsyncMap => {
                let out_e = pr.outputs@[0] as int;
                let item = pre.aslot@[p]->Ready_0;
                &&& pre.aslot@[p] is Ready
                &&& pre.edges@[out_e].can_push()
                &&& drained is None
                &&& filled == Some(pr.outputs@[0])
                &&& post.edges@ == pre.edges@.update(out_e, (Edge { slot: Some(item), ..pre.edges@[out_e] }))
                &&& post.aslot@ == pre.aslot@.update(p, AsyncSlot::Idle)
                &&& post.cursor@ == pre.cursor@
                &&& post.collected@ == pre.collected@
            },
            OpKind::Sink => {
                let in_e = pr.inputs@[0] as int;
                let item = pre.edges@[in_e].slot->0;
                &&& pre.edges@[in_e].has_data()
                &&& drained == Some(pr.inputs@[0])
                &&& filled is None
                &&& post.edges@ == pre.edges@.update(in_e, (Edge { slot: None, ..pre.edges@[in_e] }))
                &&& post.collected@ == pre.collected@.push((p as usize, item))
                &&& post.cursor@ == pre.cursor@
                &&& post.aslot@ == pre.aslot@
            },
        }
        &&& post.status@ == pre.status@
        &&& post.failed == pre.failed
        &&& Graph::step_frame(pre, post)
    }

    /// Whether processor `p` has no further rows to produce or consume, so
    /// that its next drive is the finishing transition: a source has emitted
    /// every row; a relay, sink or idle asynchronous stage sees its input
    /// finished and drained; a merge sees every input finished and drained.
    pub open spec fn end_of_stream(self, p: int) -> bool {
        let pr = self.procs@[p];
        match pr.kind {
            OpKind::Source { rows } => (self.cursor@[p] as int) >= rows@.len(),
            OpKind::Filter { .. } => self.edges@[pr.inputs@[0] as int].exhausted(),
            OpKind::Split => self.edges@[pr.inputs@[0] as int].exhausted(),
            OpKind::Merge => self.all_inputs_exhausted(p),
            OpKind::AsyncMap => self.aslot@[p] is Idle && self.edges@[pr.inputs@[0] as int].exhausted(),
            OpKind::Sink => self.edges@[pr.inputs@[0] as int].exhausted(),
        }
    }

    /// Exact transition for a finishing step: processor `p` becomes
    /// `Finished` and marks every output edge finished; nothing else moves.
    pub open spec fn finishes(pre: Graph, post: Graph, p: int) -> bool {
        let pr = pre.procs@[p];
        &&& post.status@ == pre.status@.update(p, Status::Finished)
        &&& post.edges@.len() == pre.edges@.len()
        &&& forall|j: int|
            0 <= j < pr.outputs@.len() ==> post.edges@[#[trigger] pr.outputs@[j] as int]
                == (Edge { finished: true, ..pre.edges@[pr.outputs@[j] as int] })
        &&& forall|e: int|
            0 <= e < pre.edges@.len() && !Graph::edge_among(pr.outputs@, e)
                ==> post.edges@[e] == pre.edges@[e]
        &&& post.cursor@ == pre.cursor@
        &&& post.aslot@ == pre.aslot@
        &&& post.collected@ == pre.collected@
        &&& post.failed == pre.failed
        &&& Graph::step_frame(pre, post)
    }

    /// Exact transition for an asynchronous stage consuming its input and
    /// issuing its operation: the row is held, the stage now waits.
    pub open spec fn issues_async(pre: Graph, post: Graph, p: int) -> bool {
        let pr = pre.procs@[p];
        let in_e = pr.inputs@[0] as int;
        let item = pre.edges@[in_e].slot->0;
        &&& pr.kind is AsyncMap
        &&& pre.aslot@[p] is Idle
        &&& pre.edges@[in_e].has_data()
        &&& post.edges@ == pre.edges@.update(in_e, (Edge { slot: None, ..pre.edges@[in_e] }))
        &&& post.aslot@ == pre.aslot@.update(p, AsyncSlot::Held(item))
        &&& post.status@ == pre.status@
        &&& post.cursor@ == pre.cursor@
        &&& post.collected@ == pre.collected@
        &&& post.failed == pre.failed
        &&& Graph::step_frame(pre, post)
    }

    /// Exact transition for an operator failure: the offending row is
    /// consumed, the processor becomes `Failed`, and the graph records it as
    /// the first failure if none was recorded before.
    pub open spec fn fails_step(pre: Graph, post: Graph, p: int) -> bool {
        let pr = pre.procs@[p];
        let in_e = pr.inputs@[0] as int;
        let item = pre.edges@[in_e].slot->0;
        &&& pr.kind matches OpKind::Filter { fail_on, .. } && fail_on == Some(item)
        &&& pre.edges@[in_e].has_data()
        &&& post.edges@ == pre.edges@.update(in_e, (Edge { slot: None, ..pre.edges@[in_e] }))
        &&& post.status@ == pre.status@.update(p, Status::Failed)
        &&& post.failed == (if pre.failed is Some { pre.failed } else { Some(p as usize) })
        &&& post.cursor@ == pre.cursor@
        &&& post.aslot@ == pre.aslot@
        &&& post.collected@ == pre.collected@
        &&& Graph::step_frame(pre, post)
    }

    /// Well-formedness survives any change that keeps the topology, the
    /// bookkeeping lengths, and the per-kind counter constraints.
    pub(crate) proof fn lemma_wf_preserved(pre: Graph, post: Graph)
        requires
            pre.wf(),
            post.procs@ == pre.procs@,
            post.status@.len() == pre.status@.len(),
            post.running@.len() == pre.running@.len(),
            post.cursor@.len() == pre.cursor@.len(),
            post.aslot@.len() == pre.aslot@.len(),
            post.edges@.len() == pre.edges@.len(),
            forall|e: int|
                0 <= e < pre.edges@.len() ==> (#[trigger] post.edges@[e]).from == pre.edges@[e].from
                    && post.edges@[e].to == pre.edges@[e].to,
            forall|q: int|
                0 <= q < pre.n() ==> (post.cursor@[q] == pre.cursor@[q] && post.aslot@[q]
                    == pre.aslot@[q]) || #[trigger] post.kind_ok(q),
        ensures
            post.wf(),
    {
        assert forall|e: int| 0 <= e < post.edges@.len() implies post.edge_ok(e) by {
            assert(pre.edge_ok(e));
        }
        assert forall|q: int| 0 <= q < post.n() implies post.proc_ok(q) by {
            assert(pre.proc_ok(q));
            assert(post.ports_ok(q));
            if post.cursor@[q] == pre.cursor@[q] && post.aslot@[q] == pre.aslot@[q] {
                assert(post.kind_ok(q));
            }
        }
    }

    /// Transitions processor `p` to `Finished` and marks all of its output
    /// edges finished, so consumers observe end of stream.
    fn finish_proc(&mut self, p: usize)
        requires
            old(self).wf(),
            p < old(self).procs@.len(),
            old(self).status@[p as int] is Active,
        ensures
            final(self).wf(),
            Graph::finishes(*old(self), *final(self), p as int),
    {
        proof {
            assert(old(self).proc_ok(p as int));
        }
        let ghost pre = *self;
        let m = self.procs[p].outputs.len();
        let mut j: usize = 0;
        while j < m
            invariant
                pre.wf(),
                pre.proc_ok(p as int),
                p < pre.procs@.len(),
                m == pre.procs@[p as int].outputs@.len(),
                j <= m,
                self.procs@ == pre.procs@,
                self.status@ == pre.status@,
                self.running@ == pre.running@,
                self.cursor@ == pre.cursor@,
                self.aslot@ == pre.aslot@,
                self.collected@ == pre.collected@,
                self.cancelled == pre.cancelled,
                self.failed == pre.failed,
                self.edges@.len() == pre.edges@.len(),
                forall|e: int|
                    0 <= e < pre.edges@.len() ==> #[trigger] self.edges@[e] == (
                    if Graph::edge_among_upto(pre.procs@[p as int].outputs@, j as int, e) {
                        Edge { finished: true, ..pre.edges@[e] }
                    } else {
                        pre.edges@[e]
                    }),
            decreases m - j,
        {
            let e = self.procs[p].outputs[j];
            let ed = self.edges[e];
            self.edges.set(e, Edge { finished: true, ..ed });
            proof {
                let outs = pre.procs@[p as int].outputs@;
                assert forall|ee: int|
                    0 <= ee < pre.edges@.len() implies #[trigger] self.edges@[ee] == (
                    if Graph::edge_among_upto(outs, j as int + 1, ee) {
                        Edge { finished: true, ..pre.edges@[ee] }
                    } else {
                        pre.edges@[ee]
                    }) by {
                    if ee == e as int {
                        assert(outs[j as int] as int == ee);
                        assert(Graph::edge_among_upto(outs, j as int + 1, ee));
                    } else {
                        if Graph::edge_among_upto(outs, j as int + 1, ee) {
                            let k = choose|k: int|
                                0 <= k < j as int + 1 && (#[trigger] outs[k]) as int == ee;
                            assert(k != j as int);
                            assert(Graph::edge_among_upto(outs, j as int, ee));
                        }
                        if Graph::edge_among_upto(outs, j as int, ee) {
                            let k = choose|k: int|
                                0 <= k < j as int && (#[trigger] outs[k]) as int == ee;
                            assert(Graph::edge_among_upto(outs, j as int + 1, ee));
                        }
                    }
                }
            }
            j = j + 1;
        }
        self.status.set(p, Status::Finished);
        proof {
            let outs = pre.procs@[p as int].outputs@;
            assert forall|k: int|
                0 <= k < outs.len() implies self.edges@[#[trigger] outs[k] as int] == (Edge {
                finished: true,
                ..pre.edges@[outs[k] as int]
            }) by {
                assert(Graph::edge_among_upto(outs, m as int, outs[k] as int));
                assert(pre.edge_ok(outs[k] as int));
            }
            Graph::lemma_wf_preserved(pre, *self);
        }
    }

    /// Performs one bounded unit of computation on processor `p`: consumes at
    /// most one row, produces at most one row, or transitions to a new state.
    /// Never blocks: anything that must wait is expressed by `AsyncIssued`.
    #[verifier::rlimit(80)]
    pub fn run_step(&mut self, p: usize) -> (r: StepResult)
        requires
            old(self).wf(),
            p < old(self).procs@.len(),
            old(self).poll_spec(p as int) is Runnable,
        ensures
            final(self).wf(),
            match r {
                StepResult::Progressed { drained, filled } => Graph::progresses(
                    *old(self),
                    *final(self),
                    p as int,
                    drained,
                    filled,
                ),
                StepResult::NowFinished => Graph::finishes(*old(self), *final(self), p as int),
                StepResult::AsyncIssued => Graph::issues_async(*old(self), *final(self), p as int),
                StepResult::Failed => Graph::fails_step(*old(self), *final(self), p as int),
            },
            match r {
                StepResult::Progressed { drained, filled } => (drained matches Some(e) ==> (
                e as int) < final(self).edges@.len()) && (filled matches Some(e) ==> (e as int)
                    < final(self).edges@.len()),
                _ => true,
            },
            (r is NowFinished) <==> old(self).end_of_stream(p as int),
    {
        proof {
            assert(old(self).proc_ok(p as int));
        }
        let ghost pre = *self;
        match &self.procs[p].kind {
            OpKind::Source { rows } => {
                let cur = self.cursor[p];
                if cur < rows.len() {
                    let item = rows[cur];
                    let out_e = self.procs[p].outputs[0];
                    let ed = self.edges[out_e];
                    self.edges.set(out_e, Edge { slot: Some(item), ..ed });
                    self.cursor.set(p, cur + 1);
                    proof {
                        assert(self.kind_ok(p as int));
                        Graph::lemma_wf_preserved(pre, *self);
                    }
                    StepResult::Progressed { drained: None, filled: Some(out_e) }
                } else {
                    proof {
                        assert(pre.end_of_stream(p as int));
                    }
                    self.finish_proc(p);
                    StepResult::NowFinished
                }
            },
            OpKind::Filter { pred, fail_on } => {
                let pred = *pred;
                let fail_on = *fail_on;
                let in_e = self.procs[p].inputs[0];
                let out_e = self.procs[p].outputs[0];
                let ied = self.edges[in_e];
                match ied.slot {
                    Some(item) => {
                        self.edges.set(in_e, Edge { slot: None, ..ied });
                        if fail_on == Some(item) {
                            self.status.set(p, Status::Failed);
                            if self.failed.is_none() {
                                self.failed = Some(p);
                            }
                            proof {
                                Graph::lemma_wf_preserved(pre, *self);
                            }
                            StepResult::Failed
                        } else if pred.keeps(item) {
                            let oed = self.edges[out_e];
                            self.edges.set(out_e, Edge { slot: Some(item), ..oed });
                            proof {
                                Graph::lemma_wf_preserved(pre, *self);
                            }
                            StepResult::Progressed { drained: Some(in_e), filled: Some(out_e) }
                        } else {
                            proof {
                                Graph::lemma_wf_preserved(pre, *self);
                            }
                            StepResult::Progressed { drained: Some(in_e), filled: None }
                        }
                    },
                    None => {
                        proof {
                            assert(pre.end_of_stream(p as int));
                        }
                        self.finish_proc(p);
                        StepResult::NowFinished
                    },
                }
            },
            OpKind::Split => {
                let in_e = self.procs[p].inputs[0];
                let n_out = self.procs[p].outputs.len();
                let cur = self.cursor[p];
                let out_e = self.procs[p].outputs[cur];
                let ied = self.edges[in_e];
                match ied.slot {
                    Some(item) => {
                        self.edges.set(in_e, Edge { slot: None, ..ied });
                        let oed = self.edges[out_e];
                        self.edges.set(out_e, Edge { slot: Some(item), ..oed });
                        self.cursor.set(p, (cur + 1) % n_out);
                        proof {
                            assert(self.kind_ok(p as int));
                            Graph::lemma_wf_preserved(pre, *self);
                        }
                        StepResult::Progressed { drained: Some(in_e), filled: Some(out_e) }
                    },
                    None => {
                        proof {
                            assert(pre.end_of_stream(p as int));
                        }
                        self.finish_proc(p);
                        StepResult::NowFinished
                    },
                }
            },
            OpKind::Merge => {
                let found = self.first_ready_input(p);
                match found {
                    Some(i) => {
                        let in_e = self.procs[p].inputs[i];
                        let out_e = self.procs[p].outputs[0];
                        let ied = self.edges[in_e];
                        let item = ied.slot.unwrap();
                        self.edges.set(in_e, Edge { slot: None, ..ied });
                        let oed = self.edges[out_e];
                        self.edges.set(out_e, Edge { slot: Some(item), ..oed });
                        proof {
                            Graph::lemma_wf_preserved(pre, *self);
                            assert(pre.input_has_at(p as int, i as int));
                            assert(!pre.input_exhausted_at(p as int, i as int));
                        }
                        StepResult::Progressed { drained: Some(in_e), filled: Some(out_e) }
                    },
                    None => {
                        proof {
                            assert(!pre.some_input_has(p as int));
                            assert(pre.all_inputs_exhausted(p as int));
                            assert(pre.end_of_stream(p as int));
                        }
                        self.finish_proc(p);
                        StepResult::NowFinished
                    },
                }
            },
            OpKind::AsyncMap => {
                match self.aslot[p] {
                    AsyncSlot::Ready(item) => {
                        let out_e = self.procs[p].outputs[0];
                        let oed = self.edges[out_e];
                        self.edges.set(out_e, Edge { slot: Some(item), ..oed });
                        self.aslot.set(p, AsyncSlot::Idle);
                        proof {
                            assert(self.kind_ok(p as int));
                            Graph::lemma_wf_preserved(pre, *self);
                        }
                        StepResult::Progressed { drained: None, filled: Some(out_e) }
                    },
                    AsyncSlot::Held(_) => {
                        proof {
                            assert(false);
                        }
                        StepResult::AsyncIssued
                    },
                    AsyncSlot::Idle => {
                        let in_e = self.procs[p].inputs[0];
                        let ied = self.edges[in_e];
                        match ied.slot {
                            Some(item) => {
                                self.edges.set(in_e, Edge { slot: None, ..ied });
                                self.aslot.set(p, AsyncSlot::Held(item));
                                proof {
                                    assert(self.kind_ok(p as int));
                                    Graph::lemma_wf_preserved(pre, *self);
                                }
                                StepResult::AsyncIssued
                            },
                            None => {
                                proof {
                                    assert(pre.end_of_stream(p as int));
                                }
                                self.finish_proc(p);
                                StepResult::NowFinished
                            },
                        }
                    },
                }
            },
            OpKind::Sink => {
                let in_e = self.procs[p].inputs[0];
                let ied = self.edges[in_e];
                match ied.slot {
                    Some(item) => {
                        self.edges.set(in_e, Edge { slot: None, ..ied });
                        self.collected.push((p, item));
                        proof {
                            Graph::lemma_wf_preserved(pre, *self);
                        }
                        StepResult::Progressed { drained: Some(in_e), filled: None }
                    },
                    None => {
                        proof {
                            assert(pre.end_of_stream(p as int));
                        }
                        self.finish_proc(p);
                        StepResult::NowFinished
                    },
                }
            },
        }
    }

    /// The asynchronous bridge reports completion of the operation issued by
    /// processor `p`: the held row becomes ready to be pushed downstream.
    /// This is the sole path by which asynchronous work re-enters the
    /// scheduling domain.
    pub fn complete_async(&mut self, p: usize)
        requires
            old(self).wf(),
            p < old(self).procs@.len(),
            old(self).aslot@[p as int] is Held,
        ensures
            final(self).wf(),
            final(self).aslot@ == old(self).aslot@.update(
                p as int,
                AsyncSlot::Ready(old(self).aslot@[p as int]->Held_0),
            ),
            final(self).edges@ == old(self).edges@,
            final(self).status@ == old(self).status@,
            final(self).cursor@ == old(self).cursor@,
            final(self).collected@ == old(self).collected@,
            final(self).failed == old(self).failed,
            Graph::step_frame(*old(self), *final(self)),
    {
        let ghost pre = *self;
        proof {
            assert(old(self).proc_ok(p as int));
        }
        match self.aslot[p] {
            AsyncSlot::Held(item) => {
                self.aslot.set(p, AsyncSlot::Ready(item));
            },
            _ => {
                proof {
                    assert(false);
                }
            },
        }
        proof {
            assert(self.kind_ok(p as int));
            Graph::lemma_wf_preserved(pre, *self);
        }
    }

    /// The status vector after cooperative cancellation: every active
    /// processor is failed; terminal processors are untouched.
    pub open spec fn all_failed(pre: Seq<Status>) -> Seq<Status> {
        Seq::new(pre.len(), |i: int| if pre[i] is Active {
            Status::Failed
        } else {
            pre[i]
        })
    }

    /// Marks every non-terminal processor `Failed` without driving it
    /// further; everything else is untouched.
    fn mark_all_failed(&mut self)
        requires
            old(self).wf(),
        ensures
            final(self).wf(),
            final(self).status@ == Graph::all_failed(old(self).status@),
            final(self).edges@ == old(self).edges@,
            final(self).cursor@ == old(self).cursor@,
            final(self).aslot@ == old(self).aslot@,
            final(self).collected@ == old(self).collected@,
            final(self).failed == old(self).failed,
            Graph::step_frame(*old(self), *final(self)),
            final(self).cancelled == old(self).cancelled,
    {
        let ghost pre = *self;
        let n = self.status.len();
        let mut i: usize = 0;
        while i < n
            invariant
                pre.wf(),
                n == pre.status@.len(),
                i <= n,
                self.procs@ == pre.procs@,
                self.edges@ == pre.edges@,
                self.running@ == pre.running@,
                self.cursor@ == pre.cursor@,
                self.aslot@ == pre.aslot@,
                self.collected@ == pre.collected@,
                self.cancelled == pre.cancelled,
                self.failed == pre.failed,
                self.status@.len() == n,
                forall|k: int| 0 <= k < i ==> self.status@[k] == Graph::all_failed(pre.status@)[k],
                forall|k: int| i <= k < n ==> self.status@[k] == pre.status@[k],
            decreases n - i,
        {
            match self.status[i] {
                Status::Active => {
                    self.status.set(i, Status::Failed);
                },
                _ => {},
            }
            i = i + 1;
        }
        proof {
            assert(self.status@ =~= Graph::all_failed(pre.status@));
            Graph::lemma_wf_preserved(pre, *self);
        }
    }

    /// Cooperative cancellation: sets the cancellation flag and fails every
    /// non-terminal processor, without driving any of them further.
    /// Idempotent: cancelling twice, or after completion, changes nothing
    /// beyond what the first cancellation already established.
    pub fn cancel(&mut self)
        requires
            old(self).wf(),
        ensures
            final(self).wf(),
            final(self).cancelled,
            final(self).status@ == Graph::all_failed(old(self).status@),
            final(self).edges@ == old(self).edges@,
            final(self).cursor@ == old(self).cursor@,
            final(self).aslot@ == old(self).aslot@,
            final(self).collected@ == old(self).collected@,
            final(self).failed == old(self).failed,
            final(self).procs@ == old(self).procs@,
            final(self).running@ == old(self).running@,
    {
        self.mark_all_failed();
        let ghost mid = *self;
        self.cancelled = true;
        proof {
            Graph::lemma_wf_preserved(mid, *self);
        }
    }

    /// Graph-wide reaction to the first operator failure: every other
    /// non-terminal processor is failed as well; remaining queued tasks will
    /// be drained without being driven.
    pub fn fail_all(&mut self)
        requires
            old(self).wf(),
        ensures
            final(self).wf(),
            final(self).status@ == Graph::all_failed(old(self).status@),
            final(self).edges@ == old(self).edges@,
            final(self).cursor@ == old(self).cursor@,
            final(self).aslot@ == old(self).aslot@,
            final(self).collected@ == old(self).collected@,
            final(self).failed == old(self).failed,
            final(self).cancelled == old(self).cancelled,
            final(self).procs@ == old(self).procs@,
            final(self).running@ == old(self).running@,
    {
        self.mark_all_failed();
    }
}

} // verus!
