//! Graph-wide guarantees of the engine, stated and proved once.

use vstd::prelude::*;

use crate::graph::Graph;
use crate::processor::{AsyncSlot, Edge, OpKind, Status};
use crate::step::StepResult;

verus! {

/// Number of rows buffered across a set of edges.
pub open spec fn buffered_rows(edges: Seq<Edge>) -> nat
    decreases edges.len(),
{
    if edges.len() == 0 {
        0
    } else {
        buffered_rows(edges.drop_last()) + (if edges.last().slot is Some {
            1nat
        } else {
            0
        })
    }
}

proof fn lemma_buffered_le(edges: Seq<Edge>)
    ensures
        buffered_rows(edges) <= edges.len(),
    decreases edges.len(),
{
    if edges.len() > 0 {
        lemma_buffered_le(edges.drop_last());
    }
}

/// Backpressure bound: in any graph, the total number of buffered rows
/// across all edges never exceeds the number of edges, since each edge holds
/// at most one row — regardless of producer or consumer speed.
pub proof fn lemma_backpressure_bound(g: Graph)
    ensures
        buffered_rows(g.edges@) <= g.edges@.len(),
{
    lemma_buffered_le(g.edges@);
}

/// Mutual exclusion: the running flag of a processor can be taken at most
/// once until released. Two consecutive acquisition attempts for the same
/// processor can never both succeed, so at no instant do two workers hold
/// the flag of one processor simultaneously.
pub proof fn lemma_mutual_exclusion(g0: Graph, g1: Graph, g2: Graph, p: int, ok1: bool, ok2: bool)
    requires
        0 <= p < g0.running@.len(),
        Graph::acquire_rel(g0, g1, p, ok1),
        Graph::acquire_rel(g1, g2, p, ok2),
    ensures
        !(ok1 && ok2),
{
}

/// Cancellation is idempotent: cancelling an already-cancelled graph leaves
/// every processor status exactly as the first cancellation left it (and
/// `Graph::cancel` changes nothing else of the graph's data).
pub proof fn lemma_cancel_idempotent(s: Seq<Status>)
    ensures
        Graph::all_failed(Graph::all_failed(s)) == Graph::all_failed(s),
{
    assert(Graph::all_failed(Graph::all_failed(s)) =~= Graph::all_failed(s));
}

/// Cancellation after natural completion has no effect: when every processor
/// is already terminal, cancelling changes no status at all.
pub proof fn lemma_cancel_after_completion(s: Seq<Status>)
    requires
        forall|k: int| 0 <= k < s.len() ==> !((#[trigger] s[k]) is Active),
    ensures
        Graph::all_failed(s) == s,
{
    assert(Graph::all_failed(s) =~= s);
}

/// Whether some source of the graph can emit row `v`.
pub open spec fn source_row(g: Graph, v: u64) -> bool {
    exists|p: int|
        0 <= p < g.procs@.len() && ((#[trigger] g.procs@[p].kind) matches OpKind::Source { rows }
            && rows@.contains(v))
}

/// No row was invented: every row buffered on an edge, held or readied by an
/// asynchronous stage, or collected by a sink is one that some source can
/// emit.
pub open spec fn rows_conserved(g: Graph) -> bool {
    &&& forall|e: int|
        0 <= e < g.edges@.len() && (#[trigger] g.edges@[e]).slot is Some ==> source_row(
            g,
            g.edges@[e].slot->0,
        )
    &&& forall|p: int|
        0 <= p < g.aslot@.len() ==> match #[trigger] g.aslot@[p] {
            AsyncSlot::Held(v) => source_row(g, v),
            AsyncSlot::Ready(v) => source_row(g, v),
            AsyncSlot::Idle => true,
        }
    &&& forall|k: int|
        0 <= k < g.collected@.len() ==> source_row(g, (#[trigger] g.collected@[k]).1)
}

/// Which rows a source can emit depends only on the processors, which no
/// step ever changes.
pub proof fn lemma_source_row_frame(g1: Graph, g2: Graph)
    requires
        g2.procs@ == g1.procs@,
    ensures
        forall|v: u64| #[trigger] source_row(g1, v) == source_row(g2, v),
{
    assert forall|v: u64| #[trigger] source_row(g1, v) == source_row(g2, v) by {
        if source_row(g1, v) {
            let p = choose|p: int|
                0 <= p < g1.procs@.len() && ((#[trigger] g1.procs@[p].kind)
                    matches OpKind::Source { rows } && rows@.contains(v));
            assert(g2.procs@[p].kind == g1.procs@[p].kind);
            assert(source_row(g2, v));
        }
        if source_row(g2, v) {
            let p = choose|p: int|
                0 <= p < g2.procs@.len() && ((#[trigger] g2.procs@[p].kind)
                    matches OpKind::Source { rows } && rows@.contains(v));
            assert(g1.procs@[p].kind == g2.procs@[p].kind);
            assert(source_row(g1, v));
        }
    }
}

/// Conservation is insensitive to the mutual-exclusion flags, statuses and
/// the failure record: anything that leaves the rows in place preserves it.
pub proof fn lemma_conserved_frame(g1: Graph, g2: Graph)
    requires
        g2.procs@ == g1.procs@,
        g2.edges@ == g1.edges@,
        g2.aslot@ == g1.aslot@,
        g2.collected@ == g1.collected@,
        rows_conserved(g1),
    ensures
        rows_conserved(g2),
{
    lemma_source_row_frame(g1, g2);
}

/// Every drive of a processor conserves rows: whatever it buffers, holds or
/// collects was already in flight or comes straight out of a source.
pub proof fn lemma_step_conserves_rows(pre: Graph, post: Graph, p: int, r: StepResult)
    requires
        pre.wf(),
        0 <= p < pre.procs@.len(),
        rows_conserved(pre),
        match r {
            StepResult::Progressed { drained, filled } => Graph::progresses(
                pre,
                post,
                p,
                drained,
                filled,
            ),
            StepResult::NowFinished => Graph::finishes(pre, post, p),
            StepResult::AsyncIssued => Graph::issues_async(pre, post, p),
            StepResult::Failed => Graph::fails_step(pre, post, p),
        },
    ensures
        rows_conserved(post),
{
    assert(pre.proc_ok(p));
    lemma_source_row_frame(pre, post);
    let pr = pre.procs@[p];
    match r {
        StepResult::NowFinished => {
            assert forall|e: int|
                0 <= e < post.edges@.len() implies (#[trigger] post.edges@[e]).slot
                    == pre.edges@[e].slot by {
                if Graph::edge_among(pr.outputs@, e) {
                    let k = choose|k: int|
                        0 <= k < pr.outputs@.len() && ((#[trigger] pr.outputs@[k]) as int) == e;
                    assert(post.edges@[pr.outputs@[k] as int] == (Edge {
                        finished: true,
                        ..pre.edges@[pr.outputs@[k] as int]
                    }));
                }
            }
        },
        StepResult::Progressed { drained, filled } => {
            match pr.kind {
                OpKind::Source { rows } => {
                    let c = pre.cursor@[p] as int;
                    assert(rows@.contains(rows@[c]));
                    assert(source_row(pre, rows@[c]));
                },
                OpKind::Merge => {
                    let i = choose|i: int|
                        {
                            let in_e = pr.inputs@[i] as int;
                            let item = pre.edges@[in_e].slot->0;
                            &&& #[trigger] pre.input_has_at(p, i)
                            &&& 0 <= i < pr.inputs@.len()
                            &&& forall|k: int| 0 <= k < i ==> !pre.input_has_at(p, k)
                            &&& drained == Some(pr.inputs@[i])
                            &&& filled == Some(pr.outputs@[0])
                            &&& Graph::moves_row(
                                pre,
                                post,
                                pr.inputs@[i] as int,
                                pr.outputs@[0] as int,
                                item,
                            )
                        };
                    assert(pre.edges@[pr.inputs@[i] as int].slot is Some);
                },
                _ => {},
            }
        },
        _ => {},
    }
}

/// Completing an asynchronous operation conserves rows: the readied row is
/// the very row that was held.
pub proof fn lemma_complete_conserves_rows(pre: Graph, post: Graph, p: int)
    requires
        0 <= p < pre.aslot@.len(),
        pre.aslot@[p] is Held,
        post.aslot@ == pre.aslot@.update(p, AsyncSlot::Ready(pre.aslot@[p]->Held_0)),
        post.procs@ == pre.procs@,
        post.edges@ == pre.edges@,
        post.collected@ == pre.collected@,
        rows_conserved(pre),
    ensures
        rows_conserved(post),
{
    lemma_source_row_frame(pre, post);
    assert forall|pp: int|
        0 <= pp < post.aslot@.len() implies match #[trigger] post.aslot@[pp] {
        AsyncSlot::Held(v) => source_row(post, v),
        AsyncSlot::Ready(v) => source_row(post, v),
        AsyncSlot::Idle => true,
    } by {
        if pp != p {
            assert(post.aslot@[pp] == pre.aslot@[pp]);
        }
    }
}

} // verus!
