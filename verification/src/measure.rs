//! Terminal convergence: a nonnegative measure on graphs that every
//! productive drive step strictly reduces, lexicographically. Since the
//! measure cannot decrease forever, a finite graph admits only finitely many
//! productive steps: there is no livelock in which tasks are enqueued and
//! dequeued without progress, and execution reaches `Finished` or `Failed`
//! in a bounded number of worker-steps.

use vstd::prelude::*;

use crate::graph::Graph;
use crate::processor::{AsyncSlot, Edge, OpKind, Processor};
use crate::step::StepResult;

verus! {

/// Sum of a sequence of integers.
pub open spec fn isum(s: Seq<int>) -> int
    decreases s.len(),
{
    if s.len() == 0 {
        0
    } else {
        s[0] + isum(s.drop_first())
    }
}

proof fn lemma_isum_change_one(pre: Seq<int>, post: Seq<int>, i: int)
    requires
        0 <= i < pre.len(),
        post.len() == pre.len(),
        forall|j: int| 0 <= j < pre.len() && j != i ==> post[j] == pre[j],
    ensures
        isum(post) == isum(pre) + post[i] - pre[i],
    decreases pre.len(),
{
    if i == 0 {
        assert(post.drop_first() =~= pre.drop_first());
    } else {
        assert(post[0] == pre[0]);
        lemma_isum_change_one(pre.drop_first(), post.drop_first(), i - 1);
    }
}

proof fn lemma_isum_two_change(pre: Seq<int>, post: Seq<int>, i: int, j: int)
    requires
        0 <= i < pre.len(),
        0 <= j < pre.len(),
        i != j,
        post.len() == pre.len(),
        forall|k: int| 0 <= k < pre.len() && k != i && k != j ==> post[k] == pre[k],
    ensures
        isum(post) == isum(pre) + (post[i] - pre[i]) + (post[j] - pre[j]),
{
    let mid = pre.update(i, post[i]);
    lemma_isum_change_one(pre, mid, i);
    lemma_isum_change_one(mid, post, j);
}

proof fn lemma_isum_nonneg(s: Seq<int>)
    requires
        forall|k: int| 0 <= k < s.len() ==> s[k] >= 0,
    ensures
        isum(s) >= 0,
    decreases s.len(),
{
    if s.len() > 0 {
        lemma_isum_nonneg(s.drop_first());
    }
}

/// Weight of one edge: a buffered row weighs more the farther its consumer
/// stands from the sinks (processor numbering is topological, so `n - to`
/// grows upstream); an empty edge weighs nothing.
pub open spec fn edge_w(ed: Edge, n: int) -> int {
    if ed.slot is Some {
        2 * (n - ed.to) + 2
    } else {
        0
    }
}

/// Weight of one processor: rows a source has yet to emit, and a row held or
/// readied by an asynchronous stage.
pub open spec fn proc_w(g: Graph, p: int) -> int {
    let n = g.procs@.len() as int;
    (match g.aslot@[p] {
        AsyncSlot::Held(_) => 2 * (n - p) + 1,
        AsyncSlot::Ready(_) => 2 * (n - p) + 1,
        AsyncSlot::Idle => 0,
    }) + (match g.procs@[p].kind {
        OpKind::Source { rows } => (rows@.len() - g.cursor@[p]) * (2 * (n - p) + 2),
        _ => 0,
    })
}

/// Per-edge weights of a graph.
pub open spec fn edge_weights(g: Graph) -> Seq<int> {
    Seq::new(g.edges@.len(), |e: int| edge_w(g.edges@[e], g.procs@.len() as int))
}

/// Per-processor weights of a graph.
pub open spec fn proc_weights(g: Graph) -> Seq<int> {
    Seq::new(g.procs@.len(), |p: int| proc_w(g, p))
}

/// The progress potential: total weight of all rows still in flight.
pub open spec fn potential(g: Graph) -> int {
    isum(edge_weights(g)) + isum(proc_weights(g))
}

/// Number of asynchronous operations in flight.
pub open spec fn asyncs(g: Graph) -> int {
    isum(Seq::new(g.aslot@.len(), |p: int| if g.aslot@[p] is Held {
        1int
    } else {
        0int
    }))
}

/// Number of active processors plus unfinished edges: the work of shutting
/// the graph down that remains even when no rows are in flight.
pub open spec fn live(g: Graph) -> int {
    isum(Seq::new(g.status@.len(), |p: int| if g.status@[p] is Active {
        1int
    } else {
        0int
    })) + isum(Seq::new(g.edges@.len(), |e: int| if !g.edges@[e].finished {
        1int
    } else {
        0int
    }))
}

/// The potential of a well-formed graph is never negative: the measure is
/// bounded below, so it can only decrease finitely often.
pub proof fn lemma_potential_nonneg(g: Graph)
    requires
        g.wf(),
    ensures
        potential(g) >= 0,
        asyncs(g) >= 0,
        live(g) >= 0,
{
    let n = g.procs@.len() as int;
    assert forall|e: int| 0 <= e < edge_weights(g).len() implies edge_weights(g)[e] >= 0 by {
        assert(g.edge_ok(e));
    }
    lemma_isum_nonneg(edge_weights(g));
    assert forall|p: int| 0 <= p < proc_weights(g).len() implies proc_weights(g)[p] >= 0 by {
        assert(g.proc_ok(p));
        match g.procs@[p].kind {
            OpKind::Source { rows } => {
                assert((rows@.len() - g.cursor@[p]) * (2 * (n - p) + 2) >= 0) by (nonlinear_arith)
                    requires
                        rows@.len() - g.cursor@[p] >= 0,
                        2 * (n - p) + 2 >= 0,
                ;
            },
            _ => {},
        }
    }
    lemma_isum_nonneg(proc_weights(g));
    lemma_isum_nonneg(Seq::new(g.aslot@.len(), |p: int| if g.aslot@[p] is Held {
        1int
    } else {
        0int
    }));
    lemma_isum_nonneg(Seq::new(g.status@.len(), |p: int| if g.status@[p] is Active {
        1int
    } else {
        0int
    }));
    lemma_isum_nonneg(Seq::new(g.edges@.len(), |e: int| if !g.edges@[e].finished {
        1int
    } else {
        0int
    }));
}

/// A `Progressed` drive strictly lowers the potential and leaves the number
/// of in-flight asynchronous operations unchanged.
pub proof fn lemma_progress_decreases(pre: Graph, post: Graph, p: int, drained: Option<usize>, filled: Option<usize>)
    requires
        pre.wf(),
        0 <= p < pre.procs@.len(),
        Graph::progresses(pre, post, p, drained, filled),
    ensures
        potential(post) < potential(pre),
        asyncs(post) == asyncs(pre),
        live(post) == live(pre),
{
    let n = pre.procs@.len() as int;
    let pr = pre.procs@[p];
    assert(pre.proc_ok(p));
    assert(live(post) == live(pre)) by {
        assert(Seq::new(post.status@.len(), |q: int| if post.status@[q] is Active {
            1int
        } else {
            0int
        }) =~= Seq::new(pre.status@.len(), |q: int| if pre.status@[q] is Active {
            1int
        } else {
            0int
        }));
        assert forall|e: int|
            0 <= e < pre.edges@.len() implies post.edges@[e].finished
                == pre.edges@[e].finished by {}
        assert(Seq::new(post.edges@.len(), |e: int| if !post.edges@[e].finished {
            1int
        } else {
            0int
        }) =~= Seq::new(pre.edges@.len(), |e: int| if !pre.edges@[e].finished {
            1int
        } else {
            0int
        }));
    }
    assert(asyncs(post) == asyncs(pre)) by {
        assert(Seq::new(post.aslot@.len(), |q: int| if post.aslot@[q] is Held {
            1int
        } else {
            0int
        }) =~= Seq::new(pre.aslot@.len(), |q: int| if pre.aslot@[q] is Held {
            1int
        } else {
            0int
        }));
    }
    match pr.kind {
        OpKind::Source { rows } => {
            let out_e = pr.outputs@[0] as int;
            assert(pre.edge_ok(out_e));
            let c = pre.cursor@[p] as int;
            assert(edge_weights(post)[out_e] == 2 * (n - pre.edges@[out_e].to) + 2);
            lemma_isum_change_one(edge_weights(pre), edge_weights(post), out_e);
            assert(proc_weights(post) =~= proc_weights(pre).update(p, proc_w(post, p)));
            lemma_isum_change_one(proc_weights(pre), proc_weights(post), p);
            let w = 2 * (n - p) + 2;
            assert((rows@.len() - c) * w - (rows@.len() - (c + 1)) * w == w) by (nonlinear_arith);
            assert(rows.len() == rows@.len());
            assert(rows@.len() <= usize::MAX);
            assert(post.cursor@[p] == c + 1);
            assert(proc_w(post, p) == proc_w(pre, p) - w);
            assert(edge_weights(post)[out_e] <= 2 * (n - p));
        },
        OpKind::Filter { pred, .. } => {
            let in_e = pr.inputs@[0] as int;
            let out_e = pr.outputs@[0] as int;
            assert(pre.edge_ok(in_e));
            assert(pre.edge_ok(out_e));
            assert(proc_weights(post) =~= proc_weights(pre));
            let item = pre.edges@[in_e].slot->0;
            if pred.keeps_spec(item) {
                lemma_isum_two_change(edge_weights(pre), edge_weights(post), in_e, out_e);
                assert(edge_weights(pre)[in_e] == 2 * (n - p) + 2);
                assert(edge_weights(post)[out_e] <= 2 * (n - p));
            } else {
                lemma_isum_change_one(edge_weights(pre), edge_weights(post), in_e);
                assert(edge_weights(pre)[in_e] == 2 * (n - p) + 2);
            }
        },
        OpKind::Split => {
            let in_e = pr.inputs@[0] as int;
            let out_e = pr.outputs@[pre.cursor@[p] as int] as int;
            assert(pre.edge_ok(in_e));
            assert(pre.edge_ok(out_e));
            assert(proc_weights(post) =~= proc_weights(pre));
            lemma_isum_two_change(edge_weights(pre), edge_weights(post), in_e, out_e);
            assert(edge_weights(pre)[in_e] == 2 * (n - p) + 2);
            assert(edge_weights(post)[out_e] <= 2 * (n - p));
        },
        OpKind::Merge => {
            let i = choose|i: int|
                {
                    let in_e = pr.inputs@[i] as int;
                    let item = pre.edges@[in_e].slot->0;
                    &&& #[trigger] pre.input_has_at(p, i)
                    &&& 0 <= i < pr.inputs@.len()
                    &&& forall|k: int| 0 <= k < i ==> !pre.input_has_at(p, k)
                    &&& drained == Some(pr.inputs@[i])
                    &&& filled == Some(pr.outputs@[0])
                    &&& Graph::moves_row(pre, post, in_e, pr.outputs@[0] as int, item)
                };
            let in_e = pr.inputs@[i] as int;
            let out_e = pr.outputs@[0] as int;
            assert(pre.edge_ok(in_e));
            assert(pre.edge_ok(out_e));
            assert(proc_weights(post) =~= proc_weights(pre));
            lemma_isum_two_change(edge_weights(pre), edge_weights(post), in_e, out_e);
            assert(edge_weights(pre)[in_e] == 2 * (n - p) + 2);
            assert(edge_weights(post)[out_e] <= 2 * (n - p));
        },
        OpKind::AsyncMap => {
            let out_e = pr.outputs@[0] as int;
            assert(pre.edge_ok(out_e));
            lemma_isum_change_one(edge_weights(pre), edge_weights(post), out_e);
            assert(proc_weights(post) =~= proc_weights(pre).update(p, proc_w(post, p)));
            lemma_isum_change_one(proc_weights(pre), proc_weights(post), p);
            assert(proc_w(post, p) == proc_w(pre, p) - (2 * (n - p) + 1));
            assert(edge_weights(post)[out_e] <= 2 * (n - p));
        },
        OpKind::Sink => {
            let in_e = pr.inputs@[0] as int;
            assert(pre.edge_ok(in_e));
            assert(proc_weights(post) =~= proc_weights(pre));
            lemma_isum_change_one(edge_weights(pre), edge_weights(post), in_e);
            assert(edge_weights(pre)[in_e] == 2 * (n - p) + 2);
        },
    }
}

/// Issuing an asynchronous operation strictly lowers the potential: the row
/// leaves its edge for the stage's held slot, one half-step downstream.
pub proof fn lemma_issue_decreases(pre: Graph, post: Graph, p: int)
    requires
        pre.wf(),
        0 <= p < pre.procs@.len(),
        Graph::issues_async(pre, post, p),
    ensures
        potential(post) < potential(pre),
        asyncs(post) == asyncs(pre) + 1,
        live(post) == live(pre),
{
    let n = pre.procs@.len() as int;
    let pr = pre.procs@[p];
    assert(pre.proc_ok(p));
    assert(live(post) == live(pre)) by {
        assert(Seq::new(post.status@.len(), |q: int| if post.status@[q] is Active {
            1int
        } else {
            0int
        }) =~= Seq::new(pre.status@.len(), |q: int| if pre.status@[q] is Active {
            1int
        } else {
            0int
        }));
        assert(Seq::new(post.edges@.len(), |e: int| if !post.edges@[e].finished {
            1int
        } else {
            0int
        }) =~= Seq::new(pre.edges@.len(), |e: int| if !pre.edges@[e].finished {
            1int
        } else {
            0int
        }));
    }
    assert(asyncs(post) == asyncs(pre) + 1) by {
        let held_pre = Seq::new(pre.aslot@.len(), |q: int| if pre.aslot@[q] is Held {
            1int
        } else {
            0int
        });
        let held_post = Seq::new(post.aslot@.len(), |q: int| if post.aslot@[q] is Held {
            1int
        } else {
            0int
        });
        lemma_isum_change_one(held_pre, held_post, p);
    }
    let in_e = pr.inputs@[0] as int;
    assert(pre.edge_ok(in_e));
    lemma_isum_change_one(edge_weights(pre), edge_weights(post), in_e);
    assert(proc_weights(post) =~= proc_weights(pre).update(p, proc_w(post, p)));
    lemma_isum_change_one(proc_weights(pre), proc_weights(post), p);
    assert(edge_weights(pre)[in_e] == 2 * (n - p) + 2);
    assert(proc_w(post, p) == proc_w(pre, p) + (2 * (n - p) + 1));
}

/// A finishing drive keeps potential and asynchronous count and strictly
/// lowers the count of active processors.
pub proof fn lemma_finish_decreases(pre: Graph, post: Graph, p: int)
    requires
        pre.wf(),
        0 <= p < pre.procs@.len(),
        pre.status@[p] is Active,
        Graph::finishes(pre, post, p),
    ensures
        potential(post) == potential(pre),
        asyncs(post) == asyncs(pre),
        live(post) < live(pre),
{
    assert(edge_weights(post) =~= edge_weights(pre));
    assert(proc_weights(post) =~= proc_weights(pre));
    assert(asyncs(post) == asyncs(pre)) by {
        assert(Seq::new(post.aslot@.len(), |q: int| if post.aslot@[q] is Held {
            1int
        } else {
            0int
        }) =~= Seq::new(pre.aslot@.len(), |q: int| if pre.aslot@[q] is Held {
            1int
        } else {
            0int
        }));
    }
    let act_pre = Seq::new(pre.status@.len(), |q: int| if pre.status@[q] is Active {
        1int
    } else {
        0int
    });
    let act_post = Seq::new(post.status@.len(), |q: int| if post.status@[q] is Active {
        1int
    } else {
        0int
    });
    lemma_isum_change_one(act_pre, act_post, p);
    let fin_pre = Seq::new(pre.edges@.len(), |e: int| if !pre.edges@[e].finished {
        1int
    } else {
        0int
    });
    let fin_post = Seq::new(post.edges@.len(), |e: int| if !post.edges@[e].finished {
        1int
    } else {
        0int
    });
    assert forall|e: int| 0 <= e < fin_post.len() implies fin_post[e] <= fin_pre[e] by {
        if post.edges@[e] != pre.edges@[e] {
            assert(Graph::edge_among(pre.procs@[p].outputs@, e) || post.edges@[e]
                == pre.edges@[e]);
        }
    }
    lemma_isum_pointwise_le(fin_post, fin_pre);
}

proof fn lemma_isum_pointwise_le(a: Seq<int>, b: Seq<int>)
    requires
        a.len() == b.len(),
        forall|k: int| 0 <= k < a.len() ==> a[k] <= b[k],
    ensures
        isum(a) <= isum(b),
    decreases a.len(),
{
    if a.len() > 0 {
        lemma_isum_pointwise_le(a.drop_first(), b.drop_first());
    }
}

/// Bridging an asynchronous completion back into the scheduling domain keeps
/// the potential and strictly lowers the count of operations in flight.
pub proof fn lemma_complete_decreases(pre: Graph, post: Graph, p: int)
    requires
        pre.wf(),
        0 <= p < pre.procs@.len(),
        pre.aslot@[p] is Held,
        post.aslot@ == pre.aslot@.update(p, AsyncSlot::Ready(pre.aslot@[p]->Held_0)),
        post.edges@ == pre.edges@,
        post.procs@ == pre.procs@,
        post.cursor@ == pre.cursor@,
        post.status@ == pre.status@,
    ensures
        potential(post) == potential(pre),
        asyncs(post) == asyncs(pre) - 1,
        live(post) == live(pre),
{
    assert(edge_weights(post) =~= edge_weights(pre));
    assert(proc_weights(post) =~= proc_weights(pre));
    assert(live(post) == live(pre)) by {
        assert(Seq::new(post.status@.len(), |q: int| if post.status@[q] is Active {
            1int
        } else {
            0int
        }) =~= Seq::new(pre.status@.len(), |q: int| if pre.status@[q] is Active {
            1int
        } else {
            0int
        }));
        assert(Seq::new(post.edges@.len(), |e: int| if !post.edges@[e].finished {
            1int
        } else {
            0int
        }) =~= Seq::new(pre.edges@.len(), |e: int| if !pre.edges@[e].finished {
            1int
        } else {
            0int
        }));
    }
    let held_pre = Seq::new(pre.aslot@.len(), |q: int| if pre.aslot@[q] is Held {
        1int
    } else {
        0int
    });
    let held_post = Seq::new(post.aslot@.len(), |q: int| if post.aslot@[q] is Held {
        1int
    } else {
        0int
    });
    lemma_isum_change_one(held_pre, held_post, p);
}

/// The three measure components read only the graph's data, never the
/// mutual-exclusion flags: a change confined to those flags leaves them all
/// unchanged.
pub proof fn lemma_measure_frame(g1: Graph, g2: Graph)
    requires
        g2.procs@ == g1.procs@,
        g2.edges@ == g1.edges@,
        g2.status@ == g1.status@,
        g2.cursor@ == g1.cursor@,
        g2.aslot@ == g1.aslot@,
    ensures
        potential(g2) == potential(g1),
        asyncs(g2) == asyncs(g1),
        live(g2) == live(g1),
{
    assert(edge_weights(g2) =~= edge_weights(g1));
    assert(proc_weights(g2) =~= proc_weights(g1));
    assert(Seq::new(g2.aslot@.len(), |p: int| if g2.aslot@[p] is Held {
        1int
    } else {
        0int
    }) =~= Seq::new(g1.aslot@.len(), |p: int| if g1.aslot@[p] is Held {
        1int
    } else {
        0int
    }));
    assert(Seq::new(g2.status@.len(), |p: int| if g2.status@[p] is Active {
        1int
    } else {
        0int
    }) =~= Seq::new(g1.status@.len(), |p: int| if g1.status@[p] is Active {
        1int
    } else {
        0int
    }));
    assert(Seq::new(g2.edges@.len(), |e: int| if !g2.edges@[e].finished {
        1int
    } else {
        0int
    }) =~= Seq::new(g1.edges@.len(), |e: int| if !g1.edges@[e].finished {
        1int
    } else {
        0int
    }));
}

/// Largest output-port count among the first `n` processors.
pub open spec fn max_outputs_upto(procs: Seq<Processor>, n: int) -> int
    decreases n,
{
    if n <= 0 {
        0
    } else {
        let rest = max_outputs_upto(procs, n - 1);
        let cur = procs[n - 1].outputs@.len() as int;
        if cur > rest {
            cur
        } else {
            rest
        }
    }
}

/// Largest output-port count of any processor: a bound on how many tasks one
/// finishing drive can enqueue.
pub open spec fn max_outputs(g: Graph) -> int {
    max_outputs_upto(g.procs@, g.procs@.len() as int)
}

/// Every processor's output-port count is at most the maximum, and the
/// maximum is nonnegative.
pub proof fn lemma_max_outputs_bound(procs: Seq<Processor>, n: int, i: int)
    requires
        0 <= n,
        i < n,
    ensures
        max_outputs_upto(procs, n) >= 0,
        0 <= i ==> procs[i].outputs@.len() <= max_outputs_upto(procs, n),
    decreases n,
{
    if n > 0 && i < n - 1 {
        lemma_max_outputs_bound(procs, n - 1, i);
    }
}

/// Terminal convergence: any drive of a runnable processor other than a
/// failing one strictly decreases the triple `(potential, asyncs, live)` in
/// lexicographic order. All three components are nonnegative on well-formed
/// graphs, so a finite graph admits only a bounded number of worker-steps
/// before every processor is terminal: tasks are never enqueued and dequeued
/// forever without progress.
pub proof fn lemma_no_livelock(pre: Graph, post: Graph, p: int, r: StepResult)
    requires
        pre.wf(),
        0 <= p < pre.procs@.len(),
        pre.status@[p] is Active,
        match r {
            StepResult::Progressed { drained, filled } => Graph::progresses(
                pre,
                post,
                p,
                drained,
                filled,
            ),
            StepResult::NowFinished => Graph::finishes(pre, post, p),
            StepResult::AsyncIssued => Graph::issues_async(pre, post, p),
            StepResult::Failed => Graph::fails_step(pre, post, p),
        },
    ensures
        potential(post) < potential(pre) || (potential(post) == potential(pre) && (asyncs(post)
            < asyncs(pre) || (asyncs(post) == asyncs(pre) && live(post) < live(pre)))),
{
    match r {
        StepResult::Progressed { drained, filled } => {
            lemma_progress_decreases(pre, post, p, drained, filled);
        },
        StepResult::NowFinished => {
            lemma_finish_decreases(pre, post, p);
        },
        StepResult::AsyncIssued => {
            lemma_issue_decreases(pre, post, p);
        },
        StepResult::Failed => {
            let pr = pre.procs@[p];
            let in_e = pr.inputs@[0] as int;
            assert(pre.proc_ok(p));
            assert(pre.edge_ok(in_e));
            let n = pre.procs@.len() as int;
            assert(proc_weights(post) =~= proc_weights(pre));
            lemma_isum_change_one(edge_weights(pre), edge_weights(post), in_e);
            assert(edge_weights(pre)[in_e] == 2 * (n - p) + 2);
        },
    }
}

} // verus!
