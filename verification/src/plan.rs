//! Compiling a physical plan into an execution graph, and the top-level
//! facade that runs it to completion.

use vstd::prelude::*;

use crate::executor::{run, run_bound, Outcome};
use crate::graph::Graph;
use crate::processor::{AsyncSlot, Edge, OpKind, Processor, Status};

verus! {

/// One operator descriptor of a physical plan: its kind and the plan indices
/// of the operators it consumes from. A plan is topologically ordered: every
/// dependency index refers to an earlier node.
#[derive(Debug)]
pub struct PlanNode {
    pub op: OpKind,
    pub deps: Vec<usize>,
}

/// Rejection of a plan whose graph would violate the structural invariants:
/// a dependency that is not an earlier node, or an arity an operator kind
/// does not admit.
#[derive(Debug, Clone, Copy, PartialEq, Eq, Structural)]
pub enum PlanError {
    Malformed,
}

/// Dependency entries among the first `k` of `deps` that name node `d`.
pub open spec fn deps_count(deps: Seq<usize>, d: int, k: int) -> int
    decreases k,
{
    if k <= 0 {
        0
    } else {
        deps_count(deps, d, k - 1) + (if deps[k - 1] as int == d {
            1int
        } else {
            0int
        })
    }
}

/// Dependency entries among the first `i` plan nodes that name node `d`.
pub open spec fn consumers_upto(plan: Seq<PlanNode>, d: int, i: int) -> int
    decreases i,
{
    if i <= 0 {
        0
    } else {
        consumers_upto(plan, d, i - 1) + deps_count(
            plan[i - 1].deps@,
            d,
            plan[i - 1].deps@.len() as int,
        )
    }
}

/// Number of consumers the plan gives node `d`: how many dependency entries
/// across the whole plan name it.
pub open spec fn plan_consumers(plan: Seq<PlanNode>, d: int) -> int {
    consumers_upto(plan, d, plan.len() as int)
}

/// Structural demands on one plan node: every dependency names an earlier
/// node, and the operator kind gets exactly the ports it admits — sources
/// take no input, relays and sinks exactly one, merges at least one; every
/// non-sink is consumed exactly once, except a split, which may fan out, and
/// a sink, which feeds nobody.
pub open spec fn plan_node_ok(plan: Seq<PlanNode>, i: int) -> bool {
    let nd = plan[i];
    &&& forall|k: int| 0 <= k < nd.deps@.len() ==> ((#[trigger] nd.deps@[k]) as int) < i
    &&& match nd.op {
        OpKind::Source { .. } => nd.deps@.len() == 0 && plan_consumers(plan, i) == 1,
        OpKind::Filter { .. } => nd.deps@.len() == 1 && plan_consumers(plan, i) == 1,
        OpKind::Split => nd.deps@.len() == 1 && plan_consumers(plan, i) >= 1,
        OpKind::Merge => nd.deps@.len() >= 1 && plan_consumers(plan, i) == 1,
        OpKind::AsyncMap => nd.deps@.len() == 1 && plan_consumers(plan, i) == 1,
        OpKind::Sink => nd.deps@.len() == 1 && plan_consumers(plan, i) == 0,
    }
}

/// Whether the plan denotes a well-formed execution graph.
pub open spec fn plan_ok(plan: Seq<PlanNode>) -> bool {
    forall|i: int| 0 <= i < plan.len() ==> #[trigger] plan_node_ok(plan, i)
}

/// Edges among the first `e` whose producing side is node `d`.
pub open spec fn from_count(edges: Seq<Edge>, d: int, e: int) -> int
    decreases e,
{
    if e <= 0 {
        0
    } else {
        from_count(edges, d, e - 1) + (if edges[e - 1].from as int == d {
            1int
        } else {
            0int
        })
    }
}

proof fn lemma_from_count_prefix(e1: Seq<Edge>, e2: Seq<Edge>, d: int, e: int)
    requires
        0 <= e <= e1.len(),
        e <= e2.len(),
        forall|x: int| 0 <= x < e ==> e1[x] == e2[x],
    ensures
        from_count(e1, d, e) == from_count(e2, d, e),
    decreases e,
{
    if e > 0 {
        lemma_from_count_prefix(e1, e2, d, e - 1);
    }
}

/// How an assembled graph corresponds to the plan it was built from: one
/// processor per node in order, one fresh edge per dependency entry, and a
/// pristine runtime state.
pub open spec fn plan_matches(plan: Seq<PlanNode>, g: Graph) -> bool {
    &&& g.procs@.len() == plan.len()
    &&& forall|i: int| 0 <= i < plan.len() ==> (#[trigger] g.procs@[i]).kind == plan[i].op
    &&& forall|i: int|
        0 <= i < plan.len() ==> (#[trigger] g.procs@[i]).inputs@.len() == plan[i].deps@.len()
    &&& forall|i: int, k: int|
        0 <= i < plan.len() && 0 <= k < plan[i].deps@.len() ==> {
            let e = (#[trigger] g.procs@[i].inputs@[k]) as int;
            &&& e < g.edges@.len()
            &&& g.edges@[e].from == plan[i].deps@[k]
            &&& g.edges@[e].to == i
        }
    &&& forall|i: int, j: int|
        0 <= i < plan.len() && 0 <= j < g.procs@[i].outputs@.len() ==> {
            let e = (#[trigger] g.procs@[i].outputs@[j]) as int;
            &&& e < g.edges@.len()
            &&& g.edges@[e].from == i
        }
    &&& forall|e: int|
        0 <= e < g.edges@.len() ==> (#[trigger] g.edges@[e]).slot is None && !g.edges@[e].finished
    &&& g.status@ == Seq::new(plan.len(), |i: int| Status::Active)
    &&& forall|p: int| 0 <= p < plan.len() ==> !(#[trigger] g.running@[p])
    &&& forall|p: int| 0 <= p < plan.len() ==> (#[trigger] g.cursor@[p]) == 0
    &&& forall|p: int| 0 <= p < plan.len() ==> (#[trigger] g.aslot@[p]) is Idle
    &&& g.lens_ok()
    &&& g.collected@.len() == 0
    &&& !g.cancelled
    &&& g.failed is None
}

/// Whether edge `e` of the graph is one of the dependency edges: some input
/// port of some processor names it.
pub open spec fn edge_covered(plan: Seq<PlanNode>, g: Graph, e: int) -> bool {
    exists|i2: int, k2: int|
        0 <= i2 < plan.len() && 0 <= k2 < plan[i2].deps@.len() && ((
        #[trigger] g.procs@[i2].inputs@[k2]) as int) == e
}

/// Whether some input list among the first `upto` names edge `e` at a valid
/// dependency position.
pub open spec fn ports_cover(plan: Seq<PlanNode>, lists: Seq<Vec<usize>>, upto: int, e: int) -> bool {
    exists|i2: int, k2: int|
        0 <= i2 < upto && 0 <= k2 < plan[i2].deps@.len() && (((#[trigger] lists[i2]@[k2])) as int)
            == e
}

/// Whether the first `upto` entries of one port list name edge `e`.
pub open spec fn list_covers(l: Seq<usize>, upto: int, e: int) -> bool {
    exists|k2: int| 0 <= k2 < upto && (((#[trigger] l[k2])) as int) == e
}

/// Lays the plan out as a graph: one processor per node, one capacity-one
/// edge per data dependency, all runtime state pristine. Performs no
/// validity checks; `Graph::validate` decides whether the result is
/// well-formed.
pub fn assemble(plan: Vec<PlanNode>) -> (g: Graph)
    ensures
        plan_matches(plan@, g),
        forall|d: int|
            0 <= d < plan@.len() ==> ((#[trigger] g.procs@[d]).outputs@.len() as int)
                == plan_consumers(plan@, d),
        forall|e: int| 0 <= e < g.edges@.len() ==> #[trigger] edge_covered(plan@, g, e),
{
    let ghost plan0 = plan@;
    let n = plan.len();

    // One edge per dependency entry, and per node the list of its input
    // edge identifiers, in dependency order.
    let mut edges: Vec<Edge> = Vec::new();
    let mut input_lists: Vec<Vec<usize>> = Vec::new();
    let mut i: usize = 0;
    while i < n
        invariant
            plan@ == plan0,
            n == plan0.len(),
            i <= n,
            input_lists@.len() == i,
            forall|e: int|
                0 <= e < edges@.len() ==> (#[trigger] edges@[e]).slot is None
                    && !edges@[e].finished,
            forall|i2: int|
                0 <= i2 < i ==> (#[trigger] input_lists@[i2])@.len() == plan0[i2].deps@.len(),
            forall|i2: int, k: int|
                0 <= i2 < i && 0 <= k < plan0[i2].deps@.len() ==> {
                    let e = (#[trigger] input_lists@[i2]@[k]) as int;
                    &&& e < edges@.len()
                    &&& edges@[e] == (Edge {
                        from: plan0[i2].deps@[k],
                        to: i2 as usize,
                        slot: None,
                        finished: false,
                    })
                },
            forall|d: int|
                0 <= d < n ==> from_count(edges@, d, edges@.len() as int) == consumers_upto(
                    plan0,
                    d,
                    i as int,
                ),
            forall|e: int|
                0 <= e < edges@.len() ==> #[trigger] ports_cover(plan0, input_lists@, i as int, e),
        decreases n - i,
    {
        let mut ins: Vec<usize> = Vec::new();
        let m = plan[i].deps.len();
        let mut k: usize = 0;
        #[verifier::loop_isolation(false)]
        while k < m
            invariant
                k <= m,
                ins@.len() == k,
                forall|e: int|
                    0 <= e < edges@.len() ==> (#[trigger] edges@[e]).slot is None
                        && !edges@[e].finished,
                forall|k2: int|
                    0 <= k2 < k ==> {
                        let e = (#[trigger] ins@[k2]) as int;
                        &&& e < edges@.len()
                        &&& edges@[e] == (Edge {
                            from: plan0[i as int].deps@[k2],
                            to: i,
                            slot: None,
                            finished: false,
                        })
                    },
                forall|i2: int, k2: int|
                    0 <= i2 < i && 0 <= k2 < plan0[i2].deps@.len() ==> {
                        let e = (#[trigger] input_lists@[i2]@[k2]) as int;
                        &&& e < edges@.len()
                        &&& edges@[e] == (Edge {
                            from: plan0[i2].deps@[k2],
                            to: i2 as usize,
                            slot: None,
                            finished: false,
                        })
                    },
                forall|d: int|
                    0 <= d < n ==> from_count(edges@, d, edges@.len() as int) == consumers_upto(
                        plan0,
                        d,
                        i as int,
                    ) + deps_count(plan0[i as int].deps@, d, k as int),
                forall|e: int|
                    0 <= e < edges@.len() ==> ports_cover(plan0, input_lists@, i as int, e)
                        || #[trigger] list_covers(ins@, k as int, e),
            decreases m - k,
        {
            let d = plan[i].deps[k];
            let ghost edges0 = edges@;
            let ghost ins0 = ins@;
            ins.push(edges.len());
            edges.push(Edge::new(d, i));
            proof {
                assert forall|dd: int|
                    0 <= dd < n implies from_count(edges@, dd, edges@.len() as int)
                        == consumers_upto(plan0, dd, i as int) + deps_count(
                        plan0[i as int].deps@,
                        dd,
                        k as int + 1,
                    ) by {
                    lemma_from_count_prefix(edges@, edges0, dd, edges0.len() as int);
                }
                let ghost ins1 = ins@;
                assert forall|e: int|
                    0 <= e < edges@.len() implies ports_cover(plan0, input_lists@, i as int, e)
                        || #[trigger] list_covers(ins1, k as int + 1, e) by {
                    if e == edges0.len() as int {
                        assert((ins1[k as int] as int) == e);
                        assert(list_covers(ins1, k as int + 1, e));
                    } else {
                        if list_covers(ins0, k as int, e) {
                            let k2 = choose|k2: int|
                                0 <= k2 < k && ((#[trigger] ins0[k2]) as int) == e;
                            assert((ins1[k2] as int) == e);
                            assert(list_covers(ins1, k as int + 1, e));
                        }
                    }
                }
            }
            k = k + 1;
        }
        let ghost ins_v = ins@;
        let ghost il0 = input_lists@;
        input_lists.push(ins);
        proof {
            assert forall|e: int|
                0 <= e < edges@.len() implies #[trigger] ports_cover(
                plan0,
                input_lists@,
                i as int + 1,
                e,
            ) by {
                if list_covers(ins_v, m as int, e) {
                    let k2 = choose|k2: int| 0 <= k2 < m && ((#[trigger] ins_v[k2]) as int) == e;
                    assert((((input_lists@[i as int])@[k2]) as int) == e);
                    assert(ports_cover(plan0, input_lists@, i as int + 1, e));
                } else {
                    assert(ports_cover(plan0, il0, i as int, e));
                    let (i2, k2) = choose|i2: int, k2: int|
                        0 <= i2 < i && 0 <= k2 < plan0[i2].deps@.len() && (((
                        #[trigger] il0[i2]@[k2])) as int) == e;
                    assert((((input_lists@[i2])@[k2]) as int) == e);
                    assert(ports_cover(plan0, input_lists@, i as int + 1, e));
                }
            }
        }
        i = i + 1;
    }

    // Per node, the list of edges it produces into, in edge order.
    let mut output_lists: Vec<Vec<usize>> = Vec::new();
    let mut p: usize = 0;
    while p < n
        invariant
            p <= n,
            output_lists@.len() == p,
            forall|d: int| 0 <= d < p ==> (#[trigger] output_lists@[d])@.len() == 0,
        decreases n - p,
    {
        output_lists.push(Vec::new());
        p = p + 1;
    }
    let ne = edges.len();
    let mut e: usize = 0;
    #[verifier::loop_isolation(false)]
    while e < ne
        invariant
            e <= ne,
            output_lists@.len() == n,
            forall|d: int, j: int|
                0 <= d < n && 0 <= j < output_lists@[d]@.len() ==> {
                    let ee = (#[trigger] output_lists@[d]@[j]) as int;
                    &&& ee < edges@.len()
                    &&& edges@[ee].from == d
                },
            forall|d: int|
                0 <= d < n ==> (((#[trigger] output_lists@[d])@.len()) as int) == from_count(
                    edges@,
                    d,
                    e as int,
                ),
        decreases ne - e,
    {
        let f = edges[e].from;
        let ghost before = output_lists@;
        if f < n {
            let slot = &mut output_lists[f];
            slot.push(e);
            proof {
                assert forall|d: int, j: int|
                    0 <= d < n && 0 <= j < output_lists@[d]@.len() implies {
                    let ee = (#[trigger] output_lists@[d]@[j]) as int;
                    &&& ee < edges@.len()
                    &&& edges@[ee].from == d
                } by {
                    if d != f as int || j < before[d]@.len() {
                        assert(output_lists@[d]@[j] == before[d]@[j]);
                    }
                }
            }
        }
        proof {
            assert forall|d: int|
                0 <= d < n implies (((#[trigger] output_lists@[d])@.len()) as int) == from_count(
                edges@,
                d,
                e as int + 1,
            ) by {
                if d != f as int {
                    assert(output_lists@[d] == before[d]);
                }
            }
        }
        e = e + 1;
    }

    // Stitch the processors together and lay down pristine runtime state.
    let mut procs: Vec<Processor> = Vec::new();
    let mut status: Vec<Status> = Vec::new();
    let mut running: Vec<bool> = Vec::new();
    let mut cursor: Vec<usize> = Vec::new();
    let mut aslot: Vec<AsyncSlot> = Vec::new();
    let ghost in0 = input_lists@;
    let ghost out0 = output_lists@;
    let mut plan = plan;
    let mut i2: usize = 0;
    #[verifier::loop_isolation(false)]
    while i2 < n
        invariant
            i2 <= n,
            plan@ == plan0.subrange(i2 as int, n as int),
            input_lists@ == in0.subrange(i2 as int, n as int),
            output_lists@ == out0.subrange(i2 as int, n as int),
            procs@.len() == i2,
            status@.len() == i2,
            running@.len() == i2,
            cursor@.len() == i2,
            aslot@.len() == i2,
            forall|x: int|
                0 <= x < i2 ==> (#[trigger] procs@[x]).kind == plan0[x].op && procs@[x].inputs
                    == in0[x] && procs@[x].outputs == out0[x],
            forall|x: int| 0 <= x < i2 ==> (#[trigger] status@[x]) == Status::Active,
            forall|x: int| 0 <= x < i2 ==> !(#[trigger] running@[x]),
            forall|x: int| 0 <= x < i2 ==> (#[trigger] cursor@[x]) == 0,
            forall|x: int| 0 <= x < i2 ==> (#[trigger] aslot@[x]) is Idle,
        decreases n - i2,
    {
        let node = plan.remove(0);
        let ins = input_lists.remove(0);
        let outs = output_lists.remove(0);
        procs.push(Processor { kind: node.op, inputs: ins, outputs: outs });
        status.push(Status::Active);
        running.push(false);
        cursor.push(0);
        aslot.push(AsyncSlot::Idle);
        proof {
            assert(plan@ =~= plan0.subrange(i2 as int + 1, n as int));
            assert(input_lists@ =~= in0.subrange(i2 as int + 1, n as int));
            assert(output_lists@ =~= out0.subrange(i2 as int + 1, n as int));
        }
        i2 = i2 + 1;
    }

    let g = Graph {
        procs,
        edges,
        status,
        running,
        cursor,
        aslot,
        collected: Vec::new(),
        cancelled: false,
        failed: None,
    };
    proof {
        assert(g.status@ =~= Seq::new(plan0.len(), |i: int| Status::Active));
        assert forall|d: int|
            0 <= d < plan0.len() implies ((#[trigger] g.procs@[d]).outputs@.len() as int)
                == plan_consumers(plan0, d) by {
            assert(g.procs@[d].outputs == out0[d]);
        }
        assert forall|e2: int| 0 <= e2 < g.edges@.len() implies #[trigger] edge_covered(
            plan0,
            g,
            e2,
        ) by {
            assert(ports_cover(plan0, in0, n as int, e2));
            let (i2, k2) = choose|i2: int, k2: int|
                0 <= i2 < n && 0 <= k2 < plan0[i2].deps@.len() && (((#[trigger] in0[i2]@[k2]))
                    as int) == e2;
            assert(g.procs@[i2].inputs == in0[i2]);
            assert(((g.procs@[i2].inputs@[k2]) as int) == e2);
            assert(edge_covered(plan0, g, e2));
        }
    }
    g
}

impl Graph {
    /// Decides well-formedness of the whole graph, exactly.
    pub fn check_wf(&self) -> (b: bool)
        ensures
            b == self.wf(),
    {
        let n = self.procs.len();
        if self.status.len() != n || self.running.len() != n || self.cursor.len() != n
            || self.aslot.len() != n {
            return false;
        }
        let ne = self.edges.len();
        let mut e: usize = 0;
        while e < ne
            invariant
                ne == self.edges@.len(),
                n == self.procs@.len(),
                e <= ne,
                forall|k: int| 0 <= k < e ==> #[trigger] self.edge_ok(k),
            decreases ne - e,
        {
            let ed = self.edges[e];
            if !(ed.from < ed.to && ed.to < n) {
                proof {
                    assert(!self.edge_ok(e as int));
                }
                return false;
            }
            e = e + 1;
        }
        let mut p: usize = 0;
        while p < n
            invariant
                n == self.procs@.len(),
                p <= n,
                self.lens_ok(),
                forall|k: int| 0 <= k < self.edges@.len() ==> #[trigger] self.edge_ok(k),
                forall|k: int| 0 <= k < p ==> #[trigger] self.proc_ok(k),
            decreases n - p,
        {
            if !self.check_proc_ok(p) {
                return false;
            }
            p = p + 1;
        }
        true
    }

    /// Decides the structural constraints on one processor, exactly.
    fn check_proc_ok(&self, p: usize) -> (b: bool)
        requires
            p < self.procs@.len(),
            self.lens_ok(),
        ensures
            b == self.proc_ok(p as int),
    {
        let pr = &self.procs[p];
        let ni = pr.inputs.len();
        let mut i: usize = 0;
        while i < ni
            invariant
                p < self.procs@.len(),
                pr == &self.procs@[p as int],
                ni == pr.inputs@.len(),
                i <= ni,
                forall|k: int|
                    0 <= k < i ==> (#[trigger] pr.inputs@[k]) < self.edges@.len()
                        && self.edges@[pr.inputs@[k] as int].to == p,
            decreases ni - i,
        {
            let e = pr.inputs[i];
            if !(e < self.edges.len() && self.edges[e].to == p) {
                return false;
            }
            i = i + 1;
        }
        let no = pr.outputs.len();
        let mut j: usize = 0;
        while j < no
            invariant
                p < self.procs@.len(),
                pr == &self.procs@[p as int],
                no == pr.outputs@.len(),
                j <= no,
                forall|k: int|
                    0 <= k < j ==> (#[trigger] pr.outputs@[k]) < self.edges@.len()
                        && self.edges@[pr.outputs@[k] as int].from == p,
            decreases no - j,
        {
            let e = pr.outputs[j];
            if !(e < self.edges.len() && self.edges[e].from == p) {
                return false;
            }
            j = j + 1;
        }
        let arity_ok = match &pr.kind {
            OpKind::Source { rows } => ni == 0 && no == 1 && self.cursor[p] <= rows.len()
                && matches!(self.aslot[p], AsyncSlot::Idle),
            OpKind::Filter { .. } => ni == 1 && no == 1 && matches!(self.aslot[p], AsyncSlot::Idle),
            OpKind::Split => ni == 1 && no >= 1 && self.cursor[p] < no && matches!(
                self.aslot[p],
                AsyncSlot::Idle,
            ),
            OpKind::Merge => ni >= 1 && no == 1 && matches!(self.aslot[p], AsyncSlot::Idle),
            OpKind::AsyncMap => ni == 1 && no == 1,
            OpKind::Sink => ni == 1 && no == 0 && matches!(self.aslot[p], AsyncSlot::Idle),
        };
        arity_ok
    }

    /// Accepts the graph exactly when it is well-formed, handing it back
    /// unchanged; rejects it otherwise.
    pub fn validate(self) -> (r: Result<Graph, PlanError>)
        ensures
            r is Ok <==> self.wf(),
            r matches Ok(g) ==> g == self,
    {
        if self.check_wf() {
            Ok(self)
        } else {
            Err(PlanError::Malformed)
        }
    }
}

/// A graph laid out from a plan is well-formed exactly when the plan itself
/// is well-shaped: every dependency names an earlier node and every operator
/// kind gets the ports it admits.
proof fn lemma_wf_iff_plan_ok(plan: Seq<PlanNode>, g: Graph)
    requires
        plan_matches(plan, g),
        forall|d: int|
            0 <= d < plan.len() ==> ((#[trigger] g.procs@[d]).outputs@.len() as int)
                == plan_consumers(plan, d),
        forall|e: int| 0 <= e < g.edges@.len() ==> #[trigger] edge_covered(plan, g, e),
    ensures
        g.wf() <==> plan_ok(plan),
{
    if g.wf() {
        assert forall|i: int| 0 <= i < plan.len() implies #[trigger] plan_node_ok(plan, i) by {
            assert(g.proc_ok(i));
            assert forall|k: int|
                0 <= k < plan[i].deps@.len() implies ((#[trigger] plan[i].deps@[k]) as int)
                    < i by {
                let e = g.procs@[i].inputs@[k] as int;
                assert(g.edge_ok(e));
            }
        }
    }
    if plan_ok(plan) {
        assert forall|e: int| 0 <= e < g.edges@.len() implies #[trigger] g.edge_ok(e) by {
            assert(edge_covered(plan, g, e));
            let (i2, k2) = choose|i2: int, k2: int|
                0 <= i2 < plan.len() && 0 <= k2 < plan[i2].deps@.len() && ((
                #[trigger] g.procs@[i2].inputs@[k2]) as int) == e;
            assert(plan_node_ok(plan, i2));
            assert((plan[i2].deps@[k2] as int) < i2);
        }
        assert forall|p: int| 0 <= p < g.n() implies #[trigger] g.proc_ok(p) by {
            assert(plan_node_ok(plan, p));
            assert(g.ports_ok(p));
            assert(g.kind_ok(p));
        }
        assert(g.wf());
    }
}

/// Compiles a physical plan into an execution graph: one processor per
/// operator, one capacity-one edge per data dependency. Succeeds, with the
/// well-formed graph the plan denotes, exactly when the plan is well-shaped:
/// dependencies strictly earlier in the order, and the ports each operator
/// kind admits.
pub fn build(plan: Vec<PlanNode>) -> (r: Result<Graph, PlanError>)
    ensures
        r matches Ok(g) ==> g.wf() && plan_matches(plan@, g),
        r is Ok <==> plan_ok(plan@),
{
    let ghost plan0 = plan@;
    let g = assemble(plan);
    proof {
        lemma_wf_iff_plan_ok(plan0, g);
    }
    g.validate()
}

/// Top-level facade: compiles the plan, runs it to a terminal outcome with
/// the given worker count, and hands back the final graph beside the outcome.
/// `step_limit` is the external cancellation trigger (a timeout).
pub fn execute(plan: Vec<PlanNode>, workers: usize, step_limit: u64) -> (r: Result<
    (Graph, Outcome),
    PlanError,
>)
    requires
        workers >= 1,
    ensures
        r is Ok <==> plan_ok(plan@),
        r matches Ok((g, out)) ==> (out is Cancelled ==> exists|g0: Graph|
            plan_matches(plan@, g0) && step_limit as int <= run_bound(g0)),
        r matches Ok((g, out)) ==> {
            &&& g.wf()
            &&& crate::laws::rows_conserved(g)
            &&& g.procs@.len() == plan@.len()
            &&& forall|i: int| 0 <= i < plan@.len() ==> (#[trigger] g.procs@[i]).kind == plan@[i].op
            &&& match out {
                Outcome::Completed { streams } => {
                    &&& g.sinks_finished()
                    &&& g.failed is None
                    &&& !g.cancelled
                    &&& streams@.len() == g.procs@.len()
                    &&& forall|p: int|
                        0 <= p < g.procs@.len() ==> (#[trigger] streams@[p])@
                            == crate::executor::rows_of(g.collected@, p)
                },
                Outcome::Failed { proc } => {
                    &&& g.failed == Some(proc)
                    &&& (proc as int) < g.procs@.len()
                    &&& !g.cancelled
                    &&& forall|x: int| 0 <= x < g.procs@.len() ==> !(g.status@[x] is Active)
                },
                Outcome::Cancelled => {
                    &&& g.cancelled
                    &&& g.failed is None
                    &&& forall|x: int| 0 <= x < g.procs@.len() ==> !(g.status@[x] is Active)
                },
                Outcome::Deadlocked => {
                    &&& !g.sinks_finished()
                    &&& g.failed is None
                    &&& !g.cancelled
                    &&& forall|p: int| 0 <= p < g.procs@.len() ==> !(g.aslot@[p] is Held)
                    &&& forall|p: int|
                        0 <= p < g.procs@.len() ==> !(g.poll_spec(p) is Runnable)
                },
            }
        },
{
    let ghost plan0 = plan@;
    let built = build(plan);
    match built {
        Ok(mut g) => {
            let ghost g0 = g;
            let out = run(&mut g, workers, step_limit);
            proof {
                if out is Cancelled {
                    assert(plan_matches(plan0, g0) && step_limit as int <= run_bound(g0));
                }
            }
            Ok((g, out))
        },
        Err(err) => Err(err),
    }
}

} // verus!
