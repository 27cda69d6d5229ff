//! The two-tier task queue: a global FIFO shared by all workers plus one
//! local queue per worker, with work stealing when both run dry.

use vstd::prelude::*;

verus! {

/// Set of worker-visible units of work. A task is the identifier of a
/// processor currently eligible to be driven.
#[derive(Debug)]
pub struct TaskQueue {
    /// FIFO shared by all workers: tasks with no thread affinity.
    pub globalq: Vec<usize>,
    /// One queue per worker for tasks produced by that worker's own drives;
    /// popped from the back by the owner, stolen from the back by siblings.
    pub locals: Vec<Vec<usize>>,
}

/// Total number of queued tasks across a set of local queues.
pub open spec fn locals_total(ls: Seq<Vec<usize>>) -> nat
    decreases ls.len(),
{
    if ls.len() == 0 {
        0
    } else {
        ls[0]@.len() + locals_total(ls.drop_first())
    }
}

proof fn lemma_locals_total_change(pre: Seq<Vec<usize>>, post: Seq<Vec<usize>>, w: int)
    requires
        0 <= w < pre.len(),
        post.len() == pre.len(),
        forall|v: int| 0 <= v < pre.len() && v != w ==> post[v] == pre[v],
    ensures
        locals_total(post) + pre[w]@.len() == locals_total(pre) + post[w]@.len(),
    decreases pre.len(),
{
    if w == 0 {
        assert(post.drop_first() =~= pre.drop_first());
    } else {
        assert(post[0] == pre[0]);
        lemma_locals_total_change(pre.drop_first(), post.drop_first(), w - 1);
    }
}

proof fn lemma_locals_total_zero(ls: Seq<Vec<usize>>)
    requires
        forall|w: int| 0 <= w < ls.len() ==> (#[trigger] ls[w])@.len() == 0,
    ensures
        locals_total(ls) == 0,
    decreases ls.len(),
{
    if ls.len() > 0 {
        lemma_locals_total_zero(ls.drop_first());
    }
}

impl TaskQueue {
    /// Number of queued tasks, over both tiers.
    pub open spec fn total(self) -> nat {
        self.globalq@.len() + locals_total(self.locals@)
    }

    /// Whether a task for processor `p` is queued anywhere.
    pub open spec fn has_task(self, p: usize) -> bool {
        self.globalq@.contains(p) || exists|w: int|
            0 <= w < self.locals@.len() && (#[trigger] self.locals@[w])@.contains(p)
    }

    /// Number of worker queues.
    pub open spec fn workers(self) -> int {
        self.locals@.len() as int
    }

    /// An empty queue for `workers` workers.
    pub fn new(workers: usize) -> (q: TaskQueue)
        ensures
            q.locals@.len() == workers,
            q.total() == 0,
            forall|p: usize| !q.has_task(p),
    {
        let mut locals: Vec<Vec<usize>> = Vec::new();
        let mut w: usize = 0;
        while w < workers
            invariant
                locals@.len() == w,
                w <= workers,
                forall|k: int| 0 <= k < w ==> (#[trigger] locals@[k])@.len() == 0,
            decreases workers - w,
        {
            locals.push(Vec::new());
            w = w + 1;
        }
        proof {
            lemma_locals_total_zero(locals@);
        }
        TaskQueue { globalq: Vec::new(), locals }
    }

    /// Enqueues a task with no thread affinity.
    pub fn push_global(&mut self, p: usize)
        ensures
            final(self).globalq@ == old(self).globalq@.push(p),
            final(self).locals@ == old(self).locals@,
            final(self).total() == old(self).total() + 1,
            final(self).has_task(p),
            forall|x: usize| old(self).has_task(x) ==> final(self).has_task(x),
            forall|x: usize| x != p && final(self).has_task(x) ==> old(self).has_task(x),
    {
        self.globalq.push(p);
        proof {
            assert(self.globalq@.contains(p)) by {
                assert(self.globalq@[self.globalq@.len() - 1] == p);
            }
            assert forall|x: usize| old(self).has_task(x) implies self.has_task(x) by {
                if old(self).globalq@.contains(x) {
                    let k = choose|k: int|
                        0 <= k < old(self).globalq@.len() && old(self).globalq@[k] == x;
                    assert(self.globalq@[k] == x);
                } else {
                    let v = choose|v: int|
                        0 <= v < old(self).locals@.len() && (#[trigger] old(self).locals@[v])@.contains(x);
                    assert((self.locals@[v])@.contains(x));
                }
            }
            assert forall|x: usize| x != p && self.has_task(x) implies old(self).has_task(x) by {
                if self.globalq@.contains(x) {
                    let k = choose|k: int| 0 <= k < self.globalq@.len() && self.globalq@[k] == x;
                    assert(old(self).globalq@[k] == x);
                } else {
                    let v = choose|v: int|
                        0 <= v < self.locals@.len() && (#[trigger] self.locals@[v])@.contains(x);
                    assert((old(self).locals@[v])@.contains(x));
                }
            }
        }
    }

    /// Enqueues a task produced by worker `w`'s own drive onto `w`'s local
    /// queue, for cache locality.
    pub fn push_local(&mut self, w: usize, p: usize)
        requires
            w < old(self).locals@.len(),
        ensures
            final(self).globalq@ == old(self).globalq@,
            final(self).locals@.len() == old(self).locals@.len(),
            final(self).locals@[w as int]@ == old(self).locals@[w as int]@.push(p),
            forall|v: int|
                0 <= v < old(self).locals@.len() && v != w ==> final(self).locals@[v]
                    == old(self).locals@[v],
            final(self).total() == old(self).total() + 1,
            final(self).has_task(p),
            forall|x: usize| old(self).has_task(x) ==> final(self).has_task(x),
            forall|x: usize| x != p && final(self).has_task(x) ==> old(self).has_task(x),
    {
        let loc = &mut self.locals[w];
        loc.push(p);
        proof {
            lemma_locals_total_change(old(self).locals@, self.locals@, w as int);
            assert((self.locals@[w as int])@.contains(p)) by {
                assert(self.locals@[w as int]@.last() == p);
            }
            assert forall|x: usize| old(self).has_task(x) implies self.has_task(x) by {
                if !old(self).globalq@.contains(x) {
                    let v = choose|v: int|
                        0 <= v < old(self).locals@.len() && (#[trigger] old(self).locals@[v])@.contains(x);
                    if v == w as int {
                        let k = choose|k: int|
                            0 <= k < old(self).locals@[v]@.len() && old(self).locals@[v]@[k] == x;
                        assert(self.locals@[v]@[k] == x);
                    }
                    assert((self.locals@[v])@.contains(x));
                }
            }
            assert forall|x: usize| x != p && self.has_task(x) implies old(self).has_task(x) by {
                if !self.globalq@.contains(x) {
                    let v = choose|v: int|
                        0 <= v < self.locals@.len() && (#[trigger] self.locals@[v])@.contains(x);
                    if v == w as int {
                        let k = choose|k: int|
                            0 <= k < self.locals@[v]@.len() && self.locals@[v]@[k] == x;
                        assert(old(self).locals@[v]@[k] == x);
                    }
                    assert((old(self).locals@[v])@.contains(x));
                }
            }
        }
    }

    /// Dequeues a task for worker `w`: its own local queue first, then the
    /// global FIFO, then stealing from a sibling's local queue. Returns
    /// `None` exactly when no task is queued anywhere.
    pub fn pop(&mut self, w: usize) -> (r: Option<usize>)
        requires
            w < old(self).locals@.len(),
        ensures
            final(self).locals@.len() == old(self).locals@.len(),
            match r {
                Some(p) => old(self).has_task(p) && final(self).total() + 1 == old(self).total()
                    && forall|x: usize| x != p ==> final(self).has_task(x) == old(self).has_task(x),
                None => *final(self) == *old(self) && old(self).total() == 0,
            },
    {
        let ghost pre = *self;
        if self.locals[w].len() > 0 {
            let loc = &mut self.locals[w];
            let r = loc.pop();
            let p = r.unwrap();
            proof {
                assert(self.locals@[w as int]@ =~= pre.locals@[w as int]@.drop_last());
                Self::lemma_pop_back(pre, *self, w as int, p);
            }
            return Some(p);
        }
        if self.globalq.len() > 0 {
            let p = self.globalq.remove(0);
            proof {
                assert(pre.globalq@.contains(p)) by {
                    assert(pre.globalq@[0] == p);
                }
                assert forall|x: usize|
                    x != p implies self.has_task(x) == pre.has_task(x) by {
                    assert(self.globalq@ =~= pre.globalq@.subrange(1, pre.globalq@.len() as int));
                    if pre.globalq@.contains(x) {
                        let k = choose|k: int|
                            0 <= k < pre.globalq@.len() && pre.globalq@[k] == x;
                        assert(k != 0);
                        assert(self.globalq@[k - 1] == x);
                    }
                    if self.globalq@.contains(x) {
                        let k = choose|k: int| 0 <= k < self.globalq@.len() && self.globalq@[k] == x;
                        assert(pre.globalq@[k + 1] == x);
                    }
                    if exists|v: int|
                        0 <= v < pre.locals@.len() && (#[trigger] pre.locals@[v])@.contains(x) {
                        let v = choose|v: int|
                            0 <= v < pre.locals@.len() && (#[trigger] pre.locals@[v])@.contains(x);
                        assert((self.locals@[v])@.contains(x));
                    }
                    if exists|v: int|
                        0 <= v < self.locals@.len() && (#[trigger] self.locals@[v])@.contains(x) {
                        let v = choose|v: int|
                            0 <= v < self.locals@.len() && (#[trigger] self.locals@[v])@.contains(x);
                        assert((pre.locals@[v])@.contains(x));
                    }
                }
            }
            return Some(p);
        }
        let n = self.locals.len();
        let mut v: usize = 0;
        #[verifier::loop_isolation(false)]
        while v < n
            invariant
                *self == pre,
                n == self.locals@.len(),
                v <= n,
                self.globalq@.len() == 0,
                forall|k: int| 0 <= k < v ==> (#[trigger] self.locals@[k])@.len() == 0,
            decreases n - v,
        {
            if self.locals[v].len() > 0 {
                let loc = &mut self.locals[v];
                let r = loc.pop();
                let p = r.unwrap();
                proof {
                    assert(self.locals@[v as int]@ =~= pre.locals@[v as int]@.drop_last());
                    Self::lemma_pop_back(pre, *self, v as int, p);
                }
                return Some(p);
            }
            v = v + 1;
        }
        proof {
            lemma_locals_total_zero(self.locals@);
        }
        None
    }

    /// An empty queue holds no task at all.
    pub proof fn lemma_empty_has_no_task(self)
        requires
            self.total() == 0,
        ensures
            forall|x: usize| !self.has_task(x),
    {
        Self::lemma_locals_all_empty(self.locals@);
        assert forall|x: usize| !self.has_task(x) by {
            if self.has_task(x) {
                if !self.globalq@.contains(x) {
                    let v = choose|v: int|
                        0 <= v < self.locals@.len() && (#[trigger] self.locals@[v])@.contains(x);
                    assert(self.locals@[v]@.len() == 0);
                }
            }
        }
    }

    proof fn lemma_locals_all_empty(ls: Seq<Vec<usize>>)
        requires
            locals_total(ls) == 0,
        ensures
            forall|w: int| 0 <= w < ls.len() ==> (#[trigger] ls[w])@.len() == 0,
        decreases ls.len(),
    {
        if ls.len() > 0 {
            Self::lemma_locals_all_empty(ls.drop_first());
            assert forall|w: int| 0 <= w < ls.len() implies (#[trigger] ls[w])@.len() == 0 by {
                if w > 0 {
                    assert(ls.drop_first()[w - 1] == ls[w]);
                }
            }
        }
    }

    /// Popping the back of one local queue removes exactly one task and
    /// preserves every other queued task.
    proof fn lemma_pop_back(pre: TaskQueue, post: TaskQueue, w: int, p: usize)
        requires
            0 <= w < pre.locals@.len(),
            pre.locals@[w]@.len() > 0,
            pre.locals@[w]@.last() == p,
            post.globalq@ == pre.globalq@,
            post.locals@.len() == pre.locals@.len(),
            post.locals@[w]@ == pre.locals@[w]@.drop_last(),
            forall|v: int| 0 <= v < pre.locals@.len() && v != w ==> post.locals@[v] == pre.locals@[v],
        ensures
            pre.has_task(p),
            post.total() + 1 == pre.total(),
            forall|x: usize| x != p ==> post.has_task(x) == pre.has_task(x),
    {
        lemma_locals_total_change(pre.locals@, post.locals@, w);
        assert((pre.locals@[w])@.contains(p)) by {
            assert(pre.locals@[w]@[pre.locals@[w]@.len() - 1] == p);
        }
        assert forall|x: usize| x != p implies post.has_task(x) == pre.has_task(x) by {
            if !pre.globalq@.contains(x) {
                if pre.has_task(x) {
                    let v = choose|v: int|
                        0 <= v < pre.locals@.len() && (#[trigger] pre.locals@[v])@.contains(x);
                    if v == w {
                        let k = choose|k: int|
                            0 <= k < pre.locals@[v]@.len() && pre.locals@[v]@[k] == x;
                        assert(k < pre.locals@[v]@.len() - 1);
                        assert(post.locals@[v]@[k] == x);
                    }
                    assert((post.locals@[v])@.contains(x));
                }
                if post.has_task(x) {
                    let v = choose|v: int|
                        0 <= v < post.locals@.len() && (#[trigger] post.locals@[v])@.contains(x);
                    if v == w {
                        let k = choose|k: int|
                            0 <= k < post.locals@[v]@.len() && post.locals@[v]@[k] == x;
                        assert(pre.locals@[v]@[k] == x);
                    }
                    assert((pre.locals@[v])@.contains(x));
                }
            }
        }
    }
}

} // verus!
