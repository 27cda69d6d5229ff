//! Processors and edges: the nodes of an execution graph and the
//! capacity-one, flow-controlled channels that connect them.

use vstd::prelude::*;

verus! {

/// Readiness of a processor, as computed from its own status and the flags of
/// its adjacent edges.
#[derive(Clone, Copy, Debug, PartialEq, Eq, Structural)]
pub enum PollState {
    /// Blocked waiting for an upstream edge to have data.
    NeedsInput,
    /// Blocked waiting for a downstream edge to have capacity.
    HasOutputReady,
    /// Has everything required to make synchronous progress.
    Runnable,
    /// Issued an asynchronous operation; resumed only on its completion.
    WaitingAsync,
    /// No further work; successors have been notified.
    Finished,
    /// Terminal with an error, or cancelled.
    Failed,
}

/// Terminal-or-active status stored per processor.
#[derive(Clone, Copy, Debug, PartialEq, Eq, Structural)]
pub enum Status {
    Active,
    Finished,
    Failed,
}

/// Row predicate applied by a filter operator.
#[derive(Clone, Copy, Debug, PartialEq, Eq, Structural)]
pub enum Pred {
    KeepAll,
    KeepEven,
    KeepOdd,
}

impl Pred {
    /// Whether the predicate keeps a row.
    pub open spec fn keeps_spec(self, item: u64) -> bool {
        match self {
            Pred::KeepAll => true,
            Pred::KeepEven => item % 2 == 0,
            Pred::KeepOdd => item % 2 == 1,
        }
    }

    /// Evaluates the predicate on one row.
    pub fn keeps(self, item: u64) -> (r: bool)
        ensures
            r == self.keeps_spec(item),
    {
        match self {
            Pred::KeepAll => true,
            Pred::KeepEven => item % 2 == 0,
            Pred::KeepOdd => item % 2 == 1,
        }
    }
}

/// Operator carried by a processor. Fields here are fixed at build time;
/// all state that changes while the graph runs lives in the graph itself.
#[derive(Debug)]
pub enum OpKind {
    /// Emits the given rows in order, one per drive, then finishes.
    Source { rows: Vec<u64> },
    /// Passes rows matching `pred`; fails the moment it sees `fail_on`.
    Filter { pred: Pred, fail_on: Option<u64> },
    /// Distributes incoming rows over its output edges round-robin.
    Split,
    /// Forwards rows from any input edge to its single output edge.
    Merge,
    /// Consumes a row, waits for an asynchronous completion, then emits it.
    AsyncMap,
    /// Collects rows; its contents are the result stream.
    Sink,
}

/// One operator instance: its kind and its input/output edge identifiers.
#[derive(Debug)]
pub struct Processor {
    pub kind: OpKind,
    /// Edge identifiers whose consuming side is this processor.
    pub inputs: Vec<usize>,
    /// Edge identifiers whose producing side is this processor.
    pub outputs: Vec<usize>,
}

/// State of an asynchronous stage: nothing in flight, an operation in
/// flight holding its operand, or a completed result awaiting push.
#[derive(Clone, Copy, Debug, PartialEq, Eq, Structural)]
pub enum AsyncSlot {
    Idle,
    Held(u64),
    Ready(u64),
}

/// A single-slot, flow-controlled channel between two processors.
///
/// Capacity is exactly one row: this bounds the buffered memory of a graph
/// to one unit per edge, which is the backpressure mechanism.
#[derive(Clone, Copy, Debug)]
pub struct Edge {
    /// Producing processor.
    pub from: usize,
    /// Consuming processor.
    pub to: usize,
    /// The one buffered row, if any.
    pub slot: Option<u64>,
    /// Set once by the producer when no more data will come; never cleared.
    pub finished: bool,
}

impl Edge {
    /// A fresh, empty, unfinished edge between two processors.
    pub fn new(from: usize, to: usize) -> (e: Edge)
        ensures
            e == (Edge { from, to, slot: None, finished: false }),
    {
        Edge { from, to, slot: None, finished: false }
    }

    /// Whether the edge currently buffers a row.
    pub open spec fn has_data(self) -> bool {
        self.slot is Some
    }

    /// Whether a producer may push: empty and not finished.
    pub open spec fn can_push(self) -> bool {
        self.slot is None && !self.finished
    }

    /// Whether the consumer has seen the end of the stream: finished and
    /// drained.
    pub open spec fn exhausted(self) -> bool {
        self.finished && self.slot is None
    }

    /// Attempts to buffer one row. Fails, changing nothing, exactly when the
    /// edge is full or finished.
    pub fn try_push(&mut self, item: u64) -> (ok: bool)
        ensures
            ok == old(self).can_push(),
            ok ==> *final(self) == (Edge { slot: Some(item), ..*old(self) }),
            !ok ==> *final(self) == *old(self),
    {
        if self.slot.is_none() && !self.finished {
            self.slot = Some(item);
            true
        } else {
            false
        }
    }

    /// Attempts to take the buffered row. Returns `None`, changing nothing,
    /// exactly when the edge is empty.
    pub fn try_pull(&mut self) -> (r: Option<u64>)
        ensures
            r == old(self).slot,
            r is Some ==> *final(self) == (Edge { slot: None, ..*old(self) }),
            r is None ==> *final(self) == *old(self),
    {
        let r = self.slot;
        if r.is_some() {
            self.slot = None;
        }
        r
    }

    /// Producer signals end of stream. Idempotent and monotone: a finished
    /// edge cannot be un-finished, and finishing twice changes nothing.
    pub fn mark_finished(&mut self)
        ensures
            *final(self) == (Edge { finished: true, ..*old(self) }),
    {
        self.finished = true;
    }

    /// Whether the producer has signalled end of stream.
    pub fn is_finished(&self) -> (r: bool)
        ensures
            r == self.finished,
    {
        self.finished
    }
}

} // verus!
