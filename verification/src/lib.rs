//! Execution core of an analytical query engine: a pipelined dataflow
//! scheduler driving a graph of processors over capacity-one edges, plus the
//! decision logic of the metadata (DDL) handlers that surround it.

pub mod credential;
pub mod executor;
pub mod graph;
pub mod laws;
pub mod measure;
pub mod meta;
pub mod plan;
pub mod processor;
pub mod quota;
pub mod step;
pub mod tasks;
