//! The raw instrumentation events the demultiplexer consumes.
//!
//! Each event arrives together with a monotonic arrival instant (nanoseconds)
//! and the identifier of the worker it happened on. A peek identifier is
//! carried as its 128-bit value.

use crate::ids::GlobalId;
use vstd::prelude::*;

verus! {

/// A peek against a view: which view, at which logical time, and the unique
/// 128-bit identifier of the peek itself.
#[derive(Clone, Copy, Debug, PartialEq, Eq, Structural)]
pub struct Peek {
    /// The identifier of the view the peek targets.
    pub id: GlobalId,
    /// The logical timestamp requested.
    pub time: u64,
    /// The unique identifier of the peek.
    pub uuid: u128,
}

impl Peek {
    /// Create a new peek from its arguments.
    pub fn new(id: GlobalId, time: u64, uuid: u128) -> (r: Peek)
        ensures
            r == (Peek { id, time, uuid }),
    {
        Peek { id, time, uuid }
    }
}

/// A logged compute event.
#[derive(Clone, Copy, Debug, PartialEq, Eq, Structural)]
pub enum ComputeEvent {
    /// Dataflow lifecycle: true for create and false for drop.
    Dataflow(GlobalId, bool),
    /// A dataflow depends on a named source of data.
    DataflowDependency {
        /// The dependent dataflow.
        dataflow: GlobalId,
        /// The source it depends on.
        source: GlobalId,
    },
    /// Peek command: true for install and false for retire.
    Peek(Peek, bool),
    /// Frontier information for views: identifier, logical time, delta.
    Frontier(GlobalId, u64, i64),
    /// Frontier information for source instantiations: dataflow, source,
    /// logical time, delta.
    SourceFrontier(GlobalId, GlobalId, u64, i8),
}

} // verus!
