//! The demultiplexer's seven output changelogs.
//!
//! Every output is a stream of `(row, bucket_time, signed_diff)` updates; the
//! row schemas are fixed per changelog. Non-fatal inconsistencies are
//! reported as notices beside the updates; values that do not fit their
//! fixed-width output encoding are fatal.

use crate::event::Peek;
use crate::ids::GlobalId;
use vstd::prelude::*;

verus! {

/// One changelog update: a row becomes visible at a bucket time with a
/// signed multiplicity.
#[derive(Clone, Copy, Debug, PartialEq, Eq)]
pub struct Update<R> {
    /// The row.
    pub row: R,
    /// The bucket the update is attributed to, in milliseconds.
    pub time_ms: u64,
    /// The signed multiplicity.
    pub diff: i64,
}

/// A row of the DataflowCurrent changelog.
#[derive(Clone, Copy, Debug, PartialEq, Eq, Structural)]
pub struct DataflowRow {
    /// The dataflow.
    pub dataflow: GlobalId,
    /// The worker it runs on.
    pub worker: u64,
}

/// A row of the DataflowDependency changelog.
#[derive(Clone, Copy, Debug, PartialEq, Eq, Structural)]
pub struct DependencyRow {
    /// The dependent dataflow.
    pub dataflow: GlobalId,
    /// The source it depends on.
    pub source: GlobalId,
    /// The worker.
    pub worker: u64,
}

/// A row of the FrontierCurrent changelog.
#[derive(Clone, Copy, Debug, PartialEq, Eq, Structural)]
pub struct FrontierRow {
    /// The dataflow.
    pub dataflow: GlobalId,
    /// The worker.
    pub worker: u64,
    /// The reported logical time.
    pub logical_time: u64,
}

/// A row of the SourceFrontierCurrent changelog.
#[derive(Clone, Copy, Debug, PartialEq, Eq, Structural)]
pub struct SourceFrontierRow {
    /// The dataflow.
    pub dataflow: GlobalId,
    /// The source instantiation.
    pub source: GlobalId,
    /// The worker.
    pub worker: u64,
    /// The reported logical time.
    pub logical_time: u64,
}

/// A row of the FrontierDelay changelog, keyed by the delay histogram bucket.
#[derive(Clone, Copy, Debug, PartialEq, Eq, Structural)]
pub struct FrontierDelayRow {
    /// The dataflow.
    pub dataflow: GlobalId,
    /// The source instantiation.
    pub source: GlobalId,
    /// The worker.
    pub worker: u64,
    /// The delay bucket: a power of two nanoseconds.
    pub delay_pow_ns: u64,
}

/// A row of the PeekCurrent changelog.
#[derive(Clone, Copy, Debug, PartialEq, Eq, Structural)]
pub struct PeekRow {
    /// The peek.
    pub peek: Peek,
    /// The worker.
    pub worker: u64,
}

/// A row of the PeekDuration changelog, keyed by the delay histogram bucket.
#[derive(Clone, Copy, Debug, PartialEq, Eq, Structural)]
pub struct PeekDurationRow {
    /// The worker.
    pub worker: u64,
    /// The duration bucket: a power of two nanoseconds.
    pub delay_pow_ns: u64,
}

/// A non-fatal inconsistency: the specific operation is skipped, processing
/// continues, and later telemetry may undercount.
#[derive(Clone, Copy, Debug, PartialEq, Eq, Structural)]
pub enum Notice {
    /// A dataflow was dropped with no active entry.
    DropOfUnknownDataflow {
        /// The dataflow named by the drop.
        dataflow: GlobalId,
        /// The worker.
        worker: u64,
    },
    /// A dependency arrived for a dataflow that is not active.
    DependencyForInactiveDataflow {
        /// The dataflow named by the dependency.
        dataflow: GlobalId,
        /// The source named by the dependency.
        source: GlobalId,
        /// The worker.
        worker: u64,
    },
    /// A peek was installed while an installation was already stashed.
    DuplicatePeekInstall {
        /// The worker.
        worker: u64,
        /// The peek identifier.
        uuid: u128,
    },
    /// A peek was retired with no matching installation.
    RetireWithoutInstall {
        /// The worker.
        worker: u64,
        /// The peek identifier.
        uuid: u128,
    },
}

/// A value did not fit its fixed-width output encoding: a programming
/// defect, fatal to the demultiplexer.
#[derive(Clone, Copy, Debug, PartialEq, Eq, Structural)]
pub enum FatalError {
    /// The next bucket boundary does not fit the output timestamp.
    BucketOverflow,
    /// An elapsed time rounds to a power of two outside the encoding.
    DelayOverflow,
    /// A histogram count does not fit its encoding.
    CountOverflow,
}

/// Everything one event produces: updates for the seven changelogs, and any
/// non-fatal inconsistency notices.
#[derive(Clone, Debug, PartialEq, Eq)]
pub struct DemuxOutput {
    /// Updates to DataflowCurrent.
    pub dataflow: Vec<Update<DataflowRow>>,
    /// Updates to DataflowDependency.
    pub dependency: Vec<Update<DependencyRow>>,
    /// Updates to FrontierCurrent.
    pub frontier: Vec<Update<FrontierRow>>,
    /// Updates to SourceFrontierCurrent.
    pub source_frontier: Vec<Update<SourceFrontierRow>>,
    /// Updates to FrontierDelay.
    pub frontier_delay: Vec<Update<FrontierDelayRow>>,
    /// Updates to PeekCurrent.
    pub peek: Vec<Update<PeekRow>>,
    /// Updates to PeekDuration.
    pub peek_duration: Vec<Update<PeekDurationRow>>,
    /// Non-fatal inconsistencies observed while processing.
    pub notices: Vec<Notice>,
}

impl DemuxOutput {
    /// An output with no updates and no notices.
    pub fn empty() -> (r: DemuxOutput)
        ensures
            r.dataflow@ =~= Seq::<Update<DataflowRow>>::empty(),
            r.dependency@ =~= Seq::<Update<DependencyRow>>::empty(),
            r.frontier@ =~= Seq::<Update<FrontierRow>>::empty(),
            r.source_frontier@ =~= Seq::<Update<SourceFrontierRow>>::empty(),
            r.frontier_delay@ =~= Seq::<Update<FrontierDelayRow>>::empty(),
            r.peek@ =~= Seq::<Update<PeekRow>>::empty(),
            r.peek_duration@ =~= Seq::<Update<PeekDurationRow>>::empty(),
            r.notices@ =~= Seq::<Notice>::empty(),
    {
        DemuxOutput {
            dataflow: Vec::new(),
            dependency: Vec::new(),
            frontier: Vec::new(),
            source_frontier: Vec::new(),
            frontier_delay: Vec::new(),
            peek: Vec::new(),
            peek_duration: Vec::new(),
            notices: Vec::new(),
        }
    }
}

} // verus!
