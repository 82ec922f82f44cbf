//! A compute-layer telemetry pipeline: an in-process event demultiplexer that
//! turns raw engine instrumentation events into derived changelogs, together
//! with an arrangement heap-accounting probe that reports memory usage of live
//! indexed structures as deltas, a routing/projection layer that feeds the
//! changelogs into arrangements or durable sinks, and the supporting column
//! comparison, sink-key and migration helpers.

pub mod alist;
pub mod arrayord;
pub mod changelog;
pub mod demux;
pub mod event;
pub mod ids;
pub mod materializer;
pub mod probe;
pub mod s3;
pub mod scalar;
pub mod sink;
pub mod stash;
pub mod time;
pub mod trace;

pub use ids::GlobalId;
