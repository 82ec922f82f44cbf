//! Compaction bookkeeping of a shared arrangement trace.
//!
//! An arrangement's trace may be compacted only as far as every read handle
//! permits. Each handle carries the bound it has permitted compaction up to;
//! the effective compaction frontier of the trace is the strictest of them.
//! The heap-accounting probe acquires its own handle and immediately,
//! permanently lifts its bound: it must be able to walk every historical
//! batch, and it must never hold production readers' compaction back just
//! because the probe exists. That isolation is structural — the probe's
//! handle contributes no constraint at all — and is proved here, not
//! guarded at runtime.

use vstd::prelude::*;

verus! {

/// What one read handle permits compaction to advance to.
#[derive(Clone, Copy, Debug, PartialEq, Eq, Structural)]
pub enum CompactionBound {
    /// Compaction may advance up to, but not beyond, this time.
    UpTo(u64),
    /// No constraint: the handle has permanently waived replay below any
    /// time, as the probe's handle does.
    Unrestricted,
}

/// The stricter of two permissions.
pub open spec fn spec_meet(a: CompactionBound, b: CompactionBound) -> CompactionBound {
    match (a, b) {
        (CompactionBound::Unrestricted, _) => b,
        (_, CompactionBound::Unrestricted) => a,
        (CompactionBound::UpTo(x), CompactionBound::UpTo(y)) => CompactionBound::UpTo(
            if x <= y {
                x
            } else {
                y
            },
        ),
    }
}

/// The effective compaction bound of a trace: the strictest permission over
/// all of its read handles.
pub open spec fn effective_of(rs: Seq<CompactionBound>) -> CompactionBound
    decreases rs.len(),
{
    if rs.len() == 0 {
        CompactionBound::Unrestricted
    } else {
        spec_meet(effective_of(rs.drop_last()), rs.last())
    }
}

/// The read handles currently attached to one trace.
pub struct TraceHandles {
    /// Each handle's permitted compaction bound.
    pub readers: Vec<CompactionBound>,
}

impl TraceHandles {
    /// A trace with no read handles.
    pub fn new() -> (r: TraceHandles)
        ensures
            r.readers@ == Seq::<CompactionBound>::empty(),
    {
        TraceHandles { readers: Vec::new() }
    }

    /// Attach an ordinary read handle with the given permission.
    pub fn register_reader(&mut self, bound: CompactionBound)
        ensures
            final(self).readers@ == old(self).readers@.push(bound),
    {
        self.readers.push(bound);
    }

    /// Attach the probe's read handle: compaction is disabled on the new
    /// handle permanently, so it adds no constraint, and the effective
    /// compaction bound every other consumer observes is unchanged.
    pub fn attach_probe(&mut self)
        ensures
            final(self).readers@ == old(self).readers@.push(CompactionBound::Unrestricted),
            effective_of(final(self).readers@) == effective_of(old(self).readers@),
    {
        self.readers.push(CompactionBound::Unrestricted);
        proof {
            lemma_probe_compaction_isolation(old(self).readers@);
        }
    }

    /// The effective compaction bound over all attached handles.
    pub fn effective(&self) -> (r: CompactionBound)
        ensures
            r == effective_of(self.readers@),
    {
        let mut r = CompactionBound::Unrestricted;
        let mut i: usize = 0;
        while i < self.readers.len()
            invariant
                i <= self.readers@.len(),
                r == effective_of(self.readers@.take(i as int)),
            decreases self.readers@.len() - i,
        {
            let b = self.readers[i];
            r = match (r, b) {
                (CompactionBound::Unrestricted, _) => b,
                (_, CompactionBound::Unrestricted) => r,
                (CompactionBound::UpTo(x), CompactionBound::UpTo(y)) => CompactionBound::UpTo(
                    if x <= y {
                        x
                    } else {
                        y
                    },
                ),
            };
            i = i + 1;
            proof {
                assert(self.readers@.take(i as int).drop_last() =~= self.readers@.take(
                    i as int - 1,
                ));
                assert(self.readers@.take(i as int).last() == b);
            }
        }
        proof {
            assert(self.readers@.take(self.readers@.len() as int) =~= self.readers@);
        }
        r
    }
}

/// Compaction isolation: a handle that contributes no constraint leaves the
/// effective compaction bound of the trace exactly as it was, whatever the
/// other readers permit.
pub proof fn lemma_probe_compaction_isolation(rs: Seq<CompactionBound>)
    ensures
        effective_of(rs.push(CompactionBound::Unrestricted)) == effective_of(rs),
{
    assert(rs.push(CompactionBound::Unrestricted).drop_last() =~= rs);
    assert(rs.push(CompactionBound::Unrestricted).last() == CompactionBound::Unrestricted);
}

} // verus!
