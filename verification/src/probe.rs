//! The arrangement heap-accounting probe.
//!
//! The probe walks every physical batch of a live arrangement's trace and
//! accumulates, per internal buffer, the payload bytes into a size total and
//! the reserved bytes into a capacity total, counting one allocation per
//! buffer. It compares the resulting triple against the previous snapshot
//! and emits, per metric independently, an event carrying only the non-zero
//! delta. On its first activation it additionally emits a one-time
//! registration event binding the operator identifier to its position in
//! the operator tree.
//!
//! The exact buffers walked depend on the arrangement's physical encoding;
//! the finite set of known encodings is a tagged variant here, dispatched by
//! one match rather than open-ended dynamic dispatch.

use vstd::prelude::*;

verus! {

/// The heap dimensions of one contiguous buffer: elements stored, elements
/// reserved, and the byte size of one element.
#[derive(Clone, Copy, Debug, PartialEq, Eq, Structural)]
pub struct BufferDims {
    /// Elements stored.
    pub len: usize,
    /// Elements reserved, at least `len`.
    pub capacity: usize,
    /// Bytes per element.
    pub elem_size: usize,
}

/// Relies on `Vec::capacity` of std: the documentation promises only that
/// the capacity is at least the length; the exact value is the allocator's.
#[verifier::external_body]
fn vec_capacity<T>(data: &Vec<T>) -> (c: usize)
    ensures
        c >= data@.len(),
{
    data.capacity()
}

/// Measure the immediate allocation of a vector: elements stored and
/// reserved together with their element size. Pointers to owned allocations
/// behind the elements are not followed.
pub fn vec_size<T>(data: &Vec<T>) -> (r: BufferDims)
    ensures
        r.len == data@.len(),
        r.capacity >= r.len,
        r.elem_size as nat == vstd::layout::size_of::<T>(),
{
    BufferDims { len: data.len(), capacity: vec_capacity(data), elem_size: core::mem::size_of::<T>() }
}

/// The buffers of one batch under each known physical encoding, in walk
/// order.
pub enum BatchLayout {
    /// Columnar keys and columnar values: the key and value regions, the
    /// two offset buffers, and the weights buffer.
    RowRow {
        /// Regions of the columnar key storage.
        key_regions: Vec<BufferDims>,
        /// Regions of the columnar value storage.
        val_regions: Vec<BufferDims>,
        /// Key offsets.
        key_offs: BufferDims,
        /// Value offsets.
        val_offs: BufferDims,
        /// Weights.
        weights: BufferDims,
    },
    /// Plain keys with error values: five flat buffers.
    KeyErr {
        /// Keys.
        keys: BufferDims,
        /// Key offsets.
        key_offs: BufferDims,
        /// Value keys.
        val_keys: BufferDims,
        /// Value offsets.
        val_offs: BufferDims,
        /// Weights.
        weights: BufferDims,
    },
    /// Error keys with no values: three flat buffers.
    ErrKey {
        /// Keys.
        keys: BufferDims,
        /// Key offsets.
        offs: BufferDims,
        /// Weights.
        weights: BufferDims,
    },
    /// Columnar keys with no values: the key regions, offsets and weights.
    RowKey {
        /// Regions of the columnar key storage.
        key_regions: Vec<BufferDims>,
        /// Key offsets.
        offs: BufferDims,
        /// Weights.
        weights: BufferDims,
    },
}

/// The buffers a batch's walk visits, in order.
pub open spec fn batch_buffers(b: BatchLayout) -> Seq<BufferDims> {
    match b {
        BatchLayout::RowRow { key_regions, val_regions, key_offs, val_offs, weights } => key_regions@
            + val_regions@ + seq![key_offs, val_offs, weights],
        BatchLayout::KeyErr { keys, key_offs, val_keys, val_offs, weights } => seq![
            keys,
            key_offs,
            val_keys,
            val_offs,
            weights,
        ],
        BatchLayout::ErrKey { keys, offs, weights } => seq![keys, offs, weights],
        BatchLayout::RowKey { key_regions, offs, weights } => key_regions@ + seq![offs, weights],
    }
}

/// The payload bytes of a buffer sequence.
pub open spec fn sum_size(bs: Seq<BufferDims>) -> int
    decreases bs.len(),
{
    if bs.len() == 0 {
        0
    } else {
        sum_size(bs.drop_last()) + bs.last().len * bs.last().elem_size
    }
}

/// The reserved bytes of a buffer sequence.
pub open spec fn sum_capacity(bs: Seq<BufferDims>) -> int
    decreases bs.len(),
{
    if bs.len() == 0 {
        0
    } else {
        sum_capacity(bs.drop_last()) + bs.last().capacity * bs.last().elem_size
    }
}

/// A heap-accounting total does not fit its fixed-width encoding: a
/// programming defect, fatal to the probe.
#[derive(Clone, Copy, Debug, PartialEq, Eq, Structural)]
pub enum ProbeError {
    /// A byte total or allocation count overflows the encoding.
    MetricOverflow,
}

/// Accumulate one buffer sequence into the three totals.
fn walk_buffers(bs: &Vec<BufferDims>, size: &mut usize, capacity: &mut usize, allocations: &mut usize)
    -> (ok: bool)
    ensures
        ok ==> {
            &&& *final(size) == *old(size) + sum_size(bs@)
            &&& *final(capacity) == *old(capacity) + sum_capacity(bs@)
            &&& *final(allocations) == *old(allocations) + bs@.len()
        },
        !ok ==> {
            ||| *old(size) + sum_size(bs@) > usize::MAX
            ||| *old(capacity) + sum_capacity(bs@) > usize::MAX
            ||| *old(allocations) + bs@.len() > usize::MAX
        },
{
    let mut i: usize = 0;
    let mut s = *size;
    let mut c = *capacity;
    let mut a = *allocations;
    while i < bs.len()
        invariant
            i <= bs@.len(),
            s == *old(size) + sum_size(bs@.take(i as int)),
            c == *old(capacity) + sum_capacity(bs@.take(i as int)),
            a == *old(allocations) + i,
        decreases bs@.len() - i,
    {
        let b = bs[i];
        proof {
            assert(bs@.take(i as int + 1).drop_last() =~= bs@.take(i as int));
            assert(bs@.take(i as int + 1).last() == b);
            assert(sum_size(bs@.take(i as int + 1)) == sum_size(bs@.take(i as int)) + b.len
                * b.elem_size);
            assert(sum_capacity(bs@.take(i as int + 1)) == sum_capacity(bs@.take(i as int))
                + b.capacity * b.elem_size);
            assert(bs@.take(bs@.len() as int) =~= bs@);
        }
        let bytes = match b.len.checked_mul(b.elem_size) {
            Some(v) => v,
            None => {
                proof {
                    lemma_sum_size_mono(bs@, i as int + 1, bs@.len() as int);
                }
                return false;
            },
        };
        let cap_bytes = match b.capacity.checked_mul(b.elem_size) {
            Some(v) => v,
            None => {
                proof {
                    lemma_sum_capacity_mono(bs@, i as int + 1, bs@.len() as int);
                }
                return false;
            },
        };
        s = match s.checked_add(bytes) {
            Some(v) => v,
            None => {
                proof {
                    lemma_sum_size_mono(bs@, i as int + 1, bs@.len() as int);
                }
                return false;
            },
        };
        c = match c.checked_add(cap_bytes) {
            Some(v) => v,
            None => {
                proof {
                    lemma_sum_capacity_mono(bs@, i as int + 1, bs@.len() as int);
                }
                return false;
            },
        };
        a = match a.checked_add(1) {
            Some(v) => v,
            None => {
                return false;
            },
        };
        i = i + 1;
    }
    proof {
        assert(bs@.take(bs@.len() as int) =~= bs@);
    }
    *size = s;
    *capacity = c;
    *allocations = a;
    true
}

/// Prefix payload sums never exceed the whole.
proof fn lemma_sum_size_mono(bs: Seq<BufferDims>, n1: int, n2: int)
    requires
        0 <= n1 <= n2 <= bs.len(),
    ensures
        sum_size(bs.take(n1)) <= sum_size(bs.take(n2)),
    decreases n2 - n1,
{
    if n1 < n2 {
        lemma_sum_size_mono(bs, n1, n2 - 1);
        assert(bs.take(n2).drop_last() =~= bs.take(n2 - 1));
    }
}

/// Prefix capacity sums never exceed the whole.
proof fn lemma_sum_capacity_mono(bs: Seq<BufferDims>, n1: int, n2: int)
    requires
        0 <= n1 <= n2 <= bs.len(),
    ensures
        sum_capacity(bs.take(n1)) <= sum_capacity(bs.take(n2)),
    decreases n2 - n1,
{
    if n1 < n2 {
        lemma_sum_capacity_mono(bs, n1, n2 - 1);
        assert(bs.take(n2).drop_last() =~= bs.take(n2 - 1));
    }
}

/// Accumulate one buffer into the three totals.
fn walk_one(b: BufferDims, size: &mut usize, capacity: &mut usize, allocations: &mut usize) -> (ok:
    bool)
    ensures
        ok ==> {
            &&& *final(size) == *old(size) + b.len * b.elem_size
            &&& *final(capacity) == *old(capacity) + b.capacity * b.elem_size
            &&& *final(allocations) == *old(allocations) + 1
        },
        !ok ==> {
            ||| *old(size) + b.len * b.elem_size > usize::MAX
            ||| *old(capacity) + b.capacity * b.elem_size > usize::MAX
            ||| *old(allocations) + 1 > usize::MAX
        },
{
    let bytes = match b.len.checked_mul(b.elem_size) {
        Some(v) => v,
        None => {
            return false;
        },
    };
    let cap_bytes = match b.capacity.checked_mul(b.elem_size) {
        Some(v) => v,
        None => {
            return false;
        },
    };
    let s = match size.checked_add(bytes) {
        Some(v) => v,
        None => {
            return false;
        },
    };
    let c = match capacity.checked_add(cap_bytes) {
        Some(v) => v,
        None => {
            return false;
        },
    };
    let a = match allocations.checked_add(1) {
        Some(v) => v,
        None => {
            return false;
        },
    };
    *size = s;
    *capacity = c;
    *allocations = a;
    true
}

/// Walk one batch: accumulate every buffer of its encoding, in order, into
/// the running totals. Fails exactly when a total would not fit.
pub fn walk_batch(
    b: &BatchLayout,
    size: &mut usize,
    capacity: &mut usize,
    allocations: &mut usize,
) -> (ok: bool)
    ensures
        ok ==> {
            &&& *final(size) == *old(size) + sum_size(batch_buffers(*b))
            &&& *final(capacity) == *old(capacity) + sum_capacity(batch_buffers(*b))
            &&& *final(allocations) == *old(allocations) + batch_buffers(*b).len()
        },
        !ok ==> {
            ||| *old(size) + sum_size(batch_buffers(*b)) > usize::MAX
            ||| *old(capacity) + sum_capacity(batch_buffers(*b)) > usize::MAX
            ||| *old(allocations) + batch_buffers(*b).len() > usize::MAX
        },
{
    let mut s = *size;
    let mut c = *capacity;
    let mut a = *allocations;
    let ok = match b {
        BatchLayout::RowRow { key_regions, val_regions, key_offs, val_offs, weights } => {
            let r = walk_buffers(key_regions, &mut s, &mut c, &mut a) && walk_buffers(
                val_regions,
                &mut s,
                &mut c,
                &mut a,
            ) && walk_one(*key_offs, &mut s, &mut c, &mut a) && walk_one(
                *val_offs,
                &mut s,
                &mut c,
                &mut a,
            ) && walk_one(*weights, &mut s, &mut c, &mut a);
            proof {
                lemma_sum_concat(key_regions@, val_regions@ + seq![*key_offs, *val_offs, *weights]);
                lemma_sum_concat(val_regions@, seq![*key_offs, *val_offs, *weights]);
                lemma_sum_three(*key_offs, *val_offs, *weights);
                assert(batch_buffers(*b) =~= key_regions@ + (val_regions@ + seq![
                    *key_offs,
                    *val_offs,
                    *weights,
                ]));
                lemma_sum_nonneg(key_regions@);
                lemma_sum_nonneg(val_regions@);
                lemma_buffer_nonneg(*key_offs);
                lemma_buffer_nonneg(*val_offs);
                lemma_buffer_nonneg(*weights);
            }
            r
        },
        BatchLayout::KeyErr { keys, key_offs, val_keys, val_offs, weights } => {
            let r = walk_one(*keys, &mut s, &mut c, &mut a) && walk_one(
                *key_offs,
                &mut s,
                &mut c,
                &mut a,
            ) && walk_one(*val_keys, &mut s, &mut c, &mut a) && walk_one(
                *val_offs,
                &mut s,
                &mut c,
                &mut a,
            ) && walk_one(*weights, &mut s, &mut c, &mut a);
            proof {
                lemma_sum_five(*keys, *key_offs, *val_keys, *val_offs, *weights);
                lemma_buffer_nonneg(*keys);
                lemma_buffer_nonneg(*key_offs);
                lemma_buffer_nonneg(*val_keys);
                lemma_buffer_nonneg(*val_offs);
                lemma_buffer_nonneg(*weights);
            }
            r
        },
        BatchLayout::ErrKey { keys, offs, weights } => {
            let r = walk_one(*keys, &mut s, &mut c, &mut a) && walk_one(
                *offs,
                &mut s,
                &mut c,
                &mut a,
            ) && walk_one(*weights, &mut s, &mut c, &mut a);
            proof {
                lemma_sum_three(*keys, *offs, *weights);
                lemma_buffer_nonneg(*keys);
                lemma_buffer_nonneg(*offs);
                lemma_buffer_nonneg(*weights);
            }
            r
        },
        BatchLayout::RowKey { key_regions, offs, weights } => {
            let r = walk_buffers(key_regions, &mut s, &mut c, &mut a) && walk_one(
                *offs,
                &mut s,
                &mut c,
                &mut a,
            ) && walk_one(*weights, &mut s, &mut c, &mut a);
            proof {
                lemma_sum_concat(key_regions@, seq![*offs, *weights]);
                lemma_sum_two(*offs, *weights);
                assert(batch_buffers(*b) =~= key_regions@ + seq![*offs, *weights]);
                lemma_sum_nonneg(key_regions@);
                lemma_buffer_nonneg(*offs);
                lemma_buffer_nonneg(*weights);
            }
            r
        },
    };
    if ok {
        *size = s;
        *capacity = c;
        *allocations = a;
    }
    ok
}

/// Buffer sums split over concatenation.
proof fn lemma_sum_concat(xs: Seq<BufferDims>, ys: Seq<BufferDims>)
    ensures
        sum_size(xs + ys) == sum_size(xs) + sum_size(ys),
        sum_capacity(xs + ys) == sum_capacity(xs) + sum_capacity(ys),
    decreases ys.len(),
{
    if ys.len() == 0 {
        assert(xs + ys =~= xs);
    } else {
        lemma_sum_concat(xs, ys.drop_last());
        assert((xs + ys).drop_last() =~= xs + ys.drop_last());
        assert((xs + ys).last() == ys.last());
    }
}

/// The sums of a two-buffer sequence.
proof fn lemma_sum_two(x: BufferDims, y: BufferDims)
    ensures
        sum_size(seq![x, y]) == x.len * x.elem_size + y.len * y.elem_size,
        sum_capacity(seq![x, y]) == x.capacity * x.elem_size + y.capacity * y.elem_size,
{
    assert(seq![x].drop_last() =~= Seq::<BufferDims>::empty());
    assert(seq![x].last() == x);
    assert(sum_size(Seq::<BufferDims>::empty()) == 0);
    assert(sum_capacity(Seq::<BufferDims>::empty()) == 0);
    assert(sum_size(seq![x]) == x.len * x.elem_size);
    assert(sum_capacity(seq![x]) == x.capacity * x.elem_size);
    assert(seq![x, y].drop_last() =~= seq![x]);
    assert(seq![x, y].last() == y);
    assert(sum_size(seq![x, y]) == sum_size(seq![x]) + y.len * y.elem_size);
    assert(sum_capacity(seq![x, y]) == sum_capacity(seq![x]) + y.capacity * y.elem_size);
}

/// The sums of a three-buffer sequence.
proof fn lemma_sum_three(x: BufferDims, y: BufferDims, z: BufferDims)
    ensures
        sum_size(seq![x, y, z]) == x.len * x.elem_size + y.len * y.elem_size + z.len * z.elem_size,
        sum_capacity(seq![x, y, z]) == x.capacity * x.elem_size + y.capacity * y.elem_size
            + z.capacity * z.elem_size,
{
    lemma_sum_two(x, y);
    assert(seq![x, y, z].drop_last() =~= seq![x, y]);
    assert(seq![x, y, z].last() == z);
    assert(sum_size(seq![x, y, z]) == sum_size(seq![x, y]) + z.len * z.elem_size);
    assert(sum_capacity(seq![x, y, z]) == sum_capacity(seq![x, y]) + z.capacity * z.elem_size);
}

/// The sums of a five-buffer sequence.
proof fn lemma_sum_five(v: BufferDims, w: BufferDims, x: BufferDims, y: BufferDims, z: BufferDims)
    ensures
        sum_size(seq![v, w, x, y, z]) == v.len * v.elem_size + w.len * w.elem_size + x.len
            * x.elem_size + y.len * y.elem_size + z.len * z.elem_size,
        sum_capacity(seq![v, w, x, y, z]) == v.capacity * v.elem_size + w.capacity * w.elem_size
            + x.capacity * x.elem_size + y.capacity * y.elem_size + z.capacity * z.elem_size,
{
    lemma_sum_three(v, w, x);
    assert(seq![v, w, x, y].drop_last() =~= seq![v, w, x]);
    assert(seq![v, w, x, y].last() == y);
    assert(sum_size(seq![v, w, x, y]) == sum_size(seq![v, w, x]) + y.len * y.elem_size);
    assert(sum_capacity(seq![v, w, x, y]) == sum_capacity(seq![v, w, x]) + y.capacity
        * y.elem_size);
    assert(seq![v, w, x, y, z].drop_last() =~= seq![v, w, x, y]);
    assert(seq![v, w, x, y, z].last() == z);
    assert(sum_size(seq![v, w, x, y, z]) == sum_size(seq![v, w, x, y]) + z.len * z.elem_size);
    assert(sum_capacity(seq![v, w, x, y, z]) == sum_capacity(seq![v, w, x, y]) + z.capacity
        * z.elem_size);
}

/// The buffers of a whole trace: every batch's buffers, in batch order.
pub open spec fn trace_buffers(bs: Seq<BatchLayout>) -> Seq<BufferDims>
    decreases bs.len(),
{
    if bs.len() == 0 {
        Seq::empty()
    } else {
        trace_buffers(bs.drop_last()) + batch_buffers(bs.last())
    }
}

/// Walk all physical batches of a trace and return the three heap totals:
/// payload bytes, reserved bytes, and the number of distinct buffers.
/// Fails exactly when a total would not fit its encoding.
pub fn walk_trace(batches: &Vec<BatchLayout>) -> (r: Result<(usize, usize, usize), ProbeError>)
    ensures
        match r {
            Ok((s, c, a)) => {
                &&& s == sum_size(trace_buffers(batches@))
                &&& c == sum_capacity(trace_buffers(batches@))
                &&& a == trace_buffers(batches@).len()
            },
            Err(e) => {
                &&& e == ProbeError::MetricOverflow
                &&& {
                    ||| sum_size(trace_buffers(batches@)) > usize::MAX
                    ||| sum_capacity(trace_buffers(batches@)) > usize::MAX
                    ||| trace_buffers(batches@).len() > usize::MAX
                }
            },
        },
{
    let mut size: usize = 0;
    let mut capacity: usize = 0;
    let mut allocations: usize = 0;
    let mut i: usize = 0;
    while i < batches.len()
        invariant
            i <= batches@.len(),
            size == sum_size(trace_buffers(batches@.take(i as int))),
            capacity == sum_capacity(trace_buffers(batches@.take(i as int))),
            allocations == trace_buffers(batches@.take(i as int)).len(),
        decreases batches@.len() - i,
    {
        proof {
            assert(batches@.take(i as int + 1).drop_last() =~= batches@.take(i as int));
            assert(batches@.take(i as int + 1).last() == batches@[i as int]);
            assert(trace_buffers(batches@.take(i as int + 1)) =~= trace_buffers(
                batches@.take(i as int),
            ) + batch_buffers(batches@[i as int]));
            lemma_sum_concat(
                trace_buffers(batches@.take(i as int)),
                batch_buffers(batches@[i as int]),
            );
            assert(batches@.take(batches@.len() as int) =~= batches@);
        }
        let ok = walk_batch(&batches[i], &mut size, &mut capacity, &mut allocations);
        if !ok {
            proof {
                lemma_trace_buffers_mono(batches@, i as int + 1, batches@.len() as int);
            }
            return Err(ProbeError::MetricOverflow);
        }
        i = i + 1;
    }
    proof {
        assert(batches@.take(batches@.len() as int) =~= batches@);
    }
    Ok((size, capacity, allocations))
}

/// Prefix trace sums never exceed the whole.
proof fn lemma_trace_buffers_mono(bs: Seq<BatchLayout>, n1: int, n2: int)
    requires
        0 <= n1 <= n2 <= bs.len(),
    ensures
        sum_size(trace_buffers(bs.take(n1))) <= sum_size(trace_buffers(bs.take(n2))),
        sum_capacity(trace_buffers(bs.take(n1))) <= sum_capacity(trace_buffers(bs.take(n2))),
        trace_buffers(bs.take(n1)).len() <= trace_buffers(bs.take(n2)).len(),
    decreases n2 - n1,
{
    if n1 < n2 {
        lemma_trace_buffers_mono(bs, n1, n2 - 1);
        assert(bs.take(n2).drop_last() =~= bs.take(n2 - 1));
        lemma_sum_concat(trace_buffers(bs.take(n2 - 1)), batch_buffers(bs.take(n2).last()));
        lemma_sum_nonneg(batch_buffers(bs.take(n2).last()));
    }
}

/// One buffer's byte terms are never negative.
proof fn lemma_buffer_nonneg(b: BufferDims)
    ensures
        b.len * b.elem_size >= 0,
        b.capacity * b.elem_size >= 0,
{
    assert(b.len * b.elem_size >= 0) by (nonlinear_arith);
    assert(b.capacity * b.elem_size >= 0) by (nonlinear_arith);
}

/// Buffer sums are never negative.
proof fn lemma_sum_nonneg(bs: Seq<BufferDims>)
    ensures
        sum_size(bs) >= 0,
        sum_capacity(bs) >= 0,
    decreases bs.len(),
{
    if bs.len() > 0 {
        lemma_sum_nonneg(bs.drop_last());
        assert(bs.last().len * bs.last().elem_size >= 0) by (nonlinear_arith);
        assert(bs.last().capacity * bs.last().elem_size >= 0) by (nonlinear_arith);
    }
}

/// An event the probe emits back through the telemetry path.
#[derive(Clone, Debug, PartialEq, Eq)]
pub enum ProbeEvent {
    /// One-time registration binding the operator identifier to its
    /// position in the operator tree.
    SizeOperator {
        /// The operator.
        operator: u64,
        /// Its address in the operator tree.
        address: Vec<u64>,
    },
    /// The size total changed by this many bytes.
    HeapSize {
        /// The operator.
        operator: u64,
        /// The change, new minus old.
        delta: i64,
    },
    /// The capacity total changed by this many bytes.
    HeapCapacity {
        /// The operator.
        operator: u64,
        /// The change, new minus old.
        delta: i64,
    },
    /// The allocation count changed by this much.
    HeapAllocations {
        /// The operator.
        operator: u64,
        /// The change, new minus old.
        delta: i64,
    },
}

/// The probe's state: unregistered until its first activation, then
/// tracking the previous snapshot. There is no terminal state; the probe
/// tracks until the scheduler ceases to activate it.
#[derive(Clone, Copy, Debug, PartialEq, Eq, Structural)]
pub enum ProbeState {
    /// Before the first activation.
    Unregistered,
    /// Tracking the previously reported triple.
    Tracking {
        /// Previously reported size total.
        size: i64,
        /// Previously reported capacity total.
        capacity: i64,
        /// Previously reported allocation count.
        allocations: i64,
    },
}

/// A probe snapshot is well formed when its totals are non-negative,
/// as every reported total is.
pub open spec fn probe_wf(state: ProbeState) -> bool {
    match state {
        ProbeState::Unregistered => true,
        ProbeState::Tracking { size, capacity, allocations } => size >= 0 && capacity >= 0
            && allocations >= 0,
    }
}

/// The previously reported triple: zero before the first activation.
pub open spec fn probe_old(state: ProbeState) -> (int, int, int) {
    match state {
        ProbeState::Unregistered => (0, 0, 0),
        ProbeState::Tracking { size, capacity, allocations } => (
            size as int,
            capacity as int,
            allocations as int,
        ),
    }
}

/// The delta events one activation emits, given the previous triple: one
/// event per metric whose total changed, in the order size, capacity,
/// allocations.
pub open spec fn delta_events(
    state: ProbeState,
    operator: u64,
    size: usize,
    capacity: usize,
    allocations: usize,
) -> Seq<ProbeEvent> {
    let (os, oc, oa) = probe_old(state);
    (if size != os {
        seq![ProbeEvent::HeapSize { operator, delta: (size - os) as i64 }]
    } else {
        Seq::<ProbeEvent>::empty()
    }) + (if capacity != oc {
        seq![ProbeEvent::HeapCapacity { operator, delta: (capacity - oc) as i64 }]
    } else {
        Seq::<ProbeEvent>::empty()
    }) + (if allocations != oa {
        seq![ProbeEvent::HeapAllocations { operator, delta: (allocations - oa) as i64 }]
    } else {
        Seq::<ProbeEvent>::empty()
    })
}

impl ProbeState {
    /// One scheduling activation: compare the measured triple against the
    /// previous snapshot and emit, per metric independently, an event
    /// carrying the non-zero delta; on the first activation, first emit the
    /// registration event. Fails exactly when a measured total does not fit
    /// the snapshot encoding, leaving the state untouched.
    pub fn activate(
        &mut self,
        operator: u64,
        address: &Vec<u64>,
        size: usize,
        capacity: usize,
        allocations: usize,
    ) -> (r: Result<Vec<ProbeEvent>, ProbeError>)
        requires
            probe_wf(*old(self)),
        ensures
            probe_wf(*final(self)),
            match r {
                Ok(events) => {
                    &&& size <= i64::MAX && capacity <= i64::MAX && allocations <= i64::MAX
                    &&& *final(self) == (ProbeState::Tracking {
                        size: size as i64,
                        capacity: capacity as i64,
                        allocations: allocations as i64,
                    })
                    &&& (*old(self)) is Tracking ==> events@ == delta_events(
                        *old(self),
                        operator,
                        size,
                        capacity,
                        allocations,
                    )
                    &&& (*old(self)) is Unregistered ==> {
                        &&& events@.len() >= 1
                        &&& events@[0] matches ProbeEvent::SizeOperator {
                            operator: op,
                            address: addr,
                        } && op == operator && addr@ == address@
                        &&& events@.skip(1) == delta_events(
                            *old(self),
                            operator,
                            size,
                            capacity,
                            allocations,
                        )
                    }
                },
                Err(e) => {
                    &&& *final(self) == *old(self)
                    &&& e == ProbeError::MetricOverflow
                    &&& (size > i64::MAX || capacity > i64::MAX || allocations > i64::MAX)
                },
            },
    {
        if size as u64 > i64::MAX as u64 || capacity as u64 > i64::MAX as u64
            || allocations as u64 > i64::MAX as u64 {
            return Err(ProbeError::MetricOverflow);
        }
        let size = size as i64;
        let capacity = capacity as i64;
        let allocations = allocations as i64;
        let (old_size, old_capacity, old_allocations, first) = match *self {
            ProbeState::Unregistered => (0i64, 0i64, 0i64, true),
            ProbeState::Tracking { size: s, capacity: c, allocations: a } => (s, c, a, false),
        };
        let mut events: Vec<ProbeEvent> = Vec::new();
        if first {
            events.push(ProbeEvent::SizeOperator { operator, address: clone_address(address) });
        }
        if size != old_size {
            events.push(ProbeEvent::HeapSize { operator, delta: size - old_size });
        }
        if capacity != old_capacity {
            events.push(ProbeEvent::HeapCapacity { operator, delta: capacity - old_capacity });
        }
        if allocations != old_allocations {
            events.push(
                ProbeEvent::HeapAllocations { operator, delta: allocations - old_allocations },
            );
        }
        *self = ProbeState::Tracking { size, capacity, allocations };
        proof {
            let ds = delta_events(
                *old(self),
                operator,
                size as usize,
                capacity as usize,
                allocations as usize,
            );
            if first {
                assert(events@.skip(1) =~= ds);
            } else {
                assert(events@ =~= ds);
            }
        }
        Ok(events)
    }
}

/// Copy an operator address.
fn clone_address(address: &Vec<u64>) -> (r: Vec<u64>)
    ensures
        r@ == address@,
{
    let mut r: Vec<u64> = Vec::new();
    let mut i: usize = 0;
    while i < address.len()
        invariant
            i <= address@.len(),
            r@ =~= address@.take(i as int),
        decreases address@.len() - i,
    {
        r.push(address[i]);
        i = i + 1;
        proof {
            assert(r@ =~= address@.take(i as int));
        }
    }
    proof {
        assert(address@.take(address@.len() as int) =~= address@);
    }
    r
}

/// Zero-delta suppression: if the measured triple equals the previous
/// snapshot, an activation emits no event at all for any of the three
/// metrics.
pub proof fn lemma_zero_delta_suppression(
    pre: ProbeState,
    events: Seq<ProbeEvent>,
    operator: u64,
    size: usize,
    capacity: usize,
    allocations: usize,
)
    requires
        events == delta_events(pre, operator, size, capacity, allocations),
        pre == (ProbeState::Tracking {
            size: size as i64,
            capacity: capacity as i64,
            allocations: allocations as i64,
        }),
        size <= i64::MAX,
        capacity <= i64::MAX,
        allocations <= i64::MAX,
    ensures
        events == Seq::<ProbeEvent>::empty(),
{
    assert(events =~= Seq::<ProbeEvent>::empty());
}

} // verus!
