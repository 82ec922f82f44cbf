use compute_telemetry::probe::{
    walk_trace, vec_size, BatchLayout, BufferDims, ProbeError, ProbeEvent, ProbeState,
};
use compute_telemetry::trace::{CompactionBound, TraceHandles};

fn dims(len: usize, capacity: usize, elem_size: usize) -> BufferDims {
    BufferDims { len, capacity, elem_size }
}

#[test]
fn first_activation_registers_and_reports() {
    let mut st = ProbeState::Unregistered;
    let address = vec![1u64, 4, 2];
    let events = st.activate(9, &address, 100, 160, 3).unwrap();
    assert_eq!(events.len(), 4);
    assert_eq!(
        events[0],
        ProbeEvent::SizeOperator { operator: 9, address: vec![1, 4, 2] }
    );
    assert_eq!(events[1], ProbeEvent::HeapSize { operator: 9, delta: 100 });
    assert_eq!(events[2], ProbeEvent::HeapCapacity { operator: 9, delta: 160 });
    assert_eq!(events[3], ProbeEvent::HeapAllocations { operator: 9, delta: 3 });
    assert_eq!(st, ProbeState::Tracking { size: 100, capacity: 160, allocations: 3 });
}

#[test]
fn unchanged_trace_emits_nothing() {
    // Zero-delta suppression: a second activation on the same triple is
    // silent for all three metrics.
    let mut st = ProbeState::Unregistered;
    st.activate(9, &vec![0], 100, 160, 3).unwrap();
    let events = st.activate(9, &vec![0], 100, 160, 3).unwrap();
    assert!(events.is_empty());
}

#[test]
fn only_changed_metrics_emit_deltas() {
    let mut st = ProbeState::Tracking { size: 100, capacity: 160, allocations: 3 };
    let events = st.activate(9, &vec![0], 80, 160, 4).unwrap();
    assert_eq!(events.len(), 2);
    assert_eq!(events[0], ProbeEvent::HeapSize { operator: 9, delta: -20 });
    assert_eq!(events[1], ProbeEvent::HeapAllocations { operator: 9, delta: 1 });
}

#[test]
fn metric_overflow_is_fatal_and_keeps_state() {
    let mut st = ProbeState::Tracking { size: 1, capacity: 2, allocations: 3 };
    let r = st.activate(9, &vec![0], usize::MAX, 0, 0);
    assert_eq!(r.unwrap_err(), ProbeError::MetricOverflow);
    assert_eq!(st, ProbeState::Tracking { size: 1, capacity: 2, allocations: 3 });
}

#[test]
fn walk_sums_batches_buffer_by_buffer() {
    let batches = vec![
        BatchLayout::ErrKey {
            keys: dims(2, 4, 8),
            offs: dims(3, 3, 4),
            weights: dims(2, 8, 8),
        },
        BatchLayout::RowKey {
            key_regions: vec![dims(5, 5, 1), dims(1, 2, 16)],
            offs: dims(6, 6, 4),
            weights: dims(5, 5, 8),
        },
    ];
    let (size, capacity, allocations) = walk_trace(&batches).unwrap();
    // First batch: 16 + 12 + 16; second: 5 + 16 + 24 + 40.
    assert_eq!(size, 16 + 12 + 16 + 5 + 16 + 24 + 40);
    // First batch: 32 + 12 + 64; second: 5 + 32 + 24 + 40.
    assert_eq!(capacity, 32 + 12 + 64 + 5 + 32 + 24 + 40);
    assert_eq!(allocations, 7);
}

#[test]
fn walk_covers_all_layout_variants() {
    let batches = vec![
        BatchLayout::RowRow {
            key_regions: vec![dims(1, 1, 8)],
            val_regions: vec![dims(2, 2, 8)],
            key_offs: dims(2, 2, 4),
            val_offs: dims(3, 3, 4),
            weights: dims(2, 2, 8),
        },
        BatchLayout::KeyErr {
            keys: dims(1, 1, 8),
            key_offs: dims(2, 2, 4),
            val_keys: dims(1, 1, 8),
            val_offs: dims(2, 2, 4),
            weights: dims(1, 1, 8),
        },
    ];
    let (size, _capacity, allocations) = walk_trace(&batches).unwrap();
    assert_eq!(size, 8 + 16 + 8 + 12 + 16 + 8 + 8 + 8 + 8 + 8);
    assert_eq!(allocations, 10);
}

#[test]
fn walk_overflow_is_fatal() {
    let batches = vec![BatchLayout::ErrKey {
        keys: dims(usize::MAX, usize::MAX, 2),
        offs: dims(0, 0, 4),
        weights: dims(0, 0, 8),
    }];
    assert_eq!(walk_trace(&batches).unwrap_err(), ProbeError::MetricOverflow);
}

#[test]
fn vec_size_measures_immediate_allocation() {
    let data: Vec<u64> = vec![1, 2, 3];
    let d = vec_size(&data);
    assert_eq!(d.len, 3);
    assert_eq!(d.elem_size, 8);
    assert!(d.capacity >= 3);
}

#[test]
fn probe_handle_does_not_move_the_compaction_bound() {
    // Compaction isolation: a second reader observes the same effective
    // bound before and after the probe attaches.
    let mut t = TraceHandles::new();
    t.register_reader(CompactionBound::UpTo(5));
    t.register_reader(CompactionBound::UpTo(3));
    assert_eq!(t.effective(), CompactionBound::UpTo(3));
    t.attach_probe();
    assert_eq!(t.effective(), CompactionBound::UpTo(3));
    assert_eq!(t.readers.len(), 3);
}

#[test]
fn probe_alone_leaves_compaction_unrestricted() {
    let mut t = TraceHandles::new();
    t.attach_probe();
    assert_eq!(t.effective(), CompactionBound::Unrestricted);
}
