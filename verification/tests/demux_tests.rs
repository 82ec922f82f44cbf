use compute_telemetry::changelog::{FatalError, Notice};
use compute_telemetry::demux::DemuxState;
use compute_telemetry::event::{ComputeEvent, Peek};
use compute_telemetry::ids::GlobalId;

const D: GlobalId = GlobalId::User(7);
const S: GlobalId = GlobalId::System(3);

#[test]
fn create_emits_dataflow_current() {
    let mut st = DemuxState::new();
    let out = st.handle_event(1, 100, 0, ComputeEvent::Dataflow(D, true)).unwrap();
    assert_eq!(out.dataflow.len(), 1);
    let u = &out.dataflow[0];
    assert_eq!(u.row.dataflow, D);
    assert_eq!(u.row.worker, 0);
    assert_eq!(u.diff, 1);
    assert_eq!(u.time_ms, 1);
    assert!(out.notices.is_empty());
    assert_eq!(st.active.len(), 1);
}

#[test]
fn dependency_net_zero_over_create_dependency_drop() {
    let mut st = DemuxState::new();
    st.handle_event(1, 100, 0, ComputeEvent::Dataflow(D, true)).unwrap();
    let o2 = st
        .handle_event(1, 200, 0, ComputeEvent::DataflowDependency { dataflow: D, source: S })
        .unwrap();
    assert_eq!(o2.dependency.len(), 1);
    assert_eq!(o2.dependency[0].diff, 1);
    let o3 = st.handle_event(1, 300, 0, ComputeEvent::Dataflow(D, false)).unwrap();
    assert_eq!(o3.dependency.len(), 1);
    assert_eq!(o3.dependency[0].diff, -1);
    assert_eq!(o3.dependency[0].row, o2.dependency[0].row);
    let net: i64 = o2.dependency.iter().map(|u| u.diff).sum::<i64>()
        + o3.dependency.iter().map(|u| u.diff).sum::<i64>();
    assert_eq!(net, 0);
    assert!(st.active.is_empty());
}

#[test]
fn peek_duration_rounds_to_next_power_of_two() {
    // One millisecond buckets; install at 1000 ns, retire at 1500 ns:
    // 500 ns elapsed becomes the 512 ns bucket, at the next boundary.
    let interval_ns: u64 = 1_000_000;
    let bucket_ms = compute_telemetry::time::bucket_ms(interval_ns);
    assert_eq!(bucket_ms, 1);
    let mut st = DemuxState::new();
    let peek = Peek::new(GlobalId::User(1), 4, 0xabcdu128);
    st.handle_event(bucket_ms, 1000, 0, ComputeEvent::Peek(peek, true)).unwrap();
    let out = st.handle_event(bucket_ms, 1500, 0, ComputeEvent::Peek(peek, false)).unwrap();
    assert_eq!(out.peek_duration.len(), 1);
    let u = &out.peek_duration[0];
    assert_eq!(u.row.worker, 0);
    assert_eq!(u.row.delay_pow_ns, 512);
    assert_eq!(u.diff, 1);
    assert_eq!(u.time_ms, 1);
    assert!(st.peeks.is_empty());
}

#[test]
fn orphan_source_frontier_leaves_tracker_unchanged() {
    let mut st = DemuxState::new();
    let out = st
        .handle_event(1, 100, 0, ComputeEvent::SourceFrontier(D, S, 5, 1))
        .unwrap();
    assert_eq!(out.source_frontier.len(), 1);
    assert_eq!(out.source_frontier[0].diff, 1);
    assert!(st.trackers.is_empty());
    assert!(out.notices.is_empty());
}

#[test]
fn frontier_delay_end_to_end() {
    // A source frontier advance at instant 100 that the dataflow frontier
    // passes at instant 400: 300 ns of delay become the 512 ns bucket.
    let mut st = DemuxState::new();
    st.handle_event(1, 50, 0, ComputeEvent::Dataflow(D, true)).unwrap();
    st.handle_event(1, 60, 0, ComputeEvent::DataflowDependency { dataflow: D, source: S })
        .unwrap();
    st.handle_event(1, 100, 0, ComputeEvent::SourceFrontier(D, S, 5, 1)).unwrap();
    let out = st.handle_event(1, 400, 0, ComputeEvent::Frontier(D, 5, 1)).unwrap();
    assert_eq!(out.frontier.len(), 1);
    assert_eq!(out.frontier_delay.len(), 1);
    let u = &out.frontier_delay[0];
    assert_eq!(u.row.dataflow, D);
    assert_eq!(u.row.source, S);
    assert_eq!(u.row.worker, 0);
    assert_eq!(u.row.delay_pow_ns, 512);
    assert_eq!(u.diff, 1);
}

#[test]
fn drop_retracts_accumulated_histogram() {
    let mut st = DemuxState::new();
    st.handle_event(1, 50, 0, ComputeEvent::Dataflow(D, true)).unwrap();
    st.handle_event(1, 100, 0, ComputeEvent::SourceFrontier(D, S, 5, 1)).unwrap();
    st.handle_event(1, 400, 0, ComputeEvent::Frontier(D, 5, 1)).unwrap();
    let out = st.handle_event(1, 500, 0, ComputeEvent::Dataflow(D, false)).unwrap();
    assert_eq!(out.frontier_delay.len(), 1);
    assert_eq!(out.frontier_delay[0].row.delay_pow_ns, 512);
    assert_eq!(out.frontier_delay[0].diff, -1);
    assert!(st.trackers.is_empty());
    assert!(st.active.is_empty());
}

#[test]
fn frontier_pops_only_passed_times() {
    let mut st = DemuxState::new();
    st.handle_event(1, 10, 0, ComputeEvent::Dataflow(D, true)).unwrap();
    st.handle_event(1, 20, 0, ComputeEvent::SourceFrontier(D, S, 5, 1)).unwrap();
    st.handle_event(1, 30, 0, ComputeEvent::SourceFrontier(D, S, 9, 1)).unwrap();
    // The frontier passes 5 but not 9: one pop, one entry left queued.
    let out = st.handle_event(1, 40, 0, ComputeEvent::Frontier(D, 6, 1)).unwrap();
    assert_eq!(out.frontier_delay.len(), 1);
    assert_eq!(st.trackers.len(), 1);
    assert_eq!(st.trackers[0].1.len(), 1);
    assert_eq!(st.trackers[0].1[0].1.queue.len(), 1);
    assert_eq!(st.trackers[0].1[0].1.queue[0].0, 9);
}

#[test]
fn frontier_retreat_touches_no_queue() {
    let mut st = DemuxState::new();
    st.handle_event(1, 10, 0, ComputeEvent::Dataflow(D, true)).unwrap();
    st.handle_event(1, 20, 0, ComputeEvent::SourceFrontier(D, S, 5, 1)).unwrap();
    let out = st.handle_event(1, 30, 0, ComputeEvent::Frontier(D, 9, -1)).unwrap();
    assert_eq!(out.frontier.len(), 1);
    assert_eq!(out.frontier[0].diff, -1);
    assert!(out.frontier_delay.is_empty());
    assert_eq!(st.trackers[0].1[0].1.queue.len(), 1);
}

#[test]
fn duplicate_peek_install_notices_and_overwrites() {
    let mut st = DemuxState::new();
    let peek = Peek::new(GlobalId::User(1), 4, 99u128);
    st.handle_event(1, 100, 0, ComputeEvent::Peek(peek, true)).unwrap();
    let out = st.handle_event(1, 200, 0, ComputeEvent::Peek(peek, true)).unwrap();
    assert_eq!(out.notices.len(), 1);
    assert!(matches!(out.notices[0], Notice::DuplicatePeekInstall { worker: 0, uuid: 99 }));
    // The stash now holds the second instant: retiring at 300 measures 100
    // ns, which rounds to 128.
    let out = st.handle_event(1, 300, 0, ComputeEvent::Peek(peek, false)).unwrap();
    assert_eq!(out.peek_duration.len(), 1);
    assert_eq!(out.peek_duration[0].row.delay_pow_ns, 128);
}

#[test]
fn retire_without_install_notices_and_emits_no_duration() {
    let mut st = DemuxState::new();
    let peek = Peek::new(GlobalId::User(1), 4, 5u128);
    let out = st.handle_event(1, 100, 3, ComputeEvent::Peek(peek, false)).unwrap();
    assert_eq!(out.peek.len(), 1);
    assert_eq!(out.peek[0].diff, -1);
    assert!(out.peek_duration.is_empty());
    assert!(matches!(out.notices[0], Notice::RetireWithoutInstall { worker: 3, uuid: 5 }));
}

#[test]
fn drop_of_unknown_dataflow_notices() {
    let mut st = DemuxState::new();
    let out = st.handle_event(1, 100, 0, ComputeEvent::Dataflow(D, false)).unwrap();
    assert_eq!(out.dataflow[0].diff, -1);
    assert!(matches!(out.notices[0], Notice::DropOfUnknownDataflow { .. }));
}

#[test]
fn dependency_for_inactive_dataflow_is_dropped() {
    let mut st = DemuxState::new();
    let out = st
        .handle_event(1, 100, 0, ComputeEvent::DataflowDependency { dataflow: D, source: S })
        .unwrap();
    assert!(out.dependency.is_empty());
    assert!(matches!(out.notices[0], Notice::DependencyForInactiveDataflow { .. }));
    assert!(st.active.is_empty());
}

#[test]
fn delay_overflow_is_fatal_and_keeps_state() {
    let mut st = DemuxState::new();
    let peek = Peek::new(GlobalId::User(1), 4, 5u128);
    st.handle_event(1, 0, 0, ComputeEvent::Peek(peek, true)).unwrap();
    let r = st.handle_event(1, u64::MAX, 0, ComputeEvent::Peek(peek, false));
    assert_eq!(r.unwrap_err(), FatalError::DelayOverflow);
    assert_eq!(st.peeks.len(), 1);
}

#[test]
fn events_are_bucketed_to_the_next_boundary() {
    // Ten-millisecond buckets: an event at 12 ms lands in the 20 ms bucket,
    // one exactly on a boundary in the next bucket after it.
    let bucket_ms = compute_telemetry::time::bucket_ms(10_000_000);
    assert_eq!(bucket_ms, 10);
    let mut st = DemuxState::new();
    let out = st
        .handle_event(bucket_ms, 12_000_000, 0, ComputeEvent::Dataflow(D, true))
        .unwrap();
    assert_eq!(out.dataflow[0].time_ms, 20);
    let out = st
        .handle_event(bucket_ms, 20_000_000, 0, ComputeEvent::Dataflow(D, true))
        .unwrap();
    assert_eq!(out.dataflow[0].time_ms, 30);
}

#[test]
fn batches_process_head_to_tail() {
    let mut st = DemuxState::new();
    let events = vec![
        (50, 0, ComputeEvent::Dataflow(D, true)),
        (60, 0, ComputeEvent::DataflowDependency { dataflow: D, source: S }),
        (100, 0, ComputeEvent::SourceFrontier(D, S, 5, 1)),
        (400, 0, ComputeEvent::Frontier(D, 5, 1)),
    ];
    let outs = st.handle_batch(1, &events).unwrap();
    assert_eq!(outs.len(), 4);
    assert_eq!(outs[3].frontier_delay.len(), 1);
    assert_eq!(outs[3].frontier_delay[0].row.delay_pow_ns, 512);
}

#[test]
fn a_fatal_batch_keeps_the_prefix_state() {
    let mut st = DemuxState::new();
    let peek = Peek::new(GlobalId::User(1), 4, 5u128);
    let events = vec![
        (0, 0, ComputeEvent::Peek(peek, true)),
        (u64::MAX, 0, ComputeEvent::Peek(peek, false)),
    ];
    assert_eq!(st.handle_batch(1, &events).unwrap_err(), FatalError::DelayOverflow);
    assert_eq!(st.peeks.len(), 1);
}
