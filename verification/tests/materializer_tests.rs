use compute_telemetry::changelog::{
    DataflowRow, DependencyRow, FrontierDelayRow, FrontierRow, PeekDurationRow, PeekRow,
    SourceFrontierRow,
};
use compute_telemetry::event::Peek;
use compute_telemetry::ids::GlobalId;
use compute_telemetry::materializer::{
    count_frontier_delays, count_peek_durations, pack_dataflow, pack_dependency,
    pack_frontier, pack_frontier_delay, pack_peek, pack_peek_duration, pack_source_frontier,
    permutation_values, project_row, reduction_update, route, LogDatum, LogVariant,
};

const D: GlobalId = GlobalId::User(7);
const S: GlobalId = GlobalId::System(3);

#[test]
fn route_consults_both_sets() {
    let active = vec![LogVariant::DataflowCurrent, LogVariant::PeekCurrent];
    let sinks = vec![
        (LogVariant::PeekCurrent, GlobalId::User(1)),
        (LogVariant::DataflowCurrent, GlobalId::User(2)),
        (LogVariant::DataflowCurrent, GlobalId::User(3)),
    ];
    let r = route(LogVariant::DataflowCurrent, &active, &sinks);
    assert!(r.arrange);
    assert_eq!(r.sink, Some(1));
    let r = route(LogVariant::FrontierDelay, &active, &sinks);
    assert!(!r.arrange);
    assert_eq!(r.sink, None);
}

#[test]
fn permutation_complements_the_key() {
    let key = vec![1usize];
    let value = permutation_values(&key, 3);
    assert_eq!(value, vec![0, 2]);
    let value = permutation_values(&vec![], 2);
    assert_eq!(value, vec![0, 1]);
}

#[test]
fn projection_splits_rows() {
    let row = vec![LogDatum::Id(D), LogDatum::U64(0), LogDatum::I64(5)];
    let key_cols = vec![1usize];
    let val_cols = permutation_values(&key_cols, 3);
    let key = project_row(&row, &key_cols);
    let val = project_row(&row, &val_cols);
    assert_eq!(key, vec![LogDatum::U64(0)]);
    assert_eq!(val, vec![LogDatum::Id(D), LogDatum::I64(5)]);
}

#[test]
fn count_totals_sum_per_row_and_drop_zeroes() {
    let row_a = FrontierDelayRow { dataflow: D, source: S, worker: 0, delay_pow_ns: 512 };
    let row_b = FrontierDelayRow { dataflow: D, source: S, worker: 0, delay_pow_ns: 1024 };
    let updates = vec![(row_a, 1), (row_b, 1), (row_a, 2), (row_b, -1)];
    let totals = count_frontier_delays(&updates).unwrap();
    assert_eq!(totals, vec![(row_a, 3)]);
}

#[test]
fn count_totals_overflow_is_fatal() {
    let row = PeekDurationRow { worker: 0, delay_pow_ns: 512 };
    let updates = vec![(row, i64::MAX), (row, 1)];
    assert!(count_peek_durations(&updates).is_err());
}

#[test]
fn reduction_update_retracts_previous_output() {
    let computed = vec![(vec![LogDatum::U64(1)], 2i64)];
    let existing = vec![(vec![LogDatum::U64(9)], 3i64)];
    let change = reduction_update(&computed, &existing);
    assert_eq!(change.len(), 2);
    assert_eq!(change[0], (vec![LogDatum::U64(1)], 2));
    assert_eq!(change[1], (vec![LogDatum::U64(9)], -3));
}

#[test]
fn rows_pack_in_stable_column_order() {
    let d = pack_dataflow(&DataflowRow { dataflow: D, worker: 1 });
    assert_eq!(d, vec![LogDatum::Id(D), LogDatum::U64(1)]);
    let d = pack_dependency(&DependencyRow { dataflow: D, source: S, worker: 1 });
    assert_eq!(d, vec![LogDatum::Id(D), LogDatum::Id(S), LogDatum::U64(1)]);
    let d = pack_frontier(&FrontierRow { dataflow: D, worker: 1, logical_time: 5 });
    assert_eq!(d, vec![LogDatum::Id(D), LogDatum::U64(1), LogDatum::I64(5)]);
    let d = pack_source_frontier(&SourceFrontierRow {
        dataflow: D,
        source: S,
        worker: 1,
        logical_time: 5,
    });
    assert_eq!(d, vec![LogDatum::Id(D), LogDatum::Id(S), LogDatum::U64(1), LogDatum::I64(5)]);
    let d = pack_frontier_delay(
        &FrontierDelayRow { dataflow: D, source: S, worker: 1, delay_pow_ns: 512 },
        4,
    );
    assert_eq!(
        d,
        vec![
            LogDatum::Id(D),
            LogDatum::Id(S),
            LogDatum::U64(1),
            LogDatum::U64(512),
            LogDatum::I64(4),
        ]
    );
    let peek = Peek::new(GlobalId::User(2), 9, 77u128);
    let d = pack_peek(&PeekRow { peek, worker: 1 });
    assert_eq!(
        d,
        vec![
            LogDatum::Uuid(77),
            LogDatum::U64(1),
            LogDatum::Id(GlobalId::User(2)),
            LogDatum::I64(9),
        ]
    );
    let d = pack_peek_duration(&PeekDurationRow { worker: 1, delay_pow_ns: 512 }, 4);
    assert_eq!(d, vec![LogDatum::U64(1), LogDatum::U64(512), LogDatum::U64(4)]);
}
