use compute_telemetry::arrayord::{ArrayOrd, ColumnData, ColumnError};
use std::cmp::Ordering;

fn int_col(values: Vec<i64>, nulls: Option<Vec<bool>>) -> ArrayOrd {
    ArrayOrd::new(&ColumnData::Int64 { nulls, values }).unwrap()
}

#[test]
fn numbers_compare_by_value() {
    let a = int_col(vec![1, 5, 5], None);
    let b = int_col(vec![2, 5, -3], None);
    assert_eq!(a.at(0).cmp(&b.at(0)), Ordering::Less);
    assert_eq!(a.at(1).cmp(&b.at(1)), Ordering::Equal);
    assert_eq!(a.at(2).cmp(&b.at(2)), Ordering::Greater);
    assert_eq!(a.at(1).partial_cmp(&b.at(1)), Some(Ordering::Equal));
    assert!(a.at(1).eq(&b.at(1)));
}

#[test]
fn absent_entries_sort_last() {
    let a = int_col(vec![0, 9], Some(vec![true, false]));
    let b = int_col(vec![7, 0], Some(vec![false, true]));
    assert_eq!(a.at(0).cmp(&b.at(0)), Ordering::Greater);
    assert_eq!(b.at(1).cmp(&a.at(0)), Ordering::Equal);
    assert_eq!(a.at(1).cmp(&b.at(1)), Ordering::Less);
}

#[test]
fn text_and_bytes_compare_lexicographically() {
    let a = ArrayOrd::new(&ColumnData::Utf8 {
        nulls: None,
        values: vec!["apple".to_string(), "b".to_string()],
    })
    .unwrap();
    let b = ArrayOrd::new(&ColumnData::Utf8 {
        nulls: None,
        values: vec!["apricot".to_string(), "b".to_string()],
    })
    .unwrap();
    assert_eq!(a.at(0).cmp(&b.at(0)), Ordering::Less);
    assert_eq!(a.at(1).cmp(&b.at(1)), Ordering::Equal);
    let x = ArrayOrd::new(&ColumnData::Binary {
        nulls: None,
        values: vec![vec![1, 2], vec![1, 2, 3]],
    })
    .unwrap();
    assert_eq!(x.at(0).cmp(&x.at(1)), Ordering::Less);
    assert_eq!(x.at(1).cmp(&x.at(0)), Ordering::Greater);
}

#[test]
fn lists_compare_element_by_element_shorter_first() {
    // Entry 0 holds [1, 2], entry 1 holds [1, 2, 3], entry 2 holds [1, 9].
    let col = ArrayOrd::new(&ColumnData::List {
        nulls: None,
        offsets: vec![0, 2, 5, 7],
        values: Box::new(ColumnData::Int64 {
            nulls: None,
            values: vec![1, 2, 1, 2, 3, 1, 9],
        }),
    })
    .unwrap();
    assert_eq!(col.at(0).cmp(&col.at(1)), Ordering::Less);
    assert_eq!(col.at(1).cmp(&col.at(0)), Ordering::Greater);
    assert_eq!(col.at(0).cmp(&col.at(2)), Ordering::Less);
    assert_eq!(col.at(0).cmp(&col.at(0)), Ordering::Equal);
}

#[test]
fn structs_compare_field_by_field() {
    let col = ArrayOrd::new(&ColumnData::Struct {
        len: 2,
        nulls: None,
        fields: vec![
            ColumnData::Int64 { nulls: None, values: vec![1, 1] },
            ColumnData::Utf8 {
                nulls: None,
                values: vec!["a".to_string(), "b".to_string()],
            },
        ],
    })
    .unwrap();
    assert_eq!(col.at(0).cmp(&col.at(1)), Ordering::Less);
    assert_eq!(col.at(1).cmp(&col.at(1)), Ordering::Equal);
}

#[test]
fn shape_checks_reject_inconsistent_columns() {
    let r = ArrayOrd::new(&ColumnData::Int64 {
        nulls: Some(vec![false]),
        values: vec![1, 2],
    });
    assert_eq!(r.unwrap_err(), ColumnError::NullMaskLength);
    let r = ArrayOrd::new(&ColumnData::List {
        nulls: None,
        offsets: vec![0, 3, 2],
        values: Box::new(ColumnData::Int64 { nulls: None, values: vec![1, 2, 3] }),
    });
    assert_eq!(r.unwrap_err(), ColumnError::BadOffsets);
    let r = ArrayOrd::new(&ColumnData::List {
        nulls: None,
        offsets: vec![0, 9],
        values: Box::new(ColumnData::Int64 { nulls: None, values: vec![1] }),
    });
    assert_eq!(r.unwrap_err(), ColumnError::BadOffsets);
    let r = ArrayOrd::new(&ColumnData::Struct {
        len: 2,
        nulls: None,
        fields: vec![ColumnData::Int64 { nulls: None, values: vec![1] }],
    });
    assert_eq!(r.unwrap_err(), ColumnError::FieldLength);
}

#[test]
fn null_columns_compare_equal() {
    let a = ArrayOrd::new(&ColumnData::Null { len: 2 }).unwrap();
    assert_eq!(a.len(), 2);
    assert_eq!(a.at(0).cmp(&a.at(1)), Ordering::Equal);
}
