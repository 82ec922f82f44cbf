use compute_telemetry::s3::{
    accumulate_row_count, append_retry, extract_s3_bucket_path, row_action, up_to_less_equal,
    AppendAction, RowAction, UploadOutcome, UploaderPlan,
};

#[test]
fn bucket_url_splits_into_bucket_and_trimmed_path() {
    let (bucket, path) = extract_s3_bucket_path("s3://my-bucket/some/path/").unwrap();
    assert_eq!(bucket, "my-bucket");
    assert_eq!(path, "some/path");
    let (bucket, path) = extract_s3_bucket_path("s3://b//deep//").unwrap();
    assert_eq!(bucket, "b");
    assert_eq!(path, "deep");
    let (bucket, path) = extract_s3_bucket_path("s3://only-bucket").unwrap();
    assert_eq!(bucket, "only-bucket");
    assert_eq!(path, "");
}

#[test]
fn url_without_host_is_rejected() {
    assert!(extract_s3_bucket_path("/relative/path").is_none());
    assert!(extract_s3_bucket_path("not a url").is_none());
}

#[test]
fn file_paths_are_numbered_and_zero_padded() {
    let mut plan = UploaderPlan::new(
        "bucket".to_string(),
        "cargo_test/file".to_string(),
        "part".to_string(),
        6,
    );
    assert_eq!(plan.file_index, 0);
    let first = plan.start_new_file();
    assert_eq!(first, "cargo_test/file/part-0001.csv");
    assert!(plan.upload_open);
    plan.finish_upload();
    let second = plan.start_new_file();
    assert_eq!(second, "cargo_test/file/part-0002.csv");
    assert_eq!(plan.current_file_path(), "cargo_test/file/part-0002.csv");
}

#[test]
fn wide_file_indexes_keep_all_digits() {
    let mut plan = UploaderPlan::new("b".to_string(), "p".to_string(), "part".to_string(), 6);
    plan.file_index = 12345;
    assert_eq!(plan.current_file_path(), "p/part-12345.csv");
    plan.file_index = 999;
    assert_eq!(plan.current_file_path(), "p/part-0999.csv");
}

#[test]
fn append_follow_up_matches_the_outcome() {
    assert_eq!(append_retry(UploadOutcome::Accepted), AppendAction::Finish);
    assert_eq!(append_retry(UploadOutcome::ExceedsFileLimit), AppendAction::RotateAndRetry);
    assert_eq!(append_retry(UploadOutcome::Failed), AppendAction::Fail);
}

#[test]
fn rows_at_or_past_the_cutoff_are_skipped() {
    assert_eq!(row_action(Some(10), 10, 1), RowAction::Skip);
    assert_eq!(row_action(Some(10), 12, 1), RowAction::Skip);
    assert_eq!(row_action(Some(10), 9, 2), RowAction::Append(2));
    assert_eq!(row_action(Some(10), 9, -1), RowAction::FailRetraction);
    assert_eq!(row_action(None, 9, 3), RowAction::Append(3));
}

#[test]
fn cutoff_comparison_treats_empty_as_never_passed() {
    assert!(up_to_less_equal(Some(5), 5));
    assert!(!up_to_less_equal(Some(5), 4));
    assert!(!up_to_less_equal(None, u64::MAX));
}

#[test]
fn row_counts_accumulate_with_a_checked_total() {
    assert_eq!(accumulate_row_count(10, 5), Some(15));
    assert_eq!(accumulate_row_count(u64::MAX, 1), None);
}
