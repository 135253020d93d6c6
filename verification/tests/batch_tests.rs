use bc_core::batch::{close_columns, parse_id, parse_row, Counts, Row};
use bc_core::error::BcError;
use bc_core::metadata::Timestamp;
use bc_core::model::{ImportBatchId, ProfileId};

fn counts(a: usize, b: usize, c: usize, d: usize) -> Counts {
    Counts { new_transactions: a, attached_postings: b, unresolved_path_postings: c, other_skipped_postings: d }
}

#[test]
fn the_skipped_total_is_the_sum_of_the_causes() {
    assert_eq!(counts(12, 3, 4, 1).skipped(), 5);
    assert_eq!(counts(0, 0, usize::MAX, 1).skipped(), usize::MAX);
}

#[test]
fn closing_writes_every_count_that_fits() {
    assert_eq!(close_columns(&counts(12, 3, 4, 1)), Ok((12, 3, 4, 1)));
    assert_eq!(
        close_columns(&counts(usize::MAX, 0, 0, 0)),
        Err(BcError::BadData("import count exceeds i64".to_owned()))
    );
}

#[test]
fn ids_read_as_decimal_digits() {
    assert_eq!(parse_id("0"), Some(0));
    assert_eq!(parse_id("18446744073709551615"), Some(u64::MAX));
    assert_eq!(parse_id("18446744073709551616"), None);
    assert_eq!(parse_id(""), None);
    assert_eq!(parse_id("12a"), None);
}

fn row(
    profile: Option<&str>,
    finished: Option<&str>,
    counts: (Option<i64>, Option<i64>, Option<i64>, Option<i64>),
) -> Row {
    (
        "41".to_owned(),
        profile.map(str::to_owned),
        "csv".to_owned(),
        "2023-11-14T22:13:20Z".to_owned(),
        finished.map(str::to_owned),
        None,
        counts.0,
        counts.1,
        counts.2,
        counts.3,
    )
}

#[test]
fn a_freshly_opened_batch_has_no_counts() {
    let batch = parse_row(row(Some("5"), None, (None, None, None, None))).expect("a valid row");
    assert_eq!(batch.id, ImportBatchId(41));
    assert_eq!(batch.profile_id, Some(ProfileId(5)));
    assert_eq!(batch.importer, "csv");
    assert_eq!(batch.started_at, Timestamp { seconds: 1_700_000_000, nanos: 0 });
    assert_eq!(batch.counts, None);
    assert_eq!(batch.finished_at, None);
}

#[test]
fn a_closed_batch_reports_its_counts() {
    let batch = parse_row(row(None, Some("2023-11-14T22:13:21Z"), (Some(12), Some(3), Some(4), Some(1)))).expect("a valid row");
    assert_eq!(batch.counts, Some(counts(12, 3, 4, 1)));
    assert_eq!(batch.finished_at, Some(Timestamp { seconds: 1_700_000_001, nanos: 0 }));
}

#[test]
fn a_partly_recorded_outcome_is_refused() {
    assert_eq!(
        parse_row(row(None, None, (Some(1), None, None, None))),
        Err(BcError::BadData("import batch 41 has a partly recorded outcome".to_owned()))
    );
}

#[test]
fn a_negative_count_is_refused() {
    assert_eq!(
        parse_row(row(None, None, (Some(1), Some(-1), Some(0), Some(0)))),
        Err(BcError::BadData("import count is negative".to_owned()))
    );
}

#[test]
fn a_malformed_timestamp_is_refused() {
    let mut bad = row(None, None, (None, None, None, None));
    bad.3 = "yesterday".to_owned();
    assert!(matches!(parse_row(bad), Err(BcError::BadData(_))));
}
