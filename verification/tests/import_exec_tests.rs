use bc_core::decimal::Dec;
use bc_core::error::BcError;
use bc_core::import::{RawPosting, RawTransaction};
use bc_core::import_exec::{charge_cause, row_local_value, Bucket, Counts, SkipCause, Warning};
use bc_core::model::{AccountId, Amount, CommodityCode, Date};

fn split_raw(description: &str) -> RawTransaction {
    RawTransaction::new(
        Date { year: 2025, month: 6, day: 27 },
        description,
        vec![
            RawPosting::new("Expenses:Food", Some(Amount::new(Dec::new(50, 0), CommodityCode::new("AUD")))),
            RawPosting::new("Assets:Bank", None),
        ],
    )
}

#[test]
fn a_bad_row_is_skipped_and_charged_to_the_run() {
    let raw = split_raw("COFFEE");
    let mut counts = Counts::default();

    let outcome = row_local_value::<()>(
        Err(BcError::BadData("two or more elided postings".into())),
        &raw,
        "creating the transaction",
        2,
        &mut counts,
    )
    .expect("a bad row must not abort the run");

    assert!(outcome.is_none(), "the row is skipped");
    assert_eq!(counts.other_skipped_postings, 2, "and its legs are charged");
    assert_eq!(counts.new_transactions, 0);
}

#[test]
fn a_broken_invariant_aborts_the_run() {
    let raw = split_raw("COFFEE");
    let mut counts = Counts::default();

    let result = row_local_value::<()>(
        Err(BcError::InvalidInput("posting is not on this tx".into())),
        &raw,
        "attaching the source reference",
        2,
        &mut counts,
    );

    assert!(matches!(result, Err(BcError::InvalidInput(_))), "an internal invariant violation must surface, got {result:?}");
    assert_eq!(counts.other_skipped_postings, 0, "and must not be absorbed into the skip count");
}

#[test]
fn a_successful_step_yields_its_value_and_charges_nothing() {
    let raw = split_raw("COFFEE");
    let mut counts = Counts::default();

    let outcome = row_local_value(Ok(7_u8), &raw, "creating the transaction", 2, &mut counts).expect("success");

    assert_eq!(outcome, Some(7_u8));
    assert_eq!(counts.other_skipped_postings, 0);
}

#[test]
fn a_unique_violation_is_row_local() {
    let raw = split_raw("COFFEE");
    let mut counts = Counts::default();
    let outcome = row_local_value::<()>(
        Err(BcError::Database { unique_violation: true, message: "UNIQUE constraint failed".into() }),
        &raw,
        "attaching",
        3,
        &mut counts,
    )
    .expect("row-local");
    assert!(outcome.is_none());
    assert_eq!(counts.other_skipped_postings, 3);
    assert_eq!(counts.diagnostics.last().expect("noted").location, "<unknown source>");
}

#[test]
fn charges_reach_both_their_cause_and_their_column() {
    let mut counts = Counts::new();
    counts.charge(SkipCause::UnresolvedAccount, 2);
    counts.charge(SkipCause::MalformedPath, 1);
    counts.charge(SkipCause::UnresolvedAccount, 3);
    assert_eq!(counts.unresolved_account_postings, 5);
    assert_eq!(counts.other_skipped_postings, 1);
    assert_eq!(counts.skipped(), 6, "every cause sums to the total skipped");
    assert_eq!(counts.charged_by_cause, vec![(SkipCause::UnresolvedAccount, 5), (SkipCause::MalformedPath, 1)]);
}

#[test]
fn the_tally_keeps_causes_in_declaration_order() {
    let mut tally = Vec::new();
    charge_cause(&mut tally, SkipCause::RowLocalFailure, 1);
    charge_cause(&mut tally, SkipCause::UnresolvedCommodity, 2);
    charge_cause(&mut tally, SkipCause::RowLocalFailure, usize::MAX);
    assert_eq!(tally, vec![(SkipCause::UnresolvedCommodity, 2), (SkipCause::RowLocalFailure, usize::MAX)]);
}

#[test]
fn a_cause_charged_nothing_is_not_listed() {
    let mut tally = Vec::new();
    charge_cause(&mut tally, SkipCause::MultiOwnerConflict, 0);
    assert_eq!(tally, vec![]);
    let mut counts = Counts::new();
    counts.charge(SkipCause::MultiOwnerConflict, 0);
    assert!(counts.charged_by_cause.is_empty(), "a zero charge lists no cause");
    assert_eq!(counts.skipped(), 0);
}

#[test]
fn causes_fall_into_their_buckets() {
    assert_eq!(Bucket::of(SkipCause::UnresolvedAccount), Bucket::UnresolvedAccount);
    assert_eq!(Bucket::of(SkipCause::UnresolvedCommodity), Bucket::UnresolvedCommodity);
    assert_eq!(Bucket::of(SkipCause::FailedCorroboration), Bucket::Other);
    assert_eq!(SkipCause::RowLocalFailure.label(), "write failure");
    assert_eq!(SkipCause::AmbiguousResidual.label(), "ambiguous residual");
}

#[test]
fn each_warning_is_reported_once() {
    let mut counts = Counts::new();
    let w = Warning::PostingBeforeAccountOpened { account_id: AccountId(4) };
    counts.push_warnings(vec![w.clone(), w.clone()]);
    counts.push_warnings(vec![
        w,
        Warning::PostingIntoArchivedAccount { account_id: AccountId(1), account_path: "Assets:Old".into() },
    ]);
    assert_eq!(counts.warnings, vec![Warning::PostingBeforeAccountOpened { account_id: AccountId(4) }]);
}
