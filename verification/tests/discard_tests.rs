use bc_core::discard::{count_surviving, ensure_discardable, event_for, to_usize, Outcome, Plan, Swept};
use bc_core::error::BcError;
use bc_core::model::ImportBatchId;

#[test]
fn a_count_converts_saturating() {
    assert_eq!(to_usize(42), 42);
    assert_eq!(to_usize(0), 0);
    assert_eq!(to_usize(-1), usize::MAX);
}

#[test]
fn discarding_an_unknown_batch_is_not_found() {
    assert_eq!(ensure_discardable(ImportBatchId(7), &None), Err(BcError::NotFound("import batch 7".to_owned())));
}

#[test]
fn discarding_twice_is_refused() {
    assert_eq!(
        ensure_discardable(ImportBatchId(7), &Some(Some("2026-01-01T00:00:00Z".to_owned()))),
        Err(BcError::InvalidInput("import batch 7 has already been discarded".to_owned()))
    );
    assert_eq!(ensure_discardable(ImportBatchId(7), &Some(None)), Ok(()));
}

#[test]
fn references_sort_into_owned_adopted_and_tombstoned() {
    let refs = vec![
        (Some("p1".to_owned()), true, "t2".to_owned()),
        (Some("p2".to_owned()), false, "t1".to_owned()),
        (None, true, "t2".to_owned()),
        (Some("p3".to_owned()), true, "t3".to_owned()),
        (None, false, "t1".to_owned()),
    ];
    let plan = Plan::read(&refs);
    assert_eq!(plan.owned_postings, vec!["p1".to_owned(), "p3".to_owned()]);
    assert_eq!(plan.detached_adopted, 1);
    assert_eq!(plan.freed_tombstones, 2);
    assert_eq!(plan.touched, vec!["t1".to_owned(), "t2".to_owned(), "t3".to_owned()]);
}

#[test]
fn an_emptied_transaction_is_swept_with_its_collateral() {
    let mut swept = Swept::new();
    assert!(!swept.sweep("t1".to_owned(), 2, 9));
    assert!(swept.sweep("t2".to_owned(), 0, 3));
    assert!(swept.sweep("t3".to_owned(), 0, -4));
    assert_eq!(swept.survivors, vec!["t1".to_owned()]);
    assert_eq!(swept.removed_transactions, 2);
    assert_eq!(swept.other_batch_references_removed, usize::MAX, "a nonsensical count saturates");
}

#[test]
fn only_present_references_survive() {
    assert_eq!(count_surviving(&vec![1, 0, 3, 0, -2]), 2);
}

#[test]
fn the_discard_event_carries_every_count() {
    let outcome = Outcome {
        batch_id: ImportBatchId(3),
        removed_postings: 1,
        removed_transactions: 2,
        detached_adopted: 3,
        freed_tombstones: 4,
        other_batch_references_removed: 5,
        other_batch_references_tombstoned: 6,
        edited_postings: 7,
        reconciled_postings: 8,
        flagged_postings: 9,
    };
    let event = event_for(&outcome).expect("every count fits");
    assert_eq!(event.batch_id, ImportBatchId(3));
    assert_eq!(
        [
            event.removed_postings,
            event.removed_transactions,
            event.detached_adopted,
            event.freed_tombstones,
            event.other_batch_references_removed,
            event.other_batch_references_tombstoned,
            event.edited_postings,
            event.reconciled_postings,
            event.flagged_postings,
        ],
        [1, 2, 3, 4, 5, 6, 7, 8, 9]
    );
}
