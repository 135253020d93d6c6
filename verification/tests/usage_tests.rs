use bc_core::error::BcError;
use bc_core::metadata::{MetaKey, MetaType, Timestamp};
use bc_core::model::ProfileId;
use bc_core::profile::{check_changed, check_new_name, check_renamed};
use bc_core::usage::{assemble, counts_from_rows, MetaKeyDef};

fn def(key: &str) -> MetaKeyDef {
    MetaKeyDef { key: MetaKey(key.to_owned()), ty: MetaType::Number, created_at: Timestamp { seconds: 0, nanos: 0 } }
}

#[test]
fn stored_counts_read_back_as_magnitudes() {
    let rows = vec![("invoice".to_owned(), 3, 1), ("note".to_owned(), -2, 0)];
    let counts = counts_from_rows(&rows);
    assert_eq!(counts, vec![("invoice".to_owned(), 3, 1), ("note".to_owned(), 2, 0)]);
}

#[test]
fn usage_sums_both_kinds_of_entry() {
    let tx = counts_from_rows(&vec![("invoice".to_owned(), 3, 1), ("note".to_owned(), 7, 0)]);
    let postings = counts_from_rows(&vec![("invoice".to_owned(), 2, 2)]);
    let usage = assemble(def("invoice"), &tx, &postings);
    assert_eq!(usage.key(), &MetaKey("invoice".to_owned()));
    assert_eq!(usage.transactions(), 3);
    assert_eq!(usage.postings(), 2);
    assert_eq!(usage.mismatched(), 3);
    assert_eq!(usage.total(), 5);
    assert_eq!(usage.def(), &def("invoice"));
}

#[test]
fn an_unused_key_has_no_usage() {
    let usage = assemble(def("absent"), &vec![("invoice".to_owned(), 3, 1)], &vec![]);
    assert_eq!((usage.transactions(), usage.postings(), usage.mismatched(), usage.total()), (0, 0, 0, 0));
}

#[test]
fn the_total_saturates() {
    let usage = assemble(def("k"), &vec![("k".to_owned(), u64::MAX, u64::MAX)], &vec![("k".to_owned(), 1, 1)]);
    assert_eq!(usage.total(), u64::MAX);
    assert_eq!(usage.mismatched(), u64::MAX);
}

#[test]
fn a_new_profile_name_must_be_free() {
    assert_eq!(check_new_name("bank", Err(BcError::NotFound("x".to_owned()))), Ok(()));
    assert_eq!(
        check_new_name("bank", Ok(ProfileId(3))),
        Err(BcError::InvalidInput("import profile 'bank' already exists".to_owned()))
    );
    assert_eq!(check_new_name("bank", Err(BcError::BadData("db".to_owned()))), Err(BcError::BadData("db".to_owned())));
}

#[test]
fn a_profile_may_keep_its_own_name() {
    assert_eq!(check_renamed(ProfileId(3), "bank", Ok(ProfileId(3))), Ok(()));
    assert_eq!(
        check_renamed(ProfileId(3), "bank", Ok(ProfileId(4))),
        Err(BcError::InvalidInput("import profile 'bank' already exists".to_owned()))
    );
    assert_eq!(check_renamed(ProfileId(3), "bank", Err(BcError::NotFound("x".to_owned()))), Ok(()));
}

#[test]
fn changing_a_missing_profile_is_not_found() {
    assert_eq!(check_changed(ProfileId(12), 0), Err(BcError::NotFound("import profile 12".to_owned())));
    assert_eq!(check_changed(ProfileId(12), 1), Ok(()));
}
