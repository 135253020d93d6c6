use bc_core::decimal::Dec;
use bc_core::error::BcError;
use bc_core::metadata::{MetaEntry, MetaKey, MetaType, MetaValue};
use bc_core::model::{AccountId, Amount, CommodityCode};
use bc_core::storage::{entry_position, value_columns, written_mismatched, PathWalk, ValueColumns, WalkStep};

#[test]
fn an_amount_stores_its_code_beside_its_text() {
    let v = MetaValue::Amount(Amount::new(Dec::new(1250, 2), CommodityCode::new("AUD")));
    let c = value_columns(&v, None);
    assert_eq!(c, ValueColumns { text: "12.50 AUD".to_owned(), commodity: Some("AUD".to_owned()), account: None });
}

#[test]
fn an_account_value_stores_its_path_and_its_id() {
    let v = MetaValue::Account(AccountId(7));
    let c = value_columns(&v, Some("Assets:Bank".to_owned()));
    assert_eq!(c, ValueColumns { text: "Assets:Bank".to_owned(), commodity: None, account: Some("7".to_owned()) });
    let unresolved = value_columns(&v, None);
    assert_eq!(unresolved.text, "7");
    assert_eq!(unresolved.account.as_deref(), Some("7"));
}

#[test]
fn a_flagged_value_keeps_only_its_text() {
    let v = MetaValue::Account(AccountId(7));
    assert_eq!(ValueColumns::flagged(&v), ValueColumns { text: "7".to_owned(), commodity: None, account: None });
    assert_eq!(value_columns(&MetaValue::Boolean(true), None).text, "true");
}

#[test]
fn an_entry_is_flagged_when_its_type_differs_from_the_key() {
    let entry = MetaEntry { key: MetaKey("n".to_owned()), value: MetaValue::Boolean(true), mismatched: false };
    assert!(!written_mismatched(&entry, MetaType::Boolean));
    assert!(written_mismatched(&entry, MetaType::Number));
    let flagged = MetaEntry { mismatched: true, ..entry };
    assert!(written_mismatched(&flagged, MetaType::Boolean));
}

#[test]
fn positions_are_list_indices() {
    assert_eq!(entry_position(3), Ok(3));
    if usize::BITS == 64 {
        assert_eq!(entry_position(usize::MAX), Err(BcError::BadData("metadata position exceeds i64::MAX".to_owned())));
    }
}

#[test]
fn a_path_walk_names_the_account_root_first() {
    let (mut walk, first) = PathWalk::start(AccountId(3));
    assert_eq!(first, "3");
    assert_eq!(walk.step(Some(("Bank".to_owned(), Some("1".to_owned())))), Ok(WalkStep::Read("1".to_owned())));
    assert_eq!(walk.step(Some(("Assets".to_owned(), None))), Ok(WalkStep::Found("Assets:Bank".to_owned())));
    let (mut missing, _) = PathWalk::start(AccountId(4));
    assert_eq!(missing.step(None), Ok(WalkStep::Missing));
}

#[test]
fn a_cyclic_tree_stops_the_walk() {
    let (mut walk, _) = PathWalk::start(AccountId(5));
    for _ in 0..63 {
        assert_eq!(walk.step(Some(("Loop".to_owned(), Some("5".to_owned())))), Ok(WalkStep::Read("5".to_owned())));
    }
    assert_eq!(
        walk.step(Some(("Loop".to_owned(), Some("5".to_owned())))),
        Err(BcError::BadData("account 5 sits in a parent cycle or a tree deeper than 64 levels".to_owned()))
    );
}

use bc_core::import::{RawPosting, RawTransaction, SourceLocation};
use bc_core::import_exec::SkipCause;
use bc_core::model::Date;
use bc_core::tags::{distinct_tag_spellings, parse_tag_paths};

fn tagged(line: &str, tags: &[&str], leg_tags: &[&str]) -> RawTransaction {
    let mut leg = RawPosting::new("Assets:Bank", None);
    leg.tags = leg_tags.iter().map(|t| t.to_string()).collect();
    let mut raw = RawTransaction::new(Date { year: 2025, month: 1, day: 2 }, "X", vec![leg]);
    raw.tags = tags.iter().map(|t| t.to_string()).collect();
    raw.source_location = Some(SourceLocation { display: line.to_owned(), uri: None });
    raw
}

fn path(s: &String) -> Option<Vec<String>> {
    if s.is_empty() || s.split(':').any(|segment| segment.is_empty()) {
        None
    } else {
        Some(s.split(':').map(|segment| segment.to_owned()).collect())
    }
}

#[test]
fn each_tag_spelling_is_read_once_in_document_order() {
    let raws = vec![tagged("line 1", &["food", "bad::x", "food"], &["trip"]), tagged("line 2", &["trip", "home"], &["bad::x"])];
    let firsts = distinct_tag_spellings(&raws);
    assert_eq!(
        firsts,
        vec![
            ("line 1".to_owned(), "food".to_owned()),
            ("line 1".to_owned(), "bad::x".to_owned()),
            ("line 1".to_owned(), "trip".to_owned()),
            ("line 2".to_owned(), "home".to_owned()),
        ]
    );
}

#[test]
fn a_malformed_tag_is_reported_once_and_the_rest_parse() {
    let raws = vec![tagged("line 1", &["food", "bad::x"], &["trip:2025"]), tagged("line 2", &["bad::x"], &[])];
    let (parsed, diagnostics) = parse_tag_paths(&raws, &path);
    assert_eq!(parsed, vec![vec!["food".to_owned()], vec!["trip".to_owned(), "2025".to_owned()]]);
    assert_eq!(diagnostics.len(), 1);
    assert_eq!(diagnostics[0].location, "line 1");
    assert_eq!(diagnostics[0].cause, SkipCause::MalformedTag);
    assert_eq!(diagnostics[0].detail, "bad::x");
}
