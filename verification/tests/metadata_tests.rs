use bc_core::metadata::{subtract_merged, union, MetaEntry, MetaKey, MetaValue, Owner};

fn entry(key: &str, text: &str) -> MetaEntry {
    MetaEntry { key: MetaKey(key.to_owned()), value: MetaValue::Text(text.to_owned()), mismatched: false }
}

fn pairs(entries: &[MetaEntry]) -> Vec<(&str, &MetaValue)> {
    entries.iter().map(|e| (e.key.0.as_str(), &e.value)).collect()
}

#[test]
fn union_appends_and_drops_only_exact_duplicates() {
    let survivor = vec![entry("payee", "Generic Grocer"), entry("note", "shared")];
    let absorbed = vec![entry("note", "shared"), entry("note", "distinct"), entry("payee", "Other Grocer")];

    let merged = union(&survivor, &absorbed);

    assert_eq!(
        pairs(&merged),
        vec![
            ("payee", &MetaValue::Text("Generic Grocer".to_owned())),
            ("note", &MetaValue::Text("shared".to_owned())),
            ("note", &MetaValue::Text("distinct".to_owned())),
            ("payee", &MetaValue::Text("Other Grocer".to_owned())),
        ],
        "a repeated key is two entries; only the exact duplicate is dropped"
    );
}

#[test]
fn union_keeps_duplicates_the_absorbed_leg_carries_alone() {
    let survivor = vec![entry("payee", "Generic Grocer")];
    let absorbed = vec![entry("note", "twice"), entry("note", "twice")];

    let merged = union(&survivor, &absorbed);

    assert_eq!(
        pairs(&merged),
        vec![
            ("payee", &MetaValue::Text("Generic Grocer".to_owned())),
            ("note", &MetaValue::Text("twice".to_owned())),
            ("note", &MetaValue::Text("twice".to_owned())),
        ],
        "redundancy is judged against the survivor, so the absorbed leg keeps its own repeats"
    );
}

#[test]
fn subtracting_what_a_merge_added_restores_the_survivor() {
    let survivor = vec![entry("payee", "Generic Grocer"), entry("note", "shared")];
    let absorbed = vec![entry("note", "shared"), entry("note", "distinct")];
    let merged = union(&survivor, &absorbed);
    let restored = subtract_merged(&merged, &survivor, &absorbed);
    assert_eq!(restored, survivor);
}

#[test]
fn owner_tables_and_columns_are_named() {
    assert_eq!(Owner::Transaction.table(), "transaction_metadata");
    assert_eq!(Owner::Posting.table(), "posting_metadata");
    assert_eq!(Owner::Transaction.id_column(), "transaction_id");
    assert_eq!(Owner::Posting.id_column(), "posting_id");
}
