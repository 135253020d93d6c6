use bc_core::audit::{AuditEntry, AuditEntryExt, Event};
use bc_core::budget_view::{budget_summary, budget_tree_node, BudgetId, BudgetRevision, BudgetTreeItem, BudgetTreeSummary, RolloverPolicy};
use bc_core::decimal::Dec;
use bc_core::error::BcError;
use bc_core::ipc::{resolve_tag_paths, transfer_suggestion, AccountEntry, IpcAmount, IpcTransaction, TransactionExt, TransferSuggestion};
use bc_core::loan::{stored_row, terms_from_row, CompoundingFrequency, LoanId, LoanTermsRow, Period};
use bc_core::metadata::Timestamp;
use bc_core::model::{AccountId, Amount, CommodityCode, Date, Posting, PostingId, Reconciliation, TagId, Transaction, TransactionId};

fn amount(v: i128, scale: u32, code: &str) -> Amount {
    Amount::new(Dec::new(v, scale), CommodityCode::new(code))
}

fn now() -> Timestamp {
    Timestamp { seconds: 1_700_000_000, nanos: 0 }
}

#[test]
fn audit_entry_from_recategorise_uses_recat_kind() {
    let event = Event::PostingRecategorised { to_account: AccountId(17) };
    let entry = AuditEntry::from_event(now(), &event, &vec![]);
    assert_eq!(entry.kind, "recat");
    assert!(!entry.message.is_empty());
    assert_eq!(entry.message, "recategorised \u{2192} 17");
}

#[test]
fn source_attached_renders_import_audit_entry() {
    let account = AccountId(424242);
    let event = Event::TransactionSourceAttached { account_id: account, narration: "ACME".to_owned() };
    let names = vec![(account, "Everyday Transaction".to_owned())];
    let entry = AuditEntry::from_event(now(), &event, &names);
    assert_eq!(entry.kind, "import");
    assert!(entry.message.contains("Everyday Transaction"), "message names the account, got: {}", entry.message);
    assert!(entry.message.contains("ACME"), "message names the narration");
    assert!(!entry.message.contains(&account.0.to_string()), "message must not leak the raw account id");
    assert_eq!(entry.message, "imported from Everyday Transaction: ACME");
}

#[test]
fn an_unnamed_source_account_is_unknown() {
    let event = Event::TransactionSourceAttached { account_id: AccountId(3), narration: "X".to_owned() };
    let entry = AuditEntry::from_event(now(), &event, &vec![(AccountId(4), "Other".to_owned())]);
    assert_eq!(entry.message, "imported from unknown account: X");
    assert_eq!(entry.ts, now());
}

#[test]
fn audit_messages_render_their_values() {
    let d = Date { year: 2025, month: 6, day: 27 };
    let cases = vec![
        (Event::TransactionPayeeChanged { to: None }, "payee", "payee \u{2192} (none)"),
        (Event::TransactionPayeeChanged { to: Some("Cafe".to_owned()) }, "payee", "payee \u{2192} Cafe"),
        (Event::TransactionDateChanged { to: d }, "date", "date \u{2192} 2025-06-27"),
        (Event::TransactionNoteChanged { to: None }, "note", "note removed"),
        (Event::TransactionTagsChanged { added: vec![TagId(1), TagId(2)], removed: vec![TagId(3)] }, "tags", "tags +2 -1"),
        (
            Event::TransactionReconciled { from: Reconciliation::Unreconciled, to: Reconciliation::Reconciled },
            "reconcile",
            "reconciliation Unreconciled \u{2192} Reconciled",
        ),
        (
            Event::PostingSpreadChanged { to: Some((d, Date { year: 2025, month: 12, day: 31 })) },
            "spread",
            "spread 2025-06-27..2025-12-31",
        ),
        (Event::PostingSpreadChanged { to: None }, "spread", "spread cleared"),
        (Event::PostingAdded { account: AccountId(5) }, "split", "+leg 5"),
        (Event::PostingRemoved, "split", "removed leg"),
        (Event::TransactionSourceDetached, "import", "source removed"),
        (Event::Other { kind: "merge".to_owned() }, "merge", "merge"),
    ];
    for (event, kind, message) in cases {
        let entry = AuditEntry::from_event(now(), &event, &vec![]);
        assert_eq!((entry.kind.as_str(), entry.message.as_str()), (kind, message));
    }
}

fn item(id: u64, account: u64, governing: Option<BudgetRevision>, children: Vec<BudgetTreeItem>) -> BudgetTreeItem {
    BudgetTreeItem {
        budget_id: BudgetId(id),
        account_id: AccountId(account),
        account_name: format!("Account {account}"),
        depth: 0,
        commodity: Some(CommodityCode::new("AUD")),
        actuals: vec![],
        effective_target: Some(Dec::new(500, 0)),
        governing,
        has_mixed_period: false,
        children,
    }
}

#[test]
fn an_ungoverned_budget_reads_as_tracking_only() {
    let node = budget_tree_node(&item(1, 10, None, vec![]));
    assert_eq!(node.id, "1");
    assert_eq!(node.account_id, "10");
    assert_eq!(node.native_period_label, "period");
    assert_eq!(node.rollover, RolloverPolicy::ResetToZero);
    assert!(node.is_tracking_only);
    assert_eq!(node.spent, IpcAmount { value: Dec::new(0, 0), currency_code: "AUD".to_owned() });
    assert_eq!(node.effective_target, Some(IpcAmount { value: Dec::new(500, 0), currency_code: "AUD".to_owned() }));
}

#[test]
fn a_budget_node_carries_its_revision_and_children() {
    let revision = BudgetRevision {
        period: Period::Monthly,
        name: Some("Groceries".to_owned()),
        rollover: RolloverPolicy::CarryOver,
        tag_filter: Some("food".to_owned()),
        tracking_only: false,
    };
    let mut child = item(2, 11, None, vec![]);
    child.actuals = vec![amount(1250, 2, "AUD"), amount(3, 0, "USD")];
    child.commodity = None;
    let node = budget_tree_node(&item(1, 10, Some(revision), vec![child]));
    assert_eq!(node.native_period_label, "monthly");
    assert_eq!(node.name.as_deref(), Some("Groceries"));
    assert_eq!(node.rollover, RolloverPolicy::CarryOver);
    assert_eq!(node.tag_filter.as_deref(), Some("food"));
    assert!(!node.is_tracking_only);
    assert_eq!(node.children.len(), 1);
    let c = &node.children[0];
    assert_eq!(c.spent, IpcAmount { value: Dec::new(1250, 2), currency_code: "AUD".to_owned() });
    assert_eq!(c.effective_target, None, "no commodity to show the target in");
}

#[test]
fn budget_summary_from_mixed_currency_tree_has_no_total_spent() {
    let summary = BudgetTreeSummary {
        total_effective_target: Dec::new(0, 0),
        total_actuals: vec![amount(10, 0, "USD"), amount(20, 0, "EUR")],
        commodity: None,
        overspent_count: 0,
    };
    let ipc_summary = budget_summary(&summary);
    assert_eq!(ipc_summary.total_spent, None);
    assert!(ipc_summary.has_mixed_commodities);
}

#[test]
fn a_budget_summary_in_its_target_commodity_reports_what_remains() {
    let summary = BudgetTreeSummary {
        total_effective_target: Dec::new(1000, 0),
        total_actuals: vec![amount(5, 0, "USD"), amount(2505, 1, "AUD")],
        commodity: Some(CommodityCode::new("AUD")),
        overspent_count: 2,
    };
    let s = budget_summary(&summary);
    assert_eq!(s.total_budgeted, Some(IpcAmount { value: Dec::new(1000, 0), currency_code: "AUD".to_owned() }));
    assert_eq!(s.total_spent, Some(IpcAmount { value: Dec::new(2505, 1), currency_code: "AUD".to_owned() }));
    assert_eq!(s.total_remaining, Some(IpcAmount { value: Dec::new(7495, 1), currency_code: "AUD".to_owned() }));
    assert_eq!(s.overspent_count, 2);
    let single = budget_summary(&BudgetTreeSummary {
        total_effective_target: Dec::new(0, 0),
        total_actuals: vec![amount(7, 0, "EUR")],
        commodity: None,
        overspent_count: 0,
    });
    assert_eq!(single.total_spent, Some(IpcAmount { value: Dec::new(7, 0), currency_code: "EUR".to_owned() }));
    assert_eq!(single.total_budgeted, None);
    assert!(!single.has_mixed_commodities);
}

#[test]
fn resolve_tag_paths_renders_hierarchy_and_dedupes() {
    let person = TagId(1);
    let josh = TagId(2);
    let forest = vec![(person, "person".to_owned()), (josh, "person:josh".to_owned())];
    let paths = resolve_tag_paths(&forest, &vec![josh, josh, person]);
    assert_eq!(paths, vec!["person:josh".to_owned(), "person".to_owned()]);
    assert_eq!(resolve_tag_paths(&forest, &vec![TagId(9), person]), vec!["person".to_owned()]);
}

#[test]
fn a_transaction_shows_account_paths_and_effective_tags() {
    let accounts: Vec<AccountEntry> = vec![
        ("1".to_owned(), "Assets".to_owned(), None),
        ("2".to_owned(), "Bank".to_owned(), Some("1".to_owned())),
    ];
    let forest = vec![(TagId(1), "trip".to_owned()), (TagId(2), "food".to_owned())];
    let tx = Transaction {
        id: TransactionId(8),
        date: Date { year: 2025, month: 6, day: 27 },
        description: "COFFEE".to_owned(),
        metadata: vec![],
        tag_ids: vec![TagId(1)],
        postings: vec![
            Posting { id: PostingId(3), account_id: AccountId(2), amount: Some(amount(-5, 0, "AUD")), metadata: vec![], tag_ids: vec![TagId(2), TagId(1)] },
            Posting { id: PostingId(4), account_id: AccountId(9), amount: None, metadata: vec![], tag_ids: vec![] },
        ],
        reconciliation: Reconciliation::Flagged,
    };
    let shown = IpcTransaction::from_model_with_accounts(&tx, &accounts, &forest);
    assert_eq!(shown.id, "8");
    assert_eq!(shown.tags, vec!["trip".to_owned()]);
    assert_eq!(shown.postings[0].account.name, "Assets :: Bank");
    assert_eq!(shown.postings[0].tags, vec!["trip".to_owned(), "food".to_owned()]);
    assert_eq!(shown.postings[1].account.name, "9", "an unlisted account falls back to its id");
    assert_eq!(shown.postings[1].amount, None);
    assert_eq!(shown.reconciliation, Reconciliation::Flagged);
}

#[test]
fn transfer_suggestion_converts_to_ipc_dto() {
    let suggestion = TransferSuggestion {
        debit: TransactionId(11),
        credit: TransactionId(12),
        amount: amount(10000, 2, "AUD"),
        date_debit: Date { year: 2025, month: 6, day: 26 },
        date_credit: Date { year: 2025, month: 6, day: 27 },
        debit_account: "Savings".to_owned(),
        credit_account: "Mortgage".to_owned(),
        debit_narration: "TFR OUT".to_owned(),
        credit_narration: "TFR IN".to_owned(),
    };
    let dto = transfer_suggestion(&suggestion);
    assert_eq!(dto.debit, "11");
    assert_eq!(dto.credit, "12");
    assert_eq!(dto.amount.value, Dec::new(10000, 2));
    assert_eq!(dto.amount.currency_code, "AUD");
    assert_eq!(dto.date_debit, "2025-06-26");
    assert_eq!(dto.date_credit, "2025-06-27");
    assert_eq!(dto.debit_account, "Savings");
    assert_eq!(dto.credit_account, "Mortgage");
    assert_eq!(dto.debit_narration, "TFR OUT");
    assert_eq!(dto.credit_narration, "TFR IN");
}

fn row() -> LoanTermsRow {
    LoanTermsRow {
        id: "5".to_owned(),
        principal: "10000".to_owned(),
        interest_rate: "0.065".to_owned(),
        start_date: "2026-01-01".to_owned(),
        term_months: 12,
        commodity: "AUD".to_owned(),
        created_at: "2023-11-14T22:13:20Z".to_owned(),
    }
}

#[test]
fn stored_terms_read_back() {
    let t = terms_from_row(AccountId(9), row(), Ok(Period::Monthly), Ok(CompoundingFrequency::Daily), &vec!["3".to_owned()])
        .expect("a well-formed row");
    assert_eq!(t.id, LoanId(5));
    assert_eq!(t.account_id, AccountId(9));
    assert_eq!(t.principal, Dec::new(10000, 0));
    assert_eq!(t.annual_rate, Dec::new(65, 3));
    assert_eq!(t.start_date, Date { year: 2026, month: 1, day: 1 });
    assert_eq!(t.term_months, 12);
    assert_eq!(t.offset_account_ids, vec![AccountId(3)]);
    assert_eq!(t.created_at, now());
    let back = stored_row(&t, &now());
    assert_eq!(back, row());
}

#[test]
fn a_malformed_column_is_bad_data_in_reading_order() {
    let mut r = row();
    r.principal = "lots".to_owned();
    r.term_months = -1;
    match terms_from_row(AccountId(9), r, Ok(Period::Monthly), Ok(CompoundingFrequency::Daily), &vec![]) {
        Err(BcError::BadData(m)) => assert!(m.starts_with("invalid principal: "), "{m}"),
        other => panic!("expected bad data, got {other:?}"),
    }
    let mut r = row();
    r.term_months = -1;
    let std_message = u32::try_from(-1_i64).unwrap_err().to_string();
    assert_eq!(
        terms_from_row(AccountId(9), r, Ok(Period::Monthly), Ok(CompoundingFrequency::Daily), &vec![]).map(|t| t.id),
        Err(BcError::BadData(format!("invalid term_months: {std_message}")))
    );
    let failed = Err(BcError::Serialisation("bad period".to_owned()));
    assert_eq!(
        terms_from_row(AccountId(9), row(), failed, Ok(CompoundingFrequency::Daily), &vec!["x".to_owned()]).map(|t| t.id),
        Err(BcError::Serialisation("bad period".to_owned()))
    );
    assert_eq!(
        terms_from_row(AccountId(9), row(), Ok(Period::Monthly), Ok(CompoundingFrequency::Daily), &vec!["x".to_owned()]).map(|t| t.id),
        Err(BcError::BadData("invalid id 'x'".to_owned()))
    );
    let mut r = row();
    r.created_at = "yesterday".to_owned();
    match terms_from_row(AccountId(9), r, Ok(Period::Monthly), Ok(CompoundingFrequency::Daily), &vec![]) {
        Err(BcError::BadData(m)) => assert!(m.starts_with("invalid created_at: "), "{m}"),
        other => panic!("expected bad data, got {other:?}"),
    }
}
