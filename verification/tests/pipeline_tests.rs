use bc_core::plan_totals::{residual, PlanTotals};
use bc_core::metadata::Timestamp;
use bc_core::model::ImportBatchId;
use bc_core::write::{source_ref, SourceRefId};
use bc_core::account_path::AccountResolver;
use bc_core::commodity::CommodityResolver;
use bc_core::decimal::Dec;
use bc_core::error::BcError;
use bc_core::import::{RawMetaEntry, RawMetaValue, RawPosting, RawTransaction};
use bc_core::import_exec::{Counts, SkipCause, Warning};
use bc_core::metadata::{MetaKey, MetaValue};
use bc_core::model::{AccountId, AccountRecord, Amount, Commodity, CommodityCode, Date, Posting, PostingId, Reconciliation, TagId, Transaction, TransactionId};
use bc_core::plan::{allocate_occurrences, resolve_tag_ids, touched_accounts, LegPlan};
use bc_core::residual::{build_postings, document_residual};
use bc_core::resolve::{canonicalise, has_ambiguous_residual, resolve_legs, resolve_meta_account, Canonical};
use bc_core::write::{corroborate, decide_row, refuse_conflict, finish_attach, finish_create, prepare_attach, prepare_create, single_elided, Provenance, RowDecision, StoredLeg};

fn account(id: u64, name: &str, parent: Option<u64>, archived: bool) -> AccountRecord {
    AccountRecord { id: AccountId(id), name: name.to_owned(), parent_id: parent.map(AccountId), archived }
}

fn resolver() -> AccountResolver {
    AccountResolver::from_accounts(vec![
        account(1, "Assets", None, false),
        account(2, "Bank", Some(1), false),
        account(3, "Expenses", None, false),
        account(4, "Food", Some(3), false),
        account(5, "Old", Some(1), true),
    ])
}

fn commodities() -> CommodityResolver {
    CommodityResolver::from_commodities(&[
        Commodity::new("AUD", Some("A$"), vec![]),
        Commodity::new("BTC", None, vec![]),
    ])
}

fn amount(v: i128, code: &str) -> Option<Amount> {
    Some(Amount::new(Dec::new(v, 0), CommodityCode::new(code)))
}

fn day() -> Date {
    Date { year: 2025, month: 6, day: 27 }
}

fn fingerprint(raw: &RawTransaction, amount: &Option<Amount>) -> String {
    let stated = match amount {
        Some(a) => format!("{}{}", a.value.mantissa, a.commodity.as_str()),
        None => "-".to_owned(),
    };
    format!("{}|{}", raw.description, stated)
}

#[test]
fn two_elided_legs_leave_the_residual_ambiguous() {
    let raw = RawTransaction::new(day(), "X", vec![RawPosting::new("A", None), RawPosting::new("B", None)]);
    assert!(has_ambiguous_residual(&raw));
    let one = RawTransaction::new(day(), "X", vec![RawPosting::new("A", None), RawPosting::new("B", amount(1, "AUD"))]);
    assert!(!has_ambiguous_residual(&one));
}

#[test]
fn codes_canonicalise_to_their_registered_spelling() {
    let c = commodities();
    match canonicalise(&c, &amount(5, " btc ")) {
        Canonical::Resolved(Some(a)) => assert_eq!(a.commodity.as_str(), "BTC"),
        other => panic!("expected a resolved amount, got {other:?}"),
    }
    assert!(matches!(canonicalise(&c, &amount(5, "  ")), Canonical::Blank));
    match canonicalise(&c, &amount(5, " DOGE")) {
        Canonical::Unregistered(code) => assert_eq!(code, "DOGE"),
        other => panic!("expected an unregistered code, got {other:?}"),
    }
    assert!(matches!(canonicalise(&c, &None), Canonical::Resolved(None)));
}

#[test]
fn an_account_path_in_metadata_binds_to_that_account() {
    let r = resolver();
    assert_eq!(resolve_meta_account(&r, "Assets:Bank"), MetaValue::Account(AccountId(2)));
    assert_eq!(resolve_meta_account(&r, "Assets:Nowhere"), MetaValue::Text("Assets:Nowhere".to_owned()));
    assert_eq!(resolve_meta_account(&r, "Assets::Bank"), MetaValue::Text("Assets::Bank".to_owned()));
}

#[test]
fn the_resolution_pass_skips_what_it_cannot_persist() {
    let mut leg = RawPosting::new("Expenses:Food", amount(50, "aud"));
    leg.metadata = vec![RawMetaEntry { key: MetaKey("counterparty".to_owned()), value: RawMetaValue::AccountPath("Assets:Bank".to_owned()) }];
    leg.tags = vec!["food".to_owned()];
    let raws = vec![
        RawTransaction::new(day(), "COFFEE", vec![leg, RawPosting::new("Assets:Bank", None)]),
        RawTransaction::new(day(), "GHOST", vec![RawPosting::new("Assets:Savings", amount(1, "AUD")), RawPosting::new("Assets:Old", amount(-1, "DOGE"))]),
        RawTransaction::new(day(), "TWO", vec![RawPosting::new("A", None), RawPosting::new("B", None), RawPosting::new("C", amount(2, "AUD"))]),
        RawTransaction::new(day(), "BAD", vec![RawPosting::new("Assets::Bank", amount(1, "AUD")), RawPosting::new("Assets:Bank", amount(1, " "))]),
    ];
    let out = resolve_legs(&resolver(), &commodities(), &raws, &fingerprint);

    assert_eq!(out.rows.len(), 4);
    assert_eq!(out.rows[0].len(), 2);
    let food = &out.rows[0][0];
    assert_eq!(food.account_id, AccountId(4));
    assert_eq!(food.account_path, "Expenses:Food");
    assert_eq!(food.amount.as_ref().expect("stated").commodity.as_str(), "AUD");
    assert_eq!(food.fingerprint, "COFFEE|50AUD");
    assert_eq!(food.metadata[0].value, MetaValue::Account(AccountId(2)));
    assert_eq!(food.tag_paths, vec!["food".to_owned()]);
    assert_eq!(out.rows[0][1].fingerprint, "COFFEE|-");
    assert!(out.rows[1].is_empty() && out.rows[2].is_empty() && out.rows[3].is_empty());

    assert_eq!(out.guards.unresolved, vec!["Assets:Savings".to_owned()]);
    assert_eq!(out.guards.unresolved_commodities, vec!["DOGE".to_owned()]);
    assert_eq!(out.counts.unresolved_account_postings, 1);
    assert_eq!(out.counts.unresolved_commodity_postings, 1);
    assert_eq!(out.counts.other_skipped_postings, 5, "three ambiguous legs, a malformed path, a blank code");
    assert_eq!(out.counts.diagnostics.len(), 5);
    assert_eq!(
        out.counts.diagnostics[0].detail,
        "Assets:Savings (resolved as far as 'Assets', missing 'Savings')"
    );
    assert_eq!(out.counts.diagnostics[2].detail, "3 legs, two or more elided");
    let listed: Vec<(String, SkipCause, String)> =
        out.counts.diagnostics.iter().map(|d| (d.location.clone(), d.cause, d.detail.clone())).collect();
    let at = "<unknown source>".to_owned();
    assert_eq!(listed, vec![
        (at.clone(), SkipCause::UnresolvedAccount, "Assets:Savings (resolved as far as 'Assets', missing 'Savings')".to_owned()),
        (at.clone(), SkipCause::UnresolvedCommodity, "DOGE".to_owned()),
        (at.clone(), SkipCause::AmbiguousResidual, "3 legs, two or more elided".to_owned()),
        (at.clone(), SkipCause::MalformedPath, "Assets::Bank".to_owned()),
        (at, SkipCause::BlankCommodity, String::new()),
    ]);
    assert_eq!(
        out.counts.warnings,
        vec![Warning::PostingIntoArchivedAccount { account_id: AccountId(5), account_path: "Assets:Old".to_owned() }]
    );
    assert_eq!(out.counts.charged_by_cause.iter().map(|(c, _)| *c).collect::<Vec<_>>(), vec![
        SkipCause::UnresolvedAccount,
        SkipCause::UnresolvedCommodity,
        SkipCause::MalformedPath,
        SkipCause::BlankCommodity,
        SkipCause::AmbiguousResidual,
    ]);
}

fn planned(raws: &[RawTransaction]) -> Vec<Vec<LegPlan>> {
    let out = resolve_legs(&resolver(), &commodities(), &raws.to_vec(), &fingerprint);
    allocate_occurrences(out.rows)
}

#[test]
fn identical_legs_claim_successive_slots_across_the_run() {
    let row = RawTransaction::new(day(), "COFFEE", vec![RawPosting::new("Assets:Bank", amount(-5, "AUD"))]);
    let plans = planned(&[row.clone(), row.clone(), row]);
    let slots: Vec<u32> = plans.iter().flatten().map(|p| p.occurrence).collect();
    assert_eq!(slots, vec![0, 1, 2]);
    assert_eq!(touched_accounts(&plans), vec![AccountId(2)]);
}

#[test]
fn touched_accounts_are_listed_once_in_first_seen_order() {
    let a = RawTransaction::new(day(), "A", vec![RawPosting::new("Expenses:Food", amount(5, "AUD")), RawPosting::new("Assets:Bank", None)]);
    let b = RawTransaction::new(day(), "B", vec![RawPosting::new("Assets:Bank", amount(5, "AUD"))]);
    let plans = planned(&[a, b]);
    assert_eq!(touched_accounts(&plans), vec![AccountId(4), AccountId(2)]);
}

#[test]
fn tag_ids_are_deduplicated_in_first_seen_order() {
    let tags = vec![("food".to_owned(), TagId(1)), ("home".to_owned(), TagId(2)), ("groceries".to_owned(), TagId(1))];
    let stated = vec!["home".to_owned(), "bad tag".to_owned(), "food".to_owned(), "groceries".to_owned(), "home".to_owned()];
    assert_eq!(resolve_tag_ids(&stated, &tags), vec![TagId(2), TagId(1)]);
}

#[test]
fn rows_create_attach_or_conflict_by_their_owners() {
    let row = RawTransaction::new(day(), "COFFEE", vec![RawPosting::new("Expenses:Food", amount(5, "AUD")), RawPosting::new("Assets:Bank", None)]);
    let plans = planned(&[row]);
    let legs = &plans[0];
    let none: Vec<(AccountId, String, Vec<StoredLeg>)> = vec![];
    assert!(matches!(decide_row(&none, legs), RowDecision::Create));

    let one = vec![(AccountId(4), "COFFEE|5AUD".to_owned(), vec![StoredLeg { transaction_id: TransactionId(8), occurrence: 0 }])];
    match decide_row(&one, legs) {
        RowDecision::Attach { owner, stored } => {
            assert_eq!(owner, TransactionId(8));
            assert_eq!(stored, vec![true, false]);
        }
        other => panic!("expected attach, got {other:?}"),
    }

    let two = vec![
        (AccountId(4), "COFFEE|5AUD".to_owned(), vec![StoredLeg { transaction_id: TransactionId(8), occurrence: 0 }]),
        (AccountId(2), "COFFEE|-".to_owned(), vec![StoredLeg { transaction_id: TransactionId(9), occurrence: 0 }]),
    ];
    assert!(matches!(decide_row(&two, legs), RowDecision::Conflict { owners: 2, unstored: 0 }));
    assert!(matches!(decide_row(&two, &vec![]), RowDecision::Nothing));
}

fn posting(id: u64, account: u64, amount_value: Option<i128>) -> Posting {
    Posting {
        id: PostingId(id),
        account_id: AccountId(account),
        amount: amount_value.and_then(|v| amount(v, "AUD")),
        metadata: vec![],
        tag_ids: vec![],
    }
}

fn transaction(postings: Vec<Posting>) -> Transaction {
    Transaction {
        id: TransactionId(8),
        date: day(),
        description: "COFFEE".to_owned(),
        metadata: vec![],
        tag_ids: vec![],
        postings,
        reconciliation: Reconciliation::Unreconciled,
    }
}

#[test]
fn corroboration_explains_every_stored_posting_or_refuses() {
    let row = RawTransaction::new(day(), "COFFEE", vec![RawPosting::new("Expenses:Food", amount(5, "AUD")), RawPosting::new("Assets:Bank", amount(-5, "AUD"))]);
    let plans = planned(&[row]);
    let legs = &plans[0];
    let prov = vec![(PostingId(100), Provenance { account_id: AccountId(4), fingerprint: "COFFEE|5AUD".to_owned(), occurrence: 0 })];

    let imported = transaction(vec![posting(100, 4, Some(60))]);
    let c = corroborate(&imported, legs, &vec![true, false], &prov).expect("explained by its reference");
    assert!(c.adoptions.is_empty());
    assert_eq!(c.insertions, vec![1]);

    let hand_written = transaction(vec![posting(100, 4, Some(60)), posting(101, 2, Some(-5))]);
    let c = corroborate(&hand_written, legs, &vec![true, false], &prov).expect("adopted");
    assert_eq!(c.adoptions, vec![(PostingId(101), 1)]);
    assert!(c.insertions.is_empty());

    let foreign = transaction(vec![posting(100, 4, Some(60)), posting(102, 2, Some(-7))]);
    assert!(corroborate(&foreign, legs, &vec![true, false], &prov).is_none());
}

#[test]
fn the_single_elided_posting_is_found() {
    assert_eq!(single_elided(&vec![posting(1, 4, Some(5)), posting(2, 2, None)]), Some(1));
    assert_eq!(single_elided(&vec![posting(1, 4, None), posting(2, 2, None)]), None);
    assert_eq!(single_elided(&vec![posting(1, 4, Some(5))]), None);
}

#[test]
fn the_residual_is_the_negated_sum_in_one_commodity() {
    let c = commodities();
    let raw = RawTransaction::new(day(), "X", vec![
        RawPosting::new("Expenses:Food", amount(50, "aud")),
        RawPosting::new("Expenses:Food", amount(20, "AUD")),
        RawPosting::new("Assets:Bank", None),
    ]);
    let residual = document_residual(&raw, &c).expect("sums").expect("one commodity");
    assert_eq!(residual.commodity.as_str(), "AUD");
    assert_eq!(rust_decimal::Decimal::from_i128_with_scale(residual.value.mantissa, residual.value.scale), rust_decimal::Decimal::from(-70));

    let netted = RawTransaction::new(day(), "X", vec![RawPosting::new("A", amount(5, "AUD")), RawPosting::new("B", amount(-5, "AUD")), RawPosting::new("C", None)]);
    assert_eq!(document_residual(&netted, &c), Ok(None));
    let mixed = RawTransaction::new(day(), "X", vec![RawPosting::new("A", amount(5, "AUD")), RawPosting::new("B", amount(5, "BTC"))]);
    assert_eq!(document_residual(&mixed, &c), Ok(None));
    let unknown = RawTransaction::new(day(), "X", vec![RawPosting::new("A", amount(5, "DOGE"))]);
    assert_eq!(document_residual(&unknown, &c), Ok(None));
    let huge = RawTransaction::new(day(), "X", vec![
        RawPosting::new("A", Some(Amount::new(Dec::new(-79228162514264337593543950335, 0), CommodityCode::new("AUD")))),
        RawPosting::new("B", Some(Amount::new(Dec::new(-79228162514264337593543950335, 0), CommodityCode::new("AUD")))),
    ]);
    assert!(matches!(document_residual(&huge, &c), Err(BcError::BadData(_))));
}

#[test]
fn a_lone_elided_leg_takes_the_documents_residual() {
    let c = commodities();
    let raw = RawTransaction::new(day(), "X", vec![RawPosting::new("Assets:Savings", amount(5, "AUD")), RawPosting::new("Assets:Bank", None)]);
    let plans = planned(&[raw.clone()]);
    assert_eq!(plans[0].len(), 1);
    let built = build_postings(&raw, &plans[0], &c, &vec![], &vec![PostingId(40)]).expect("sums").expect("a residual");
    assert_eq!(built[0].id, PostingId(40));
    assert_eq!(built[0].account_id, AccountId(2));
    assert_eq!(rust_decimal::Decimal::from_i128_with_scale(built[0].amount.as_ref().expect("materialised").value.mantissa, 0), rust_decimal::Decimal::from(-5));

    let mut counts = Counts::new();
    let lonely = RawTransaction::new(day(), "X", vec![RawPosting::new("Assets:Bank", None)]);
    let plans = planned(&[lonely.clone()]);
    let prepared = prepare_create(&lonely, &plans[0], &resolver(), &c, &vec![], &vec![PostingId(41)], TransactionId(9), &mut counts);
    assert_eq!(prepared.map(|t| t.is_none()), Ok(true));
    assert_eq!(counts.diagnostics[0].cause, SkipCause::UndeterminedResidual);
    assert_eq!(counts.other_skipped_postings, 1);
}

#[test]
fn a_created_transaction_counts_once_it_is_written() {
    let c = commodities();
    let raw = RawTransaction::new(day(), "COFFEE", vec![RawPosting::new("Expenses:Food", amount(5, "AUD")), RawPosting::new("Assets:Bank", None)]);
    let plans = planned(&[raw.clone()]);
    let mut counts = Counts::new();
    let t = prepare_create(&raw, &plans[0], &resolver(), &c, &vec![], &vec![PostingId(1), PostingId(2)], TransactionId(9), &mut counts)
        .expect("no failure")
        .expect("a transaction");
    assert_eq!(t.id, TransactionId(9));
    assert_eq!(t.postings.len(), 2);
    assert!(t.postings[1].amount.is_none(), "a sibling is there to derive it from");
    assert_eq!(finish_create(Ok(vec![]), &raw, 2, &mut counts), Ok(()));
    assert_eq!(counts.new_transactions, 1);
    assert_eq!(finish_create(Err(BcError::BadData("x".to_owned())), &raw, 2, &mut counts), Ok(()));
    assert_eq!(counts.new_transactions, 1);
    assert_eq!(counts.other_skipped_postings, 2);
}

#[test]
fn an_unexplained_candidate_is_refused_and_charged() {
    let raw = RawTransaction::new(day(), "COFFEE", vec![RawPosting::new("Expenses:Food", amount(5, "AUD")), RawPosting::new("Assets:Bank", amount(-5, "AUD"))]);
    let plans = planned(&[raw.clone()]);
    let mut counts = Counts::new();
    let read = Ok((transaction(vec![posting(100, 4, Some(5)), posting(102, 3, Some(1))]), vec![]));
    let plan = prepare_attach(&raw, &plans[0], &vec![true, false], TransactionId(8), read, &vec![], &vec![PostingId(1), PostingId(2)], &mut counts)
        .expect("no failure");
    assert!(plan.is_none());
    assert_eq!(counts.diagnostics[0].cause, SkipCause::FailedCorroboration);
    assert_eq!(counts.diagnostics[0].detail, "transaction 8");
    assert_eq!(counts.other_skipped_postings, 1);
    assert_eq!(counts.charged_by_cause, vec![(SkipCause::FailedCorroboration, 1)]);
    assert_eq!(counts.unresolved_account_postings, 0);
    assert_eq!(counts.unresolved_commodity_postings, 0);
    assert_eq!(counts.attached_postings, 0);

    let read = Ok((transaction(vec![posting(100, 4, Some(5))]), vec![]));
    let plan = prepare_attach(&raw, &plans[0], &vec![false, false], TransactionId(8), read, &vec![], &vec![PostingId(1), PostingId(2)], &mut counts)
        .expect("no failure")
        .expect("a plan");
    assert_eq!(plan.corroborated.adoptions, vec![(PostingId(100), 0)]);
    assert_eq!(plan.postings.len(), 1);
    assert_eq!(plan.postings[0].id, PostingId(2));
    assert_eq!(finish_attach(Ok(vec![]), &raw, 1, &mut counts), Ok(()));
    assert_eq!(counts.attached_postings, 1);
}

#[test]
fn a_source_reference_records_the_leg_as_the_document_stated_it() {
    let mut raw = RawTransaction::new(day(), "COFFEE", vec![RawPosting::new("Assets:Bank", amount(-5, "AUD"))]);
    raw.reference = Some("REF1".to_owned());
    let plans = planned(&[raw.clone()]);
    let at = Timestamp { seconds: 10, nanos: 0 };
    let r = source_ref(&raw, &plans[0][0], ImportBatchId(3), TransactionId(8), PostingId(12), true, SourceRefId(99), at);
    assert_eq!(r.id, SourceRefId(99));
    assert_eq!(r.transaction_id, TransactionId(8));
    assert_eq!(r.posting_id, Some(PostingId(12)));
    assert_eq!(r.account_id, AccountId(2));
    assert_eq!(r.narration, "COFFEE");
    assert_eq!(r.amount, amount(-5, "AUD"));
    assert_eq!(r.reference.as_deref(), Some("REF1"));
    assert_eq!(r.occurrence, 0);
    assert_eq!(r.import_batch_id, Some(ImportBatchId(3)));
    assert!(r.owns_posting);
    assert_eq!(r.created_at, at);
}

#[test]
fn a_row_claimed_by_several_transactions_is_refused_and_its_unstored_legs_charged() {
    let raw = RawTransaction::new(day(), "COFFEE", vec![RawPosting::new("Assets:Bank", amount(-5, "AUD"))]);
    let mut counts = Counts::new();
    refuse_conflict(&mut counts, &raw, 2, 3);
    assert_eq!(counts.diagnostics.len(), 1);
    assert_eq!(counts.diagnostics[0].cause, SkipCause::MultiOwnerConflict);
    assert_eq!(counts.diagnostics[0].detail, "2 transactions claim these legs");
    assert_eq!(counts.skipped(), 3);
}

#[test]
fn importing_a_stored_row_again_writes_nothing() {
    let raw = RawTransaction::new(day(), "COFFEE", vec![RawPosting::new("Expenses:Food", amount(5, "AUD")), RawPosting::new("Assets:Bank", amount(-5, "AUD"))]);
    let plans = planned(&[raw.clone()]);
    let existing = vec![
        (AccountId(4), "COFFEE|5AUD".to_owned(), vec![StoredLeg { transaction_id: TransactionId(8), occurrence: 0 }]),
        (AccountId(2), "COFFEE|-5AUD".to_owned(), vec![StoredLeg { transaction_id: TransactionId(8), occurrence: 0 }]),
    ];
    match decide_row(&existing, &plans[0]) {
        RowDecision::Attach { owner, stored } => {
            assert_eq!(owner, TransactionId(8));
            assert_eq!(stored, vec![true, true]);
            let mut counts = Counts::new();
            let read = Ok((transaction(vec![posting(100, 4, Some(5)), posting(101, 2, Some(-5))]), vec![]));
            let plan = prepare_attach(&raw, &plans[0], &stored, owner, read, &vec![], &vec![PostingId(1), PostingId(2)], &mut counts);
            assert!(matches!(plan, Ok(None)));
            assert_eq!(counts.diagnostics.len(), 0);
            assert_eq!(counts.skipped(), 0);
        },
        other => panic!("expected an attach to the stored transaction, got {other:?}"),
    }
}

fn totals_of(plan: &PlanTotals) -> Vec<(String, Vec<(String, Dec)>)> {
    plan.rows().clone()
}

#[test]
fn a_planned_creation_moves_each_account_by_its_leg() {
    let raw = RawTransaction::new(day(), "COFFEE", vec![RawPosting::new("Expenses:Food", amount(5, "AUD")), RawPosting::new("Assets:Bank", None)]);
    let plans = planned(&[raw]);
    let postings = vec![posting(1, 4, Some(5)), posting(2, 2, None)];
    let mut plan = PlanTotals::new();
    plan.create(&postings, &plans[0]);
    assert_eq!(
        totals_of(&plan),
        vec![
            ("Assets:Bank".to_owned(), vec![("AUD".to_owned(), Dec::new(-5, 0))]),
            ("Expenses:Food".to_owned(), vec![("AUD".to_owned(), Dec::new(5, 0))]),
        ]
    );
}

#[test]
fn planned_totals_come_in_ascending_order_of_path() {
    let mut plan = PlanTotals::new();
    let five = Some(vec![("AUD".to_owned(), Dec::new(5, 0))]);
    plan.shift("Liabilities:Card", &five, &None);
    plan.shift("Expenses:Food", &five, &None);
    plan.shift("Assets:Bank", &None, &five);
    plan.shift("Expenses:Bus", &None, &None);
    plan.shift("Expenses:Food", &five, &None);
    let paths: Vec<String> = totals_of(&plan).into_iter().map(|(p, _)| p).collect();
    assert_eq!(
        paths,
        vec!["Assets:Bank".to_owned(), "Expenses:Bus".to_owned(), "Expenses:Food".to_owned(), "Liabilities:Card".to_owned()]
    );
    assert_eq!(totals_of(&plan)[2].1, vec![("AUD".to_owned(), Dec::new(10, 0))]);
}

#[test]
fn an_untouched_amount_still_claims_its_bucket() {
    let raw = RawTransaction::new(day(), "X", vec![RawPosting::new("Expenses:Food", amount(5, "AUD")), RawPosting::new("Assets:Bank", None)]);
    let plans = planned(&[raw]);
    let mut plan = PlanTotals::new();
    plan.record_legs(&vec![posting(1, 4, Some(0)), posting(2, 2, None)], &plans[0], &None);
    assert_eq!(
        totals_of(&plan),
        vec![("Assets:Bank".to_owned(), vec![]), ("Expenses:Food".to_owned(), vec![("AUD".to_owned(), Dec::new(0, 0))])]
    );
}

#[test]
fn appending_moves_the_stored_elided_leg_by_the_difference() {
    let stored = vec![posting(1, 4, Some(5)), posting(2, 2, None)];
    assert_eq!(residual(&stored), Some(vec![("AUD".to_owned(), Dec::new(-5, 0))]));
    assert_eq!(residual(&vec![posting(1, 4, Some(5))]), None, "no elided leg absorbs a residual");
    assert_eq!(residual(&vec![posting(1, 4, None), posting(2, 2, None)]), None, "two elided legs share none");
    let raw = RawTransaction::new(day(), "FEE", vec![RawPosting::new("Expenses:Food", amount(1, "AUD"))]);
    let plans = planned(&[raw]);
    let appended = vec![posting(3, 4, Some(1))];
    let mut plan = PlanTotals::new();
    plan.attach(&stored, &vec![Some("Expenses:Food".to_owned()), Some("Assets:Bank".to_owned())], &appended, &plans[0]);
    assert_eq!(
        totals_of(&plan),
        vec![
            ("Assets:Bank".to_owned(), vec![("AUD".to_owned(), Dec::new(-1, 0))]),
            ("Expenses:Food".to_owned(), vec![("AUD".to_owned(), Dec::new(1, 0))]),
        ]
    );
}
