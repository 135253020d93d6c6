use bc_core::decimal::Dec;
use bc_core::ipc::{build_account_path, period_label, NativePeriodRow, NativePeriodRowExt, NativePeriodStatus, Overlap};
use bc_core::loan::Period;
use bc_core::model::Date;

#[test]
fn build_account_path_returns_name_for_root_account() {
    let accounts = vec![("1".to_owned(), "Checking".to_owned(), None)];
    assert_eq!(build_account_path("1", &accounts), "Checking");
}

#[test]
fn build_account_path_returns_hierarchical_path() {
    let accounts = vec![
        ("1".to_owned(), "Assets".to_owned(), None),
        ("2".to_owned(), "Checking".to_owned(), Some("1".to_owned())),
    ];
    assert_eq!(build_account_path("2", &accounts), "Assets :: Checking");
}

#[test]
fn build_account_path_falls_back_to_id_when_not_found() {
    let accounts = Vec::new();
    let fake_id = "account_00000000000000000000000000";
    assert_eq!(build_account_path(fake_id, &accounts), fake_id);
}

#[test]
fn a_parent_cycle_stops_at_the_first_repeated_account() {
    let accounts = vec![
        ("1".to_owned(), "A".to_owned(), Some("2".to_owned())),
        ("2".to_owned(), "B".to_owned(), Some("1".to_owned())),
    ];
    assert_eq!(build_account_path("1", &accounts), "B :: A");
}

#[test]
fn periods_have_short_labels() {
    assert_eq!(period_label(&Period::Monthly), "monthly");
    assert_eq!(period_label(&Period::FinancialYear), "financial year");
    assert_eq!(period_label(&Period::Custom { days: Some(28), weeks: None, months: None }), "custom");
}

#[test]
fn a_native_period_row_carries_its_amounts_in_the_commodity() {
    let start = Date { year: 2026, month: 1, day: 1 };
    let end = Date { year: 2026, month: 1, day: 31 };
    let status = NativePeriodStatus {
        overlap: Overlap { native_start: start, native_end: end },
        effective_target: Some(Dec::new(50000, 2)),
        actuals: Dec::new(12345, 2),
    };
    let row = NativePeriodRow::from_native(&status, "January".to_owned(), "AUD");
    assert_eq!(row.label, "January");
    assert_eq!(row.native_start, start);
    assert_eq!(row.spent.value, Dec::new(12345, 2));
    assert_eq!(row.spent.currency_code, "AUD");
    assert_eq!(row.effective_target.expect("a target").value, Dec::new(50000, 2));
}
