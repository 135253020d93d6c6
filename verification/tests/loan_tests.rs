use bc_core::decimal::Dec;
use bc_core::error::BcError;
use bc_core::loan::{check_loan_account, compute_schedule, effective_offset, periods_per_year, stored_row, terms_from_row, total_payments, validate_terms, CompoundingFrequency, LoanId, LoanTerms, Period};
use bc_core::metadata::Timestamp;
use bc_core::model::{AccountId, Date};
use rust_decimal::Decimal;

fn value(d: Dec) -> Decimal {
    Decimal::from_i128_with_scale(d.mantissa, d.scale)
}

fn terms(principal: i64, rate: Dec, term_months: u32, frequency: Period, compounding: CompoundingFrequency) -> LoanTerms {
    LoanTerms {
        id: LoanId(1),
        account_id: AccountId(9),
        principal: Dec::new(principal as i128, 0),
        annual_rate: rate,
        start_date: Date { year: 2026, month: 1, day: 1 },
        term_months,
        repayment_frequency: frequency,
        compounding_frequency: compounding,
        offset_account_ids: vec![],
        commodity: "AUD".to_owned(),
        created_at: Timestamp { seconds: 0, nanos: 0 },
    }
}

fn next_month(d: Date) -> Date {
    if d.month == 12 {
        Date { year: d.year + 1, month: 1, day: d.day }
    } else {
        Date { year: d.year, month: d.month + 1, day: d.day }
    }
}

fn annuity(principal: f64, rate: f64, n: u32) -> Dec {
    let compound = (1.0 + rate).powf(f64::from(n));
    let payment = principal * rate * compound / (compound - 1.0);
    Dec::new((payment * 100.0).round() as i128, 2)
}

#[test]
fn terms_are_checked_before_anything_is_read() {
    let rate = Dec::new(5, 2);
    let zero_principal = terms(0, rate, 12, Period::Monthly, CompoundingFrequency::Monthly);
    assert_eq!(validate_terms(&zero_principal), Err(BcError::BadData("loan principal must be greater than zero".to_owned())));
    let negative_rate = terms(10_000, Dec::new(-1, 2), 12, Period::Monthly, CompoundingFrequency::Monthly);
    assert_eq!(validate_terms(&negative_rate), Err(BcError::BadData("loan annual rate must not be negative".to_owned())));
    let zero_term = terms(10_000, rate, 0, Period::Monthly, CompoundingFrequency::Monthly);
    assert_eq!(validate_terms(&zero_term), Err(BcError::BadData("loan term must be at least one month".to_owned())));
    assert_eq!(validate_terms(&terms(10_000, rate, 12, Period::Monthly, CompoundingFrequency::Monthly)), Ok(()));
}

#[test]
fn only_a_receivable_holds_a_loan() {
    assert_eq!(check_loan_account(AccountId(9), Some(("receivable".to_owned(), Ok("receivable".to_owned())))), Ok(()));
    assert_eq!(
        check_loan_account(AccountId(9), Some(("deposit_account".to_owned(), Ok("deposit_account".to_owned())))),
        Err(BcError::InvalidAccountKind {
            operation: "set loan terms".to_owned(),
            account_id: AccountId(9),
            kind: "deposit_account".to_owned(),
        })
    );
    assert_eq!(check_loan_account(AccountId(9), None), Err(BcError::NotFound("account 9".to_owned())));
    let undecodable = Err(BcError::Serialisation("unknown variant `safe_deposit_box`".to_owned()));
    assert_eq!(
        check_loan_account(AccountId(9), Some(("safe_deposit_box".to_owned(), undecodable.clone()))),
        undecodable.map(|_: String| ())
    );
}

#[test]
fn periods_a_year_and_payments_a_term() {
    assert_eq!(value(periods_per_year(&Period::Weekly).expect("weekly")), Decimal::from(52));
    let custom = Period::Custom { days: Some(28), weeks: None, months: None };
    assert_eq!(value(periods_per_year(&custom).expect("custom")), Decimal::from(365) / Decimal::from(28));
    assert_eq!(
        periods_per_year(&Period::Custom { days: None, weeks: Some(0), months: None }),
        Err(BcError::BadData("custom period has zero duration".to_owned()))
    );
    assert_eq!(total_payments(360, &Period::Monthly), Ok(360));
    assert_eq!(total_payments(12, &custom), Ok(13));
    assert_eq!(total_payments(12, &Period::Fortnightly), Ok(26));
    assert_eq!(total_payments(18, &Period::CalendarYear), Ok(2), "1.5 rounds half to even");
}

#[test]
fn the_offset_is_clamped_to_the_principal() {
    let balances = vec![(AccountId(1), Dec::new(300_000, 0)), (AccountId(2), Dec::new(250_000, 0))];
    let principal = Dec::new(500_000, 0);
    assert_eq!(value(effective_offset(&vec![AccountId(1)], &balances, principal)), Decimal::from(300_000));
    assert_eq!(value(effective_offset(&vec![AccountId(1), AccountId(2)], &balances, principal)), Decimal::from(500_000));
    assert_eq!(value(effective_offset(&vec![AccountId(3)], &balances, principal)), Decimal::ZERO);
    let overdrawn = vec![(AccountId(1), Dec::new(-50, 0))];
    assert_eq!(value(effective_offset(&vec![AccountId(1)], &overdrawn, principal)), Decimal::ZERO);
}

#[test]
fn amortization_schedule_first_payment_splits_correctly() {
    let t = terms(100_000, Dec::new(6, 2), 120, Period::Monthly, CompoundingFrequency::Monthly);
    let payment = annuity(100_000.0, 0.005, 120);
    let schedule = compute_schedule(&t, &vec![], payment, &next_month).expect("schedule");
    assert_eq!(schedule.len(), 120);
    let first = schedule.first().expect("first payment");
    assert_eq!(first.payment_number, 1);
    assert_eq!(value(first.interest), Decimal::new(50000, 2));
    assert_eq!(first.date, Date { year: 2026, month: 2, day: 1 });
    assert_eq!(value(first.total_payment), value(first.interest) + value(first.principal));
    let last = schedule.last().expect("last payment");
    assert_eq!(value(last.remaining_balance), Decimal::ZERO, "the last payment repays what is left");
    assert_eq!(last.payment_number, 120);
}

#[test]
fn daily_accrual_interest_greater_than_monthly() {
    let t = terms(100_000, Dec::new(6, 2), 12, Period::Monthly, CompoundingFrequency::Daily);
    let payment = annuity(100_000.0, 0.005, 12);
    let schedule = compute_schedule(&t, &vec![], payment, &next_month).expect("schedule");
    assert_eq!(schedule.len(), 12);
    let first = value(schedule.first().expect("first").interest);
    assert!(first > Decimal::from(509) && first < Decimal::from(511), "expected ~509.59 for January, got {first}");
}

#[test]
fn offset_account_reduces_interest() {
    let mut t = terms(500_000, Dec::new(6, 2), 12, Period::Monthly, CompoundingFrequency::Daily);
    let payment = annuity(500_000.0, 0.005, 12);
    let no_offset = compute_schedule(&t, &vec![], payment, &next_month).expect("schedule");
    t.offset_account_ids = vec![AccountId(77)];
    let with_offset = compute_schedule(&t, &vec![(AccountId(77), Dec::new(300_000, 0))], payment, &next_month).expect("schedule");
    let (a, b) = (with_offset.first().expect("first"), no_offset.first().expect("first"));
    assert!(value(a.interest) < value(b.interest));
    assert_eq!(value(with_offset.last().expect("last").remaining_balance), Decimal::ZERO);
}

#[test]
fn a_zero_duration_period_fails_the_schedule() {
    let t = terms(1_000, Dec::new(6, 2), 12, Period::Custom { days: None, weeks: None, months: None }, CompoundingFrequency::Monthly);
    assert!(matches!(compute_schedule(&t, &vec![], Dec::new(100, 0), &next_month), Err(BcError::BadData(_))));
}

#[test]
fn stored_terms_read_back_as_the_terms() {
    let mut t = terms(100_000, Dec::new(65, 3), 360, Period::Monthly, CompoundingFrequency::Daily);
    t.offset_account_ids = vec![AccountId(3), AccountId(12)];
    let at = Timestamp { seconds: 1_767_225_600, nanos: 250_000_000 };
    let row = stored_row(&t, &at);
    assert_eq!(row.principal, "100000");
    assert_eq!(row.interest_rate, "0.065");
    assert_eq!(row.start_date, "2026-01-01");
    let offsets: Vec<String> = t.offset_account_ids.iter().map(|a| a.0.to_string()).collect();
    let read = terms_from_row(t.account_id, row, Ok(t.repayment_frequency), Ok(t.compounding_frequency), &offsets)
        .expect("stored terms read back");
    assert_eq!(read.id, t.id);
    assert_eq!(read.account_id, t.account_id);
    assert_eq!(read.principal, t.principal);
    assert_eq!(read.annual_rate, t.annual_rate);
    assert_eq!(read.start_date, t.start_date);
    assert_eq!(read.term_months, 360);
    assert_eq!(read.repayment_frequency, Period::Monthly);
    assert_eq!(read.compounding_frequency, CompoundingFrequency::Daily);
    assert_eq!(read.offset_account_ids, t.offset_account_ids);
    assert_eq!(read.commodity, "AUD");
    assert_eq!(read.created_at, at);
}
