use bc_core::decimal::Dec;
use bc_core::import::{ImportError, RawPosting, RawTransaction};
use bc_core::model::{Amount, CommodityCode, Date};

fn usd(mantissa: i128, scale: u32) -> Amount {
    Amount::new(Dec::new(mantissa, scale), CommodityCode::new("USD"))
}

fn make_raw_transaction() -> RawTransaction {
    let mut leg = RawPosting::new("Assets:Bank", Some(usd(4250, 2)));
    leg.balance = Some(usd(100000, 2));
    let mut tx = RawTransaction::new(Date { year: 2024, month: 3, day: 15 }, "Morning coffee", vec![leg]);
    tx.payee = Some("Coffee Shop".to_string());
    tx.reference = Some("REF001".to_string());
    tx
}

#[test]
fn raw_transaction_fields_are_accessible() {
    let tx = make_raw_transaction();

    assert_eq!(tx.date, Date { year: 2024, month: 3, day: 15 });
    assert_eq!(tx.postings.len(), 1);
    let posting = tx.postings.first().expect("one posting");
    assert_eq!(posting.amount, Some(usd(4250, 2)));
    assert_eq!(posting.balance, Some(usd(100000, 2)));
    assert_eq!(tx.payee.as_deref(), Some("Coffee Shop"));
    assert_eq!(tx.description, "Morning coffee");
    assert_eq!(tx.reference.as_deref(), Some("REF001"));
}

#[test]
fn raw_transaction_optional_fields_can_be_none() {
    let tx = RawTransaction::new(
        Date { year: 2024, month: 1, day: 1 },
        "Unknown",
        vec![RawPosting::new(
            "Assets:Bank",
            Some(Amount::new(Dec::new(1000, 2), CommodityCode::new("EUR"))),
        )],
    );

    assert!(tx.payee.is_none());
    assert!(tx.reference.is_none());
    assert!(tx.postings.first().expect("one posting").balance.is_none());
}

#[test]
fn import_error_invalid_config_displays() {
    let err = serde_json::from_str::<u32>("\"bad\"").expect_err("should fail");
    let import_err = ImportError::InvalidConfig(err.to_string());
    assert!(!import_err.to_string().is_empty());
}

#[test]
fn import_error_parse_displays() {
    let err = ImportError::Parse("unexpected token".to_owned());
    assert!(err.to_string().contains("unexpected token"));
}

#[test]
fn import_error_missing_field_displays() {
    let err = ImportError::MissingField("date".to_owned());
    assert!(err.to_string().contains("date"));
}

#[test]
fn import_error_bad_value_displays() {
    let err = ImportError::BadValue { field: "amount".to_owned(), detail: "must be positive".to_owned() };
    assert!(err.to_string().contains("amount"));
    assert!(err.to_string().contains("must be positive"));
}

#[test]
fn import_errors_render_their_exact_messages() {
    assert_eq!(ImportError::Parse("x".to_owned()).to_string(), "parse error: x");
    assert_eq!(ImportError::MissingField("date".to_owned()).to_string(), "missing required field: date");
    assert_eq!(ImportError::InvalidConfig("oops".to_owned()).to_string(), "invalid import configuration: oops");
    assert_eq!(
        ImportError::BadValue { field: "amount".to_owned(), detail: "must be positive".to_owned() }.to_string(),
        "bad value for field 'amount': must be positive"
    );
}
