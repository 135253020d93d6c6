use std::collections::HashSet;

use bc_core::coerce::{coerce, date_string, int_string, parse_value, read_value, refit_row, rename_decision, retype_decision, timestamp_string, type_from_name, type_name_text, Coerced, Refit, Retype};
use bc_core::decimal::Dec;
use bc_core::error::BcError;
use bc_core::metadata::{MetaKey, MetaType, MetaValue, Timestamp};
use bc_core::model::{AccountId, Amount, CommodityCode, Date};

const ALL_TYPES: [MetaType; 7] = [
    MetaType::Text,
    MetaType::Number,
    MetaType::Boolean,
    MetaType::Date,
    MetaType::Timestamp,
    MetaType::Amount,
    MetaType::Account,
];

fn stamp() -> Timestamp {
    Timestamp { seconds: 1_700_000_000, nanos: 0 }
}

fn day() -> Date {
    Date { year: 2026, month: 1, day: 15 }
}

fn aud(mantissa: i128, scale: u32) -> Amount {
    Amount::new(Dec::new(mantissa, scale), CommodityCode::new("AUD"))
}

fn sample_value(ty: MetaType, account: AccountId) -> MetaValue {
    match ty {
        MetaType::Text => MetaValue::Text("Generic Grocer".to_owned()),
        MetaType::Number => MetaValue::Number(Dec::new(150250, 2)),
        MetaType::Boolean => MetaValue::Boolean(true),
        MetaType::Date => MetaValue::Date(day()),
        MetaType::Timestamp => MetaValue::Timestamp(stamp()),
        MetaType::Amount => MetaValue::Amount(aud(4200, 2)),
        MetaType::Account => MetaValue::Account(account),
    }
}

fn fits_text(text: &str) -> Coerced {
    Coerced::Fits(MetaValue::Text(text.to_owned()))
}

#[test]
fn sample_value_covers_every_type_exactly_once() {
    let account = AccountId(31);
    let produced: Vec<MetaType> = ALL_TYPES.iter().map(|ty| sample_value(*ty, account).ty()).collect();
    assert_eq!(produced, ALL_TYPES.to_vec());
    let distinct: HashSet<MetaType> = ALL_TYPES.into_iter().collect();
    assert_eq!(distinct.len(), 7, "ALL_TYPES lists each type once");
}

#[test]
fn the_coercion_matrix_covers_all_forty_nine_pairs() {
    let account = AccountId(31);
    let mut actual: Vec<(MetaType, MetaType, Coerced)> = Vec::new();
    for asserted in ALL_TYPES {
        for registered in ALL_TYPES {
            actual.push((asserted, registered, coerce(&sample_value(asserted, account), registered)));
        }
    }
    assert_eq!(actual.len(), 49, "seven asserted types by seven registered");

    let mismatch = Coerced::Mismatch;
    let mut expected: Vec<(MetaType, MetaType, Coerced)> = Vec::new();
    for asserted in ALL_TYPES {
        for registered in ALL_TYPES {
            let outcome = if asserted == registered {
                Coerced::Fits(sample_value(asserted, account))
            } else if registered == MetaType::Text {
                match asserted {
                    MetaType::Number => fits_text("1502.50"),
                    MetaType::Boolean => fits_text("true"),
                    MetaType::Date => fits_text("2026-01-15"),
                    MetaType::Timestamp => fits_text("2023-11-14T22:13:20Z"),
                    MetaType::Amount => fits_text("42.00 AUD"),
                    MetaType::Account => fits_text("31"),
                    MetaType::Text => unreachable!(),
                }
            } else {
                mismatch.clone()
            };
            expected.push((asserted, registered, outcome));
        }
    }
    assert_eq!(actual, expected);
}

#[test]
fn identity_always_fits_and_keeps_the_value() {
    let account = AccountId(31);
    for ty in ALL_TYPES {
        let value = sample_value(ty, account);
        assert_eq!(coerce(&value, ty), Coerced::Fits(value.clone()), "identity must not reshape the value");
    }
}

#[test]
fn every_type_fits_a_text_key_as_its_canonical_form() {
    let account = AccountId(31);
    let canonical = ["Generic Grocer", "1502.50", "true", "2026-01-15", "2023-11-14T22:13:20Z", "42.00 AUD", "31"];
    for (ty, text) in ALL_TYPES.into_iter().zip(canonical) {
        let value = sample_value(ty, account);
        assert_eq!(coerce(&value, MetaType::Text), fits_text(text), "a text key accepts anything, as its canonical string");
    }
}

#[test]
fn text_is_rescued_by_the_registered_types_parser() {
    let cases = [
        (MetaType::Text, "anything at all", MetaValue::Text("anything at all".to_owned())),
        (MetaType::Number, "1502.50", MetaValue::Number(Dec::new(150250, 2))),
        (MetaType::Boolean, "true", MetaValue::Boolean(true)),
        (MetaType::Boolean, "false", MetaValue::Boolean(false)),
        (MetaType::Date, "2026-01-15", MetaValue::Date(day())),
    ];
    for (registered, text, expected) in cases {
        assert_eq!(coerce(&MetaValue::Text(text.to_owned()), registered), Coerced::Fits(expected));
    }
}

#[test]
fn text_is_rescued_into_a_timestamp_and_an_amount() {
    assert_eq!(
        coerce(&MetaValue::Text("2023-11-14T22:13:20Z".to_owned()), MetaType::Timestamp),
        Coerced::Fits(MetaValue::Timestamp(stamp()))
    );
    assert_eq!(
        coerce(&MetaValue::Text("42.00 AUD".to_owned()), MetaType::Amount),
        Coerced::Fits(MetaValue::Amount(aud(4200, 2)))
    );
}

#[test]
fn text_holding_an_account_id_is_rescued_into_an_account() {
    let account = AccountId(987_654_321);
    assert_eq!(
        coerce(&MetaValue::Text("987654321".to_owned()), MetaType::Account),
        Coerced::Fits(MetaValue::Account(account))
    );
}

#[test]
fn text_holding_an_account_path_is_a_mismatch() {
    assert_eq!(coerce(&MetaValue::Text("Assets:Bank:Savings".to_owned()), MetaType::Account), Coerced::Mismatch);
}

#[test]
fn text_that_does_not_parse_is_a_mismatch() {
    let cases = [
        (MetaType::Number, "not-a-number"),
        (MetaType::Boolean, "yes"),
        (MetaType::Date, "2026-13-99"),
        (MetaType::Timestamp, "yesterday"),
        (MetaType::Amount, "42.00"),
        (MetaType::Account, "not an id"),
    ];
    for (registered, text) in cases {
        assert_eq!(coerce(&MetaValue::Text(text.to_owned()), registered), Coerced::Mismatch);
    }
}

#[test]
fn a_stored_row_reads_back_as_its_type_or_as_flagged_text() {
    assert_eq!(read_value(MetaType::Number, "12.5".to_owned(), None, false), (MetaValue::Number(Dec::new(125, 1)), false));
    assert_eq!(read_value(MetaType::Number, "12.5".to_owned(), None, true), (MetaValue::Text("12.5".to_owned()), true));
    assert_eq!(
        read_value(MetaType::Account, "Assets:Bank".to_owned(), Some("12".to_owned()), false),
        (MetaValue::Account(AccountId(12)), false)
    );
    assert_eq!(
        read_value(MetaType::Account, "Assets:Bank".to_owned(), None, false),
        (MetaValue::Text("Assets:Bank".to_owned()), true)
    );
    assert_eq!(read_value(MetaType::Date, "soon".to_owned(), None, false), (MetaValue::Text("soon".to_owned()), true));
}

#[test]
fn a_refit_keeps_the_stored_text_of_what_will_not_fit() {
    match refit_row(MetaType::Account, MetaType::Number, "Assets:Bank".to_owned(), Some("12".to_owned()), false) {
        Refit::Mismatch(text) => assert_eq!(text, "Assets:Bank"),
        other => panic!("expected a mismatch, got {other:?}"),
    }
    match refit_row(MetaType::Text, MetaType::Number, "1502.50".to_owned(), None, true) {
        Refit::Fits(v) => assert_eq!(v, MetaValue::Number(Dec::new(150250, 2))),
        other => panic!("expected a fit, got {other:?}"),
    }
}

#[test]
fn a_retype_to_text_keeps_the_stored_text() {
    match refit_row(MetaType::Account, MetaType::Text, "Assets:Bank".to_owned(), Some("12".to_owned()), false) {
        Refit::Fits(v) => assert_eq!(v, MetaValue::Text("Assets:Bank".to_owned())),
        other => panic!("expected the stored text, got {other:?}"),
    }
    match refit_row(MetaType::Number, MetaType::Text, "1502.50".to_owned(), None, false) {
        Refit::Fits(v) => assert_eq!(v, MetaValue::Text("1502.50".to_owned())),
        other => panic!("expected the stored text, got {other:?}"),
    }
}

#[test]
fn dates_and_instants_render_even_when_out_of_range() {
    assert_eq!(date_string(&Date { year: 2026, month: 3, day: 7 }), "2026-03-07");
    assert_eq!(date_string(&Date { year: 2026, month: 2, day: 30 }), "2026-2-30");
    assert_eq!(timestamp_string(&Timestamp { seconds: 0, nanos: 0 }), "1970-01-01T00:00:00Z");
    assert_eq!(timestamp_string(&Timestamp { seconds: i64::MAX, nanos: 5 }), format!("{}.5", i64::MAX));
    assert_eq!(int_string(-42), "-42");
    assert_eq!(int_string(i64::MIN), "-9223372036854775808");
}

#[test]
fn parse_value_reads_each_type() {
    assert_eq!(parse_value(MetaType::Boolean, "false"), Some(MetaValue::Boolean(false)));
    assert_eq!(parse_value(MetaType::Amount, "5 BTC"), Some(MetaValue::Amount(Amount::new(Dec::new(5, 0), CommodityCode::new("BTC")))));
    assert_eq!(parse_value(MetaType::Amount, "5 "), None);
}

#[test]
fn type_names_round_trip() {
    for ty in ALL_TYPES {
        assert_eq!(type_from_name(type_name_text(ty)), Ok(ty));
    }
    match type_from_name("colour") {
        Err(BcError::BadData(m)) => assert_eq!(m, "unknown metadata type 'colour'"),
        other => panic!("expected bad data, got {other:?}"),
    }
}

#[test]
fn retype_decides_from_the_stored_type() {
    let key = MetaKey("payee".to_owned());
    assert_eq!(retype_decision(&key, &Some("text".to_owned()), MetaType::Text), Ok(Retype::Unchanged(MetaType::Text)));
    assert_eq!(
        retype_decision(&key, &Some("text".to_owned()), MetaType::Date),
        Ok(Retype::Change { from: MetaType::Text, to: MetaType::Date })
    );
    match retype_decision(&key, &None, MetaType::Date) {
        Err(BcError::NotFound(m)) => assert_eq!(m, "metadata key 'payee'"),
        other => panic!("expected not found, got {other:?}"),
    }
}

#[test]
fn rename_refuses_a_registered_destination() {
    let from = MetaKey("payee".to_owned());
    let to = MetaKey("merchant".to_owned());
    assert_eq!(rename_decision(&from, &from, false, false), Ok(false));
    assert_eq!(rename_decision(&from, &to, true, false), Ok(true));
    match rename_decision(&from, &to, true, true) {
        Err(BcError::InvalidInput(m)) => {
            assert_eq!(m, "cannot rename metadata key 'payee' to 'merchant': 'merchant' is already registered")
        }
        other => panic!("expected invalid input, got {other:?}"),
    }
    match rename_decision(&from, &to, false, true) {
        Err(BcError::NotFound(m)) => assert_eq!(m, "metadata key 'payee'"),
        other => panic!("expected not found, got {other:?}"),
    }
}
