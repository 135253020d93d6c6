use bc_core::commodity::CommodityResolver;
use bc_core::model::{Commodity, CommodityCode};

fn registry() -> Vec<Commodity> {
    vec![
        Commodity::new("AUD", Some("A$"), vec!["AU$".to_owned()]),
        Commodity::new("BTC", Some("B"), vec![]),
    ]
}

#[test]
fn resolves_an_exact_code() {
    let r = CommodityResolver::from_commodities(&registry());
    assert_eq!(r.resolve(&CommodityCode::new("BTC")), Some("BTC"));
}

#[test]
fn resolves_a_code_case_insensitively_to_its_registered_spelling() {
    let r = CommodityResolver::from_commodities(&registry());
    assert_eq!(r.resolve(&CommodityCode::new("btc")), Some("BTC"));
    assert_eq!(r.resolve(&CommodityCode::new("Btc")), Some("BTC"));
}

#[test]
fn resolves_an_alias_to_the_canonical_code() {
    let r = CommodityResolver::from_commodities(&registry());
    assert_eq!(r.resolve(&CommodityCode::new("AU$")), Some("AUD"));
}

#[test]
fn resolves_a_symbol_to_the_canonical_code() {
    let r = CommodityResolver::from_commodities(&registry());
    assert_eq!(r.resolve(&CommodityCode::new("A$")), Some("AUD"));
}

#[test]
fn does_not_resolve_an_alias_differing_in_case() {
    let r = CommodityResolver::from_commodities(&registry());
    assert_eq!(r.resolve(&CommodityCode::new("au$")), None);
}

#[test]
fn does_not_resolve_an_unregistered_code() {
    let r = CommodityResolver::from_commodities(&registry());
    assert_eq!(r.resolve(&CommodityCode::new("DOGE")), None);
}

#[test]
fn does_not_resolve_an_empty_code() {
    let r = CommodityResolver::from_commodities(&registry());
    assert_eq!(r.resolve(&CommodityCode::new("")), None);
}
