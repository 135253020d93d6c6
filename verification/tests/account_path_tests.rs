use bc_core::account_path::{render_path, AccountPath, AccountResolver, Resolution};
use bc_core::error::BcError;
use bc_core::model::{AccountId, AccountRecord};

fn segs(path: &AccountPath) -> Vec<String> {
    path.segments().to_vec()
}

#[test]
fn parses_a_multi_segment_path() {
    let path = AccountPath::parse("Assets:Bank:Checking").expect("valid path");
    assert_eq!(segs(&path), ["Assets".to_owned(), "Bank".to_owned(), "Checking".to_owned()]);
}

#[test]
fn parses_a_single_segment_path() {
    let path = AccountPath::parse("Assets").expect("valid path");
    assert_eq!(segs(&path), ["Assets".to_owned()]);
}

#[test]
fn trims_whitespace_around_segments() {
    let path = AccountPath::parse(" Assets : Bank ").expect("valid path");
    assert_eq!(segs(&path), ["Assets".to_owned(), "Bank".to_owned()]);
}

#[test]
fn preserves_internal_spaces_in_a_segment() {
    let path = AccountPath::parse("Assets:Joint Savings").expect("valid path");
    assert_eq!(segs(&path), ["Assets".to_owned(), "Joint Savings".to_owned()]);
}

#[test]
fn matching_is_case_sensitive_so_case_survives_parsing() {
    let path = AccountPath::parse("assets:bank").expect("valid path");
    assert_eq!(segs(&path), ["assets".to_owned(), "bank".to_owned()]);
}

#[test]
fn rejects_malformed_paths() {
    for raw in ["", "   ", ":", ":Assets", "Assets:", "Assets::Bank", "Assets: :Bank"] {
        assert!(AccountPath::parse(raw).is_err(), "'{raw}' must be rejected as a malformed account path");
    }
}

#[test]
fn a_malformed_path_is_refused_with_its_message() {
    match AccountPath::parse("Assets::Bank") {
        Err(BcError::BadData(m)) => {
            assert_eq!(m, "malformed account path 'Assets::Bank': segments must be non-empty")
        }
        other => panic!("expected bad data, got {other:?}"),
    }
}

#[test]
fn displays_as_a_colon_joined_string() {
    let path = AccountPath::parse(" Assets : Bank ").expect("valid path");
    assert_eq!(path.to_string(), "Assets:Bank");
}

fn account(id: u64, name: &str, parent: Option<u64>, archived: bool) -> AccountRecord {
    AccountRecord { id: AccountId(id), name: name.to_owned(), parent_id: parent.map(AccountId), archived }
}

fn tree() -> Vec<AccountRecord> {
    vec![
        account(1, "Assets", None, false),
        account(2, "Bank", Some(1), false),
        account(3, "Old", Some(1), true),
        account(4, "Expenses", None, false),
    ]
}

#[test]
fn resolves_a_path_to_its_account() {
    let resolver = AccountResolver::from_accounts(tree());
    let path = AccountPath::parse("Assets:Bank").expect("valid path");
    assert_eq!(resolver.resolve(&path), Resolution::Resolved { id: AccountId(2), archived: false });
    let archived = AccountPath::parse("Assets:Old").expect("valid path");
    assert_eq!(resolver.resolve(&archived), Resolution::Resolved { id: AccountId(3), archived: true });
}

#[test]
fn reports_how_far_a_missing_path_resolved() {
    let resolver = AccountResolver::from_accounts(tree());
    let path = AccountPath::parse("Assets:Bank:Savings:Joint").expect("valid path");
    assert_eq!(
        resolver.resolve(&path),
        Resolution::Missing { resolved_prefix: "Assets:Bank".to_owned(), missing_segment: "Savings".to_owned() }
    );
    let root = AccountPath::parse("Income").expect("valid path");
    assert_eq!(
        resolver.resolve(&root),
        Resolution::Missing { resolved_prefix: String::new(), missing_segment: "Income".to_owned() }
    );
}

#[test]
fn a_rendered_path_resolves_back_to_its_account() {
    let resolver = AccountResolver::from_accounts(tree());
    let rendered = resolver.path_of(&AccountId(2)).expect("listed").to_owned();
    assert_eq!(rendered, "Assets:Bank");
    let path = AccountPath::parse(&rendered).expect("valid path");
    assert_eq!(resolver.resolve(&path), Resolution::Resolved { id: AccountId(2), archived: false });
    assert_eq!(resolver.path_of(&AccountId(99)), None);
}

#[test]
fn a_resolved_path_renders_back_as_itself() {
    let resolver = AccountResolver::from_accounts(tree());
    for raw in ["Assets", "Assets:Bank", " Assets : Old "] {
        let path = AccountPath::parse(raw).expect("valid path");
        match resolver.resolve(&path) {
            Resolution::Resolved { id, .. } => assert_eq!(resolver.path_of(&id), Some(path.to_string().as_str())),
            other => panic!("expected '{raw}' to resolve, got {other:?}"),
        }
    }
}

#[test]
fn every_segment_is_nonempty_trimmed_and_colon_free() {
    let path = AccountPath::parse(" Assets :  Joint Savings :Bank\t").expect("valid path");
    let segments = path.segments();
    assert_eq!(segments.len(), 3);
    for segment in segments {
        assert!(!segment.is_empty());
        assert_eq!(segment.trim(), segment.as_str());
        assert!(!segment.contains(':'));
    }
    assert_eq!(path.clone().segments(), segments);
}

#[test]
fn render_path_walks_to_the_root() {
    let accounts = tree();
    assert_eq!(render_path(&accounts, AccountId(2), 4), "Assets:Bank");
    assert_eq!(render_path(&accounts, AccountId(2), 1), "Bank");
    assert_eq!(render_path(&accounts, AccountId(42), 4), "");
}
