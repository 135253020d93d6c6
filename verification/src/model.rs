//! Identifiers and records the engine reads.

use vstd::prelude::*;
use vstd::string::*;

verus! {

/// Identifies one account.
#[derive(Debug, Clone, Copy, PartialEq, Eq, Hash, Structural)]
pub struct AccountId(pub u64);

/// One account as a snapshot of the account tree holds it.
#[derive(Debug, Clone, PartialEq, Eq)]
pub struct AccountRecord {
    /// The account.
    pub id: AccountId,
    /// Its name, unique among its siblings.
    pub name: String,
    /// Its parent, or `None` for a root.
    pub parent_id: Option<AccountId>,
    /// Whether it is archived.
    pub archived: bool,
}

} // verus!

verus! {

/// A commodity code as a document or the registry states it, e.g. `AUD`.
#[derive(Debug, Clone, PartialEq, Eq)]
pub struct CommodityCode(pub String);

impl CommodityCode {
    /// The code's text.
    pub open spec fn view(&self) -> Seq<char> {
        self.0@
    }

    /// Wraps `code` verbatim.
    pub fn new(code: &str) -> (r: CommodityCode)
        ensures
            r@ == code@,
    {
        CommodityCode(String::from_str(code))
    }

    /// The code's text.
    pub fn as_str(&self) -> (r: &str)
        ensures
            r@ == self@,
    {
        self.0.as_str()
    }
}

/// One registered commodity: its code, its optional symbol, and its aliases.
#[derive(Debug, Clone, PartialEq, Eq)]
pub struct Commodity {
    /// The registered code.
    pub code: String,
    /// The display symbol, e.g. `A$`.
    pub symbol: Option<String>,
    /// Further markers that denote this commodity.
    pub aliases: Vec<String>,
}

impl Commodity {
    /// Builds a commodity record.
    pub fn new(code: &str, symbol: Option<&str>, aliases: Vec<String>) -> (r: Commodity)
        ensures
            r.code@ == code@,
            r.symbol is Some <==> symbol is Some,
            r.symbol matches Some(s) ==> s@ == symbol->0@,
            r.aliases@ == aliases@,
    {
        let symbol = match symbol {
            Some(s) => Some(String::from_str(s)),
            None => None,
        };
        Commodity { code: String::from_str(code), symbol, aliases }
    }
}

} // verus!

verus! {

/// Identifies one transaction.
#[derive(Debug, Clone, Copy, PartialEq, Eq, Hash, Structural)]
pub struct TransactionId(pub u64);

/// Identifies one posting.
#[derive(Debug, Clone, Copy, PartialEq, Eq, Hash, Structural)]
pub struct PostingId(pub u64);

/// Identifies one tag.
#[derive(Debug, Clone, Copy, PartialEq, Eq, Hash, Structural)]
pub struct TagId(pub u64);

/// Identifies one import batch.
#[derive(Debug, Clone, Copy, PartialEq, Eq, Hash, Structural)]
pub struct ImportBatchId(pub u64);

/// Identifies one import profile.
#[derive(Debug, Clone, Copy, PartialEq, Eq, Hash, Structural)]
pub struct ProfileId(pub u64);

/// A calendar date.
#[derive(Debug, Clone, Copy, PartialEq, Eq, Hash, Structural)]
pub struct Date {
    /// The year.
    pub year: i16,
    /// The month, `1..=12`.
    pub month: i8,
    /// The day of the month.
    pub day: i8,
}

/// A quantity of one commodity.
#[derive(Debug, Clone, PartialEq, Eq)]
pub struct Amount {
    /// How much.
    pub value: crate::decimal::Dec,
    /// Of what.
    pub commodity: CommodityCode,
}

impl Amount {
    /// Whether the amount is well formed.
    pub open spec fn wf(&self) -> bool {
        self.value.wf()
    }

    /// Whether two amounts are equal as `Amount`'s `==` compares them: the
    /// same number of the same commodity.
    pub open spec fn same(&self, other: &Amount) -> bool {
        self.value.same_value(other.value) && self.commodity@ == other.commodity@
    }

    /// Builds an amount.
    pub fn new(value: crate::decimal::Dec, commodity: CommodityCode) -> (r: Amount)
        ensures
            r.value == value,
            r.commodity == commodity,
    {
        Amount { value, commodity }
    }

    /// Decides [`Amount::same`].
    pub fn equals(&self, other: &Amount) -> (r: bool)
        requires
            self.wf(),
            other.wf(),
        ensures
            r == self.same(other),
    {
        self.value.value_eq(&other.value) && crate::text::str_equal_text(self.commodity.as_str(), other.commodity.as_str())
    }
}

/// Whether an optional amount is well formed.
pub open spec fn amount_wf(a: Option<Amount>) -> bool {
    match a {
        Some(x) => x.wf(),
        None => true,
    }
}

/// Whether two optional amounts are equal as `Option<Amount>`'s `==` compares them.
pub open spec fn same_amount(a: Option<Amount>, b: Option<Amount>) -> bool {
    match (a, b) {
        (None, None) => true,
        (Some(x), Some(y)) => x.same(&y),
        _ => false,
    }
}

/// Decides [`same_amount`].
pub fn amounts_equal(a: &Option<Amount>, b: &Option<Amount>) -> (r: bool)
    requires
        a matches Some(x) ==> x.wf(),
        b matches Some(y) ==> y.wf(),
    ensures
        r == same_amount(*a, *b),
{
    match (a, b) {
        (None, None) => true,
        (Some(x), Some(y)) => x.equals(y),
        _ => false,
    }
}

} // verus!

verus! {

/// The decimal digit `d`, for `d < 10`.
pub open spec fn digit_char(d: nat) -> char {
    if d == 0 { '0' } else if d == 1 { '1' } else if d == 2 { '2' } else if d == 3 { '3' }
    else if d == 4 { '4' } else if d == 5 { '5' } else if d == 6 { '6' } else if d == 7 { '7' }
    else if d == 8 { '8' } else { '9' }
}

/// `n` written in decimal, without leading zeros.
pub open spec fn decimal_text(n: nat) -> Seq<char>
    decreases n,
{
    if n < 10 {
        seq![digit_char(n)]
    } else {
        decimal_text(n / 10).push(digit_char(n % 10))
    }
}

/// The one-character text of the digit `d`.
fn digit_str(d: u64) -> (r: &'static str)
    requires
        d < 10,
    ensures
        r@ == seq![digit_char(d as nat)],
{
    proof {
        reveal_strlit("0");
        reveal_strlit("1");
        reveal_strlit("2");
        reveal_strlit("3");
        reveal_strlit("4");
        reveal_strlit("5");
        reveal_strlit("6");
        reveal_strlit("7");
        reveal_strlit("8");
        reveal_strlit("9");
    }
    if d == 0 { "0" } else if d == 1 { "1" } else if d == 2 { "2" } else if d == 3 { "3" }
    else if d == 4 { "4" } else if d == 5 { "5" } else if d == 6 { "6" } else if d == 7 { "7" }
    else if d == 8 { "8" } else { "9" }
}

/// Appends `n` in decimal to `out`.
fn push_decimal(out: &mut String, n: u64)
    ensures
        final(out)@ == old(out)@ + decimal_text(n as nat),
    decreases n,
{
    if n >= 10 {
        push_decimal(out, n / 10);
    }
    let d = digit_str(n % 10);
    out.append(d);
    proof {
        if n >= 10 {
            assert(decimal_text(n as nat) == decimal_text((n / 10) as nat).push(digit_char((n % 10) as nat)));
        }
    }
}

/// `n` in decimal.
pub fn u64_text(n: u64) -> (r: String)
    ensures
        r@ == decimal_text(n as nat),
{
    let mut out = String::new();
    push_decimal(&mut out, n);
    proof {
        assert(Seq::<char>::empty() + decimal_text(n as nat) =~= decimal_text(n as nat));
    }
    out
}

/// The text an import batch id renders as.
pub fn id_text(id: ImportBatchId) -> (r: String)
    ensures
        r@ == decimal_text(id.0 as nat),
{
    u64_text(id.0)
}

} // verus!

verus! {

/// Where a transaction stands against a statement.
#[derive(Debug, Clone, Copy, PartialEq, Eq, Structural)]
pub enum Reconciliation {
    /// Not yet checked against a statement.
    Unreconciled,
    /// Flagged by the user for review.
    Flagged,
    /// Confirmed against a statement.
    Reconciled,
}

/// One leg of a stored transaction.
#[derive(Debug)]
pub struct Posting {
    /// The posting.
    pub id: PostingId,
    /// The account it is booked to.
    pub account_id: AccountId,
    /// Its amount; `None` when it absorbs the transaction's residual.
    pub amount: Option<Amount>,
    /// Its metadata.
    pub metadata: Vec<crate::metadata::MetaEntry>,
    /// Its tags.
    pub tag_ids: Vec<TagId>,
}

/// A stored transaction.
#[derive(Debug)]
pub struct Transaction {
    /// The transaction.
    pub id: TransactionId,
    /// Its date.
    pub date: Date,
    /// Its description.
    pub description: String,
    /// Its metadata.
    pub metadata: Vec<crate::metadata::MetaEntry>,
    /// Its tags.
    pub tag_ids: Vec<TagId>,
    /// Its postings, in position order.
    pub postings: Vec<Posting>,
    /// Its reconciliation state.
    pub reconciliation: Reconciliation,
}

} // verus!
