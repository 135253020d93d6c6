//! How many entries a metadata key holds, in each owner table.

use vstd::prelude::*;

use crate::metadata::{MetaKey, MetaType, Timestamp};
use crate::text::str_equal_text;

verus! {

/// A registered metadata key: its name, its type, and when it was registered.
/// A registered metadata key: its name, the type its values should have,
/// and when it was registered.
#[derive(Debug, Clone, PartialEq, Eq)]
pub struct MetaKeyDef {
    /// The key.
    pub key: MetaKey,
    /// The type it is registered as.
    pub ty: MetaType,
    /// When it was registered.
    pub created_at: Timestamp,
}

/// How many entries a metadata key holds. The key's registration travels
/// with the counts.
/// How much a registered key is used: the transactions and postings holding
/// an entry under it, and how many of those entries are flagged as not
/// fitting its type.
#[derive(Debug)]
pub struct Usage {
    /// The key's registration.
    def: MetaKeyDef,
    /// Rows in `transaction_metadata`.
    transactions: u64,
    /// Rows in `posting_metadata`.
    postings: u64,
    /// Rows marked `mismatched`, across both owner tables.
    mismatched: u64,
}

impl Usage {
    /// The key's registration.
    pub closed spec fn spec_def(&self) -> MetaKeyDef {
        self.def
    }

    /// The entries on transactions.
    pub closed spec fn spec_transactions(&self) -> u64 {
        self.transactions
    }

    /// The entries on postings.
    pub closed spec fn spec_postings(&self) -> u64 {
        self.postings
    }

    /// The entries, across both tables, that do not read as the key's type.
    pub closed spec fn spec_mismatched(&self) -> u64 {
        self.mismatched
    }

    /// Returns the key's registration.
    /// The key's registration.
    pub fn def(&self) -> (r: &MetaKeyDef)
        ensures
            *r == self.spec_def(),
    {
        &self.def
    }

    /// Returns the key these counts describe.
    /// The key's name.
    pub fn key(&self) -> (r: &MetaKey)
        ensures
            *r == self.spec_def().key,
    {
        &self.def.key
    }

    /// Returns the number of entries on transactions.
    /// How many transactions hold an entry under the key.
    pub fn transactions(&self) -> (r: u64)
        ensures
            r == self.spec_transactions(),
    {
        self.transactions
    }

    /// Returns the number of entries on postings.
    /// How many postings hold an entry under the key.
    pub fn postings(&self) -> (r: u64)
        ensures
            r == self.spec_postings(),
    {
        self.postings
    }

    /// Returns the number of entries across both owner tables that do not
    /// read as the key's registered type: damage already done under the type
    /// in force, not damage a retype would do.
    /// How many of those entries are flagged as mismatched, saturating.
    pub fn mismatched(&self) -> (r: u64)
        ensures
            r == self.spec_mismatched(),
    {
        self.mismatched
    }

    /// Returns the number of entries across both owner tables, saturating.
    /// Transactions and postings together, saturating.
    pub fn total(&self) -> (r: u64)
        ensures
            r == if self.spec_transactions() + self.spec_postings() > u64::MAX {
                u64::MAX as int
            } else {
                self.spec_transactions() + self.spec_postings()
            },
    {
        self.transactions.saturating_add(self.postings)
    }
}

/// One owner table's counts for one key: its entries and its flagged ones.
/// One stored count row: a key, how many owners hold it, and how many of
/// those entries are flagged.
pub type KeyCounts = (String, u64, u64);

/// The magnitude of a count as `i64::unsigned_abs` gives it.
/// A stored count read back as a count: its magnitude.
pub open spec fn magnitude(v: i64) -> u64 {
    if v < 0 { (-(v as int)) as u64 } else { v as u64 }
}

/// The magnitude of `v`, as `i64::unsigned_abs` computes it.
fn abs_count(v: i64) -> (r: u64)
    ensures
        r == magnitude(v),
{
    if v < 0 {
        (-(v as i128)) as u64
    } else {
        v as u64
    }
}

/// Reads one owner table's per-key `(key, entries, flagged)` rows into
/// counts; `COUNT` and `SUM` over a non-negative column never go negative,
/// so the sign is discarded rather than checked.
/// Reads the rows of a per-key count query into counts.
pub fn counts_from_rows(rows: &Vec<(String, i64, i64)>) -> (r: Vec<KeyCounts>)
    ensures
        r@.len() == rows@.len(),
        forall|i: int| 0 <= i < rows@.len() ==> (#[trigger] r@[i]).0@ == rows@[i].0@ && r@[i].1 == magnitude(rows@[i].1)
            && r@[i].2 == magnitude(rows@[i].2),
{
    let mut out: Vec<KeyCounts> = Vec::new();
    let mut i: usize = 0;
    while i < rows.len()
        invariant
            i <= rows@.len(),
            out@.len() == i,
            forall|j: int| 0 <= j < i ==> (#[trigger] out@[j]).0@ == rows@[j].0@ && out@[j].1 == magnitude(rows@[j].1)
                && out@[j].2 == magnitude(rows@[j].2),
        decreases rows@.len() - i,
    {
        let row = &rows[i];
        out.push((row.0.clone(), abs_count(row.1), abs_count(row.2)));
        i = i + 1;
    }
    out
}

/// The counts a table holds for `key`: its first row for it, or zeros.
/// The counts the first row under `key` holds, none when no row does.
pub open spec fn counts_for(table: Seq<KeyCounts>, key: Seq<char>) -> (u64, u64)
    decreases table.len(),
{
    if table.len() == 0 {
        (0, 0)
    } else if table[0].0@ == key {
        (table[0].1, table[0].2)
    } else {
        counts_for(table.drop_first(), key)
    }
}

/// Looks one key's counts up.
fn find_counts(table: &Vec<KeyCounts>, key: &str) -> (r: (u64, u64))
    ensures
        r == counts_for(table@, key@),
{
    let mut i: usize = 0;
    proof {
        assert(table@.skip(0) =~= table@);
    }
    while i < table.len()
        invariant
            i <= table@.len(),
            counts_for(table@, key@) == counts_for(table@.skip(i as int), key@),
        decreases table@.len() - i,
    {
        proof {
            assert(table@.skip(i as int)[0] == table@[i as int]);
            assert(table@.skip(i as int).drop_first() =~= table@.skip(i + 1));
        }
        if str_equal_text(table[i].0.as_str(), key) {
            return (table[i].1, table[i].2);
        }
        i = i + 1;
    }
    (0, 0)
}

/// Joins one registration to the two owner tables' counts: a key absent
/// from a table holds nothing there, and the flagged counts add, saturating.
/// Puts a key's usage together from the per-key counts over transactions
/// and over postings.
pub fn assemble(def: MetaKeyDef, transactions: &Vec<KeyCounts>, postings: &Vec<KeyCounts>) -> (r: Usage)
    ensures
        r.spec_def() == def,
        r.spec_transactions() == counts_for(transactions@, def.key.0@).0,
        r.spec_postings() == counts_for(postings@, def.key.0@).0,
        r.spec_mismatched() == if counts_for(transactions@, def.key.0@).1 + counts_for(postings@, def.key.0@).1
            > u64::MAX {
            u64::MAX as int
        } else {
            counts_for(transactions@, def.key.0@).1 + counts_for(postings@, def.key.0@).1
        },
{
    let (tx_entries, tx_flagged) = find_counts(transactions, def.key.0.as_str());
    let (post_entries, post_flagged) = find_counts(postings, def.key.0.as_str());
    Usage { transactions: tx_entries, postings: post_entries, mismatched: tx_flagged.saturating_add(post_flagged), def }
}

} // verus!
