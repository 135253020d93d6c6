//! Discarding an import batch: which of its references go, which postings
//! go with them, and what the discard reports.
//!
//! A batch's references say what the run did: a posting it created goes with
//! its reference, a posting it merely adopted stays and only loses its
//! provenance, and a reference whose posting the user already deleted (a
//! tombstone) just frees its slot. Every transaction left without postings is
//! then swept. The reads and deletes are the caller's; these functions decide
//! from what the caller read.

use vstd::prelude::*;
use vstd::string::*;

use crate::error::{BcError, BcResult};
use crate::import_exec::sat;
use crate::model::{ImportBatchId, id_text, decimal_text};
use crate::text::{insert_sorted, strictly_sorted, texts};

verus! {

/// What a discard removed.
#[derive(Debug, Clone, PartialEq, Eq)]
pub struct Outcome {
    /// The batch that was discarded.
    pub batch_id: ImportBatchId,
    /// Postings deleted because the run had created them.
    pub removed_postings: usize,
    /// Transactions deleted because the discard left them with no postings.
    pub removed_transactions: usize,
    /// References removed from postings the run adopted rather than created.
    pub detached_adopted: usize,
    /// Tombstoned references removed, freeing their occurrence slots.
    pub freed_tombstones: usize,
    /// Any other reference that went with a deleted transaction.
    pub other_batch_references_removed: usize,
    /// Any other reference left naming a posting this discard deleted, whose
    /// transaction survived; it becomes a tombstone.
    pub other_batch_references_tombstoned: usize,
    /// Of the removed postings, those the user had edited.
    pub edited_postings: usize,
    /// Of the removed postings, those in a reconciled transaction.
    pub reconciled_postings: usize,
    /// Of the removed postings, those in a transaction flagged for review.
    pub flagged_postings: usize,
}

/// `value` as a count: itself when it fits a `usize`, else `usize::MAX`.
pub open spec fn count_of(value: i64) -> int {
    if 0 <= value <= usize::MAX {
        value as int
    } else {
        usize::MAX as int
    }
}

/// Converts a `COUNT(*)` result to a `usize`, saturating rather than failing:
/// a value that does not fit, negative ones included, becomes `usize::MAX`.
pub fn to_usize(value: i64) -> (r: usize)
    ensures
        r == count_of(value),
{
    if value < 0 {
        return usize::MAX;
    }
    let v: u64 = value as u64;
    if v > usize::MAX as u64 {
        usize::MAX
    } else {
        v as usize
    }
}

/// The message naming a batch that is not on record.
pub open spec fn batch_not_found_message(id: ImportBatchId) -> Seq<char> {
    "import batch "@ + decimal_text(id.0 as nat)
}

/// The message refusing a second discard of a batch.
pub open spec fn already_discarded_message(id: ImportBatchId) -> Seq<char> {
    "import batch "@ + decimal_text(id.0 as nat) + " has already been discarded"@
}

/// Builds the error for a batch that has already been discarded.
fn already_discarded_error(id: ImportBatchId) -> (r: BcError)
    ensures
        r matches BcError::InvalidInput(m) && m@ == already_discarded_message(id),
{
    let mut m = String::from_str("import batch ");
    let t = id_text(id);
    m.append(t.as_str());
    m.append(" has already been discarded");
    BcError::InvalidInput(m)
}

/// Decides whether a batch may be discarded, from what its row says:
/// `None` when no batch has that id, `Some(Some(_))` when it carries a
/// discard time. Only a batch on record and not yet discarded may be.
pub fn ensure_discardable(id: ImportBatchId, discarded_at: &Option<Option<String>>) -> (r: BcResult<()>)
    ensures
        match discarded_at {
            None => r matches Err(BcError::NotFound(m)) && m@ == batch_not_found_message(id),
            Some(Some(_)) => r matches Err(BcError::InvalidInput(m)) && m@ == already_discarded_message(id),
            Some(None) => r is Ok,
        },
{
    match discarded_at {
        None => {
            let mut m = String::from_str("import batch ");
            let t = id_text(id);
            m.append(t.as_str());
            Err(BcError::NotFound(m))
        },
        Some(Some(_)) => Err(already_discarded_error(id)),
        Some(None) => Ok(()),
    }
}

/// One of a batch's references as stored: the posting it names (`None` for
/// a tombstone), whether the run created that posting, and its transaction.
pub type Reference = (Option<String>, bool, String);

/// The postings the run created, in reference order.
pub open spec fn owned_postings_of(refs: Seq<Reference>) -> Seq<Seq<char>>
    decreases refs.len(),
{
    if refs.len() == 0 {
        Seq::empty()
    } else {
        let prev = owned_postings_of(refs.drop_last());
        match refs.last() {
            (Some(p), true, _) => prev.push(p@),
            _ => prev,
        }
    }
}

/// How many references name a posting the run adopted.
pub open spec fn adopted_count(refs: Seq<Reference>) -> int
    decreases refs.len(),
{
    if refs.len() == 0 {
        0
    } else {
        adopted_count(refs.drop_last()) + match refs.last() {
            (Some(_), false, _) => 1int,
            _ => 0int,
        }
    }
}

/// How many references are tombstones.
pub open spec fn tombstone_count(refs: Seq<Reference>) -> int
    decreases refs.len(),
{
    if refs.len() == 0 {
        0
    } else {
        tombstone_count(refs.drop_last()) + if refs.last().0 is None { 1int } else { 0int }
    }
}

/// The transactions the references name.
pub open spec fn touched_of(refs: Seq<Reference>) -> Set<Seq<char>> {
    refs.map_values(|r: Reference| r.2@).to_set()
}

/// What a batch's references say the discard has to do.
#[derive(Debug)]
pub struct Plan {
    /// Postings the run created, which go with their references.
    pub owned_postings: Vec<String>,
    /// References on postings the run adopted; those postings stay.
    pub detached_adopted: usize,
    /// References whose posting the user had already deleted.
    pub freed_tombstones: usize,
    /// Every transaction the references name, once each, in sorted order.
    pub touched: Vec<String>,
}

impl Plan {
    /// Sorts a batch's references into a plan.
    pub fn read(refs: &Vec<Reference>) -> (r: Plan)
        ensures
            texts(r.owned_postings@) == owned_postings_of(refs@),
            r.detached_adopted == sat(adopted_count(refs@)),
            r.freed_tombstones == sat(tombstone_count(refs@)),
            strictly_sorted(texts(r.touched@)),
            texts(r.touched@).to_set() == touched_of(refs@),
    {
        let mut plan = Plan {
            owned_postings: Vec::new(),
            detached_adopted: 0,
            freed_tombstones: 0,
            touched: Vec::new(),
        };
        let n = refs.len();
        proof {
            assert(texts(plan.owned_postings@) =~= owned_postings_of(refs@.take(0)));
            assert(texts(plan.touched@).to_set() =~= touched_of(refs@.take(0)));
        }
        let mut i: usize = 0;
        while i < n
            invariant
                n == refs@.len(),
                i <= n,
                texts(plan.owned_postings@) == owned_postings_of(refs@.take(i as int)),
                plan.detached_adopted == sat(adopted_count(refs@.take(i as int))),
                plan.freed_tombstones == sat(tombstone_count(refs@.take(i as int))),
                strictly_sorted(texts(plan.touched@)),
                texts(plan.touched@).to_set() == touched_of(refs@.take(i as int)),
            decreases n - i,
        {
            let ghost before = plan.owned_postings@;
            let ghost prefix = refs@.take(i as int);
            proof {
                assert(refs@.take(i + 1).drop_last() =~= prefix);
                assert(refs@.take(i + 1).last() == refs@[i as int]);
            }
            let (posting_id, owns_posting, transaction_id) = &refs[i];
            let ghost t = transaction_id@;
            insert_sorted(&mut plan.touched, transaction_id.clone());
            proof {
                let f = |r: Reference| r.2@;
                assert(refs@.take(i + 1).map_values(f) =~= prefix.map_values(f).push(t));
                assert forall|x: Seq<char>| #[trigger] prefix.map_values(f).push(t).to_set().contains(x)
                    <==> prefix.map_values(f).to_set().insert(t).contains(x) by {
                    if prefix.map_values(f).push(t).to_set().contains(x) {
                        let j = choose|j: int| 0 <= j < prefix.map_values(f).push(t).len()
                            && prefix.map_values(f).push(t)[j] == x;
                        if j < prefix.len() {
                            assert(prefix.map_values(f)[j] == x);
                        }
                    }
                    if prefix.map_values(f).to_set().insert(t).contains(x) {
                        if x != t {
                            let j = choose|j: int| 0 <= j < prefix.map_values(f).len()
                                && prefix.map_values(f)[j] == x;
                            assert(prefix.map_values(f).push(t)[j] == x);
                        } else {
                            assert(prefix.map_values(f).push(t)[prefix.len() as int] == x);
                        }
                    }
                }
                assert(prefix.map_values(f).push(t).to_set() =~= prefix.map_values(f).to_set().insert(t));
            }
            match posting_id {
                None => {
                    plan.freed_tombstones = plan.freed_tombstones.saturating_add(1);
                },
                Some(posting) => {
                    if *owns_posting {
                        plan.owned_postings.push(posting.clone());
                        proof {
                            assert(texts(plan.owned_postings@) =~= texts(before).push(
                                plan.owned_postings@.last()@,
                            ));
                        }
                    } else {
                        plan.detached_adopted = plan.detached_adopted.saturating_add(1);
                    }
                },
            }
            i = i + 1;
        }
        proof {
            assert(refs@.take(n as int) =~= refs@);
        }
        plan
    }
}

/// What sweeping the touched transactions did.
#[derive(Debug)]
pub struct Swept {
    /// Transactions deleted for holding no postings.
    pub removed_transactions: usize,
    /// Other references that went with them.
    pub other_batch_references_removed: usize,
    /// Touched transactions that still stand, in the order they were swept.
    pub survivors: Vec<String>,
}

impl Swept {
    /// Nothing swept yet.
    pub fn new() -> (r: Swept)
        ensures
            r.removed_transactions == 0,
            r.other_batch_references_removed == 0,
            r.survivors@.len() == 0,
    {
        Swept { removed_transactions: 0, other_batch_references_removed: 0, survivors: Vec::new() }
    }

    /// Decides one touched transaction from the postings it still holds:
    /// one holding any survives; an empty one is deleted, taking with it
    /// the `collateral` other references still naming it. Returns whether it
    /// is to be deleted.
    pub fn sweep(&mut self, transaction_id: String, remaining: i64, collateral: i64) -> (r: bool)
        ensures
            r == (remaining <= 0),
            r ==> final(self).survivors@ == old(self).survivors@
                && final(self).removed_transactions == sat(old(self).removed_transactions + 1)
                && final(self).other_batch_references_removed
                    == sat(old(self).other_batch_references_removed + count_of(collateral)),
            !r ==> final(self).survivors@ == old(self).survivors@.push(transaction_id)
                && final(self).removed_transactions == old(self).removed_transactions
                && final(self).other_batch_references_removed == old(self).other_batch_references_removed,
    {
        if remaining > 0 {
            self.survivors.push(transaction_id);
            false
        } else {
            self.removed_transactions = self.removed_transactions.saturating_add(1);
            self.other_batch_references_removed =
                self.other_batch_references_removed.saturating_add(to_usize(collateral));
            true
        }
    }
}

/// How many of `present` are positive.
pub open spec fn positive_count(present: Seq<i64>) -> int
    decreases present.len(),
{
    if present.len() == 0 {
        0
    } else {
        positive_count(present.drop_last()) + if present.last() > 0 { 1int } else { 0int }
    }
}

/// Counts the collateral references that survived, from how many rows each
/// still has, saturating.
pub fn count_surviving(present: &Vec<i64>) -> (r: usize)
    ensures
        r == sat(positive_count(present@)),
{
    let mut surviving: usize = 0;
    let mut i: usize = 0;
    while i < present.len()
        invariant
            i <= present@.len(),
            surviving == sat(positive_count(present@.take(i as int))),
        decreases present@.len() - i,
    {
        proof {
            assert(present@.take(i + 1).drop_last() =~= present@.take(i as int));
        }
        if present[i] > 0 {
            surviving = surviving.saturating_add(1);
        }
        i = i + 1;
    }
    proof {
        assert(present@.take(present@.len() as int) =~= present@);
    }
    surviving
}

/// The audit record of a completed discard: every count as a `u64`.
#[derive(Debug, Clone, PartialEq, Eq)]
pub struct DiscardEvent {
    /// The batch discarded.
    pub batch_id: ImportBatchId,
    /// See [`Outcome::removed_postings`].
    pub removed_postings: u64,
    /// See [`Outcome::removed_transactions`].
    pub removed_transactions: u64,
    /// See [`Outcome::detached_adopted`].
    pub detached_adopted: u64,
    /// See [`Outcome::freed_tombstones`].
    pub freed_tombstones: u64,
    /// See [`Outcome::other_batch_references_removed`].
    pub other_batch_references_removed: u64,
    /// See [`Outcome::other_batch_references_tombstoned`].
    pub other_batch_references_tombstoned: u64,
    /// See [`Outcome::edited_postings`].
    pub edited_postings: u64,
    /// See [`Outcome::reconciled_postings`].
    pub reconciled_postings: u64,
    /// See [`Outcome::flagged_postings`].
    pub flagged_postings: u64,
}

/// Builds the audit event for a completed discard. Every `usize` fits a
/// `u64`, so the error for a count that does not never arises.
pub fn event_for(outcome: &Outcome) -> (r: BcResult<DiscardEvent>)
    ensures
        r matches Ok(e) && e.batch_id == outcome.batch_id
            && e.removed_postings == outcome.removed_postings
            && e.removed_transactions == outcome.removed_transactions
            && e.detached_adopted == outcome.detached_adopted
            && e.freed_tombstones == outcome.freed_tombstones
            && e.other_batch_references_removed == outcome.other_batch_references_removed
            && e.other_batch_references_tombstoned == outcome.other_batch_references_tombstoned
            && e.edited_postings == outcome.edited_postings
            && e.reconciled_postings == outcome.reconciled_postings
            && e.flagged_postings == outcome.flagged_postings,
{
    Ok(DiscardEvent {
        batch_id: outcome.batch_id,
        removed_postings: outcome.removed_postings as u64,
        removed_transactions: outcome.removed_transactions as u64,
        detached_adopted: outcome.detached_adopted as u64,
        freed_tombstones: outcome.freed_tombstones as u64,
        other_batch_references_removed: outcome.other_batch_references_removed as u64,
        other_batch_references_tombstoned: outcome.other_batch_references_tombstoned as u64,
        edited_postings: outcome.edited_postings as u64,
        reconciled_postings: outcome.reconciled_postings as u64,
        flagged_postings: outcome.flagged_postings as u64,
    })
}

} // verus!
