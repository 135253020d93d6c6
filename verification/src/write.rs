//! The per-row decision of an import run: which stored transaction already
//! owns a row's legs, whether the row creates a transaction, attaches to one
//! or is refused, and whether a candidate transaction is fully explained by
//! the row before anything is appended to it.

use vstd::prelude::*;
use vstd::string::*;

use crate::import::RawTransaction;
use crate::import_exec::{Counts, SkipCause, Warning, admit_warnings, charged_with, location_of, location_text, row_local_value, sat, tally_get};
use crate::metadata::Timestamp;
use crate::model::{
    AccountId, Amount, CommodityCode, Date, ImportBatchId, amount_wf, Reconciliation, TagId, Transaction, Posting, PostingId,
    TransactionId, amounts_equal, same_amount, u64_text, decimal_text,
};
use crate::plan::{LegPlan, dedup_push};
use crate::account_path::AccountResolver;
use crate::commodity::CommodityResolver;
use crate::error::{BcError, BcResult};
use crate::plan::looked_up;
use crate::residual::{Fold, all_elided, amounts_wf, build_postings, fold_legs, overflow_message, posting_of, sole_nonzero};
use crate::resolve::{metadata_bound, resolve_metadata, tally_count};
use crate::text::str_equal_text;

verus! {

/// One leg already stored: the transaction it belongs to and the occurrence
/// slot it claims.
#[derive(Debug, Clone, Copy, PartialEq, Eq, Structural)]
pub struct StoredLeg {
    /// The transaction holding the leg.
    pub transaction_id: TransactionId,
    /// The slot the leg claims within its `(account, fingerprint)`.
    pub occurrence: u32,
}

/// The legs stored under one `(account, fingerprint)`.
pub type SlotEntry = (AccountId, String, Vec<StoredLeg>);

/// The stored legs under `leg`'s key: the first entry of `existing` for it.
pub open spec fn stored_under(existing: Seq<SlotEntry>, account: AccountId, fingerprint: Seq<char>) -> Option<Seq<StoredLeg>>
    decreases existing.len(),
{
    if existing.len() == 0 {
        None
    } else if existing[0].0 == account && existing[0].1@ == fingerprint {
        Some(existing[0].2@)
    } else {
        stored_under(existing.drop_first(), account, fingerprint)
    }
}

/// The transaction of the first stored leg of `stored` claiming `occurrence`.
pub open spec fn claimant(stored: Seq<StoredLeg>, occurrence: u32) -> Option<TransactionId>
    decreases stored.len(),
{
    if stored.len() == 0 {
        None
    } else if stored[0].occurrence == occurrence {
        Some(stored[0].transaction_id)
    } else {
        claimant(stored.drop_first(), occurrence)
    }
}

/// The transaction that already owns `leg`'s slot, if any.
pub open spec fn slot_owner(existing: Seq<SlotEntry>, leg: LegPlan) -> Option<TransactionId> {
    match stored_under(existing, leg.leg.account_id, leg.leg.fingerprint@) {
        Some(stored) => claimant(stored, leg.occurrence),
        None => None,
    }
}

/// Finds the transaction that already owns `leg`, or `None` when its slot is
/// unwritten.
pub fn owner_of(existing: &Vec<SlotEntry>, leg: &LegPlan) -> (r: Option<TransactionId>)
    ensures
        r == slot_owner(existing@, *leg),
{
    let mut i: usize = 0;
    proof {
        assert(existing@.skip(0) =~= existing@);
    }
    while i < existing.len()
        invariant
            i <= existing@.len(),
            stored_under(existing@, leg.leg.account_id, leg.leg.fingerprint@) == stored_under(
                existing@.skip(i as int),
                leg.leg.account_id,
                leg.leg.fingerprint@,
            ),
        decreases existing@.len() - i,
    {
        proof {
            assert(existing@.skip(i as int).drop_first() =~= existing@.skip(i + 1));
        }
        let entry = &existing[i];
        if entry.0 == leg.leg.account_id && str_equal_text(entry.1.as_str(), leg.leg.fingerprint.as_str()) {
            let stored = &entry.2;
            let mut k: usize = 0;
            proof {
                assert(stored@.skip(0) =~= stored@);
                assert(existing@.skip(i as int)[0] == existing@[i as int]);
            }
            while k < stored.len()
                invariant
                    k <= stored@.len(),
                    stored_under(existing@, leg.leg.account_id, leg.leg.fingerprint@) == Some(stored@),
                    claimant(stored@, leg.occurrence) == claimant(stored@.skip(k as int), leg.occurrence),
                decreases stored@.len() - k,
            {
                proof {
                    assert(stored@.skip(k as int).drop_first() =~= stored@.skip(k + 1));
                }
                if stored[k].occurrence == leg.occurrence {
                    proof {
                        assert(stored@.skip(k as int)[0] == stored@[k as int]);
                    }
                    return Some(stored[k].transaction_id);
                }
                k = k + 1;
            }
            return None;
        }
        i = i + 1;
    }
    None
}

/// The owners of `legs`' slots, leg by leg.
pub open spec fn owners(existing: Seq<SlotEntry>, legs: Seq<LegPlan>) -> Seq<Option<TransactionId>> {
    legs.map_values(|l: LegPlan| slot_owner(existing, l))
}

/// The owners present in `owners`, in order, `None` dropped.
pub open spec fn present(owners: Seq<Option<TransactionId>>) -> Seq<TransactionId>
    decreases owners.len(),
{
    if owners.len() == 0 {
        Seq::empty()
    } else {
        let prev = present(owners.drop_last());
        match owners.last() {
            Some(t) => prev.push(t),
            None => prev,
        }
    }
}

/// How many of `owners` are `None`: the legs not yet stored.
pub open spec fn unstored_count(owners: Seq<Option<TransactionId>>) -> nat
    decreases owners.len(),
{
    if owners.len() == 0 {
        0
    } else {
        unstored_count(owners.drop_last()) + if owners.last() is None { 1nat } else { 0nat }
    }
}

/// What a row does, given which of its legs are already stored and where.
#[derive(Debug)]
pub enum RowDecision {
    /// Nothing resolved: nothing to write.
    Nothing,
    /// No leg is stored yet: create a transaction.
    Create,
    /// Every stored leg belongs to `owner`: append the others to it. `stored`
    /// says, leg by leg, whether it is already stored.
    Attach { owner: TransactionId, stored: Vec<bool> },
    /// The stored legs belong to several transactions; `unstored` legs are lost.
    Conflict { owners: usize, unstored: usize },
}

/// The decision [`decide_row`] makes for `legs`.
pub open spec fn row_decision(existing: Seq<SlotEntry>, legs: Seq<LegPlan>, d: RowDecision) -> bool {
    let own = owners(existing, legs);
    let distinct = dedup_push(Seq::<TransactionId>::empty(), present(own));
    if legs.len() == 0 {
        d is Nothing
    } else if distinct.len() == 0 {
        d is Create
    } else if distinct.len() == 1 {
        d matches RowDecision::Attach { owner, stored } && owner == distinct[0] && stored@.len() == legs.len()
            && forall|k: int| 0 <= k < legs.len() ==> stored@[k] == (#[trigger] own[k]) is Some
    } else {
        d matches RowDecision::Conflict { owners, unstored } && owners == distinct.len() && unstored
            == unstored_count(own)
    }
}

/// Matches one row's legs against the stored legs: create when none is
/// stored, attach when all stored legs share one transaction, and report a
/// conflict rather than guess when they belong to several.
pub fn decide_row(existing: &Vec<SlotEntry>, legs: &Vec<LegPlan>) -> (r: RowDecision)
    ensures
        row_decision(existing@, legs@, r),
{
    if legs.len() == 0 {
        return RowDecision::Nothing;
    }
    let ghost own = owners(existing@, legs@);
    let mut distinct: Vec<TransactionId> = Vec::new();
    let mut stored: Vec<bool> = Vec::new();
    let mut unstored: usize = 0;
    let mut k: usize = 0;
    while k < legs.len()
        invariant
            k <= legs@.len(),
            own == owners(existing@, legs@),
            distinct@ == dedup_push(Seq::<TransactionId>::empty(), present(own.take(k as int))),
            stored@.len() == k,
            forall|j: int| 0 <= j < k ==> stored@[j] == (#[trigger] own[j]) is Some,
            unstored == unstored_count(own.take(k as int)),
            unstored <= k,
        decreases legs@.len() - k,
    {
        let owner = owner_of(existing, &legs[k]);
        proof {
            assert(own.take(k + 1).drop_last() =~= own.take(k as int));
            assert(own[k as int] == owner);
        }
        match owner {
            Some(t) => {
                proof {
                    let prev = present(own.take(k as int));
                    assert(prev.push(t).drop_last() =~= prev);
                }
                if !contains_transaction(&distinct, t) {
                    distinct.push(t);
                }
                stored.push(true);
            },
            None => {
                unstored = unstored + 1;
                stored.push(false);
            },
        }
        k = k + 1;
    }
    proof {
        assert(own.take(legs@.len() as int) =~= own);
    }
    if distinct.len() == 0 {
        RowDecision::Create
    } else if distinct.len() == 1 {
        RowDecision::Attach { owner: distinct[0], stored }
    } else {
        RowDecision::Conflict { owners: distinct.len(), unstored }
    }
}

/// Whether `v` holds `t`.
fn contains_transaction(v: &Vec<TransactionId>, t: TransactionId) -> (r: bool)
    ensures
        r == v@.contains(t),
{
    let mut i: usize = 0;
    while i < v.len()
        invariant
            i <= v@.len(),
            forall|j: int| 0 <= j < i ==> v@[j] != t,
        decreases v@.len() - i,
    {
        if v[i] == t {
            return true;
        }
        i = i + 1;
    }
    false
}

/// The detail reported when several transactions claim one row's legs.
pub open spec fn conflict_detail(owners: nat) -> Seq<char> {
    decimal_text(owners) + " transactions claim these legs"@
}

/// Refuses a row whose legs belong to several transactions: notes the
/// conflict and charges the legs not yet stored, the only ones lost.
pub fn refuse_conflict(counts: &mut Counts, raw: &RawTransaction, owners: usize, unstored: usize)
    requires
        old(counts).consistent(),
    ensures
        final(counts).consistent(),
        final(counts).diagnostics@.len() == old(counts).diagnostics@.len() + 1,
        final(counts).diagnostics@.last().cause == SkipCause::MultiOwnerConflict,
        final(counts).diagnostics@.last().detail@ == conflict_detail(owners as nat),
        tally_count(final(counts).charged_by_cause@, SkipCause::MultiOwnerConflict) == sat(
            tally_count(old(counts).charged_by_cause@, SkipCause::MultiOwnerConflict) + unstored,
        ),
        forall|c: SkipCause| c != SkipCause::MultiOwnerConflict ==> #[trigger] tally_count(
            final(counts).charged_by_cause@,
            c,
        ) == tally_count(old(counts).charged_by_cause@, c),
        unstored == 0 ==> final(counts).charged_by_cause@ == old(counts).charged_by_cause@,
        (unstored > 0 || tally_get(old(counts).charged_by_cause@, SkipCause::MultiOwnerConflict) is Some) ==> tally_get(
            final(counts).charged_by_cause@,
            SkipCause::MultiOwnerConflict,
        ) == Some(
            sat(
                match tally_get(old(counts).charged_by_cause@, SkipCause::MultiOwnerConflict) {
                    Some(n) => n as int,
                    None => 0,
                } + unstored,
            ) as usize,
        ),
        forall|c: SkipCause| c != SkipCause::MultiOwnerConflict ==> tally_get(final(counts).charged_by_cause@, c) == tally_get(
            old(counts).charged_by_cause@,
            c,
        ),
        final(counts).new_transactions == old(counts).new_transactions,
        final(counts).attached_postings == old(counts).attached_postings,
{
    let mut detail = u64_text(owners as u64);
    detail.append(" transactions claim these legs");
    counts.note(location_of(raw), SkipCause::MultiOwnerConflict, detail);
    counts.charge(SkipCause::MultiOwnerConflict, unstored);
}

/// What an import recorded about a posting it wrote: the document's own
/// account, fingerprint and occurrence for it, which an edit never moves.
#[derive(Debug)]
pub struct Provenance {
    /// The account the document booked the leg to.
    pub account_id: AccountId,
    /// The leg's fingerprint.
    pub fingerprint: String,
    /// The leg's occurrence slot.
    pub occurrence: u32,
}

/// The provenance recorded for posting `id`, the first entry for it.
pub open spec fn provenance_of(prov: Seq<(PostingId, Provenance)>, id: PostingId) -> Option<Provenance>
    decreases prov.len(),
{
    if prov.len() == 0 {
        None
    } else if prov[0].0 == id {
        Some(prov[0].1)
    } else {
        provenance_of(prov.drop_first(), id)
    }
}

/// Whether leg `c` explains posting `p`: by its reference when an import
/// wrote `p` (the document's account, fingerprint and occurrence), else by
/// adoption (an unstored leg on `p`'s account with `p`'s amount).
pub open spec fn explains(legs: Seq<LegPlan>, stored: Seq<bool>, prov: Seq<(PostingId, Provenance)>, p: Posting, c: usize) -> bool {
    match provenance_of(prov, p.id) {
        Some(rec) => legs[c as int].leg.account_id == rec.account_id && legs[c as int].leg.fingerprint@ == rec.fingerprint@
            && legs[c as int].occurrence == rec.occurrence,
        None => !stored[c as int] && legs[c as int].leg.account_id == p.account_id && same_amount(
            legs[c as int].leg.amount,
            p.amount,
        ),
    }
}

/// The position in `u` of the first leg explaining `p`.
pub open spec fn first_explaining(legs: Seq<LegPlan>, stored: Seq<bool>, prov: Seq<(PostingId, Provenance)>, p: Posting, u: Seq<usize>) -> Option<int>
    decreases u.len(),
{
    if u.len() == 0 {
        None
    } else if explains(legs, stored, prov, p, u[0]) {
        Some(0)
    } else {
        match first_explaining(legs, stored, prov, p, u.drop_first()) {
            Some(k) => Some(k + 1),
            None => None,
        }
    }
}

/// `u` with position `pos` removed as `Vec::swap_remove` removes it: the last
/// item moves into its place.
pub open spec fn swap_removed(u: Seq<usize>, pos: int) -> Seq<usize> {
    u.update(pos, u.last()).drop_last()
}

/// The items of `u` naming legs not already stored, in order.
pub open spec fn unstored_of(u: Seq<usize>, stored: Seq<bool>) -> Seq<usize>
    decreases u.len(),
{
    if u.len() == 0 {
        Seq::empty()
    } else {
        let prev = unstored_of(u.drop_last(), stored);
        if stored[u.last() as int] { prev } else { prev.push(u.last()) }
    }
}

/// Corroborating `postings` in order, each consuming the first still
/// unconsumed leg of `u` that explains it: the adoptions and the legs left
/// to insert, or `None` when some posting is explained by no leg.
pub open spec fn corroboration(
    legs: Seq<LegPlan>,
    stored: Seq<bool>,
    prov: Seq<(PostingId, Provenance)>,
    postings: Seq<Posting>,
    u: Seq<usize>,
    adoptions: Seq<(PostingId, usize)>,
) -> Option<(Seq<(PostingId, usize)>, Seq<usize>)>
    decreases postings.len(),
{
    if postings.len() == 0 {
        Some((adoptions, unstored_of(u, stored)))
    } else {
        let p = postings[0];
        match first_explaining(legs, stored, prov, p, u) {
            None => None,
            Some(pos) => corroboration(
                legs,
                stored,
                prov,
                postings.drop_first(),
                swap_removed(u, pos),
                if provenance_of(prov, p.id) is None { adoptions.push((p.id, u[pos])) } else { adoptions },
            ),
        }
    }
}

/// Every leg index, in order.
pub open spec fn all_legs(n: nat) -> Seq<usize> {
    Seq::new(n, |i: int| i as usize)
}

/// What corroborating a candidate transaction established.
#[derive(Debug)]
pub struct Corroborated {
    /// Postings the user wrote by hand that a leg explains: adopt each by
    /// recording provenance against it rather than inserting a second one.
    pub adoptions: Vec<(PostingId, usize)>,
    /// Legs with no posting at all, which must be inserted.
    pub insertions: Vec<usize>,
}

/// Finds the first unconsumed leg explaining `p`.
fn find_explaining(
    legs: &Vec<LegPlan>,
    stored: &Vec<bool>,
    prov: &Vec<(PostingId, Provenance)>,
    p: &Posting,
    u: &Vec<usize>,
) -> (r: Option<usize>)
    requires
        stored@.len() == legs@.len(),
        forall|k: int| 0 <= k < u@.len() ==> (#[trigger] u@[k]) < legs@.len(),
        amount_wf(p.amount),
        forall|c: int| 0 <= c < legs@.len() ==> amount_wf((#[trigger] legs@[c]).leg.amount),
    ensures
        r matches Some(k) ==> first_explaining(legs@, stored@, prov@, *p, u@) == Some(k as int),
        r is None ==> first_explaining(legs@, stored@, prov@, *p, u@) is None,
{
    let rec = find_provenance(prov, p.id);
    let mut k: usize = 0;
    proof {
        assert(u@.skip(0) =~= u@);
    }
    while k < u.len()
        invariant
            k <= u@.len(),
            stored@.len() == legs@.len(),
            forall|j: int| 0 <= j < u@.len() ==> (#[trigger] u@[j]) < legs@.len(),
            amount_wf(p.amount),
            forall|c: int| 0 <= c < legs@.len() ==> amount_wf((#[trigger] legs@[c]).leg.amount),
            rec matches Some(x) ==> provenance_of(prov@, p.id) == Some(*x),
            rec is None ==> provenance_of(prov@, p.id) is None,
            first_explaining(legs@, stored@, prov@, *p, u@) == match first_explaining(
                legs@,
                stored@,
                prov@,
                *p,
                u@.skip(k as int),
            ) {
                Some(j) => Some(j + k),
                None => None,
            },
        decreases u@.len() - k,
    {
        let c = u[k];
        let leg = &legs[c];
        let hit = match rec {
            Some(r) => leg.leg.account_id == r.account_id && str_equal_text(
                leg.leg.fingerprint.as_str(),
                r.fingerprint.as_str(),
            ) && leg.occurrence == r.occurrence,
            None => !stored[c] && leg.leg.account_id == p.account_id && amounts_equal(&leg.leg.amount, &p.amount),
        };
        proof {
            assert(u@.skip(k as int)[0] == c);
            assert(u@.skip(k as int).drop_first() =~= u@.skip(k + 1));
        }
        if hit {
            return Some(k);
        }
        k = k + 1;
    }
    None
}

/// Looks up the provenance of posting `id`.
fn find_provenance(prov: &Vec<(PostingId, Provenance)>, id: PostingId) -> (r: Option<&Provenance>)
    ensures
        r matches Some(x) ==> provenance_of(prov@, id) == Some(*x),
        r is None ==> provenance_of(prov@, id) is None,
{
    let mut i: usize = 0;
    proof {
        assert(prov@.skip(0) =~= prov@);
    }
    while i < prov.len()
        invariant
            i <= prov@.len(),
            provenance_of(prov@, id) == provenance_of(prov@.skip(i as int), id),
        decreases prov@.len() - i,
    {
        proof {
            assert(prov@.skip(i as int)[0] == prov@[i as int]);
            assert(prov@.skip(i as int).drop_first() =~= prov@.skip(i + 1));
        }
        if prov[i].0 == id {
            return Some(&prov[i].1);
        }
        i = i + 1;
    }
    None
}

/// Explains every posting already on `existing` with a leg of the document
/// transaction, or reports that one cannot be explained. A posting an import
/// wrote is explained by its reference, one the user wrote by an unstored leg
/// on its account with its amount, which is then adopted. Each posting
/// consumes at most one leg, so one leg cannot explain two postings; the
/// legs no posting consumed and not stored elsewhere are to be inserted.
pub fn corroborate(
    existing: &Transaction,
    legs: &Vec<LegPlan>,
    stored: &Vec<bool>,
    prov: &Vec<(PostingId, Provenance)>,
) -> (r: Option<Corroborated>)
    requires
        stored@.len() == legs@.len(),
        forall|c: int| 0 <= c < legs@.len() ==> amount_wf((#[trigger] legs@[c]).leg.amount),
        forall|j: int| 0 <= j < existing.postings@.len() ==> amount_wf((#[trigger] existing.postings@[j]).amount),
    ensures
        match corroboration(legs@, stored@, prov@, existing.postings@, all_legs(legs@.len()), Seq::empty()) {
            None => r is None,
            Some((a, ins)) => r matches Some(c) && c.adoptions@ == a && c.insertions@ == ins,
        },
        r is Some ==> forall|j: int|
            0 <= j < existing.postings@.len() ==> accounted_for(legs@, stored@, prov@, #[trigger] existing.postings@[j]),
{
    let n = legs.len();
    proof {
        lemma_corroboration_accounts_for_every_posting(legs@, stored@, prov@, existing.postings@);
    }
    let mut unconsumed: Vec<usize> = Vec::new();
    let mut i: usize = 0;
    while i < n
        invariant
            i <= n,
            n == legs@.len(),
            unconsumed@ == all_legs(i as nat),
        decreases n - i,
    {
        unconsumed.push(i);
        proof {
            assert(unconsumed@ =~= all_legs((i + 1) as nat));
        }
        i = i + 1;
    }
    let ghost whole = corroboration(legs@, stored@, prov@, existing.postings@, all_legs(n as nat), Seq::empty());
    let mut adoptions: Vec<(PostingId, usize)> = Vec::new();
    let postings = &existing.postings;
    let mut j: usize = 0;
    proof {
        assert(postings@.skip(0) =~= postings@);
    }
    while j < postings.len()
        invariant
            j <= postings@.len(),
            n == legs@.len(),
            stored@.len() == legs@.len(),
            forall|c: int| 0 <= c < legs@.len() ==> amount_wf((#[trigger] legs@[c]).leg.amount),
            forall|q: int| 0 <= q < postings@.len() ==> amount_wf((#[trigger] postings@[q]).amount),
            forall|k: int| 0 <= k < unconsumed@.len() ==> (#[trigger] unconsumed@[k]) < n,
            whole == corroboration(legs@, stored@, prov@, postings@.skip(j as int), unconsumed@, adoptions@),
            whole == corroboration(legs@, stored@, prov@, existing.postings@, all_legs(legs@.len()), Seq::empty()),
            postings == existing.postings,
        decreases postings@.len() - j,
    {
        let p = &postings[j];
        proof {
            assert(postings@.skip(j as int)[0] == postings@[j as int]);
            assert(postings@.skip(j as int).drop_first() =~= postings@.skip(j + 1));
        }
        match find_explaining(legs, stored, prov, p, &unconsumed) {
            None => {
                proof {
                    assert(postings@.skip(j as int).len() > 0);
                    assert(whole is None);
                }
                return None;
            },
            Some(pos) => {
                proof {
                    lemma_first_explaining_in_range(legs@, stored@, prov@, *p, unconsumed@);
                }
                let adopted = find_provenance(prov, p.id).is_none();
                if adopted {
                    adoptions.push((p.id, unconsumed[pos]));
                }
                let ghost before = unconsumed@;
                unconsumed.swap_remove(pos);
                proof {
                    assert forall|k: int| 0 <= k < unconsumed@.len() implies (#[trigger] unconsumed@[k]) < n by {
                        if k == pos {
                            assert(unconsumed@[k] == before.last());
                        } else {
                            assert(unconsumed@[k] == before[k]);
                        }
                    }
                }
            },
        }
        j = j + 1;
    }
    let mut insertions: Vec<usize> = Vec::new();
    let mut k: usize = 0;
    while k < unconsumed.len()
        invariant
            k <= unconsumed@.len(),
            n == legs@.len(),
            stored@.len() == legs@.len(),
            forall|q: int| 0 <= q < unconsumed@.len() ==> (#[trigger] unconsumed@[q]) < n,
            insertions@ == unstored_of(unconsumed@.take(k as int), stored@),
        decreases unconsumed@.len() - k,
    {
        proof {
            assert(unconsumed@.take(k + 1).drop_last() =~= unconsumed@.take(k as int));
        }
        if !stored[unconsumed[k]] {
            insertions.push(unconsumed[k]);
        }
        k = k + 1;
    }
    proof {
        assert(unconsumed@.take(unconsumed@.len() as int) =~= unconsumed@);
        assert(postings@.skip(postings@.len() as int) =~= Seq::<Posting>::empty());
    }
    Some(Corroborated { adoptions, insertions })
}

/// The first explaining position lies within `u` and does explain.
proof fn lemma_first_explaining_in_range(
    legs: Seq<LegPlan>,
    stored: Seq<bool>,
    prov: Seq<(PostingId, Provenance)>,
    p: Posting,
    u: Seq<usize>,
)
    ensures
        first_explaining(legs, stored, prov, p, u) matches Some(k) ==> 0 <= k < u.len() && explains(
            legs,
            stored,
            prov,
            p,
            u[k],
        ),
    decreases u.len(),
{
    if u.len() > 0 && !explains(legs, stored, prov, p, u[0]) {
        lemma_first_explaining_in_range(legs, stored, prov, p, u.drop_first());
    }
}

/// Whether no item of `s` occurs twice.
pub open spec fn distinct_items(s: Seq<usize>) -> bool {
    forall|i: int, j: int| 0 <= i < j < s.len() ==> s[i] != s[j]
}

/// The legs the adoptions name.
pub open spec fn adopted_legs(a: Seq<(PostingId, usize)>) -> Seq<usize> {
    a.map_values(|x: (PostingId, usize)| x.1)
}

/// `unstored_of` keeps items of its input, distinct when they are, and only
/// unstored ones.
proof fn lemma_unstored_of(u: Seq<usize>, stored: Seq<bool>)
    ensures
        forall|k: int| 0 <= k < unstored_of(u, stored).len() ==> u.contains(#[trigger] unstored_of(u, stored)[k])
            && !stored[unstored_of(u, stored)[k] as int],
        distinct_items(u) ==> distinct_items(unstored_of(u, stored)),
    decreases u.len(),
{
    if u.len() > 0 {
        let prev = unstored_of(u.drop_last(), stored);
        lemma_unstored_of(u.drop_last(), stored);
        assert forall|k: int| 0 <= k < prev.len() implies u.contains(#[trigger] prev[k]) by {
            let w = choose|w: int| 0 <= w < u.drop_last().len() && u.drop_last()[w] == prev[k];
            assert(u[w] == prev[k]);
        }
        if distinct_items(u) {
            assert(distinct_items(u.drop_last()));
            if !stored[u.last() as int] {
                assert forall|k: int| 0 <= k < prev.len() implies prev[k] != u.last() by {
                    let w = choose|w: int| 0 <= w < u.drop_last().len() && u.drop_last()[w] == prev[k];
                    assert(u[w] == prev[k]);
                }
            }
        }
        assert(u[u.len() - 1] == u.last());
    }
}

/// Corroboration consumes each leg at most once: the legs it adopts are
/// distinct, the legs it inserts are distinct, no leg is both adopted and
/// inserted, and every adopted or inserted leg is one not already stored.
pub proof fn lemma_corroboration_consumes_each_leg_once(
    legs: Seq<LegPlan>,
    stored: Seq<bool>,
    prov: Seq<(PostingId, Provenance)>,
    postings: Seq<Posting>,
)
    requires
        stored.len() == legs.len(),
        legs.len() <= usize::MAX,
    ensures
        corroboration(legs, stored, prov, postings, all_legs(legs.len()), Seq::empty()) matches Some((a, ins)) ==> {
            &&& distinct_items(adopted_legs(a))
            &&& distinct_items(ins)
            &&& forall|x: int, y: int| 0 <= x < a.len() && 0 <= y < ins.len() ==> a[x].1 != ins[y]
            &&& forall|x: int| 0 <= x < a.len() ==> (#[trigger] a[x]).1 < legs.len() && !stored[a[x].1 as int]
            &&& forall|y: int| 0 <= y < ins.len() ==> (#[trigger] ins[y]) < legs.len() && !stored[ins[y] as int]
        },
{
    let u = all_legs(legs.len());
    assert forall|i: int, j: int| 0 <= i < j < u.len() implies u[i] != u[j] by {
        assert(u[i] == i as usize && u[j] == j as usize);
    }
    lemma_consumes_once(legs, stored, prov, postings, u, Seq::empty());
}

/// Whether some leg accounts for posting `p` of a candidate transaction:
/// for a posting an import wrote, a leg whose account, fingerprint and
/// occurrence all equal those its provenance records; for one the user
/// wrote, a leg not yet stored, on the posting's account, with its amount.
pub open spec fn accounted_for(legs: Seq<LegPlan>, stored: Seq<bool>, prov: Seq<(PostingId, Provenance)>, p: Posting) -> bool {
    match provenance_of(prov, p.id) {
        Some(rec) => exists|c: int|
            #![trigger legs[c]]
            0 <= c < legs.len() && legs[c].leg.account_id == rec.account_id && legs[c].leg.fingerprint@ == rec.fingerprint@
                && legs[c].occurrence == rec.occurrence,
        None => exists|c: int|
            #![trigger legs[c]]
            0 <= c < legs.len() && !stored[c] && legs[c].leg.account_id == p.account_id && same_amount(
                legs[c].leg.amount,
                p.amount,
            ),
    }
}

/// A candidate is corroborated only when a leg of the row accounts for
/// every one of its postings: a posting an import wrote by a leg from the
/// same document line (account, fingerprint and occurrence), a posting the
/// user wrote by an unstored leg on its account with its amount. Any other
/// posting refuses the candidate.
pub proof fn lemma_corroboration_accounts_for_every_posting(
    legs: Seq<LegPlan>,
    stored: Seq<bool>,
    prov: Seq<(PostingId, Provenance)>,
    postings: Seq<Posting>,
)
    requires
        stored.len() == legs.len(),
        legs.len() <= usize::MAX,
    ensures
        corroboration(legs, stored, prov, postings, all_legs(legs.len()), Seq::empty()) is Some ==> forall|j: int|
            0 <= j < postings.len() ==> accounted_for(legs, stored, prov, #[trigger] postings[j]),
{
    let u = all_legs(legs.len());
    assert forall|k: int| 0 <= k < u.len() implies (#[trigger] u[k]) < legs.len() by {
        assert(u[k] == k as usize);
    }
    lemma_accounted(legs, stored, prov, postings, u, Seq::empty());
}

/// The first leg [`first_explaining`] finds lies in `u` and explains `p`.
proof fn lemma_first_explaining(legs: Seq<LegPlan>, stored: Seq<bool>, prov: Seq<(PostingId, Provenance)>, p: Posting, u: Seq<usize>)
    ensures
        first_explaining(legs, stored, prov, p, u) matches Some(k) ==> 0 <= k < u.len() && explains(legs, stored, prov, p, u[k]),
    decreases u.len(),
{
    if u.len() > 0 && !explains(legs, stored, prov, p, u[0]) {
        lemma_first_explaining(legs, stored, prov, p, u.drop_first());
    }
}

/// The induction behind [`lemma_corroboration_accounts_for_every_posting`].
proof fn lemma_accounted(
    legs: Seq<LegPlan>,
    stored: Seq<bool>,
    prov: Seq<(PostingId, Provenance)>,
    postings: Seq<Posting>,
    u: Seq<usize>,
    a0: Seq<(PostingId, usize)>,
)
    requires
        stored.len() == legs.len(),
        forall|k: int| 0 <= k < u.len() ==> (#[trigger] u[k]) < legs.len(),
    ensures
        corroboration(legs, stored, prov, postings, u, a0) is Some ==> forall|j: int|
            0 <= j < postings.len() ==> accounted_for(legs, stored, prov, #[trigger] postings[j]),
    decreases postings.len(),
{
    if postings.len() > 0 {
        let p = postings[0];
        lemma_first_explaining(legs, stored, prov, p, u);
        if let Some(pos) = first_explaining(legs, stored, prov, p, u) {
            let u1 = swap_removed(u, pos);
            assert forall|k: int| 0 <= k < u1.len() implies (#[trigger] u1[k]) < legs.len() by {
                if k == pos {
                    assert(u1[k] == u[u.len() - 1]);
                } else {
                    assert(u1[k] == u[k]);
                }
            }
            let a1 = if provenance_of(prov, p.id) is None { a0.push((p.id, u[pos])) } else { a0 };
            lemma_accounted(legs, stored, prov, postings.drop_first(), u1, a1);
            let c = u[pos] as int;
            assert(explains(legs, stored, prov, p, u[pos]));
            assert(0 <= c < legs.len());
            assert(accounted_for(legs, stored, prov, p)) by {
                let x = legs[c];
            }
            assert forall|j: int| 0 <= j < postings.len() && corroboration(legs, stored, prov, postings, u, a0) is Some implies accounted_for(
                legs,
                stored,
                prov,
                #[trigger] postings[j],
            ) by {
                if j > 0 {
                    assert(postings.drop_first()[j - 1] == postings[j]);
                }
            }
        }
    }
}

/// The induction behind [`lemma_corroboration_consumes_each_leg_once`].
proof fn lemma_consumes_once(
    legs: Seq<LegPlan>,
    stored: Seq<bool>,
    prov: Seq<(PostingId, Provenance)>,
    postings: Seq<Posting>,
    u: Seq<usize>,
    a0: Seq<(PostingId, usize)>,
)
    requires
        stored.len() == legs.len(),
        distinct_items(u),
        forall|k: int| 0 <= k < u.len() ==> (#[trigger] u[k]) < legs.len(),
        distinct_items(adopted_legs(a0)),
        forall|x: int, k: int| 0 <= x < a0.len() && 0 <= k < u.len() ==> a0[x].1 != u[k],
        forall|x: int| 0 <= x < a0.len() ==> (#[trigger] a0[x]).1 < legs.len() && !stored[a0[x].1 as int],
    ensures
        corroboration(legs, stored, prov, postings, u, a0) matches Some((a, ins)) ==> {
            &&& distinct_items(adopted_legs(a))
            &&& distinct_items(ins)
            &&& forall|x: int, y: int| 0 <= x < a.len() && 0 <= y < ins.len() ==> a[x].1 != ins[y]
            &&& forall|x: int| 0 <= x < a.len() ==> (#[trigger] a[x]).1 < legs.len() && !stored[a[x].1 as int]
            &&& forall|y: int| 0 <= y < ins.len() ==> (#[trigger] ins[y]) < legs.len() && !stored[ins[y] as int]
        },
    decreases postings.len(),
{
    if postings.len() == 0 {
        let ins = unstored_of(u, stored);
        lemma_unstored_of(u, stored);
        assert forall|x: int, y: int| 0 <= x < a0.len() && 0 <= y < ins.len() implies a0[x].1 != ins[y] by {
            let w = choose|w: int| 0 <= w < u.len() && u[w] == ins[y];
        }
        assert forall|y: int| 0 <= y < ins.len() implies (#[trigger] ins[y]) < legs.len() by {
            let w = choose|w: int| 0 <= w < u.len() && u[w] == ins[y];
        }
    } else {
        let p = postings[0];
        lemma_first_explaining_in_range(legs, stored, prov, p, u);
        match first_explaining(legs, stored, prov, p, u) {
            None => {},
            Some(pos) => {
                let u2 = swap_removed(u, pos);
                let taken = u[pos];
                let a1 = if provenance_of(prov, p.id) is None { a0.push((p.id, taken)) } else { a0 };
                assert forall|k: int| 0 <= k < u2.len() implies (#[trigger] u2[k]) != taken && u2[k] < legs.len()
                    && (exists|w: int| 0 <= w < u.len() && w != pos && u[w] == u2[k]) by {
                    if k == pos {
                        assert(u2[k] == u[u.len() - 1]);
                    } else {
                        assert(u2[k] == u[k]);
                    }
                }
                assert(distinct_items(u2)) by {
                    assert forall|i: int, j: int| 0 <= i < j < u2.len() implies u2[i] != u2[j] by {
                        if i == pos {
                            assert(u2[i] == u[u.len() - 1]);
                            assert(u2[j] == u[j]);
                        } else if j == pos {
                            assert(u2[j] == u[u.len() - 1]);
                            assert(u2[i] == u[i]);
                        } else {
                            assert(u2[i] == u[i] && u2[j] == u[j]);
                        }
                    }
                }
                assert(distinct_items(adopted_legs(a1))) by {
                    if provenance_of(prov, p.id) is None {
                        assert forall|i: int, j: int| 0 <= i < j < a1.len() implies adopted_legs(a1)[i]
                            != adopted_legs(a1)[j] by {
                            if j == a0.len() {
                                assert(adopted_legs(a1)[j] == taken);
                                assert(adopted_legs(a1)[i] == a0[i].1);
                            } else {
                                assert(adopted_legs(a1)[i] == adopted_legs(a0)[i]);
                                assert(adopted_legs(a1)[j] == adopted_legs(a0)[j]);
                            }
                        }
                    }
                }
                assert forall|x: int, k: int| 0 <= x < a1.len() && 0 <= k < u2.len() implies a1[x].1 != u2[k] by {
                    let w = choose|w: int| 0 <= w < u.len() && w != pos && u[w] == u2[k];
                    if x < a0.len() {
                        assert(a1[x] == a0[x]);
                    } else {
                        assert(a1[x].1 == taken);
                        assert(u[w] != u[pos]);
                    }
                }
                assert forall|x: int| 0 <= x < a1.len() implies (#[trigger] a1[x]).1 < legs.len() && !stored[a1[x].1 as int] by {
                    if x < a0.len() {
                        assert(a1[x] == a0[x]);
                    }
                }
                lemma_consumes_once(legs, stored, prov, postings.drop_first(), u2, a1);
            },
        }
    }
}

/// The single posting of `stored` that elides its amount, by position, or
/// `None` when none or several elide: then no one leg absorbs the residual.
pub fn single_elided(stored: &Vec<Posting>) -> (r: Option<usize>)
    ensures
        match r {
            Some(k) => k < stored@.len() && stored@[k as int].amount is None && forall|j: int|
                0 <= j < stored@.len() && j != k ==> (#[trigger] stored@[j]).amount is Some,
            None => forall|k: int| 0 <= k < stored@.len() && (#[trigger] stored@[k]).amount is None ==> exists|j: int|
                0 <= j < stored@.len() && j != k && stored@[j].amount is None,
        },
{
    let mut found: Option<usize> = None;
    let mut i: usize = 0;
    while i < stored.len()
        invariant
            i <= stored@.len(),
            match found {
                Some(k) => k < i && stored@[k as int].amount is None && forall|j: int|
                    0 <= j < i && j != k ==> (#[trigger] stored@[j]).amount is Some,
                None => forall|j: int| 0 <= j < i ==> (#[trigger] stored@[j]).amount is Some,
            },
        decreases stored@.len() - i,
    {
        if stored[i].amount.is_none() {
            match found {
                Some(k) => {
                    proof {
                        assert forall|m: int| 0 <= m < stored@.len() && (#[trigger] stored@[m]).amount is None implies exists|j: int|
                            0 <= j < stored@.len() && j != m && stored@[j].amount is None by {
                            if m == k {
                                assert(stored@[i as int].amount is None);
                            } else {
                                assert(stored@[k as int].amount is None);
                            }
                        }
                    }
                    return None;
                },
                None => {
                    found = Some(i);
                },
            }
        }
        i = i + 1;
    }
    found
}

/// Whether `t` is the transaction a row creates under the id `id`: the
/// document's date and description, its metadata bound, the ids of its tags
/// that `tags` holds, unreconciled, holding `postings`.
pub open spec fn created_as(
    accts: Seq<crate::model::AccountRecord>,
    raw: RawTransaction,
    tags: Seq<(String, TagId)>,
    id: TransactionId,
    t: Transaction,
) -> bool {
    &&& t.id == id
    &&& t.date == raw.date
    &&& t.description@ == raw.description@
    &&& metadata_bound(accts, raw.metadata@, t.metadata@)
    &&& t.tag_ids@ == dedup_push(Seq::<TagId>::empty(), looked_up(raw.tags@, tags))
    &&& t.reconciliation == Reconciliation::Unreconciled
}

/// The detail noted when the elided leg is all that resolved and the
/// document fixes no residual for it.
pub open spec fn undetermined_detail() -> Seq<char> {
    "the elided leg is the only leg that resolved"@
}

/// Prepares the transaction a row creates from its legs, none of which is
/// stored yet, the `k`-th posting under `posting_ids[k]`. When the row's
/// amounts overflow it is skipped as a row-local failure; when its elided leg
/// is all that resolved and the document fixes no residual, it is skipped as
/// [`SkipCause::UndeterminedResidual`]; both charge every leg. Either way
/// `Ok(None)`.
pub fn prepare_create(
    raw: &RawTransaction,
    legs: &Vec<LegPlan>,
    resolver: &AccountResolver,
    commodities: &CommodityResolver,
    tags: &Vec<(String, TagId)>,
    posting_ids: &Vec<PostingId>,
    id: TransactionId,
    counts: &mut Counts,
) -> (r: BcResult<Option<Transaction>>)
    requires
        amounts_wf(*raw),
        posting_ids@.len() == legs@.len(),
        old(counts).consistent(),
    ensures
        final(counts).consistent(),
        r is Ok,
        final(counts).new_transactions == old(counts).new_transactions,
        final(counts).attached_postings == old(counts).attached_postings,
        r matches Ok(Some(t)) ==> created_as(resolver.accounts(), *raw, tags@, id, t) && t.postings@.len() == legs@.len()
            && *final(counts) == *old(counts),
        !all_elided(legs@) ==> (r matches Ok(Some(t)) && forall|k: int|
            0 <= k < legs@.len() ==> posting_of(legs@[k], None, tags@, posting_ids@[k], #[trigger] t.postings@[k])),
        all_elided(legs@) ==> match fold_legs(commodities.registry(), raw.postings@) {
            Fold::Overflow => {
                &&& r matches Ok(None)
                &&& final(counts).diagnostics@.len() == old(counts).diagnostics@.len() + 1
                &&& final(counts).diagnostics@.last().cause == SkipCause::RowLocalFailure
                &&& final(counts).diagnostics@.last().detail@ == "summing the row's amounts"@
            },
            Fold::Undetermined => {
                &&& r matches Ok(None)
                &&& final(counts).diagnostics@.len() == old(counts).diagnostics@.len() + 1
                &&& final(counts).diagnostics@.last().cause == SkipCause::UndeterminedResidual
                &&& final(counts).diagnostics@.last().detail@ == undetermined_detail()
                &&& tally_count(final(counts).charged_by_cause@, SkipCause::UndeterminedResidual) == sat(
                    tally_count(old(counts).charged_by_cause@, SkipCause::UndeterminedResidual) + legs@.len(),
                )
            },
            Fold::Sums(sums) => match sole_nonzero(sums) {
                Some((code, v)) => r matches Ok(Some(t)) && exists|a: Amount|
                    a.commodity@ == code && a.value == v && forall|k: int|
                        0 <= k < legs@.len() ==> posting_of(legs@[k], Some(a), tags@, posting_ids@[k], #[trigger] t.postings@[k]),
                None => {
                    &&& r matches Ok(None)
                    &&& final(counts).diagnostics@.len() == old(counts).diagnostics@.len() + 1
                    &&& final(counts).diagnostics@.last().cause == SkipCause::UndeterminedResidual
                    &&& final(counts).diagnostics@.last().detail@ == undetermined_detail()
                    &&& tally_count(final(counts).charged_by_cause@, SkipCause::UndeterminedResidual) == sat(
                        tally_count(old(counts).charged_by_cause@, SkipCause::UndeterminedResidual) + legs@.len(),
                    )
                },
            },
        },
{
    let built = build_postings(raw, legs, commodities, tags, posting_ids);
    let ghost b = built;
    let step = row_local_value(built, raw, "summing the row's amounts", legs.len(), counts);
    let postings = match step {
        Err(e) => {
            proof {
                assert(false);
            }
            return Err(e);
        },
        Ok(None) => {
            return Ok(None);
        },
        Ok(Some(None)) => {
            counts.note(location_of(raw), SkipCause::UndeterminedResidual, String::from_str("the elided leg is the only leg that resolved"));
            counts.charge(SkipCause::UndeterminedResidual, legs.len());
            return Ok(None);
        },
        Ok(Some(Some(ps))) => ps,
    };
    let t = Transaction {
        id,
        date: raw.date,
        description: raw.description.clone(),
        metadata: resolve_metadata(resolver, &raw.metadata),
        tag_ids: crate::plan::resolve_tag_ids(&raw.tags, tags),
        postings,
        reconciliation: Reconciliation::Unreconciled,
    };
    Ok(Some(t))
}

/// Settles a row's creation once the write has answered: a row-local
/// failure skips the row and charges its `legs` legs; any other failure
/// fails the run; success reports its warnings and counts one new
/// transaction.
pub fn finish_create(written: BcResult<Vec<Warning>>, raw: &RawTransaction, legs: usize, counts: &mut Counts) -> (r: BcResult<()>)
    requires
        old(counts).consistent(),
    ensures
        final(counts).consistent(),
        match written {
            Ok(ws) => {
                &&& r is Ok
                &&& final(counts).new_transactions == sat(old(counts).new_transactions + 1)
                &&& final(counts).warnings@ == old(counts).warnings@ + admit_warnings(old(counts).warned_seen@, ws@).0
                &&& final(counts).charged_by_cause@ == old(counts).charged_by_cause@
            },
            Err(e) => if crate::import_exec::row_local(e) {
                &&& r is Ok
                &&& final(counts).new_transactions == old(counts).new_transactions
                &&& final(counts).diagnostics@.last().cause == SkipCause::RowLocalFailure
                &&& final(counts).diagnostics@.last().detail@ == "creating the transaction"@
                &&& final(counts).diagnostics@.len() == old(counts).diagnostics@.len() + 1
                &&& charged_with(*old(counts), *final(counts), SkipCause::RowLocalFailure, legs as nat)
                &&& final(counts).attached_postings == old(counts).attached_postings
                &&& final(counts).warnings@ == old(counts).warnings@
            } else {
                r == Err::<(), BcError>(e) && *final(counts) == *old(counts)
            },
        },
{
    match row_local_value(written, raw, "creating the transaction", legs, counts) {
        Err(e) => Err(e),
        Ok(None) => Ok(()),
        Ok(Some(warnings)) => {
            let ghost c0 = *counts;
            counts.push_warnings(warnings);
            counts.new_transactions = counts.new_transactions.saturating_add(1);
            proof {
                assert forall|b: crate::import_exec::Bucket| #[trigger] counts.column(b) == sat(
                    crate::import_exec::bucket_total(counts.charged_by_cause@, b),
                ) by {
                    assert(counts.column(b) == c0.column(b));
                }
            }
            Ok(())
        },
    }
}

/// How many legs of a row are not stored yet.
pub open spec fn unstored_legs(stored: Seq<bool>) -> nat
    decreases stored.len(),
{
    if stored.len() == 0 {
        0
    } else {
        unstored_legs(stored.drop_last()) + if stored.last() { 0nat } else { 1nat }
    }
}

/// Counts the legs of a row not stored yet.
pub fn count_unstored(stored: &Vec<bool>) -> (r: usize)
    ensures
        r == unstored_legs(stored@),
{
    let mut n: usize = 0;
    let mut i: usize = 0;
    while i < stored.len()
        invariant
            i <= stored@.len(),
            n == unstored_legs(stored@.take(i as int)),
            n <= i,
        decreases stored@.len() - i,
    {
        proof {
            assert(stored@.take(i + 1).drop_last() =~= stored@.take(i as int));
        }
        if !stored[i] {
            n = n + 1;
        }
        i = i + 1;
    }
    proof {
        assert(stored@.take(stored@.len() as int) =~= stored@);
    }
    n
}

/// The detail noted when a candidate transaction is not fully explained.
pub open spec fn corroboration_detail(owner: TransactionId) -> Seq<char> {
    "transaction "@ + decimal_text(owner.0 as nat)
}

/// What appending a row's unstored legs to `owner` takes: the transaction as
/// read, the corroboration, and the postings to insert.
#[derive(Debug)]
pub struct AttachPlan {
    /// The transaction the row's stored legs belong to, as read.
    pub candidate: Transaction,
    /// The adoptions and the legs to insert.
    pub corroborated: Corroborated,
    /// The postings the inserted legs persist as, in insertion order.
    pub postings: Vec<Posting>,
}

/// Prepares appending a row's unstored legs to `owner`, from what reading
/// `owner` and its postings' provenance returned. Nothing is done when every
/// leg is stored; a row-local read failure skips the row; a candidate some
/// posting of which no leg explains is refused as
/// [`SkipCause::FailedCorroboration`]. Each skip charges the unstored legs.
/// Leg `c`, when inserted, persists under `posting_ids[c]`; an elided one
/// stays elided, the candidate holding a sibling to derive it from.
pub fn prepare_attach(
    raw: &RawTransaction,
    legs: &Vec<LegPlan>,
    stored: &Vec<bool>,
    owner: TransactionId,
    read: BcResult<(Transaction, Vec<(PostingId, Provenance)>)>,
    tags: &Vec<(String, TagId)>,
    posting_ids: &Vec<PostingId>,
    counts: &mut Counts,
) -> (r: BcResult<Option<AttachPlan>>)
    requires
        stored@.len() == legs@.len(),
        posting_ids@.len() == legs@.len(),
        forall|c: int| 0 <= c < legs@.len() ==> amount_wf((#[trigger] legs@[c]).leg.amount),
        read matches Ok((t, _)) ==> forall|j: int| 0 <= j < t.postings@.len() ==> amount_wf((#[trigger] t.postings@[j]).amount),
        old(counts).consistent(),
    ensures
        final(counts).consistent(),
        final(counts).new_transactions == old(counts).new_transactions,
        final(counts).attached_postings == old(counts).attached_postings,
        unstored_legs(stored@) == 0 ==> (r matches Ok(None) && *final(counts) == *old(counts)),
        unstored_legs(stored@) > 0 ==> match read {
            Err(e) => if crate::import_exec::row_local(e) {
                &&& r matches Ok(None)
                &&& final(counts).diagnostics@.len() == old(counts).diagnostics@.len() + 1
                &&& final(counts).diagnostics@.last().cause == SkipCause::RowLocalFailure
                &&& final(counts).diagnostics@.last().detail@ == "reading the matched transaction"@
                &&& charged_with(*old(counts), *final(counts), SkipCause::RowLocalFailure, unstored_legs(stored@))
            } else {
                r == Err::<Option<AttachPlan>, BcError>(e) && *final(counts) == *old(counts)
            },
            Ok((t, prov)) => match corroboration(legs@, stored@, prov@, t.postings@, all_legs(legs@.len()), Seq::empty()) {
                None => {
                    &&& r matches Ok(None)
                    &&& final(counts).diagnostics@.len() == old(counts).diagnostics@.len() + 1
                    &&& final(counts).diagnostics@.last().cause == SkipCause::FailedCorroboration
                    &&& final(counts).diagnostics@.last().detail@ == corroboration_detail(owner)
                    &&& tally_count(final(counts).charged_by_cause@, SkipCause::FailedCorroboration) == sat(
                        tally_count(old(counts).charged_by_cause@, SkipCause::FailedCorroboration) + unstored_legs(stored@),
                    )
                    &&& charged_with(*old(counts), *final(counts), SkipCause::FailedCorroboration, unstored_legs(stored@))
                    &&& final(counts).other_skipped_postings == sat(old(counts).other_skipped_postings + unstored_legs(stored@))
                    &&& final(counts).warnings@ == old(counts).warnings@
                },
                Some((a, ins)) => {
                    &&& r matches Ok(Some(plan))
                    &&& plan.candidate == t
                    &&& plan.corroborated.adoptions@ == a
                    &&& plan.corroborated.insertions@ == ins
                    &&& plan.postings@.len() == ins.len()
                    &&& forall|k: int| 0 <= k < ins.len() ==> posting_of(
                        legs@[ins[k] as int],
                        None,
                        tags@,
                        posting_ids@[ins[k] as int],
                        #[trigger] plan.postings@[k],
                    )
                    &&& *final(counts) == *old(counts)
                },
            },
        },
{
    let unstored = count_unstored(stored);
    if unstored == 0 {
        return Ok(None);
    }
    let (candidate, prov) = match row_local_value(read, raw, "reading the matched transaction", unstored, counts) {
        Err(e) => {
            return Err(e);
        },
        Ok(None) => {
            return Ok(None);
        },
        Ok(Some(x)) => x,
    };
    let corroborated = match corroborate(&candidate, legs, stored, &prov) {
        None => {
            let mut detail = String::from_str("transaction ");
            let t = u64_text(owner.0);
            detail.append(t.as_str());
            counts.note(location_of(raw), SkipCause::FailedCorroboration, detail);
            counts.charge(SkipCause::FailedCorroboration, unstored);
            return Ok(None);
        },
        Some(c) => c,
    };
    let nlegs = legs.len();
    proof {
        lemma_corroboration_consumes_each_leg_once(legs@, stored@, prov@, candidate.postings@);
    }
    let mut postings: Vec<Posting> = Vec::new();
    let mut k: usize = 0;
    while k < corroborated.insertions.len()
        invariant
            k <= corroborated.insertions@.len(),
            posting_ids@.len() == legs@.len(),
            forall|y: int| 0 <= y < corroborated.insertions@.len() ==> (#[trigger] corroborated.insertions@[y]) < legs@.len(),
            postings@.len() == k,
            forall|j: int| 0 <= j < k ==> posting_of(
                legs@[corroborated.insertions@[j] as int],
                None,
                tags@,
                posting_ids@[corroborated.insertions@[j] as int],
                #[trigger] postings@[j],
            ),
        decreases corroborated.insertions@.len() - k,
    {
        let c = corroborated.insertions[k];
        postings.push(legs[c].posting(&None, tags, posting_ids[c]));
        k = k + 1;
    }
    Ok(Some(AttachPlan { candidate, corroborated, postings }))
}

/// Settles a row's attachment once the write has answered: a row-local
/// failure skips the row and charges its `unstored` legs; any other failure
/// fails the run; success reports its warnings and counts the `unstored`
/// legs attached.
pub fn finish_attach(written: BcResult<Vec<Warning>>, raw: &RawTransaction, unstored: usize, counts: &mut Counts) -> (r: BcResult<()>)
    requires
        old(counts).consistent(),
    ensures
        final(counts).consistent(),
        match written {
            Ok(ws) => {
                &&& r is Ok
                &&& final(counts).attached_postings == sat(old(counts).attached_postings + unstored)
                &&& final(counts).new_transactions == old(counts).new_transactions
                &&& final(counts).warnings@ == old(counts).warnings@ + admit_warnings(old(counts).warned_seen@, ws@).0
                &&& final(counts).charged_by_cause@ == old(counts).charged_by_cause@
            },
            Err(e) => if crate::import_exec::row_local(e) {
                &&& r is Ok
                &&& final(counts).attached_postings == old(counts).attached_postings
                &&& final(counts).diagnostics@.last().cause == SkipCause::RowLocalFailure
                &&& final(counts).diagnostics@.last().detail@ == "appending the unstored legs"@
                &&& final(counts).diagnostics@.len() == old(counts).diagnostics@.len() + 1
                &&& charged_with(*old(counts), *final(counts), SkipCause::RowLocalFailure, unstored as nat)
                &&& final(counts).new_transactions == old(counts).new_transactions
                &&& final(counts).warnings@ == old(counts).warnings@
            } else {
                r == Err::<(), BcError>(e) && *final(counts) == *old(counts)
            },
        },
{
    match row_local_value(written, raw, "appending the unstored legs", unstored, counts) {
        Err(e) => Err(e),
        Ok(None) => Ok(()),
        Ok(Some(warnings)) => {
            let ghost c0 = *counts;
            counts.push_warnings(warnings);
            counts.attached_postings = counts.attached_postings.saturating_add(unstored);
            proof {
                assert forall|b: crate::import_exec::Bucket| #[trigger] counts.column(b) == sat(
                    crate::import_exec::bucket_total(counts.charged_by_cause@, b),
                ) by {
                    assert(counts.column(b) == c0.column(b));
                }
            }
            Ok(())
        },
    }
}


/// Identifies one bank-line reference.
#[derive(Debug, Clone, Copy, PartialEq, Eq, Hash, Structural)]
pub struct SourceRefId(pub u64);

/// The reference tying a posting to the document line it came from.
#[derive(Debug, Clone, PartialEq, Eq)]
pub struct SourceRef {
    /// The reference.
    pub id: SourceRefId,
    /// The transaction the posting belongs to.
    pub transaction_id: TransactionId,
    /// The posting.
    pub posting_id: Option<PostingId>,
    /// The account the leg was booked to.
    pub account_id: AccountId,
    /// The line's date.
    pub date: Date,
    /// The line's narration.
    pub narration: String,
    /// The leg's amount as the document stated it.
    pub amount: Option<Amount>,
    /// The institution's reference, if any.
    pub reference: Option<String>,
    /// The leg's occurrence slot.
    pub occurrence: u32,
    /// The batch that wrote it.
    pub import_batch_id: Option<ImportBatchId>,
    /// Whether the run inserted the posting, rather than adopting one the
    /// user wrote.
    pub owns_posting: bool,
    /// When it was recorded.
    pub created_at: Timestamp,
}

/// The reference a run persists for leg `leg` of `raw`, written as posting
/// `posting_id` of `transaction_id` by batch `batch_id`; `id` and
/// `created_at` are the fresh id and the instant the caller assigns it.
pub fn source_ref(
    raw: &RawTransaction,
    leg: &LegPlan,
    batch_id: ImportBatchId,
    transaction_id: TransactionId,
    posting_id: PostingId,
    owns_posting: bool,
    id: SourceRefId,
    created_at: Timestamp,
) -> (r: SourceRef)
    ensures
        r.id == id,
        r.transaction_id == transaction_id,
        r.posting_id == Some(posting_id),
        r.account_id == leg.leg.account_id,
        r.date == raw.date,
        r.narration@ == raw.description@,
        match leg.leg.amount {
            Some(a) => r.amount matches Some(b) && b.value == a.value && b.commodity@ == a.commodity@,
            None => r.amount is None,
        },
        match raw.reference {
            Some(t) => r.reference matches Some(u) && u@ == t@,
            None => r.reference is None,
        },
        r.occurrence == leg.occurrence,
        r.import_batch_id == Some(batch_id),
        r.owns_posting == owns_posting,
        r.created_at == created_at,
{
    let amount = match &leg.leg.amount {
        Some(a) => Some(Amount { value: a.value, commodity: CommodityCode(a.commodity.0.clone()) }),
        None => None,
    };
    let reference = match &raw.reference {
        Some(t) => Some(t.clone()),
        None => None,
    };
    SourceRef {
        id,
        transaction_id,
        posting_id: Some(posting_id),
        account_id: leg.leg.account_id,
        date: raw.date,
        narration: raw.description.clone(),
        amount,
        reference,
        occurrence: leg.occurrence,
        import_batch_id: Some(batch_id),
        owns_posting,
        created_at,
    }
}


/// With every owner `Some(t)`, the owners present are `t`, once per owner.
proof fn lemma_present_all(own: Seq<Option<TransactionId>>, t: TransactionId)
    requires
        forall|k: int| 0 <= k < own.len() ==> #[trigger] own[k] == Some(t),
    ensures
        present(own) == Seq::new(own.len(), |i: int| t),
    decreases own.len(),
{
    if own.len() > 0 {
        lemma_present_all(own.drop_last(), t);
        assert(own.last() == Some(t));
        assert(Seq::new((own.len() - 1) as nat, |i: int| t).push(t) =~= Seq::new(own.len(), |i: int| t));
    } else {
        assert(present(own) =~= Seq::new(own.len(), |i: int| t));
    }
}

/// Deduplicating `n > 0` copies of `t` leaves `t` alone.
proof fn lemma_dedup_copies(n: nat, t: TransactionId)
    requires
        n > 0,
    ensures
        dedup_push(Seq::<TransactionId>::empty(), Seq::new(n, |i: int| t)) == seq![t],
    decreases n,
{
    let items = Seq::new(n, |i: int| t);
    assert(items.drop_last() =~= Seq::new((n - 1) as nat, |i: int| t));
    if n == 1 {
        assert(dedup_push(Seq::<TransactionId>::empty(), items.drop_last()) =~= Seq::<TransactionId>::empty());
        assert(Seq::<TransactionId>::empty().push(t) =~= seq![t]);
    } else {
        lemma_dedup_copies((n - 1) as nat, t);
        assert(seq![t].contains(t)) by {
            assert(seq![t][0] == t);
        }
    }
}

/// Every leg stored leaves none to store.
proof fn lemma_all_stored(stored: Seq<bool>)
    requires
        forall|k: int| 0 <= k < stored.len() ==> #[trigger] stored[k],
    ensures
        unstored_legs(stored) == 0,
    decreases stored.len(),
{
    if stored.len() > 0 {
        lemma_all_stored(stored.drop_last());
        assert(stored[stored.len() - 1]);
    }
}

/// Importing again a row whose every leg is already stored in one
/// transaction writes nothing: the row attaches to that transaction with
/// every leg stored, so no leg is left to insert.
pub proof fn lemma_stored_row_is_left_alone(existing: Seq<SlotEntry>, legs: Seq<LegPlan>, t: TransactionId, d: RowDecision)
    requires
        legs.len() > 0,
        forall|k: int| 0 <= k < legs.len() ==> slot_owner(existing, #[trigger] legs[k]) == Some(t),
        row_decision(existing, legs, d),
    ensures
        d matches RowDecision::Attach { owner, stored } && owner == t && unstored_legs(stored@) == 0,
{
    let own = owners(existing, legs);
    assert forall|k: int| 0 <= k < own.len() implies #[trigger] own[k] == Some(t) by {
        assert(own[k] == slot_owner(existing, legs[k]));
    }
    lemma_present_all(own, t);
    lemma_dedup_copies(own.len(), t);
    if let RowDecision::Attach { owner, stored } = d {
        assert forall|k: int| 0 <= k < stored@.len() implies #[trigger] stored@[k] by {
            assert(own[k] is Some);
        }
        lemma_all_stored(stored@);
    }
}

/// Running an import again over rows the store already holds writes
/// nothing: when every leg of each row is stored in that row's transaction,
/// as a completed run leaves them, each row with legs attaches to its
/// transaction with no leg left to insert, and a row without legs does
/// nothing.
pub proof fn lemma_rerun_writes_nothing(
    existing: Seq<SlotEntry>,
    rows: Seq<Seq<LegPlan>>,
    holders: Seq<TransactionId>,
    decisions: Seq<RowDecision>,
)
    requires
        rows.len() == holders.len(),
        rows.len() == decisions.len(),
        forall|i: int, k: int|
            0 <= i < rows.len() && 0 <= k < rows[i].len() ==> slot_owner(existing, #[trigger] rows[i][k]) == Some(holders[i]),
        forall|i: int| 0 <= i < rows.len() ==> row_decision(existing, #[trigger] rows[i], decisions[i]),
    ensures
        forall|i: int| 0 <= i < rows.len() && rows[i].len() > 0 ==> (#[trigger] decisions[i] matches RowDecision::Attach {
            owner,
            stored,
        } && owner == holders[i] && unstored_legs(stored@) == 0),
        forall|i: int| 0 <= i < rows.len() && rows[i].len() == 0 ==> (#[trigger] decisions[i]) is Nothing,
{
    assert forall|i: int| 0 <= i < rows.len() && rows[i].len() > 0 implies (#[trigger] decisions[i] matches RowDecision::Attach {
        owner,
        stored,
    } && owner == holders[i] && unstored_legs(stored@) == 0) by {
        assert(row_decision(existing, rows[i], decisions[i]));
        assert forall|k: int| 0 <= k < rows[i].len() implies slot_owner(existing, #[trigger] rows[i][k]) == Some(holders[i]) by {}
        lemma_stored_row_is_left_alone(existing, rows[i], holders[i], decisions[i]);
    }
    assert forall|i: int| 0 <= i < rows.len() && rows[i].len() == 0 implies (#[trigger] decisions[i]) is Nothing by {
        assert(row_decision(existing, rows[i], decisions[i]));
    }
}

} // verus!
