//! Planning the resolved legs of an import run: the occurrence slot each leg
//! claims, the accounts the run touches, and the tags its legs carry.

use vstd::prelude::*;

use crate::model::{AccountId, TagId};
use crate::resolve::ResolvedLeg;
use crate::text::str_equal_text;

verus! {

/// A resolved leg together with the occurrence slot it claims for this run.
#[derive(Debug)]
pub struct LegPlan {
    /// The resolved leg.
    pub leg: ResolvedLeg,
    /// The occurrence slot this leg claims within `(account, fingerprint)`.
    pub occurrence: u32,
}

/// Whether two legs claim slots under one key: the same account and the same
/// fingerprint.
pub open spec fn same_slot(a: ResolvedLeg, b: ResolvedLeg) -> bool {
    a.account_id == b.account_id && a.fingerprint@ == b.fingerprint@
}

/// How many legs of `legs` share `leg`'s key.
pub open spec fn slot_count(legs: Seq<ResolvedLeg>, leg: ResolvedLeg) -> nat
    decreases legs.len(),
{
    if legs.len() == 0 {
        0
    } else {
        slot_count(legs.drop_last(), leg) + if same_slot(legs.last(), leg) { 1nat } else { 0nat }
    }
}

/// Every leg of `rows`, in document order.
pub open spec fn flatten(rows: Seq<Vec<ResolvedLeg>>) -> Seq<ResolvedLeg>
    decreases rows.len(),
{
    if rows.len() == 0 {
        Seq::empty()
    } else {
        flatten(rows.drop_last()) + rows.last()@
    }
}

/// `n`, or `u32::MAX` when it does not fit.
pub open spec fn sat32(n: int) -> u32 {
    if n > u32::MAX { u32::MAX } else { n as u32 }
}

/// The slot the leg at `(i, k)` of `rows` claims: how many legs before it, in
/// document order and across all rows, share its key.
pub open spec fn occurrence_at(rows: Seq<Vec<ResolvedLeg>>, i: int, k: int) -> u32 {
    sat32(slot_count(flatten(rows.take(i)) + rows[i]@.take(k), rows[i]@[k]) as int)
}

/// How many legs of `legs` share `leg`'s key, counting it.
fn count_slot(legs: &Vec<LegPlan>, leg: &ResolvedLeg, claimed: u32) -> (r: u32)
    ensures
        r == sat32(claimed + slot_count(plan_legs(legs@), *leg)),
{
    let mut count: u32 = claimed;
    let mut i: usize = 0;
    while i < legs.len()
        invariant
            i <= legs@.len(),
            count == sat32(claimed + slot_count(plan_legs(legs@.take(i as int)), *leg)),
        decreases legs@.len() - i,
    {
        let other = &legs[i].leg;
        proof {
            assert(plan_legs(legs@.take(i + 1)).drop_last() =~= plan_legs(legs@.take(i as int)));
        }
        if other.account_id == leg.account_id && str_equal_text(other.fingerprint.as_str(), leg.fingerprint.as_str()) {
            count = count.saturating_add(1);
        }
        i = i + 1;
    }
    proof {
        assert(legs@.take(legs@.len() as int) =~= legs@);
    }
    count
}

/// Counting over two stretches adds up.
pub proof fn lemma_slot_count_append(a: Seq<ResolvedLeg>, b: Seq<ResolvedLeg>, leg: ResolvedLeg)
    ensures
        slot_count(a + b, leg) == slot_count(a, leg) + slot_count(b, leg),
    decreases b.len(),
{
    if b.len() > 0 {
        assert((a + b).drop_last() =~= a + b.drop_last());
        lemma_slot_count_append(a, b.drop_last(), leg);
    }
}

/// The legs a row of plans holds.
pub open spec fn plan_legs(plans: Seq<LegPlan>) -> Seq<ResolvedLeg> {
    plans.map_values(|p: LegPlan| p.leg)
}

/// Claims an occurrence slot for every resolved leg. Slots are allocated per
/// `(account, fingerprint)` across all legs of the run, not per transaction,
/// so two identical legs on one account take distinct slots; allocation
/// starts at zero each run, so a re-import lands on the slots it wrote before.
pub fn allocate_occurrences(rows: Vec<Vec<ResolvedLeg>>) -> (r: Vec<Vec<LegPlan>>)
    ensures
        r@.len() == rows@.len(),
        forall|i: int| #![trigger r@[i]] 0 <= i < rows@.len() ==> plan_legs(r@[i]@) == rows@[i]@,
        forall|i: int, k: int| 0 <= i < rows@.len() && 0 <= k < r@[i]@.len() ==>
            (#[trigger] r@[i]@[k]).occurrence == occurrence_at(rows@, i, k),
{
    let ghost all = rows@;
    let mut out: Vec<Vec<LegPlan>> = Vec::new();
    for row in it: rows.into_iter()
        invariant
            it.seq() == all,
            out@.len() == it.index(),
            forall|i: int| #![trigger out@[i]] 0 <= i < out@.len() ==> plan_legs(out@[i]@) == all[i]@,
            forall|i: int, k: int| 0 <= i < out@.len() && 0 <= k < out@[i]@.len() ==>
                (#[trigger] out@[i]@[k]).occurrence == occurrence_at(all, i, k),
    {
        let ghost i = out@.len() as int;
        let ghost whole = row@;
        proof {
            assert(whole == all[i]@);
        }
        let mut cur: Vec<LegPlan> = Vec::new();
        for leg in jt: row.into_iter()
            invariant
                jt.seq() == whole,
                whole == all[i]@,
                0 <= i < all.len(),
                out@.len() == i,
                forall|x: int| #![trigger out@[x]] 0 <= x < out@.len() ==> plan_legs(out@[x]@) == all[x]@,
                cur@.len() == jt.index(),
                plan_legs(cur@) == whole.take(jt.index()),
                forall|k: int| 0 <= k < cur@.len() ==> (#[trigger] cur@[k]).occurrence == occurrence_at(all, i, k),
        {
            let ghost k = cur@.len() as int;
            let mut claimed: u32 = 0;
            let mut x: usize = 0;
            proof {
                assert(all.take(0) =~= Seq::<Vec<ResolvedLeg>>::empty());
            }
            while x < out.len()
                invariant
                    x <= out@.len(),
                    out@.len() == i,
                    i < all.len(),
                    forall|y: int| #![trigger out@[y]] 0 <= y < out@.len() ==> plan_legs(out@[y]@) == all[y]@,
                    claimed == sat32(slot_count(flatten(all.take(x as int)), leg) as int),
                decreases out@.len() - x,
            {
                claimed = count_slot(&out[x], &leg, claimed);
                proof {
                    assert(all.take(x + 1).drop_last() =~= all.take(x as int));
                    lemma_slot_count_append(flatten(all.take(x as int)), all[x as int]@, leg);
                }
                x = x + 1;
            }
            claimed = count_slot(&cur, &leg, claimed);
            proof {
                lemma_slot_count_append(flatten(all.take(i)), whole.take(k), leg);
                assert(whole[k] == leg);
            }
            cur.push(LegPlan { leg, occurrence: claimed });
            proof {
                assert(plan_legs(cur@) =~= whole.take(k + 1));
            }
        }
        proof {
            assert(whole.take(whole.len() as int) =~= whole);
        }
        out.push(cur);
    }
    out
}

/// Every account named by a planned leg of `rows`, first-seen first, each once.
pub open spec fn touched(rows: Seq<Vec<LegPlan>>) -> Seq<AccountId>
    decreases rows.len(),
{
    if rows.len() == 0 {
        Seq::empty()
    } else {
        dedup_push(touched(rows.drop_last()), plan_accounts(rows.last()@))
    }
}

/// The accounts a row of plans names, in order.
pub open spec fn plan_accounts(plans: Seq<LegPlan>) -> Seq<AccountId> {
    plans.map_values(|p: LegPlan| p.leg.account_id)
}

/// `seen` followed by each item of `items` not already present, in order.
pub open spec fn dedup_push<T>(seen: Seq<T>, items: Seq<T>) -> Seq<T>
    decreases items.len(),
{
    if items.len() == 0 {
        seen
    } else {
        let prev = dedup_push(seen, items.drop_last());
        if prev.contains(items.last()) { prev } else { prev.push(items.last()) }
    }
}

/// Returns every account named by a planned leg, without duplicates, in
/// first-seen order.
pub fn touched_accounts(rows: &Vec<Vec<LegPlan>>) -> (r: Vec<AccountId>)
    ensures
        r@ == touched(rows@),
{
    let mut accounts: Vec<AccountId> = Vec::new();
    let mut i: usize = 0;
    while i < rows.len()
        invariant
            i <= rows@.len(),
            accounts@ == touched(rows@.take(i as int)),
        decreases rows@.len() - i,
    {
        let row = &rows[i];
        let ghost base = accounts@;
        let mut k: usize = 0;
        while k < row.len()
            invariant
                k <= row@.len(),
                row == rows@[i as int],
                i < rows@.len(),
                accounts@ == dedup_push(base, plan_accounts(row@).take(k as int)),
            decreases row@.len() - k,
        {
            let id = row[k].leg.account_id;
            proof {
                assert(plan_accounts(row@).take(k + 1).drop_last() =~= plan_accounts(row@).take(k as int));
            }
            if !contains_account(&accounts, id) {
                accounts.push(id);
            }
            k = k + 1;
        }
        proof {
            assert(plan_accounts(row@).take(row@.len() as int) =~= plan_accounts(row@));
            assert(rows@.take(i + 1).drop_last() =~= rows@.take(i as int));
        }
        i = i + 1;
    }
    proof {
        assert(rows@.take(rows@.len() as int) =~= rows@);
    }
    accounts
}

/// Whether `v` holds `id`.
fn contains_account(v: &Vec<AccountId>, id: AccountId) -> (r: bool)
    ensures
        r == v@.contains(id),
{
    let mut i: usize = 0;
    while i < v.len()
        invariant
            i <= v@.len(),
            forall|j: int| 0 <= j < i ==> v@[j] != id,
        decreases v@.len() - i,
    {
        if v[i] == id {
            return true;
        }
        i = i + 1;
    }
    false
}

/// The tag a rendered path maps to in `tags`, the first entry for it.
pub open spec fn tag_lookup(tags: Seq<(String, TagId)>, path: Seq<char>) -> Option<TagId>
    decreases tags.len(),
{
    if tags.len() == 0 {
        None
    } else if tags[0].0@ == path {
        Some(tags[0].1)
    } else {
        tag_lookup(tags.drop_first(), path)
    }
}

/// The ids `stated` maps to, in order, a path missing from `tags` skipped.
pub open spec fn looked_up(stated: Seq<String>, tags: Seq<(String, TagId)>) -> Seq<TagId>
    decreases stated.len(),
{
    if stated.len() == 0 {
        Seq::empty()
    } else {
        let prev = looked_up(stated.drop_last(), tags);
        match tag_lookup(tags, stated.last()@) {
            Some(id) => prev.push(id),
            None => prev,
        }
    }
}

/// Looks a rendered tag path up.
fn find_tag(tags: &Vec<(String, TagId)>, path: &str) -> (r: Option<TagId>)
    ensures
        r == tag_lookup(tags@, path@),
{
    let mut i: usize = 0;
    proof {
        assert(tags@.skip(0) =~= tags@);
    }
    while i < tags.len()
        invariant
            i <= tags@.len(),
            tag_lookup(tags@, path@) == tag_lookup(tags@.skip(i as int), path@),
        decreases tags@.len() - i,
    {
        proof {
            assert(tags@.skip(i as int).drop_first() =~= tags@.skip(i + 1));
        }
        if str_equal_text(tags[i].0.as_str(), path) {
            return Some(tags[i].1);
        }
        i = i + 1;
    }
    None
}

/// Maps stated tag paths onto the ids the run's pre-pass created: the ids of
/// the paths `tags` holds, deduplicated, in first-seen order. A path it does
/// not hold failed to parse and was warned about there.
pub fn resolve_tag_ids(stated: &Vec<String>, tags: &Vec<(String, TagId)>) -> (r: Vec<TagId>)
    ensures
        r@ == dedup_push(Seq::<TagId>::empty(), looked_up(stated@, tags@)),
{
    let mut out: Vec<TagId> = Vec::new();
    let mut i: usize = 0;
    while i < stated.len()
        invariant
            i <= stated@.len(),
            out@ == dedup_push(Seq::<TagId>::empty(), looked_up(stated@.take(i as int), tags@)),
        decreases stated@.len() - i,
    {
        proof {
            assert(stated@.take(i + 1).drop_last() =~= stated@.take(i as int));
        }
        let ghost prev = looked_up(stated@.take(i as int), tags@);
        match find_tag(tags, stated[i].as_str()) {
            Some(id) => {
                proof {
                    assert(prev.push(id).drop_last() =~= prev);
                }
                if !contains_tag(&out, id) {
                    out.push(id);
                }
            },
            None => {},
        }
        i = i + 1;
    }
    proof {
        assert(stated@.take(stated@.len() as int) =~= stated@);
    }
    out
}

/// Whether `v` holds `id`.
fn contains_tag(v: &Vec<TagId>, id: TagId) -> (r: bool)
    ensures
        r == v@.contains(id),
{
    let mut i: usize = 0;
    while i < v.len()
        invariant
            i <= v@.len(),
            forall|j: int| 0 <= j < i ==> v@[j] != id,
        decreases v@.len() - i,
    {
        if v[i] == id {
            return true;
        }
        i = i + 1;
    }
    false
}

} // verus!
