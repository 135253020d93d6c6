//! The residual a document fixes for its elided leg, and the postings a
//! brand-new transaction is built from.

use vstd::prelude::*;
use vstd::string::*;

use crate::commodity::CommodityResolver;
use crate::decimal::{Dec, checked_sub, decimal_difference};
use crate::error::{BcError, BcResult};
use crate::import::{RawPosting, RawTransaction};
use crate::metadata::MetaEntry;
use crate::model::{Amount, CommodityCode, Commodity, Posting, PostingId, TagId, amount_wf};
use crate::plan::{LegPlan, dedup_push, looked_up, resolve_tag_ids};
use crate::resolve::{Canonical, canonical_of, canonicalise};
use crate::text::str_equal_text;

verus! {

/// Per-commodity running sums: the commodity's code and its sum.
pub type Sums = Seq<(Seq<char>, Dec)>;

/// Where summing a document's concrete legs stands.
pub enum Fold {
    /// A sum left the range of a decimal.
    Overflow,
    /// A leg's code names no registered commodity (or is blank): the
    /// document fixes no residual.
    Undetermined,
    /// The negated sums so far, per commodity, first-seen first.
    Sums(Sums),
}

/// The position of `code` in `sums`.
pub open spec fn sum_index(sums: Sums, code: Seq<char>) -> Option<int>
    decreases sums.len(),
{
    if sums.len() == 0 {
        None
    } else if sums.last().0 == code {
        Some(sums.len() - 1)
    } else {
        sum_index(sums.drop_last(), code)
    }
}

/// `sums` with `v` subtracted from `code`'s sum (a new sum starting at zero),
/// or `None` when the difference leaves the range.
pub open spec fn subtract(sums: Sums, code: Seq<char>, v: Dec) -> Option<Sums> {
    let cur = match sum_index(sums, code) {
        Some(k) => sums[k].1,
        None => Dec { mantissa: 0, scale: 0 },
    };
    match decimal_difference(cur.mantissa, cur.scale, v.mantissa, v.scale) {
        None => None,
        Some((m, s)) => Some(
            match sum_index(sums, code) {
                Some(k) => sums.update(k, (code, Dec { mantissa: m, scale: s })),
                None => sums.push((code, Dec { mantissa: m, scale: s })),
            },
        ),
    }
}

/// Summing the concrete legs of `postings`, in order, each canonicalised
/// against `registry` first so that two spellings of one commodity share a
/// sum; stopping at the first leg whose code does not resolve or whose sum
/// leaves the range.
pub open spec fn fold_legs(registry: Seq<Commodity>, postings: Seq<RawPosting>) -> Fold
    decreases postings.len(),
{
    if postings.len() == 0 {
        Fold::Sums(Seq::empty())
    } else {
        match fold_legs(registry, postings.drop_last()) {
            Fold::Sums(sums) => match postings.last().amount {
                None => Fold::Sums(sums),
                Some(a) => {
                    let code = crate::text::trim(a.commodity@);
                    if code.len() == 0 || crate::commodity::resolve_code(registry, code) is None {
                        Fold::Undetermined
                    } else {
                        match subtract(sums, crate::commodity::resolve_code(registry, code)->0, a.value) {
                            None => Fold::Overflow,
                            Some(next) => Fold::Sums(next),
                        }
                    }
                },
            },
            other => other,
        }
    }
}

/// How many sums of `sums` are not zero.
pub open spec fn nonzero_count(sums: Sums) -> nat
    decreases sums.len(),
{
    if sums.len() == 0 {
        0
    } else {
        nonzero_count(sums.drop_last()) + if sums.last().1.mantissa != 0 { 1nat } else { 0nat }
    }
}

/// The one nonzero sum of `sums`, when exactly one is nonzero.
pub open spec fn sole_nonzero(sums: Sums) -> Option<(Seq<char>, Dec)>
    decreases sums.len(),
{
    if sums.len() == 0 {
        None
    } else if sums.last().1.mantissa != 0 {
        if nonzero_count(sums.drop_last()) == 0 { Some(sums.last()) } else { None }
    } else {
        sole_nonzero(sums.drop_last())
    }
}

/// The text of the running sums.
pub open spec fn sums_view(v: Seq<(String, Dec)>) -> Sums {
    v.map_values(|e: (String, Dec)| (e.0@, e.1))
}

/// Every amount `raw` states is within a decimal's range.
pub open spec fn amounts_wf(raw: RawTransaction) -> bool {
    forall|i: int| 0 <= i < raw.postings@.len() ==> amount_wf((#[trigger] raw.postings@[i]).amount)
}

/// The start of the message an overflowing sum is reported with.
pub open spec fn overflow_message() -> Seq<char> {
    "summing this row's amounts overflowed: the sum leaves the range of a decimal"@
}

/// Returns the amount an elided leg of `raw` absorbs, per the document
/// itself: the negated sum of the concrete legs' canonical amounts, when it is
/// nonzero in exactly one commodity. `None` when the legs are absent, net to
/// zero, name a code that resolves to no registered commodity, or span
/// several commodities; an error when a sum leaves the decimal range.
pub fn document_residual(raw: &RawTransaction, commodities: &CommodityResolver) -> (r: BcResult<Option<Amount>>)
    requires
        amounts_wf(*raw),
    ensures
        match fold_legs(commodities.registry(), raw.postings@) {
            Fold::Overflow => r matches Err(BcError::BadData(m)) && m@ == overflow_message(),
            Fold::Undetermined => r matches Ok(None),
            Fold::Sums(sums) => match sole_nonzero(sums) {
                Some((code, v)) => r matches Ok(Some(a)) && a.commodity@ == code && a.value == v,
                None => r matches Ok(None),
            },
        },
        (exists|j: int| 0 <= j < raw.postings@.len() && unpriced(commodities.registry(), #[trigger] raw.postings@[j])) ==> (r is Err
            || r matches Ok(None)),
{
    let ghost reg = commodities.registry();
    proof {
        if exists|j: int| 0 <= j < raw.postings@.len() && unpriced(reg, #[trigger] raw.postings@[j]) {
            let j = choose|j: int| 0 <= j < raw.postings@.len() && unpriced(reg, #[trigger] raw.postings@[j]);
            lemma_unpriced_leg_fixes_no_residual(reg, raw.postings@, j);
        }
    }
    let mut sums: Vec<(String, Dec)> = Vec::new();
    let n = raw.postings.len();
    let mut i: usize = 0;
    proof {
        assert(raw.postings@.take(0) =~= Seq::<RawPosting>::empty());
        assert(sums_view(sums@) =~= Seq::<(Seq<char>, Dec)>::empty());
    }
    while i < n
        invariant
            i <= n,
            n == raw.postings@.len(),
            amounts_wf(*raw),
            reg == commodities.registry(),
            fold_legs(reg, raw.postings@.take(i as int)) == Fold::Sums(sums_view(sums@)),
            forall|k: int| 0 <= k < sums@.len() ==> (#[trigger] sums@[k]).1.wf(),
        decreases n - i,
    {
        let ghost prefix = raw.postings@.take(i as int);
        proof {
            assert(raw.postings@.take(i + 1).drop_last() =~= prefix);
            assert(raw.postings@.take(i + 1).last() == raw.postings@[i as int]);
            assert(amount_wf(raw.postings@[i as int].amount));
        }
        let posting = &raw.postings[i];
        if posting.amount.is_some() {
            let amount = match canonicalise(commodities, &posting.amount) {
                Canonical::Resolved(Some(a)) => a,
                _ => {
                    proof {
                        lemma_fold_stays(reg, raw.postings@, (i + 1) as nat);
                    }
                    return Ok(None);
                },
            };
            let k = find_sum(&sums, amount.commodity.as_str());
            proof {
                lemma_sum_index(sums_view(sums@), amount.commodity@);
            }
            let cur = match k {
                Some(k) => {
                    proof {
                        assert(sums_view(sums@)[k as int].1 == sums@[k as int].1);
                    }
                    sums[k].1
                },
                None => Dec::zero(),
            };
            match checked_sub(&cur, &amount.value) {
                None => {
                    proof {
                        let a = raw.postings@[i as int].amount->0;
                        let code = crate::text::trim(a.commodity@);
                        assert(amount.commodity@ == crate::commodity::resolve_code(reg, code)->0);
                        assert(amount.value == a.value);
                        let cur_spec = match sum_index(sums_view(sums@), amount.commodity@) {
                            Some(k) => sums_view(sums@)[k].1,
                            None => Dec { mantissa: 0, scale: 0 },
                        };
                        assert(cur_spec == cur);
                        assert(subtract(sums_view(sums@), amount.commodity@, amount.value) is None);
                        assert(fold_legs(reg, raw.postings@.take(i + 1)) == Fold::Overflow);
                        lemma_fold_stays(reg, raw.postings@, (i + 1) as nat);
                        reveal_strlit("summing this row's amounts overflowed: the sum leaves the range of a decimal");
                    }
                    return Err(BcError::BadData(
                        String::from_str("summing this row's amounts overflowed: the sum leaves the range of a decimal"),
                    ));
                },
                Some(d) => {
                    let ghost before = sums@;
                    match k {
                        Some(k) => {
                            let code = sums[k].0.clone();
                            sums.set(k, (code, d));
                        },
                        None => {
                            sums.push((amount.commodity.0, d));
                        },
                    }
                    proof {
                        assert(sums_view(sums@) =~= subtract(sums_view(before), amount.commodity@, amount.value)->0);
                    }
                },
            }
        }
        i = i + 1;
    }
    proof {
        assert(raw.postings@.take(n as int) =~= raw.postings@);
    }
    match sole_nonzero_index(&sums) {
        Some(k) => Ok(Some(Amount::new(sums[k].1, CommodityCode(sums[k].0.clone())))),
        None => Ok(None),
    }
}

/// Whether leg `p` states an amount the registry cannot price: its code is
/// blank once trimmed, or names no registered commodity.
pub open spec fn unpriced(registry: Seq<Commodity>, p: RawPosting) -> bool {
    p.amount matches Some(a) && (crate::text::trim(a.commodity@).len() == 0 || crate::commodity::resolve_code(
        registry,
        crate::text::trim(a.commodity@),
    ) is None)
}

/// A document with a leg it cannot price fixes no residual, whatever its
/// other legs sum to: summing its legs never settles on per-commodity sums.
pub proof fn lemma_unpriced_leg_fixes_no_residual(registry: Seq<Commodity>, postings: Seq<RawPosting>, j: int)
    requires
        0 <= j < postings.len(),
        unpriced(registry, postings[j]),
    ensures
        !(fold_legs(registry, postings) is Sums),
    decreases postings.len(),
{
    if j < postings.len() - 1 {
        assert(postings.drop_last()[j] == postings[j]);
        lemma_unpriced_leg_fixes_no_residual(registry, postings.drop_last(), j);
    }
}

/// A position [`sum_index`] finds holds the code looked for.
pub(crate) proof fn lemma_sum_index(sums: Sums, code: Seq<char>)
    ensures
        sum_index(sums, code) matches Some(k) ==> 0 <= k < sums.len() && sums[k].0 == code,
    decreases sums.len(),
{
    if sums.len() > 0 && sums.last().0 != code {
        lemma_sum_index(sums.drop_last(), code);
    }
}

/// Once the fold stops with an overflow or an undetermined residual, it
/// stays stopped.
proof fn lemma_fold_stays(registry: Seq<Commodity>, postings: Seq<RawPosting>, k: nat)
    requires
        k <= postings.len(),
        !(fold_legs(registry, postings.take(k as int)) is Sums),
    ensures
        fold_legs(registry, postings) == fold_legs(registry, postings.take(k as int)),
    decreases postings.len() - k,
{
    if k < postings.len() {
        assert(postings.take(k as int + 1).drop_last() =~= postings.take(k as int));
        lemma_fold_stays(registry, postings, k + 1);
    } else {
        assert(postings.take(k as int) =~= postings);
    }
}

/// The position of `code`'s sum in `sums`.
pub(crate) fn find_sum(sums: &Vec<(String, Dec)>, code: &str) -> (r: Option<usize>)
    ensures
        match r {
            Some(k) => k < sums@.len() && sum_index(sums_view(sums@), code@) == Some(k as int),
            None => sum_index(sums_view(sums@), code@) is None,
        },
{
    let mut i = sums.len();
    proof {
        assert(sums@.take(sums@.len() as int) =~= sums@);
    }
    while i > 0
        invariant
            i <= sums@.len(),
            sum_index(sums_view(sums@), code@) == sum_index(sums_view(sums@.take(i as int)), code@),
        decreases i,
    {
        proof {
            assert(sums_view(sums@.take(i as int)).drop_last() =~= sums_view(sums@.take(i - 1)));
        }
        if str_equal_text(sums[i - 1].0.as_str(), code) {
            return Some(i - 1);
        }
        i = i - 1;
    }
    None
}

/// The position of the one nonzero sum, when exactly one is nonzero.
fn sole_nonzero_index(sums: &Vec<(String, Dec)>) -> (r: Option<usize>)
    ensures
        match sole_nonzero(sums_view(sums@)) {
            Some(e) => r matches Some(k) && k < sums@.len() && sums_view(sums@)[k as int] == e,
            None => r is None,
        },
{
    let mut found: Option<usize> = None;
    let mut count: usize = 0;
    let mut i: usize = 0;
    while i < sums.len()
        invariant
            i <= sums@.len(),
            count == nonzero_count(sums_view(sums@.take(i as int))),
            count <= i,
            match found {
                Some(k) => k < i && count > 0 && sole_nonzero(sums_view(sums@.take(i as int))) == if count == 1 {
                    Some(sums_view(sums@)[k as int])
                } else {
                    None::<(Seq<char>, Dec)>
                },
                None => count == 0 && sole_nonzero(sums_view(sums@.take(i as int))) is None,
            },
        decreases sums@.len() - i,
    {
        proof {
            assert(sums_view(sums@.take(i + 1)).drop_last() =~= sums_view(sums@.take(i as int)));
            assert(sums_view(sums@.take(i + 1)).last() == sums_view(sums@)[i as int]);
        }
        if sums[i].1.mantissa != 0 {
            count = count + 1;
            if found.is_none() {
                found = Some(i);
            }
        }
        i = i + 1;
    }
    proof {
        assert(sums@.take(sums@.len() as int) =~= sums@);
    }
    if count == 1 { found } else { None }
}

/// A copy of an optional amount.
pub fn clone_amount(a: &Option<Amount>) -> (r: Option<Amount>)
    ensures
        r == *a,
{
    match a {
        Some(x) => Some(Amount { value: x.value, commodity: CommodityCode(x.commodity.0.clone()) }),
        None => None,
    }
}

/// A copy of a list of metadata entries.
pub fn clone_entries(v: &Vec<MetaEntry>) -> (r: Vec<MetaEntry>)
    ensures
        r@ == v@,
{
    let mut out: Vec<MetaEntry> = Vec::new();
    let mut i: usize = 0;
    while i < v.len()
        invariant
            i <= v@.len(),
            out@ == v@.take(i as int),
        decreases v@.len() - i,
    {
        out.push(v[i].clone_entry());
        proof {
            assert(out@ =~= v@.take(i + 1));
        }
        i = i + 1;
    }
    proof {
        assert(v@.take(v@.len() as int) =~= v@);
    }
    out
}

/// Whether `p` is the posting `leg` persists as under the id `id`: on the
/// leg's account, with the leg's amount or, for an elided leg, `residual`,
/// the leg's metadata, and the ids of its tags that `tags` holds.
pub open spec fn posting_of(leg: LegPlan, residual: Option<Amount>, tags: Seq<(String, TagId)>, id: PostingId, p: Posting) -> bool {
    &&& p.id == id
    &&& p.account_id == leg.leg.account_id
    &&& p.amount == if leg.leg.amount is Some { leg.leg.amount } else { residual }
    &&& p.metadata@ == leg.leg.metadata@
    &&& p.tag_ids@ == dedup_push(Seq::<TagId>::empty(), looked_up(leg.leg.tag_paths@, tags))
}

impl LegPlan {
    /// Builds the posting this leg persists as, under the fresh id `id`.
    /// `residual` is given to an elided leg whose derived value would
    /// otherwise be lost; a tag path `tags` does not hold failed to parse and
    /// is dropped rather than costing the leg.
    pub fn posting(&self, residual: &Option<Amount>, tags: &Vec<(String, TagId)>, id: PostingId) -> (r: Posting)
        ensures
            posting_of(*self, *residual, tags@, id, r),
    {
        let amount = if self.leg.amount.is_some() { clone_amount(&self.leg.amount) } else { clone_amount(residual) };
        Posting {
            id,
            account_id: self.leg.account_id,
            amount,
            metadata: clone_entries(&self.leg.metadata),
            tag_ids: resolve_tag_ids(&self.leg.tag_paths, tags),
        }
    }
}

/// Whether every leg of `legs` elides its amount.
pub open spec fn all_elided(legs: Seq<LegPlan>) -> bool {
    forall|k: int| 0 <= k < legs.len() ==> (#[trigger] legs[k]).leg.amount is None
}

/// Builds the postings of a brand-new transaction, in leg order, the `k`-th
/// under `ids[k]`. An elided leg stays elided unless no concrete leg
/// accompanies it: then the document's residual is materialised onto it, and
/// when the document fixes none the row cannot be built (`Ok(None)`).
pub fn build_postings(
    raw: &RawTransaction,
    legs: &Vec<LegPlan>,
    commodities: &CommodityResolver,
    tags: &Vec<(String, TagId)>,
    ids: &Vec<PostingId>,
) -> (r: BcResult<Option<Vec<Posting>>>)
    requires
        amounts_wf(*raw),
        ids@.len() == legs@.len(),
    ensures
        !all_elided(legs@) ==> (r matches Ok(Some(ps)) && ps@.len() == legs@.len() && forall|k: int|
            0 <= k < legs@.len() ==> posting_of(legs@[k], None, tags@, ids@[k], #[trigger] ps@[k])),
        all_elided(legs@) ==> match fold_legs(commodities.registry(), raw.postings@) {
            Fold::Overflow => r matches Err(BcError::BadData(m)) && m@ == overflow_message(),
            Fold::Undetermined => r matches Ok(None),
            Fold::Sums(sums) => match sole_nonzero(sums) {
                Some((code, v)) => r matches Ok(Some(ps)) && ps@.len() == legs@.len() && exists|a: Amount|
                    a.commodity@ == code && a.value == v && forall|k: int|
                        0 <= k < legs@.len() ==> posting_of(legs@[k], Some(a), tags@, ids@[k], #[trigger] ps@[k]),
                None => r matches Ok(None),
            },
        },
{
    let mut elided = true;
    let mut k: usize = 0;
    while k < legs.len()
        invariant
            k <= legs@.len(),
            elided == forall|j: int| 0 <= j < k ==> (#[trigger] legs@[j]).leg.amount is None,
        decreases legs@.len() - k,
    {
        if legs[k].leg.amount.is_some() {
            elided = false;
        }
        k = k + 1;
    }
    let residual = if elided {
        match document_residual(raw, commodities) {
            Err(e) => {
                return Err(e);
            },
            Ok(None) => {
                return Ok(None);
            },
            Ok(Some(a)) => Some(a),
        }
    } else {
        None
    };
    let mut out: Vec<Posting> = Vec::new();
    let mut i: usize = 0;
    while i < legs.len()
        invariant
            i <= legs@.len(),
            ids@.len() == legs@.len(),
            out@.len() == i,
            forall|j: int| 0 <= j < i ==> posting_of(legs@[j], residual, tags@, ids@[j], #[trigger] out@[j]),
        decreases legs@.len() - i,
    {
        out.push(legs[i].posting(&residual, tags, ids[i]));
        i = i + 1;
    }
    proof {
        if !elided {
            assert forall|j: int| 0 <= j < legs@.len() implies posting_of(legs@[j], None, tags@, ids@[j], #[trigger] out@[j]) by {}
        } else {
            if let Some(a) = residual {
                assert(forall|j: int| 0 <= j < legs@.len() ==> posting_of(legs@[j], Some(a), tags@, ids@[j], #[trigger] out@[j]));
            }
        }
    }
    Ok(Some(out))
}

} // verus!
