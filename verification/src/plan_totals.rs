//! What a dry run reports: per account, the per-commodity sums the run would
//! move it by. A posting always claims its account's bucket, even when it
//! moves nothing, so an account whose legs net to zero stays apart from one
//! the run never names; an elided leg moves by the residual it absorbs.

use vstd::prelude::*;
use vstd::string::*;

use crate::decimal::{checked_add, checked_sub, decimal_difference, decimal_sum, Dec};
use crate::model::{Amount, Posting};
use crate::plan::LegPlan;
use crate::residual::{clone_amount, find_sum, lemma_sum_index, subtract, sum_index, sums_view, Sums};
use crate::text::{lemma_seq_less_asymmetric, lemma_seq_less_total, lemma_seq_less_transitive, seq_less, str_equal_text, str_less};

verus! {

/// The sum `sums` holds for `code`, zero when it holds none.
pub open spec fn sum_of(sums: Sums, code: Seq<char>) -> Dec {
    match sum_index(sums, code) {
        Some(k) => sums[k].1,
        None => Dec { mantissa: 0, scale: 0 },
    }
}

/// `sums` with `code`'s sum set to `d`, a new sum when it holds none.
pub open spec fn with_sum(sums: Sums, code: Seq<char>, d: Dec) -> Sums {
    match sum_index(sums, code) {
        Some(k) => sums.update(k, (code, d)),
        None => sums.push((code, d)),
    }
}

/// `sums` moved by `v` in `code`, up when `up`, down otherwise; a sum the
/// move would take out of a decimal's range keeps its value.
pub open spec fn moved(sums: Sums, code: Seq<char>, v: Dec, up: bool) -> Sums {
    let cur = sum_of(sums, code);
    let next = if up {
        decimal_sum(cur.mantissa, cur.scale, v.mantissa, v.scale)
    } else {
        decimal_difference(cur.mantissa, cur.scale, v.mantissa, v.scale)
    };
    match next {
        Some((m, s)) => with_sum(sums, code, Dec { mantissa: m, scale: s }),
        None => sums,
    }
}

/// `sums` moved by every sum of `by`, in order.
pub open spec fn moved_all(sums: Sums, by: Sums, up: bool) -> Sums
    decreases by.len(),
{
    if by.len() == 0 {
        sums
    } else {
        moved(moved_all(sums, by.drop_last(), up), by.last().0, by.last().1, up)
    }
}

/// The sums an optional movement holds, none when absent.
pub open spec fn or_none(s: Option<Sums>) -> Sums {
    match s {
        Some(x) => x,
        None => Seq::empty(),
    }
}

/// Per-account sums: an account's rendered path and its sums.
pub type Totals = Seq<(Seq<char>, Sums)>;

/// The position of `path`'s bucket.
pub open spec fn bucket_index(t: Totals, path: Seq<char>) -> Option<int>
    decreases t.len(),
{
    if t.len() == 0 {
        None
    } else if t.last().0 == path {
        Some(t.len() - 1)
    } else {
        bucket_index(t.drop_last(), path)
    }
}

/// `path`'s bucket, empty when unclaimed.
pub open spec fn bucket(t: Totals, path: Seq<char>) -> Sums {
    match bucket_index(t, path) {
        Some(k) => t[k].1,
        None => Seq::empty(),
    }
}

/// Whether the buckets' paths strictly ascend, as in a sorted map.
pub open spec fn paths_ascending(t: Totals) -> bool {
    forall|i: int, j: int| 0 <= i < j < t.len() ==> seq_less(#[trigger] t[i].0, #[trigger] t[j].0)
}

/// Whether a new bucket for `path` at position `i` keeps the paths sorted:
/// every path before it orders before `path`, none after it does.
pub open spec fn fits_at(t: Totals, path: Seq<char>, i: int) -> bool {
    &&& 0 <= i <= t.len()
    &&& forall|j: int| 0 <= j < i ==> seq_less(#[trigger] t[j].0, path)
    &&& forall|j: int| i <= j < t.len() ==> !seq_less(#[trigger] t[j].0, path)
}

/// Where a new bucket for `path` goes in the sorted `t`.
pub open spec fn slot(t: Totals, path: Seq<char>) -> int {
    choose|i: int| fits_at(t, path, i)
}

/// `t` with `path`'s bucket claimed and set to `sums`; a new bucket goes
/// in its place by path.
pub open spec fn claimed(t: Totals, path: Seq<char>, sums: Sums) -> Totals {
    match bucket_index(t, path) {
        Some(k) => t.update(k, (path, sums)),
        None => t.insert(slot(t, path), (path, sums)),
    }
}

/// `t` with `path`'s bucket claimed and moved up by `add` and down by
/// `subtract`, commodity by commodity.
pub open spec fn shifted(t: Totals, path: Seq<char>, add: Option<Sums>, sub: Option<Sums>) -> Totals {
    claimed(t, path, moved_all(moved_all(bucket(t, path), or_none(add), true), or_none(sub), false))
}

/// `t` with one posting recorded on `path`: a stated amount moves it by
/// itself, an elided one by the residual `derived` it absorbs.
pub open spec fn recorded(t: Totals, path: Seq<char>, amount: Option<Amount>, derived: Option<Sums>) -> Totals {
    match amount {
        Some(a) => claimed(t, path, moved(bucket(t, path), a.commodity@, a.value, true)),
        None => shifted(t, path, derived, None),
    }
}

/// `t` with the first `n` postings recorded on their legs' accounts, an
/// elided one absorbing `residual`.
pub open spec fn recorded_legs(t: Totals, postings: Seq<Posting>, legs: Seq<LegPlan>, residual: Option<Sums>, n: nat) -> Totals
    decreases n,
{
    if n == 0 {
        t
    } else {
        let k = n - 1;
        let before = recorded_legs(t, postings, legs, residual, (n - 1) as nat);
        let derived = if postings[k].amount is None { residual } else { None };
        recorded(before, legs[k].leg.account_path@, postings[k].amount, derived)
    }
}

/// How many of `amounts` are elided.
pub open spec fn elided_count(amounts: Seq<Option<Amount>>) -> nat
    decreases amounts.len(),
{
    if amounts.len() == 0 {
        0
    } else {
        elided_count(amounts.drop_last()) + if amounts.last() is None { 1nat } else { 0nat }
    }
}

/// The stated amounts negated and summed per commodity, `None` when a sum
/// leaves a decimal's range.
pub open spec fn negated_sums(amounts: Seq<Option<Amount>>) -> Option<Sums>
    decreases amounts.len(),
{
    if amounts.len() == 0 {
        Some(Seq::empty())
    } else {
        match negated_sums(amounts.drop_last()) {
            None => None,
            Some(s) => match amounts.last() {
                None => Some(s),
                Some(a) => subtract(s, a.commodity@, a.value),
            },
        }
    }
}

/// The residual a transaction's one elided leg absorbs: its siblings'
/// amounts negated, per commodity. `None` when no leg elides, when several
/// do, or when a sum leaves a decimal's range.
pub open spec fn posting_residual(amounts: Seq<Option<Amount>>) -> Option<Sums> {
    if elided_count(amounts) == 1 {
        negated_sums(amounts)
    } else {
        None
    }
}

/// The amounts of `postings`.
pub open spec fn amounts_of(postings: Seq<Posting>) -> Seq<Option<Amount>> {
    postings.map_values(|p: Posting| p.amount)
}

/// Every sum of `sums` is within a decimal's range.
pub open spec fn sums_wf(sums: Sums) -> bool {
    forall|i: int| 0 <= i < sums.len() ==> (#[trigger] sums[i]).1.wf()
}

/// Every amount of `postings` is within a decimal's range.
pub open spec fn postings_wf(postings: Seq<Posting>) -> bool {
    forall|i: int| 0 <= i < postings.len() ==> crate::model::amount_wf((#[trigger] postings[i]).amount)
}

/// The sums as held.
pub open spec fn held(v: Seq<(String, Dec)>) -> Sums {
    sums_view(v)
}

/// Moves `sums` by `v` in `code`.
fn move_sum(sums: &mut Vec<(String, Dec)>, code: &str, v: Dec, up: bool)
    requires
        sums_wf(held(old(sums)@)),
        v.wf(),
    ensures
        sums_wf(held(final(sums)@)),
        held(final(sums)@) == moved(held(old(sums)@), code@, v, up),
{
    let k = find_sum(sums, code);
    proof {
        lemma_sum_index(held(sums@), code@);
    }
    let cur = match k {
        Some(k) => {
            proof {
                assert(held(sums@)[k as int].1 == sums@[k as int].1);
            }
            sums[k].1
        },
        None => Dec::zero(),
    };
    proof {
        if let Some(j) = k {
            assert(held(sums@)[j as int].1.wf());
        }
    }
    let next = if up {
        checked_add(&cur, &v)
    } else {
        checked_sub(&cur, &v)
    };
    match next {
        None => {},
        Some(d) => {
            let ghost before = sums@;
            match k {
                Some(k) => {
                    let name = sums[k].0.clone();
                    sums.set(k, (name, d));
                },
                None => {
                    sums.push((String::from_str(code), d));
                },
            }
            proof {
                assert(held(sums@) =~= with_sum(held(before), code@, d));
            }
        },
    }
}

/// Moves `sums` by every sum of `by`.
fn move_all(sums: &mut Vec<(String, Dec)>, by: &Vec<(String, Dec)>, up: bool)
    requires
        sums_wf(held(old(sums)@)),
        sums_wf(held(by@)),
    ensures
        sums_wf(held(final(sums)@)),
        held(final(sums)@) == moved_all(held(old(sums)@), held(by@), up),
{
    let ghost start = held(sums@);
    let mut i: usize = 0;
    proof {
        assert(held(by@).take(0) =~= Seq::<(Seq<char>, Dec)>::empty());
    }
    while i < by.len()
        invariant
            i <= by@.len(),
            sums_wf(held(sums@)),
            sums_wf(held(by@)),
            held(sums@) == moved_all(start, held(by@).take(i as int), up),
        decreases by@.len() - i,
    {
        proof {
            assert(held(by@).take(i + 1).drop_last() =~= held(by@).take(i as int));
            assert(held(by@).take(i + 1).last() == held(by@)[i as int]);
            assert(held(by@)[i as int].1.wf());
        }
        move_sum(sums, by[i].0.as_str(), by[i].1, up);
        i = i + 1;
    }
    proof {
        assert(held(by@).take(by@.len() as int) =~= held(by@));
    }
}

/// The residual the one elided leg among `amounts` absorbs, per commodity.
fn residual_of(amounts: &Vec<Option<Amount>>) -> (r: Option<Vec<(String, Dec)>>)
    requires
        forall|i: int| 0 <= i < amounts@.len() ==> crate::model::amount_wf(#[trigger] amounts@[i]),
    ensures
        match posting_residual(amounts@) {
            Some(s) => r matches Some(v) && held(v@) == s && sums_wf(s),
            None => r is None,
        },
{
    let mut elided: usize = 0;
    let mut sums: Vec<(String, Dec)> = Vec::new();
    let mut failed = false;
    let mut i: usize = 0;
    proof {
        assert(amounts@.take(0) =~= Seq::<Option<Amount>>::empty());
        assert(held(sums@) =~= Seq::<(Seq<char>, Dec)>::empty());
    }
    while i < amounts.len()
        invariant
            i <= amounts@.len(),
            forall|i: int| 0 <= i < amounts@.len() ==> crate::model::amount_wf(#[trigger] amounts@[i]),
            elided == elided_count(amounts@.take(i as int)),
            elided <= i,
            sums_wf(held(sums@)),
            failed <==> negated_sums(amounts@.take(i as int)) is None,
            !failed ==> negated_sums(amounts@.take(i as int)) == Some(held(sums@)),
        decreases amounts@.len() - i,
    {
        proof {
            assert(amounts@.take(i + 1).drop_last() =~= amounts@.take(i as int));
            assert(amounts@.take(i + 1).last() == amounts@[i as int]);
            assert(crate::model::amount_wf(amounts@[i as int]));
        }
        match &amounts[i] {
            None => {
                elided = elided + 1;
            },
            Some(a) => {
                if !failed {
                    let code = a.commodity.as_str();
                    let k = find_sum(&sums, code);
                    proof {
                        lemma_sum_index(held(sums@), a.commodity@);
                    }
                    let cur = match k {
                        Some(k) => {
                            proof {
                                assert(held(sums@)[k as int].1 == sums@[k as int].1);
                                assert(held(sums@)[k as int].1.wf());
                            }
                            sums[k].1
                        },
                        None => Dec::zero(),
                    };
                    match checked_sub(&cur, &a.value) {
                        None => {
                            failed = true;
                        },
                        Some(d) => {
                            let ghost before = sums@;
                            match k {
                                Some(k) => {
                                    let name = sums[k].0.clone();
                                    sums.set(k, (name, d));
                                },
                                None => {
                                    sums.push((a.commodity.0.clone(), d));
                                },
                            }
                            proof {
                                assert(held(sums@) =~= subtract(held(before), a.commodity@, a.value)->0);
                            }
                        },
                    }
                }
            },
        }
        i = i + 1;
    }
    proof {
        assert(amounts@.take(amounts@.len() as int) =~= amounts@);
    }
    if elided == 1 && !failed {
        Some(sums)
    } else {
        None
    }
}

/// Pushes the amounts of `postings` onto `amounts`.
fn push_amounts(amounts: &mut Vec<Option<Amount>>, postings: &Vec<Posting>)
    ensures
        final(amounts)@ == old(amounts)@ + amounts_of(postings@),
{
    let ghost start = amounts@;
    let mut i: usize = 0;
    while i < postings.len()
        invariant
            i <= postings@.len(),
            amounts@ == start + amounts_of(postings@).take(i as int),
        decreases postings@.len() - i,
    {
        proof {
            assert(start + amounts_of(postings@).take(i + 1) =~= (start + amounts_of(postings@).take(i as int)).push(
                postings@[i as int].amount,
            ));
        }
        amounts.push(clone_amount(&postings[i].amount));
        i = i + 1;
    }
    proof {
        assert(amounts_of(postings@).take(postings@.len() as int) =~= amounts_of(postings@));
    }
}

/// The residual a transaction holding `postings` derives for its one elided
/// leg, per commodity.
pub fn residual(postings: &Vec<Posting>) -> (r: Option<Vec<(String, Dec)>>)
    requires
        postings_wf(postings@),
    ensures
        match posting_residual(amounts_of(postings@)) {
            Some(s) => r matches Some(v) && held(v@) == s && sums_wf(s),
            None => r is None,
        },
{
    let mut amounts: Vec<Option<Amount>> = Vec::new();
    push_amounts(&mut amounts, postings);
    proof {
        assert(amounts@ =~= amounts_of(postings@));
    }
    residual_of(&amounts)
}

/// The position of the one elided posting of `stored`, when exactly one
/// elides.
pub open spec fn elided_position(stored: Seq<Posting>) -> Option<int> {
    if exists|k: int| sole_elided(stored, k) {
        Some(choose|k: int| sole_elided(stored, k))
    } else {
        None
    }
}

/// Whether posting `k` of `stored` is the only one that elides.
pub open spec fn sole_elided(stored: Seq<Posting>, k: int) -> bool {
    &&& 0 <= k < stored.len()
    &&& stored[k].amount is None
    &&& forall|j: int| 0 <= j < stored.len() && j != k ==> (#[trigger] stored[j]).amount is Some
}

/// A copy of per-commodity sums.
fn copy_sums(v: &Vec<(String, Dec)>) -> (r: Vec<(String, Dec)>)
    ensures
        held(r@) == held(v@),
{
    let mut out: Vec<(String, Dec)> = Vec::new();
    let mut i: usize = 0;
    while i < v.len()
        invariant
            i <= v@.len(),
            held(out@) == held(v@.take(i as int)),
        decreases v@.len() - i,
    {
        proof {
            assert(held(v@.take(i + 1)) =~= held(v@.take(i as int)).push((v@[i as int].0@, v@[i as int].1)));
        }
        let ghost before = out@;
        out.push((v[i].0.clone(), v[i].1));
        proof {
            assert(held(out@) =~= held(before).push((v@[i as int].0@, v@[i as int].1)));
        }
        i = i + 1;
    }
    proof {
        assert(v@.take(v@.len() as int) =~= v@);
    }
    out
}

/// The planned totals of a dry run.
#[derive(Debug)]
pub struct PlanTotals {
    totals: Vec<(String, Vec<(String, Dec)>)>,
}

impl PlanTotals {
    /// The totals, per account path.
    pub closed spec fn totals(&self) -> Totals {
        self.totals@.map_values(|e: (String, Vec<(String, Dec)>)| (e.0@, held(e.1@)))
    }

    /// Every sum within a decimal's range, and the buckets sorted by path.
    pub closed spec fn wf(&self) -> bool {
        &&& forall|i: int| 0 <= i < self.totals@.len() ==> sums_wf(held((#[trigger] self.totals@[i]).1@))
        &&& paths_ascending(self.totals())
    }

    /// No account touched yet.
    pub fn new() -> (r: PlanTotals)
        ensures
            r.totals() == Seq::<(Seq<char>, Sums)>::empty(),
            r.wf(),
    {
        let r = PlanTotals { totals: Vec::new() };
        proof {
            assert(r.totals() =~= Seq::<(Seq<char>, Sums)>::empty());
        }
        r
    }

    /// The totals as held, per account path, in ascending order of path.
    pub fn rows(&self) -> (r: &Vec<(String, Vec<(String, Dec)>)>)
        ensures
            r@.map_values(|e: (String, Vec<(String, Dec)>)| (e.0@, held(e.1@))) == self.totals(),
            self.wf() ==> paths_ascending(self.totals()),
    {
        &self.totals
    }

    /// The position of `path`'s bucket.
    fn find_bucket(&self, path: &str) -> (r: Option<usize>)
        ensures
            match r {
                Some(k) => k < self.totals@.len() && bucket_index(self.totals(), path@) == Some(k as int),
                None => bucket_index(self.totals(), path@) is None,
            },
    {
        let mut i = self.totals.len();
        proof {
            assert(self.totals().take(self.totals@.len() as int) =~= self.totals());
        }
        while i > 0
            invariant
                i <= self.totals@.len(),
                bucket_index(self.totals(), path@) == bucket_index(self.totals().take(i as int), path@),
            decreases i,
        {
            proof {
                assert(self.totals().take(i as int).drop_last() =~= self.totals().take(i - 1));
                assert(self.totals().take(i as int).last() == self.totals()[i - 1]);
            }
            if str_equal_text(self.totals[i - 1].0.as_str(), path) {
                return Some(i - 1);
            }
            i = i - 1;
        }
        None
    }

    /// Takes `path`'s bucket out, claiming it, and returns its position.
    fn claim(&mut self, path: &str) -> (r: (usize, Vec<(String, Dec)>))
        requires
            old(self).wf(),
        ensures
            final(self).wf(),
            r.0 < final(self).totals@.len(),
            final(self).totals()[r.0 as int].0 == path@,
            held(r.1@) == bucket(old(self).totals(), path@),
            sums_wf(held(r.1@)),
            forall|s: Sums| #[trigger] claimed(old(self).totals(), path@, s) == final(self).totals().update(r.0 as int, (path@, s)),
    {
        proof {
            lemma_bucket_index(self.totals(), path@);
        }
        match self.find_bucket(path) {
            Some(k) => {
                let sums = copy_sums(&self.totals[k].1);
                proof {
                    assert(sums_wf(held(self.totals@[k as int].1@)));
                    assert(self.totals()[k as int].1 == held(self.totals@[k as int].1@));
                }
                (k, sums)
            },
            None => {
                let ghost before = self.totals();
                let mut i: usize = 0;
                while i < self.totals.len() && str_less(self.totals[i].0.as_str(), path)
                    invariant
                        i <= self.totals@.len(),
                        self.totals() == before,
                        forall|j: int| 0 <= j < i ==> seq_less(#[trigger] before[j].0, path@),
                    decreases self.totals@.len() - i,
                {
                    proof {
                        assert(before[i as int].0 == self.totals@[i as int].0@);
                    }
                    i = i + 1;
                }
                proof {
                    if i < before.len() {
                        assert(before[i as int].0 == self.totals@[i as int].0@);
                        assert(!seq_less(before[i as int].0, path@));
                        assert(before[i as int].0 != path@);
                        lemma_seq_less_total(before[i as int].0, path@);
                        assert(seq_less(path@, before[i as int].0));
                    }
                    assert forall|j: int| i <= j < before.len() implies seq_less(path@, #[trigger] before[j].0) by {
                        if j > i {
                            lemma_seq_less_transitive(path@, before[i as int].0, before[j].0);
                        }
                    }
                    assert forall|j: int| i <= j < before.len() implies !seq_less(#[trigger] before[j].0, path@) by {
                        assert(seq_less(path@, before[j].0));
                        lemma_seq_less_asymmetric(path@, before[j].0);
                    }
                    assert(fits_at(before, path@, i as int));
                    let c = slot(before, path@);
                    assert(fits_at(before, path@, c));
                    if c < i {
                        assert(seq_less(before[c].0, path@));
                    } else if c > i {
                        assert(seq_less(before[i as int].0, path@));
                    }
                    assert(c == i);
                }
                self.totals.insert(i, (String::from_str(path), Vec::new()));
                proof {
                    assert(held(Seq::<(String, Dec)>::empty()) =~= Seq::<(Seq<char>, Dec)>::empty());
                    let t1 = self.totals();
                    assert(t1 =~= before.insert(i as int, (path@, Seq::empty())));
                    assert forall|a: int, b: int| 0 <= a < b < t1.len() implies seq_less(#[trigger] t1[a].0, #[trigger] t1[b].0) by {
                        if b < i {
                            assert(t1[a] == before[a] && t1[b] == before[b]);
                        } else if b == i {
                            assert(t1[a] == before[a]);
                        } else if a < i {
                            assert(t1[a] == before[a] && t1[b] == before[b - 1]);
                            assert(seq_less(path@, before[b - 1].0));
                            lemma_seq_less_transitive(before[a].0, path@, before[b - 1].0);
                        } else if a == i {
                            assert(t1[b] == before[b - 1]);
                            assert(seq_less(path@, before[b - 1].0));
                        } else {
                            assert(t1[a] == before[a - 1] && t1[b] == before[b - 1]);
                        }
                    }
                    assert forall|k: int| 0 <= k < self.totals@.len() implies sums_wf(held((#[trigger] self.totals@[k]).1@)) by {
                        if k < i {
                            assert(self.totals@[k] == old(self).totals@[k]);
                        } else if k > i {
                            assert(self.totals@[k] == old(self).totals@[k - 1]);
                        }
                    }
                    assert forall|s: Sums| #[trigger] claimed(before, path@, s) == self.totals().update(
                        i as int,
                        (path@, s),
                    ) by {
                        assert(before.insert(i as int, (path@, s)) =~= before.insert(i as int, (path@, Seq::empty())).update(
                            i as int,
                            (path@, s),
                        ));
                    }
                }
                (i, Vec::new())
            },
        }
    }

    /// Puts a bucket back at position `k`.
    fn put(&mut self, k: usize, path: &str, sums: Vec<(String, Dec)>)
        requires
            old(self).wf(),
            k < old(self).totals@.len(),
            old(self).totals()[k as int].0 == path@,
            sums_wf(held(sums@)),
        ensures
            final(self).wf(),
            final(self).totals() == old(self).totals().update(k as int, (path@, held(sums@))),
    {
        let ghost before = self.totals();
        self.totals.set(k, (String::from_str(path), sums));
        proof {
            assert(self.totals() =~= before.update(k as int, (path@, held(sums@))));
        }
    }

    /// Moves `path`'s total up by `add` and down by `subtract`, per
    /// commodity, claiming its bucket whatever the movement. A commodity
    /// whose sum the move would take out of range keeps its sum.
    pub fn shift(&mut self, path: &str, add: &Option<Vec<(String, Dec)>>, subtract: &Option<Vec<(String, Dec)>>)
        requires
            old(self).wf(),
            add matches Some(a) ==> sums_wf(held(a@)),
            subtract matches Some(s) ==> sums_wf(held(s@)),
        ensures
            final(self).wf(),
            final(self).totals() == shifted(
                old(self).totals(),
                path@,
                match add {
                    Some(a) => Some(held(a@)),
                    None => None,
                },
                match subtract {
                    Some(s) => Some(held(s@)),
                    None => None,
                },
            ),
    {
        let ghost start = self.totals();
        let (k, mut sums) = self.claim(path);
        match add {
            Some(a) => move_all(&mut sums, a, true),
            None => {},
        }
        match subtract {
            Some(s) => move_all(&mut sums, s, false),
            None => {},
        }
        self.put(k, path, sums);
    }

    /// Records one posting the run would write, on its leg's account: a
    /// stated amount moves the account by itself; an elided one by
    /// `derived`, the residual it absorbs, or by nothing.
    pub fn record(&mut self, posting: &Posting, leg: &LegPlan, derived: &Option<Vec<(String, Dec)>>)
        requires
            old(self).wf(),
            crate::model::amount_wf(posting.amount),
            derived matches Some(d) ==> sums_wf(held(d@)),
        ensures
            final(self).wf(),
            final(self).totals() == recorded(
                old(self).totals(),
                leg.leg.account_path@,
                posting.amount,
                match derived {
                    Some(d) => Some(held(d@)),
                    None => None,
                },
            ),
    {
        match &posting.amount {
            Some(a) => {
                let (k, mut sums) = self.claim(leg.leg.account_path.as_str());
                move_sum(&mut sums, a.commodity.0.as_str(), a.value, true);
                self.put(k, leg.leg.account_path.as_str(), sums);
            },
            None => {
                self.shift(leg.leg.account_path.as_str(), derived, &None);
            },
        }
    }

    /// Records the postings the run would write, index by index with the
    /// legs they were built from; an elided one absorbs `residual`.
    pub fn record_legs(&mut self, postings: &Vec<Posting>, legs: &Vec<LegPlan>, residual: &Option<Vec<(String, Dec)>>)
        requires
            old(self).wf(),
            postings_wf(postings@),
            residual matches Some(d) ==> sums_wf(held(d@)),
        ensures
            final(self).wf(),
            final(self).totals() == recorded_legs(
                old(self).totals(),
                postings@,
                legs@,
                match residual {
                    Some(d) => Some(held(d@)),
                    None => None,
                },
                if postings@.len() <= legs@.len() { postings@.len() } else { legs@.len() },
            ),
    {
        let ghost start = self.totals();
        let ghost res = match residual {
            Some(d) => Some(held(d@)),
            None => None,
        };
        let n = if postings.len() <= legs.len() { postings.len() } else { legs.len() };
        let mut i: usize = 0;
        while i < n
            invariant
                i <= n,
                n <= postings@.len(),
                n <= legs@.len(),
                self.wf(),
                postings_wf(postings@),
                residual matches Some(d) ==> sums_wf(held(d@)),
                res == match residual {
                    Some(d) => Some(held(d@)),
                    None => None,
                },
                self.totals() == recorded_legs(start, postings@, legs@, res, i as nat),
            decreases n - i,
        {
            proof {
                assert(crate::model::amount_wf(postings@[i as int].amount));
            }
            if postings[i].amount.is_none() {
                self.record(&postings[i], &legs[i], residual);
            } else {
                self.record(&postings[i], &legs[i], &None);
            }
            i = i + 1;
        }
    }

    /// Records a brand-new transaction: its postings are all it holds, so
    /// they alone fix the residual its elided leg absorbs.
    pub fn create(&mut self, postings: &Vec<Posting>, legs: &Vec<LegPlan>)
        requires
            old(self).wf(),
            postings_wf(postings@),
        ensures
            final(self).wf(),
            final(self).totals() == recorded_legs(
                old(self).totals(),
                postings@,
                legs@,
                posting_residual(amounts_of(postings@)),
                if postings@.len() <= legs@.len() { postings@.len() } else { legs@.len() },
            ),
    {
        let r = residual(postings);
        self.record_legs(postings, legs, &r);
    }

    /// Records legs appended to a transaction that holds `stored`, each
    /// stored posting's account path beside it where the run's snapshot
    /// names it. Besides the appended legs, a stored elided leg moves too:
    /// it absorbed the residual before and absorbs the new one after, so its
    /// account moves by the difference.
    pub fn attach(
        &mut self,
        stored: &Vec<Posting>,
        stored_paths: &Vec<Option<String>>,
        postings: &Vec<Posting>,
        insertions: &Vec<LegPlan>,
    )
        requires
            old(self).wf(),
            stored_paths@.len() == stored@.len(),
            postings_wf(stored@),
            postings_wf(postings@),
        ensures
            final(self).wf(),
            ({
                let before = posting_residual(amounts_of(stored@));
                let after = posting_residual(amounts_of(stored@ + postings@));
                let moved_elided = match elided_position(stored@) {
                    Some(k) => match stored_paths@[k] {
                        Some(p) => shifted(old(self).totals(), p@, after, before),
                        None => old(self).totals(),
                    },
                    None => old(self).totals(),
                };
                final(self).totals() == recorded_legs(
                    moved_elided,
                    postings@,
                    insertions@,
                    after,
                    if postings@.len() <= insertions@.len() { postings@.len() } else { insertions@.len() },
                )
            }),
    {
        let before = residual(stored);
        let mut all: Vec<Option<Amount>> = Vec::new();
        push_amounts(&mut all, stored);
        push_amounts(&mut all, postings);
        proof {
            assert(all@ =~= amounts_of(stored@ + postings@));
            assert forall|k: int| 0 <= k < all@.len() implies crate::model::amount_wf(#[trigger] all@[k]) by {
                if k < stored@.len() {
                    assert(all@[k] == stored@[k].amount);
                } else {
                    assert(all@[k] == postings@[k - stored@.len()].amount);
                }
            }
        }
        let after = residual_of(&all);
        let found = crate::write::single_elided(stored);
        proof {
            match found {
                Some(k) => {
                    assert(sole_elided(stored@, k as int));
                    assert forall|m: int| sole_elided(stored@, m) implies m == k by {
                        if m != k {
                            assert(stored@[m].amount is Some);
                        }
                    }
                },
                None => {
                    assert forall|m: int| !sole_elided(stored@, m) by {
                        if 0 <= m < stored@.len() && stored@[m].amount is None {
                            let j = choose|j: int| 0 <= j < stored@.len() && j != m && stored@[j].amount is None;
                            assert(stored@[j].amount is None);
                        }
                    }
                },
            }
        }
        match found {
            Some(k) => match &stored_paths[k] {
                Some(p) => self.shift(p.as_str(), &after, &before),
                None => {},
            },
            None => {},
        }
        self.record_legs(postings, insertions, &after);
    }
}

/// A position [`bucket_index`] finds holds the path looked for.
proof fn lemma_bucket_index(t: Totals, path: Seq<char>)
    ensures
        bucket_index(t, path) matches Some(k) ==> 0 <= k < t.len() && t[k].0 == path,
        bucket_index(t, path) is None ==> forall|j: int| 0 <= j < t.len() ==> (#[trigger] t[j]).0 != path,
    decreases t.len(),
{
    if t.len() > 0 && t.last().0 != path {
        lemma_bucket_index(t.drop_last(), path);
        assert forall|j: int| 0 <= j < t.len() - 1 implies #[trigger] t[j] == t.drop_last()[j] by {}
    }
}


} // verus!
