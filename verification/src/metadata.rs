//! Typed key-value metadata on transactions and postings: the value model,
//! merging one transaction's entries into another's and undoing that merge,
//! and the two tables the entries are stored in.

use vstd::prelude::*;

use crate::model::{AccountId, Amount, Date};

verus! {

/// A point in time, as seconds and nanoseconds since the Unix epoch.
#[derive(Debug, Clone, Copy, PartialEq, Eq, Structural)]
pub struct Timestamp {
    /// Whole seconds since the epoch.
    pub seconds: i64,
    /// Nanoseconds within the second.
    pub nanos: i32,
}

/// The type a metadata key is registered as.
#[derive(Debug, Clone, Copy, PartialEq, Eq, Hash, Structural)]
pub enum MetaType {
    /// Free text.
    Text,
    /// A decimal number.
    Number,
    /// `true` or `false`.
    Boolean,
    /// A calendar date.
    Date,
    /// An instant.
    Timestamp,
    /// A quantity of a commodity.
    Amount,
    /// A reference to an account.
    Account,
}

/// A metadata value, carrying the type it asserts.
#[derive(Debug, Clone, PartialEq, Eq)]
pub enum MetaValue {
    /// Free text.
    Text(String),
    /// A decimal number.
    Number(crate::decimal::Dec),
    /// A boolean.
    Boolean(bool),
    /// A calendar date.
    Date(Date),
    /// An instant.
    Timestamp(Timestamp),
    /// A quantity of a commodity.
    Amount(Amount),
    /// A reference to an account.
    Account(AccountId),
}

impl MetaValue {
    /// The type this value asserts.
    pub open spec fn spec_ty(&self) -> MetaType {
        match self {
            MetaValue::Text(_) => MetaType::Text,
            MetaValue::Number(_) => MetaType::Number,
            MetaValue::Boolean(_) => MetaType::Boolean,
            MetaValue::Date(_) => MetaType::Date,
            MetaValue::Timestamp(_) => MetaType::Timestamp,
            MetaValue::Amount(_) => MetaType::Amount,
            MetaValue::Account(_) => MetaType::Account,
        }
    }

    /// Returns the type this value asserts.
    #[verifier::when_used_as_spec(spec_ty)]
    pub fn ty(&self) -> (r: MetaType)
        ensures
            r == self.spec_ty(),
    {
        match self {
            MetaValue::Text(_) => MetaType::Text,
            MetaValue::Number(_) => MetaType::Number,
            MetaValue::Boolean(_) => MetaType::Boolean,
            MetaValue::Date(_) => MetaType::Date,
            MetaValue::Timestamp(_) => MetaType::Timestamp,
            MetaValue::Amount(_) => MetaType::Amount,
            MetaValue::Account(_) => MetaType::Account,
        }
    }

    /// Whether the value's numbers are within range.
    pub open spec fn wf(&self) -> bool {
        match self {
            MetaValue::Number(d) => d.wf(),
            MetaValue::Amount(a) => a.wf(),
            _ => true,
        }
    }

    /// Whether two values are equal as `MetaValue`'s `==` compares them:
    /// numbers and amounts by value, everything else exactly.
    pub open spec fn same(&self, other: &MetaValue) -> bool {
        match (self, other) {
            (MetaValue::Text(a), MetaValue::Text(b)) => a@ == b@,
            (MetaValue::Number(a), MetaValue::Number(b)) => a.same_value(*b),
            (MetaValue::Boolean(a), MetaValue::Boolean(b)) => a == b,
            (MetaValue::Date(a), MetaValue::Date(b)) => a == b,
            (MetaValue::Timestamp(a), MetaValue::Timestamp(b)) => a == b,
            (MetaValue::Amount(a), MetaValue::Amount(b)) => a.same(b),
            (MetaValue::Account(a), MetaValue::Account(b)) => a == b,
            _ => false,
        }
    }

    /// Decides [`MetaValue::same`].
    pub fn equals(&self, other: &MetaValue) -> (r: bool)
        requires
            self.wf(),
            other.wf(),
        ensures
            r == self.same(other),
    {
        match (self, other) {
            (MetaValue::Text(a), MetaValue::Text(b)) => crate::text::str_equal_text(a.as_str(), b.as_str()),
            (MetaValue::Number(a), MetaValue::Number(b)) => a.value_eq(b),
            (MetaValue::Boolean(a), MetaValue::Boolean(b)) => *a == *b,
            (MetaValue::Date(a), MetaValue::Date(b)) => *a == *b,
            (MetaValue::Timestamp(a), MetaValue::Timestamp(b)) => *a == *b,
            (MetaValue::Amount(a), MetaValue::Amount(b)) => a.equals(b),
            (MetaValue::Account(a), MetaValue::Account(b)) => *a == *b,
            _ => false,
        }
    }

    /// A copy of the value.
    pub fn clone_value(&self) -> (r: MetaValue)
        ensures
            r == *self,
    {
        match self {
            MetaValue::Text(t) => MetaValue::Text(t.clone()),
            MetaValue::Number(d) => MetaValue::Number(*d),
            MetaValue::Boolean(b) => MetaValue::Boolean(*b),
            MetaValue::Date(d) => MetaValue::Date(*d),
            MetaValue::Timestamp(t) => MetaValue::Timestamp(*t),
            MetaValue::Amount(a) => MetaValue::Amount(Amount {
                value: a.value,
                commodity: crate::model::CommodityCode(a.commodity.0.clone()),
            }),
            MetaValue::Account(id) => MetaValue::Account(*id),
        }
    }
}

/// A normalised metadata key.
#[derive(Debug, Clone, PartialEq, Eq)]
pub struct MetaKey(pub String);

/// One metadata entry: a key, its value, and whether the value was stored
/// flagged as not fitting the key's registered type.
#[derive(Debug, Clone, PartialEq, Eq)]
pub struct MetaEntry {
    /// The key.
    pub key: MetaKey,
    /// The value.
    pub value: MetaValue,
    /// Whether the value mismatches the key's registered type.
    pub mismatched: bool,
}

impl MetaEntry {
    /// Whether the entry's value is within range.
    pub open spec fn wf(&self) -> bool {
        self.value.wf()
    }

    /// Whether two entries are equal: same key, same value, same flag.
    pub open spec fn same(&self, other: &MetaEntry) -> bool {
        self.key.0@ == other.key.0@ && self.value.same(&other.value) && self.mismatched == other.mismatched
    }

    /// Decides [`MetaEntry::same`].
    pub fn equals(&self, other: &MetaEntry) -> (r: bool)
        requires
            self.wf(),
            other.wf(),
        ensures
            r == self.same(other),
    {
        crate::text::str_equal_text(self.key.0.as_str(), other.key.0.as_str()) && self.value.equals(&other.value)
            && self.mismatched == other.mismatched
    }
}

/// Whether `entries` holds an entry equal to `e`.
pub open spec fn holds(entries: Seq<MetaEntry>, e: MetaEntry) -> bool {
    exists|i: int| 0 <= i < entries.len() && (#[trigger] entries[i]).same(&e)
}

/// Whether every entry of `entries` is within range.
pub open spec fn all_wf(entries: Seq<MetaEntry>) -> bool {
    forall|i: int| 0 <= i < entries.len() ==> (#[trigger] entries[i]).wf()
}

/// The entries of `absorbed` that `survivor` does not already hold, in order.
pub open spec fn fresh_entries(survivor: Seq<MetaEntry>, absorbed: Seq<MetaEntry>) -> Seq<MetaEntry> {
    absorbed.filter(|e: MetaEntry| !holds(survivor, e))
}

/// The position of the first entry of `entries` equal to `e`.
pub open spec fn first_equal(entries: Seq<MetaEntry>, e: MetaEntry) -> Option<int>
    decreases entries.len(),
{
    if entries.len() == 0 {
        None
    } else if entries[0].same(&e) {
        Some(0)
    } else {
        match first_equal(entries.drop_first(), e) {
            Some(k) => Some(k + 1),
            None => None,
        }
    }
}

/// `entries` with one occurrence of each of `drop` removed, in turn: for each,
/// the first entry equal to it, if any.
pub open spec fn remove_each(entries: Seq<MetaEntry>, drop: Seq<MetaEntry>) -> Seq<MetaEntry>
    decreases drop.len(),
{
    if drop.len() == 0 {
        entries
    } else {
        let after = match first_equal(entries, drop[0]) {
            Some(k) => entries.remove(k),
            None => entries,
        };
        remove_each(after, drop.drop_first())
    }
}

/// Whether `entries` holds an entry equal to `e`, deciding [`holds`].
fn holds_entry(entries: &Vec<MetaEntry>, e: &MetaEntry) -> (r: bool)
    requires
        all_wf(entries@),
        e.wf(),
    ensures
        r == holds(entries@, *e),
{
    let mut i: usize = 0;
    while i < entries.len()
        invariant
            i <= entries@.len(),
            all_wf(entries@),
            e.wf(),
            forall|j: int| 0 <= j < i ==> !(#[trigger] entries@[j]).same(e),
        decreases entries@.len() - i,
    {
        if entries[i].equals(e) {
            return true;
        }
        i = i + 1;
    }
    false
}

/// Concatenates `absorbed` onto `survivor`, dropping any absorbed entry
/// exactly equal to one the survivor already holds: what merging two
/// transactions' metadata means. Redundancy is judged against the survivor's
/// own entries only, so two identical entries the absorbed side carries by
/// itself both survive.
pub fn union(survivor: &Vec<MetaEntry>, absorbed: &Vec<MetaEntry>) -> (r: Vec<MetaEntry>)
    requires
        all_wf(survivor@),
        all_wf(absorbed@),
    ensures
        r@ == survivor@ + fresh_entries(survivor@, absorbed@),
{
    let mut merged: Vec<MetaEntry> = Vec::new();
    let mut i: usize = 0;
    while i < survivor.len()
        invariant
            i <= survivor@.len(),
            merged@ == survivor@.take(i as int),
        decreases survivor@.len() - i,
    {
        merged.push(survivor[i].clone_entry());
        proof {
            assert(survivor@.take(i + 1) =~= survivor@.take(i as int).push(survivor@[i as int]));
        }
        i = i + 1;
    }
    proof {
        assert(survivor@.take(i as int) =~= survivor@);
    }
    let mut k: usize = 0;
    while k < absorbed.len()
        invariant
            k <= absorbed@.len(),
            all_wf(survivor@),
            all_wf(absorbed@),
            merged@ == survivor@ + fresh_entries(survivor@, absorbed@.take(k as int)),
        decreases absorbed@.len() - k,
    {
        proof {
            assert(absorbed@.take(k + 1).drop_last() =~= absorbed@.take(k as int));
            reveal(Seq::filter);
        }
        if !holds_entry(survivor, &absorbed[k]) {
            merged.push(absorbed[k].clone_entry());
            proof {
                assert(merged@ =~= survivor@ + fresh_entries(survivor@, absorbed@.take(k + 1)));
            }
        } else {
            proof {
                assert(fresh_entries(survivor@, absorbed@.take(k + 1)) =~= fresh_entries(survivor@, absorbed@.take(k as int)));
            }
        }
        k = k + 1;
    }
    proof {
        assert(absorbed@.take(k as int) =~= absorbed@);
    }
    merged
}

/// When two metadata values are equal: values of different types never are;
/// texts when they hold the same characters; numbers when they denote the
/// same number, `mantissa / 10^scale`, whatever their scales; dates when
/// year, month and day all agree; instants when seconds and nanoseconds
/// agree; booleans and accounts when identical; amounts when of the same
/// commodity and the same number. Equality is reflexive and symmetric.
pub proof fn lemma_value_equality(v: MetaValue, w: MetaValue)
    ensures
        v.same(&v),
        v.same(&w) == w.same(&v),
        match (v, w) {
            (MetaValue::Text(a), MetaValue::Text(b)) => v.same(&w) <==> a@ == b@,
            (MetaValue::Number(a), MetaValue::Number(b)) => v.same(&w) <==> a.mantissa * crate::decimal::pow10(b.scale as nat)
                == b.mantissa * crate::decimal::pow10(a.scale as nat),
            (MetaValue::Boolean(a), MetaValue::Boolean(b)) => v.same(&w) <==> a == b,
            (MetaValue::Date(a), MetaValue::Date(b)) => v.same(&w) <==> (a.year == b.year && a.month == b.month && a.day
                == b.day),
            (MetaValue::Timestamp(a), MetaValue::Timestamp(b)) => v.same(&w) <==> (a.seconds == b.seconds && a.nanos
                == b.nanos),
            (MetaValue::Amount(a), MetaValue::Amount(b)) => v.same(&w) <==> (a.commodity@ == b.commodity@
                && a.value.mantissa * crate::decimal::pow10(b.value.scale as nat) == b.value.mantissa
                * crate::decimal::pow10(a.value.scale as nat)),
            (MetaValue::Account(a), MetaValue::Account(b)) => v.same(&w) <==> a.0 == b.0,
            _ => !v.same(&w),
        },
{
}

/// Merging keeps the survivor's entries first and in order, then adds each
/// absorbed entry the survivor holds no equal of (same key, same flag, equal
/// value), in order, and no other: an absorbed entry is dropped only when
/// the survivor already holds it.
pub proof fn lemma_union_keeps_what_is_new(survivor: Seq<MetaEntry>, absorbed: Seq<MetaEntry>)
    ensures
        ({
            let merged = survivor + fresh_entries(survivor, absorbed);
            &&& merged.take(survivor.len() as int) == survivor
            &&& forall|j: int| 0 <= j < absorbed.len() ==> (merged.contains(#[trigger] absorbed[j]) <== (forall|i: int|
                0 <= i < survivor.len() ==> !(survivor[i].key.0@ == absorbed[j].key.0@ && survivor[i].mismatched
                    == absorbed[j].mismatched && survivor[i].value.same(&absorbed[j].value))))
            &&& forall|k: int| survivor.len() <= k < merged.len() ==> absorbed.contains(#[trigger] merged[k]) && forall|i: int|
                0 <= i < survivor.len() ==> !(#[trigger] survivor[i]).same(&merged[k])
            &&& merged.len() <= survivor.len() + absorbed.len()
        }),
{
    let fresh = fresh_entries(survivor, absorbed);
    let merged = survivor + fresh;
    assert(merged.take(survivor.len() as int) =~= survivor);
    assert forall|j: int| 0 <= j < absorbed.len() && (forall|i: int|
        0 <= i < survivor.len() ==> !(survivor[i].key.0@ == absorbed[j].key.0@ && survivor[i].mismatched
            == absorbed[j].mismatched && survivor[i].value.same(&absorbed[j].value))) implies merged.contains(
        #[trigger] absorbed[j],
    ) by {
        assert(!holds(survivor, absorbed[j]));
        absorbed.lemma_filter_contains(|e: MetaEntry| !holds(survivor, e), j);
        assert(fresh.contains(absorbed[j]));
        let k = choose|k: int| 0 <= k < fresh.len() && fresh[k] == absorbed[j];
        assert(merged[survivor.len() + k] == absorbed[j]);
    }
    assert forall|k: int| survivor.len() <= k < merged.len() implies absorbed.contains(#[trigger] merged[k]) && forall|i: int|
        0 <= i < survivor.len() ==> !(#[trigger] survivor[i]).same(&merged[k]) by {
        assert(merged[k] == fresh[k - survivor.len()]);
        assert(fresh.contains(merged[k]));
        absorbed.lemma_filter_contains_rev(|e: MetaEntry| !holds(survivor, e), merged[k]);
        absorbed.lemma_filter_pred(|e: MetaEntry| !holds(survivor, e), k - survivor.len());
        assert(!holds(survivor, merged[k]));
    }
    absorbed.lemma_filter_len(|e: MetaEntry| !holds(survivor, e));
}

/// Removes from `current` the entries a merge appended to the survivor: one
/// occurrence — the first equal one — of each absorbed entry absent from
/// `before`. The inverse of [`union`] on the survivor's side.
pub fn subtract_merged(current: &Vec<MetaEntry>, before: &Vec<MetaEntry>, absorbed: &Vec<MetaEntry>) -> (r: Vec<MetaEntry>)
    requires
        all_wf(current@),
        all_wf(before@),
        all_wf(absorbed@),
    ensures
        r@ == remove_each(current@, fresh_entries(before@, absorbed@)),
{
    let mut remaining: Vec<MetaEntry> = Vec::new();
    let mut i: usize = 0;
    while i < current.len()
        invariant
            i <= current@.len(),
            remaining@ == current@.take(i as int),
        decreases current@.len() - i,
    {
        remaining.push(current[i].clone_entry());
        proof {
            assert(current@.take(i + 1) =~= current@.take(i as int).push(current@[i as int]));
        }
        i = i + 1;
    }
    proof {
        assert(current@.take(i as int) =~= current@);
    }
    let ghost drop = fresh_entries(before@, absorbed@);
    let mut k: usize = 0;
    let ghost mut done: Seq<MetaEntry> = Seq::empty();
    proof {
        assert(absorbed@.skip(0) =~= absorbed@);
        assert(absorbed@.take(0) =~= Seq::<MetaEntry>::empty());
        reveal(Seq::filter);
        assert(done =~= fresh_entries(before@, absorbed@.take(0)));
        assert(drop =~= done + drop);
    }
    while k < absorbed.len()
        invariant
            k <= absorbed@.len(),
            all_wf(before@),
            all_wf(absorbed@),
            all_wf(remaining@),
            drop == fresh_entries(before@, absorbed@),
            done == fresh_entries(before@, absorbed@.take(k as int)),
            drop == done + fresh_entries(before@, absorbed@.skip(k as int)),
            remove_each(current@, drop) == remove_each(remaining@, fresh_entries(before@, absorbed@.skip(k as int))),
        decreases absorbed@.len() - k,
    {
        let e = &absorbed[k];
        proof {
            reveal(Seq::filter);
            assert(absorbed@.skip(k as int).drop_first() =~= absorbed@.skip(k + 1));
            assert(absorbed@.skip(k as int)[0] == *e);
            assert(absorbed@.take(k + 1).drop_last() =~= absorbed@.take(k as int));
        }
        if !holds_entry(before, e) {
            let ghost rest = fresh_entries(before@, absorbed@.skip(k + 1));
            proof {
                assert(fresh_entries(before@, absorbed@.skip(k as int)) =~= seq![*e] + rest) by {
                    lemma_filter_cons(absorbed@.skip(k as int), |x: MetaEntry| !holds(before@, x));
                }
                assert((seq![*e] + rest)[0] == *e);
                assert((seq![*e] + rest).drop_first() =~= rest);
            }
            let ghost old_remaining = remaining@;
            match first_equal_exec(&remaining, e) {
                Some(pos) => {
                    remaining.remove(pos);
                    proof {
                        assert forall|j: int| 0 <= j < remaining@.len() implies (#[trigger] remaining@[j]).wf() by {
                            if j < pos {
                                assert(remaining@[j] == old_remaining[j]);
                            } else {
                                assert(remaining@[j] == old_remaining[j + 1]);
                            }
                        }
                    }
                },
                None => {},
            }
            proof {
                done = done.push(*e);
                assert(done =~= fresh_entries(before@, absorbed@.take(k + 1)));
                assert(drop =~= done + rest);
            }
        } else {
            proof {
                assert(fresh_entries(before@, absorbed@.skip(k as int)) =~= fresh_entries(before@, absorbed@.skip(k + 1))) by {
                    lemma_filter_cons(absorbed@.skip(k as int), |x: MetaEntry| !holds(before@, x));
                }
                assert(fresh_entries(before@, absorbed@.take(k + 1)) =~= done);
            }
        }
        k = k + 1;
    }
    proof {
        assert(absorbed@.skip(k as int) =~= Seq::<MetaEntry>::empty());
        assert(fresh_entries(before@, Seq::<MetaEntry>::empty()) =~= Seq::<MetaEntry>::empty());
    }
    remaining
}

/// The position of the first entry of `entries` equal to `e`.
fn first_equal_exec(entries: &Vec<MetaEntry>, e: &MetaEntry) -> (r: Option<usize>)
    requires
        all_wf(entries@),
        e.wf(),
    ensures
        r matches Some(k) ==> first_equal(entries@, *e) == Some(k as int) && k < entries@.len(),
        r is None ==> first_equal(entries@, *e) is None,
{
    let mut i: usize = 0;
    while i < entries.len()
        invariant
            i <= entries@.len(),
            all_wf(entries@),
            e.wf(),
            forall|j: int| 0 <= j < i ==> !(#[trigger] entries@[j]).same(e),
        decreases entries@.len() - i,
    {
        if entries[i].equals(e) {
            proof {
                lemma_first_equal_at(entries@, *e, i as int);
            }
            return Some(i);
        }
        i = i + 1;
    }
    proof {
        lemma_first_equal_none(entries@, *e);
    }
    None
}

impl MetaEntry {
    /// A copy of this entry.
    pub fn clone_entry(&self) -> (r: MetaEntry)
        ensures
            r == *self,
    {
        let value = self.value.clone_value();
        MetaEntry { key: MetaKey(self.key.0.clone()), value, mismatched: self.mismatched }
    }
}

proof fn lemma_filter_cons(s: Seq<MetaEntry>, p: spec_fn(MetaEntry) -> bool)
    requires
        s.len() > 0,
    ensures
        s.filter(p) == if p(s[0]) { seq![s[0]] + s.drop_first().filter(p) } else { s.drop_first().filter(p) },
    decreases s.len(),
{
    reveal(Seq::filter);
    if s.len() == 1 {
        assert(s.drop_first() =~= Seq::<MetaEntry>::empty());
        assert(s.drop_last() =~= Seq::<MetaEntry>::empty());
        assert(Seq::<MetaEntry>::empty().filter(p) =~= Seq::<MetaEntry>::empty());
        assert(seq![s[0]] + Seq::<MetaEntry>::empty() =~= seq![s[0]]);
    } else {
        lemma_filter_cons(s.drop_last(), p);
        assert(s.drop_last()[0] == s[0]);
        assert(s.drop_last().drop_first() =~= s.drop_first().drop_last());
        assert(s.drop_first().last() == s.last());
        if p(s[0]) {
            assert(s.filter(p) =~= seq![s[0]] + s.drop_first().filter(p));
        } else {
            assert(s.filter(p) =~= s.drop_first().filter(p));
        }
    }
}

proof fn lemma_first_equal_at(entries: Seq<MetaEntry>, e: MetaEntry, i: int)
    requires
        0 <= i < entries.len(),
        entries[i].same(&e),
        forall|j: int| 0 <= j < i ==> !(#[trigger] entries[j]).same(&e),
    ensures
        first_equal(entries, e) == Some(i),
    decreases i,
{
    if i > 0 {
        let d = entries.drop_first();
        assert forall|j: int| 0 <= j < i - 1 implies !(#[trigger] d[j]).same(&e) by {
            assert(d[j] == entries[j + 1]);
        }
        assert(!entries[0].same(&e));
        lemma_first_equal_at(d, e, i - 1);
    }
}

proof fn lemma_first_equal_none(entries: Seq<MetaEntry>, e: MetaEntry)
    requires
        forall|j: int| 0 <= j < entries.len() ==> !(#[trigger] entries[j]).same(&e),
    ensures
        first_equal(entries, e) is None,
    decreases entries.len(),
{
    if entries.len() > 0 {
        let d = entries.drop_first();
        assert forall|j: int| 0 <= j < d.len() implies !(#[trigger] d[j]).same(&e) by {
            assert(d[j] == entries[j + 1]);
        }
        assert(!entries[0].same(&e));
        lemma_first_equal_none(d, e);
    }
}

proof fn lemma_remove_each_split(entries: Seq<MetaEntry>, a: Seq<MetaEntry>, b: Seq<MetaEntry>)
    ensures
        remove_each(entries, a + b) == remove_each(remove_each(entries, a), b),
    decreases a.len(),
{
    if a.len() == 0 {
        assert(a + b =~= b);
    } else {
        assert((a + b)[0] == a[0]);
        assert((a + b).drop_first() =~= a.drop_first() + b);
        let after = match first_equal(entries, a[0]) {
            Some(k) => entries.remove(k),
            None => entries,
        };
        lemma_remove_each_split(after, a.drop_first(), b);
    }
}

proof fn lemma_same_reflexive(e: MetaEntry)
    ensures
        e.same(&e),
{
}

proof fn lemma_first_equal_past(s: Seq<MetaEntry>, g: Seq<MetaEntry>, e: MetaEntry)
    requires
        !holds(s, e),
        g.len() > 0,
        g[0].same(&e),
    ensures
        first_equal(s + g, e) == Some(s.len() as int),
    decreases s.len(),
{
    if s.len() == 0 {
        assert(s + g =~= g);
    } else {
        assert(!s[0].same(&e));
        assert((s + g)[0] == s[0]);
        assert((s + g).drop_first() =~= s.drop_first() + g);
        assert(!holds(s.drop_first(), e)) by {
            if holds(s.drop_first(), e) {
                let i = choose|i: int| 0 <= i < s.drop_first().len() && (#[trigger] s.drop_first()[i]).same(&e);
                assert(s[i + 1] == s.drop_first()[i]);
            }
        }
        lemma_first_equal_past(s.drop_first(), g, e);
    }
}

proof fn lemma_remove_appended(s: Seq<MetaEntry>, g: Seq<MetaEntry>)
    requires
        forall|i: int| 0 <= i < g.len() ==> !holds(s, #[trigger] g[i]),
    ensures
        remove_each(s + g, g) == s,
    decreases g.len(),
{
    if g.len() == 0 {
        assert(s + g =~= s);
    } else {
        lemma_same_reflexive(g[0]);
        lemma_first_equal_past(s, g, g[0]);
        assert((s + g).remove(s.len() as int) =~= s + g.drop_first());
        let d = g.drop_first();
        assert forall|i: int| 0 <= i < d.len() implies !holds(s, #[trigger] d[i]) by {
            assert(d[i] == g[i + 1]);
        }
        lemma_remove_appended(s, d);
    }
}

/// Undoing a merge restores the survivor: removing, from the merged entries,
/// the absorbed entries the survivor did not already hold gives back exactly
/// the survivor's own entries — [`subtract_merged`] inverts [`union`].
pub proof fn lemma_subtract_merged_undoes_union(survivor: Seq<MetaEntry>, absorbed: Seq<MetaEntry>)
    ensures
        remove_each(survivor + fresh_entries(survivor, absorbed), fresh_entries(survivor, absorbed)) == survivor,
{
    let f = fresh_entries(survivor, absorbed);
    assert forall|i: int| 0 <= i < f.len() implies !holds(survivor, #[trigger] f[i]) by {
        absorbed.filter_lemma(|e: MetaEntry| !holds(survivor, e));
    }
    lemma_remove_appended(survivor, f);
}

/// Which of the two metadata tables a statement addresses.
#[derive(Debug, Clone, Copy, PartialEq, Eq, Structural)]
pub enum Owner {
    /// `transaction_metadata`, owned by `transactions.id`.
    Transaction,
    /// `posting_metadata`, owned by `postings.id`.
    Posting,
}

impl Owner {
    /// Returns the table name.
    pub fn table(self) -> (r: &'static str)
        ensures
            r@ == (match self {
                Owner::Transaction => "transaction_metadata"@,
                Owner::Posting => "posting_metadata"@,
            }),
    {
        match self {
            Owner::Transaction => "transaction_metadata",
            Owner::Posting => "posting_metadata",
        }
    }

    /// Returns the owner-id column name.
    pub fn id_column(self) -> (r: &'static str)
        ensures
            r@ == (match self {
                Owner::Transaction => "transaction_id"@,
                Owner::Posting => "posting_id"@,
            }),
    {
        match self {
            Owner::Transaction => "transaction_id",
            Owner::Posting => "posting_id",
        }
    }
}

} // verus!
