//! The tallies an import run keeps: why each leg or row could not be
//! persisted, the coarse columns those causes are charged to, and the
//! advisory warnings raised by what was written.

use vstd::prelude::*;
use vstd::string::*;

use crate::error::BcError;
use crate::import::RawTransaction;
use crate::model::AccountId;

verus! {

/// Why one leg — or one whole transaction — could not be persisted this run.
#[derive(Debug, Clone, Copy, PartialEq, Eq, Hash, Structural)]
pub enum SkipCause {
    /// The leg's account path named no existing account.
    UnresolvedAccount,
    /// The leg's commodity code named no registered commodity.
    UnresolvedCommodity,
    /// The leg's account path could not be parsed.
    MalformedPath,
    /// A tag path stated by the row or one of its legs could not be parsed.
    MalformedTag,
    /// The leg stated an amount with no commodity code.
    BlankCommodity,
    /// Two or more legs elide their amount, so the residual is undetermined.
    AmbiguousResidual,
    /// The elided leg is the only one that resolved, and the document fixes no
    /// single amount for it.
    UndeterminedResidual,
    /// The legs of one document transaction already belong to several
    /// transactions.
    MultiOwnerConflict,
    /// A posting of the matched transaction is not explained by this document
    /// transaction.
    FailedCorroboration,
    /// A step failed in a way charged to the row rather than the run.
    RowLocalFailure,
}

/// The position of `cause` in declaration order, which orders a report.
pub open spec fn cause_rank(cause: SkipCause) -> nat {
    match cause {
        SkipCause::UnresolvedAccount => 0,
        SkipCause::UnresolvedCommodity => 1,
        SkipCause::MalformedPath => 2,
        SkipCause::MalformedTag => 3,
        SkipCause::BlankCommodity => 4,
        SkipCause::AmbiguousResidual => 5,
        SkipCause::UndeterminedResidual => 6,
        SkipCause::MultiOwnerConflict => 7,
        SkipCause::FailedCorroboration => 8,
        SkipCause::RowLocalFailure => 9,
    }
}

impl SkipCause {
    /// Returns the cause's position in declaration order.
    pub fn rank(self) -> (r: u8)
        ensures
            r == cause_rank(self),
    {
        match self {
            SkipCause::UnresolvedAccount => 0,
            SkipCause::UnresolvedCommodity => 1,
            SkipCause::MalformedPath => 2,
            SkipCause::MalformedTag => 3,
            SkipCause::BlankCommodity => 4,
            SkipCause::AmbiguousResidual => 5,
            SkipCause::UndeterminedResidual => 6,
            SkipCause::MultiOwnerConflict => 7,
            SkipCause::FailedCorroboration => 8,
            SkipCause::RowLocalFailure => 9,
        }
    }

    /// Returns the stable, lower-case label this cause groups under in a report.
    pub fn label(self) -> (r: &'static str)
        ensures
            r@ == match self {
                SkipCause::UnresolvedAccount => "unresolved account"@,
                SkipCause::UnresolvedCommodity => "unregistered commodity"@,
                SkipCause::MalformedPath => "malformed account path"@,
                SkipCause::MalformedTag => "malformed tag path"@,
                SkipCause::BlankCommodity => "blank commodity code"@,
                SkipCause::AmbiguousResidual => "ambiguous residual"@,
                SkipCause::UndeterminedResidual => "undetermined residual"@,
                SkipCause::MultiOwnerConflict => "multi-owner conflict"@,
                SkipCause::FailedCorroboration => "failed corroboration"@,
                SkipCause::RowLocalFailure => "write failure"@,
            },
    {
        match self {
            SkipCause::UnresolvedAccount => "unresolved account",
            SkipCause::UnresolvedCommodity => "unregistered commodity",
            SkipCause::MalformedPath => "malformed account path",
            SkipCause::MalformedTag => "malformed tag path",
            SkipCause::BlankCommodity => "blank commodity code",
            SkipCause::AmbiguousResidual => "ambiguous residual",
            SkipCause::UndeterminedResidual => "undetermined residual",
            SkipCause::MultiOwnerConflict => "multi-owner conflict",
            SkipCause::FailedCorroboration => "failed corroboration",
            SkipCause::RowLocalFailure => "write failure",
        }
    }
}

/// The coarse column a [`SkipCause`] is charged to.
#[derive(Debug, Clone, Copy, PartialEq, Eq, Structural)]
pub enum Bucket {
    /// The leg's account path named no existing account.
    UnresolvedAccount,
    /// The leg's commodity code named no registered commodity.
    UnresolvedCommodity,
    /// Anything else.
    Other,
}

/// The column `cause` is charged to.
pub open spec fn bucket_of(cause: SkipCause) -> Bucket {
    match cause {
        SkipCause::UnresolvedAccount => Bucket::UnresolvedAccount,
        SkipCause::UnresolvedCommodity => Bucket::UnresolvedCommodity,
        _ => Bucket::Other,
    }
}

impl Bucket {
    /// Returns the column `cause` is charged to: unresolved accounts and
    /// unregistered commodities each have their own, every other cause is
    /// `Other`.
    pub fn of(cause: SkipCause) -> (r: Bucket)
        ensures
            r == bucket_of(cause),
    {
        match cause {
            SkipCause::UnresolvedAccount => Bucket::UnresolvedAccount,
            SkipCause::UnresolvedCommodity => Bucket::UnresolvedCommodity,
            SkipCause::MalformedPath
            | SkipCause::MalformedTag
            | SkipCause::BlankCommodity
            | SkipCause::AmbiguousResidual
            | SkipCause::UndeterminedResidual
            | SkipCause::MultiOwnerConflict
            | SkipCause::FailedCorroboration
            | SkipCause::RowLocalFailure => Bucket::Other,
        }
    }
}

/// One leg or row the run could not persist, and why.
#[derive(Debug, Clone, PartialEq, Eq)]
pub struct Diagnostic {
    /// Where the document says this came from.
    pub location: String,
    /// Why it was skipped.
    pub cause: SkipCause,
    /// Human-readable detail: the offending path, code, or conflict.
    pub detail: String,
}

/// An advisory finding about a posting that was nonetheless written.
#[derive(Debug, Clone, PartialEq, Eq)]
pub enum Warning {
    /// The posting's commodity is outside its account's declared list.
    CommodityOutsideAccountList { account_id: AccountId, commodity_code: String },
    /// The posting is dated before its account opened.
    PostingBeforeAccountOpened { account_id: AccountId },
    /// The posting is dated after its account closed.
    PostingAfterAccountClosed { account_id: AccountId },
    /// The posting lands in an archived account.
    PostingIntoArchivedAccount { account_id: AccountId, account_path: String },
}

/// A [`Warning`] variant paired with the account it names, used to report
/// each finding once per run.
#[derive(Debug, Clone, PartialEq, Eq)]
pub enum WarningKey {
    /// Keys a commodity-outside-list warning by account and code.
    CommodityOutsideAccountList(AccountId, String),
    /// Keys a posting-before-opened warning.
    PostingBeforeAccountOpened(AccountId),
    /// Keys a posting-after-closed warning.
    PostingAfterAccountClosed(AccountId),
}

/// The dedup key of `w`, or `None` for the archived-account variant.
pub open spec fn warning_key(w: Warning) -> Option<WarningKey> {
    match w {
        Warning::CommodityOutsideAccountList { account_id, commodity_code } => Some(
            WarningKey::CommodityOutsideAccountList(account_id, commodity_code),
        ),
        Warning::PostingBeforeAccountOpened { account_id } => Some(WarningKey::PostingBeforeAccountOpened(account_id)),
        Warning::PostingAfterAccountClosed { account_id } => Some(WarningKey::PostingAfterAccountClosed(account_id)),
        Warning::PostingIntoArchivedAccount { .. } => None,
    }
}

/// Whether two keys name the same finding.
pub open spec fn same_key(a: WarningKey, b: WarningKey) -> bool {
    match (a, b) {
        (WarningKey::CommodityOutsideAccountList(x, c), WarningKey::CommodityOutsideAccountList(y, d)) => x == y && c@ == d@,
        (WarningKey::PostingBeforeAccountOpened(x), WarningKey::PostingBeforeAccountOpened(y)) => x == y,
        (WarningKey::PostingAfterAccountClosed(x), WarningKey::PostingAfterAccountClosed(y)) => x == y,
        _ => false,
    }
}

/// Whether `seen` already holds `k`.
pub open spec fn key_seen(seen: Seq<WarningKey>, k: WarningKey) -> bool {
    exists|i: int| 0 <= i < seen.len() && same_key(#[trigger] seen[i], k)
}

/// The warnings of `ws` a run reports, given the keys `seen` already
/// reported, and the keys seen afterwards: archived-account warnings are
/// dropped, and each other finding is kept only the first time its key occurs.
pub open spec fn admit_warnings(seen: Seq<WarningKey>, ws: Seq<Warning>) -> (Seq<Warning>, Seq<WarningKey>)
    decreases ws.len(),
{
    if ws.len() == 0 {
        (Seq::empty(), seen)
    } else {
        let w = ws[0];
        let (kept, seen2) = match warning_key(w) {
            None => (Seq::<Warning>::empty(), seen),
            Some(k) => if key_seen(seen, k) {
                (Seq::<Warning>::empty(), seen)
            } else {
                (seq![w], seen.push(k))
            },
        };
        let rest = admit_warnings(seen2, ws.drop_first());
        (kept + rest.0, rest.1)
    }
}

impl WarningKey {
    /// Returns the dedup key for `warning`, or `None` for the archived-account
    /// variant, which resolution already reports once per account.
    pub fn of(warning: &Warning) -> (r: Option<WarningKey>)
        ensures
            r == warning_key(*warning),
    {
        match warning {
            Warning::CommodityOutsideAccountList { account_id, commodity_code } => Some(
                WarningKey::CommodityOutsideAccountList(*account_id, commodity_code.clone()),
            ),
            Warning::PostingBeforeAccountOpened { account_id } => Some(WarningKey::PostingBeforeAccountOpened(*account_id)),
            Warning::PostingAfterAccountClosed { account_id } => Some(WarningKey::PostingAfterAccountClosed(*account_id)),
            Warning::PostingIntoArchivedAccount { .. } => None,
        }
    }

    /// Decides [`same_key`].
    pub fn same(&self, other: &WarningKey) -> (r: bool)
        ensures
            r == same_key(*self, *other),
    {
        match (self, other) {
            (WarningKey::CommodityOutsideAccountList(x, c), WarningKey::CommodityOutsideAccountList(y, d)) => *x == *y
                && crate::text::str_equal_text(c.as_str(), d.as_str()),
            (WarningKey::PostingBeforeAccountOpened(x), WarningKey::PostingBeforeAccountOpened(y)) => *x == *y,
            (WarningKey::PostingAfterAccountClosed(x), WarningKey::PostingAfterAccountClosed(y)) => *x == *y,
            _ => false,
        }
    }
}

/// `a + b`, or `usize::MAX` when that overflows.
pub open spec fn sat(x: int) -> int {
    if x > usize::MAX {
        usize::MAX as int
    } else {
        x
    }
}

/// The count `tally` holds for `cause`, if it holds one.
pub open spec fn tally_get(tally: Seq<(SkipCause, usize)>, cause: SkipCause) -> Option<usize>
    decreases tally.len(),
{
    if tally.len() == 0 {
        None
    } else if tally.last().0 == cause {
        Some(tally.last().1)
    } else {
        tally_get(tally.drop_last(), cause)
    }
}

/// Whether `tally` lists its causes once each, in declaration order.
pub open spec fn tally_sorted(tally: Seq<(SkipCause, usize)>) -> bool {
    forall|i: int, j: int| 0 <= i < j < tally.len() ==> cause_rank(#[trigger] tally[i].0) < cause_rank(#[trigger] tally[j].0)
}

/// Whether every cause `tally` lists was charged something: a cause with no
/// charge is not listed.
pub open spec fn tally_positive(tally: Seq<(SkipCause, usize)>) -> bool {
    forall|i: int| 0 <= i < tally.len() ==> (#[trigger] tally[i]).1 > 0
}

/// The postings `tally` charges to causes in `bucket`, summed.
pub open spec fn bucket_total(tally: Seq<(SkipCause, usize)>, bucket: Bucket) -> int
    decreases tally.len(),
{
    if tally.len() == 0 {
        0
    } else {
        bucket_total(tally.drop_last(), bucket) + if bucket_of(tally.last().0) == bucket {
            tally.last().1 as int
        } else {
            0
        }
    }
}

/// Adds `postings` to `tally`'s entry for `cause`, saturating, creating the
/// entry in declaration order if this is the first charge against that cause.
/// A charge of nothing leaves the tally as it is, so a cause never charged is
/// never listed.
pub fn charge_cause(tally: &mut Vec<(SkipCause, usize)>, cause: SkipCause, postings: usize)
    requires
        tally_sorted(old(tally)@),
        tally_positive(old(tally)@),
    ensures
        tally_sorted(final(tally)@),
        tally_positive(final(tally)@),
        postings == 0 ==> final(tally)@ == old(tally)@,
        (postings > 0 || tally_get(old(tally)@, cause) is Some) ==> tally_get(final(tally)@, cause) == Some(
            sat(
                match tally_get(old(tally)@, cause) {
                    Some(n) => n as int,
                    None => 0,
                } + postings,
            ) as usize,
        ),
        forall|c: SkipCause| c != cause ==> tally_get(final(tally)@, c) == tally_get(old(tally)@, c),
        bucket_total(final(tally)@, bucket_of(cause)) == bucket_total(old(tally)@, bucket_of(cause)) - match tally_get(
            old(tally)@,
            cause,
        ) {
            Some(n) => n as int,
            None => 0,
        } + sat(
            match tally_get(old(tally)@, cause) {
                Some(n) => n as int,
                None => 0,
            } + postings,
        ),
        forall|b: Bucket| b != bucket_of(cause) ==> bucket_total(final(tally)@, b) == bucket_total(old(tally)@, b),
{
    if postings == 0 {
        return;
    }
    let rank = cause.rank();
    let mut i: usize = 0;
    while i < tally.len() && tally[i].0.rank() < rank
        invariant
            i <= tally@.len(),
            rank == cause_rank(cause),
            tally_sorted(tally@),
            forall|j: int| 0 <= j < i ==> cause_rank(#[trigger] tally@[j].0) < cause_rank(cause),
        decreases tally@.len() - i,
    {
        i = i + 1;
    }
    let ghost old_tally = tally@;
    if i < tally.len() && tally[i].0.rank() == rank {
        let n = tally[i].1;
        let sum = n.saturating_add(postings);
        proof {
            lemma_rank_injective(tally@[i as int].0, cause);
            lemma_tally_get_at(old_tally, i as int);
        }
        tally.set(i, (cause, sum));
        proof {
            lemma_tally_update(old_tally, i as int, sum);
            assert forall|j: int| 0 <= j < tally@.len() implies (#[trigger] tally@[j]).1 > 0 by {
                if j != i {
                    assert(tally@[j] == old_tally[j]);
                }
            }
        }
    } else {
        proof {
            lemma_tally_absent(old_tally, cause, i as int);
        }
        tally.insert(i, (cause, postings));
        proof {
            lemma_tally_insert(old_tally, i as int, cause, postings);
            assert forall|j: int| 0 <= j < tally@.len() implies (#[trigger] tally@[j]).1 > 0 by {
                if j < i {
                    assert(tally@[j] == old_tally[j]);
                } else if j > i {
                    assert(tally@[j] == old_tally[j - 1]);
                }
            }
        }
    }
}

proof fn lemma_rank_injective(a: SkipCause, b: SkipCause)
    requires
        cause_rank(a) == cause_rank(b),
    ensures
        a == b,
{
}

proof fn lemma_tally_get_at(t: Seq<(SkipCause, usize)>, i: int)
    requires
        tally_sorted(t),
        0 <= i < t.len(),
    ensures
        tally_get(t, t[i].0) == Some(t[i].1),
    decreases t.len(),
{
    if i < t.len() - 1 {
        assert(cause_rank(t[i].0) < cause_rank(t[t.len() - 1].0));
        assert(t.drop_last()[i] == t[i]);
        lemma_tally_get_at(t.drop_last(), i);
    }
}

proof fn lemma_tally_get_missing(t: Seq<(SkipCause, usize)>, c: SkipCause)
    requires
        forall|j: int| 0 <= j < t.len() ==> (#[trigger] t[j]).0 != c,
    ensures
        tally_get(t, c) is None,
    decreases t.len(),
{
    if t.len() > 0 {
        assert(t[t.len() - 1].0 != c);
        let d = t.drop_last();
        assert forall|j: int| 0 <= j < d.len() implies (#[trigger] d[j]).0 != c by {
            assert(d[j] == t[j]);
        }
        lemma_tally_get_missing(d, c);
    }
}

proof fn lemma_tally_get_found(t: Seq<(SkipCause, usize)>, c: SkipCause)
    ensures
        tally_get(t, c) matches Some(n) ==> exists|j: int| 0 <= j < t.len() && t[j] == (c, n),
        tally_get(t, c) is None ==> forall|j: int| 0 <= j < t.len() ==> (#[trigger] t[j]).0 != c,
    decreases t.len(),
{
    if t.len() > 0 {
        let d = t.drop_last();
        lemma_tally_get_found(d, c);
        if tally_get(t, c) is Some && t.last().0 != c {
            let j = choose|j: int| 0 <= j < d.len() && d[j] == (c, tally_get(t, c)->0);
            assert(t[j] == d[j]);
        }
        if tally_get(t, c) is None {
            assert forall|j: int| 0 <= j < t.len() implies (#[trigger] t[j]).0 != c by {
                if j < d.len() {
                    assert(t[j] == d[j]);
                }
            }
        }
    }
}

proof fn lemma_tally_absent(t: Seq<(SkipCause, usize)>, c: SkipCause, i: int)
    requires
        tally_sorted(t),
        0 <= i <= t.len(),
        forall|j: int| 0 <= j < i ==> cause_rank(#[trigger] t[j].0) < cause_rank(c),
        i < t.len() ==> cause_rank(t[i].0) != cause_rank(c),
        i < t.len() ==> cause_rank(t[i].0) >= cause_rank(c),
    ensures
        tally_get(t, c) is None,
        i < t.len() ==> cause_rank(t[i].0) > cause_rank(c),
{
    assert forall|j: int| 0 <= j < t.len() implies (#[trigger] t[j]).0 != c by {
        if j >= i && i < t.len() {
            if j > i {
                assert(cause_rank(t[i].0) < cause_rank(t[j].0));
            }
        }
    }
    lemma_tally_get_missing(t, c);
}

/// The total of a bucket over a tally changes by the change of one entry.
proof fn lemma_bucket_total_update(t: Seq<(SkipCause, usize)>, i: int, n: usize, b: Bucket)
    requires
        0 <= i < t.len(),
    ensures
        bucket_total(t.update(i, (t[i].0, n)), b) == bucket_total(t, b) + if bucket_of(t[i].0) == b {
            n as int - t[i].1 as int
        } else {
            0
        },
    decreases t.len(),
{
    let u = t.update(i, (t[i].0, n));
    if i < t.len() - 1 {
        assert(u.drop_last() =~= t.drop_last().update(i, (t[i].0, n)));
        assert(t.drop_last()[i] == t[i]);
        lemma_bucket_total_update(t.drop_last(), i, n, b);
    } else {
        assert(u.drop_last() =~= t.drop_last());
    }
}

proof fn lemma_bucket_total_insert(t: Seq<(SkipCause, usize)>, i: int, e: (SkipCause, usize), b: Bucket)
    requires
        0 <= i <= t.len(),
    ensures
        bucket_total(t.insert(i, e), b) == bucket_total(t, b) + if bucket_of(e.0) == b {
            e.1 as int
        } else {
            0
        },
    decreases t.len(),
{
    let u = t.insert(i, e);
    if i == t.len() {
        assert(u.drop_last() =~= t);
        assert(u.last() == e);
    } else {
        assert(u.drop_last() =~= t.drop_last().insert(i, e));
        assert(u.last() == t.last());
        lemma_bucket_total_insert(t.drop_last(), i, e, b);
    }
}

proof fn lemma_tally_update(t: Seq<(SkipCause, usize)>, i: int, n: usize)
    requires
        tally_sorted(t),
        0 <= i < t.len(),
    ensures
        tally_sorted(t.update(i, (t[i].0, n))),
        tally_get(t.update(i, (t[i].0, n)), t[i].0) == Some(n),
        forall|c: SkipCause| c != t[i].0 ==> tally_get(t.update(i, (t[i].0, n)), c) == tally_get(t, c),
        forall|b: Bucket| bucket_total(#[trigger] t.update(i, (t[i].0, n)), b) == bucket_total(t, b) + if bucket_of(t[i].0)
            == b {
            n as int - t[i].1 as int
        } else {
            0
        },
{
    let u = t.update(i, (t[i].0, n));
    assert forall|a: int, b: int| 0 <= a < b < u.len() implies cause_rank(#[trigger] u[a].0) < cause_rank(#[trigger] u[b].0) by {
        assert(u[a].0 == t[a].0 && u[b].0 == t[b].0);
    }
    lemma_tally_get_at(u, i);
    assert forall|c: SkipCause| c != t[i].0 implies tally_get(u, c) == tally_get(t, c) by {
        lemma_tally_get_found(t, c);
        lemma_tally_get_found(u, c);
        if let Some(m) = tally_get(t, c) {
            let j = choose|j: int| 0 <= j < t.len() && t[j] == (c, m);
            assert(u[j] == t[j]);
            lemma_tally_get_at(u, j);
        } else {
            assert forall|j: int| 0 <= j < u.len() implies (#[trigger] u[j]).0 != c by {
                if j != i {
                    assert(u[j] == t[j]);
                }
            }
            lemma_tally_get_missing(u, c);
        }
    }
    assert forall|b: Bucket| bucket_total(#[trigger] t.update(i, (t[i].0, n)), b) == bucket_total(t, b) + if bucket_of(
        t[i].0,
    ) == b {
        n as int - t[i].1 as int
    } else {
        0
    } by {
        lemma_bucket_total_update(t, i, n, b);
    }
}

proof fn lemma_tally_insert(t: Seq<(SkipCause, usize)>, i: int, c: SkipCause, n: usize)
    requires
        tally_sorted(t),
        0 <= i <= t.len(),
        forall|j: int| 0 <= j < i ==> cause_rank(#[trigger] t[j].0) < cause_rank(c),
        i < t.len() ==> cause_rank(t[i].0) > cause_rank(c),
    ensures
        tally_sorted(t.insert(i, (c, n))),
        tally_get(t.insert(i, (c, n)), c) == Some(n),
        forall|d: SkipCause| d != c ==> tally_get(t.insert(i, (c, n)), d) == tally_get(t, d),
        forall|b: Bucket| bucket_total(#[trigger] t.insert(i, (c, n)), b) == bucket_total(t, b) + if bucket_of(c) == b {
            n as int
        } else {
            0
        },
{
    let u = t.insert(i, (c, n));
    assert forall|a: int, b: int| 0 <= a < b < u.len() implies cause_rank(#[trigger] u[a].0) < cause_rank(#[trigger] u[b].0) by {
        if b < i {
            assert(u[a] == t[a] && u[b] == t[b]);
        } else if b == i {
            assert(u[a] == t[a]);
        } else if a < i {
            assert(u[a] == t[a] && u[b] == t[b - 1]);
            if i < t.len() {
                if b - 1 > i {
                    assert(cause_rank(t[i].0) < cause_rank(t[b - 1].0));
                }
            }
        } else if a == i {
            assert(u[b] == t[b - 1]);
            if b - 1 > i {
                assert(cause_rank(t[i].0) < cause_rank(t[b - 1].0));
            }
        } else {
            assert(u[a] == t[a - 1] && u[b] == t[b - 1]);
        }
    }
    assert(u[i] == (c, n));
    lemma_tally_get_at(u, i);
    assert forall|d: SkipCause| d != c implies tally_get(u, d) == tally_get(t, d) by {
        lemma_tally_get_found(t, d);
        if let Some(m) = tally_get(t, d) {
            let j = choose|j: int| 0 <= j < t.len() && t[j] == (d, m);
            if j < i {
                assert(u[j] == t[j]);
                lemma_tally_get_at(u, j);
            } else {
                assert(u[j + 1] == t[j]);
                lemma_tally_get_at(u, j + 1);
            }
        } else {
            assert forall|j: int| 0 <= j < u.len() implies (#[trigger] u[j]).0 != d by {
                if j < i {
                    assert(u[j] == t[j]);
                } else if j > i {
                    assert(u[j] == t[j - 1]);
                }
            }
            lemma_tally_get_missing(u, d);
        }
    }
    assert forall|b: Bucket| bucket_total(#[trigger] t.insert(i, (c, n)), b) == bucket_total(t, b) + if bucket_of(c) == b {
        n as int
    } else {
        0
    } by {
        lemma_bucket_total_insert(t, i, (c, n), b);
    }
}

/// Running totals and diagnostics for one import run, with skips attributed
/// to their cause.
#[derive(Debug)]
pub struct Counts {
    /// Transactions created so far.
    pub new_transactions: usize,
    /// Postings appended to already-existing transactions so far.
    pub attached_postings: usize,
    /// Postings skipped because their account path named no existing account.
    pub unresolved_account_postings: usize,
    /// Postings skipped because their commodity code named no registered commodity.
    pub unresolved_commodity_postings: usize,
    /// Postings skipped for any other reason.
    pub other_skipped_postings: usize,
    /// Postings charged to each cause, in the causes' declaration order.
    pub charged_by_cause: Vec<(SkipCause, usize)>,
    /// Every leg or row this run could not persist, in encounter order.
    pub diagnostics: Vec<Diagnostic>,
    /// Advisory warnings raised by postings that were nonetheless written.
    pub warnings: Vec<Warning>,
    /// The findings already represented in `warnings`.
    pub warned_seen: Vec<WarningKey>,
}

/// The sum of every count in `tally`.
pub open spec fn tally_total(tally: Seq<(SkipCause, usize)>) -> int
    decreases tally.len(),
{
    if tally.len() == 0 {
        0
    } else {
        tally_total(tally.drop_last()) + tally.last().1 as int
    }
}

impl Counts {
    /// The coarse column `bucket` names.
    pub open spec fn column(&self, bucket: Bucket) -> usize {
        match bucket {
            Bucket::UnresolvedAccount => self.unresolved_account_postings,
            Bucket::UnresolvedCommodity => self.unresolved_commodity_postings,
            Bucket::Other => self.other_skipped_postings,
        }
    }

    /// The coarse columns and the per-cause breakdown agree: each column is
    /// the saturated sum of its causes' lines, and the lines are listed once
    /// each, in declaration order.
    pub open spec fn consistent(&self) -> bool {
        &&& tally_sorted(self.charged_by_cause@)
        &&& tally_positive(self.charged_by_cause@)
        &&& forall|b: Bucket| #[trigger] self.column(b) == sat(bucket_total(self.charged_by_cause@, b))
    }

    /// The total skipped, whatever the cause, saturating.
    pub open spec fn spec_skipped(&self) -> int {
        sat(sat(self.unresolved_account_postings + self.unresolved_commodity_postings) + self.other_skipped_postings)
    }

    /// Empty tallies: nothing created, attached, skipped, noted or warned.
    pub fn new() -> (r: Counts)
        ensures
            r.new_transactions == 0,
            r.attached_postings == 0,
            r.unresolved_account_postings == 0,
            r.unresolved_commodity_postings == 0,
            r.other_skipped_postings == 0,
            r.charged_by_cause@ == Seq::<(SkipCause, usize)>::empty(),
            r.diagnostics@ == Seq::<Diagnostic>::empty(),
            r.warnings@ == Seq::<Warning>::empty(),
            r.warned_seen@ == Seq::<WarningKey>::empty(),
            r.consistent(),
    {
        Counts {
            new_transactions: 0,
            attached_postings: 0,
            unresolved_account_postings: 0,
            unresolved_commodity_postings: 0,
            other_skipped_postings: 0,
            charged_by_cause: Vec::new(),
            diagnostics: Vec::new(),
            warnings: Vec::new(),
            warned_seen: Vec::new(),
        }
    }

    /// Records one unpersistable leg or row without charging it.
    pub fn note(&mut self, location: &str, cause: SkipCause, detail: String)
        ensures
            final(self).diagnostics@ == old(self).diagnostics@.push(
                Diagnostic { location: final(self).diagnostics@.last().location, cause, detail },
            ),
            final(self).diagnostics@.last().location@ == location@,
            old(self).consistent() ==> final(self).consistent(),
            final(self).new_transactions == old(self).new_transactions,
            final(self).attached_postings == old(self).attached_postings,
            final(self).unresolved_account_postings == old(self).unresolved_account_postings,
            final(self).unresolved_commodity_postings == old(self).unresolved_commodity_postings,
            final(self).other_skipped_postings == old(self).other_skipped_postings,
            final(self).charged_by_cause@ == old(self).charged_by_cause@,
            final(self).warnings@ == old(self).warnings@,
            final(self).warned_seen@ == old(self).warned_seen@,
    {
        self.diagnostics.push(Diagnostic { location: String::from_str(location), cause, detail });
        proof {
            if old(self).consistent() {
                assert forall|b: Bucket| #[trigger] self.column(b) == sat(bucket_total(self.charged_by_cause@, b)) by {
                    assert(self.column(b) == old(self).column(b));
                }
            }
        }
    }

    /// Charges `postings` to the column `cause` belongs to, and to the cause's
    /// own line. Every charge passes through here, so the coarse split and
    /// the per-cause breakdown cannot disagree about how much was lost; a
    /// charge of nothing lists no cause.
    pub fn charge(&mut self, cause: SkipCause, postings: usize)
        requires
            old(self).consistent(),
        ensures
            final(self).consistent(),
            charged_with(*old(self), *final(self), cause, postings as nat),
            final(self).new_transactions == old(self).new_transactions,
            final(self).attached_postings == old(self).attached_postings,
            final(self).diagnostics@ == old(self).diagnostics@,
            final(self).warnings@ == old(self).warnings@,
            final(self).warned_seen@ == old(self).warned_seen@,
    {
        let ghost before = self.charged_by_cause@;
        let ghost b0 = bucket_of(cause);
        proof {
            lemma_entry_within_bucket(before, cause);
            assert(old(self).column(b0) == sat(bucket_total(before, b0)));
        }
        match Bucket::of(cause) {
            Bucket::UnresolvedAccount => {
                self.unresolved_account_postings = self.unresolved_account_postings.saturating_add(postings);
            },
            Bucket::UnresolvedCommodity => {
                self.unresolved_commodity_postings = self.unresolved_commodity_postings.saturating_add(postings);
            },
            Bucket::Other => {
                self.other_skipped_postings = self.other_skipped_postings.saturating_add(postings);
            },
        }
        charge_cause(&mut self.charged_by_cause, cause, postings);
        proof {
            assert forall|b: Bucket| #[trigger] self.column(b) == sat(bucket_total(self.charged_by_cause@, b)) by {
                if b != b0 {
                    assert(self.column(b) == old(self).column(b));
                }
            }
        }
    }

    /// Returns the total skipped, whatever the cause, saturating rather than
    /// overflowing.
    pub fn skipped(&self) -> (r: usize)
        ensures
            r == self.spec_skipped(),
    {
        self.unresolved_account_postings.saturating_add(self.unresolved_commodity_postings).saturating_add(
            self.other_skipped_postings,
        )
    }

    /// Whether `key` is already represented in the run's warnings.
    fn seen(&self, key: &WarningKey) -> (r: bool)
        ensures
            r == key_seen(self.warned_seen@, *key),
    {
        let mut i: usize = 0;
        while i < self.warned_seen.len()
            invariant
                i <= self.warned_seen@.len(),
                forall|j: int| 0 <= j < i ==> !same_key(#[trigger] self.warned_seen@[j], *key),
            decreases self.warned_seen@.len() - i,
        {
            if self.warned_seen[i].same(key) {
                return true;
            }
            i = i + 1;
        }
        false
    }

    /// Adds one row's write-time warnings, dropping archived-account warnings
    /// (resolution already reported each of those once) and keeping every
    /// other finding once per run.
    pub fn push_warnings(&mut self, warnings: Vec<Warning>)
        ensures
            final(self).warnings@ == old(self).warnings@ + admit_warnings(old(self).warned_seen@, warnings@).0,
            final(self).warned_seen@ == admit_warnings(old(self).warned_seen@, warnings@).1,
            final(self).new_transactions == old(self).new_transactions,
            final(self).attached_postings == old(self).attached_postings,
            final(self).unresolved_account_postings == old(self).unresolved_account_postings,
            final(self).unresolved_commodity_postings == old(self).unresolved_commodity_postings,
            final(self).other_skipped_postings == old(self).other_skipped_postings,
            final(self).charged_by_cause@ == old(self).charged_by_cause@,
            final(self).diagnostics@ == old(self).diagnostics@,
    {
        let ghost seen0 = self.warned_seen@;
        let ghost all = warnings@;
        let ghost mut kept: Seq<Warning> = Seq::empty();
        let mut i: usize = 0;
        proof {
            assert(all.skip(0) =~= all);
        }
        while i < warnings.len()
            invariant
                i <= warnings@.len(),
                all == warnings@,
                admit_warnings(seen0, all) == (kept + admit_warnings(self.warned_seen@, all.skip(i as int)).0,
                    admit_warnings(self.warned_seen@, all.skip(i as int)).1),
                self.warnings@ == old(self).warnings@ + kept,
                self.new_transactions == old(self).new_transactions,
                self.attached_postings == old(self).attached_postings,
                self.unresolved_account_postings == old(self).unresolved_account_postings,
                self.unresolved_commodity_postings == old(self).unresolved_commodity_postings,
                self.other_skipped_postings == old(self).other_skipped_postings,
                self.charged_by_cause@ == old(self).charged_by_cause@,
                self.diagnostics@ == old(self).diagnostics@,
            decreases warnings@.len() - i,
        {
            let w = &warnings[i];
            let ghost seen_before = self.warned_seen@;
            proof {
                assert(all.skip(i as int)[0] == *w);
                assert(all.skip(i as int).drop_first() =~= all.skip(i + 1));
            }
            match WarningKey::of(w) {
                None => {
                    proof {
                        assert(kept + (Seq::<Warning>::empty() + admit_warnings(seen_before, all.skip(i + 1)).0)
                            =~= kept + admit_warnings(seen_before, all.skip(i + 1)).0);
                    }
                },
                Some(key) => {
                    if self.seen(&key) {
                        proof {
                            assert(kept + (Seq::<Warning>::empty() + admit_warnings(seen_before, all.skip(i + 1)).0)
                                =~= kept + admit_warnings(seen_before, all.skip(i + 1)).0);
                        }
                    } else {
                        self.warned_seen.push(key);
                        self.warnings.push(w.clone_warning());
                        proof {
                            assert(kept + (seq![*w] + admit_warnings(self.warned_seen@, all.skip(i + 1)).0)
                                =~= kept.push(*w) + admit_warnings(self.warned_seen@, all.skip(i + 1)).0);
                            kept = kept.push(*w);
                        }
                    }
                },
            }
            i = i + 1;
        }
        proof {
            assert(all.skip(i as int) =~= Seq::<Warning>::empty());
            assert(kept + Seq::<Warning>::empty() =~= kept);
        }
    }
}

impl Warning {
    /// A copy of this warning.
    pub fn clone_warning(&self) -> (r: Warning)
        ensures
            r == *self,
    {
        match self {
            Warning::CommodityOutsideAccountList { account_id, commodity_code } => Warning::CommodityOutsideAccountList {
                account_id: *account_id,
                commodity_code: commodity_code.clone(),
            },
            Warning::PostingBeforeAccountOpened { account_id } => Warning::PostingBeforeAccountOpened {
                account_id: *account_id,
            },
            Warning::PostingAfterAccountClosed { account_id } => Warning::PostingAfterAccountClosed {
                account_id: *account_id,
            },
            Warning::PostingIntoArchivedAccount { account_id, account_path } => Warning::PostingIntoArchivedAccount {
                account_id: *account_id,
                account_path: account_path.clone(),
            },
        }
    }
}

proof fn lemma_entry_within_bucket(t: Seq<(SkipCause, usize)>, c: SkipCause)
    ensures
        bucket_total(t, bucket_of(c)) >= 0,
        tally_get(t, c) matches Some(n) ==> n <= bucket_total(t, bucket_of(c)),
    decreases t.len(),
{
    if t.len() > 0 {
        lemma_entry_within_bucket(t.drop_last(), c);
    }
}

proof fn lemma_bucket_totals_sum(t: Seq<(SkipCause, usize)>)
    ensures
        tally_total(t) == bucket_total(t, Bucket::UnresolvedAccount) + bucket_total(t, Bucket::UnresolvedCommodity)
            + bucket_total(t, Bucket::Other),
    decreases t.len(),
{
    if t.len() > 0 {
        lemma_bucket_totals_sum(t.drop_last());
    }
}

/// When nothing has saturated, the per-cause lines of a consistent tally sum
/// to exactly the total skipped: every posting lost is charged to one cause
/// and to one column.
pub proof fn lemma_causes_sum_to_skipped(counts: Counts)
    requires
        counts.consistent(),
        tally_total(counts.charged_by_cause@) <= usize::MAX,
    ensures
        tally_total(counts.charged_by_cause@) == counts.spec_skipped(),
{
    let t = counts.charged_by_cause@;
    lemma_bucket_totals_sum(t);
    lemma_entry_within_bucket(t, SkipCause::UnresolvedAccount);
    lemma_entry_within_bucket(t, SkipCause::UnresolvedCommodity);
    lemma_entry_within_bucket(t, SkipCause::MalformedPath);
    assert(counts.column(Bucket::UnresolvedAccount) == sat(bucket_total(t, Bucket::UnresolvedAccount)));
    assert(counts.column(Bucket::UnresolvedCommodity) == sat(bucket_total(t, Bucket::UnresolvedCommodity)));
    assert(counts.column(Bucket::Other) == sat(bucket_total(t, Bucket::Other)));
}

/// The warnings a run admits report each finding at most once, and never an
/// archived-account finding.
pub proof fn lemma_admitted_warnings_are_distinct(seen: Seq<WarningKey>, ws: Seq<Warning>)
    ensures
        forall|i: int| 0 <= i < admit_warnings(seen, ws).0.len() ==>
            (warning_key(#[trigger] admit_warnings(seen, ws).0[i]) is Some && !key_seen(seen, warning_key(admit_warnings(seen, ws).0[i])->0)),
        forall|i: int, j: int| 0 <= i < j < admit_warnings(seen, ws).0.len() ==>
            !same_key(
                warning_key(#[trigger] admit_warnings(seen, ws).0[i])->0,
                warning_key(#[trigger] admit_warnings(seen, ws).0[j])->0,
            ),
        forall|k: WarningKey| key_seen(seen, k) ==> key_seen(#[trigger] admit_warnings(seen, ws).1, k),
        forall|i: int| 0 <= i < admit_warnings(seen, ws).0.len() ==>
            key_seen(admit_warnings(seen, ws).1, warning_key(#[trigger] admit_warnings(seen, ws).0[i])->0),
    decreases ws.len(),
{
    if ws.len() > 0 {
        let w = ws[0];
        match warning_key(w) {
            None => {
                lemma_admitted_warnings_are_distinct(seen, ws.drop_first());
                assert(admit_warnings(seen, ws).0 =~= admit_warnings(seen, ws.drop_first()).0);
            },
            Some(k) => {
                if key_seen(seen, k) {
                    lemma_admitted_warnings_are_distinct(seen, ws.drop_first());
                    assert(admit_warnings(seen, ws).0 =~= admit_warnings(seen, ws.drop_first()).0);
                } else {
                    let seen2 = seen.push(k);
                    lemma_admitted_warnings_are_distinct(seen2, ws.drop_first());
                    let rest = admit_warnings(seen2, ws.drop_first()).0;
                    let all = admit_warnings(seen, ws).0;
                    assert(all =~= seq![w] + rest);
                    assert forall|x: WarningKey| key_seen(seen, x) implies key_seen(seen2, x) by {
                        let i = choose|i: int| 0 <= i < seen.len() && same_key(#[trigger] seen[i], x);
                        assert(seen2[i] == seen[i]);
                    }
                    assert(key_seen(seen2, k)) by {
                        assert(seen2[seen.len() as int] == k);
                        assert(same_key(k, k)) by {
                            match k {
                                WarningKey::CommodityOutsideAccountList(_, _) => {},
                                _ => {},
                            }
                        }
                    }
                    assert forall|i: int| 0 <= i < all.len() implies
                        (warning_key(#[trigger] all[i]) is Some && !key_seen(seen, warning_key(all[i])->0)) by {
                        if i > 0 {
                            assert(all[i] == rest[i - 1]);
                        }
                    }
                    assert forall|i: int, j: int| 0 <= i < j < all.len() implies
                        !same_key(warning_key(#[trigger] all[i])->0, warning_key(#[trigger] all[j])->0) by {
                        if i == 0 {
                            assert(all[j] == rest[j - 1]);
                            let kj = warning_key(rest[j - 1])->0;
                            if same_key(k, kj) {
                                assert(same_key(seen2[seen.len() as int], kj));
                                assert(key_seen(seen2, kj));
                            }
                        } else {
                            assert(all[i] == rest[i - 1] && all[j] == rest[j - 1]);
                        }
                    }
                    assert forall|i: int| 0 <= i < all.len() implies
                        key_seen(admit_warnings(seen, ws).1, warning_key(#[trigger] all[i])->0) by {
                        if i > 0 {
                            assert(all[i] == rest[i - 1]);
                        }
                    }
                }
            },
        }
    }
}

impl Default for Counts {
    fn default() -> (r: Counts)
        ensures
            r.new_transactions == 0,
            r.attached_postings == 0,
            r.unresolved_account_postings == 0,
            r.unresolved_commodity_postings == 0,
            r.other_skipped_postings == 0,
            r.charged_by_cause@.len() == 0,
            r.diagnostics@.len() == 0,
            r.warnings@.len() == 0,
            r.warned_seen@.len() == 0,
            r.consistent(),
    {
        Counts::new()
    }
}

/// Where `raw` says it came from: the importer-reported location, or a
/// placeholder when it reported none.
pub open spec fn location_text(raw: RawTransaction) -> Seq<char> {
    match raw.source_location {
        Some(l) => l.display@,
        None => "<unknown source>"@,
    }
}

/// Human-facing location of `raw`, for diagnostics.
pub fn location_of(raw: &RawTransaction) -> (r: &str)
    ensures
        r@ == location_text(*raw),
{
    match &raw.source_location {
        Some(location) => location.display.as_str(),
        None => "<unknown source>",
    }
}

/// Whether `error` describes one row's data rather than a failure of the run:
/// malformed data, or a `UNIQUE` violation showing the row's slot is taken.
pub open spec fn row_local(error: BcError) -> bool {
    match error {
        BcError::BadData(_) => true,
        BcError::Database { unique_violation, .. } => unique_violation,
        _ => false,
    }
}

/// Decides [`row_local`].
pub fn is_row_local(error: &BcError) -> (r: bool)
    ensures
        r == row_local(*error),
{
    match error {
        BcError::BadData(_) => true,
        BcError::Database { unique_violation, .. } => *unique_violation,
        _ => false,
    }
}

/// Whether `after` is `before` with `postings` charged to `cause`: the
/// cause's line grown by that many (a cause charged nothing stays unlisted),
/// every other line as it was, the cause's column grown by that many and the
/// other columns as they were.
pub open spec fn charged_with(before: Counts, after: Counts, cause: SkipCause, postings: nat) -> bool {
    &&& after.column(bucket_of(cause)) == sat(before.column(bucket_of(cause)) + postings)
    &&& forall|b: Bucket| b != bucket_of(cause) ==> #[trigger] after.column(b) == before.column(b)
    &&& postings == 0 ==> after.charged_by_cause@ == before.charged_by_cause@
    &&& (postings > 0 || tally_get(before.charged_by_cause@, cause) is Some) ==> tally_get(after.charged_by_cause@, cause) == Some(
        sat(
            match tally_get(before.charged_by_cause@, cause) {
                Some(n) => n as int,
                None => 0,
            } + postings,
        ) as usize,
    )
    &&& forall|c: SkipCause| c != cause ==> #[trigger] tally_get(after.charged_by_cause@, c) == tally_get(before.charged_by_cause@, c)
}

/// Applies the run's per-row failure policy to one row's step: a row-local
/// failure notes the row, charges its `postings` to
/// [`SkipCause::RowLocalFailure`] and skips it; any other failure fails the
/// run; success yields the value.
pub fn row_local_value<T>(
    result: Result<T, BcError>,
    raw: &RawTransaction,
    action: &str,
    postings: usize,
    counts: &mut Counts,
) -> (r: Result<Option<T>, BcError>)
    requires
        old(counts).consistent(),
    ensures
        final(counts).consistent(),
        match result {
            Ok(v) => r == Ok::<Option<T>, BcError>(Some(v)) && *final(counts) == *old(counts),
            Err(e) => if row_local(e) {
                &&& r == Ok::<Option<T>, BcError>(None)
                &&& final(counts).diagnostics@.len() == old(counts).diagnostics@.len() + 1
                &&& final(counts).diagnostics@.last().location@ == location_text(*raw)
                &&& final(counts).diagnostics@.last().cause == SkipCause::RowLocalFailure
                &&& final(counts).diagnostics@.last().detail@ == action@
                &&& final(counts).diagnostics@.drop_last() == old(counts).diagnostics@
                &&& charged_with(*old(counts), *final(counts), SkipCause::RowLocalFailure, postings as nat)
                &&& final(counts).column(Bucket::Other) == sat(old(counts).column(Bucket::Other) + postings)
                &&& final(counts).column(Bucket::UnresolvedAccount) == old(counts).column(Bucket::UnresolvedAccount)
                &&& final(counts).column(Bucket::UnresolvedCommodity) == old(counts).column(Bucket::UnresolvedCommodity)
                &&& final(counts).new_transactions == old(counts).new_transactions
                &&& final(counts).attached_postings == old(counts).attached_postings
                &&& final(counts).warnings@ == old(counts).warnings@
            } else {
                r == Err::<Option<T>, BcError>(e) && *final(counts) == *old(counts)
            },
        },
{
    match result {
        Ok(value) => Ok(Some(value)),
        Err(error) => {
            if is_row_local(&error) {
                counts.note(location_of(raw), SkipCause::RowLocalFailure, String::from_str(action));
                counts.charge(SkipCause::RowLocalFailure, postings);
                proof {
                    assert(counts.diagnostics@.drop_last() =~= old(counts).diagnostics@);
                }
                Ok(None)
            } else {
                Err(error)
            }
        },
    }
}

} // verus!
