//! The resolution pass of an import run: every leg's account path bound to an
//! account, its commodity code to a registered commodity, and the account
//! paths its metadata names to accounts — or the reason the leg is skipped.

use vstd::prelude::*;
use vstd::string::*;

use crate::account_path::{AccountPath, AccountResolver, Resolution, path_is_well_formed, path_pieces, reach, resolves_as};
use crate::commodity::{CommodityResolver, resolve_code};
use crate::import::{RawMetaEntry, RawMetaValue, RawPosting, RawTransaction};
use crate::metadata::{MetaEntry, MetaKey, MetaValue};
use crate::model::{AccountRecord, Amount, Commodity, CommodityCode};
use crate::import_exec::{Bucket, bucket_total, Counts, Diagnostic, SkipCause, Warning, location_of, location_text, sat, tally_get};
use crate::model::{AccountId, decimal_text, u64_text};
use crate::text::{clone_strings, insert_sorted, join_with, strictly_sorted, texts, trim, trimmed};

verus! {

/// The account a walk of all of `segs` arrives at, if it arrives at one.
pub open spec fn account_at(accts: Seq<AccountRecord>, segs: Seq<Seq<char>>) -> Option<int> {
    match reach(accts, segs, segs.len()) {
        Some(Some(j)) => Some(j),
        _ => None,
    }
}

/// Once a walk fails, walking further fails too.
pub proof fn lemma_reach_stays_missing(accts: Seq<AccountRecord>, segs: Seq<Seq<char>>, a: nat, b: nat)
    requires
        a <= b,
        reach(accts, segs, a) is None,
    ensures
        reach(accts, segs, b) is None,
    decreases b - a,
{
    if a < b {
        lemma_reach_stays_missing(accts, segs, a, (b - 1) as nat);
    }
}

/// A resolution that found an account found the one [`account_at`] names; one
/// that found none means there is none.
pub proof fn lemma_resolution_account(accts: Seq<AccountRecord>, segs: Seq<Seq<char>>, r: Resolution)
    requires
        resolves_as(accts, segs, r),
    ensures
        r matches Resolution::Resolved { id, archived } ==> account_at(accts, segs) matches Some(j)
            && accts[j].id == id && accts[j].archived == archived,
        r is Missing ==> account_at(accts, segs) is None,
{
    if let Resolution::Missing { .. } = r {
        let k = choose|k: int|
            0 <= k < segs.len() && (#[trigger] reach(accts, segs, k as nat)) is Some
                && reach(accts, segs, (k + 1) as nat) is None;
        lemma_reach_stays_missing(accts, segs, (k + 1) as nat, segs.len());
    }
}

/// Whether `raw` elides the amount of two or more legs.
pub open spec fn elided_count(postings: Seq<RawPosting>) -> nat
    decreases postings.len(),
{
    if postings.len() == 0 {
        0
    } else {
        elided_count(postings.drop_last()) + if postings.last().amount is None { 1nat } else { 0nat }
    }
}

/// Reports whether `raw` leaves its residual ambiguous: two or more legs
/// elide their amount, and both cannot absorb the residual.
pub fn has_ambiguous_residual(raw: &RawTransaction) -> (r: bool)
    ensures
        r == (elided_count(raw.postings@) >= 2),
{
    let mut count: usize = 0;
    let mut i: usize = 0;
    while i < raw.postings.len()
        invariant
            i <= raw.postings@.len(),
            count == elided_count(raw.postings@.take(i as int)),
            count <= i,
        decreases raw.postings@.len() - i,
    {
        proof {
            assert(raw.postings@.take(i + 1).drop_last() =~= raw.postings@.take(i as int));
        }
        if raw.postings[i].amount.is_none() {
            count = count + 1;
        }
        i = i + 1;
    }
    proof {
        assert(raw.postings@.take(raw.postings@.len() as int) =~= raw.postings@);
    }
    count >= 2
}

/// The outcome of canonicalising one optional amount's commodity code.
#[derive(Debug)]
pub enum Canonical {
    /// Resolved: `None` when the amount was elided to begin with.
    Resolved(Option<Amount>),
    /// The trimmed code named no registered commodity.
    Unregistered(String),
    /// The code was blank.
    Blank,
}

/// Whether `c` is what canonicalising `amount` against `registry` yields: an
/// elided amount stays elided; a blank code (once trimmed) is refused; a code
/// naming a registered commodity is rewritten to that commodity's spelling,
/// the value kept; any other code is reported trimmed.
pub open spec fn canonical_of(registry: Seq<Commodity>, amount: Option<Amount>, c: Canonical) -> bool {
    match amount {
        None => c matches Canonical::Resolved(None),
        Some(a) => {
            let code = trim(a.commodity@);
            if code.len() == 0 {
                c is Blank
            } else {
                match resolve_code(registry, code) {
                    Some(reg) => c matches Canonical::Resolved(Some(b)) && b.value == a.value && b.commodity@ == reg,
                    None => c matches Canonical::Unregistered(u) && u@ == code,
                }
            }
        },
    }
}

/// Rewrites an amount's commodity code to its registered spelling.
pub fn canonicalise(commodities: &CommodityResolver, amount: &Option<Amount>) -> (r: Canonical)
    ensures
        canonical_of(commodities.registry(), *amount, r),
{
    match amount {
        None => Canonical::Resolved(None),
        Some(stated) => {
            let code = trimmed(stated.commodity.as_str());
            if code.unicode_len() == 0 {
                return Canonical::Blank;
            }
            let wrapped = CommodityCode(code);
            match commodities.resolve(&wrapped) {
                Some(reg) => Canonical::Resolved(Some(Amount::new(stated.value, CommodityCode::new(reg)))),
                None => Canonical::Unregistered(wrapped.0),
            }
        },
    }
}

/// Whether `v` is what binding the account path `stated` yields: the account
/// a well-formed path names, else the path kept as text.
pub open spec fn bound_account(accts: Seq<AccountRecord>, stated: Seq<char>, v: MetaValue) -> bool {
    if path_is_well_formed(stated) && account_at(accts, path_pieces(stated)) is Some {
        v == MetaValue::Account(accts[account_at(accts, path_pieces(stated))->0].id)
    } else {
        v matches MetaValue::Text(t) && t@ == stated
    }
}

/// Binds one account path stated as a metadata value: the account it names,
/// or the path as text when it is malformed or names nothing.
pub fn resolve_meta_account(resolver: &AccountResolver, stated: &str) -> (r: MetaValue)
    ensures
        bound_account(resolver.accounts(), stated@, r),
{
    match AccountPath::parse(stated) {
        Err(_) => MetaValue::Text(String::from_str(stated)),
        Ok(path) => {
            let res = resolver.resolve(&path);
            proof {
                lemma_resolution_account(resolver.accounts(), path.view(), res);
            }
            match res {
                Resolution::Resolved { id, .. } => MetaValue::Account(id),
                Resolution::Missing { .. } => MetaValue::Text(String::from_str(stated)),
            }
        },
    }
}

/// Whether `out` is `entries` with every account path bound: the same keys in
/// the same order, stated values kept, paths bound as
/// [`resolve_meta_account`] binds them, and nothing flagged.
pub open spec fn metadata_bound(accts: Seq<AccountRecord>, entries: Seq<RawMetaEntry>, out: Seq<MetaEntry>) -> bool {
    &&& out.len() == entries.len()
    &&& forall|i: int| 0 <= i < entries.len() ==> {
        let e = #[trigger] entries[i];
        &&& out[i].key == e.key
        &&& !out[i].mismatched
        &&& match e.value {
            RawMetaValue::Resolved(v) => out[i].value == v,
            RawMetaValue::AccountPath(p) => bound_account(accts, p@, out[i].value),
        }
    }
}

/// Binds every account path a document's metadata names to an account.
pub fn resolve_metadata(resolver: &AccountResolver, entries: &Vec<RawMetaEntry>) -> (r: Vec<MetaEntry>)
    ensures
        metadata_bound(resolver.accounts(), entries@, r@),
{
    let mut out: Vec<MetaEntry> = Vec::new();
    let mut i: usize = 0;
    while i < entries.len()
        invariant
            i <= entries@.len(),
            metadata_bound(resolver.accounts(), entries@.take(i as int), out@),
        decreases entries@.len() - i,
    {
        let entry = &entries[i];
        let value = match &entry.value {
            RawMetaValue::Resolved(v) => v.clone_value(),
            RawMetaValue::AccountPath(stated) => resolve_meta_account(resolver, stated.as_str()),
        };
        out.push(MetaEntry { key: MetaKey(entry.key.0.clone()), value, mismatched: false });
        proof {
            let t = entries@.take(i + 1);
            assert forall|j: int| 0 <= j < t.len() implies {
                let e = #[trigger] t[j];
                &&& out@[j].key == e.key
                &&& !out@[j].mismatched
                &&& match e.value {
                    RawMetaValue::Resolved(v) => out@[j].value == v,
                    RawMetaValue::AccountPath(p) => bound_account(resolver.accounts(), p@, out@[j].value),
                }
            } by {
                if j < i {
                    assert(t[j] == entries@.take(i as int)[j]);
                }
            }
        }
        i = i + 1;
    }
    proof {
        assert(entries@.take(entries@.len() as int) =~= entries@);
    }
    out
}

/// One leg whose account path resolved to an existing account.
#[derive(Debug)]
pub struct ResolvedLeg {
    /// The account the leg's path named.
    pub account_id: AccountId,
    /// The rendered account path this leg resolved through.
    pub account_path: String,
    /// The leg's amount, its code canonicalised; `None` for the elided residual.
    pub amount: Option<Amount>,
    /// The leg's dedup fingerprint, over the document's own values.
    pub fingerprint: String,
    /// The leg's metadata, with every account path the document stated bound.
    pub metadata: Vec<MetaEntry>,
    /// The leg's tag paths, as the document stated them.
    pub tag_paths: Vec<String>,
}

/// The warn-once guards the resolution pass keeps across legs.
#[derive(Debug)]
pub struct ResolveGuards {
    /// Distinct account paths naming no account, sorted.
    pub unresolved: Vec<String>,
    /// Distinct codes naming no registered commodity, sorted.
    pub unresolved_commodities: Vec<String>,
    /// Archived accounts already warned about, by rendered path, sorted.
    pub archived_seen: Vec<String>,
}

impl ResolveGuards {
    /// Each guard is a sorted set.
    pub open spec fn wf(&self) -> bool {
        &&& strictly_sorted(texts(self.unresolved@))
        &&& strictly_sorted(texts(self.unresolved_commodities@))
        &&& strictly_sorted(texts(self.archived_seen@))
    }

    /// No guard holds anything yet.
    pub fn new() -> (r: ResolveGuards)
        ensures
            r.wf(),
            r.unresolved@.len() == 0,
            r.unresolved_commodities@.len() == 0,
            r.archived_seen@.len() == 0,
    {
        ResolveGuards { unresolved: Vec::new(), unresolved_commodities: Vec::new(), archived_seen: Vec::new() }
    }
}

/// The set a sorted list of strings holds.
pub open spec fn set_of(v: Seq<String>) -> Set<Seq<char>> {
    texts(v).to_set()
}

/// The detail reported for a path that resolves only part of the way.
pub open spec fn missing_detail(rendered: Seq<char>, prefix: Seq<char>, segment: Seq<char>) -> Seq<char> {
    rendered + " (resolved as far as '"@ + prefix + "', missing '"@ + segment + "')"@
}

/// What resolving the leg `posting` of `raw` does, from the guards and
/// warnings before (`g0`, `w0`) to those after (`g1`, `w1`) and the result `r`:
///
/// - a malformed path skips the leg as [`SkipCause::MalformedPath`], naming
///   the path as stated;
/// - a path naming no account skips it as [`SkipCause::UnresolvedAccount`],
///   naming the rendered path, how far it resolved and the missing segment,
///   and adds the rendered path to the unresolved set;
/// - a path naming an archived account not yet warned about adds one
///   warning and marks the account warned, whatever follows;
/// - then a blank code skips the leg as [`SkipCause::BlankCommodity`] with
///   an empty detail, and an unregistered one as
///   [`SkipCause::UnresolvedCommodity`] naming the trimmed code, which joins
///   the unregistered set;
/// - else the leg resolves onto the account, its rendered path, its
///   canonical amount, its bound metadata and its stated tags.
///
/// The fingerprint is left to [`resolve_leg`]'s contract.
pub open spec fn leg_resolution(
    accts: Seq<AccountRecord>,
    registry: Seq<Commodity>,
    posting: RawPosting,
    g0: ResolveGuards,
    w0: Seq<Warning>,
    g1: ResolveGuards,
    w1: Seq<Warning>,
    r: Result<ResolvedLeg, (SkipCause, String)>,
) -> bool {
    let stated = posting.account@;
    let segs = path_pieces(stated);
    let rendered = join_with(segs, ":"@);
    if !path_is_well_formed(stated) {
        &&& r matches Err((cause, d)) && cause == SkipCause::MalformedPath && d@ == stated
        &&& g1 == g0 && w1 == w0
    } else if account_at(accts, segs) is None {
        &&& r matches Err((cause, d)) && cause == SkipCause::UnresolvedAccount && exists|res: Resolution|
            #[trigger] resolves_as(accts, segs, res) && res is Missing
                && d@ == missing_detail(rendered, res->resolved_prefix@, res->missing_segment@)
        &&& set_of(g1.unresolved@) == set_of(g0.unresolved@).insert(rendered)
        &&& g1.unresolved_commodities == g0.unresolved_commodities
        &&& g1.archived_seen == g0.archived_seen
        &&& w1 == w0
    } else {
        let j = account_at(accts, segs)->0;
        let warn = accts[j].archived && !set_of(g0.archived_seen@).contains(rendered);
        &&& g1.unresolved == g0.unresolved
        &&& (if accts[j].archived {
            set_of(g1.archived_seen@) == set_of(g0.archived_seen@).insert(rendered)
        } else {
            g1.archived_seen == g0.archived_seen
        })
        &&& (if warn {
            &&& w1.len() == w0.len() + 1
            &&& w1.take(w0.len() as int) == w0
            &&& w1.last() matches Warning::PostingIntoArchivedAccount { account_id, account_path }
                && account_id == accts[j].id && account_path@ == rendered
        } else {
            w1 == w0
        })
        &&& match posting.amount {
            Some(a) if trim(a.commodity@).len() == 0 => {
                &&& r matches Err((cause, d)) && cause == SkipCause::BlankCommodity && d@.len() == 0
                &&& g1.unresolved_commodities == g0.unresolved_commodities
            },
            Some(a) if resolve_code(registry, trim(a.commodity@)) is None => {
                &&& r matches Err((cause, d)) && cause == SkipCause::UnresolvedCommodity && d@ == trim(a.commodity@)
                &&& set_of(g1.unresolved_commodities@) == set_of(g0.unresolved_commodities@).insert(trim(a.commodity@))
            },
            _ => {
                &&& r matches Ok(leg)
                    && leg.account_id == accts[j].id
                    && leg.account_path@ == rendered
                    && canonical_of(registry, posting.amount, Canonical::Resolved(leg.amount))
                    && metadata_bound(accts, posting.metadata@, leg.metadata@)
                    && leg.tag_paths@ == posting.tags@
                &&& g1.unresolved_commodities == g0.unresolved_commodities
            },
        }
    }
}

/// Resolves one leg of `raw`, updating the warn-once guards and the run's
/// warnings; `fingerprint` computes a resolved leg's dedup fingerprint from
/// the transaction and the leg's canonical amount.
pub fn resolve_leg<F: Fn(&RawTransaction, &Option<Amount>) -> String>(
    resolver: &AccountResolver,
    commodities: &CommodityResolver,
    raw: &RawTransaction,
    posting: &RawPosting,
    fingerprint: &F,
    guards: &mut ResolveGuards,
    warnings: &mut Vec<Warning>,
) -> (r: Result<ResolvedLeg, (SkipCause, String)>)
    requires
        old(guards).wf(),
        forall|t: &RawTransaction, a: &Option<Amount>| fingerprint.requires((t, a)),
    ensures
        final(guards).wf(),
        leg_resolution(
            resolver.accounts(),
            commodities.registry(),
            *posting,
            *old(guards),
            old(warnings)@,
            *final(guards),
            final(warnings)@,
            r,
        ),
        r matches Ok(leg) ==> fingerprint.ensures((raw, &leg.amount), leg.fingerprint),
{
    let path = match AccountPath::parse(posting.account.as_str()) {
        Ok(p) => p,
        Err(_) => {
            return Err((SkipCause::MalformedPath, posting.account.clone()));
        },
    };
    let rendered = path.to_string();
    let res = resolver.resolve(&path);
    proof {
        lemma_resolution_account(resolver.accounts(), path.view(), res);
    }
    let account_id = match res {
        Resolution::Resolved { id, archived } => {
            if archived {
                let fresh = insert_sorted(&mut guards.archived_seen, rendered.clone());
                if fresh {
                    warnings.push(Warning::PostingIntoArchivedAccount { account_id: id, account_path: rendered.clone() });
                    proof {
                        assert(warnings@.take(old(warnings)@.len() as int) =~= old(warnings)@);
                    }
                }
                proof {
                    assert(set_of(guards.archived_seen@) == set_of(old(guards).archived_seen@).insert(rendered@));
                }
            }
            id
        },
        Resolution::Missing { resolved_prefix, missing_segment } => {
            insert_sorted(&mut guards.unresolved, rendered.clone());
            let mut d = rendered;
            d.append(" (resolved as far as '");
            d.append(resolved_prefix.as_str());
            d.append("', missing '");
            d.append(missing_segment.as_str());
            d.append("')");
            proof {
                assert(res is Missing);
            }
            return Err((SkipCause::UnresolvedAccount, d));
        },
    };
    let amount = match canonicalise(commodities, &posting.amount) {
        Canonical::Resolved(a) => a,
        Canonical::Unregistered(code) => {
            insert_sorted(&mut guards.unresolved_commodities, code.clone());
            return Err((SkipCause::UnresolvedCommodity, code));
        },
        Canonical::Blank => {
            return Err((SkipCause::BlankCommodity, String::new()));
        },
    };
    let fp = fingerprint(raw, &amount);
    let metadata = resolve_metadata(resolver, &posting.metadata);
    let tag_paths = clone_strings(&posting.tags);
    Ok(ResolvedLeg { account_id, account_path: rendered, amount, fingerprint: fp, metadata, tag_paths })
}

/// Why the leg `posting` cannot be persisted, or `None` when it resolves:
/// a malformed path, a path naming no account, a blank code, or a code naming
/// no registered commodity, checked in that order.
pub open spec fn leg_cause(accts: Seq<AccountRecord>, registry: Seq<Commodity>, posting: RawPosting) -> Option<SkipCause> {
    let segs = path_pieces(posting.account@);
    if !path_is_well_formed(posting.account@) {
        Some(SkipCause::MalformedPath)
    } else if account_at(accts, segs) is None {
        Some(SkipCause::UnresolvedAccount)
    } else {
        match posting.amount {
            Some(a) if trim(a.commodity@).len() == 0 => Some(SkipCause::BlankCommodity),
            Some(a) if resolve_code(registry, trim(a.commodity@)) is None => Some(SkipCause::UnresolvedCommodity),
            _ => None,
        }
    }
}

/// Whether `leg` is what the leg `posting` resolves to: on the account its
/// path names, through its rendered path, with its canonical amount, its
/// bound metadata and its stated tags.
pub open spec fn leg_matches(accts: Seq<AccountRecord>, registry: Seq<Commodity>, posting: RawPosting, leg: ResolvedLeg) -> bool {
    let segs = path_pieces(posting.account@);
    &&& account_at(accts, segs) matches Some(j) && leg.account_id == accts[j].id
    &&& leg.account_path@ == join_with(segs, ":"@)
    &&& canonical_of(registry, posting.amount, Canonical::Resolved(leg.amount))
    &&& metadata_bound(accts, posting.metadata@, leg.metadata@)
    &&& leg.tag_paths@ == posting.tags@
}

/// The legs of `postings` that resolve, in order.
pub open spec fn ok_postings(accts: Seq<AccountRecord>, registry: Seq<Commodity>, postings: Seq<RawPosting>) -> Seq<RawPosting>
    decreases postings.len(),
{
    if postings.len() == 0 {
        Seq::empty()
    } else {
        let prev = ok_postings(accts, registry, postings.drop_last());
        if leg_cause(accts, registry, postings.last()) is None {
            prev.push(postings.last())
        } else {
            prev
        }
    }
}

/// How many legs of `postings` fail for `cause`.
pub open spec fn failed_in(accts: Seq<AccountRecord>, registry: Seq<Commodity>, postings: Seq<RawPosting>, cause: SkipCause) -> int
    decreases postings.len(),
{
    if postings.len() == 0 {
        0
    } else {
        failed_in(accts, registry, postings.drop_last(), cause) + if leg_cause(accts, registry, postings.last())
            == Some(cause) {
            1int
        } else {
            0int
        }
    }
}

/// How many legs of `postings` fail, whatever the cause.
pub open spec fn failed_legs(accts: Seq<AccountRecord>, registry: Seq<Commodity>, postings: Seq<RawPosting>) -> int
    decreases postings.len(),
{
    if postings.len() == 0 {
        0
    } else {
        failed_legs(accts, registry, postings.drop_last()) + if leg_cause(accts, registry, postings.last()) is Some {
            1int
        } else {
            0int
        }
    }
}

/// Whether a row is skipped whole for leaving its residual ambiguous.
pub open spec fn ambiguous(raw: RawTransaction) -> bool {
    elided_count(raw.postings@) >= 2
}

/// How many segments of `segs` a walk down the tree resolves before one
/// names no account.
pub open spec fn missing_at(accts: Seq<AccountRecord>, segs: Seq<Seq<char>>) -> int {
    choose|k: int| 0 <= k < segs.len() && (#[trigger] reach(accts, segs, k as nat)) is Some && reach(accts, segs, (k + 1) as nat) is None
}

/// The detail a failing leg is reported with: a malformed path as stated;
/// a path naming no account rendered, with how far it resolved and the
/// segment that named nothing; an unregistered code trimmed; a blank code as
/// nothing.
pub open spec fn leg_detail(accts: Seq<AccountRecord>, registry: Seq<Commodity>, posting: RawPosting) -> Seq<char> {
    let stated = posting.account@;
    let segs = path_pieces(stated);
    if !path_is_well_formed(stated) {
        stated
    } else if account_at(accts, segs) is None {
        let k = missing_at(accts, segs);
        missing_detail(join_with(segs, ":"@), join_with(segs.take(k), ":"@), segs[k])
    } else {
        match posting.amount {
            Some(a) => if trim(a.commodity@).len() == 0 { Seq::empty() } else { trim(a.commodity@) },
            None => Seq::empty(),
        }
    }
}

/// A failing leg is reported with its [`leg_detail`].
proof fn lemma_leg_detail(
    accts: Seq<AccountRecord>,
    registry: Seq<Commodity>,
    posting: RawPosting,
    g0: ResolveGuards,
    w0: Seq<Warning>,
    g1: ResolveGuards,
    w1: Seq<Warning>,
    r: Result<ResolvedLeg, (SkipCause, String)>,
)
    requires
        leg_resolution(accts, registry, posting, g0, w0, g1, w1, r),
    ensures
        r matches Err((c, d)) ==> d@ == leg_detail(accts, registry, posting),
{
    let stated = posting.account@;
    let segs = path_pieces(stated);
    if let Err((c, d)) = r {
        if path_is_well_formed(stated) && account_at(accts, segs) is None {
            let rendered = join_with(segs, ":"@);
            let res = choose|res: Resolution| #[trigger] resolves_as(accts, segs, res) && res is Missing
                && d@ == missing_detail(rendered, res->resolved_prefix@, res->missing_segment@);
            let k1 = choose|k: int| 0 <= k < segs.len() && (#[trigger] reach(accts, segs, k as nat)) is Some
                && reach(accts, segs, (k + 1) as nat) is None && res->resolved_prefix@ == join_with(segs.take(k), ":"@)
                && res->missing_segment@ == segs[k];
            let k = missing_at(accts, segs);
            assert(0 <= k < segs.len() && reach(accts, segs, k as nat) is Some && reach(accts, segs, (k + 1) as nat) is None);
            if k < k1 {
                lemma_reach_stays_missing(accts, segs, (k + 1) as nat, k1 as nat);
            }
            if k1 < k {
                lemma_reach_stays_missing(accts, segs, (k1 + 1) as nat, k as nat);
            }
            assert(k == k1);
        } else if path_is_well_formed(stated) {
            if let Some(a) = posting.amount {
                if trim(a.commodity@).len() == 0 {
                    assert(d@ =~= Seq::<char>::empty());
                }
            }
        }
    }
}

/// The diagnostic of one row's legs, in order: one per failing leg, at the
/// row's location, with its cause and detail.
pub open spec fn leg_diagnostics(
    accts: Seq<AccountRecord>,
    registry: Seq<Commodity>,
    raw: RawTransaction,
    postings: Seq<RawPosting>,
) -> Seq<(Seq<char>, SkipCause, Seq<char>)>
    decreases postings.len(),
{
    if postings.len() == 0 {
        Seq::empty()
    } else {
        let prev = leg_diagnostics(accts, registry, raw, postings.drop_last());
        match leg_cause(accts, registry, postings.last()) {
            Some(c) => prev.push((location_text(raw), c, leg_detail(accts, registry, postings.last()))),
            None => prev,
        }
    }
}

/// The diagnostics resolving `raws` records, in order: one per ambiguous row
/// naming how many legs it has, and one per failing leg of any other row.
pub open spec fn expected_diagnostics(
    accts: Seq<AccountRecord>,
    registry: Seq<Commodity>,
    raws: Seq<RawTransaction>,
) -> Seq<(Seq<char>, SkipCause, Seq<char>)>
    decreases raws.len(),
{
    if raws.len() == 0 {
        Seq::empty()
    } else {
        let raw = raws.last();
        let prev = expected_diagnostics(accts, registry, raws.drop_last());
        if ambiguous(raw) {
            prev.push((
                location_text(raw),
                SkipCause::AmbiguousResidual,
                decimal_text(raw.postings@.len()) + " legs, two or more elided"@,
            ))
        } else {
            prev + leg_diagnostics(accts, registry, raw, raw.postings@)
        }
    }
}

/// The location, cause and detail of each diagnostic, as plain values.
pub open spec fn diagnostic_view(ds: Seq<Diagnostic>) -> Seq<(Seq<char>, SkipCause, Seq<char>)> {
    ds.map_values(|d: Diagnostic| (d.location@, d.cause, d.detail@))
}

/// How many postings of `raws` are lost to `cause`: every leg of an
/// ambiguous row to [`SkipCause::AmbiguousResidual`], each failing leg of
/// another row to its own cause.
pub open spec fn cause_total(accts: Seq<AccountRecord>, registry: Seq<Commodity>, raws: Seq<RawTransaction>, cause: SkipCause) -> int
    decreases raws.len(),
{
    if raws.len() == 0 {
        0
    } else {
        let raw = raws.last();
        cause_total(accts, registry, raws.drop_last(), cause) + if ambiguous(raw) {
            if cause == SkipCause::AmbiguousResidual { raw.postings@.len() as int } else { 0int }
        } else {
            failed_in(accts, registry, raw.postings@, cause)
        }
    }
}

/// How many diagnostics the pass records over `raws`: one per ambiguous row
/// and one per failing leg of every other row.
pub open spec fn diagnostic_total(accts: Seq<AccountRecord>, registry: Seq<Commodity>, raws: Seq<RawTransaction>) -> int
    decreases raws.len(),
{
    if raws.len() == 0 {
        0
    } else {
        let raw = raws.last();
        diagnostic_total(accts, registry, raws.drop_last()) + if ambiguous(raw) {
            1int
        } else {
            failed_legs(accts, registry, raw.postings@)
        }
    }
}

/// The rendered paths of the legs of `postings` that name no account.
pub open spec fn row_unresolved(accts: Seq<AccountRecord>, registry: Seq<Commodity>, postings: Seq<RawPosting>) -> Set<Seq<char>>
    decreases postings.len(),
{
    if postings.len() == 0 {
        Set::empty()
    } else {
        let prev = row_unresolved(accts, registry, postings.drop_last());
        let p = postings.last();
        if leg_cause(accts, registry, p) == Some(SkipCause::UnresolvedAccount) {
            prev.insert(join_with(path_pieces(p.account@), ":"@))
        } else {
            prev
        }
    }
}

/// The trimmed codes of the legs of `postings` naming no registered commodity.
pub open spec fn row_unregistered(accts: Seq<AccountRecord>, registry: Seq<Commodity>, postings: Seq<RawPosting>) -> Set<Seq<char>>
    decreases postings.len(),
{
    if postings.len() == 0 {
        Set::empty()
    } else {
        let prev = row_unregistered(accts, registry, postings.drop_last());
        let p = postings.last();
        if leg_cause(accts, registry, p) == Some(SkipCause::UnresolvedCommodity) {
            prev.insert(trim(p.amount->0.commodity@))
        } else {
            prev
        }
    }
}

/// The unresolved paths over the rows of `raws` that are not ambiguous.
pub open spec fn unresolved_paths(accts: Seq<AccountRecord>, registry: Seq<Commodity>, raws: Seq<RawTransaction>) -> Set<Seq<char>>
    decreases raws.len(),
{
    if raws.len() == 0 {
        Set::empty()
    } else {
        let prev = unresolved_paths(accts, registry, raws.drop_last());
        if ambiguous(raws.last()) { prev } else { prev.union(row_unresolved(accts, registry, raws.last().postings@)) }
    }
}

/// The unregistered codes over the rows of `raws` that are not ambiguous.
pub open spec fn unregistered_codes(accts: Seq<AccountRecord>, registry: Seq<Commodity>, raws: Seq<RawTransaction>) -> Set<Seq<char>>
    decreases raws.len(),
{
    if raws.len() == 0 {
        Set::empty()
    } else {
        let prev = unregistered_codes(accts, registry, raws.drop_last());
        if ambiguous(raws.last()) { prev } else { prev.union(row_unregistered(accts, registry, raws.last().postings@)) }
    }
}

/// The count `tally` holds for `cause`, zero when it holds none.
pub open spec fn tally_count(tally: Seq<(SkipCause, usize)>, cause: SkipCause) -> int {
    match tally_get(tally, cause) {
        Some(n) => n as int,
        None => 0,
    }
}

/// The outcome of the resolution pass over every leg of every raw transaction.
#[derive(Debug)]
pub struct Resolved {
    /// Resolved legs per raw transaction, index-aligned with the input.
    pub rows: Vec<Vec<ResolvedLeg>>,
    /// The warn-once guards, holding the distinct unresolved paths and codes.
    pub guards: ResolveGuards,
    /// The pass's charges, diagnostics and warnings.
    pub counts: Counts,
}

/// A leg resolution's outcome is the one [`leg_cause`] predicts.
proof fn lemma_leg_outcome(
    accts: Seq<AccountRecord>,
    registry: Seq<Commodity>,
    posting: RawPosting,
    g0: ResolveGuards,
    w0: Seq<Warning>,
    g1: ResolveGuards,
    w1: Seq<Warning>,
    r: Result<ResolvedLeg, (SkipCause, String)>,
)
    requires
        leg_resolution(accts, registry, posting, g0, w0, g1, w1, r),
    ensures
        r matches Ok(leg) ==> leg_cause(accts, registry, posting) is None && leg_matches(accts, registry, posting, leg),
        r matches Err((c, _)) ==> leg_cause(accts, registry, posting) == Some(c),
        leg_cause(accts, registry, posting) != Some(SkipCause::UnresolvedAccount) ==> g1.unresolved == g0.unresolved,
        leg_cause(accts, registry, posting) == Some(SkipCause::UnresolvedAccount) ==> set_of(g1.unresolved@)
            == set_of(g0.unresolved@).insert(join_with(path_pieces(posting.account@), ":"@)),
        leg_cause(accts, registry, posting) != Some(SkipCause::UnresolvedCommodity) ==> g1.unresolved_commodities
            == g0.unresolved_commodities,
        leg_cause(accts, registry, posting) == Some(SkipCause::UnresolvedCommodity) ==> set_of(
            g1.unresolved_commodities@,
        ) == set_of(g0.unresolved_commodities@).insert(trim(posting.amount->0.commodity@)),
{
}

/// Resolves every leg of every raw transaction, in document order. A row
/// eliding two or more amounts is skipped whole and charged every leg; in
/// every other row a leg that cannot be persisted costs that leg alone.
pub fn resolve_legs<F: Fn(&RawTransaction, &Option<Amount>) -> String>(
    resolver: &AccountResolver,
    commodities: &CommodityResolver,
    raws: &Vec<RawTransaction>,
    fingerprint: &F,
) -> (r: Resolved)
    requires
        forall|t: &RawTransaction, a: &Option<Amount>| fingerprint.requires((t, a)),
    ensures
        r.rows@.len() == raws@.len(),
        forall|i: int| #![trigger r.rows@[i]] 0 <= i < raws@.len() ==> if ambiguous(raws@[i]) {
            r.rows@[i]@.len() == 0
        } else {
            r.rows@[i]@.len() == ok_postings(resolver.accounts(), commodities.registry(), raws@[i].postings@).len()
        },
        forall|i: int, k: int| 0 <= i < raws@.len() && 0 <= k < r.rows@[i]@.len() ==> {
            let leg = #[trigger] r.rows@[i]@[k];
            &&& leg_matches(
                resolver.accounts(),
                commodities.registry(),
                ok_postings(resolver.accounts(), commodities.registry(), raws@[i].postings@)[k],
                leg,
            )
            &&& fingerprint.ensures((&raws@[i], &leg.amount), leg.fingerprint)
        },
        r.guards.wf(),
        set_of(r.guards.unresolved@) == unresolved_paths(resolver.accounts(), commodities.registry(), raws@),
        set_of(r.guards.unresolved_commodities@) == unregistered_codes(resolver.accounts(), commodities.registry(), raws@),
        r.counts.consistent(),
        forall|c: SkipCause| #[trigger] tally_count(r.counts.charged_by_cause@, c) == sat(
            cause_total(resolver.accounts(), commodities.registry(), raws@, c),
        ),
        r.counts.diagnostics@.len() == diagnostic_total(resolver.accounts(), commodities.registry(), raws@),
        diagnostic_view(r.counts.diagnostics@) == expected_diagnostics(resolver.accounts(), commodities.registry(), raws@),
        r.counts.new_transactions == 0,
        r.counts.attached_postings == 0,
{
    let ghost accts = resolver.accounts();
    let ghost reg = commodities.registry();
    let mut out = Resolved { rows: Vec::new(), guards: ResolveGuards::new(), counts: Counts::new() };
    let mut warnings: Vec<Warning> = Vec::new();
    let n = raws.len();
    let mut i: usize = 0;
    while i < n
        invariant
            n == raws@.len(),
            i <= n,
            accts == resolver.accounts(),
            reg == commodities.registry(),
            forall|t: &RawTransaction, a: &Option<Amount>| fingerprint.requires((t, a)),
            out.rows@.len() == i,
            forall|x: int| #![trigger out.rows@[x]] 0 <= x < i ==> if ambiguous(raws@[x]) {
                out.rows@[x]@.len() == 0
            } else {
                out.rows@[x]@.len() == ok_postings(accts, reg, raws@[x].postings@).len()
            },
            forall|x: int, k: int| 0 <= x < i && 0 <= k < out.rows@[x]@.len() ==> {
                let leg = #[trigger] out.rows@[x]@[k];
                &&& leg_matches(accts, reg, ok_postings(accts, reg, raws@[x].postings@)[k], leg)
                &&& fingerprint.ensures((&raws@[x], &leg.amount), leg.fingerprint)
            },
            out.guards.wf(),
            set_of(out.guards.unresolved@) == unresolved_paths(accts, reg, raws@.take(i as int)),
            set_of(out.guards.unresolved_commodities@) == unregistered_codes(accts, reg, raws@.take(i as int)),
            out.counts.consistent(),
            forall|c: SkipCause| #[trigger] tally_count(out.counts.charged_by_cause@, c) == sat(
                cause_total(accts, reg, raws@.take(i as int), c),
            ),
            out.counts.diagnostics@.len() == diagnostic_total(accts, reg, raws@.take(i as int)),
            diagnostic_view(out.counts.diagnostics@) == expected_diagnostics(accts, reg, raws@.take(i as int)),
            out.counts.new_transactions == 0,
            out.counts.attached_postings == 0,
        decreases n - i,
    {
        let raw = &raws[i];
        let ghost prefix = raws@.take(i as int);
        proof {
            assert(raws@.take(i + 1).drop_last() =~= prefix);
            assert(raws@.take(i + 1).last() == raws@[i as int]);
        }
        if has_ambiguous_residual(raw) {
            let count = raw.postings.len();
            let mut detail = u64_text(count as u64);
            detail.append(" legs, two or more elided");
            let ghost t0 = out.counts.charged_by_cause@;
            let ghost d0 = out.counts.diagnostics@;
            out.counts.note(location_of(raw), SkipCause::AmbiguousResidual, detail);
            out.counts.charge(SkipCause::AmbiguousResidual, count);
            out.rows.push(Vec::new());
            proof {
                assert(diagnostic_view(out.counts.diagnostics@) =~= diagnostic_view(d0).push(
                    (location_text(*raw), SkipCause::AmbiguousResidual, decimal_text(raw.postings@.len()) + " legs, two or more elided"@),
                ));
                assert forall|c: SkipCause| #[trigger] tally_count(out.counts.charged_by_cause@, c) == sat(
                    cause_total(accts, reg, raws@.take(i + 1), c),
                ) by {
                    assert(tally_count(t0, c) == sat(cause_total(accts, reg, prefix, c)));
                }
            }
        } else {
            let ghost postings = raw.postings@;
            let mut legs: Vec<ResolvedLeg> = Vec::new();
            let m = raw.postings.len();
            let mut q: usize = 0;
            proof {
                assert(postings.take(0) =~= Seq::<RawPosting>::empty());
                assert(row_unresolved(accts, reg, postings.take(0)) =~= Set::<Seq<char>>::empty());
                assert(unresolved_paths(accts, reg, prefix).union(Set::<Seq<char>>::empty())
                    =~= unresolved_paths(accts, reg, prefix));
                assert(unregistered_codes(accts, reg, prefix).union(Set::<Seq<char>>::empty())
                    =~= unregistered_codes(accts, reg, prefix));
            }
            while q < m
                invariant
                    m == postings.len(),
                    q <= m,
                    postings == raw.postings@,
                    raw == raws@[i as int],
                    n == raws@.len(),
                    i < n,
                    prefix == raws@.take(i as int),
                    !ambiguous(raws@[i as int]),
                    accts == resolver.accounts(),
                    reg == commodities.registry(),
                    forall|t: &RawTransaction, a: &Option<Amount>| fingerprint.requires((t, a)),
                    out.rows@.len() == i,
                    forall|x: int| #![trigger out.rows@[x]] 0 <= x < i ==> if ambiguous(raws@[x]) {
                        out.rows@[x]@.len() == 0
                    } else {
                        out.rows@[x]@.len() == ok_postings(accts, reg, raws@[x].postings@).len()
                    },
                    forall|x: int, k: int| 0 <= x < i && 0 <= k < out.rows@[x]@.len() ==> {
                        let leg = #[trigger] out.rows@[x]@[k];
                        &&& leg_matches(accts, reg, ok_postings(accts, reg, raws@[x].postings@)[k], leg)
                        &&& fingerprint.ensures((&raws@[x], &leg.amount), leg.fingerprint)
                    },
                    legs@.len() == ok_postings(accts, reg, postings.take(q as int)).len(),
                    forall|k: int| 0 <= k < legs@.len() ==> {
                        let leg = #[trigger] legs@[k];
                        &&& leg_matches(accts, reg, ok_postings(accts, reg, postings.take(q as int))[k], leg)
                        &&& fingerprint.ensures((raw, &leg.amount), leg.fingerprint)
                    },
                    out.guards.wf(),
                    set_of(out.guards.unresolved@) == unresolved_paths(accts, reg, prefix).union(
                        row_unresolved(accts, reg, postings.take(q as int)),
                    ),
                    set_of(out.guards.unresolved_commodities@) == unregistered_codes(accts, reg, prefix).union(
                        row_unregistered(accts, reg, postings.take(q as int)),
                    ),
                    out.counts.consistent(),
                    forall|c: SkipCause| #[trigger] tally_count(out.counts.charged_by_cause@, c) == sat(
                        cause_total(accts, reg, prefix, c) + failed_in(accts, reg, postings.take(q as int), c),
                    ),
                    out.counts.diagnostics@.len() == diagnostic_total(accts, reg, prefix) + failed_legs(
                        accts,
                        reg,
                        postings.take(q as int),
                    ),
                    diagnostic_view(out.counts.diagnostics@) == expected_diagnostics(accts, reg, prefix) + leg_diagnostics(
                        accts,
                        reg,
                        *raw,
                        postings.take(q as int),
                    ),
                    out.counts.new_transactions == 0,
                    out.counts.attached_postings == 0,
                decreases m - q,
            {
                let ghost before = postings.take(q as int);
                let ghost g0 = out.guards;
                let ghost t0 = out.counts.charged_by_cause@;
                let ghost w0 = warnings@;
                let ghost leg_posting = postings[q as int];
                proof {
                    assert(postings.take(q + 1).drop_last() =~= before);
                    assert(postings.take(q + 1).last() == leg_posting);
                }
                let outcome = resolve_leg(
                    resolver,
                    commodities,
                    raw,
                    &raw.postings[q],
                    fingerprint,
                    &mut out.guards,
                    &mut warnings,
                );
                let ghost d0 = out.counts.diagnostics@;
                proof {
                    lemma_leg_outcome(accts, reg, leg_posting, g0, w0, out.guards, warnings@, outcome);
                    lemma_leg_detail(accts, reg, leg_posting, g0, w0, out.guards, warnings@, outcome);
                }
                match outcome {
                    Ok(leg) => {
                        legs.push(leg);
                        proof {
                            assert(leg_diagnostics(accts, reg, *raw, postings.take(q + 1)) == leg_diagnostics(
                                accts,
                                reg,
                                *raw,
                                before,
                            ));
                            assert(ok_postings(accts, reg, postings.take(q + 1)) == ok_postings(accts, reg, before).push(
                                leg_posting,
                            ));
                        }
                    },
                    Err((cause, detail)) => {
                        let ghost dv = detail@;
                        out.counts.note(location_of(raw), cause, detail);
                        out.counts.charge(cause, 1);
                        proof {
                            assert(diagnostic_view(out.counts.diagnostics@) =~= diagnostic_view(d0).push(
                                (location_text(*raw), cause, dv),
                            ));
                            assert(leg_diagnostics(accts, reg, *raw, postings.take(q + 1)) == leg_diagnostics(
                                accts,
                                reg,
                                *raw,
                                before,
                            ).push((location_text(*raw), cause, leg_detail(accts, reg, leg_posting))));
                            assert forall|c: SkipCause| #[trigger] tally_count(out.counts.charged_by_cause@, c) == sat(
                                cause_total(accts, reg, prefix, c) + failed_in(accts, reg, postings.take(q + 1), c),
                            ) by {
                                assert(tally_count(t0, c) == sat(
                                    cause_total(accts, reg, prefix, c) + failed_in(accts, reg, before, c),
                                ));
                            }
                        }
                    },
                }
                q = q + 1;
            }
            proof {
                assert(postings.take(m as int) =~= postings);
            }
            out.rows.push(legs);
            proof {
                assert forall|c: SkipCause| #[trigger] tally_count(out.counts.charged_by_cause@, c) == sat(
                    cause_total(accts, reg, raws@.take(i + 1), c),
                ) by {
                }
            }
        }
        i = i + 1;
    }
    proof {
        assert(raws@.take(n as int) =~= raws@);
    }
    let ghost c0 = out.counts;
    out.counts.warnings = warnings;
    proof {
        assert forall|b: Bucket| #[trigger] out.counts.column(b) == sat(bucket_total(out.counts.charged_by_cause@, b)) by {
            assert(out.counts.column(b) == c0.column(b));
        }
    }
    out
}

} // verus!
