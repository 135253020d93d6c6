//! Colon-separated account paths and their resolution to account ids.

use vstd::prelude::*;
use vstd::string::*;

use crate::error::BcError;
use crate::model::{AccountId, AccountRecord};
use crate::text::{clone_strings, is_white_space, join_with, lemma_split_on_pieces_lack_sep, lemma_trim_ends, lemma_trim_fixed, lemma_trim_lacks, split_on, trim, trim_bounds};

verus! {

/// The segments `raw` parses into: its colon-separated pieces, each trimmed.
pub open spec fn path_pieces(raw: Seq<char>) -> Seq<Seq<char>> {
    split_on(raw, ':').map_values(|p: Seq<char>| trim(p))
}

/// Whether every piece of `raw` is nonempty once trimmed.
pub open spec fn path_is_well_formed(raw: Seq<char>) -> bool {
    forall|i: int| 0 <= i < path_pieces(raw).len() ==> (#[trigger] path_pieces(raw)[i]).len() > 0
}

/// Whether `s` can be a segment of a path: nonempty, free of surrounding
/// whitespace, and free of colons.
pub open spec fn is_path_segment(s: Seq<char>) -> bool {
    &&& s.len() > 0
    &&& trim(s) == s
    &&& !s.contains(':')
}

/// Every piece a well-formed path parses into is a segment.
proof fn lemma_pieces_are_segments(raw: Seq<char>)
    requires
        path_is_well_formed(raw),
    ensures
        forall|i: int| 0 <= i < path_pieces(raw).len() ==> is_path_segment(#[trigger] path_pieces(raw)[i]),
{
    lemma_split_on_pieces_lack_sep(raw, ':');
    assert forall|i: int| 0 <= i < path_pieces(raw).len() implies is_path_segment(#[trigger] path_pieces(raw)[i]) by {
        let piece = split_on(raw, ':')[i];
        assert(path_pieces(raw)[i] == trim(piece));
        lemma_trim_lacks(piece, ':');
        lemma_trim_ends(piece);
        lemma_trim_fixed(trim(piece));
    }
}

/// The message [`AccountPath::parse`] rejects a malformed path with.
pub open spec fn malformed_path_message(raw: Seq<char>) -> Seq<char> {
    "malformed account path '"@ + raw + "': segments must be non-empty"@
}

/// A validated, colon-separated account path such as `Assets:Bank:Checking`.
///
/// Segments are trimmed of surrounding whitespace but otherwise preserved
/// verbatim: matching against stored account names is exact and
/// case-sensitive. Spaces inside a segment are kept.
#[derive(Debug, PartialEq, Eq)]
pub struct AccountPath {
    /// Path segments, root first. Never empty; no segment is empty.
    segments: Vec<String>,
}

impl Clone for AccountPath {
    /// A copy holding the same segments.
    fn clone(&self) -> (r: Self)
        ensures
            r.view() == self.view(),
    {
        proof {
            use_type_invariant(self);
        }
        AccountPath { segments: clone_strings(&self.segments) }
    }
}

impl AccountPath {
    /// The segments, root first.
    pub closed spec fn view(&self) -> Seq<Seq<char>> {
        self.segments.deep_view()
    }

    /// A path always has at least one segment, and each is nonempty,
    /// trimmed and free of colons.
    #[verifier::type_invariant]
    spec fn well_formed(&self) -> bool {
        &&& self.segments@.len() > 0
        &&& forall|i: int| 0 <= i < self.segments@.len() ==> is_path_segment((#[trigger] self.segments@[i])@)
    }

    /// Parses a colon-separated account path.
    ///
    /// Rejects `raw` with [`BcError::BadData`] exactly when some segment is
    /// empty or whitespace-only once trimmed — `raw` empty included — since no
    /// account could ever match such a path.
    pub fn parse(raw: &str) -> (r: Result<AccountPath, BcError>)
        ensures
            path_is_well_formed(raw@) <==> r is Ok,
            r matches Ok(p) ==> p.view() == path_pieces(raw@),
            r matches Err(e) ==> e matches BcError::BadData(m) && m@ == malformed_path_message(raw@),
    {
        let n = raw.unicode_len();
        let mut segments: Vec<String> = Vec::new();
        let mut any_empty = false;
        let mut start: usize = 0;
        let mut i: usize = 0;
        let ghost mut pieces: Seq<Seq<char>> = Seq::empty();
        let ghost mut old_pieces: Seq<Seq<char>> = Seq::empty();
        proof {
            assert(raw@.take(0) =~= Seq::<char>::empty());
            assert(raw@.subrange(0, 0) =~= Seq::<char>::empty());
            assert(pieces.push(Seq::<char>::empty()) =~= seq![Seq::<char>::empty()]);
            assert(segments.deep_view() =~= pieces.map_values(|p: Seq<char>| trim(p)));
        }
        while i < n
            invariant
                n == raw@.len(),
                start <= i <= n,
                split_on(raw@.take(i as int), ':') == pieces.push(raw@.subrange(start as int, i as int)),
                segments.deep_view() == pieces.map_values(|p: Seq<char>| trim(p)),
                any_empty <==> exists|j: int| 0 <= j < pieces.len() && trim(#[trigger] pieces[j]).len() == 0,
            decreases n - i,
        {
            let c = raw.get_char(i);
            proof {
                assert(raw@.take(i + 1).drop_last() =~= raw@.take(i as int));
                assert(raw@.take(i + 1).last() == c);
            }
            if c == ':' {
                let (a, b) = trim_bounds(raw, start, i);
                let seg = String::from_str(raw.substring_char(a, b));
                proof {
                    let cur = raw@.subrange(start as int, i as int);
                    if trim(cur).len() == 0 {
                        assert(trim(pieces.push(cur)[pieces.len() as int]).len() == 0);
                    }
                    if any_empty {
                        let j = choose|j: int| 0 <= j < pieces.len() && trim(#[trigger] pieces[j]).len() == 0;
                        assert(pieces.push(cur)[j] == pieces[j]);
                    }
                    old_pieces = pieces;
                    pieces = pieces.push(cur);
                    assert(raw@.subrange(i + 1, i + 1) =~= Seq::<char>::empty());
                }
                any_empty = any_empty || a == b;
                let ghost old_segs = segments@;
                let ghost old_dv = segments.deep_view();
                assert(old_dv.len() == old_segs.len());
                assert(old_dv == old_pieces.map_values(|p: Seq<char>| trim(p)));
                segments.push(seg);
                proof {
                    assert forall|j: int| 0 <= j < segments@.len() implies segments.deep_view()[j]
                        == pieces.map_values(|p: Seq<char>| trim(p))[j] by {
                        if j < old_segs.len() {
                            assert(segments@[j] == old_segs[j]);
                            assert(pieces[j] == old_pieces[j]);
                            assert(old_dv[j] == old_segs[j]@);
                        } else {
                            assert(segments@[j] == seg);
                        }
                    }
                    assert(segments.deep_view() =~= pieces.map_values(|p: Seq<char>| trim(p)));
                }
                start = i + 1;
            } else {
                proof {
                    assert(raw@.subrange(start as int, i + 1) =~= raw@.subrange(start as int, i as int).push(c));
                }
            }
            i = i + 1;
        }
        let (a, b) = trim_bounds(raw, start, n);
        let seg = String::from_str(raw.substring_char(a, b));
        proof {
            assert(raw@.take(n as int) =~= raw@);
            let cur = raw@.subrange(start as int, n as int);
            if trim(cur).len() == 0 {
                assert(trim(pieces.push(cur)[pieces.len() as int]).len() == 0);
            }
            if any_empty {
                let j = choose|j: int| 0 <= j < pieces.len() && trim(#[trigger] pieces[j]).len() == 0;
                assert(pieces.push(cur)[j] == pieces[j]);
            }
            old_pieces = pieces;
            pieces = pieces.push(cur);
        }
        any_empty = any_empty || a == b;
        let ghost old_segs = segments@;
        let ghost old_dv = segments.deep_view();
        assert(old_dv.len() == old_segs.len());
        assert(old_dv == old_pieces.map_values(|p: Seq<char>| trim(p)));
        segments.push(seg);
        proof {
            assert forall|j: int| 0 <= j < segments@.len() implies segments.deep_view()[j]
                == pieces.map_values(|p: Seq<char>| trim(p))[j] by {
                if j < old_segs.len() {
                    assert(segments@[j] == old_segs[j]);
                    assert(pieces[j] == old_pieces[j]);
                    assert(old_dv[j] == old_segs[j]@);
                } else {
                    assert(segments@[j] == seg);
                }
            }
            assert(segments.deep_view() =~= pieces.map_values(|p: Seq<char>| trim(p)));
            assert(path_pieces(raw@) == pieces.map_values(|p: Seq<char>| trim(p)));
        }
        if any_empty {
            proof {
                let j = choose|j: int| 0 <= j < pieces.len() && trim(#[trigger] pieces[j]).len() == 0;
                assert(path_pieces(raw@)[j].len() == 0);
            }
            let mut message = String::from_str("malformed account path '");
            message.append(raw);
            message.append("': segments must be non-empty");
            Err(BcError::BadData(message))
        } else {
            proof {
                assert forall|j: int| 0 <= j < path_pieces(raw@).len() implies (#[trigger] path_pieces(raw@)[j]).len() > 0 by {
                    if trim(pieces[j]).len() == 0 {
                        assert(exists|k: int| 0 <= k < pieces.len() && trim(#[trigger] pieces[k]).len() == 0);
                    }
                }
                assert(segments@.len() > 0);
                lemma_pieces_are_segments(raw@);
                assert forall|j: int| 0 <= j < segments@.len() implies is_path_segment((#[trigger] segments@[j])@) by {
                    assert(segments@[j]@ == segments.deep_view()[j]);
                }
            }
            Ok(AccountPath { segments })
        }
    }

    /// Returns the path segments, root first: at least one, each nonempty,
    /// trimmed and free of colons.
    pub fn segments(&self) -> (r: &[String])
        ensures
            r.deep_view() == self.view(),
            r.deep_view().len() > 0,
            forall|i: int| 0 <= i < r.deep_view().len() ==> is_path_segment(#[trigger] r.deep_view()[i]),
    {
        proof {
            use_type_invariant(self);
            assert forall|i: int| 0 <= i < self.view().len() implies is_path_segment(#[trigger] self.view()[i]) by {
                assert(self.view()[i] == self.segments@[i]@);
            }
        }
        self.segments.as_slice()
    }

    /// Renders the path colon-joined, as it is displayed.
    pub fn to_string(&self) -> (r: String)
        ensures
            r@ == join_with(self.view(), ":"@),
    {
        let mut out = String::new();
        let mut i: usize = 0;
        while i < self.segments.len()
            invariant
                i <= self.segments@.len(),
                out@ == join_with(self.view().take(i as int), ":"@),
            decreases self.segments@.len() - i,
        {
            proof {
                reveal_strlit(":");
                assert(self.view().take(i + 1).drop_last() =~= self.view().take(i as int));
                assert(self.view()[i as int] == self.segments@[i as int]@);
            }
            if i > 0 {
                out.append(":");
            } else {
                proof {
                    assert(out@ =~= Seq::<char>::empty());
                }
            }
            out.append(self.segments[i].as_str());
            i = i + 1;
        }
        proof {
            assert(self.view().take(i as int) =~= self.view());
        }
        out
    }
}

} // verus!

verus! {

/// The index of the last account in `accts` named `name` under `parent`.
///
/// Siblings have unique names, which makes this a function of the path; where
/// the snapshot breaks that rule the later account wins.
pub open spec fn sibling_index(accts: Seq<AccountRecord>, parent: Option<AccountId>, name: Seq<char>) -> Option<int>
    decreases accts.len(),
{
    if accts.len() == 0 {
        None
    } else if accts.last().parent_id == parent && accts.last().name@ == name {
        Some(accts.len() - 1)
    } else {
        sibling_index(accts.drop_last(), parent, name)
    }
}

/// The index of the last account in `accts` carrying `id`.
pub open spec fn id_index(accts: Seq<AccountRecord>, id: AccountId) -> Option<int>
    decreases accts.len(),
{
    if accts.len() == 0 {
        None
    } else if accts.last().id == id {
        Some(accts.len() - 1)
    } else {
        id_index(accts.drop_last(), id)
    }
}

/// The parent key a walk stands at: `None` at the roots, else the account at
/// index `at`.
pub open spec fn parent_key(accts: Seq<AccountRecord>, at: Option<int>) -> Option<AccountId> {
    match at {
        None => None,
        Some(j) => Some(accts[j].id),
    }
}

/// Where walking the first `k` segments of `segs` down the tree arrives:
/// `Some(None)` at the roots before any step, `Some(Some(j))` at account `j`,
/// `None` once a segment named no child.
pub open spec fn reach(accts: Seq<AccountRecord>, segs: Seq<Seq<char>>, k: nat) -> Option<Option<int>>
    decreases k,
{
    if k == 0 {
        Some(None)
    } else {
        match reach(accts, segs, (k - 1) as nat) {
            None => None,
            Some(at) => match sibling_index(accts, parent_key(accts, at), segs[k - 1]) {
                None => None,
                Some(j) => Some(Some(j)),
            },
        }
    }
}

/// The names met walking up from `cur` for at most `fuel` steps, leaf first.
pub open spec fn ancestry(accts: Seq<AccountRecord>, cur: Option<AccountId>, fuel: nat) -> Seq<Seq<char>>
    decreases fuel,
{
    if fuel == 0 {
        Seq::empty()
    } else {
        match cur {
            None => Seq::empty(),
            Some(k) => match id_index(accts, k) {
                None => Seq::empty(),
                Some(j) => seq![accts[j].name@] + ancestry(accts, accts[j].parent_id, (fuel - 1) as nat),
            },
        }
    }
}

/// How many distinct ids `accts` holds.
pub open spec fn distinct_ids(accts: Seq<AccountRecord>) -> nat
    decreases accts.len(),
{
    if accts.len() == 0 {
        0
    } else {
        distinct_ids(accts.drop_last()) + if id_index(accts.drop_last(), accts.last().id) is Some {
            0nat
        } else {
            1nat
        }
    }
}

/// The path rendered for account `id`: its ancestry root first, colon-joined,
/// the walk bounded by the number of accounts.
pub open spec fn rendered_path(accts: Seq<AccountRecord>, id: AccountId) -> Seq<char> {
    join_with(ancestry(accts, Some(id), distinct_ids(accts)).reverse(), ":"@)
}

/// The outcome of resolving one [`AccountPath`] against the account tree.
#[derive(Debug, Clone, PartialEq, Eq)]
pub enum Resolution {
    /// The path names an existing account.
    Resolved {
        /// The resolved account.
        id: AccountId,
        /// Whether that account is archived. Import proceeds, with a warning.
        archived: bool,
    },
    /// The path names no existing account.
    Missing {
        /// The deepest colon-joined prefix that did resolve; empty if the root
        /// segment itself is absent.
        resolved_prefix: String,
        /// The first segment that could not be resolved.
        missing_segment: String,
    },
}

/// What resolving `segs` against `accts` yields: the account the walk reaches,
/// or how far it got before a segment named nothing.
pub open spec fn resolves_as(accts: Seq<AccountRecord>, segs: Seq<Seq<char>>, r: Resolution) -> bool {
    match r {
        Resolution::Resolved { id, archived } => exists|j: int|
            reach(accts, segs, segs.len()) == Some(Some(j)) && accts[j].id == id && accts[j].archived == archived,
        Resolution::Missing { resolved_prefix, missing_segment } => exists|k: int|
            0 <= k < segs.len() && (#[trigger] reach(accts, segs, k as nat)) is Some
                && reach(accts, segs, (k + 1) as nat) is None
                && resolved_prefix@ == join_with(segs.take(k), ":"@)
                && missing_segment@ == segs[k],
    }
}

/// Resolves colon-separated account paths to [`AccountId`]s over one snapshot
/// of the account tree, archived accounts included.
#[derive(Debug)]
pub struct AccountResolver {
    /// Every account of the snapshot.
    accounts: Vec<AccountRecord>,
    /// The rendered path of each account, index-aligned with `accounts`.
    paths: Vec<String>,
}

impl AccountResolver {
    /// The snapshot's accounts.
    pub closed spec fn accounts(&self) -> Seq<AccountRecord> {
        self.accounts@
    }

    /// Each stored path is the rendering of its account.
    #[verifier::type_invariant]
    spec fn well_formed(&self) -> bool {
        &&& self.paths@.len() == self.accounts@.len()
        &&& forall|j: int| 0 <= j < self.paths@.len() ==> (#[trigger] self.paths@[j])@
            == rendered_path(self.accounts@, self.accounts@[j].id)
    }

    /// The index of the last account carrying `id`.
    fn find_id(accts: &Vec<AccountRecord>, id: AccountId, upto: usize) -> (r: Option<usize>)
        requires
            upto <= accts@.len(),
        ensures
            r matches Some(j) ==> j < upto && id_index(accts@.take(upto as int), id) == Some(j as int),
            r is None ==> id_index(accts@.take(upto as int), id) is None,
    {
        let mut i = upto;
        while i > 0
            invariant
                i <= upto <= accts@.len(),
                id_index(accts@.take(upto as int), id) == id_index(accts@.take(i as int), id),
            decreases i,
        {
            proof {
                assert(accts@.take(i as int).drop_last() =~= accts@.take(i - 1));
            }
            if accts[i - 1].id == id {
                return Some(i - 1);
            }
            i = i - 1;
        }
        None
    }

    /// The index of the last account named `name` under `parent`.
    fn find_sibling(accts: &Vec<AccountRecord>, parent: Option<AccountId>, name: &String) -> (r: Option<usize>)
        ensures
            r matches Some(j) ==> j < accts@.len() && sibling_index(accts@, parent, name@) == Some(j as int),
            r is None ==> sibling_index(accts@, parent, name@) is None,
    {
        let mut i = accts.len();
        proof {
            assert(accts@.take(i as int) =~= accts@);
        }
        while i > 0
            invariant
                i <= accts@.len(),
                sibling_index(accts@, parent, name@) == sibling_index(accts@.take(i as int), parent, name@),
            decreases i,
        {
            proof {
                assert(accts@.take(i as int).drop_last() =~= accts@.take(i - 1));
            }
            if accts[i - 1].parent_id == parent && accts[i - 1].name == *name {
                return Some(i - 1);
            }
            i = i - 1;
        }
        None
    }

    /// Counts the distinct ids of `accts`.
    fn count_distinct(accts: &Vec<AccountRecord>) -> (r: usize)
        ensures
            r == distinct_ids(accts@),
    {
        let mut count: usize = 0;
        let mut i: usize = 0;
        while i < accts.len()
            invariant
                i <= accts@.len(),
                count == distinct_ids(accts@.take(i as int)),
                count <= i,
            decreases accts@.len() - i,
        {
            proof {
                assert(accts@.take(i + 1).drop_last() =~= accts@.take(i as int));
            }
            if Self::find_id(accts, accts[i].id, i).is_none() {
                count = count + 1;
            }
            i = i + 1;
        }
        proof {
            assert(accts@.take(i as int) =~= accts@);
        }
        count
    }

}

/// Renders one account's path by walking from the account to its root,
/// for at most `fuel` steps.
pub fn render_path(accts: &Vec<AccountRecord>, id: AccountId, fuel: usize) -> (r: String)
    ensures
        r@ == join_with(ancestry(accts@, Some(id), fuel as nat).reverse(), ":"@),
{
    let mut names: Vec<usize> = Vec::new();
    let mut current: Option<AccountId> = Some(id);
    let mut step: usize = 0;
    let mut done = false;
    proof {
        assert(accts@.take(accts@.len() as int) =~= accts@);
    }
    while step < fuel && !done
        invariant
            step <= fuel,
            forall|t: int| 0 <= t < names@.len() ==> #[trigger] names@[t] < accts@.len(),
            ancestry(accts@, Some(id), fuel as nat) == names@.map_values(|j: usize| accts@[j as int].name@)
                + if done { Seq::empty() } else { ancestry(accts@, current, (fuel - step) as nat) },
        decreases fuel - step + if done { 0int } else { 1int },
    {
        proof {
            assert(accts@.take(accts@.len() as int) =~= accts@);
        }
        let ghost old_step = step;
        match current {
            None => {
                done = true;
                proof {
                    assert(names@.map_values(|j: usize| accts@[j as int].name@) + Seq::<Seq<char>>::empty()
                        =~= names@.map_values(|j: usize| accts@[j as int].name@));
                }
            },
            Some(k) => {
                match AccountResolver::find_id(accts, k, accts.len()) {
                    None => {
                        done = true;
                        proof {
                            assert(names@.map_values(|j: usize| accts@[j as int].name@) + Seq::<Seq<char>>::empty()
                                =~= names@.map_values(|j: usize| accts@[j as int].name@));
                        }
                    },
                    Some(j) => {
                        let ghost before = names@.map_values(|j: usize| accts@[j as int].name@);
                        names.push(j);
                        current = accts[j].parent_id;
                        step = step + 1;
                        proof {
                            assert(ancestry(accts@, Some(k), (fuel - old_step) as nat)
                                == seq![accts@[j as int].name@] + ancestry(accts@, current, (fuel - step) as nat));
                            assert(names@.map_values(|j: usize| accts@[j as int].name@) =~= before.push(accts@[j as int].name@));
                            assert(before + (seq![accts@[j as int].name@] + ancestry(accts@, current, (fuel - step) as nat))
                                =~= before.push(accts@[j as int].name@) + ancestry(accts@, current, (fuel - step) as nat));
                        }
                    },
                }
            },
        }
    }
    let ghost walked = names@.map_values(|j: usize| accts@[j as int].name@);
    proof {
        if !done {
            assert(step == fuel);
            assert(walked + ancestry(accts@, current, 0) =~= walked);
        } else {
            assert(walked + Seq::<Seq<char>>::empty() =~= walked);
        }
    }
    let mut out = String::new();
    let mut i: usize = 0;
    let len = names.len();
    while i < len
        invariant
            len == names@.len(),
            i <= len,
            walked == names@.map_values(|j: usize| accts@[j as int].name@),
            forall|t: int| 0 <= t < names@.len() ==> #[trigger] names@[t] < accts@.len(),
            out@ == join_with(walked.reverse().take(i as int), ":"@),
        decreases len - i,
    {
        let j = names[len - 1 - i];
        proof {
            reveal_strlit(":");
            assert(walked.reverse().take(i + 1).drop_last() =~= walked.reverse().take(i as int));
            assert(walked.reverse()[i as int] == accts@[j as int].name@);
        }
        if i > 0 {
            out.append(":");
        } else {
            proof {
                assert(out@ =~= Seq::<char>::empty());
            }
        }
        out.append(accts[j].name.as_str());
        i = i + 1;
    }
    proof {
        assert(walked.reverse().take(len as int) =~= walked.reverse());
    }
    out
}

impl AccountResolver {
    /// Builds a resolver over a snapshot of every account, archived included.
    pub fn from_accounts(all: Vec<AccountRecord>) -> (r: AccountResolver)
        ensures
            r.accounts() == all@,
    {
        let fuel = Self::count_distinct(&all);
        let mut paths: Vec<String> = Vec::new();
        let mut j: usize = 0;
        while j < all.len()
            invariant
                j <= all@.len(),
                fuel == distinct_ids(all@),
                paths@.len() == j,
                forall|t: int| 0 <= t < j ==> (#[trigger] paths@[t])@ == rendered_path(all@, all@[t].id),
            decreases all@.len() - j,
        {
            let rendered = render_path(&all, all[j].id, fuel);
            paths.push(rendered);
            j = j + 1;
        }
        AccountResolver { accounts: all, paths }
    }

    /// Returns the rendered path of the account `id` names, or `None` when
    /// the snapshot does not hold it.
    ///
    /// The inverse of [`Self::resolve`] over the same snapshot.
    pub fn path_of(&self, id: &AccountId) -> (r: Option<&str>)
        ensures
            r is None <==> id_index(self.accounts(), *id) is None,
            r matches Some(p) ==> p@ == rendered_path(self.accounts(), *id),
    {
        proof {
            use_type_invariant(self);
            assert(self.accounts@.take(self.accounts@.len() as int) =~= self.accounts@);
        }
        match Self::find_id(&self.accounts, *id, self.accounts.len()) {
            None => None,
            Some(j) => {
                proof {
                    assert(self.accounts@[j as int].id == *id) by {
                        lemma_id_index_matches(self.accounts@, *id);
                    }
                }
                Some(self.paths[j].as_str())
            },
        }
    }

    /// Resolves a path by walking its segments down the account tree.
    pub fn resolve(&self, path: &AccountPath) -> (r: Resolution)
        ensures
            resolves_as(self.accounts(), path.view(), r),
    {
        let segs = path.segments();
        let ghost sv = path.view();
        let ghost accts = self.accounts@;
        let mut parent: Option<AccountId> = None;
        let mut walked = String::new();
        let mut found: Option<(AccountId, bool)> = None;
        let ghost mut at: Option<int> = None;
        let mut i: usize = 0;
        proof {
            assert(sv.take(0) =~= Seq::<Seq<char>>::empty());
        }
        while i < segs.len()
            invariant
                segs.deep_view() == sv,
                sv == path.view(),
                accts == self.accounts@,
                i <= sv.len(),
                reach(accts, sv, i as nat) == Some(at),
                parent == parent_key(accts, at),
                at matches Some(j) ==> 0 <= j < accts.len(),
                walked@ == join_with(sv.take(i as int), ":"@),
                i > 0 ==> at is Some && found == Some((accts[at->0].id, accts[at->0].archived)),
            decreases sv.len() - i,
        {
            proof {
                assert(segs@[i as int]@ == sv[i as int]);
            }
            match Self::find_sibling(&self.accounts, parent, &segs[i]) {
                Some(j) => {
                    parent = Some(self.accounts[j].id);
                    proof {
                        reveal_strlit(":");
                        assert(sv.take(i + 1).drop_last() =~= sv.take(i as int));
                        if i == 0 {
                            assert(walked@ =~= Seq::<char>::empty());
                        }
                    }
                    if i > 0 {
                        walked.append(":");
                    }
                    walked.append(segs[i].as_str());
                    found = Some((self.accounts[j].id, self.accounts[j].archived));
                    proof {
                        at = Some(j as int);
                    }
                },
                None => {
                    let missing = segs[i].clone();
                    proof {
                        assert(reach(accts, sv, (i + 1) as nat) is None);
                        assert(missing@ == sv[i as int]);
                        assert(reach(accts, sv, i as nat) is Some);
                        let k = i as int;
                        assert(0 <= k < sv.len() && (#[trigger] reach(accts, sv, k as nat)) is Some
                            && reach(accts, sv, (k + 1) as nat) is None
                            && walked@ == join_with(sv.take(k), ":"@)
                            && missing@ == sv[k]);
                    }
                    let r = Resolution::Missing { resolved_prefix: walked, missing_segment: missing };
                    proof {
                        assert(resolves_as(accts, sv, r));
                    }
                    return r;
                },
            }
            i = i + 1;
        }
        proof {
            assert(segs@.len() == sv.len());
        }
        match found {
            Some((id, archived)) => Resolution::Resolved { id, archived },
            None => Resolution::Missing { resolved_prefix: String::new(), missing_segment: path.to_string() },
        }
    }
}

/// The index `id_index` finds carries `id`.
pub proof fn lemma_id_index_matches(accts: Seq<AccountRecord>, id: AccountId)
    ensures
        id_index(accts, id) matches Some(j) ==> 0 <= j < accts.len() && accts[j].id == id,
    decreases accts.len(),
{
    if accts.len() > 0 && accts.last().id != id {
        lemma_id_index_matches(accts.drop_last(), id);
    }
}

/// The index `sibling_index` finds carries `name` under `parent`.
pub proof fn lemma_sibling_index_matches(accts: Seq<AccountRecord>, parent: Option<AccountId>, name: Seq<char>)
    ensures
        sibling_index(accts, parent, name) matches Some(j) ==> 0 <= j < accts.len()
            && accts[j].parent_id == parent && accts[j].name@ == name,
    decreases accts.len(),
{
    if accts.len() > 0 && !(accts.last().parent_id == parent && accts.last().name@ == name) {
        lemma_sibling_index_matches(accts.drop_last(), parent, name);
    }
}

/// The accounts met walking up from `cur` for at most `fuel` steps, leaf
/// first, as indices into `accts`.
pub open spec fn chain(accts: Seq<AccountRecord>, cur: Option<AccountId>, fuel: nat) -> Seq<int>
    decreases fuel,
{
    if fuel == 0 {
        Seq::empty()
    } else {
        match cur {
            None => Seq::empty(),
            Some(k) => match id_index(accts, k) {
                None => Seq::empty(),
                Some(j) => seq![j] + chain(accts, accts[j].parent_id, (fuel - 1) as nat),
            },
        }
    }
}

/// Whether a name can stand as a path segment: nonempty, colon-free, and not
/// starting or ending with whitespace.
pub open spec fn is_segment_name(name: Seq<char>) -> bool {
    &&& name.len() > 0
    &&& !name.contains(':')
    &&& !is_white_space(name[0])
    &&& !is_white_space(name.last())
}

/// An account tree: ids are unique, sibling names are unique, and every
/// account's parent chain ends at a root within the number of accounts, so
/// every parent exists and no chain cycles.
pub open spec fn tree_well_formed(accts: Seq<AccountRecord>) -> bool {
    &&& forall|a: int, b: int|
        0 <= a < accts.len() && 0 <= b < accts.len() && a != b ==> #[trigger] accts[a].id != #[trigger] accts[b].id
    &&& forall|a: int, b: int|
        0 <= a < accts.len() && 0 <= b < accts.len() && a != b && #[trigger] accts[a].parent_id == #[trigger] accts[b].parent_id
            ==> accts[a].name@ != accts[b].name@
    &&& forall|a: int| 0 <= a < accts.len() ==> {
        let c = #[trigger] chain(accts, Some(accts[a].id), distinct_ids(accts));
        c.len() > 0 && accts[c.last()].parent_id is None
    }
}

/// A snapshot the account table's constraints describe: an account tree
/// whose every name is a valid segment.
pub open spec fn snapshot_well_formed(accts: Seq<AccountRecord>) -> bool {
    &&& tree_well_formed(accts)
    &&& forall|a: int| 0 <= a < accts.len() ==> is_segment_name(#[trigger] accts[a].name@)
}

proof fn lemma_ancestry_is_chain_names(accts: Seq<AccountRecord>, cur: Option<AccountId>, fuel: nat)
    ensures
        ancestry(accts, cur, fuel) == chain(accts, cur, fuel).map_values(|k: int| accts[k].name@),
        forall|t: int| 0 <= t < chain(accts, cur, fuel).len() ==> 0 <= #[trigger] chain(accts, cur, fuel)[t] < accts.len(),
        forall|t: int| 0 <= t < chain(accts, cur, fuel).len() - 1 ==>
            accts[#[trigger] chain(accts, cur, fuel)[t]].parent_id == Some(accts[chain(accts, cur, fuel)[t + 1]].id),
        chain(accts, cur, fuel).len() > 0 ==> cur == Some(accts[chain(accts, cur, fuel)[0]].id),
    decreases fuel,
{
    if fuel > 0 {
        if let Some(k) = cur {
            lemma_id_index_matches(accts, k);
            if let Some(j) = id_index(accts, k) {
                let rest = chain(accts, accts[j].parent_id, (fuel - 1) as nat);
                lemma_ancestry_is_chain_names(accts, accts[j].parent_id, (fuel - 1) as nat);
                let c = chain(accts, cur, fuel);
                assert(c == seq![j] + rest);
                assert(ancestry(accts, cur, fuel) =~= c.map_values(|k: int| accts[k].name@));
                assert forall|t: int| 0 <= t < c.len() - 1 implies
                    accts[#[trigger] c[t]].parent_id == Some(accts[c[t + 1]].id) by {
                    if t > 0 {
                        assert(c[t] == rest[t - 1]);
                        assert(c[t + 1] == rest[t]);
                    } else {
                        assert(c[1] == rest[0]);
                    }
                }
                assert forall|t: int| 0 <= t < c.len() implies 0 <= #[trigger] c[t] < accts.len() by {
                    if t > 0 {
                        assert(c[t] == rest[t - 1]);
                    }
                }
            }
        }
    }
}

proof fn lemma_distinct_ids_positive(accts: Seq<AccountRecord>)
    ensures
        accts.len() > 0 ==> distinct_ids(accts) > 0,
    decreases accts.len(),
{
    if accts.len() > 0 {
        lemma_distinct_ids_positive(accts.drop_last());
        if accts.drop_last().len() == 0 {
            assert(id_index(accts.drop_last(), accts.last().id) is None);
        }
    }
}

proof fn lemma_id_index_unique(accts: Seq<AccountRecord>, j: int)
    requires
        0 <= j < accts.len(),
        forall|a: int, b: int|
            0 <= a < accts.len() && 0 <= b < accts.len() && a != b ==> #[trigger] accts[a].id != #[trigger] accts[b].id,
    ensures
        id_index(accts, accts[j].id) == Some(j),
    decreases accts.len(),
{
    if j < accts.len() - 1 {
        assert(accts[accts.len() - 1].id != accts[j].id);
        let d = accts.drop_last();
        assert forall|a: int, b: int|
            0 <= a < d.len() && 0 <= b < d.len() && a != b implies #[trigger] d[a].id != #[trigger] d[b].id by {
            assert(d[a] == accts[a] && d[b] == accts[b]);
        }
        lemma_id_index_unique(d, j);
    }
}

proof fn lemma_sibling_index_unique(accts: Seq<AccountRecord>, x: int)
    requires
        0 <= x < accts.len(),
        forall|a: int, b: int|
            0 <= a < accts.len() && 0 <= b < accts.len() && a != b && #[trigger] accts[a].parent_id == #[trigger] accts[b].parent_id
                ==> accts[a].name@ != accts[b].name@,
    ensures
        sibling_index(accts, accts[x].parent_id, accts[x].name@) == Some(x),
    decreases accts.len(),
{
    if x < accts.len() - 1 {
        let last = accts.len() - 1;
        assert(!(accts[last].parent_id == accts[x].parent_id && accts[last].name@ == accts[x].name@));
        let d = accts.drop_last();
        assert forall|a: int, b: int|
            0 <= a < d.len() && 0 <= b < d.len() && a != b && #[trigger] d[a].parent_id == #[trigger] d[b].parent_id
                implies d[a].name@ != d[b].name@ by {
            assert(d[a] == accts[a] && d[b] == accts[b]);
        }
        lemma_sibling_index_unique(d, x);
    }
}

/// Splitting `s + t` where `t` holds no separator extends the last piece of `s`.
proof fn lemma_split_on_append(s: Seq<char>, t: Seq<char>, c: char)
    requires
        !t.contains(c),
    ensures
        split_on(s + t, c) == split_on(s, c).update(split_on(s, c).len() - 1, split_on(s, c).last() + t),
    decreases t.len(),
{
    crate::text::lemma_split_on_nonempty(s, c);
    if t.len() == 0 {
        assert(s + t =~= s);
        assert(split_on(s, c).last() + t =~= split_on(s, c).last());
        assert(split_on(s, c).update(split_on(s, c).len() - 1, split_on(s, c).last()) =~= split_on(s, c));
    } else {
        let t0 = t.drop_last();
        assert(!t0.contains(c)) by {
            assert forall|i: int| 0 <= i < t0.len() implies t0[i] != c by {
                assert(t0[i] == t[i]);
            }
        }
        assert(t.last() != c) by {
            assert(t[t.len() - 1] == t.last());
        }
        lemma_split_on_append(s, t0, c);
        assert((s + t).drop_last() =~= s + t0);
        assert((s + t).last() == t.last());
        let prev = split_on(s, c);
        assert((prev.last() + t0).push(t.last()) =~= prev.last() + t);
        assert(split_on(s + t, c) =~= prev.update(prev.len() - 1, prev.last() + t));
    }
}

/// Splitting colon-free pieces joined by the separator gives the pieces back.
proof fn lemma_split_join(parts: Seq<Seq<char>>, c: char)
    requires
        parts.len() > 0,
        forall|i: int| 0 <= i < parts.len() ==> !(#[trigger] parts[i]).contains(c),
    ensures
        split_on(join_with(parts, seq![c]), c) == parts,
    decreases parts.len(),
{
    if parts.len() == 1 {
        assert(split_on(Seq::<char>::empty(), c) == seq![Seq::<char>::empty()]);
        lemma_split_on_append(Seq::<char>::empty(), parts[0], c);
        assert(Seq::<char>::empty() + parts[0] =~= parts[0]);
        assert(seq![Seq::<char>::empty()].update(0, Seq::<char>::empty() + parts[0]) =~= parts);
    } else {
        let init = parts.drop_last();
        assert forall|i: int| 0 <= i < init.len() implies !(#[trigger] init[i]).contains(c) by {
            assert(init[i] == parts[i]);
        }
        lemma_split_join(init, c);
        let j = join_with(init, seq![c]);
        assert(parts.last() == parts[parts.len() - 1]);
        let jc = j + seq![c];
        assert(jc.drop_last() =~= j);
        assert(split_on(jc, c) == split_on(j, c).push(Seq::<char>::empty()));
        lemma_split_on_append(jc, parts.last(), c);
        assert(join_with(parts, seq![c]) == jc + parts.last());
        let sp = split_on(jc, c);
        assert(sp.update(sp.len() - 1, sp.last() + parts.last()) =~= parts) by {
            assert(Seq::<char>::empty() + parts.last() =~= parts.last());
        }
    }
}

proof fn lemma_reach_chain(accts: Seq<AccountRecord>, r: Seq<int>, k: nat)
    requires
        tree_well_formed(accts),
        1 <= k <= r.len(),
        forall|t: int| 0 <= t < r.len() ==> 0 <= #[trigger] r[t] < accts.len(),
        accts[r[0]].parent_id is None,
        forall|t: int| 1 <= t < r.len() ==> accts[#[trigger] r[t]].parent_id == Some(accts[r[t - 1]].id),
    ensures
        reach(accts, r.map_values(|x: int| accts[x].name@), k) == Some(Some(r[k - 1])),
    decreases k,
{
    let segs = r.map_values(|x: int| accts[x].name@);
    if k > 1 {
        lemma_reach_chain(accts, r, (k - 1) as nat);
    }
    let x = r[k - 1];
    lemma_sibling_index_unique(accts, x);
    assert(segs[k - 1] == accts[x].name@);
    if k == 1 {
        assert(reach(accts, segs, 0) == Some(None::<int>));
    }
}

/// A rendered path parses, and resolves back to the account it was rendered
/// from: [`AccountResolver::path_of`] is the inverse of
/// [`AccountResolver::resolve`] over a well-formed snapshot.
pub proof fn lemma_rendered_path_resolves_back(accts: Seq<AccountRecord>, j: int)
    requires
        snapshot_well_formed(accts),
        0 <= j < accts.len(),
    ensures
        path_is_well_formed(rendered_path(accts, accts[j].id)),
        resolves_as(
            accts,
            path_pieces(rendered_path(accts, accts[j].id)),
            Resolution::Resolved { id: accts[j].id, archived: accts[j].archived },
        ),
        rendered_path(accts, accts[j].id) == join_with(path_pieces(rendered_path(accts, accts[j].id)), ":"@),
{
    let id = accts[j].id;
    let f = distinct_ids(accts);
    let c = chain(accts, Some(id), f);
    lemma_ancestry_is_chain_names(accts, Some(id), f);
    lemma_distinct_ids_positive(accts);
    assert(c.len() > 0 && accts[c.last()].parent_id is None);
    let r = c.reverse();
    let segs = r.map_values(|x: int| accts[x].name@);
    assert(ancestry(accts, Some(id), f).reverse() =~= segs);
    assert forall|t: int| 0 <= t < r.len() implies 0 <= #[trigger] r[t] < accts.len() by {
        assert(r[t] == c[c.len() - 1 - t]);
    }
    assert forall|t: int| 1 <= t < r.len() implies accts[#[trigger] r[t]].parent_id == Some(accts[r[t - 1]].id) by {
        assert(r[t] == c[c.len() - 1 - t]);
        assert(r[t - 1] == c[c.len() - 1 - t + 1]);
    }
    assert(r[0] == c.last());
    assert forall|i: int| 0 <= i < segs.len() implies !(#[trigger] segs[i]).contains(':') by {
        assert(is_segment_name(accts[r[i]].name@));
    }
    lemma_split_join(segs, ':');
    assert(":"@ =~= seq![':']) by {
        reveal_strlit(":");
    }
    let raw = rendered_path(accts, id);
    assert(split_on(raw, ':') == segs);
    assert forall|i: int| 0 <= i < segs.len() implies trim(#[trigger] segs[i]) == segs[i] by {
        assert(is_segment_name(accts[r[i]].name@));
        crate::text::lemma_trim_fixed(segs[i]);
    }
    assert(path_pieces(raw) =~= segs);
    lemma_reach_chain(accts, r, r.len());
    assert(r[r.len() - 1] == c[0]);
    lemma_id_index_unique(accts, j);
    assert(c[0] == j);
}

/// Two walks down a well-formed snapshot that arrive at the same account
/// took the same steps: each account has one name and one parent.
proof fn lemma_walk_determined(accts: Seq<AccountRecord>, s1: Seq<Seq<char>>, n1: nat, s2: Seq<Seq<char>>, n2: nat, j: int)
    requires
        tree_well_formed(accts),
        n1 <= s1.len(),
        n2 <= s2.len(),
        reach(accts, s1, n1) == Some(Some(j)),
        reach(accts, s2, n2) == Some(Some(j)),
    ensures
        n1 == n2,
        s1.take(n1 as int) == s2.take(n2 as int),
    decreases n1,
{
    let at1 = reach(accts, s1, (n1 - 1) as nat)->0;
    let at2 = reach(accts, s2, (n2 - 1) as nat)->0;
    lemma_sibling_index_matches(accts, parent_key(accts, at1), s1[n1 - 1]);
    lemma_sibling_index_matches(accts, parent_key(accts, at2), s2[n2 - 1]);
    assert(s1[n1 - 1] == s2[n2 - 1]);
    match at1 {
        None => {
            assert(at2 is None);
            assert(n1 == 1) by {
                if n1 > 1 {
                    assert(reach(accts, s1, (n1 - 1) as nat) != Some(None::<int>));
                }
            }
            assert(n2 == 1) by {
                if n2 > 1 {
                    assert(reach(accts, s2, (n2 - 1) as nat) != Some(None::<int>));
                }
            }
        },
        Some(i1) => {
            let i2 = at2->0;
            assert(n1 > 1) by {
                if n1 == 1 {
                    assert(reach(accts, s1, 0) == Some(None::<int>));
                }
            }
            assert(n2 > 1) by {
                if n2 == 1 {
                    assert(reach(accts, s2, 0) == Some(None::<int>));
                }
            }
            lemma_reach_in_range(accts, s1, (n1 - 1) as nat);
            lemma_reach_in_range(accts, s2, (n2 - 1) as nat);
            assert(accts[i1].id == accts[i2].id);
            assert(i1 == i2);
            lemma_walk_determined(accts, s1, (n1 - 1) as nat, s2, (n2 - 1) as nat, i1);
        },
    }
    assert(s1.take(n1 as int) =~= s1.take(n1 - 1).push(s1[n1 - 1]));
    assert(s2.take(n2 as int) =~= s2.take(n2 - 1).push(s2[n2 - 1]));
}

/// An account a walk reaches lies within the snapshot.
proof fn lemma_reach_in_range(accts: Seq<AccountRecord>, segs: Seq<Seq<char>>, k: nat)
    ensures
        reach(accts, segs, k) matches Some(Some(j)) ==> 0 <= j < accts.len(),
    decreases k,
{
    if k > 0 {
        let at = reach(accts, segs, (k - 1) as nat);
        if at is Some {
            lemma_sibling_index_matches(accts, parent_key(accts, at->0), segs[k - 1]);
        }
    }
}

/// Resolving a path to an account and rendering that account's path gives
/// the path back: [`AccountResolver::path_of`] inverts
/// [`AccountResolver::resolve`] over any account tree.
pub proof fn lemma_resolved_path_renders_back(accts: Seq<AccountRecord>, segs: Seq<Seq<char>>, id: AccountId, archived: bool)
    requires
        tree_well_formed(accts),
        resolves_as(accts, segs, Resolution::Resolved { id, archived }),
    ensures
        id_index(accts, id) is Some,
        rendered_path(accts, id) == join_with(segs, ":"@),
{
    let j = choose|j: int| reach(accts, segs, segs.len()) == Some(Some(j)) && accts[j].id == id && accts[j].archived == archived;
    lemma_reach_in_range(accts, segs, segs.len());
    lemma_id_index_unique(accts, j);
    let f = distinct_ids(accts);
    let c = chain(accts, Some(id), f);
    lemma_ancestry_is_chain_names(accts, Some(id), f);
    lemma_distinct_ids_positive(accts);
    assert(c.len() > 0 && accts[c.last()].parent_id is None);
    let r = c.reverse();
    let names = r.map_values(|x: int| accts[x].name@);
    assert(ancestry(accts, Some(id), f).reverse() =~= names);
    assert forall|t: int| 0 <= t < r.len() implies 0 <= #[trigger] r[t] < accts.len() by {
        assert(r[t] == c[c.len() - 1 - t]);
    }
    assert forall|t: int| 1 <= t < r.len() implies accts[#[trigger] r[t]].parent_id == Some(accts[r[t - 1]].id) by {
        assert(r[t] == c[c.len() - 1 - t]);
        assert(r[t - 1] == c[c.len() - 1 - t + 1]);
    }
    assert(r[0] == c.last());
    lemma_reach_chain(accts, r, r.len());
    assert(r[r.len() - 1] == c[0]);
    assert(c[0] == j);
    lemma_walk_determined(accts, segs, segs.len(), names, names.len(), j);
    assert(segs.take(segs.len() as int) =~= segs);
    assert(names.take(names.len() as int) =~= names);
}

/// Displaying a parsed path and parsing the display gives the same path back:
/// a parsed segment is nonempty, colon-free and already trimmed.
pub proof fn lemma_display_parses_back(raw: Seq<char>)
    requires
        path_is_well_formed(raw),
    ensures
        path_is_well_formed(join_with(path_pieces(raw), ":"@)),
        path_pieces(join_with(path_pieces(raw), ":"@)) == path_pieces(raw),
{
    let segs = path_pieces(raw);
    let pieces = split_on(raw, ':');
    crate::text::lemma_split_on_nonempty(raw, ':');
    crate::text::lemma_split_on_pieces_lack_sep(raw, ':');
    assert forall|i: int| 0 <= i < segs.len() implies !(#[trigger] segs[i]).contains(':') by {
        assert(!pieces[i].contains(':'));
        crate::text::lemma_trim_lacks(pieces[i], ':');
    }
    lemma_split_join(segs, ':');
    assert(":"@ =~= seq![':']) by {
        reveal_strlit(":");
    }
    assert forall|i: int| 0 <= i < segs.len() implies trim(#[trigger] segs[i]) == segs[i] by {
        assert(segs[i].len() > 0);
        crate::text::lemma_trim_ends(pieces[i]);
        crate::text::lemma_trim_fixed(segs[i]);
    }
    assert(path_pieces(join_with(segs, ":"@)) =~= segs);
}

} // verus!
