//! What the user interface is handed: period labels, account display paths,
//! tag paths, transactions, transfer suggestions, and native budget period
//! rows.

use vstd::prelude::*;
use vstd::string::*;

use crate::decimal::Dec;
use crate::loan::Period;
use crate::coerce::{date_string, shown_date};
use crate::model::{decimal_text, u64_text, Amount, Date, Reconciliation, TagId, Transaction, TransactionId};
use crate::text::{str_equal_text, texts};

verus! {

/// The short lowercase label of a period.
pub open spec fn period_text(period: Period) -> Seq<char> {
    match period {
        Period::Weekly => "weekly"@,
        Period::Fortnightly => "fortnightly"@,
        Period::Monthly => "monthly"@,
        Period::Quarterly => "quarterly"@,
        Period::CalendarYear => "calendar year"@,
        Period::FinancialYear => "financial year"@,
        Period::FinancialQuarter => "financial quarter"@,
        Period::Custom { .. } => "custom"@,
    }
}

/// Returns a short lowercase label for a period.
pub fn period_label(period: &Period) -> (r: String)
    ensures
        r@ == period_text(*period),
{
    let label = match period {
        Period::Weekly => "weekly",
        Period::Fortnightly => "fortnightly",
        Period::Monthly => "monthly",
        Period::Quarterly => "quarterly",
        Period::CalendarYear => "calendar year",
        Period::FinancialYear => "financial year",
        Period::FinancialQuarter => "financial quarter",
        Period::Custom { .. } => "custom",
    };
    String::from_str(label)
}

/// One account as the display path walk reads it: its id, its name, and its
/// parent's id.
pub type AccountEntry = (String, String, Option<String>);

/// The first entry of `accounts` carrying the id `id`.
pub open spec fn entry_for(accounts: Seq<AccountEntry>, id: Seq<char>) -> Option<int>
    decreases accounts.len(),
{
    if accounts.len() == 0 {
        None
    } else if accounts.last().0@ == id {
        match entry_for(accounts.drop_last(), id) {
            Some(k) => Some(k),
            None => Some(accounts.len() - 1),
        }
    } else {
        entry_for(accounts.drop_last(), id)
    }
}

/// The names met walking up the parent chain from `id`, leaf first, for at
/// most `fuel` steps: stopping at an id already `visited`, an id naming no
/// account, or a root.
pub open spec fn walk_up(accounts: Seq<AccountEntry>, id: Seq<char>, visited: Set<Seq<char>>, fuel: nat) -> Seq<Seq<char>>
    decreases fuel,
{
    if fuel == 0 || visited.contains(id) {
        Seq::empty()
    } else {
        match entry_for(accounts, id) {
            None => Seq::empty(),
            Some(k) => seq![accounts[k].1@] + match accounts[k].2 {
                Some(parent) => walk_up(accounts, parent@, visited.insert(id), (fuel - 1) as nat),
                None => Seq::empty(),
            },
        }
    }
}

/// `parts` joined by ` :: `.
pub open spec fn joined(parts: Seq<Seq<char>>) -> Seq<char> {
    crate::text::join_with(parts, " :: "@)
}

/// The display path of account `id`: its names root first, joined by
/// ` :: `, or the id itself when no account carries it.
pub open spec fn display_path(accounts: Seq<AccountEntry>, id: Seq<char>) -> Seq<char> {
    let names = walk_up(accounts, id, Set::empty(), (accounts.len() + 1) as nat);
    if names.len() == 0 { id } else { joined(names.reverse()) }
}

/// Finds the entry carrying `id`.
fn find_entry(accounts: &Vec<AccountEntry>, id: &str) -> (r: Option<usize>)
    ensures
        r matches Some(k) ==> entry_for(accounts@, id@) == Some(k as int) && k < accounts@.len(),
        r is None ==> entry_for(accounts@, id@) is None,
{
    let mut i: usize = 0;
    while i < accounts.len()
        invariant
            i <= accounts@.len(),
            forall|j: int| 0 <= j < i ==> (#[trigger] accounts@[j]).0@ != id@,
        decreases accounts@.len() - i,
    {
        if str_equal_text(accounts[i].0.as_str(), id) {
            proof {
                lemma_entry_for_first(accounts@, id@, i as int);
            }
            return Some(i);
        }
        i = i + 1;
    }
    proof {
        lemma_entry_for_none(accounts@, id@);
    }
    None
}

/// The first entry carrying an id is the one [`entry_for`] finds.
proof fn lemma_entry_for_first(accounts: Seq<AccountEntry>, id: Seq<char>, i: int)
    requires
        0 <= i < accounts.len(),
        accounts[i].0@ == id,
        forall|j: int| 0 <= j < i ==> (#[trigger] accounts[j]).0@ != id,
    ensures
        entry_for(accounts, id) == Some(i),
    decreases accounts.len(),
{
    if i < accounts.len() - 1 {
        lemma_entry_for_first(accounts.drop_last(), id, i);
    } else {
        lemma_entry_for_none(accounts.drop_last(), id);
    }
}

/// No entry carrying an id means [`entry_for`] finds none.
proof fn lemma_entry_for_none(accounts: Seq<AccountEntry>, id: Seq<char>)
    requires
        forall|j: int| 0 <= j < accounts.len() ==> (#[trigger] accounts[j]).0@ != id,
    ensures
        entry_for(accounts, id) is None,
    decreases accounts.len(),
{
    if accounts.len() > 0 {
        lemma_entry_for_none(accounts.drop_last(), id);
    }
}

/// Whether `v` holds the text `s`.
fn contains_text(v: &Vec<String>, s: &str) -> (r: bool)
    ensures
        r == v@.map_values(|x: String| x@).contains(s@),
{
    let mut i: usize = 0;
    while i < v.len()
        invariant
            i <= v@.len(),
            forall|j: int| 0 <= j < i ==> (#[trigger] v@[j])@ != s@,
        decreases v@.len() - i,
    {
        if str_equal_text(v[i].as_str(), s) {
            proof {
                assert(v@.map_values(|x: String| x@)[i as int] == s@);
            }
            return true;
        }
        i = i + 1;
    }
    false
}

/// Builds a display path for an account by walking up its parent chain:
/// its names from the root down, joined by ` :: `, e.g.
/// `Assets :: Smart Access`. A cycle stops the walk at the first repeated
/// account; an account that is not listed falls back to its id.
pub fn build_account_path(account_id: &str, accounts: &Vec<AccountEntry>) -> (r: String)
    requires
        accounts@.len() < usize::MAX,
    ensures
        r@ == display_path(accounts@, account_id@),
{
    let mut parts: Vec<String> = Vec::new();
    let mut visited: Vec<String> = Vec::new();
    let mut current = String::from_str(account_id);
    let fuel = accounts.len() + 1;
    let mut step: usize = 0;
    let mut done = false;
    let ghost whole = walk_up(accounts@, account_id@, Set::empty(), fuel as nat);
    proof {
        assert(visited@.map_values(|x: String| x@).to_set() =~= Set::<Seq<char>>::empty());
        assert(parts@.map_values(|x: String| x@) + whole =~= whole);
    }
    while !done && step < fuel
        invariant
            fuel == accounts@.len() + 1,
            step <= fuel,
            whole == walk_up(accounts@, account_id@, Set::empty(), fuel as nat),
            whole == parts@.map_values(|x: String| x@) + if done {
                Seq::<Seq<char>>::empty()
            } else {
                walk_up(accounts@, current@, visited@.map_values(|x: String| x@).to_set(), (fuel - step) as nat)
            },
        decreases fuel - step + if done { 0int } else { 1int },
    {
        let ghost vseq = visited@.map_values(|x: String| x@);
        let ghost vis = vseq.to_set();
        let ghost here = current@;
        let ghost left = (fuel - step) as nat;
        let ghost before = parts@.map_values(|x: String| x@);
        if contains_text(&visited, current.as_str()) {
            done = true;
            proof {
                assert(before + Seq::<Seq<char>>::empty() =~= before);
            }
        } else {
            match find_entry(accounts, current.as_str()) {
                None => {
                    done = true;
                    proof {
                        assert(before + Seq::<Seq<char>>::empty() =~= before);
                    }
                },
                Some(k) => {
                    let name = accounts[k].1.clone();
                    parts.push(name);
                    let ghost cur = current@;
                    let next = match &accounts[k].2 {
                        Some(parent) => Some(parent.clone()),
                        None => None,
                    };
                    visited.push(current);
                    proof {
                        assert(visited@.map_values(|x: String| x@) =~= vseq.push(cur));
                        crate::text::lemma_push_to_set(vseq, cur);
                        assert(visited@.map_values(|x: String| x@).to_set() == vis.insert(cur));
                        assert(parts@.map_values(|x: String| x@) =~= before.push(accounts@[k as int].1@));
                    }
                    proof {
                        assert(!vis.contains(here));
                        assert(entry_for(accounts@, here) == Some(k as int));
                        assert(walk_up(accounts@, here, vis, left) == seq![accounts@[k as int].1@] + match accounts@[k as int].2 {
                            Some(parent) => walk_up(accounts@, parent@, vis.insert(here), (left - 1) as nat),
                            None => Seq::<Seq<char>>::empty(),
                        });
                    }
                    match next {
                        Some(p) => {
                            current = p;
                            proof {
                                assert(before.push(accounts@[k as int].1@) + walk_up(
                                    accounts@,
                                    current@,
                                    vis.insert(cur),
                                    (fuel - step - 1) as nat,
                                ) =~= before + (seq![accounts@[k as int].1@] + walk_up(
                                    accounts@,
                                    current@,
                                    vis.insert(cur),
                                    (fuel - step - 1) as nat,
                                )));
                            }
                        },
                        None => {
                            done = true;
                            current = String::new();
                            proof {
                                assert(before.push(accounts@[k as int].1@) + Seq::<Seq<char>>::empty() =~= before + (
                                seq![accounts@[k as int].1@] + Seq::<Seq<char>>::empty()));
                            }
                        },
                    }
                },
            }
        }
        step = step + 1;
    }
    if parts.len() == 0 {
        return String::from_str(account_id);
    }
    let mut out = String::new();
    let n = parts.len();
    let ghost names = parts@.map_values(|x: String| x@);
    let ghost rev = names.reverse();
    let mut j: usize = 0;
    while j < n
        invariant
            n == parts@.len(),
            j <= n,
            names == parts@.map_values(|x: String| x@),
            rev == names.reverse(),
            out@ == joined(rev.take(j as int)),
        decreases n - j,
    {
        proof {
            reveal_strlit(" :: ");
            assert(rev.take(j + 1).drop_last() =~= rev.take(j as int));
            assert(rev[j as int] == parts@[n - 1 - j]@);
        }
        if j > 0 {
            out.append(" :: ");
        } else {
            proof {
                assert(out@ =~= Seq::<char>::empty());
            }
        }
        out.append(parts[n - 1 - j].as_str());
        j = j + 1;
    }
    proof {
        assert(rev.take(n as int) =~= rev);
    }
    out
}

/// An amount as the interface shows it: a value and a currency code.
#[derive(Debug, Clone, PartialEq, Eq)]
pub struct IpcAmount {
    /// The value.
    pub value: Dec,
    /// The code.
    pub currency_code: String,
}

/// The span of one native budget period that overlaps the period shown.
#[derive(Debug, Clone, Copy, PartialEq, Eq, Structural)]
pub struct Overlap {
    /// Where the native period starts.
    pub native_start: Date,
    /// Where it ends.
    pub native_end: Date,
}

/// A native budget period's standing within the period shown.
#[derive(Debug, Clone, Copy, PartialEq, Eq, Structural)]
pub struct NativePeriodStatus {
    /// The overlap.
    pub overlap: Overlap,
    /// The period's target, if it has one.
    pub effective_target: Option<Dec>,
    /// What was spent in it.
    pub actuals: Dec,
}

/// A native period sub-row as the interface shows it.
#[derive(Debug, Clone, PartialEq, Eq)]
pub struct NativePeriodRow {
    /// The row's label.
    pub label: String,
    /// Where the native period starts.
    pub native_start: Date,
    /// Where it ends.
    pub native_end: Date,
    /// Its target, in the row's commodity.
    pub effective_target: Option<IpcAmount>,
    /// What was spent, in the row's commodity.
    pub spent: IpcAmount,
}

/// Building a native period sub-row from a status, a resolved label and the
/// commodity amounts are expressed in.
pub trait NativePeriodRowExt: Sized {
    /// Builds the row.
    fn from_native(status: &NativePeriodStatus, label: String, commodity: &str) -> Self;
}

impl NativePeriodRowExt for NativePeriodRow {
    fn from_native(status: &NativePeriodStatus, label: String, commodity: &str) -> (r: NativePeriodRow)
        ensures
            r.label@ == label@,
            r.native_start == status.overlap.native_start,
            r.native_end == status.overlap.native_end,
            r.spent.value == status.actuals && r.spent.currency_code@ == commodity@,
            match status.effective_target {
                Some(t) => r.effective_target matches Some(a) && a.value == t && a.currency_code@ == commodity@,
                None => r.effective_target is None,
            },
    {
        let effective_target = match status.effective_target {
            Some(t) => Some(IpcAmount { value: t, currency_code: String::from_str(commodity) }),
            None => None,
        };
        NativePeriodRow {
            label,
            native_start: status.overlap.native_start,
            native_end: status.overlap.native_end,
            effective_target,
            spent: IpcAmount { value: status.actuals, currency_code: String::from_str(commodity) },
        }
    }
}


/// The path `forest` gives tag `id`: that of the first entry under it.
pub open spec fn tag_path(forest: Seq<(TagId, String)>, id: TagId) -> Option<Seq<char>>
    decreases forest.len(),
{
    if forest.len() == 0 {
        None
    } else if forest[0].0 == id {
        Some(forest[0].1@)
    } else {
        tag_path(forest.drop_first(), id)
    }
}

/// The paths of `ids` in order, dropping an id the forest lacks and a path
/// already given.
pub open spec fn tag_paths(forest: Seq<(TagId, String)>, ids: Seq<TagId>) -> Seq<Seq<char>>
    decreases ids.len(),
{
    if ids.len() == 0 {
        Seq::empty()
    } else {
        let before = tag_paths(forest, ids.drop_last());
        match tag_path(forest, ids.last()) {
            Some(p) => if before.contains(p) {
                before
            } else {
                before.push(p)
            },
            None => before,
        }
    }
}

/// Looks up the path `forest` gives `id`.
fn find_tag_path(forest: &Vec<(TagId, String)>, id: TagId) -> (r: Option<&String>)
    ensures
        match tag_path(forest@, id) {
            Some(p) => r matches Some(s) && s@ == p,
            None => r is None,
        },
{
    let mut i: usize = 0;
    proof {
        assert(forest@.skip(0) =~= forest@);
    }
    while i < forest.len()
        invariant
            i <= forest@.len(),
            tag_path(forest@, id) == tag_path(forest@.skip(i as int), id),
        decreases forest@.len() - i,
    {
        proof {
            assert(forest@.skip(i as int)[0] == forest@[i as int]);
            assert(forest@.skip(i as int).drop_first() =~= forest@.skip(i + 1));
        }
        if forest[i].0 == id {
            return Some(&forest[i].1);
        }
        i = i + 1;
    }
    None
}

/// Resolves tag ids to their paths, dropping any id the forest lacks; order
/// is kept and a path is given once.
pub fn resolve_tag_paths(forest: &Vec<(TagId, String)>, ids: &Vec<TagId>) -> (r: Vec<String>)
    ensures
        texts(r@) == tag_paths(forest@, ids@),
{
    let mut out: Vec<String> = Vec::new();
    let mut i: usize = 0;
    proof {
        assert(ids@.take(0) =~= Seq::<TagId>::empty());
        assert(texts(out@) =~= Seq::<Seq<char>>::empty());
    }
    while i < ids.len()
        invariant
            i <= ids@.len(),
            texts(out@) == tag_paths(forest@, ids@.take(i as int)),
        decreases ids@.len() - i,
    {
        proof {
            assert(ids@.take(i + 1).drop_last() =~= ids@.take(i as int));
            assert(ids@.take(i + 1).last() == ids@[i as int]);
        }
        match find_tag_path(forest, ids[i]) {
            Some(p) => {
                let present = contains_text(&out, p.as_str());
                proof {
                    assert(out@.map_values(|x: String| x@) =~= texts(out@));
                }
                if !present {
                    let ghost before = out@;
                    out.push(p.clone());
                    proof {
                        assert(texts(out@) =~= texts(before).push(p@));
                    }
                }
            },
            None => {},
        }
        i = i + 1;
    }
    proof {
        assert(ids@.take(ids@.len() as int) =~= ids@);
    }
    out
}

/// An account reference as the interface shows it: its id and display path.
#[derive(Debug, Clone, PartialEq, Eq)]
pub struct AccountRef {
    /// The account's id, as text.
    pub id: String,
    /// Its display path.
    pub name: String,
}

/// A posting as the interface shows it.
#[derive(Debug, Clone, PartialEq, Eq)]
pub struct IpcPosting {
    /// The posting's id, as text.
    pub id: String,
    /// The account it is booked to.
    pub account: AccountRef,
    /// Its amount, if stated.
    pub amount: Option<IpcAmount>,
    /// The paths of its effective tags.
    pub tags: Vec<String>,
}

/// A transaction as the interface shows it.
#[derive(Debug, Clone, PartialEq, Eq)]
pub struct IpcTransaction {
    /// The transaction's id, as text.
    pub id: String,
    /// Its date.
    pub date: Date,
    /// Its description.
    pub description: String,
    /// Its reconciliation state.
    pub reconciliation: Reconciliation,
    /// The paths of its own tags.
    pub tags: Vec<String>,
    /// Its postings, in order.
    pub postings: Vec<IpcPosting>,
}

/// Whether `shown` shows `amount`.
pub open spec fn shows_amount(amount: Option<Amount>, shown: Option<IpcAmount>) -> bool {
    match amount {
        Some(a) => shown matches Some(s) && s.value == a.value && s.currency_code@ == a.commodity@,
        None => shown is None,
    }
}

/// Whether `shown` shows posting `k` of `tx`: its account under its display
/// path, and as tags those of the transaction and then its own, resolved.
pub open spec fn shows_posting(
    tx: Transaction,
    accounts: Seq<AccountEntry>,
    forest: Seq<(TagId, String)>,
    k: int,
    shown: IpcPosting,
) -> bool {
    let p = tx.postings@[k];
    &&& shown.id@ == decimal_text(p.id.0 as nat)
    &&& shown.account.id@ == decimal_text(p.account_id.0 as nat)
    &&& shown.account.name@ == display_path(accounts, decimal_text(p.account_id.0 as nat))
    &&& shows_amount(p.amount, shown.amount)
    &&& texts(shown.tags@) == tag_paths(forest, tx.tag_ids@ + p.tag_ids@)
}

/// Copies an amount into the interface's form.
fn ipc_amount(a: &Option<Amount>) -> (r: Option<IpcAmount>)
    ensures
        shows_amount(*a, r),
{
    match a {
        Some(x) => Some(IpcAmount { value: x.value, currency_code: x.commodity.0.clone() }),
        None => None,
    }
}

/// `a` followed by `b`.
fn concat_tags(a: &Vec<TagId>, b: &Vec<TagId>) -> (r: Vec<TagId>)
    ensures
        r@ == a@ + b@,
{
    let mut out: Vec<TagId> = Vec::new();
    let mut i: usize = 0;
    while i < a.len()
        invariant
            i <= a@.len(),
            out@ == a@.take(i as int),
        decreases a@.len() - i,
    {
        proof {
            assert(a@.take(i + 1) =~= a@.take(i as int).push(a@[i as int]));
        }
        out.push(a[i]);
        i = i + 1;
    }
    let mut j: usize = 0;
    while j < b.len()
        invariant
            i == a@.len(),
            j <= b@.len(),
            out@ == a@ + b@.take(j as int),
        decreases b@.len() - j,
    {
        proof {
            assert(a@ + b@.take(j + 1) =~= (a@ + b@.take(j as int)).push(b@[j as int]));
        }
        out.push(b[j]);
        j = j + 1;
    }
    proof {
        assert(a@.take(a@.len() as int) =~= a@);
        assert(b@.take(b@.len() as int) =~= b@);
    }
    out
}

/// Building a transaction as the interface shows it.
pub trait TransactionExt: Sized {
    /// Shows `tx`, naming posting accounts by their display paths over
    /// `accounts` and tags by their paths in `forest`.
    fn from_model_with_accounts(tx: &Transaction, accounts: &Vec<AccountEntry>, forest: &Vec<(TagId, String)>) -> Self
        requires
            accounts@.len() < usize::MAX,
    ;
}

impl TransactionExt for IpcTransaction {
    fn from_model_with_accounts(tx: &Transaction, accounts: &Vec<AccountEntry>, forest: &Vec<(TagId, String)>) -> (r: IpcTransaction)
        ensures
            r.id@ == decimal_text(tx.id.0 as nat),
            r.date == tx.date,
            r.description@ == tx.description@,
            r.reconciliation == tx.reconciliation,
            texts(r.tags@) == tag_paths(forest@, tx.tag_ids@),
            r.postings@.len() == tx.postings@.len(),
            forall|k: int| 0 <= k < tx.postings@.len() ==> shows_posting(*tx, accounts@, forest@, k, #[trigger] r.postings@[k]),
    {
        let mut postings: Vec<IpcPosting> = Vec::new();
        let mut k: usize = 0;
        while k < tx.postings.len()
            invariant
                accounts@.len() < usize::MAX,
                k <= tx.postings@.len(),
                postings@.len() == k,
                forall|j: int| 0 <= j < k ==> shows_posting(*tx, accounts@, forest@, j, #[trigger] postings@[j]),
            decreases tx.postings@.len() - k,
        {
            let p = &tx.postings[k];
            let account_id = u64_text(p.account_id.0);
            let name = build_account_path(account_id.as_str(), accounts);
            let effective = concat_tags(&tx.tag_ids, &p.tag_ids);
            let tags = resolve_tag_paths(forest, &effective);
            let shown = IpcPosting {
                id: u64_text(p.id.0),
                account: AccountRef { id: account_id, name },
                amount: ipc_amount(&p.amount),
                tags,
            };
            postings.push(shown);
            k = k + 1;
        }
        IpcTransaction {
            id: u64_text(tx.id.0),
            date: tx.date,
            description: tx.description.clone(),
            reconciliation: tx.reconciliation,
            tags: resolve_tag_paths(forest, &tx.tag_ids),
            postings,
        }
    }
}


/// A suggested pairing of two bank lines as the two sides of one transfer.
#[derive(Debug, Clone, PartialEq, Eq)]
pub struct TransferSuggestion {
    /// The transaction money left.
    pub debit: TransactionId,
    /// The transaction money arrived in.
    pub credit: TransactionId,
    /// How much moved.
    pub amount: Amount,
    /// When it left.
    pub date_debit: Date,
    /// When it arrived.
    pub date_credit: Date,
    /// The name of the account it left.
    pub debit_account: String,
    /// The name of the account it arrived in.
    pub credit_account: String,
    /// The debit line's narration.
    pub debit_narration: String,
    /// The credit line's narration.
    pub credit_narration: String,
}

/// A transfer suggestion as the interface shows it.
#[derive(Debug, Clone, PartialEq, Eq)]
pub struct IpcTransferSuggestion {
    /// The debit transaction's id, as text.
    pub debit: String,
    /// The credit transaction's id, as text.
    pub credit: String,
    /// How much moved.
    pub amount: IpcAmount,
    /// When it left, as text.
    pub date_debit: String,
    /// When it arrived, as text.
    pub date_credit: String,
    /// The debit account's name.
    pub debit_account: String,
    /// The credit account's name.
    pub credit_account: String,
    /// The debit narration.
    pub debit_narration: String,
    /// The credit narration.
    pub credit_narration: String,
}

/// Shows a transfer suggestion: ids and dates as their text, the rest as is.
pub fn transfer_suggestion(s: &TransferSuggestion) -> (r: IpcTransferSuggestion)
    ensures
        r.debit@ == decimal_text(s.debit.0 as nat),
        r.credit@ == decimal_text(s.credit.0 as nat),
        r.amount.value == s.amount.value && r.amount.currency_code@ == s.amount.commodity@,
        r.date_debit@ == shown_date(s.date_debit),
        r.date_credit@ == shown_date(s.date_credit),
        r.debit_account@ == s.debit_account@,
        r.credit_account@ == s.credit_account@,
        r.debit_narration@ == s.debit_narration@,
        r.credit_narration@ == s.credit_narration@,
{
    IpcTransferSuggestion {
        debit: u64_text(s.debit.0),
        credit: u64_text(s.credit.0),
        amount: IpcAmount { value: s.amount.value, currency_code: s.amount.commodity.0.clone() },
        date_debit: date_string(&s.date_debit),
        date_credit: date_string(&s.date_credit),
        debit_account: s.debit_account.clone(),
        credit_account: s.credit_account.clone(),
        debit_narration: s.debit_narration.clone(),
        credit_narration: s.credit_narration.clone(),
    }
}

} // verus!
