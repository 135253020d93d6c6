//! Audit entries: the short kind tag and the human-readable message the user
//! interface shows for each recorded event.

use vstd::prelude::*;
use vstd::string::*;

use crate::coerce::{date_string, shown_date};
use crate::metadata::Timestamp;
use crate::model::{decimal_text, u64_text, AccountId, Date, Reconciliation, TagId};

verus! {

/// A recorded change, holding what its audit entry reads of it.
#[derive(Debug, Clone, PartialEq, Eq)]
pub enum Event {
    /// A transaction was created.
    TransactionCreated,
    /// A transaction was amended.
    TransactionAmended,
    /// A transaction was voided.
    TransactionVoided,
    /// A transaction was reversed.
    TransactionReversed,
    /// A transaction's payee changed to `to`.
    TransactionPayeeChanged { to: Option<String> },
    /// A transaction's date changed to `to`.
    TransactionDateChanged { to: Date },
    /// A transaction's extra dates changed.
    TransactionExtraDatesChanged,
    /// A transaction's description changed.
    TransactionDescriptionChanged,
    /// A transaction's note changed to `to`, or was removed.
    TransactionNoteChanged { to: Option<String> },
    /// Tags were added to and removed from a transaction.
    TransactionTagsChanged { added: Vec<TagId>, removed: Vec<TagId> },
    /// A transaction's reconciliation state changed.
    TransactionReconciled { from: Reconciliation, to: Reconciliation },
    /// A posting moved to another account.
    PostingRecategorised { to_account: AccountId },
    /// A posting's amount changed.
    PostingAmountChanged,
    /// A posting's note changed.
    PostingNoteChanged,
    /// A posting's spread changed to run between two dates, or was cleared.
    PostingSpreadChanged { to: Option<(Date, Date)> },
    /// A posting was added on `account`.
    PostingAdded { account: AccountId },
    /// A posting was removed.
    PostingRemoved,
    /// A bank line was attached to a transaction, read from `account_id`'s
    /// statement under `narration`.
    TransactionSourceAttached { account_id: AccountId, narration: String },
    /// A bank line was detached from a transaction.
    TransactionSourceDetached,
    /// Any other event, by its kind tag.
    Other { kind: String },
}

/// An audit entry as the interface shows it.
#[derive(Debug, Clone, PartialEq, Eq)]
pub struct AuditEntry {
    /// When the event was recorded.
    pub ts: Timestamp,
    /// The short kind tag.
    pub kind: String,
    /// The human-readable message.
    pub message: String,
}

/// The name of a reconciliation state as its `Debug` writes it.
pub open spec fn reconciliation_name(r: Reconciliation) -> Seq<char> {
    match r {
        Reconciliation::Unreconciled => "Unreconciled"@,
        Reconciliation::Flagged => "Flagged"@,
        Reconciliation::Reconciled => "Reconciled"@,
    }
}

/// The name `names` gives `id`: the first entry under it.
pub open spec fn name_of(names: Seq<(AccountId, String)>, id: AccountId) -> Option<Seq<char>>
    decreases names.len(),
{
    if names.len() == 0 {
        None
    } else if names[0].0 == id {
        Some(names[0].1@)
    } else {
        name_of(names.drop_first(), id)
    }
}

/// The kind tag of an event's audit entry.
pub open spec fn audit_kind(event: Event) -> Seq<char> {
    match event {
        Event::TransactionCreated => "create"@,
        Event::TransactionAmended => "amend"@,
        Event::TransactionVoided => "void"@,
        Event::TransactionReversed => "reverse"@,
        Event::TransactionPayeeChanged { .. } => "payee"@,
        Event::TransactionDateChanged { .. } => "date"@,
        Event::TransactionExtraDatesChanged => "dates"@,
        Event::TransactionDescriptionChanged => "desc"@,
        Event::TransactionNoteChanged { .. } => "note"@,
        Event::TransactionTagsChanged { .. } => "tags"@,
        Event::TransactionReconciled { .. } => "reconcile"@,
        Event::PostingRecategorised { .. } => "recat"@,
        Event::PostingAmountChanged => "amount"@,
        Event::PostingNoteChanged => "note"@,
        Event::PostingSpreadChanged { .. } => "spread"@,
        Event::PostingAdded { .. } => "split"@,
        Event::PostingRemoved => "split"@,
        Event::TransactionSourceAttached { .. } => "import"@,
        Event::TransactionSourceDetached => "import"@,
        Event::Other { kind } => kind@,
    }
}

/// The text of a date as the interface shows it.
pub open spec fn date_text(d: Date) -> Seq<char> {
    shown_date(d)
}

/// The message of an event's audit entry, account names read from `names`.
pub open spec fn audit_message(event: Event, names: Seq<(AccountId, String)>) -> Seq<char> {
    match event {
        Event::TransactionCreated => "transaction created"@,
        Event::TransactionAmended => "transaction amended"@,
        Event::TransactionVoided => "transaction voided"@,
        Event::TransactionReversed => "transaction reversed"@,
        Event::TransactionPayeeChanged { to } => "payee \u{2192} "@ + (match to {
            Some(p) => p@,
            None => "(none)"@,
        }),
        Event::TransactionDateChanged { to } => "date \u{2192} "@ + date_text(to),
        Event::TransactionExtraDatesChanged => "extra dates changed"@,
        Event::TransactionDescriptionChanged => "description changed"@,
        Event::TransactionNoteChanged { to } => match to {
            Some(_) => "note changed"@,
            None => "note removed"@,
        },
        Event::TransactionTagsChanged { added, removed } => "tags +"@ + decimal_text(added@.len()) + " -"@
            + decimal_text(removed@.len()),
        Event::TransactionReconciled { from, to } => "reconciliation "@ + reconciliation_name(from) + " \u{2192} "@
            + reconciliation_name(to),
        Event::PostingRecategorised { to_account } => "recategorised \u{2192} "@ + decimal_text(to_account.0 as nat),
        Event::PostingAmountChanged => "amount changed"@,
        Event::PostingNoteChanged => "posting note changed"@,
        Event::PostingSpreadChanged { to } => match to {
            Some((from, until)) => "spread "@ + date_text(from) + ".."@ + date_text(until),
            None => "spread cleared"@,
        },
        Event::PostingAdded { account } => "+leg "@ + decimal_text(account.0 as nat),
        Event::PostingRemoved => "removed leg"@,
        Event::TransactionSourceAttached { account_id, narration } => "imported from "@ + (match name_of(names, account_id) {
            Some(n) => n,
            None => "unknown account"@,
        }) + ": "@ + narration@,
        Event::TransactionSourceDetached => "source removed"@,
        Event::Other { kind } => kind@,
    }
}

/// Looks up the name `names` gives `id`.
fn find_name(names: &Vec<(AccountId, String)>, id: AccountId) -> (r: Option<&String>)
    ensures
        match name_of(names@, id) {
            Some(n) => r matches Some(s) && s@ == n,
            None => r is None,
        },
{
    let mut i: usize = 0;
    proof {
        assert(names@.skip(0) =~= names@);
    }
    while i < names.len()
        invariant
            i <= names@.len(),
            name_of(names@, id) == name_of(names@.skip(i as int), id),
        decreases names@.len() - i,
    {
        proof {
            assert(names@.skip(i as int)[0] == names@[i as int]);
            assert(names@.skip(i as int).drop_first() =~= names@.skip(i + 1));
        }
        if names[i].0 == id {
            return Some(&names[i].1);
        }
        i = i + 1;
    }
    None
}

/// The name of a reconciliation state.
fn reconciliation_text(r: Reconciliation) -> (s: &'static str)
    ensures
        s@ == reconciliation_name(r),
{
    match r {
        Reconciliation::Unreconciled => "Unreconciled",
        Reconciliation::Flagged => "Flagged",
        Reconciliation::Reconciled => "Reconciled",
    }
}

/// The kind tag of an event.
fn kind_of(event: &Event) -> (r: String)
    ensures
        r@ == audit_kind(*event),
{
    match event {
        Event::TransactionCreated => String::from_str("create"),
        Event::TransactionAmended => String::from_str("amend"),
        Event::TransactionVoided => String::from_str("void"),
        Event::TransactionReversed => String::from_str("reverse"),
        Event::TransactionPayeeChanged { .. } => String::from_str("payee"),
        Event::TransactionDateChanged { .. } => String::from_str("date"),
        Event::TransactionExtraDatesChanged => String::from_str("dates"),
        Event::TransactionDescriptionChanged => String::from_str("desc"),
        Event::TransactionNoteChanged { .. } => String::from_str("note"),
        Event::TransactionTagsChanged { .. } => String::from_str("tags"),
        Event::TransactionReconciled { .. } => String::from_str("reconcile"),
        Event::PostingRecategorised { .. } => String::from_str("recat"),
        Event::PostingAmountChanged => String::from_str("amount"),
        Event::PostingNoteChanged => String::from_str("note"),
        Event::PostingSpreadChanged { .. } => String::from_str("spread"),
        Event::PostingAdded { .. } => String::from_str("split"),
        Event::PostingRemoved => String::from_str("split"),
        Event::TransactionSourceAttached { .. } => String::from_str("import"),
        Event::TransactionSourceDetached => String::from_str("import"),
        Event::Other { kind } => kind.clone(),
    }
}

/// `prefix` followed by `rest`.
fn joined(prefix: &str, rest: &str) -> (r: String)
    ensures
        r@ == prefix@ + rest@,
{
    let mut s = String::from_str(prefix);
    s.append(rest);
    s
}

/// The message of an event's audit entry.
fn message_of(event: &Event, names: &Vec<(AccountId, String)>) -> (r: String)
    ensures
        r@ == audit_message(*event, names@),
{
    match event {
        Event::TransactionCreated => String::from_str("transaction created"),
        Event::TransactionAmended => String::from_str("transaction amended"),
        Event::TransactionVoided => String::from_str("transaction voided"),
        Event::TransactionReversed => String::from_str("transaction reversed"),
        Event::TransactionPayeeChanged { to } => match to {
            Some(p) => joined("payee \u{2192} ", p.as_str()),
            None => joined("payee \u{2192} ", "(none)"),
        },
        Event::TransactionDateChanged { to } => {
            let d = date_string(to);
            joined("date \u{2192} ", d.as_str())
        },
        Event::TransactionExtraDatesChanged => String::from_str("extra dates changed"),
        Event::TransactionDescriptionChanged => String::from_str("description changed"),
        Event::TransactionNoteChanged { to } => match to {
            Some(_) => String::from_str("note changed"),
            None => String::from_str("note removed"),
        },
        Event::TransactionTagsChanged { added, removed } => {
            let a = u64_text(added.len() as u64);
            let r = u64_text(removed.len() as u64);
            let mut s = joined("tags +", a.as_str());
            s.append(" -");
            s.append(r.as_str());
            s
        },
        Event::TransactionReconciled { from, to } => {
            let mut s = joined("reconciliation ", reconciliation_text(*from));
            s.append(" \u{2192} ");
            s.append(reconciliation_text(*to));
            s
        },
        Event::PostingRecategorised { to_account } => {
            let t = u64_text(to_account.0);
            joined("recategorised \u{2192} ", t.as_str())
        },
        Event::PostingAmountChanged => String::from_str("amount changed"),
        Event::PostingNoteChanged => String::from_str("posting note changed"),
        Event::PostingSpreadChanged { to } => match to {
            Some((from, until)) => {
                let f = date_string(from);
                let u = date_string(until);
                let mut s = joined("spread ", f.as_str());
                s.append("..");
                s.append(u.as_str());
                s
            },
            None => String::from_str("spread cleared"),
        },
        Event::PostingAdded { account } => {
            let t = u64_text(account.0);
            joined("+leg ", t.as_str())
        },
        Event::PostingRemoved => String::from_str("removed leg"),
        Event::TransactionSourceAttached { account_id, narration } => {
            let mut s = match find_name(names, *account_id) {
                Some(n) => joined("imported from ", n.as_str()),
                None => joined("imported from ", "unknown account"),
            };
            s.append(": ");
            s.append(narration.as_str());
            s
        },
        Event::TransactionSourceDetached => String::from_str("source removed"),
        Event::Other { kind } => kind.clone(),
    }
}

/// Building an audit entry from a recorded event.
pub trait AuditEntryExt: Sized {
    /// Describes `event`, recorded at `ts`; account references render by the
    /// name `account_names` gives them, or as `unknown account`.
    fn from_event(ts: Timestamp, event: &Event, account_names: &Vec<(AccountId, String)>) -> Self;
}

impl AuditEntryExt for AuditEntry {
    fn from_event(ts: Timestamp, event: &Event, account_names: &Vec<(AccountId, String)>) -> (r: AuditEntry)
        ensures
            r.ts == ts,
            r.kind@ == audit_kind(*event),
            r.message@ == audit_message(*event, account_names@),
    {
        AuditEntry { ts, kind: kind_of(event), message: message_of(event, account_names) }
    }
}

} // verus!
