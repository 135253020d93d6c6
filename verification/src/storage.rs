//! How metadata entries are laid out in their tables: the columns a value is
//! stored under, whether an entry is written flagged, where it stands in its
//! owner's list, and the walk that names an account value by its path.

use vstd::prelude::*;
use vstd::string::*;

use crate::coerce::{canonical, canonical_text};
use crate::error::{BcError, BcResult};
use crate::metadata::{MetaEntry, MetaType, MetaValue};
use crate::model::{decimal_text, u64_text, AccountId};
use crate::text::{join_reversed, join_with, texts};

verus! {

/// The text columns a metadata value is stored under. The numeric shadow a
/// number or an amount also gets, for sorting, is a float the caller derives
/// from the value.
#[derive(Debug, Clone, PartialEq, Eq)]
pub struct ValueColumns {
    /// The value's canonical string; an account's path where it resolves.
    pub text: String,
    /// The commodity code; set for amounts only.
    pub commodity: Option<String>,
    /// The referenced account's id; set for account values only.
    pub account: Option<String>,
}

/// Whether `columns` hold only `text`.
pub open spec fn only_text(columns: ValueColumns, text: Seq<char>) -> bool {
    columns.text@ == text && columns.commodity is None && columns.account is None
}

impl ValueColumns {
    /// The columns of a value stored as flagged text: its canonical string
    /// alone, so that it is indexed under no type the key is not.
    pub fn flagged(value: &MetaValue) -> (r: ValueColumns)
        requires
            value.wf(),
        ensures
            only_text(r, canonical(*value)),
    {
        ValueColumns { text: canonical_text(value), commodity: None, account: None }
    }
}

/// The columns of a value that fits its key. An account value stores its
/// path, `path` as looked up, in the text column and its id beside it; an
/// account that did not resolve stores its id in both.
pub fn value_columns(value: &MetaValue, path: Option<String>) -> (r: ValueColumns)
    requires
        value.wf(),
    ensures
        match *value {
            MetaValue::Amount(a) => {
                &&& r.text@ == canonical(*value)
                &&& r.account is None
                &&& r.commodity matches Some(c) && c@ == a.commodity@
            },
            MetaValue::Account(id) => {
                &&& r.commodity is None
                &&& r.account matches Some(i) && i@ == decimal_text(id.0 as nat)
                &&& r.text@ == match path {
                    Some(p) => p@,
                    None => canonical(*value),
                }
            },
            _ => only_text(r, canonical(*value)),
        },
{
    match value {
        MetaValue::Amount(a) => ValueColumns {
            text: canonical_text(value),
            commodity: Some(a.commodity.0.clone()),
            account: None,
        },
        MetaValue::Account(id) => {
            let text = match path {
                Some(p) => p,
                None => canonical_text(value),
            };
            ValueColumns { text, commodity: None, account: Some(u64_text(id.0)) }
        },
        _ => ValueColumns::flagged(value),
    }
}

/// Whether an entry is written flagged: flagged already, or its value's type
/// is not the one its key is registered with.
pub fn written_mismatched(entry: &MetaEntry, registered: MetaType) -> (r: bool)
    ensures
        r == (entry.mismatched || entry.value.spec_ty() != registered),
{
    entry.mismatched || entry.value.ty() != registered
}

/// The stored position of the entry at `index` of its owner's list.
pub fn entry_position(index: usize) -> (r: BcResult<i64>)
    ensures
        index <= i64::MAX ==> r == Ok::<i64, BcError>(index as i64),
        index > i64::MAX ==> (r matches Err(BcError::BadData(m)) && m@ == "metadata position exceeds i64::MAX"@),
{
    if index as u64 > 9223372036854775807u64 {
        return Err(BcError::BadData(String::from_str("metadata position exceeds i64::MAX")));
    }
    Ok(index as i64)
}

/// How many accounts a path walk reads before it gives up on the tree as
/// cyclic or too deep.
pub const MAX_DEPTH: u16 = 64;

/// Where a path walk goes after reading one account.
#[derive(Debug, Clone, PartialEq, Eq)]
pub enum WalkStep {
    /// Read the account with this id next: the parent of the one read.
    Read(String),
    /// The walk reached a root; this is the path, root first, `:` between
    /// names.
    Found(String),
    /// No account carries the id read.
    Missing,
}

/// The walk from an account up to its root, reading one account at a time.
#[derive(Debug)]
pub struct PathWalk {
    /// The account the walk names.
    account: AccountId,
    /// The names read so far, the account's own first.
    names: Vec<String>,
}

/// The message a walk that does not reach a root within [`MAX_DEPTH`] reads
/// fails with.
pub open spec fn too_deep_message(account: AccountId) -> Seq<char> {
    "account "@ + decimal_text(account.0 as nat) + " sits in a parent cycle or a tree deeper than 64 levels"@
}

impl PathWalk {
    /// The account the walk names.
    pub closed spec fn spec_account(&self) -> AccountId {
        self.account
    }

    /// The names read so far, the account's own first.
    pub closed spec fn spec_names(&self) -> Seq<Seq<char>> {
        texts(self.names@)
    }

    /// Starts the walk at `account`, returning it and the id to read first.
    pub fn start(account: AccountId) -> (r: (PathWalk, String))
        ensures
            r.0.spec_account() == account,
            r.0.spec_names() == Seq::<Seq<char>>::empty(),
            r.1@ == decimal_text(account.0 as nat),
    {
        let walk = PathWalk { account, names: Vec::new() };
        proof {
            assert(texts(walk.names@) =~= Seq::<Seq<char>>::empty());
        }
        (walk, u64_text(account.0))
    }

    /// Takes in what reading the current id gave: its name and parent id, or
    /// nothing. A root ends the walk with the path; a parent is read next,
    /// unless [`MAX_DEPTH`] accounts have been read already.
    pub fn step(&mut self, row: Option<(String, Option<String>)>) -> (r: BcResult<WalkStep>)
        requires
            old(self).spec_names().len() < MAX_DEPTH,
        ensures
            final(self).spec_account() == old(self).spec_account(),
            match row {
                None => r == Ok::<WalkStep, BcError>(WalkStep::Missing),
                Some((name, parent)) => {
                    let names = old(self).spec_names().push(name@);
                    &&& final(self).spec_names() == names
                    &&& match parent {
                        None => r matches Ok(WalkStep::Found(p)) && p@ == join_with(names.reverse(), ":"@),
                        Some(next) => if names.len() < MAX_DEPTH {
                            r matches Ok(WalkStep::Read(id)) && id@ == next@
                        } else {
                            r matches Err(BcError::BadData(m)) && m@ == too_deep_message(old(self).spec_account())
                        },
                    }
                },
            },
    {
        let (name, parent) = match row {
            None => {
                return Ok(WalkStep::Missing);
            },
            Some(x) => x,
        };
        let ghost before = self.names@;
        self.names.push(name);
        proof {
            assert(texts(self.names@) =~= texts(before).push(self.names@.last()@));
        }
        match parent {
            None => Ok(WalkStep::Found(join_reversed(&self.names, ":"))),
            Some(next) => {
                if self.names.len() < 64 {
                    Ok(WalkStep::Read(next))
                } else {
                    let mut m = String::from_str("account ");
                    let id = u64_text(self.account.0);
                    m.append(id.as_str());
                    m.append(" sits in a parent cycle or a tree deeper than 64 levels");
                    Err(BcError::BadData(m))
                }
            },
        }
    }
}

} // verus!
