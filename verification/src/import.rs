//! The import pipeline's input: raw transactions as a format-specific parser
//! produced them, before any account or commodity is resolved, and the errors
//! a parser reports.

use vstd::prelude::*;
use vstd::string::*;

use crate::metadata::{MetaKey, MetaValue};
use crate::model::{Amount, Date};

verus! {

/// A metadata value as an importer states it: either already typed, or an
/// account path still to be bound to an account.
#[derive(Debug, Clone, PartialEq, Eq)]
pub enum RawMetaValue {
    /// A value that needs no resolution.
    Resolved(MetaValue),
    /// An account path, bound during import.
    AccountPath(String),
}

/// One metadata entry as an importer states it.
#[derive(Debug, Clone, PartialEq, Eq)]
pub struct RawMetaEntry {
    /// The key.
    pub key: MetaKey,
    /// The value.
    pub value: RawMetaValue,
}

/// A single posting leg of a raw transaction, prior to account-id resolution.
#[derive(Debug, Clone, PartialEq, Eq)]
pub struct RawPosting {
    /// Account path this leg credits/debits, e.g. `"Assets:Bank:Checking"`.
    pub account: String,
    /// Leg amount. `None` means elided — the residual that balances the transaction.
    pub amount: Option<Amount>,
    /// Per-account running balance after this leg, if the source reports it.
    pub balance: Option<Amount>,
    /// Optional free-text note for this leg.
    pub note: Option<String>,
    /// Tag names applied to this leg.
    pub tags: Vec<String>,
    /// Metadata stated for this leg.
    pub metadata: Vec<RawMetaEntry>,
}

/// Where a [`RawTransaction`] came from, for diagnostics.
#[derive(Debug, Clone, PartialEq, Eq)]
pub struct SourceLocation {
    /// Human-readable location, e.g. `"statements/june.csv row 14"`.
    pub display: String,
    /// Optional machine-addressable form, e.g. `"file:///june.csv#row=14"`.
    pub uri: Option<String>,
}

/// A parsed transaction prior to account binding.
#[derive(Debug, Clone, PartialEq, Eq)]
pub struct RawTransaction {
    /// The transaction date.
    pub date: Date,
    /// The payee or merchant name, if available.
    pub payee: Option<String>,
    /// A free-text description or memo for the transaction.
    pub description: String,
    /// Optional user annotation, distinct from `description`.
    pub note: Option<String>,
    /// An institution-provided reference or check number, if available.
    pub reference: Option<String>,
    /// Transaction-level tag names.
    pub tags: Vec<String>,
    /// Free-form labelled dates.
    pub extra_dates: Vec<(String, Date)>,
    /// Where this transaction came from, if the importer reported it.
    pub source_location: Option<SourceLocation>,
    /// One or more posting legs.
    pub postings: Vec<RawPosting>,
    /// Metadata stated for the transaction.
    pub metadata: Vec<RawMetaEntry>,
}

impl RawPosting {
    /// A leg on `account` with the given amount and nothing else stated.
    pub fn new(account: &str, amount: Option<Amount>) -> (r: RawPosting)
        ensures
            r.account@ == account@,
            r.amount == amount,
            r.balance is None,
            r.note is None,
            r.tags@.len() == 0,
            r.metadata@.len() == 0,
    {
        RawPosting {
            account: String::from_str(account),
            amount,
            balance: None,
            note: None,
            tags: Vec::new(),
            metadata: Vec::new(),
        }
    }
}

impl RawTransaction {
    /// A transaction on `date` described by `description`, holding `postings`
    /// and nothing else stated.
    pub fn new(date: Date, description: &str, postings: Vec<RawPosting>) -> (r: RawTransaction)
        ensures
            r.date == date,
            r.description@ == description@,
            r.postings@ == postings@,
            r.payee is None,
            r.note is None,
            r.reference is None,
            r.tags@.len() == 0,
            r.extra_dates@.len() == 0,
            r.source_location is None,
            r.metadata@.len() == 0,
    {
        RawTransaction {
            date,
            payee: None,
            description: String::from_str(description),
            note: None,
            reference: None,
            tags: Vec::new(),
            extra_dates: Vec::new(),
            source_location: None,
            postings,
            metadata: Vec::new(),
        }
    }
}

/// Errors produced during an import operation.
#[derive(Debug, Clone, PartialEq, Eq)]
pub enum ImportError {
    /// The supplied configuration could not be deserialised; carries the
    /// deserialiser's message.
    InvalidConfig(String),
    /// A parse error with a human-readable message.
    Parse(String),
    /// A required field was absent in the input.
    MissingField(String),
    /// A field contained an unexpected or out-of-range value.
    BadValue {
        /// The name of the field that contained the bad value.
        field: String,
        /// A human-readable explanation of why the value was rejected.
        detail: String,
    },
}

/// The message an [`ImportError`] renders as.
pub open spec fn import_error_message(e: ImportError) -> Seq<char> {
    match e {
        ImportError::InvalidConfig(m) => "invalid import configuration: "@ + m@,
        ImportError::Parse(m) => "parse error: "@ + m@,
        ImportError::MissingField(m) => "missing required field: "@ + m@,
        ImportError::BadValue { field, detail } => "bad value for field '"@ + field@ + "': "@ + detail@,
    }
}

impl ImportError {
    /// Renders the error's message.
    pub fn to_string(&self) -> (r: String)
        ensures
            r@ == import_error_message(*self),
    {
        match self {
            ImportError::InvalidConfig(m) => {
                let mut out = String::from_str("invalid import configuration: ");
                out.append(m.as_str());
                out
            },
            ImportError::Parse(m) => {
                let mut out = String::from_str("parse error: ");
                out.append(m.as_str());
                out
            },
            ImportError::MissingField(m) => {
                let mut out = String::from_str("missing required field: ");
                out.append(m.as_str());
                out
            },
            ImportError::BadValue { field, detail } => {
                let mut out = String::from_str("bad value for field '");
                out.append(field.as_str());
                out.append("': ");
                out.append(detail.as_str());
                out
            },
        }
    }
}

} // verus!
