//! Import batch provenance: one record per import run, and the counts a
//! closed run reports.

use vstd::prelude::*;
use vstd::string::*;

use crate::error::{BcError, BcResult};
use crate::import_exec::sat;
use crate::metadata::Timestamp;
use crate::model::{ImportBatchId, ProfileId, decimal_text};

verus! {

/// The final tallies of one import run, as closing its batch records them.
#[derive(Debug, Clone, Copy, PartialEq, Eq, Structural)]
pub struct Counts {
    /// Transactions created by the run.
    pub new_transactions: usize,
    /// Postings attached to transactions an earlier run created.
    pub attached_postings: usize,
    /// Postings skipped because their account path named no existing account.
    pub unresolved_path_postings: usize,
    /// Postings skipped for any other reason.
    pub other_skipped_postings: usize,
}

impl Counts {
    /// Returns the total postings skipped, whatever the cause, saturating
    /// rather than overflowing.
    pub fn skipped(&self) -> (r: usize)
        ensures
            r == sat(self.unresolved_path_postings + self.other_skipped_postings),
    {
        self.unresolved_path_postings.saturating_add(self.other_skipped_postings)
    }
}

/// A record of one import run.
#[derive(Debug, Clone, PartialEq, Eq)]
pub struct ImportBatch {
    /// The run.
    pub id: ImportBatchId,
    /// The profile that drove it, if one did.
    pub profile_id: Option<ProfileId>,
    /// The importer it used.
    pub importer: String,
    /// When it started.
    pub started_at: Timestamp,
    /// When it completed, if it did.
    pub finished_at: Option<Timestamp>,
    /// When it was discarded, if it was.
    pub discarded_at: Option<Timestamp>,
    /// What it did, or `None` if it never completed: an aborted run leaves
    /// rows its counts would not account for.
    pub counts: Option<Counts>,
}

/// A count as a stored `i64`, or `None` when it does not fit.
pub open spec fn stored_count(n: usize) -> Option<i64> {
    if n <= i64::MAX { Some(n as i64) } else { None }
}

/// The columns closing a batch writes for `counts`, in column order, or the
/// refusal of a count that exceeds `i64`.
pub fn close_columns(counts: &Counts) -> (r: BcResult<(i64, i64, i64, i64)>)
    ensures
        match (
            stored_count(counts.new_transactions),
            stored_count(counts.attached_postings),
            stored_count(counts.unresolved_path_postings),
            stored_count(counts.other_skipped_postings),
        ) {
            (Some(a), Some(b), Some(c), Some(d)) => r == Ok::<(i64, i64, i64, i64), BcError>((a, b, c, d)),
            _ => r matches Err(BcError::BadData(m)) && m@ == "import count exceeds i64"@,
        },
{
    let a = to_i64(counts.new_transactions)?;
    let b = to_i64(counts.attached_postings)?;
    let c = to_i64(counts.unresolved_path_postings)?;
    let d = to_i64(counts.other_skipped_postings)?;
    Ok((a, b, c, d))
}

/// One count as a stored `i64`.
fn to_i64(n: usize) -> (r: BcResult<i64>)
    ensures
        match stored_count(n) {
            Some(v) => r == Ok::<i64, BcError>(v),
            None => r matches Err(BcError::BadData(m)) && m@ == "import count exceeds i64"@,
        },
{
    if n as u64 <= i64::MAX as u64 {
        Ok(n as i64)
    } else {
        Err(BcError::BadData(String::from_str("import count exceeds i64")))
    }
}

/// The value of the decimal digit `c`, if it is one.
pub open spec fn digit_value(c: char) -> Option<nat> {
    if '0' <= c && c <= '9' { Some((c as nat - '0' as nat) as nat) } else { None }
}

/// The number the decimal digits `s` spell, if `s` is a nonempty run of
/// digits.
pub open spec fn decimal_value(s: Seq<char>) -> Option<nat>
    decreases s.len(),
{
    if s.len() == 0 {
        None
    } else if s.len() == 1 {
        digit_value(s[0])
    } else {
        match (decimal_value(s.drop_last()), digit_value(s.last())) {
            (Some(v), Some(d)) => Some(v * 10 + d),
            _ => None,
        }
    }
}

/// The id an id's text names: its decimal digits, when they fit a `u64`.
pub open spec fn id_value(s: Seq<char>) -> Option<u64> {
    match decimal_value(s) {
        Some(v) => if v <= u64::MAX { Some(v as u64) } else { None },
        None => None,
    }
}

/// The text a number is written as reads back as that number.
pub proof fn lemma_decimal_text_reads_back(n: nat)
    ensures
        decimal_value(decimal_text(n)) == Some(n),
    decreases n,
{
    if n >= 10 {
        lemma_decimal_text_reads_back(n / 10);
        let t = decimal_text(n);
        assert(decimal_text(n / 10).len() >= 1) by {
            reveal_with_fuel(decimal_text, 2);
        }
        assert(t.drop_last() =~= decimal_text(n / 10));
        assert(t.last() == crate::model::digit_char(n % 10));
    }
}

/// Reads an id from its text.
pub fn parse_id(s: &str) -> (r: Option<u64>)
    ensures
        r == id_value(s@),
{
    let n = s.unicode_len();
    if n == 0 {
        return None;
    }
    let mut v: u64 = 0;
    let mut i: usize = 0;
    while i < n
        invariant
            n == s@.len(),
            0 < n,
            i <= n,
            i > 0 ==> decimal_value(s@.take(i as int)) == Some(v as nat),
            i == 0 ==> v == 0,
        decreases n - i,
    {
        let c = s.get_char(i);
        proof {
            assert(s@.take(i + 1).drop_last() =~= s@.take(i as int));
            assert(s@.take(i + 1).last() == c);
        }
        if c < '0' || c > '9' {
            proof {
                lemma_decimal_value_stays_none(s@, (i + 1) as nat);
            }
            return None;
        }
        let d = (c as u32 - '0' as u32) as u64;
        if v > (u64::MAX - d) / 10 {
            proof {
                lemma_decimal_value_grows(s@, (i + 1) as nat);
                assert(v * 10 + d > u64::MAX) by (nonlinear_arith)
                    requires v > (u64::MAX - d) / 10, d <= 9;
            }
            return None;
        }
        v = v * 10 + d;
        i = i + 1;
    }
    proof {
        assert(s@.take(n as int) =~= s@);
    }
    Some(v)
}

/// Once a prefix spells no number, no longer prefix does.
proof fn lemma_decimal_value_stays_none(s: Seq<char>, k: nat)
    requires
        1 <= k <= s.len(),
        decimal_value(s.take(k as int)) is None,
    ensures
        decimal_value(s) is None,
    decreases s.len() - k,
{
    if k < s.len() {
        assert(s.take(k as int + 1).drop_last() =~= s.take(k as int));
        lemma_decimal_value_stays_none(s, k + 1);
    } else {
        assert(s.take(k as int) =~= s);
    }
}

/// A longer run of digits spells at least as large a number.
proof fn lemma_decimal_value_grows(s: Seq<char>, k: nat)
    requires
        1 <= k <= s.len(),
        decimal_value(s.take(k as int)) is Some,
    ensures
        decimal_value(s) matches Some(v) ==> v >= decimal_value(s.take(k as int))->0,
    decreases s.len() - k,
{
    if k < s.len() {
        assert(s.take(k as int + 1).drop_last() =~= s.take(k as int));
        if decimal_value(s.take(k as int + 1)) is Some {
            lemma_decimal_value_grows(s, k + 1);
        } else {
            lemma_decimal_value_stays_none(s, k + 1);
        }
    } else {
        assert(s.take(k as int) =~= s);
    }
}

/// The message a malformed id is refused with.
pub open spec fn invalid_id_message(s: Seq<char>) -> Seq<char> {
    "invalid id '"@ + s + "'"@
}

/// Reads an id, refusing malformed text as bad data.
pub(crate) fn parse_id_or_bad(s: &String) -> (r: BcResult<u64>)
    ensures
        match id_value(s@) {
            Some(v) => r == Ok::<u64, BcError>(v),
            None => r matches Err(BcError::BadData(m)) && m@ == invalid_id_message(s@),
        },
{
    match parse_id(s.as_str()) {
        Some(v) => Ok(v),
        None => {
            let mut m = String::from_str("invalid id '");
            m.append(s.as_str());
            m.append("'");
            Err(BcError::BadData(m))
        },
    }
}

/// What `jiff::Timestamp`'s `FromStr` yields for `text`: the instant's
/// seconds and nanoseconds, or the error's message.
pub uninterp spec fn timestamp_from_text(text: Seq<char>) -> Result<(i64, i32), Seq<char>>;

/// Parses an RFC 3339 instant through `jiff::Timestamp`'s `FromStr`.
///
/// Trusted: claims the result is [`timestamp_from_text`] of the text: the
/// parsed instant's seconds and nanoseconds, or the parse error's message.
#[verifier::external_body]
pub fn parse_timestamp(text: &str) -> (r: Result<Timestamp, String>)
    ensures
        match timestamp_from_text(text@) {
            Ok((s, n)) => r == Ok::<Timestamp, String>(Timestamp { seconds: s, nanos: n }),
            Err(m) => r matches Err(e) && e@ == m,
        },
{
    match text.parse::<jiff::Timestamp>() {
        Ok(t) => Ok(Timestamp { seconds: t.as_second(), nanos: t.subsec_nanosecond() }),
        Err(e) => Err(e.to_string()),
    }
}

/// Parses a stored instant, refusing malformed text as bad data.
pub(crate) fn parse_ts(text: &String) -> (r: BcResult<Timestamp>)
    ensures
        match timestamp_from_text(text@) {
            Ok((s, n)) => r == Ok::<Timestamp, BcError>(Timestamp { seconds: s, nanos: n }),
            Err(m) => r matches Err(BcError::BadData(e)) && e@ == m,
        },
{
    match parse_timestamp(text.as_str()) {
        Ok(t) => Ok(t),
        Err(e) => Err(BcError::BadData(e)),
    }
}

/// A stored count as a `usize`, or `None` when it is negative (or does not
/// fit).
pub open spec fn count_value(v: i64) -> Option<usize> {
    if 0 <= v <= usize::MAX { Some(v as usize) } else { None }
}

/// One stored count, refusing a negative one.
fn count_from(v: i64) -> (r: BcResult<usize>)
    ensures
        match count_value(v) {
            Some(n) => r == Ok::<usize, BcError>(n),
            None => r matches Err(BcError::BadData(m)) && m@ == "import count is negative"@,
        },
{
    if v < 0 || v as u64 > usize::MAX as u64 {
        Err(BcError::BadData(String::from_str("import count is negative")))
    } else {
        Ok(v as usize)
    }
}

/// The raw `import_batches` row, in `SELECT` column order: id, profile id,
/// importer, start, finish, discard, and the four counts.
pub type Row = (
    String,
    Option<String>,
    String,
    String,
    Option<String>,
    Option<String>,
    Option<i64>,
    Option<i64>,
    Option<i64>,
    Option<i64>,
);

/// What decoding the four stored counts yields: all present and readable,
/// all absent (no outcome), or a refusal.
pub open spec fn counts_of(a: Option<i64>, b: Option<i64>, c: Option<i64>, d: Option<i64>) -> Option<Option<Counts>> {
    match (a, b, c, d) {
        (Some(a), Some(b), Some(c), Some(d)) => match (count_value(a), count_value(b), count_value(c), count_value(d)) {
            (Some(a), Some(b), Some(c), Some(d)) => Some(
                Some(
                    Counts {
                        new_transactions: a,
                        attached_postings: b,
                        unresolved_path_postings: c,
                        other_skipped_postings: d,
                    },
                ),
            ),
            _ => None,
        },
        (None, None, None, None) => Some(None),
        _ => None,
    }
}

/// Whether the timestamps of a row all read.
pub open spec fn stamps_read(started: Seq<char>, finished: Option<String>, discarded: Option<String>) -> bool {
    &&& timestamp_from_text(started) is Ok
    &&& finished matches Some(f) ==> timestamp_from_text(f@) is Ok
    &&& discarded matches Some(d) ==> timestamp_from_text(d@) is Ok
}

/// Whether all four counts are stored.
pub open spec fn all_present(a: Option<i64>, b: Option<i64>, c: Option<i64>, d: Option<i64>) -> bool {
    a is Some && b is Some && c is Some && d is Some
}

/// Whether none of the four counts is stored.
pub open spec fn all_absent(a: Option<i64>, b: Option<i64>, c: Option<i64>, d: Option<i64>) -> bool {
    a is None && b is None && c is None && d is None
}

/// Whether a row's ids and timestamps all read.
pub open spec fn header_reads(row: Row) -> bool {
    &&& id_value(row.0@) is Some
    &&& row.1 matches Some(p) ==> id_value(p@) is Some
    &&& stamps_read(row.3@, row.4, row.5)
}

/// The instant a row's timestamp text names.
pub open spec fn stamp(text: Seq<char>) -> Timestamp {
    Timestamp { seconds: timestamp_from_text(text)->Ok_0.0, nanos: timestamp_from_text(text)->Ok_0.1 }
}

/// Parses a raw `import_batches` row into an [`ImportBatch`]. Malformed ids
/// or timestamps, a negative count, and a partly recorded outcome are
/// refused as bad data.
pub fn parse_row(row: Row) -> (r: BcResult<ImportBatch>)
    ensures
        r is Ok <==> header_reads(row) && counts_of(row.6, row.7, row.8, row.9) is Some,
        r matches Ok(b) ==> {
            &&& b.id == ImportBatchId(id_value(row.0@)->0)
            &&& b.profile_id == match row.1 {
                Some(p) => Some(ProfileId(id_value(p@)->0)),
                None => None,
            }
            &&& b.importer == row.2
            &&& b.started_at == stamp(row.3@)
            &&& b.finished_at == match row.4 {
                Some(f) => Some(stamp(f@)),
                None => None,
            }
            &&& b.discarded_at == match row.5 {
                Some(d) => Some(stamp(d@)),
                None => None,
            }
            &&& b.counts == counts_of(row.6, row.7, row.8, row.9)->0
        },
        r matches Err(e) ==> e is BadData,
        header_reads(row) && all_present(row.6, row.7, row.8, row.9) && counts_of(row.6, row.7, row.8, row.9) is None
            ==> (r matches Err(BcError::BadData(m)) && m@ == "import count is negative"@),
        header_reads(row) && !all_present(row.6, row.7, row.8, row.9) && !all_absent(row.6, row.7, row.8, row.9)
            ==> (r matches Err(BcError::BadData(m)) && m@ == "import batch "@ + decimal_text(id_value(row.0@)->0 as nat)
                + " has a partly recorded outcome"@),
{
    let (raw_id, raw_profile_id, importer, raw_started_at, raw_finished_at, raw_discarded_at, a, b, c, d) = row;
    let id = ImportBatchId(parse_id_or_bad(&raw_id)?);
    let profile_id = match &raw_profile_id {
        Some(p) => Some(ProfileId(parse_id_or_bad(p)?)),
        None => None,
    };
    let started_at = parse_ts(&raw_started_at)?;
    let finished_at = match &raw_finished_at {
        Some(f) => Some(parse_ts(f)?),
        None => None,
    };
    let discarded_at = match &raw_discarded_at {
        Some(x) => Some(parse_ts(x)?),
        None => None,
    };
    let counts = match (a, b, c, d) {
        (Some(a), Some(b), Some(c), Some(d)) => Some(
            Counts {
                new_transactions: count_from(a)?,
                attached_postings: count_from(b)?,
                unresolved_path_postings: count_from(c)?,
                other_skipped_postings: count_from(d)?,
            },
        ),
        (None, None, None, None) => None,
        _ => {
            let mut m = String::from_str("import batch ");
            let t = crate::model::u64_text(id.0);
            m.append(t.as_str());
            m.append(" has a partly recorded outcome");
            return Err(BcError::BadData(m));
        },
    };
    Ok(ImportBatch { id, profile_id, importer, started_at, finished_at, discarded_at, counts })
}

} // verus!
