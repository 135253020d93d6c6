//! Loan terms and their amortization schedule: which terms are accepted, how
//! many payments a term makes, how much the offset accounts shelter, and how
//! each payment splits between interest and principal.

use vstd::prelude::*;
use vstd::string::*;

use crate::decimal::{
    Dec, checked_div, checked_mul, checked_add, checked_sub, decimal_as_u32, decimal_difference, decimal_product,
    decimal_quotient, decimal_rounded, decimal_sum, less_than, round_dp, saturating_add, to_u32, value_less,
};
use crate::batch::{id_value, invalid_id_message, lemma_decimal_text_reads_back, parse_id_or_bad, parse_timestamp, timestamp_from_text};
use crate::coerce::{
    date_from_text, date_string, decimal_display, decimal_from_text, display_decimal, parse_date, parse_decimal,
    shown_date, shown_timestamp, timestamp_string,
};
use crate::error::{BcError, BcResult};
use crate::metadata::Timestamp;
use crate::model::{AccountId, Date, decimal_text, u64_text};

verus! {

/// How often a loan is repaid.
#[derive(Debug, Clone, Copy, PartialEq, Eq, Structural)]
pub enum Period {
    /// Every week.
    Weekly,
    /// Every second week.
    Fortnightly,
    /// Every month.
    Monthly,
    /// Every calendar quarter.
    Quarterly,
    /// Every quarter of the financial year.
    FinancialQuarter,
    /// Every financial year.
    FinancialYear,
    /// Every calendar year.
    CalendarYear,
    /// Every so many days, weeks and months.
    Custom { days: Option<u32>, weeks: Option<u32>, months: Option<u32> },
}

/// How interest accrues between payments.
#[derive(Debug, Clone, Copy, PartialEq, Eq, Structural)]
pub enum CompoundingFrequency {
    /// Daily: the annual rate over 365 days, times the days in the period.
    Daily,
    /// Per period: the annual rate over the periods in a year.
    Monthly,
}

/// Identifies one set of loan terms.
#[derive(Debug, Clone, Copy, PartialEq, Eq, Structural)]
pub struct LoanId(pub u64);

/// The terms of a loan held in a receivable account.
#[derive(Debug)]
pub struct LoanTerms {
    /// The terms' record.
    pub id: LoanId,
    /// The receivable account the loan is held in.
    pub account_id: AccountId,
    /// The amount lent.
    pub principal: Dec,
    /// The annual interest rate, e.g. `0.065`.
    pub annual_rate: Dec,
    /// When the loan starts.
    pub start_date: Date,
    /// The term, in months.
    pub term_months: u32,
    /// How often it is repaid.
    pub repayment_frequency: Period,
    /// How interest accrues.
    pub compounding_frequency: CompoundingFrequency,
    /// Accounts whose balances offset the balance interest is charged on.
    pub offset_account_ids: Vec<AccountId>,
    /// The loan's commodity code.
    pub commodity: String,
    /// When the terms were recorded.
    pub created_at: Timestamp,
}

/// One payment of an amortization schedule.
#[derive(Debug, Clone, Copy, PartialEq, Eq, Structural)]
pub struct AmortizationRow {
    /// The payment's number, from one.
    pub payment_number: u32,
    /// When it falls due.
    pub date: Date,
    /// Interest plus principal.
    pub total_payment: Dec,
    /// The share that repays principal.
    pub principal: Dec,
    /// The share that pays interest.
    pub interest: Dec,
    /// The balance once it is paid.
    pub remaining_balance: Dec,
}

/// One stored record of loan terms, its columns as the database holds them.
#[derive(Debug, Clone, PartialEq, Eq)]
pub struct LoanTermsRow {
    /// The record's id.
    pub id: String,
    /// The principal, as decimal text.
    pub principal: String,
    /// The annual rate, as decimal text.
    pub interest_rate: String,
    /// The start date, as ISO 8601 text.
    pub start_date: String,
    /// The term in months; negative only in a corrupt store.
    pub term_months: i64,
    /// The commodity code.
    pub commodity: String,
    /// When the terms were recorded, as RFC 3339 text.
    pub created_at: String,
}

/// The message an integer conversion out of the target type's range fails
/// with.
pub open spec fn out_of_range_text() -> Seq<char> {
    "out of range integral type conversion attempted"@
}

/// The first failure reading the row's own columns up to its term, in the
/// order they are read: the id, the principal, the rate, the start date and
/// the term.
pub open spec fn leading_failure(row: LoanTermsRow) -> Option<Seq<char>> {
    if id_value(row.id@) is None {
        Some(invalid_id_message(row.id@))
    } else if let Err(e) = decimal_from_text(row.principal@) {
        Some("invalid principal: "@ + e)
    } else if let Err(e) = decimal_from_text(row.interest_rate@) {
        Some("invalid interest_rate: "@ + e)
    } else if let Err(e) = date_from_text(row.start_date@) {
        Some("invalid start_date: "@ + e)
    } else if !(0 <= row.term_months <= u32::MAX) {
        Some("invalid term_months: "@ + out_of_range_text())
    } else {
        None
    }
}

/// The first offset account id that does not read as an id.
pub open spec fn first_bad_id(ids: Seq<String>) -> Option<Seq<char>>
    decreases ids.len(),
{
    if ids.len() == 0 {
        None
    } else if id_value(ids[0]@) is None {
        Some(invalid_id_message(ids[0]@))
    } else {
        first_bad_id(ids.drop_first())
    }
}

/// The failure reading what follows the frequencies: the recording instant,
/// then the offset account ids.
pub open spec fn trailing_failure(row: LoanTermsRow, offsets: Seq<String>) -> Option<Seq<char>> {
    if let Err(e) = timestamp_from_text(row.created_at@) {
        Some("invalid created_at: "@ + e)
    } else {
        first_bad_id(offsets)
    }
}

/// Whether `terms` are what `row` reads as, for `account_id`, with the two
/// frequencies and the offset accounts given.
pub open spec fn terms_read(
    terms: LoanTerms,
    account_id: AccountId,
    row: LoanTermsRow,
    repayment: Period,
    compounding: CompoundingFrequency,
    offsets: Seq<String>,
) -> bool {
    &&& id_value(row.id@) == Some(terms.id.0)
    &&& terms.account_id == account_id
    &&& decimal_from_text(row.principal@) == Ok::<(i128, u32), Seq<char>>((terms.principal.mantissa, terms.principal.scale))
    &&& decimal_from_text(row.interest_rate@) == Ok::<(i128, u32), Seq<char>>((terms.annual_rate.mantissa, terms.annual_rate.scale))
    &&& date_from_text(row.start_date@) == Ok::<(i16, i8, i8), Seq<char>>((terms.start_date.year, terms.start_date.month, terms.start_date.day))
    &&& terms.term_months == row.term_months
    &&& terms.repayment_frequency == repayment
    &&& terms.compounding_frequency == compounding
    &&& timestamp_from_text(row.created_at@) == Ok::<(i64, i32), Seq<char>>((terms.created_at.seconds, terms.created_at.nanos))
    &&& terms.offset_account_ids@.len() == offsets.len()
    &&& forall|i: int| 0 <= i < offsets.len() ==> id_value(offsets[i]@) == Some((#[trigger] terms.offset_account_ids@[i]).0)
    &&& terms.commodity@ == row.commodity@
    &&& terms.principal.wf() && terms.annual_rate.wf()
}

/// Reads the offset account ids, refusing the first that is malformed.
fn read_offset_ids(ids: &Vec<String>) -> (r: BcResult<Vec<AccountId>>)
    ensures
        match first_bad_id(ids@) {
            Some(m) => r matches Err(BcError::BadData(e)) && e@ == m,
            None => r matches Ok(v) && v@.len() == ids@.len() && forall|i: int|
                0 <= i < ids@.len() ==> id_value(ids@[i]@) == Some((#[trigger] v@[i]).0),
        },
{
    let mut out: Vec<AccountId> = Vec::new();
    let mut i: usize = 0;
    proof {
        assert(ids@.skip(0) =~= ids@);
    }
    while i < ids.len()
        invariant
            i <= ids@.len(),
            out@.len() == i,
            first_bad_id(ids@) == first_bad_id(ids@.skip(i as int)),
            forall|j: int| 0 <= j < i ==> id_value(ids@[j]@) == Some((#[trigger] out@[j]).0),
        decreases ids@.len() - i,
    {
        proof {
            assert(ids@.skip(i as int)[0] == ids@[i as int]);
            assert(ids@.skip(i as int).drop_first() =~= ids@.skip(i + 1));
        }
        let v = parse_id_or_bad(&ids[i])?;
        out.push(AccountId(v));
        i = i + 1;
    }
    proof {
        assert(ids@.skip(ids@.len() as int) =~= Seq::<String>::empty());
    }
    Ok(out)
}

/// Reads stored loan terms for `account_id` from their row, the repayment and
/// compounding frequencies as decoding their columns gave them, and the
/// offset account ids. A malformed column is bad data, named with the
/// parser's message; the columns are read in order and the first failure
/// wins, a frequency's own failure passed on as it came.
pub fn terms_from_row(
    account_id: AccountId,
    row: LoanTermsRow,
    repayment: BcResult<Period>,
    compounding: BcResult<CompoundingFrequency>,
    offsets: &Vec<String>,
) -> (r: BcResult<LoanTerms>)
    ensures
        match leading_failure(row) {
            Some(m) => r matches Err(BcError::BadData(e)) && e@ == m,
            None => match repayment {
                Err(e) => r == Err::<LoanTerms, BcError>(e),
                Ok(p) => match compounding {
                    Err(e) => r == Err::<LoanTerms, BcError>(e),
                    Ok(c) => match trailing_failure(row, offsets@) {
                        Some(m) => r matches Err(BcError::BadData(e)) && e@ == m,
                        None => r matches Ok(t) && terms_read(t, account_id, row, p, c, offsets@),
                    },
                },
            },
        },
{
    let id = parse_id_or_bad(&row.id)?;
    let principal = match parse_decimal(row.principal.as_str()) {
        Ok(d) => d,
        Err(e) => {
            let mut m = String::from_str("invalid principal: ");
            m.append(e.as_str());
            return Err(BcError::BadData(m));
        },
    };
    let annual_rate = match parse_decimal(row.interest_rate.as_str()) {
        Ok(d) => d,
        Err(e) => {
            let mut m = String::from_str("invalid interest_rate: ");
            m.append(e.as_str());
            return Err(BcError::BadData(m));
        },
    };
    let start_date = match parse_date(row.start_date.as_str()) {
        Ok(d) => d,
        Err(e) => {
            let mut m = String::from_str("invalid start_date: ");
            m.append(e.as_str());
            return Err(BcError::BadData(m));
        },
    };
    if row.term_months < 0 || row.term_months > 4294967295 {
        let mut m = String::from_str("invalid term_months: ");
        m.append("out of range integral type conversion attempted");
        return Err(BcError::BadData(m));
    }
    let term_months = row.term_months as u32;
    let repayment_frequency = repayment?;
    let compounding_frequency = compounding?;
    let created_at = match parse_timestamp(row.created_at.as_str()) {
        Ok(t) => t,
        Err(e) => {
            let mut m = String::from_str("invalid created_at: ");
            m.append(e.as_str());
            return Err(BcError::BadData(m));
        },
    };
    let offset_account_ids = read_offset_ids(offsets)?;
    Ok(LoanTerms {
        id: LoanId(id),
        account_id,
        principal,
        annual_rate,
        start_date,
        term_months,
        repayment_frequency,
        compounding_frequency,
        offset_account_ids,
        commodity: row.commodity,
        created_at,
    })
}

/// The row recording `terms`, as set at `recorded_at`: each column the text
/// its value displays as, the term as a stored integer.
pub fn stored_row(terms: &LoanTerms, recorded_at: &Timestamp) -> (r: LoanTermsRow)
    requires
        terms.principal.wf(),
        terms.annual_rate.wf(),
    ensures
        r.id@ == decimal_text(terms.id.0 as nat),
        r.principal@ == decimal_display(terms.principal.mantissa, terms.principal.scale),
        r.interest_rate@ == decimal_display(terms.annual_rate.mantissa, terms.annual_rate.scale),
        r.start_date@ == shown_date(terms.start_date),
        r.term_months == terms.term_months,
        r.commodity@ == terms.commodity@,
        r.created_at@ == shown_timestamp(*recorded_at),
{
    LoanTermsRow {
        id: u64_text(terms.id.0),
        principal: display_decimal(&terms.principal),
        interest_rate: display_decimal(&terms.annual_rate),
        start_date: date_string(&terms.start_date),
        term_months: terms.term_months as i64,
        commodity: terms.commodity.clone(),
        created_at: timestamp_string(recorded_at),
    }
}

/// Stored loan terms read back as the terms stored: the row [`stored_row`]
/// writes, read by [`terms_from_row`] with the terms' own frequencies and
/// offset account ids, fails nowhere and gives back every field, the
/// recording instant as the creation time, wherever each decimal, date and
/// instant the row holds as text parses back as the value it was displayed
/// from.
pub proof fn lemma_stored_terms_read_back(
    terms: LoanTerms,
    recorded_at: Timestamp,
    row: LoanTermsRow,
    offsets: Seq<String>,
    read: LoanTerms,
)
    requires
        row.id@ == decimal_text(terms.id.0 as nat),
        row.principal@ == decimal_display(terms.principal.mantissa, terms.principal.scale),
        row.interest_rate@ == decimal_display(terms.annual_rate.mantissa, terms.annual_rate.scale),
        row.start_date@ == shown_date(terms.start_date),
        row.term_months == terms.term_months,
        row.commodity@ == terms.commodity@,
        row.created_at@ == shown_timestamp(recorded_at),
        offsets.len() == terms.offset_account_ids@.len(),
        forall|i: int| 0 <= i < offsets.len() ==> (#[trigger] offsets[i])@ == decimal_text(terms.offset_account_ids@[i].0 as nat),
    ensures
        ({
            let round_trips = {
                &&& decimal_from_text(row.principal@) == Ok::<(i128, u32), Seq<char>>((terms.principal.mantissa, terms.principal.scale))
                &&& decimal_from_text(row.interest_rate@) == Ok::<(i128, u32), Seq<char>>((terms.annual_rate.mantissa, terms.annual_rate.scale))
                &&& date_from_text(row.start_date@) == Ok::<(i16, i8, i8), Seq<char>>((terms.start_date.year, terms.start_date.month, terms.start_date.day))
                &&& timestamp_from_text(row.created_at@) == Ok::<(i64, i32), Seq<char>>((recorded_at.seconds, recorded_at.nanos))
            };
            round_trips ==> {
                &&& leading_failure(row) is None
                &&& trailing_failure(row, offsets) is None
                &&& terms_read(read, terms.account_id, row, terms.repayment_frequency, terms.compounding_frequency, offsets) ==> {
                    &&& read.id == terms.id
                    &&& read.account_id == terms.account_id
                    &&& read.principal == terms.principal
                    &&& read.annual_rate == terms.annual_rate
                    &&& read.start_date == terms.start_date
                    &&& read.term_months == terms.term_months
                    &&& read.repayment_frequency == terms.repayment_frequency
                    &&& read.compounding_frequency == terms.compounding_frequency
                    &&& read.offset_account_ids@ == terms.offset_account_ids@
                    &&& read.commodity@ == terms.commodity@
                    &&& read.created_at == recorded_at
                }
            }
        }),
{
    lemma_decimal_text_reads_back(terms.id.0 as nat);
    assert forall|i: int| 0 <= i < offsets.len() implies crate::batch::decimal_value((#[trigger] offsets[i])@) == Some(
        terms.offset_account_ids@[i].0 as nat,
    ) by {
        lemma_decimal_text_reads_back(terms.offset_account_ids@[i].0 as nat);
    }
    assert(first_bad_id(offsets) is None) by {
        lemma_no_bad_id(offsets);
    }
    if terms_read(read, terms.account_id, row, terms.repayment_frequency, terms.compounding_frequency, offsets) {
        assert forall|i: int| 0 <= i < offsets.len() implies (#[trigger] read.offset_account_ids@[i]) == terms.offset_account_ids@[i] by {
            assert(id_value(offsets[i]@) == Some(read.offset_account_ids@[i].0));
        }
        assert(read.offset_account_ids@ =~= terms.offset_account_ids@);
    }
}

/// Ids that all read as ids leave no bad one.
proof fn lemma_no_bad_id(ids: Seq<String>)
    requires
        forall|i: int| 0 <= i < ids.len() ==> id_value((#[trigger] ids[i])@) is Some,
    ensures
        first_bad_id(ids) is None,
    decreases ids.len(),
{
    if ids.len() > 0 {
        assert(id_value(ids[0]@) is Some);
        assert forall|i: int| 0 <= i < ids.drop_first().len() implies id_value((#[trigger] ids.drop_first()[i])@) is Some by {
            assert(ids.drop_first()[i] == ids[i + 1]);
        }
        lemma_no_bad_id(ids.drop_first());
    }
}

/// The error a term refuses: the first of a nonpositive principal, a negative
/// rate and a zero term, or none.
pub open spec fn terms_error(principal: Dec, annual_rate: Dec, term_months: u32) -> Option<Seq<char>> {
    if principal.mantissa <= 0 {
        Some("loan principal must be greater than zero"@)
    } else if annual_rate.mantissa < 0 {
        Some("loan annual rate must not be negative"@)
    } else if term_months == 0 {
        Some("loan term must be at least one month"@)
    } else {
        None
    }
}

/// Checks the terms themselves before any account is read: the principal
/// must be positive, the rate not negative and the term at least a month.
pub fn validate_terms(terms: &LoanTerms) -> (r: BcResult<()>)
    ensures
        match terms_error(terms.principal, terms.annual_rate, terms.term_months) {
            Some(m) => r matches Err(BcError::BadData(e)) && e@ == m,
            None => r is Ok,
        },
{
    if terms.principal.mantissa <= 0 {
        return Err(BcError::BadData(String::from_str("loan principal must be greater than zero")));
    }
    if terms.annual_rate.mantissa < 0 {
        return Err(BcError::BadData(String::from_str("loan annual rate must not be negative")));
    }
    if terms.term_months == 0 {
        return Err(BcError::BadData(String::from_str("loan term must be at least one month")));
    }
    Ok(())
}

/// Checks the account the terms name, from the kind stored for it: `None`
/// when no such account exists, else the stored text beside what decoding it
/// as an account kind gave. Only a receivable may hold a loan; another kind
/// is refused, naming it as decoded, and a kind that does not decode fails
/// with the decoding's error.
pub fn check_loan_account(account_id: AccountId, kind: Option<(String, BcResult<String>)>) -> (r: BcResult<()>)
    ensures
        match kind {
            None => r matches Err(BcError::NotFound(m)) && m@ == "account "@ + decimal_text(account_id.0 as nat),
            Some((k, decoded)) => if k@ == "receivable"@ {
                r is Ok
            } else {
                match decoded {
                    Err(e) => r == Err::<(), BcError>(e),
                    Ok(name) => r matches Err(BcError::InvalidAccountKind { operation, account_id: a, kind: e }) && operation@
                        == "set loan terms"@ && a == account_id && e@ == name@,
                }
            },
        },
{
    match kind {
        None => {
            let mut m = String::from_str("account ");
            let t = crate::model::u64_text(account_id.0);
            m.append(t.as_str());
            Err(BcError::NotFound(m))
        },
        Some((k, decoded)) => {
            proof {
                reveal_strlit("receivable");
            }
            if crate::text::str_equal_text(k.as_str(), "receivable") {
                Ok(())
            } else {
                match decoded {
                    Err(e) => Err(e),
                    Ok(name) => Err(BcError::InvalidAccountKind {
                        operation: String::from_str("set loan terms"),
                        account_id,
                        kind: name,
                    }),
                }
            }
        },
    }
}

/// The days a custom period lasts: days, plus seven per week, plus thirty per
/// month.
pub open spec fn custom_days(days: Option<u32>, weeks: Option<u32>, months: Option<u32>) -> int {
    let d = match days { Some(x) => x as int, None => 0 };
    let w = match weeks { Some(x) => x as int, None => 0 };
    let m = match months { Some(x) => x as int, None => 0 };
    d + w * 7 + m * 30
}

/// How many repayments a year `period` makes: a whole number for the named
/// periods, `365 / days` for a custom one, `None` for a custom period of no
/// duration (or one whose quotient leaves the decimal range).
pub open spec fn periods_in_year(period: Period) -> Option<Dec> {
    match period {
        Period::Weekly => Some(Dec { mantissa: 52, scale: 0 }),
        Period::Fortnightly => Some(Dec { mantissa: 26, scale: 0 }),
        Period::Monthly => Some(Dec { mantissa: 12, scale: 0 }),
        Period::Quarterly | Period::FinancialQuarter => Some(Dec { mantissa: 4, scale: 0 }),
        Period::FinancialYear | Period::CalendarYear => Some(Dec { mantissa: 1, scale: 0 }),
        Period::Custom { days, weeks, months } => {
            let total = custom_days(days, weeks, months);
            if total <= 0 {
                None
            } else {
                match decimal_quotient(365, 0, total as i128, 0) {
                    Some((m, s)) => Some(Dec { mantissa: m, scale: s }),
                    None => None,
                }
            }
        },
    }
}

/// Returns how many repayments a year `period` makes.
pub fn periods_per_year(period: &Period) -> (r: BcResult<Dec>)
    ensures
        match periods_in_year(*period) {
            Some(d) => r == Ok::<Dec, BcError>(d) && d.wf(),
            None => r matches Err(BcError::BadData(m)) && m@ == "custom period has zero duration"@,
        },
{
    match period {
        Period::Weekly => Ok(Dec::from_int(52)),
        Period::Fortnightly => Ok(Dec::from_int(26)),
        Period::Monthly => Ok(Dec::from_int(12)),
        Period::Quarterly | Period::FinancialQuarter => Ok(Dec::from_int(4)),
        Period::FinancialYear | Period::CalendarYear => Ok(Dec::from_int(1)),
        Period::Custom { days, weeks, months } => {
            let d: i64 = match days { Some(x) => *x as i64, None => 0 };
            let w: i64 = match weeks { Some(x) => *x as i64, None => 0 };
            let m: i64 = match months { Some(x) => *x as i64, None => 0 };
            let total = d + w * 7 + m * 30;
            if total <= 0 {
                return Err(BcError::BadData(String::from_str("custom period has zero duration")));
            }
            match checked_div(&Dec::from_int(365), &Dec::from_int(total)) {
                Some(q) => Ok(q),
                None => Err(BcError::BadData(String::from_str("custom period has zero duration"))),
            }
        },
    }
}

/// The number of repayments a term of `term_months` makes: the term in years
/// times the repayments a year, rounded to a whole number; `None` when the
/// period is refused or the count does not fit a `u32`.
pub open spec fn payment_count(term_months: u32, period: Period) -> Option<u32> {
    match periods_in_year(period) {
        None => None,
        Some(ppy) => match decimal_product(term_months as i128, 0, ppy.mantissa, ppy.scale) {
            None => None,
            Some((pm, ps)) => match decimal_quotient(pm, ps, 12, 0) {
                None => None,
                Some((qm, qs)) => {
                    let (rm, rs) = decimal_rounded(qm, qs, 0);
                    decimal_as_u32(rm, rs)
                },
            },
        },
    }
}

/// How many months a period measured in months spans.
pub open spec fn months_spanned(period: Period) -> Option<int> {
    match period {
        Period::Monthly => Some(1),
        Period::Quarterly | Period::FinancialQuarter => Some(3),
        Period::FinancialYear | Period::CalendarYear => Some(12),
        _ => None,
    }
}

/// How many weeks a period measured in weeks spans.
pub open spec fn weeks_spanned(period: Period) -> Option<int> {
    match period {
        Period::Weekly => Some(1),
        Period::Fortnightly => Some(2),
        _ => None,
    }
}

/// A named period's repayments fill a year exactly: a period of `m` months
/// repays `12 / m` times a year, one of `w` weeks `52 / w` times, each a
/// whole number; every period but a custom one is measured one way or the
/// other.
pub proof fn lemma_periods_fill_a_year(period: Period)
    ensures
        months_spanned(period) matches Some(m) ==> (periods_in_year(period) matches Some(d) && d.scale == 0 && d.mantissa
            * m == 12),
        weeks_spanned(period) matches Some(w) ==> (periods_in_year(period) matches Some(d) && d.scale == 0 && d.mantissa
            * w == 52),
        months_spanned(period) is Some || weeks_spanned(period) is Some || period is Custom,
        period matches Period::Custom { days, weeks, months } ==> {
            let total = days.unwrap_or(0) as int + 7 * weeks.unwrap_or(0) as int + 30 * months.unwrap_or(0) as int;
            &&& total <= 0 ==> periods_in_year(period) is None
            &&& total > 0 ==> periods_in_year(period) == match decimal_quotient(365, 0, total as i128, 0) {
                Some((m, s)) => Some(Dec { mantissa: m, scale: s }),
                None => None::<Dec>,
            }
        },
{
}

/// A term makes as many payments as its years hold repayment periods: the
/// term in months times the periods a year, over twelve, rounded to a whole
/// number.
pub proof fn lemma_payments_over_a_term(term_months: u32, period: Period)
    ensures
        payment_count(term_months, period) == match periods_in_year(period) {
            None => None::<u32>,
            Some(ppy) => match decimal_product(term_months as i128, 0, ppy.mantissa, ppy.scale) {
                None => None::<u32>,
                Some((pm, ps)) => match decimal_quotient(pm, ps, 12, 0) {
                    None => None::<u32>,
                    Some((qm, qs)) => decimal_as_u32(decimal_rounded(qm, qs, 0).0, decimal_rounded(qm, qs, 0).1),
                },
            },
        },
{
}

/// The message for a term making too many payments.
pub open spec fn too_many_payments() -> Seq<char> {
    "loan term produces an unreasonably large number of payments"@
}

/// Returns the total number of repayments for the loan.
pub fn total_payments(term_months: u32, period: &Period) -> (r: BcResult<u32>)
    ensures
        periods_in_year(*period) is None ==> (r matches Err(BcError::BadData(m)) && m@ == "custom period has zero duration"@),
        periods_in_year(*period) is Some ==> match payment_count(term_months, *period) {
            Some(n) => r == Ok::<u32, BcError>(n),
            None => r matches Err(BcError::BadData(m)) && m@ == too_many_payments(),
        },
{
    let ppy = periods_per_year(period)?;
    let months = Dec::from_int(term_months as i64);
    let product = match checked_mul(&months, &ppy) {
        Some(p) => p,
        None => {
            return Err(BcError::BadData(String::from_str("loan term produces an unreasonably large number of payments")));
        },
    };
    let years = match checked_div(&product, &Dec::from_int(12)) {
        Some(q) => q,
        None => {
            return Err(BcError::BadData(String::from_str("loan term produces an unreasonably large number of payments")));
        },
    };
    let rounded = round_dp(&years, 0);
    match to_u32(&rounded) {
        Some(n) => Ok(n),
        None => Err(BcError::BadData(String::from_str("loan term produces an unreasonably large number of payments"))),
    }
}

/// The balance `id` holds in `balances`, the first entry for it.
pub open spec fn balance_of(balances: Seq<(AccountId, Dec)>, id: AccountId) -> Option<Dec>
    decreases balances.len(),
{
    if balances.len() == 0 {
        None
    } else if balances[0].0 == id {
        Some(balances[0].1)
    } else {
        balance_of(balances.drop_first(), id)
    }
}

/// `a + b` saturating as `Decimal::saturating_add` does.
pub open spec fn sat_add(a: Dec, b: Dec) -> Dec {
    match decimal_sum(a.mantissa, a.scale, b.mantissa, b.scale) {
        Some((m, s)) => Dec { mantissa: m, scale: s },
        None => if a.mantissa >= 0 { Dec::max_value() } else { Dec::min_value() },
    }
}

/// The saturating sum of the balances the offset accounts `ids` hold; an
/// account holding none adds nothing.
pub open spec fn offset_sum(ids: Seq<AccountId>, balances: Seq<(AccountId, Dec)>) -> Dec
    decreases ids.len(),
{
    if ids.len() == 0 {
        Dec { mantissa: 0, scale: 0 }
    } else {
        let prev = offset_sum(ids.drop_last(), balances);
        match balance_of(balances, ids.last()) {
            Some(b) => sat_add(prev, b),
            None => prev,
        }
    }
}

/// `Ord::min`: the first when not greater than the second.
pub open spec fn dec_min(a: Dec, b: Dec) -> Dec {
    if value_less(b, a) { b } else { a }
}

/// `Ord::max`: the second unless the first is greater.
pub open spec fn dec_max(a: Dec, b: Dec) -> Dec {
    if value_less(b, a) { a } else { b }
}

/// Every balance is within range.
pub open spec fn balances_wf(balances: Seq<(AccountId, Dec)>) -> bool {
    forall|k: int| 0 <= k < balances.len() ==> (#[trigger] balances[k]).1.wf()
}

/// The balance lookup finds a balance that is within range.
proof fn lemma_balance_of_wf(balances: Seq<(AccountId, Dec)>, id: AccountId)
    requires
        balances_wf(balances),
    ensures
        balance_of(balances, id) matches Some(b) ==> b.wf(),
    decreases balances.len(),
{
    if balances.len() > 0 && balances[0].0 != id {
        assert(balances_wf(balances.drop_first())) by {
            assert forall|k: int| 0 <= k < balances.drop_first().len() implies (#[trigger] balances.drop_first()[k]).1.wf() by {
                assert(balances.drop_first()[k] == balances[k + 1]);
            }
        }
        lemma_balance_of_wf(balances.drop_first(), id);
    }
}

/// Looks up one account's balance.
fn find_balance(balances: &Vec<(AccountId, Dec)>, id: AccountId) -> (r: Option<Dec>)
    ensures
        r == balance_of(balances@, id),
{
    let mut i: usize = 0;
    proof {
        assert(balances@.skip(0) =~= balances@);
    }
    while i < balances.len()
        invariant
            i <= balances@.len(),
            balance_of(balances@, id) == balance_of(balances@.skip(i as int), id),
        decreases balances@.len() - i,
    {
        proof {
            assert(balances@.skip(i as int)[0] == balances@[i as int]);
            assert(balances@.skip(i as int).drop_first() =~= balances@.skip(i + 1));
        }
        if balances[i].0 == id {
            return Some(balances[i].1);
        }
        i = i + 1;
    }
    None
}

/// Returns the effective total offset balance, clamped to `[0, principal]`.
pub fn effective_offset(offset_ids: &Vec<AccountId>, balances: &Vec<(AccountId, Dec)>, principal: Dec) -> (r: Dec)
    requires
        balances_wf(balances@),
        principal.wf(),
    ensures
        r == dec_max(dec_min(offset_sum(offset_ids@, balances@), principal), Dec { mantissa: 0, scale: 0 }),
        r.wf(),
{
    let mut total = Dec::zero();
    let mut i: usize = 0;
    while i < offset_ids.len()
        invariant
            i <= offset_ids@.len(),
            balances_wf(balances@),
            total == offset_sum(offset_ids@.take(i as int), balances@),
            total.wf(),
        decreases offset_ids@.len() - i,
    {
        proof {
            assert(offset_ids@.take(i + 1).drop_last() =~= offset_ids@.take(i as int));
            lemma_balance_of_wf(balances@, offset_ids@[i as int]);
        }
        match find_balance(balances, offset_ids[i]) {
            Some(b) => {
                total = saturating_add(&total, &b);
            },
            None => {},
        }
        i = i + 1;
    }
    proof {
        assert(offset_ids@.take(offset_ids@.len() as int) =~= offset_ids@);
    }
    let clamped = if less_than(&principal, &total) { principal } else { total };
    let zero = Dec::zero();
    if less_than(&zero, &clamped) { clamped } else { zero }
}

/// The whole days from `from` until `to`, as `jiff`'s `Date::until` in days
/// reports them; `None` when `jiff` refuses either date or the span.
pub uninterp spec fn days_until(from_year: i16, from_month: i8, from_day: i8, to_year: i16, to_month: i8, to_day: i8) -> Option<i64>;

/// Counts the days between two dates through `jiff::civil::Date::new` and
/// `Date::until`.
///
/// Trusted: claims the result is [`days_until`] of the two dates' parts.
#[verifier::external_body]
fn elapsed_days(from: Date, to: Date) -> (r: Option<i64>)
    ensures
        r == days_until(from.year, from.month, from.day, to.year, to.month, to.day),
{
    let a = jiff::civil::Date::new(from.year, from.month, from.day);
    let b = jiff::civil::Date::new(to.year, to.month, to.day);
    match (a, b) {
        (Ok(a), Ok(b)) => match a.until((jiff::Unit::Day, b)) {
            Ok(span) => Some(span.get_days().into()),
            Err(_) => None,
        },
        _ => None,
    }
}

/// The days a period runs from `from` to `to`: as `jiff` counts them, and
/// none between dates it refuses.
pub open spec fn days_between(from: Date, to: Date) -> i64 {
    match days_until(from.year, from.month, from.day, to.year, to.month, to.day) {
        Some(d) => d,
        None => 0,
    }
}

/// Counts the days a period runs from `from` to `to`.
fn days_elapsed(from: Date, to: Date) -> (r: i64)
    ensures
        r == days_between(from, to),
{
    match elapsed_days(from, to) {
        Some(d) => d,
        None => 0,
    }
}

/// The decimal with the given parts.
pub open spec fn dec(parts: (i128, u32)) -> Dec {
    Dec { mantissa: parts.0, scale: parts.1 }
}

/// Zero.
pub open spec fn zero() -> Dec {
    Dec { mantissa: 0, scale: 0 }
}

/// A balance within half a cent of zero, snapped to zero.
pub open spec fn snapped(b: Dec) -> Dec {
    let magnitude = Dec { mantissa: if b.mantissa < 0 { (-b.mantissa) as i128 } else { b.mantissa }, scale: b.scale };
    if value_less(magnitude, Dec { mantissa: 5, scale: 3 }) { zero() } else { b }
}

/// The interest one period charges on `balance`, less the offset: per day
/// at `annual_rate / 365` for the `days` in the period, or per period at
/// `period_rate`, rounded to cents; `None` when the arithmetic leaves the
/// decimal range.
pub open spec fn period_interest(
    compounding: CompoundingFrequency,
    balance: Dec,
    offset_total: Dec,
    annual_rate: Dec,
    period_rate: Dec,
    days: i64,
) -> Option<Dec> {
    match decimal_difference(balance.mantissa, balance.scale, offset_total.mantissa, offset_total.scale) {
        None => None,
        Some(diff) => {
            let effective = dec_max(dec(diff), zero());
            match compounding {
                CompoundingFrequency::Daily => {
                    let elapsed = if days < 0 { 0 } else { days };
                    match decimal_quotient(annual_rate.mantissa, annual_rate.scale, 365, 0) {
                        None => None,
                        Some(daily) => match decimal_product(effective.mantissa, effective.scale, daily.0, daily.1) {
                            None => None,
                            Some(x) => match decimal_product(x.0, x.1, elapsed as i128, 0) {
                                None => None,
                                Some(y) => Some(dec(decimal_rounded(y.0, y.1, 2))),
                            },
                        },
                    }
                },
                CompoundingFrequency::Monthly => match decimal_product(
                    effective.mantissa,
                    effective.scale,
                    period_rate.mantissa,
                    period_rate.scale,
                ) {
                    None => None,
                    Some(x) => Some(dec(decimal_rounded(x.0, x.1, 2))),
                },
            }
        },
    }
}

/// Whether `row` is payment `k` (from zero) of `n`, made on `date` after
/// `prev`, on a balance of `before`: its interest per [`period_interest`];
/// its principal the whole balance on the last payment and otherwise the
/// payment less the interest, never below zero; its total their sum; and the
/// balance left, snapped to zero within half a cent.
#[verifier::opaque]
pub open spec fn schedule_row(
    terms: LoanTerms,
    offset_total: Dec,
    payment: Dec,
    period_rate: Dec,
    n: u32,
    k: int,
    before: Dec,
    prev: Date,
    row: AmortizationRow,
) -> bool {
    let days = days_between(prev, row.date);
    &&& row.payment_number == k + 1
    &&& period_interest(terms.compounding_frequency, before, offset_total, terms.annual_rate, period_rate, days)
        == Some(row.interest)
    &&& (k == n - 1 || decimal_difference(payment.mantissa, payment.scale, row.interest.mantissa, row.interest.scale) is Some)
    &&& row.principal == if k == n - 1 {
        before
    } else {
        dec_max(dec(decimal_difference(payment.mantissa, payment.scale, row.interest.mantissa, row.interest.scale)->0), zero())
    }
    &&& decimal_sum(row.interest.mantissa, row.interest.scale, row.principal.mantissa, row.principal.scale)
        == Some((row.total_payment.mantissa, row.total_payment.scale))
    &&& decimal_difference(before.mantissa, before.scale, row.principal.mantissa, row.principal.scale) is Some
    &&& row.remaining_balance == snapped(
        dec(decimal_difference(before.mantissa, before.scale, row.principal.mantissa, row.principal.scale)->0),
    )
}

/// The balance payment `k` is charged on: the principal for the first,
/// else what the previous payment left.
pub open spec fn balance_before(terms: LoanTerms, rows: Seq<AmortizationRow>, k: int) -> Dec {
    if k == 0 { terms.principal } else { rows[k - 1].remaining_balance }
}

/// The date the period before payment `k` starts: the loan's start for the
/// first, else the previous payment's date.
pub open spec fn date_before(terms: LoanTerms, rows: Seq<AmortizationRow>, k: int) -> Date {
    if k == 0 { terms.start_date } else { rows[k - 1].date }
}

/// Whether the schedule's first `rows` are computed as [`schedule_row`]
/// says, each on the date `advance` gave after the one before, and the next
/// payment, due on `date` (what `advance` gave next), leaves the decimal
/// range per [`step_succeeds`].
pub open spec fn fails_after<F: Fn(Date) -> Date>(
    terms: LoanTerms,
    offset_total: Dec,
    payment: Dec,
    period_rate: Dec,
    n: u32,
    rows: Seq<AmortizationRow>,
    date: Date,
    advance: F,
) -> bool {
    let j = rows.len() as int;
    &&& j < n
    &&& forall|k: int| 0 <= k < j ==> schedule_row(
        terms,
        offset_total,
        payment,
        period_rate,
        n,
        k,
        balance_before(terms, rows, k),
        date_before(terms, rows, k),
        #[trigger] rows[k],
    )
    &&& forall|k: int| 0 <= k < j ==> advance.ensures((date_before(terms, rows, k),), #[trigger] rows[k].date)
    &&& advance.ensures((date_before(terms, rows, j),), date)
    &&& !step_succeeds(terms, offset_total, payment, period_rate, n, j, balance_before(terms, rows, j), date_before(terms, rows, j), date)
}

/// Whether computing the schedule fails: the repayment period has no
/// duration, the number of payments is out of range, the period rate leaves
/// the decimal range, or some payment along the way does
/// ([`fails_after`]).
pub open spec fn schedule_fails<F: Fn(Date) -> Date>(
    terms: LoanTerms,
    offset_balances: Seq<(AccountId, Dec)>,
    payment: Dec,
    advance: F,
) -> bool {
    match periods_in_year(terms.repayment_frequency) {
        None => true,
        Some(ppy) => match payment_count(terms.term_months, terms.repayment_frequency) {
            None => true,
            Some(n) => n > 0 && match decimal_quotient(terms.annual_rate.mantissa, terms.annual_rate.scale, ppy.mantissa, ppy.scale) {
                None => true,
                Some(q) => {
                    let offset_total = dec_max(dec_min(offset_sum(terms.offset_account_ids@, offset_balances), terms.principal), zero());
                    exists|rows: Seq<AmortizationRow>, date: Date|
                        #[trigger] fails_after(terms, offset_total, payment, dec(q), n, rows, date, advance)
                },
            },
        },
    }
}

/// The message for a schedule whose arithmetic leaves the decimal range.
pub open spec fn schedule_overflow() -> Seq<char> {
    "the amortization schedule leaves the range of a decimal"@
}

/// The interest rate of one repayment period: the annual rate over the
/// periods in a year.
pub fn period_rate(annual_rate: &Dec, period: &Period) -> (r: BcResult<Dec>)
    requires
        annual_rate.wf(),
    ensures
        match periods_in_year(*period) {
            None => r matches Err(BcError::BadData(m)) && m@ == "custom period has zero duration"@,
            Some(ppy) => match decimal_quotient(annual_rate.mantissa, annual_rate.scale, ppy.mantissa, ppy.scale) {
                Some((m, s)) => r == Ok::<Dec, BcError>(Dec { mantissa: m, scale: s }),
                None => r matches Err(BcError::BadData(e)) && e@ == schedule_overflow(),
            },
        },
{
    let ppy = periods_per_year(period)?;
    match checked_div(annual_rate, &ppy) {
        Some(d) => Ok(d),
        None => Err(BcError::BadData(String::from_str("the amortization schedule leaves the range of a decimal"))),
    }
}

/// Computes the amortization schedule from the terms, the offset accounts'
/// balances, the fixed `payment` (the annuity on the full principal: offsets
/// reduce the interest charged, never the repayment) and `advance`, which
/// moves a date on by one repayment period.
///
/// Each row charges interest on the balance less the offset total, clamped
/// to `[0, principal]`; the last row repays whatever balance is left, so the
/// schedule always ends at zero. It fails only as [`schedule_fails`] says.
pub fn compute_schedule<F: Fn(Date) -> Date>(
    terms: &LoanTerms,
    offset_balances: &Vec<(AccountId, Dec)>,
    payment: Dec,
    advance: &F,
) -> (r: BcResult<Vec<AmortizationRow>>)
    requires
        terms.principal.wf(),
        terms.annual_rate.wf(),
        payment.wf(),
        balances_wf(offset_balances@),
        forall|d: Date| advance.requires((d,)),
    ensures
        r matches Ok(rows) ==> {
            let n = payment_count(terms.term_months, terms.repayment_frequency)->0;
            let ppy = periods_in_year(terms.repayment_frequency)->0;
            let offset_total = dec_max(
                dec_min(offset_sum(terms.offset_account_ids@, offset_balances@), terms.principal),
                zero(),
            );
            let period_rate = dec(decimal_quotient(terms.annual_rate.mantissa, terms.annual_rate.scale, ppy.mantissa, ppy.scale)->0);
            &&& payment_count(terms.term_months, terms.repayment_frequency) is Some
            &&& rows@.len() == n
            &&& forall|k: int| 0 <= k < rows@.len() ==> schedule_row(
                *terms,
                offset_total,
                payment,
                period_rate,
                n,
                k,
                balance_before(*terms, rows@, k),
                date_before(*terms, rows@, k),
                #[trigger] rows@[k],
            )
            &&& rows@.len() > 0 ==> advance.ensures((terms.start_date,), rows@[0].date)
            &&& forall|k: int| 0 < k < rows@.len() ==> advance.ensures((rows@[k - 1].date,), #[trigger] rows@[k].date)
            &&& rows@.len() > 0 ==> rows@.last().remaining_balance.mantissa == 0
        },
        r matches Err(e) ==> e is BadData,
        r is Err ==> schedule_fails(*terms, offset_balances@, payment, *advance),
        periods_in_year(terms.repayment_frequency) is Some && payment_count(terms.term_months, terms.repayment_frequency)
            is None ==> r is Err,
{
    let n = total_payments(terms.term_months, &terms.repayment_frequency)?;
    let ppy = periods_per_year(&terms.repayment_frequency)?;
    let mut rows: Vec<AmortizationRow> = Vec::new();
    if n == 0 {
        return Ok(rows);
    }
    let period_rate = match checked_div(&terms.annual_rate, &ppy) {
        Some(q) => q,
        None => {
            return Err(overflow_error());
        },
    };
    let offset_total = effective_offset(&terms.offset_account_ids, offset_balances, terms.principal);
    let mut balance = terms.principal;
    let mut prev_date = terms.start_date;
    let mut date = advance(prev_date);
    let ghost first_date = date;
    let mut i: u64 = 1;
    while i <= n as u64
        invariant
            1 <= i <= n + 1,
            n == payment_count(terms.term_months, terms.repayment_frequency)->0,
            terms.annual_rate.wf(),
            period_rate.wf(),
            offset_total.wf(),
            payment.wf(),
            balance.wf(),
            period_rate == dec(decimal_quotient(terms.annual_rate.mantissa, terms.annual_rate.scale, ppy.mantissa, ppy.scale)->0),
            offset_total == dec_max(
                dec_min(offset_sum(terms.offset_account_ids@, offset_balances@), terms.principal),
                zero(),
            ),
            ppy == periods_in_year(terms.repayment_frequency)->0,
            forall|d: Date| advance.requires((d,)),
            rows@.len() == i - 1,
            balance == balance_before(*terms, rows@, i - 1),
            i <= n ==> prev_date == date_before(*terms, rows@, i - 1),
            i <= n ==> if i == 1 { advance.ensures((terms.start_date,), date) } else { advance.ensures((rows@[i - 2].date,), date) },
            forall|k: int| 0 <= k < rows@.len() ==> schedule_row(
                *terms,
                offset_total,
                payment,
                period_rate,
                n,
                k,
                balance_before(*terms, rows@, k),
                date_before(*terms, rows@, k),
                #[trigger] rows@[k],
            ),
            rows@.len() > 0 ==> advance.ensures((terms.start_date,), rows@[0].date),
            forall|k: int| 0 < k < rows@.len() ==> advance.ensures((rows@[k - 1].date,), #[trigger] rows@[k].date),
            forall|k: int| 0 <= k < rows@.len() ==> advance.ensures((date_before(*terms, rows@, k),), #[trigger] rows@[k].date),
            i > n ==> rows@.len() > 0 && rows@.last().remaining_balance.mantissa == 0,
            n > 0,
            periods_in_year(terms.repayment_frequency) == Some(ppy),
            payment_count(terms.term_months, terms.repayment_frequency) == Some(n),
            decimal_quotient(terms.annual_rate.mantissa, terms.annual_rate.scale, ppy.mantissa, ppy.scale) is Some,
        decreases n + 1 - i,
    {
        let row = match schedule_step(terms, offset_total, payment, period_rate, n, i as u32, balance, prev_date, date) {
            Some(row) => row,
            None => {
                proof {
                    assert(fails_after(*terms, offset_total, payment, period_rate, n, rows@, date, *advance));
                }
                return Err(overflow_error());
            },
        };
        let is_last = i == n as u64;
        let new_balance = row.remaining_balance;
        rows.push(row);
        balance = new_balance;
        if !is_last {
            prev_date = date;
            date = advance(date);
        }
        i = i + 1;
    }
    Ok(rows)
}

/// Whether payment `k` (from zero) of `n`, on a balance of `before` and due
/// on `date` after `prev`, stays within the decimal range: its interest, the
/// payment less that interest (for any payment but the last), the total and
/// the balance left are all representable.
pub open spec fn step_succeeds(
    terms: LoanTerms,
    offset_total: Dec,
    payment: Dec,
    period_rate: Dec,
    n: u32,
    k: int,
    before: Dec,
    prev: Date,
    date: Date,
) -> bool {
    let days = days_between(prev, date);
    match period_interest(terms.compounding_frequency, before, offset_total, terms.annual_rate, period_rate, days) {
        None => false,
        Some(interest) => {
            let diff = decimal_difference(payment.mantissa, payment.scale, interest.mantissa, interest.scale);
            let principal = if k == n - 1 { before } else { dec_max(dec(diff->0), zero()) };
            &&& (k == n - 1 || diff is Some)
            &&& decimal_sum(interest.mantissa, interest.scale, principal.mantissa, principal.scale) is Some
            &&& decimal_difference(before.mantissa, before.scale, principal.mantissa, principal.scale) is Some
        },
    }
}

/// Computes payment `k` (from one) of `n` on a balance of `before`, due on
/// `date` after `prev`; `None` when the arithmetic leaves the decimal range.
fn schedule_step(
    terms: &LoanTerms,
    offset_total: Dec,
    payment: Dec,
    period_rate: Dec,
    n: u32,
    k: u32,
    before: Dec,
    prev: Date,
    date: Date,
) -> (r: Option<AmortizationRow>)
    requires
        1 <= k <= n,
        before.wf(),
        offset_total.wf(),
        payment.wf(),
        terms.annual_rate.wf(),
        period_rate.wf(),
    ensures
        r is Some <==> step_succeeds(*terms, offset_total, payment, period_rate, n, k - 1, before, prev, date),
        r matches Some(row) ==> schedule_row(*terms, offset_total, payment, period_rate, n, k - 1, before, prev, row)
            && row.date == date && row.remaining_balance.wf() && (k == n ==> row.remaining_balance.mantissa == 0),
{
    proof {
        reveal(schedule_row);
    }
    let interest = interest_for(terms, before, offset_total, period_rate, prev, date)?;
    let principal_portion = if k == n {
        before
    } else {
        let d = checked_sub(&payment, &interest)?;
        let z = Dec::zero();
        if less_than(&z, &d) { d } else { z }
    };
    let total = checked_add(&interest, &principal_portion)?;
    let left = checked_sub(&before, &principal_portion)?;
    let magnitude = Dec { mantissa: if left.mantissa < 0 { -left.mantissa } else { left.mantissa }, scale: left.scale };
    let remaining = if less_than(&magnitude, &Dec::new(5, 3)) { Dec::zero() } else { left };
    Some(AmortizationRow {
        payment_number: k,
        date,
        total_payment: total,
        principal: principal_portion,
        interest,
        remaining_balance: remaining,
    })
}

/// The error an overflowing schedule fails with.
fn overflow_error() -> (r: BcError)
    ensures
        r matches BcError::BadData(m) && m@ == schedule_overflow(),
{
    BcError::BadData(String::from_str("the amortization schedule leaves the range of a decimal"))
}

/// Computes one period's interest, per [`period_interest`].
fn interest_for(terms: &LoanTerms, balance: Dec, offset_total: Dec, period_rate: Dec, prev: Date, date: Date) -> (r: Option<Dec>)
    requires
        balance.wf(),
        offset_total.wf(),
        terms.annual_rate.wf(),
        period_rate.wf(),
    ensures
        r == period_interest(
            terms.compounding_frequency,
            balance,
            offset_total,
            terms.annual_rate,
            period_rate,
            days_between(prev, date),
        ),
        r matches Some(x) ==> x.wf(),
{
    let diff = checked_sub(&balance, &offset_total)?;
    let z = Dec::zero();
    let effective = if less_than(&z, &diff) { diff } else { z };
    match terms.compounding_frequency {
        CompoundingFrequency::Daily => {
            let days = days_elapsed(prev, date);
            let elapsed = if days < 0 { 0 } else { days };
            let daily = checked_div(&terms.annual_rate, &Dec::from_int(365))?;
            let x = checked_mul(&effective, &daily)?;
            let y = checked_mul(&x, &Dec::from_int(elapsed))?;
            Some(round_dp(&y, 2))
        },
        CompoundingFrequency::Monthly => {
            let x = checked_mul(&effective, &period_rate)?;
            Some(round_dp(&x, 2))
        },
    }
}

/// How a payment splits: every payment but the last repays the fixed
/// payment less its interest, or nothing when the interest takes it all; the
/// last repays the whole balance left; and each total is its interest and
/// principal together.
pub proof fn lemma_payment_splits(
    terms: LoanTerms,
    offset_total: Dec,
    payment: Dec,
    period_rate: Dec,
    n: u32,
    k: int,
    before: Dec,
    prev: Date,
    row: AmortizationRow,
)
    requires
        schedule_row(terms, offset_total, payment, period_rate, n, k, before, prev, row),
    ensures
        decimal_sum(row.interest.mantissa, row.interest.scale, row.principal.mantissa, row.principal.scale) == Some(
            (row.total_payment.mantissa, row.total_payment.scale),
        ),
        k == n - 1 ==> row.principal == before,
        k != n - 1 ==> (decimal_difference(payment.mantissa, payment.scale, row.interest.mantissa, row.interest.scale)
            matches Some((m, s)) && row.principal == if value_less(Dec { mantissa: 0, scale: 0 }, Dec { mantissa: m, scale: s }) {
            Dec { mantissa: m, scale: s }
        } else {
            Dec { mantissa: 0, scale: 0 }
        }),
{
    reveal(schedule_row);
}

/// What a payment charges and leaves: interest on the balance less the
/// offset total, never below zero, rounded to cents (per period at the
/// period rate under monthly compounding; under daily compounding per day
/// at the annual rate over 365, for the days since the previous payment,
/// none when the dates run backwards); and the balance less the principal
/// repaid, snapped to zero when within half a cent of it.
pub proof fn lemma_interest_and_balance(
    terms: LoanTerms,
    offset_total: Dec,
    payment: Dec,
    period_rate: Dec,
    n: u32,
    k: int,
    before: Dec,
    prev: Date,
    row: AmortizationRow,
)
    requires
        schedule_row(terms, offset_total, payment, period_rate, n, k, before, prev, row),
    ensures
        row.payment_number == k + 1,
        decimal_difference(before.mantissa, before.scale, offset_total.mantissa, offset_total.scale) matches Some((bm, bs)) && {
            let owed = Dec { mantissa: bm, scale: bs };
            let charged = if value_less(Dec { mantissa: 0, scale: 0 }, owed) { owed } else { Dec { mantissa: 0, scale: 0 } };
            match terms.compounding_frequency {
                CompoundingFrequency::Monthly => decimal_product(
                    charged.mantissa,
                    charged.scale,
                    period_rate.mantissa,
                    period_rate.scale,
                ) matches Some((pm, ps)) && (row.interest.mantissa, row.interest.scale) == decimal_rounded(pm, ps, 2),
                CompoundingFrequency::Daily => {
                    let days = days_between(prev, row.date);
                    let elapsed: i64 = if days < 0 { 0 } else { days };
                    decimal_quotient(terms.annual_rate.mantissa, terms.annual_rate.scale, 365, 0) matches Some((dm, ds))
                        && decimal_product(charged.mantissa, charged.scale, dm, ds) matches Some((xm, xs))
                        && decimal_product(xm, xs, elapsed as i128, 0) matches Some((ym, ys))
                        && (row.interest.mantissa, row.interest.scale) == decimal_rounded(ym, ys, 2)
                },
            }
        },
        decimal_difference(before.mantissa, before.scale, row.principal.mantissa, row.principal.scale) matches Some((lm, ls)) && {
            let magnitude: int = if lm < 0 { -lm } else { lm as int };
            row.remaining_balance == if value_less(Dec { mantissa: magnitude as i128, scale: ls }, Dec { mantissa: 5, scale: 3 }) {
                Dec { mantissa: 0, scale: 0 }
            } else {
                Dec { mantissa: lm, scale: ls }
            }
        },
{
    reveal(schedule_row);
}

/// The schedule always ends at zero: its last payment repays whatever
/// balance is left, so the last remaining balance is zero.
pub proof fn lemma_schedule_ends_at_zero(
    terms: LoanTerms,
    offset_total: Dec,
    payment: Dec,
    period_rate: Dec,
    n: u32,
    before: Dec,
    prev: Date,
    row: AmortizationRow,
)
    requires
        n >= 1,
        schedule_row(terms, offset_total, payment, period_rate, n, n - 1, before, prev, row),
        decimal_difference(before.mantissa, before.scale, before.mantissa, before.scale) matches Some(d) && d.0 == 0,
    ensures
        row.principal == before,
        row.remaining_balance.mantissa == 0,
{
    reveal(schedule_row);
}

} // verus!
