//! Fitting a metadata value to its key's registered type, reading a stored
//! value back, and the registry's retype and rename decisions.
//!
//! The rule is *coerce, else flag*, total over every pairing of an asserted
//! type with a registered one: identity always fits; anything fits a `text`
//! key, as its canonical string; asserted text into another type is parsed
//! with that type's parser, and a parse failure is a mismatch; every other
//! cross-type pair is a mismatch. Nothing here reads a database, so an
//! account path is never resolved: text holding a path does not parse as an
//! id and mismatches.

use vstd::prelude::*;
use vstd::string::*;

use crate::batch::{id_value, parse_id, parse_timestamp, timestamp_from_text};
use crate::decimal::Dec;
use crate::error::{BcError, BcResult};
use crate::metadata::{MetaKey, MetaType, MetaValue, Timestamp};
use crate::model::{AccountId, Amount, CommodityCode, Date, decimal_text, u64_text};
use crate::text::str_equal_text;

verus! {

/// How `rust_decimal::Decimal` displays the decimal with these parts.
pub uninterp spec fn decimal_display(mantissa: i128, scale: u32) -> Seq<char>;

/// Displays a decimal through `rust_decimal::Decimal`'s `Display`.
///
/// Trusted: claims the text is [`decimal_display`] of the parts. The parts
/// must be within a decimal's range: `Decimal::from_i128_with_scale` panics
/// on any other.
#[verifier::external_body]
pub fn display_decimal(d: &Dec) -> (r: String)
    requires
        d.wf(),
    ensures
        r@ == decimal_display(d.mantissa, d.scale),
{
    rust_decimal::Decimal::from_i128_with_scale(d.mantissa, d.scale).to_string()
}

/// What `rust_decimal::Decimal`'s `FromStr` reads from `text`: the parts of
/// the decimal, or the message of the error it refuses the text with.
pub uninterp spec fn decimal_from_text(text: Seq<char>) -> Result<(i128, u32), Seq<char>>;

/// Parses a decimal through `rust_decimal::Decimal`'s `FromStr`.
///
/// Trusted: claims the result is [`decimal_from_text`] of the text — the
/// parsed decimal's parts, or its error's message — and a decimal within
/// range.
#[verifier::external_body]
pub fn parse_decimal(text: &str) -> (r: Result<Dec, String>)
    ensures
        match decimal_from_text(text@) {
            Ok((m, s)) => r == Ok::<Dec, String>(Dec { mantissa: m, scale: s }),
            Err(e) => r matches Err(t) && t@ == e,
        },
        r matches Ok(d) ==> d.wf(),
{
    match text.parse::<rust_decimal::Decimal>() {
        Ok(d) => Ok(Dec { mantissa: d.mantissa(), scale: d.scale() }),
        Err(e) => Err(e.to_string()),
    }
}

/// How `jiff::civil::Date` displays the date with these parts, e.g.
/// `2026-01-15`; `None` when `jiff` refuses the parts as a date.
pub uninterp spec fn date_display(year: i16, month: i8, day: i8) -> Option<Seq<char>>;

/// Displays a date through `jiff::civil::Date::new` and its `Display`.
///
/// Trusted: claims the text is [`date_display`] of the parts, and `None`
/// exactly when `jiff` refuses them.
#[verifier::external_body]
fn display_date(d: &Date) -> (r: Option<String>)
    ensures
        match date_display(d.year, d.month, d.day) {
            Some(t) => r matches Some(s) && s@ == t,
            None => r is None,
        },
{
    match jiff::civil::Date::new(d.year, d.month, d.day) {
        Ok(date) => Some(date.to_string()),
        Err(_) => None,
    }
}

/// An integer's decimal text, signed.
pub open spec fn int_text(v: int) -> Seq<char> {
    if v < 0 {
        "-"@ + decimal_text((-v) as nat)
    } else {
        decimal_text(v as nat)
    }
}

/// Renders an integer's decimal text, signed.
pub fn int_string(v: i64) -> (r: String)
    ensures
        r@ == int_text(v as int),
{
    let w = v as i128;
    if w < 0 {
        let m = (-w) as u64;
        let mut out = String::from_str("-");
        let t = u64_text(m);
        out.append(t.as_str());
        out
    } else {
        u64_text(w as u64)
    }
}

/// The text a date shows as: as `jiff` displays it; parts `jiff` refuses as
/// a date show as their numbers, separated by `-`.
pub open spec fn shown_date(d: Date) -> Seq<char> {
    match date_display(d.year, d.month, d.day) {
        Some(t) => t,
        None => int_text(d.year as int) + "-"@ + int_text(d.month as int) + "-"@ + int_text(d.day as int),
    }
}

/// Renders the text a date shows as.
pub fn date_string(d: &Date) -> (r: String)
    ensures
        r@ == shown_date(*d),
{
    match display_date(d) {
        Some(t) => t,
        None => {
            let mut out = int_string(d.year as i64);
            out.append("-");
            let m = int_string(d.month as i64);
            out.append(m.as_str());
            out.append("-");
            let day = int_string(d.day as i64);
            out.append(day.as_str());
            out
        },
    }
}

/// What `jiff::civil::Date`'s `FromStr` reads from `text`.
pub uninterp spec fn date_from_text(text: Seq<char>) -> Result<(i16, i8, i8), Seq<char>>;

/// Parses a date through `jiff::civil::Date`'s `FromStr`.
///
/// Trusted: claims the result is [`date_from_text`] of the text: the parsed
/// date's parts, or its error's message.
#[verifier::external_body]
pub fn parse_date(text: &str) -> (r: Result<Date, String>)
    ensures
        match date_from_text(text@) {
            Ok((y, m, d)) => r == Ok::<Date, String>(Date { year: y, month: m, day: d }),
            Err(e) => r matches Err(t) && t@ == e,
        },
{
    match text.parse::<jiff::civil::Date>() {
        Ok(date) => Ok(Date { year: date.year(), month: date.month(), day: date.day() }),
        Err(e) => Err(e.to_string()),
    }
}

/// How `jiff::Timestamp` displays the instant with these parts, e.g.
/// `2023-11-14T22:13:20Z`; `None` when `jiff` refuses the parts.
pub uninterp spec fn timestamp_display(seconds: i64, nanos: i32) -> Option<Seq<char>>;

/// Displays an instant through `jiff::Timestamp::new` and its `Display`.
///
/// Trusted: claims the text is [`timestamp_display`] of the parts, and
/// `None` exactly when `jiff` refuses them.
#[verifier::external_body]
fn display_timestamp(t: &Timestamp) -> (r: Option<String>)
    ensures
        match timestamp_display(t.seconds, t.nanos) {
            Some(x) => r matches Some(s) && s@ == x,
            None => r is None,
        },
{
    match jiff::Timestamp::new(t.seconds, t.nanos) {
        Ok(ts) => Some(ts.to_string()),
        Err(_) => None,
    }
}

/// The text an instant shows as: as `jiff` displays it; parts `jiff`
/// refuses show as their seconds and nanoseconds, separated by `.`.
pub open spec fn shown_timestamp(t: Timestamp) -> Seq<char> {
    match timestamp_display(t.seconds, t.nanos) {
        Some(x) => x,
        None => int_text(t.seconds as int) + "."@ + int_text(t.nanos as int),
    }
}

/// Renders the text an instant shows as.
pub fn timestamp_string(t: &Timestamp) -> (r: String)
    ensures
        r@ == shown_timestamp(*t),
{
    match display_timestamp(t) {
        Some(x) => x,
        None => {
            let mut out = int_string(t.seconds);
            out.append(".");
            let n = int_string(t.nanos as i64);
            out.append(n.as_str());
            out
        },
    }
}

/// The canonical string form of a value: text as it is, a number, date or
/// instant as its library displays it, a boolean as `true`/`false`, an amount
/// as its number and code separated by a space, an account as its id.
pub open spec fn canonical(v: MetaValue) -> Seq<char> {
    match v {
        MetaValue::Text(t) => t@,
        MetaValue::Number(d) => decimal_display(d.mantissa, d.scale),
        MetaValue::Boolean(b) => if b { "true"@ } else { "false"@ },
        MetaValue::Date(d) => shown_date(d),
        MetaValue::Timestamp(t) => shown_timestamp(t),
        MetaValue::Amount(a) => decimal_display(a.value.mantissa, a.value.scale) + " "@ + a.commodity@,
        MetaValue::Account(id) => decimal_text(id.0 as nat),
    }
}

/// Renders a value's canonical string form.
pub fn canonical_text(v: &MetaValue) -> (r: String)
    requires
        v.wf(),
    ensures
        r@ == canonical(*v),
{
    match v {
        MetaValue::Text(t) => t.clone(),
        MetaValue::Number(d) => display_decimal(d),
        MetaValue::Boolean(b) => {
            proof {
                reveal_strlit("true");
                reveal_strlit("false");
            }
            if *b { String::from_str("true") } else { String::from_str("false") }
        },
        MetaValue::Date(d) => date_string(d),
        MetaValue::Timestamp(t) => timestamp_string(t),
        MetaValue::Amount(a) => {
            let mut out = display_decimal(&a.value);
            out.append(" ");
            out.append(a.commodity.as_str());
            out
        },
        MetaValue::Account(id) => u64_text(id.0),
    }
}

/// The position of the first space in `s`.
pub open spec fn first_space(s: Seq<char>) -> Option<int>
    decreases s.len(),
{
    if s.len() == 0 {
        None
    } else if s[0] == ' ' {
        Some(0)
    } else {
        match first_space(s.drop_first()) {
            Some(k) => Some(k + 1),
            None => None,
        }
    }
}

/// Whether `text` reads as an amount — a number, one space, a nonempty code
/// — and `v` is that amount.
pub open spec fn amount_parses(text: Seq<char>, v: MetaValue) -> bool {
    match first_space(text) {
        None => false,
        Some(k) => k + 1 < text.len() && match decimal_from_text(text.take(k)) {
            Err(_) => false,
            Ok(p) => match v {
                MetaValue::Amount(a) => a.value == (Dec { mantissa: p.0, scale: p.1 }) && a.commodity@ == text.skip(
                    k + 1,
                ),
                _ => false,
            },
        },
    }
}

/// Whether `v` is the text `text`.
pub open spec fn is_text(v: MetaValue, text: Seq<char>) -> bool {
    v matches MetaValue::Text(t) && t@ == text
}

/// Whether `text` reads as a value of type `ty`, and then whether `v` is
/// that value. An amount reads as a number, one space, and a nonempty code.
pub open spec fn parses(ty: MetaType, text: Seq<char>, v: MetaValue) -> bool {
    match ty {
        MetaType::Text => v matches MetaValue::Text(t) && t@ == text,
        MetaType::Number => decimal_from_text(text) matches Ok(p) && v == MetaValue::Number(
            Dec { mantissa: p.0, scale: p.1 },
        ),
        MetaType::Boolean => (text == "true"@ && v == MetaValue::Boolean(true)) || (text == "false"@ && v
            == MetaValue::Boolean(false)),
        MetaType::Date => date_from_text(text) matches Ok(p) && v == MetaValue::Date(
            Date { year: p.0, month: p.1, day: p.2 },
        ),
        MetaType::Timestamp => timestamp_from_text(text) matches Ok(p) && v == MetaValue::Timestamp(
            Timestamp { seconds: p.0, nanos: p.1 },
        ),
        MetaType::Amount => amount_parses(text, v),
        MetaType::Account => id_value(text) matches Some(n) && v == MetaValue::Account(AccountId(n)),
    }
}

/// Whether `text` reads as a value of type `ty` at all.
pub open spec fn parsable(ty: MetaType, text: Seq<char>) -> bool {
    match ty {
        MetaType::Text => true,
        MetaType::Number => decimal_from_text(text) is Ok,
        MetaType::Boolean => text == "true"@ || text == "false"@,
        MetaType::Date => date_from_text(text) is Ok,
        MetaType::Timestamp => timestamp_from_text(text) is Ok,
        MetaType::Amount => first_space(text) matches Some(k) && k + 1 < text.len() && decimal_from_text(
            text.take(k),
        ) is Ok,
        MetaType::Account => id_value(text) is Some,
    }
}

/// Finds the first space in `s`.
fn find_space(s: &str) -> (r: Option<usize>)
    ensures
        r matches Some(k) ==> first_space(s@) == Some(k as int) && k < s@.len(),
        r is None ==> first_space(s@) is None,
{
    let n = s.unicode_len();
    let mut i: usize = 0;
    proof {
        assert(s@.skip(0) =~= s@);
    }
    while i < n
        invariant
            n == s@.len(),
            i <= n,
            first_space(s@) == match first_space(s@.skip(i as int)) {
                Some(k) => Some(k + i),
                None => None,
            },
        decreases n - i,
    {
        proof {
            assert(s@.skip(i as int)[0] == s@[i as int]);
            assert(s@.skip(i as int).drop_first() =~= s@.skip(i + 1));
        }
        if s.get_char(i) == ' ' {
            return Some(i);
        }
        i = i + 1;
    }
    None
}

/// Parses `text` as a value of type `ty`, with that type's parser.
pub fn parse_value(ty: MetaType, text: &str) -> (r: Option<MetaValue>)
    ensures
        r is Some <==> parsable(ty, text@),
        r matches Some(v) ==> parses(ty, text@, v) && v.wf(),
{
    proof {
        reveal_strlit("true");
        reveal_strlit("false");
    }
    match ty {
        MetaType::Text => Some(MetaValue::Text(String::from_str(text))),
        MetaType::Number => match parse_decimal(text) {
            Ok(d) => Some(MetaValue::Number(d)),
            Err(_) => None,
        },
        MetaType::Boolean => {
            if str_equal_text(text, "true") {
                Some(MetaValue::Boolean(true))
            } else if str_equal_text(text, "false") {
                Some(MetaValue::Boolean(false))
            } else {
                None
            }
        },
        MetaType::Date => match parse_date(text) {
            Ok(d) => Some(MetaValue::Date(d)),
            Err(_) => None,
        },
        MetaType::Timestamp => match parse_timestamp(text) {
            Ok(t) => Some(MetaValue::Timestamp(t)),
            Err(_) => None,
        },
        MetaType::Amount => {
            let k = match find_space(text) {
                Some(k) => k,
                None => {
                    return None;
                },
            };
            let n = text.unicode_len();
            if k + 1 >= n {
                return None;
            }
            proof {
                assert(text@.subrange(0, k as int) =~= text@.take(k as int));
            }
            let value = match parse_decimal(text.substring_char(0, k)) {
                Ok(d) => d,
                Err(_) => {
                    return None;
                },
            };
            let code = String::from_str(text.substring_char(k + 1, n));
            proof {
                assert(text@.subrange(0, k as int) =~= text@.take(k as int));
                assert(text@.subrange(k + 1, n as int) =~= text@.skip(k + 1));
            }
            Some(MetaValue::Amount(Amount { value, commodity: CommodityCode(code) }))
        },
        MetaType::Account => match parse_id(text) {
            Some(n) => Some(MetaValue::Account(AccountId(n))),
            None => None,
        },
    }
}

/// The outcome of fitting a value to a key's registered type.
#[derive(Debug, Clone, PartialEq, Eq)]
pub enum Coerced {
    /// The value fits; its type is the registered type.
    Fits(MetaValue),
    /// The value cannot be represented in the registered type; the caller
    /// stores its canonical string and flags the entry.
    Mismatch,
}

/// Whether `c` is what fitting `value` to `registered` yields.
pub open spec fn coerced(value: MetaValue, registered: MetaType, c: Coerced) -> bool {
    if value.spec_ty() == registered {
        c == Coerced::Fits(value)
    } else if registered == MetaType::Text {
        c matches Coerced::Fits(MetaValue::Text(t)) && t@ == canonical(value)
    } else {
        match value {
            MetaValue::Text(t) => if parsable(registered, t@) {
                c matches Coerced::Fits(v) && parses(registered, t@, v)
            } else {
                c is Mismatch
            },
            _ => c is Mismatch,
        }
    }
}

/// Fits `value` to `registered`.
pub fn coerce(value: &MetaValue, registered: MetaType) -> (r: Coerced)
    requires
        value.wf(),
    ensures
        coerced(*value, registered, r),
{
    if value.ty() == registered {
        return Coerced::Fits(value.clone_value());
    }
    if registered == MetaType::Text {
        return Coerced::Fits(MetaValue::Text(canonical_text(value)));
    }
    match value {
        MetaValue::Text(text) => match parse_value(registered, text.as_str()) {
            Some(parsed) => Coerced::Fits(parsed),
            None => Coerced::Mismatch,
        },
        _ => Coerced::Mismatch,
    }
}

/// A value that parses as a type has that type.
pub proof fn lemma_parsed_value_has_its_type(ty: MetaType, text: Seq<char>, v: MetaValue)
    requires
        parses(ty, text, v),
    ensures
        v.spec_ty() == ty,
{
}

/// Whatever fits a key has the key's registered type: coercion never hands
/// back a value of another type.
pub proof fn lemma_fitted_value_has_registered_type(value: MetaValue, registered: MetaType, v: MetaValue)
    requires
        coerced(value, registered, Coerced::Fits(v)),
    ensures
        v.spec_ty() == registered,
{
}

/// Identity always fits and keeps the value as it is.
pub proof fn lemma_identity_fits(value: MetaValue)
    ensures
        coerced(value, value.spec_ty(), Coerced::Fits(value)),
{
}

/// The text an optional string holds.
pub open spec fn opt_text(o: Option<String>) -> Option<Seq<char>> {
    match o {
        Some(a) => Some(a@),
        None => None,
    }
}

/// What reading back a stored row yields: a flagged row as flagged text; an
/// account row from its link, flagged text when the link is cleared or
/// unreadable; any other row parsed with its type's parser, flagged text when
/// that fails.
pub open spec fn read_back(ty: MetaType, text: Seq<char>, account: Option<Seq<char>>, flagged: bool, r: (MetaValue, bool)) -> bool {
    if flagged {
        r.1 && is_text(r.0, text)
    } else if ty == MetaType::Account {
        match account {
            Some(a) if id_value(a) is Some => r == (MetaValue::Account(AccountId(id_value(a)->0)), false),
            _ => r.1 && is_text(r.0, text),
        }
    } else if parsable(ty, text) {
        !r.1 && parses(ty, text, r.0)
    } else {
        r.1 && is_text(r.0, text)
    }
}

/// Reconstructs one stored row's value and mismatch flag. An unflagged row
/// that will not parse is corrupt rather than expected, but it still comes
/// back as flagged text rather than failing the load.
pub fn read_value(ty: MetaType, value_text: String, value_account: Option<String>, flagged: bool) -> (r: (MetaValue, bool))
    ensures
        read_back(
            ty,
            value_text@,
            opt_text(value_account),
            flagged,
            r,
        ),
        r.0.wf(),
{
    if flagged {
        return (MetaValue::Text(value_text), true);
    }
    if ty == MetaType::Account {
        return match value_account {
            Some(id) => match parse_id(id.as_str()) {
                Some(n) => (MetaValue::Account(AccountId(n)), false),
                None => (MetaValue::Text(value_text), true),
            },
            None => (MetaValue::Text(value_text), true),
        };
    }
    match parse_value(ty, value_text.as_str()) {
        Some(parsed) => (parsed, false),
        None => (MetaValue::Text(value_text), true),
    }
}

/// How a stored row is refitted to a key's new type: the value it fits as,
/// or the stored text flagged as a mismatch.
#[derive(Debug)]
pub enum Refit {
    /// The row's value fits the new type.
    Fits(MetaValue),
    /// The row keeps the exact text it stored and is flagged.
    Mismatch(String),
}

/// Refits one stored row of a key retyped from `from` to `to`. A retype to
/// text relabels the row as it stands: it keeps the exact text it stored (an
/// account value its path, not its id), unflagged. Otherwise the row is read
/// back as `from` — a flagged row reads back as text — and fitted to `to`; a
/// row that will not fit keeps the exact text it stored, so an account path
/// is not replaced by an id.
pub fn refit_row(from: MetaType, to: MetaType, stored_text: String, stored_account: Option<String>, flag: bool) -> (r: Refit)
    ensures
        to == MetaType::Text ==> (r matches Refit::Fits(MetaValue::Text(t)) && t@ == stored_text@),
        to != MetaType::Text ==> exists|cur: (MetaValue, bool)| {
            &&& #[trigger] read_back(
                from,
                stored_text@,
                opt_text(stored_account),
                flag,
                cur,
            )
            &&& match r {
                Refit::Fits(v) => coerced(cur.0, to, Coerced::Fits(v)),
                Refit::Mismatch(t) => coerced(cur.0, to, Coerced::Mismatch) && t@ == stored_text@,
            }
        },
{
    if to == MetaType::Text {
        return Refit::Fits(MetaValue::Text(stored_text));
    }
    let kept = stored_text.clone();
    let current = read_value(from, stored_text, stored_account, flag);
    match coerce(&current.0, to) {
        Coerced::Fits(v) => Refit::Fits(v),
        Coerced::Mismatch => Refit::Mismatch(kept),
    }
}

/// The name a type is stored under.
pub open spec fn stored_type_name(ty: MetaType) -> Seq<char> {
    match ty {
        MetaType::Text => "text"@,
        MetaType::Number => "number"@,
        MetaType::Boolean => "boolean"@,
        MetaType::Date => "date"@,
        MetaType::Timestamp => "timestamp"@,
        MetaType::Amount => "amount"@,
        MetaType::Account => "account"@,
    }
}

/// The type stored under the name `s`, if any.
pub open spec fn type_named(s: Seq<char>) -> Option<MetaType> {
    if s == "text"@ {
        Some(MetaType::Text)
    } else if s == "number"@ {
        Some(MetaType::Number)
    } else if s == "boolean"@ {
        Some(MetaType::Boolean)
    } else if s == "date"@ {
        Some(MetaType::Date)
    } else if s == "timestamp"@ {
        Some(MetaType::Timestamp)
    } else if s == "amount"@ {
        Some(MetaType::Amount)
    } else if s == "account"@ {
        Some(MetaType::Account)
    } else {
        None
    }
}

/// Reads a stored type name, refusing one it does not know.
pub fn type_from_name(s: &str) -> (r: BcResult<MetaType>)
    ensures
        match type_named(s@) {
            Some(ty) => r == Ok::<MetaType, BcError>(ty),
            None => r matches Err(BcError::BadData(m)) && m@ == "unknown metadata type '"@ + s@ + "'"@,
        },
{
    proof {
        reveal_strlit("text");
        reveal_strlit("number");
        reveal_strlit("boolean");
        reveal_strlit("date");
        reveal_strlit("timestamp");
        reveal_strlit("amount");
        reveal_strlit("account");
    }
    if str_equal_text(s, "text") {
        Ok(MetaType::Text)
    } else if str_equal_text(s, "number") {
        Ok(MetaType::Number)
    } else if str_equal_text(s, "boolean") {
        Ok(MetaType::Boolean)
    } else if str_equal_text(s, "date") {
        Ok(MetaType::Date)
    } else if str_equal_text(s, "timestamp") {
        Ok(MetaType::Timestamp)
    } else if str_equal_text(s, "amount") {
        Ok(MetaType::Amount)
    } else if str_equal_text(s, "account") {
        Ok(MetaType::Account)
    } else {
        let mut m = String::from_str("unknown metadata type '");
        m.append(s);
        m.append("'");
        Err(BcError::BadData(m))
    }
}

/// The name a type is stored under, as text.
pub fn type_name_text(ty: MetaType) -> (r: &'static str)
    ensures
        r@ == stored_type_name(ty),
{
    match ty {
        MetaType::Text => "text",
        MetaType::Number => "number",
        MetaType::Boolean => "boolean",
        MetaType::Date => "date",
        MetaType::Timestamp => "timestamp",
        MetaType::Amount => "amount",
        MetaType::Account => "account",
    }
}

/// A type stored by its name reads back as itself.
pub proof fn lemma_type_name_round_trips(ty: MetaType)
    ensures
        type_named(stored_type_name(ty)) == Some(ty),
{
    reveal_strlit("text");
    reveal_strlit("number");
    reveal_strlit("boolean");
    reveal_strlit("date");
    reveal_strlit("timestamp");
    reveal_strlit("amount");
    reveal_strlit("account");
    let (t, n, b, d, ts, a, ac) = ("text"@, "number"@, "boolean"@, "date"@, "timestamp"@, "amount"@, "account"@);
    assert(t.len() == 4 && n.len() == 6 && b.len() == 7 && d.len() == 4 && ts.len() == 9 && a.len() == 6 && ac.len() == 7);
    assert(t[0] != d[0]);
    assert(n[0] != a[0]);
    assert(b[0] != ac[0]);
    match ty {
        MetaType::Text => {},
        MetaType::Number => {
            assert(n != t);
        },
        MetaType::Boolean => {
            assert(b != t && b != n);
        },
        MetaType::Date => {
            assert(d != t && d != n && d != b);
        },
        MetaType::Timestamp => {
            assert(ts != t && ts != n && ts != b && ts != d);
        },
        MetaType::Amount => {
            assert(a != t && a != n && a != b && a != d && a != ts);
        },
        MetaType::Account => {
            assert(ac != t && ac != n && ac != b && ac != d && ac != ts && ac != a);
        },
    }
}

/// What a retype does.
#[derive(Debug, Clone, Copy, PartialEq, Eq, Structural)]
pub enum Retype {
    /// The key already holds the type: nothing changes, nothing is recorded.
    Unchanged(MetaType),
    /// The key changes type: every row is refitted and the change recorded.
    Change { from: MetaType, to: MetaType },
}

/// The message naming an unregistered key.
pub open spec fn key_not_found(key: Seq<char>) -> Seq<char> {
    "metadata key '"@ + key + "'"@
}

/// Decides a retype of `key` to `to` from the type name stored for it
/// (`None` when the key is not registered).
pub fn retype_decision(key: &MetaKey, stored: &Option<String>, to: MetaType) -> (r: BcResult<Retype>)
    ensures
        match stored {
            None => r matches Err(BcError::NotFound(m)) && m@ == key_not_found(key.0@),
            Some(s) => match type_named(s@) {
                None => r matches Err(BcError::BadData(_)),
                Some(from) => r == Ok::<Retype, BcError>(
                    if from == to { Retype::Unchanged(from) } else { Retype::Change { from, to } },
                ),
            },
        },
{
    match stored {
        None => {
            let mut m = String::from_str("metadata key '");
            m.append(key.0.as_str());
            m.append("'");
            Err(BcError::NotFound(m))
        },
        Some(s) => {
            let from = type_from_name(s.as_str())?;
            if from == to {
                Ok(Retype::Unchanged(from))
            } else {
                Ok(Retype::Change { from, to })
            }
        },
    }
}

/// The message refusing a rename onto a registered key.
pub open spec fn rename_taken(from: Seq<char>, to: Seq<char>) -> Seq<char> {
    "cannot rename metadata key '"@ + from + "' to '"@ + to + "': '"@ + to + "' is already registered"@
}

/// Decides a rename of `from` to `to`, from whether `from` is registered and
/// whether `to` already is: a rename to the same name does nothing
/// (`Ok(false)`), an unregistered source is not found, a registered
/// destination is refused rather than merged, and otherwise the rename goes
/// ahead (`Ok(true)`).
pub fn rename_decision(from: &MetaKey, to: &MetaKey, source_registered: bool, destination_registered: bool) -> (r: BcResult<bool>)
    ensures
        from.0@ == to.0@ ==> r == Ok::<bool, BcError>(false),
        from.0@ != to.0@ && !source_registered ==> (r matches Err(BcError::NotFound(m)) && m@ == key_not_found(from.0@)),
        from.0@ != to.0@ && source_registered && destination_registered ==> (r matches Err(BcError::InvalidInput(m))
            && m@ == rename_taken(from.0@, to.0@)),
        from.0@ != to.0@ && source_registered && !destination_registered ==> r == Ok::<bool, BcError>(true),
{
    if str_equal_text(from.0.as_str(), to.0.as_str()) {
        return Ok(false);
    }
    if !source_registered {
        let mut m = String::from_str("metadata key '");
        m.append(from.0.as_str());
        m.append("'");
        return Err(BcError::NotFound(m));
    }
    if destination_registered {
        let mut m = String::from_str("cannot rename metadata key '");
        m.append(from.0.as_str());
        m.append("' to '");
        m.append(to.0.as_str());
        m.append("': '");
        m.append(to.0.as_str());
        m.append("' is already registered");
        return Err(BcError::InvalidInput(m));
    }
    Ok(true)
}

} // verus!
