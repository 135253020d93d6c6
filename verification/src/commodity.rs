//! Resolution of imported commodity codes against the registry.
//!
//! Codes match case-insensitively; symbols and aliases match exactly.

use vstd::prelude::*;
use vstd::string::*;

use crate::model::{Commodity, CommodityCode};

verus! {

/// What `str::to_uppercase` returns for `s`: its Unicode uppercase mapping.
pub uninterp spec fn upper_case(s: Seq<char>) -> Seq<char>;

/// Upper-cases `s` through `str::to_uppercase`.
///
/// Trusted: claims only that the result is the uppercase mapping of `s`, a
/// function of `s` alone, named [`upper_case`].
#[verifier::external_body]
fn to_upper(s: &str) -> (r: String)
    ensures
        r@ == upper_case(s@),
{
    s.to_uppercase()
}

/// A `(key, registered code)` entry of a resolution table.
pub type Entry = (Seq<char>, Seq<char>);

/// The code table: each commodity's upper-cased code mapped to its registered
/// spelling, in registry order.
pub open spec fn code_entries(cs: Seq<Commodity>) -> Seq<Entry> {
    cs.map_values(|c: Commodity| (upper_case(c.code@), c.code@))
}

/// The markers one commodity contributes: its symbol, then its aliases.
pub open spec fn markers_of(c: Commodity) -> Seq<Entry> {
    let symbol: Seq<Entry> = match c.symbol {
        Some(s) => seq![(s@, c.code@)],
        None => Seq::empty(),
    };
    symbol + c.aliases@.map_values(|a: String| (a@, c.code@))
}

/// The marker table: every commodity's markers, in registry order.
pub open spec fn marker_entries(cs: Seq<Commodity>) -> Seq<Entry>
    decreases cs.len(),
{
    if cs.len() == 0 {
        Seq::empty()
    } else {
        marker_entries(cs.drop_last()) + markers_of(cs.last())
    }
}

/// The value of the last entry of `entries` keyed `key`: a table built by
/// inserting the entries in order, each overwriting the one before.
pub open spec fn last_value(entries: Seq<Entry>, key: Seq<char>) -> Option<Seq<char>>
    decreases entries.len(),
{
    if entries.len() == 0 {
        None
    } else if entries.last().0 == key {
        Some(entries.last().1)
    } else {
        last_value(entries.drop_last(), key)
    }
}

/// What resolving `raw` against the registry `cs` yields: nothing for an
/// empty code, else the code table's match for its uppercase form, else the
/// marker table's exact match.
pub open spec fn resolve_code(cs: Seq<Commodity>, raw: Seq<char>) -> Option<Seq<char>> {
    if raw.len() == 0 {
        None
    } else {
        match last_value(code_entries(cs), upper_case(raw)) {
            Some(code) => Some(code),
            None => last_value(marker_entries(cs), raw),
        }
    }
}

/// Resolves a commodity code as an import states it to a registered
/// commodity, over one snapshot of the registry.
pub struct CommodityResolver {
    /// Upper-cased code → the registered spelling of that code.
    by_code: Vec<(String, String)>,
    /// Symbol or alias, verbatim → the registered code it denotes.
    by_marker: Vec<(String, String)>,
    /// The registry the tables were built from.
    registry: Ghost<Seq<Commodity>>,
}

/// The text of a table's entries.
pub open spec fn entries_view(t: Seq<(String, String)>) -> Seq<Entry> {
    t.map_values(|e: (String, String)| (e.0@, e.1@))
}

impl CommodityResolver {
    /// The registry this resolver was built over.
    pub closed spec fn registry(&self) -> Seq<Commodity> {
        self.registry@
    }

    #[verifier::type_invariant]
    spec fn tables_match(&self) -> bool {
        &&& entries_view(self.by_code@) == code_entries(self.registry@)
        &&& entries_view(self.by_marker@) == marker_entries(self.registry@)
    }

    /// Builds a resolver from an already-loaded set of commodities.
    pub fn from_commodities(all: &[Commodity]) -> (r: CommodityResolver)
        ensures
            r.registry() == all@,
    {
        let mut by_code: Vec<(String, String)> = Vec::new();
        let mut by_marker: Vec<(String, String)> = Vec::new();
        let mut i: usize = 0;
        while i < all.len()
            invariant
                i <= all@.len(),
                entries_view(by_code@) == code_entries(all@.take(i as int)),
                entries_view(by_marker@) == marker_entries(all@.take(i as int)),
            decreases all@.len() - i,
        {
            let c = &all[i];
            let ghost before_markers = entries_view(by_marker@);
            proof {
                assert(all@.take(i + 1).drop_last() =~= all@.take(i as int));
                assert(all@.take(i + 1).last() == *c);
            }
            let ghost before_codes = by_code@;
            let entry = (to_upper(c.code.as_str()), c.code.clone());
            by_code.push(entry);
            proof {
                lemma_entries_view_push(before_codes, entry);
                assert(code_entries(all@.take(i + 1)) =~= code_entries(all@.take(i as int)).push(
                    (upper_case(c.code@), c.code@)));
            }
            let ghost symbol_part: Seq<Entry> = markers_of(*c).take(
                if c.symbol is Some { 1int } else { 0int },
            );
            if let Some(symbol) = &c.symbol {
                let ghost before = by_marker@;
                let entry = (symbol.clone(), c.code.clone());
                by_marker.push(entry);
                proof {
                    lemma_entries_view_push(before, entry);
                    assert(symbol_part =~= seq![(symbol@, c.code@)]);
                }
            } else {
                proof {
                    assert(symbol_part =~= Seq::<Entry>::empty());
                }
            }
            proof {
                assert(entries_view(by_marker@) =~= before_markers + symbol_part);
            }
            let mut k: usize = 0;
            while k < c.aliases.len()
                invariant
                    k <= c.aliases@.len(),
                    entries_view(by_marker@) == before_markers + symbol_part
                        + c.aliases@.take(k as int).map_values(|a: String| (a@, c.code@)),
                decreases c.aliases@.len() - k,
            {
                let ghost before = by_marker@;
                let entry = (c.aliases[k].clone(), c.code.clone());
                by_marker.push(entry);
                proof {
                    lemma_entries_view_push(before, entry);
                    assert(c.aliases@.take(k + 1).map_values(|a: String| (a@, c.code@))
                        =~= c.aliases@.take(k as int).map_values(|a: String| (a@, c.code@)).push(
                        (c.aliases@[k as int]@, c.code@)));
                    assert(entries_view(by_marker@) =~= before_markers + symbol_part
                        + c.aliases@.take(k + 1).map_values(|a: String| (a@, c.code@)));
                }
                k = k + 1;
            }
            proof {
                assert(c.aliases@.take(k as int) =~= c.aliases@);
                assert(markers_of(*c) =~= symbol_part + c.aliases@.map_values(|a: String| (a@, c.code@)));
                assert(entries_view(by_marker@) =~= marker_entries(all@.take(i + 1)));
            }
            i = i + 1;
        }
        proof {
            assert(all@.take(i as int) =~= all@);
        }
        CommodityResolver { by_code, by_marker, registry: Ghost(all@) }
    }

    /// The registered code of the last entry of `table` keyed `key`.
    fn lookup<'a>(table: &'a Vec<(String, String)>, key: &str) -> (r: Option<&'a str>)
        ensures
            r matches Some(v) ==> last_value(entries_view(table@), key@) == Some(v@),
            r is None ==> last_value(entries_view(table@), key@) is None,
    {
        let mut i = table.len();
        proof {
            assert(table@.take(i as int) =~= table@);
        }
        while i > 0
            invariant
                i <= table@.len(),
                last_value(entries_view(table@), key@) == last_value(entries_view(table@.take(i as int)), key@),
            decreases i,
        {
            proof {
                assert(entries_view(table@.take(i as int)).drop_last() =~= entries_view(table@.take(i - 1)));
            }
            if crate::text::str_equal_text(table[i - 1].0.as_str(), key) {
                return Some(table[i - 1].1.as_str());
            }
            i = i - 1;
        }
        None
    }

    /// Resolves `code` to the registered spelling of the commodity it names,
    /// or `None` when nothing matches.
    pub fn resolve(&self, code: &CommodityCode) -> (r: Option<&str>)
        ensures
            r matches Some(v) ==> resolve_code(self.registry(), code@) == Some(v@),
            r is None ==> resolve_code(self.registry(), code@) is None,
    {
        proof {
            use_type_invariant(self);
        }
        let raw = code.as_str();
        if raw.unicode_len() == 0 {
            return None;
        }
        let upper = to_upper(raw);
        match Self::lookup(&self.by_code, upper.as_str()) {
            Some(found) => Some(found),
            None => Self::lookup(&self.by_marker, raw),
        }
    }
}

proof fn lemma_entries_view_push(t: Seq<(String, String)>, e: (String, String))
    ensures
        entries_view(t.push(e)) == entries_view(t).push((e.0@, e.1@)),
{
    assert(entries_view(t.push(e)) =~= entries_view(t).push((e.0@, e.1@)));
}

proof fn lemma_code_entry_found(cs: Seq<Commodity>, i: int)
    requires
        0 <= i < cs.len(),
        forall|j: int| i < j < cs.len() ==> upper_case(#[trigger] cs[j].code@) != upper_case(cs[i].code@),
    ensures
        last_value(code_entries(cs), upper_case(cs[i].code@)) == Some(cs[i].code@),
    decreases cs.len(),
{
    let e = code_entries(cs);
    assert(e.last() == (upper_case(cs[cs.len() - 1].code@), cs[cs.len() - 1].code@));
    if i < cs.len() - 1 {
        let d = cs.drop_last();
        assert forall|j: int| i < j < d.len() implies upper_case(#[trigger] d[j].code@) != upper_case(d[i].code@) by {
            assert(d[j] == cs[j]);
        }
        lemma_code_entry_found(d, i);
        assert(e.drop_last() =~= code_entries(d));
    }
}

/// Codes match case-insensitively: any spelling whose uppercase form is that
/// of a registered code resolves to the spelling the registry holds, when no
/// later commodity claims the same uppercase form.
pub proof fn lemma_code_resolves_case_insensitively(cs: Seq<Commodity>, i: int, raw: Seq<char>)
    requires
        0 <= i < cs.len(),
        raw.len() > 0,
        upper_case(raw) == upper_case(cs[i].code@),
        forall|j: int| i < j < cs.len() ==> upper_case(#[trigger] cs[j].code@) != upper_case(cs[i].code@),
    ensures
        resolve_code(cs, raw) == Some(cs[i].code@),
{
    lemma_code_entry_found(cs, i);
}

} // verus!
