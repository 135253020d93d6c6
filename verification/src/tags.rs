//! The tag spellings a document states: each distinct spelling is read once,
//! in the order it first appears, and one that does not parse as a tag path
//! is reported once and dropped, the leg it sits on being kept.

use vstd::prelude::*;

use crate::import::{RawPosting, RawTransaction};
use crate::import_exec::{location_of, location_text, Diagnostic, SkipCause};
use crate::text::{insert_sorted, lemma_push_to_set, strictly_sorted, texts};

verus! {

/// The tags stated on `postings`, in order.
pub open spec fn posting_tags(postings: Seq<RawPosting>) -> Seq<String>
    decreases postings.len(),
{
    if postings.len() == 0 {
        Seq::empty()
    } else {
        posting_tags(postings.drop_last()) + postings.last().tags@
    }
}

/// Each of `tags` with the location `location`.
pub open spec fn located(location: Seq<char>, tags: Seq<String>) -> Seq<(Seq<char>, Seq<char>)> {
    tags.map_values(|t: String| (location, t@))
}

/// The tags a transaction states — its own, then each leg's — each with the
/// transaction's location.
pub open spec fn stated_in(raw: RawTransaction) -> Seq<(Seq<char>, Seq<char>)> {
    located(location_text(raw), raw.tags@ + posting_tags(raw.postings@))
}

/// Every tag the transactions state, in document order.
pub open spec fn all_stated(raws: Seq<RawTransaction>) -> Seq<(Seq<char>, Seq<char>)>
    decreases raws.len(),
{
    if raws.len() == 0 {
        Seq::empty()
    } else {
        all_stated(raws.drop_last()) + stated_in(raws.last())
    }
}

/// The spellings of located tags.
pub open spec fn spellings(s: Seq<(Seq<char>, Seq<char>)>) -> Seq<Seq<char>> {
    s.map_values(|x: (Seq<char>, Seq<char>)| x.1)
}

/// `firsts` extended by `x`, unless its spelling was seen already.
pub open spec fn absorbed(firsts: Seq<(Seq<char>, Seq<char>)>, x: (Seq<char>, Seq<char>)) -> Seq<(Seq<char>, Seq<char>)> {
    if spellings(firsts).contains(x.1) {
        firsts
    } else {
        firsts.push(x)
    }
}

/// The first occurrence of each spelling, in order.
pub open spec fn first_spellings(s: Seq<(Seq<char>, Seq<char>)>) -> Seq<(Seq<char>, Seq<char>)>
    decreases s.len(),
{
    if s.len() == 0 {
        Seq::empty()
    } else {
        absorbed(first_spellings(s.drop_last()), s.last())
    }
}

/// Each spelling is read once: the first occurrences hold every spelling
/// stated, and no spelling twice.
pub proof fn lemma_each_spelling_read_once(s: Seq<(Seq<char>, Seq<char>)>)
    ensures
        spellings(first_spellings(s)).no_duplicates(),
        forall|i: int| 0 <= i < s.len() ==> spellings(first_spellings(s)).contains(#[trigger] s[i].1),
    decreases s.len(),
{
    if s.len() > 0 {
        let prev = first_spellings(s.drop_last());
        lemma_each_spelling_read_once(s.drop_last());
        let x = s.last();
        assert forall|i: int| 0 <= i < s.len() implies spellings(first_spellings(s)).contains(#[trigger] s[i].1) by {
            if i < s.len() - 1 {
                assert(s.drop_last()[i] == s[i]);
                let j = choose|j: int| 0 <= j < spellings(prev).len() && spellings(prev)[j] == s[i].1;
                if !spellings(prev).contains(x.1) {
                    assert(spellings(prev.push(x))[j] == s[i].1);
                }
            } else if !spellings(prev).contains(x.1) {
                assert(spellings(prev.push(x))[prev.len() as int] == x.1);
            }
        }
        if !spellings(prev).contains(x.1) {
            assert(spellings(prev.push(x)) =~= spellings(prev).push(x.1));
        }
    }
}

/// The views of located spellings as held.
pub open spec fn pairs(v: Seq<(String, String)>) -> Seq<(Seq<char>, Seq<char>)> {
    v.map_values(|x: (String, String)| (x.0@, x.1@))
}

/// Keeps the first occurrence of the spelling `tag`, found at `location`;
/// `seen` holds, sorted, the spellings kept so far.
fn absorb(out: &mut Vec<(String, String)>, seen: &mut Vec<String>, location: &str, tag: &String)
    requires
        strictly_sorted(texts(old(seen)@)),
        texts(old(seen)@).to_set() == spellings(pairs(old(out)@)).to_set(),
    ensures
        strictly_sorted(texts(final(seen)@)),
        texts(final(seen)@).to_set() == spellings(pairs(final(out)@)).to_set(),
        pairs(final(out)@) == absorbed(pairs(old(out)@), (location@, tag@)),
{
    let ghost before = pairs(out@);
    let fresh = insert_sorted(seen, tag.clone());
    proof {
        assert(texts(old(seen)@).contains(tag@) <==> spellings(before).contains(tag@)) by {
            if texts(old(seen)@).contains(tag@) {
                assert(texts(old(seen)@).to_set().contains(tag@));
            }
            if spellings(before).contains(tag@) {
                assert(spellings(before).to_set().contains(tag@));
            }
        }
    }
    if fresh {
        out.push((String::from_str(location), tag.clone()));
        proof {
            assert(pairs(out@) =~= before.push((location@, tag@)));
            assert(spellings(pairs(out@)) =~= spellings(before).push(tag@));
            lemma_push_to_set(spellings(before), tag@);
        }
    } else {
        proof {
            assert(texts(final(seen)@).to_set() =~= texts(old(seen)@).to_set());
        }
    }
}

/// The first occurrence of each tag spelling the transactions state, in
/// document order, with the location of the transaction stating it.
pub fn distinct_tag_spellings(raws: &Vec<RawTransaction>) -> (r: Vec<(String, String)>)
    ensures
        pairs(r@) == first_spellings(all_stated(raws@)),
{
    let mut out: Vec<(String, String)> = Vec::new();
    let mut seen: Vec<String> = Vec::new();
    let ghost mut processed: Seq<(Seq<char>, Seq<char>)> = Seq::empty();
    proof {
        assert(pairs(out@) =~= Seq::<(Seq<char>, Seq<char>)>::empty());
        assert(texts(seen@) =~= Seq::<Seq<char>>::empty());
        assert(spellings(pairs(out@)) =~= Seq::<Seq<char>>::empty());
        assert(raws@.take(0) =~= Seq::<RawTransaction>::empty());
    }
    let mut i: usize = 0;
    while i < raws.len()
        invariant
            i <= raws@.len(),
            strictly_sorted(texts(seen@)),
            texts(seen@).to_set() == spellings(pairs(out@)).to_set(),
            pairs(out@) == first_spellings(processed),
            processed == all_stated(raws@.take(i as int)),
        decreases raws@.len() - i,
    {
        let raw = &raws[i];
        let location = location_of(raw);
        let ghost base = processed;
        let ghost loc = location_text(*raw);
        let mut j: usize = 0;
        proof {
            assert(base + located(loc, raw.tags@.take(0)) =~= base);
        }
        while j < raw.tags.len()
            invariant
                j <= raw.tags@.len(),
                location@ == loc,
                strictly_sorted(texts(seen@)),
                texts(seen@).to_set() == spellings(pairs(out@)).to_set(),
                pairs(out@) == first_spellings(processed),
                processed == base + located(loc, raw.tags@.take(j as int)),
            decreases raw.tags@.len() - j,
        {
            absorb(&mut out, &mut seen, location, &raw.tags[j]);
            proof {
                let x = (loc, raw.tags@[j as int]@);
                assert(processed.push(x).drop_last() =~= processed);
                processed = processed.push(x);
                assert(base + located(loc, raw.tags@.take(j + 1)) =~= processed);
            }
            j = j + 1;
        }
        let ghost mid = processed;
        proof {
            assert(raw.tags@.take(raw.tags@.len() as int) =~= raw.tags@);
            assert(raw.postings@.take(0) =~= Seq::<RawPosting>::empty());
            assert(mid + located(loc, posting_tags(raw.postings@.take(0))) =~= mid);
        }
        let mut p: usize = 0;
        while p < raw.postings.len()
            invariant
                p <= raw.postings@.len(),
                location@ == loc,
                strictly_sorted(texts(seen@)),
                texts(seen@).to_set() == spellings(pairs(out@)).to_set(),
                pairs(out@) == first_spellings(processed),
                processed == mid + located(loc, posting_tags(raw.postings@.take(p as int))),
            decreases raw.postings@.len() - p,
        {
            let posting = &raw.postings[p];
            let ghost start = processed;
            let mut q: usize = 0;
            proof {
                assert(start + located(loc, posting.tags@.take(0)) =~= start);
            }
            while q < posting.tags.len()
                invariant
                    q <= posting.tags@.len(),
                    location@ == loc,
                    strictly_sorted(texts(seen@)),
                    texts(seen@).to_set() == spellings(pairs(out@)).to_set(),
                    pairs(out@) == first_spellings(processed),
                    processed == start + located(loc, posting.tags@.take(q as int)),
                decreases posting.tags@.len() - q,
            {
                absorb(&mut out, &mut seen, location, &posting.tags[q]);
                proof {
                    let x = (loc, posting.tags@[q as int]@);
                    assert(processed.push(x).drop_last() =~= processed);
                    processed = processed.push(x);
                    assert(start + located(loc, posting.tags@.take(q + 1)) =~= processed);
                }
                q = q + 1;
            }
            proof {
                assert(posting.tags@.take(posting.tags@.len() as int) =~= posting.tags@);
                assert(raw.postings@.take(p + 1).drop_last() =~= raw.postings@.take(p as int));
                assert(posting_tags(raw.postings@.take(p + 1)) == posting_tags(raw.postings@.take(p as int))
                    + posting.tags@);
                assert(mid + located(loc, posting_tags(raw.postings@.take(p + 1))) =~= processed);
            }
            p = p + 1;
        }
        proof {
            assert(raw.postings@.take(raw.postings@.len() as int) =~= raw.postings@);
            assert(raws@.take(i + 1).drop_last() =~= raws@.take(i as int));
            assert(raws@.take(i + 1).last() == *raw);
            assert(located(loc, raw.tags@ + posting_tags(raw.postings@)) =~= located(loc, raw.tags@) + located(
                loc,
                posting_tags(raw.postings@),
            ));
            assert(all_stated(raws@.take(i + 1)) =~= processed);
        }
        i = i + 1;
    }
    proof {
        assert(raws@.take(raws@.len() as int) =~= raws@);
    }
    out
}

/// The values of the outcomes that parsed, in order.
pub open spec fn parsed_values<P>(outcomes: Seq<Option<P>>) -> Seq<P>
    decreases outcomes.len(),
{
    if outcomes.len() == 0 {
        Seq::empty()
    } else {
        let before = parsed_values(outcomes.drop_last());
        match outcomes.last() {
            Some(p) => before.push(p),
            None => before,
        }
    }
}

/// The located spellings whose outcome did not parse, in order.
pub open spec fn failures<P>(firsts: Seq<(Seq<char>, Seq<char>)>, outcomes: Seq<Option<P>>) -> Seq<(Seq<char>, Seq<char>)>
    decreases outcomes.len(),
{
    if outcomes.len() == 0 || firsts.len() == 0 {
        Seq::empty()
    } else {
        let before = failures(firsts.drop_last(), outcomes.drop_last());
        if outcomes.last() is None {
            before.push(firsts.last())
        } else {
            before
        }
    }
}

/// Whether `diagnostics` report the located spellings `failed`, each as a
/// malformed tag.
pub open spec fn reports(diagnostics: Seq<Diagnostic>, failed: Seq<(Seq<char>, Seq<char>)>) -> bool {
    &&& diagnostics.len() == failed.len()
    &&& forall|k: int|
        0 <= k < diagnostics.len() ==> (#[trigger] diagnostics[k]).cause == SkipCause::MalformedTag
            && diagnostics[k].location@ == failed[k].0 && diagnostics[k].detail@ == failed[k].1
}

/// Whether `outcome` is what `parse` gives for some text spelled `tag`.
pub open spec fn tried<P, F: Fn(&String) -> Option<P>>(parse: F, tag: Seq<char>, outcome: Option<P>) -> bool {
    exists|s: String| s@ == tag && #[trigger] parse.ensures((&s,), outcome)
}

/// Whether, spelling by spelling, `outcomes` are what `parse` gave and the
/// results sort them: the parsed values in order, and a report per failure.
pub open spec fn sorted_by<P, F: Fn(&String) -> Option<P>>(
    parse: F,
    firsts: Seq<(Seq<char>, Seq<char>)>,
    outcomes: Seq<Option<P>>,
    parsed: Seq<P>,
    diagnostics: Seq<Diagnostic>,
) -> bool {
    &&& outcomes.len() == firsts.len()
    &&& forall|i: int| 0 <= i < firsts.len() ==> tried(parse, firsts[i].1, #[trigger] outcomes[i])
    &&& parsed == parsed_values(outcomes)
    &&& reports(diagnostics, failures(firsts, outcomes))
}

/// Parses every distinct tag spelling the transactions state, once each, in
/// the order they first appear, with `parse`. The paths that parse are kept
/// in that order; a spelling that does not is reported once, at the
/// location of the transaction first stating it, as
/// [`SkipCause::MalformedTag`].
pub fn parse_tag_paths<P, F: Fn(&String) -> Option<P>>(raws: &Vec<RawTransaction>, parse: &F) -> (r: (Vec<P>, Vec<Diagnostic>))
    requires
        forall|s: &String| parse.requires((s,)),
    ensures
        exists|outcomes: Seq<Option<P>>|
            #[trigger] sorted_by(*parse, first_spellings(all_stated(raws@)), outcomes, r.0@, r.1@),
{
    let firsts = distinct_tag_spellings(raws);
    let ghost f = pairs(firsts@);
    let ghost mut outcomes: Seq<Option<P>> = Seq::empty();
    let mut parsed: Vec<P> = Vec::new();
    let mut diagnostics: Vec<Diagnostic> = Vec::new();
    let mut k: usize = 0;
    proof {
        assert(f.take(0) =~= Seq::<(Seq<char>, Seq<char>)>::empty());
    }
    while k < firsts.len()
        invariant
            k <= firsts@.len(),
            f == pairs(firsts@),
            forall|s: &String| parse.requires((s,)),
            outcomes.len() == k,
            forall|i: int| 0 <= i < k ==> tried(*parse, f[i].1, #[trigger] outcomes[i]),
            parsed@ == parsed_values(outcomes),
            reports(diagnostics@, failures(f.take(k as int), outcomes)),
        decreases firsts@.len() - k,
    {
        let outcome = parse(&firsts[k].1);
        proof {
            assert(f[k as int].1 == firsts@[k as int].1@);
            assert(outcomes.push(outcome).drop_last() =~= outcomes);
            assert(f.take(k + 1).drop_last() =~= f.take(k as int));
            assert(f.take(k + 1).last() == f[k as int]);
        }
        let ghost before = outcomes;
        let ghost failed_before = failures(f.take(k as int), outcomes);
        proof {
            outcomes = outcomes.push(outcome);
        }
        match outcome {
            Some(p) => {
                parsed.push(p);
            },
            None => {
                diagnostics.push(
                    Diagnostic {
                        location: firsts[k].0.clone(),
                        cause: SkipCause::MalformedTag,
                        detail: firsts[k].1.clone(),
                    },
                );
                proof {
                    assert(failures(f.take(k + 1), outcomes) == failed_before.push(f[k as int]));
                }
            },
        }
        proof {
            assert forall|i: int| 0 <= i < k + 1 implies tried(*parse, f[i].1, #[trigger] outcomes[i]) by {
                if i == k {
                    assert(parse.ensures((&firsts@[k as int].1,), outcomes[i]));
                } else {
                    assert(outcomes[i] == before[i]);
                }
            }
        }
        k = k + 1;
    }
    proof {
        assert(f.take(f.len() as int) =~= f);
    }
    let r = (parsed, diagnostics);
    assert(sorted_by(*parse, first_spellings(all_stated(raws@)), outcomes, r.0@, r.1@));
    r
}

} // verus!
