//! Refining a list of typos and their corrections with the spelling variants: a typo that
//! is a spelling of some locale is dropped, and a correction that has related spellings
//! is replaced by the related spelling closest to the typo, when one is closer than it.

use vstd::prelude::*;

use crate::casefold::{lemma_lex_sign_antisymmetric, lemma_lex_sign_transitive, lemma_lex_sign_zero, lex_sign};
use vstd::string::StringExecFns;

use crate::builtin::{str_eq, unicase_eq, unicase_equal};
use crate::file_type::lex_chars;
use crate::tokens::chars_of;
use crate::varcon::{Cluster, Entry, Tag, Variant};

verus! {

// ---------------------------------------------------------------------------------------
// Edit distance
// ---------------------------------------------------------------------------------------

pub open spec fn min3(a: nat, b: nat, c: nat) -> nat {
    if a <= b && a <= c {
        a
    } else if b <= c {
        b
    } else {
        c
    }
}

/// The Levenshtein distance of two texts: the fewest insertions, deletions and
/// substitutions of characters that turn one into the other.
pub open spec fn levenshtein(a: Seq<char>, b: Seq<char>) -> nat
    decreases a.len() + b.len(),
{
    if a.len() == 0 {
        b.len()
    } else if b.len() == 0 {
        a.len()
    } else {
        min3(
            levenshtein(a.drop_first(), b) + 1,
            levenshtein(a, b.drop_first()) + 1,
            levenshtein(a.drop_first(), b.drop_first()) + (if a[0] == b[0] {
                0nat
            } else {
                1nat
            }),
        )
    }
}

/// `edit_distance::edit_distance`: the Levenshtein distance of the two texts, counted in
/// characters.
#[verifier::external_body]
fn edit_distance_of(a: &str, b: &str) -> (r: usize)
    ensures
        r == levenshtein(a@, b@),
{
    edit_distance::edit_distance(a, b)
}

// ---------------------------------------------------------------------------------------
// Picking the closest related word
// ---------------------------------------------------------------------------------------

/// `a` is closer to the typo than `b`: by distance, then by text.
pub open spec fn closer(typo: Seq<char>, a: Seq<char>, b: Seq<char>) -> bool {
    levenshtein(typo, a) < levenshtein(typo, b) || (levenshtein(typo, a) == levenshtein(typo, b) && lex_sign(a, b) < 0)
}

/// `r` is nearer the typo than the correction is.
pub open spec fn nearer(typo: Seq<char>, correction: Seq<char>, r: Seq<char>) -> bool {
    levenshtein(typo, r) < levenshtein(typo, correction)
}

pub open spec fn opt_text(r: Option<String>) -> Option<Seq<char>> {
    match r {
        Some(s) => Some(s@),
        None => None,
    }
}

pub open spec fn texts_of(v: Seq<String>) -> Seq<Seq<char>> {
    v.map_values(|s: String| s@)
}

/// What picking from `related` gives: nothing when no word is nearer the typo than the
/// correction, else the nearer word closest to the typo.
pub open spec fn best_match_is(
    typo: Seq<char>,
    correction: Seq<char>,
    related: Seq<Seq<char>>,
    r: Option<Seq<char>>,
) -> bool {
    match r {
        None => forall|x: Seq<char>| #[trigger] related.contains(x) ==> !nearer(typo, correction, x),
        Some(m) => {
            &&& related.contains(m)
            &&& nearer(typo, correction, m)
            &&& forall|x: Seq<char>| #[trigger] related.contains(x) && nearer(typo, correction, x) && x != m ==> closer(typo, m, x)
        },
    }
}

/// The related word nearest the typo, among those nearer it than the correction.
pub fn find_best_match(typo: &str, correction: &str, related: &Vec<String>) -> (r: Option<String>)
    requires
        !texts_of(related@).contains(correction@),
    ensures
        best_match_is(typo@, correction@, texts_of(related@), opt_text(r)),
{
    let ghost rel = texts_of(related@);
    let current = edit_distance_of(typo, correction);
    let mut best: Option<(usize, String)> = None;
    let mut i: usize = 0;
    while i < related.len()
        invariant
            i <= related@.len(),
            rel == texts_of(related@),
            current == levenshtein(typo@, correction@),
            match best {
                None => forall|k: int| 0 <= k < i ==> !nearer(typo@, correction@, #[trigger] rel[k]),
                Some((d, m)) => {
                    &&& d == levenshtein(typo@, m@)
                    &&& exists|k: int| 0 <= k < i && #[trigger] rel[k] == m@
                    &&& nearer(typo@, correction@, m@)
                    &&& forall|k: int| 0 <= k < i && nearer(typo@, correction@, #[trigger] rel[k]) && rel[k] != m@ ==> closer(typo@, m@, rel[k])
                },
            },
        decreases related@.len() - i,
    {
        let r = &related[i];
        let d = edit_distance_of(typo, r.as_str());
        assert(rel[i as int] == r@);
        if d < current {
            let replace = match &best {
                None => true,
                Some((bd, bm)) => {
                    let c = lex_chars(&chars_of(r.as_str()), &chars_of(bm.as_str()));
                    d < *bd || (d == *bd && c < 0)
                },
            };
            if replace {
                proof {
                    if let Some((bd, bm)) = &best {
                        assert forall|k: int| 0 <= k < i + 1 && nearer(typo@, correction@, #[trigger] rel[k]) && rel[k] != r@ implies closer(typo@, r@, rel[k]) by {
                            if k < i {
                                if rel[k] != bm@ {
                                    lemma_closer_transitive(typo@, r@, bm@, rel[k]);
                                } else {
                                }
                            }
                        }
                    }
                }
                best = Some((d, r.clone()));
            } else {
                proof {
                    if let Some((bd, bm)) = &best {
                        if r@ != bm@ {
                            lemma_lex_sign_zero(r@, bm@);
                            lemma_lex_sign_antisymmetric(r@, bm@);
                        }
                    }
                }
            }
        }
        i = i + 1;
    }
    proof {
        assert forall|x: Seq<char>| #[trigger] rel.contains(x) implies exists|k: int| 0 <= k < related@.len() && rel[k] == x by {
        }
    }
    match best {
        None => None,
        Some((_, m)) => Some(m),
    }
}

proof fn lemma_closer_transitive(typo: Seq<char>, a: Seq<char>, b: Seq<char>, c: Seq<char>)
    requires
        closer(typo, a, b),
        closer(typo, b, c),
    ensures
        closer(typo, a, c),
{
    if levenshtein(typo, a) == levenshtein(typo, b) && levenshtein(typo, b) == levenshtein(typo, c) {
        lemma_lex_sign_transitive(a, b, c);
        lemma_lex_sign_zero(a, c);
        lemma_lex_sign_antisymmetric(a, b);
    }
}

// ---------------------------------------------------------------------------------------
// Related spellings
// ---------------------------------------------------------------------------------------

/// A variant that is a proper spelling in some locale (some type of it is not tagged
/// improper).
pub open spec fn is_proper(v: Variant) -> bool {
    exists|i: int| 0 <= i < v.types@.len() && (#[trigger] v.types@[i]).tag != Some(Tag::Improper)
}

/// `w` is a proper spelling of the entry.
pub open spec fn proper_word(e: Entry, w: Seq<char>) -> bool {
    exists|k: int| 0 <= k < e.variants@.len() && (#[trigger] e.variants@[k]).word@ == w && is_proper(e.variants@[k])
}

/// The entry at `(c, e)` of the clusters.
pub open spec fn entry_at(clusters: Seq<Cluster>, c: int, e: int) -> Entry {
    clusters[c].entries@[e]
}

pub open spec fn valid_at(clusters: Seq<Cluster>, c: int, e: int) -> bool {
    0 <= c < clusters.len() && 0 <= e < clusters[c].entries@.len()
}

/// `w` is a proper spelling of some entry: it has related spellings (perhaps none).
pub open spec fn has_related(clusters: Seq<Cluster>, w: Seq<char>) -> bool {
    exists|c: int, e: int| valid_at(clusters, c, e) && proper_word(#[trigger] entry_at(clusters, c, e), w)
}

/// `r` is another proper spelling of an entry that `w` is a proper spelling of.
pub open spec fn related(clusters: Seq<Cluster>, w: Seq<char>, r: Seq<char>) -> bool {
    &&& r != w
    &&& exists|c: int, e: int|
        valid_at(clusters, c, e) && proper_word(#[trigger] entry_at(clusters, c, e), w) && proper_word(entry_at(clusters, c, e), r)
}

fn variant_is_proper(v: &Variant) -> (r: bool)
    ensures
        r == is_proper(*v),
{
    let mut i: usize = 0;
    while i < v.types.len()
        invariant
            i <= v.types@.len(),
            forall|j: int| 0 <= j < i ==> (#[trigger] v.types@[j]).tag == Some(Tag::Improper),
        decreases v.types@.len() - i,
    {
        let proper = match v.types[i].tag {
            Some(Tag::Improper) => false,
            _ => true,
        };
        if proper {
            return true;
        }
        i = i + 1;
    }
    false
}

fn entry_has_proper(e: &Entry, w: &str) -> (r: bool)
    ensures
        r == proper_word(*e, w@),
{
    let mut k: usize = 0;
    while k < e.variants.len()
        invariant
            k <= e.variants@.len(),
            forall|j: int| 0 <= j < k ==> !((#[trigger] e.variants@[j]).word@ == w@ && is_proper(e.variants@[j])),
        decreases e.variants@.len() - k,
    {
        if str_eq(e.variants[k].word.as_str(), w) && variant_is_proper(&e.variants[k]) {
            return true;
        }
        k = k + 1;
    }
    false
}

/// Appends the other proper spellings of the entry, when `w` is one of them.
fn push_others(e: &Entry, w: &str, out: &mut Vec<String>)
    ensures
        forall|x: Seq<char>| #[trigger] texts_of(final(out)@).contains(x) <==> (texts_of(old(out)@).contains(x) || (
        x != w@ && proper_word(*e, w@) && proper_word(*e, x))),
{
    if !entry_has_proper(e, w) {
        return;
    }
    let ghost start = texts_of(out@);
    let mut k: usize = 0;
    while k < e.variants.len()
        invariant
            k <= e.variants@.len(),
            proper_word(*e, w@),
            forall|x: Seq<char>| #[trigger] texts_of(out@).contains(x) <==> (start.contains(x) || (x != w@ && exists|j: int|
                0 <= j < k && (#[trigger] e.variants@[j]).word@ == x && is_proper(e.variants@[j]))),
        decreases e.variants@.len() - k,
    {
        let ghost before = texts_of(out@);
        let v = &e.variants[k];
        assert(*v == e.variants@[k as int]);
        let pushed = !str_eq(v.word.as_str(), w) && variant_is_proper(v);
        if pushed {
            out.push(v.word.clone());
            assert(texts_of(out@) =~= before.push(v.word@));
        }
        proof {
            assert forall|x: Seq<char>| #[trigger] texts_of(out@).contains(x) <==> (start.contains(x) || (x != w@ && exists|j: int|
                0 <= j < k + 1 && (#[trigger] e.variants@[j]).word@ == x && is_proper(e.variants@[j]))) by {
                let after = texts_of(out@);
                if after.contains(x) && !before.contains(x) {
                    let i = choose|i: int| 0 <= i < after.len() && after[i] == x;
                    if pushed {
                        if i < before.len() {
                            assert(before[i] == x);
                        }
                        assert(x == v.word@);
                        assert(e.variants@[k as int].word@ == x);
                    } else {
                        assert(after == before);
                    }
                }
                if x != w@ && (exists|j: int| 0 <= j < k + 1 && (#[trigger] e.variants@[j]).word@ == x && is_proper(e.variants@[j])) && !before.contains(x) && !start.contains(x) {
                    let j = choose|j: int| 0 <= j < k + 1 && (#[trigger] e.variants@[j]).word@ == x && is_proper(e.variants@[j]);
                    assert(j == k);
                    assert(pushed);
                    assert(after[after.len() - 1] == x);
                }
                if before.contains(x) {
                    let i = choose|i: int| 0 <= i < before.len() && before[i] == x;
                    if pushed {
                        assert(after[i] == x);
                    }
                }
            }
        }
        k = k + 1;
    }
}

/// Whether `w` is a proper spelling of some entry, and the other proper spellings of the
/// entries it is a proper spelling of (a spelling may come more than once).
pub fn related_words(clusters: &Vec<Cluster>, w: &str) -> (r: (bool, Vec<String>))
    ensures
        r.0 == has_related(clusters@, w@),
        forall|x: Seq<char>|
            #![trigger texts_of(r.1@).contains(x)]
            #![trigger related(clusters@, w@, x)]
            texts_of(r.1@).contains(x) <==> related(clusters@, w@, x),
{
    let mut found = false;
    let mut out: Vec<String> = Vec::new();
    let mut c: usize = 0;
    while c < clusters.len()
        invariant
            c <= clusters@.len(),
            found == exists|c2: int, e2: int| 0 <= c2 < c && valid_at(clusters@, c2, e2) && proper_word(
                #[trigger] entry_at(clusters@, c2, e2),
                w@,
            ),
            forall|x: Seq<char>| #[trigger] texts_of(out@).contains(x) <==> (x != w@ && exists|c2: int, e2: int|
                0 <= c2 < c && valid_at(clusters@, c2, e2) && proper_word(#[trigger] entry_at(clusters@, c2, e2), w@)
                    && proper_word(entry_at(clusters@, c2, e2), x)),
        decreases clusters@.len() - c,
    {
        let cl = &clusters[c];
        let mut e: usize = 0;
        while e < cl.entries.len()
            invariant
                c < clusters@.len(),
                *cl == clusters@[c as int],
                e <= cl.entries@.len(),
                found == exists|c2: int, e2: int| (0 <= c2 < c || (c2 == c && 0 <= e2 < e)) && valid_at(clusters@, c2, e2)
                    && proper_word(#[trigger] entry_at(clusters@, c2, e2), w@),
                forall|x: Seq<char>| #[trigger] texts_of(out@).contains(x) <==> (x != w@ && exists|c2: int, e2: int|
                    (0 <= c2 < c || (c2 == c && 0 <= e2 < e)) && valid_at(clusters@, c2, e2) && proper_word(
                        #[trigger] entry_at(clusters@, c2, e2),
                        w@,
                    ) && proper_word(entry_at(clusters@, c2, e2), x)),
            decreases cl.entries@.len() - e,
        {
            let ent = &cl.entries[e];
            assert(entry_at(clusters@, c as int, e as int) == *ent);
            if entry_has_proper(ent, w) {
                found = true;
            }
            let ghost before = texts_of(out@);
            push_others(ent, w, &mut out);
            proof {
                assert forall|x: Seq<char>| #[trigger] texts_of(out@).contains(x) <==> (x != w@ && exists|c2: int, e2: int|
                    (0 <= c2 < c || (c2 == c && 0 <= e2 < e + 1)) && valid_at(clusters@, c2, e2) && proper_word(
                        #[trigger] entry_at(clusters@, c2, e2),
                        w@,
                    ) && proper_word(entry_at(clusters@, c2, e2), x)) by {
                    if x != w@ && proper_word(*ent, w@) && proper_word(*ent, x) {
                        assert(valid_at(clusters@, c as int, e as int));
                    }
                }
            }
            e = e + 1;
        }
        c = c + 1;
    }
    (found, out)
}

// ---------------------------------------------------------------------------------------
// Dropping valid spellings
// ---------------------------------------------------------------------------------------

/// The typo is some spelling of some entry, ignoring case (`unicase::UniCase` equality).
pub open spec fn is_spelling(clusters: Seq<Cluster>, typo: Seq<char>) -> bool {
    exists|c: int, e: int, k: int|
        valid_at(clusters, c, e) && 0 <= k < entry_at(clusters, c, e).variants@.len() && unicase_equal(
            (#[trigger] entry_at(clusters, c, e).variants@[k]).word@,
            typo,
        )
}

/// Whether the typo is a spelling of some variant, ignoring case.
pub fn is_valid_spelling(clusters: &Vec<Cluster>, typo: &str) -> (r: bool)
    ensures
        r == is_spelling(clusters@, typo@),
{
    let mut c: usize = 0;
    while c < clusters.len()
        invariant
            c <= clusters@.len(),
            forall|c2: int, e2: int, k2: int|
                0 <= c2 < c && valid_at(clusters@, c2, e2) && 0 <= k2 < entry_at(clusters@, c2, e2).variants@.len()
                    ==> !unicase_equal((#[trigger] entry_at(clusters@, c2, e2).variants@[k2]).word@, typo@),
        decreases clusters@.len() - c,
    {
        let cl = &clusters[c];
        let mut e: usize = 0;
        while e < cl.entries.len()
            invariant
                c < clusters@.len(),
                *cl == clusters@[c as int],
                e <= cl.entries@.len(),
                forall|c2: int, e2: int, k2: int|
                    (0 <= c2 < c || (c2 == c && 0 <= e2 < e)) && valid_at(clusters@, c2, e2) && 0 <= k2 < entry_at(
                        clusters@,
                        c2,
                        e2,
                    ).variants@.len() ==> !unicase_equal((#[trigger] entry_at(clusters@, c2, e2).variants@[k2]).word@, typo@),
            decreases cl.entries@.len() - e,
        {
            let ent = &cl.entries[e];
            assert(entry_at(clusters@, c as int, e as int) == *ent);
            let mut k: usize = 0;
            while k < ent.variants.len()
                invariant
                    c < clusters@.len(),
                    *cl == clusters@[c as int],
                    e < cl.entries@.len(),
                    *ent == entry_at(clusters@, c as int, e as int),
                    k <= ent.variants@.len(),
                    forall|c2: int, e2: int, k2: int|
                        (0 <= c2 < c || (c2 == c && 0 <= e2 < e) || (c2 == c && e2 == e && 0 <= k2 < k)) && valid_at(
                            clusters@,
                            c2,
                            e2,
                        ) && 0 <= k2 < entry_at(clusters@, c2, e2).variants@.len() ==> !unicase_equal(
                            (#[trigger] entry_at(clusters@, c2, e2).variants@[k2]).word@,
                            typo@,
                        ),
                decreases ent.variants@.len() - k,
            {
                if unicase_eq(ent.variants[k].word.as_str(), typo) {
                    assert(valid_at(clusters@, c as int, e as int));
                    assert(entry_at(clusters@, c as int, e as int).variants@[k as int].word@ == ent.variants@[k as int].word@);
                    return true;
                }
                k = k + 1;
            }
            e = e + 1;
        }
        c = c + 1;
    }
    false
}

// ---------------------------------------------------------------------------------------
// Refining records
// ---------------------------------------------------------------------------------------

/// What a record `(typo, correction)` becomes: dropped (`None`) when the typo is some
/// spelling; else, when the correction has related spellings, the related spelling
/// nearest the typo among those nearer it than the correction, or the correction when
/// none is; else the correction.
pub open spec fn refined_ok(clusters: Seq<Cluster>, typo: Seq<char>, correction: Seq<char>, r: Option<Seq<char>>) -> bool {
    if is_spelling(clusters, typo) {
        r is None
    } else if !has_related(clusters, correction) {
        r == Some(correction)
    } else {
        match r {
            None => false,
            Some(m) => if m == correction {
                forall|x: Seq<char>| #[trigger] related(clusters, correction, x) ==> !nearer(typo, correction, x)
            } else {
                &&& related(clusters, correction, m)
                &&& nearer(typo, correction, m)
                &&& forall|x: Seq<char>|
                    #[trigger] related(clusters, correction, x) && nearer(typo, correction, x) && x != m ==> closer(typo, m, x)
            },
        }
    }
}

/// The one outcome that `refined_ok` allows.
pub open spec fn refined_correction(clusters: Seq<Cluster>, typo: Seq<char>, correction: Seq<char>) -> Option<Seq<char>> {
    choose|r: Option<Seq<char>>| refined_ok(clusters, typo, correction, r)
}

/// At most one outcome is allowed: the closest word is unique.
pub proof fn lemma_refined_unique(
    clusters: Seq<Cluster>,
    typo: Seq<char>,
    correction: Seq<char>,
    a: Option<Seq<char>>,
    b: Option<Seq<char>>,
)
    requires
        refined_ok(clusters, typo, correction, a),
        refined_ok(clusters, typo, correction, b),
    ensures
        a == b,
{
    if !is_spelling(clusters, typo) && has_related(clusters, correction) {
        let ma = a->0;
        let mb = b->0;
        if ma != mb {
            if ma == correction {
                assert(related(clusters, correction, mb));
            } else if mb == correction {
                assert(related(clusters, correction, ma));
            } else {
                assert(closer(typo, ma, mb));
                assert(closer(typo, mb, ma));
                lemma_lex_sign_antisymmetric(ma, mb);
            }
        }
    }
}

/// What refining a record gives.
pub fn refine_correction(clusters: &Vec<Cluster>, typo: &str, correction: &str) -> (r: Option<String>)
    ensures
        refined_ok(clusters@, typo@, correction@, opt_text(r)),
        opt_text(r) == refined_correction(clusters@, typo@, correction@),
{
    let r = if is_valid_spelling(clusters, typo) {
        None
    } else {
        let (known, rel) = related_words(clusters, correction);
        if !known {
            Some(String::from_str(correction))
        } else {
            assert(!texts_of(rel@).contains(correction@));
            match find_best_match(typo, correction, &rel) {
                Some(m) => {
                    assert(related(clusters@, correction@, m@));
                    Some(m)
                },
                None => Some(String::from_str(correction)),
            }
        }
    };
    proof {
        let rv = opt_text(r);
        assert(refined_ok(clusters@, typo@, correction@, rv));
        lemma_refined_unique(clusters@, typo@, correction@, rv, refined_correction(clusters@, typo@, correction@));
    }
    r
}

/// The records left after refining, with their corrections.
pub open spec fn refined_records(clusters: Seq<Cluster>, records: Seq<(Seq<char>, Seq<char>)>) -> Seq<(Seq<char>, Seq<char>)>
    decreases records.len(),
{
    if records.len() == 0 {
        seq![]
    } else {
        let last = records.last();
        let rest = refined_records(clusters, records.drop_last());
        match refined_correction(clusters, last.0, last.1) {
            None => rest,
            Some(c) => rest.push((last.0, c)),
        }
    }
}

pub open spec fn pairs_of(v: Seq<(String, String)>) -> Seq<(Seq<char>, Seq<char>)> {
    v.map_values(|p: (String, String)| (p.0@, p.1@))
}

/// Refines each record in turn: typos that are spellings are dropped, corrections that
/// have related spellings may be replaced.
pub fn refine(clusters: &Vec<Cluster>, records: &Vec<(String, String)>) -> (r: Vec<(String, String)>)
    ensures
        pairs_of(r@) == refined_records(clusters@, pairs_of(records@)),
{
    let mut out: Vec<(String, String)> = Vec::new();
    let mut i: usize = 0;
    assert(pairs_of(records@).take(0) =~= Seq::<(Seq<char>, Seq<char>)>::empty());
    assert(pairs_of(out@) =~= Seq::<(Seq<char>, Seq<char>)>::empty());
    while i < records.len()
        invariant
            i <= records@.len(),
            pairs_of(out@) == refined_records(clusters@, pairs_of(records@).take(i as int)),
        decreases records@.len() - i,
    {
        let ghost before = pairs_of(out@);
        let (typo, correction) = (&records[i].0, &records[i].1);
        let r = refine_correction(clusters, typo.as_str(), correction.as_str());
        proof {
            let t = pairs_of(records@).take(i + 1);
            assert(t.drop_last() =~= pairs_of(records@).take(i as int));
            assert(t.last() == (typo@, correction@));
        }
        match r {
            Some(c) => {
                out.push((typo.clone(), c));
                assert(pairs_of(out@) =~= before.push((typo@, c@)));
            },
            None => {},
        }
        i = i + 1;
    }
    assert(pairs_of(records@).take(records@.len() as int) =~= pairs_of(records@));
    out
}

} // verus!
