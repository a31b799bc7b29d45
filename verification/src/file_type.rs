//! File types: globs of file names by type name, and the type of a file named by the most
//! specific glob that matches.
//!
//! Globs are ordered from least to most specific: by their dot-separated parts from the
//! last, a lone `*` before a part with a `*` before a literal part, then by the order the
//! types were added in, then by name and glob.

use vstd::prelude::*;

use vstd::relations::{sorted_by, total_ordering};
use vstd::string::StringExecFns;

use crate::casefold::{lemma_lex_chain_strict, lemma_lex_sign_antisymmetric, lemma_lex_sign_transitive, lemma_lex_sign_zero, lemma_lex_strict_chain, lex_sign};
use crate::wordlist::split_from;

verus! {

broadcast use {vstd::multiset::group_multiset_axioms, vstd::seq_lib::group_to_multiset_ensures};

// ---------------------------------------------------------------------------------------
// How specific a glob is
// ---------------------------------------------------------------------------------------

/// The rank of a part of a glob: a lone `*`, a part with a `*` in it, or a literal part.
pub open spec fn part_rank(p: Seq<char>) -> int {
    if p == seq!['*'] {
        0
    } else if p.contains('*') {
        1
    } else {
        2
    }
}

/// The order of parts: by rank, then as text.
pub open spec fn part_sign(a: Seq<char>, b: Seq<char>) -> int {
    if part_rank(a) < part_rank(b) {
        -1
    } else if part_rank(a) > part_rank(b) {
        1
    } else {
        lex_sign(a, b)
    }
}

/// The parts of a glob between dots, the last first.
pub open spec fn glob_key(g: Seq<char>) -> Seq<Seq<char>> {
    split_from(g, 0, '.').reverse()
}

/// The order of keys: part by part, a key before any longer key it starts.
pub open spec fn key_sign(a: Seq<Seq<char>>, b: Seq<Seq<char>>) -> int
    decreases a.len(),
{
    if a.len() == 0 {
        if b.len() == 0 {
            0
        } else {
            -1
        }
    } else if b.len() == 0 {
        1
    } else {
        let s = part_sign(a[0], b[0]);
        if s != 0 {
            s
        } else {
            key_sign(a.drop_first(), b.drop_first())
        }
    }
}

/// A glob of a type: `(glob, weight, name)`; the weight is how many types there were
/// when the glob was added.
pub type DefView = (Seq<char>, nat, Seq<char>);

/// The order of globs of types: by key, weight, name, glob.
pub open spec fn def_sign(a: DefView, b: DefView) -> int {
    let k = key_sign(glob_key(a.0), glob_key(b.0));
    if k != 0 {
        k
    } else if a.1 < b.1 {
        -1
    } else if a.1 > b.1 {
        1
    } else {
        let n = lex_sign(a.2, b.2);
        if n != 0 {
            n
        } else {
            lex_sign(a.0, b.0)
        }
    }
}

pub open spec fn def_le(a: DefView, b: DefView) -> bool {
    def_sign(a, b) <= 0
}

proof fn lemma_part_sign(a: Seq<char>, b: Seq<char>, c: Seq<char>)
    ensures
        part_sign(a, b) == -part_sign(b, a),
        -1 <= part_sign(a, b) <= 1,
        part_sign(a, b) == 0 ==> a == b,
        part_sign(a, b) <= 0 && part_sign(b, c) <= 0 ==> part_sign(a, c) <= 0,
        part_sign(a, b) < 0 && part_sign(b, c) <= 0 ==> part_sign(a, c) < 0,
        part_sign(a, b) <= 0 && part_sign(b, c) < 0 ==> part_sign(a, c) < 0,
{
    lemma_lex_sign_antisymmetric(a, b);
    crate::casefold::lemma_lex_sign_range(a, b);
    lemma_lex_sign_zero(a, b);
    if part_rank(a) == part_rank(b) && part_rank(b) == part_rank(c) {
        if lex_sign(a, b) <= 0 && lex_sign(b, c) <= 0 {
            lemma_lex_sign_transitive(a, b, c);
        }
        if lex_sign(a, b) < 0 && lex_sign(b, c) <= 0 {
            lemma_lex_strict_chain(a, b, c);
        }
        if lex_sign(a, b) <= 0 && lex_sign(b, c) < 0 {
            lemma_lex_chain_strict(a, b, c);
        }
    }
}

proof fn lemma_key_sign(a: Seq<Seq<char>>, b: Seq<Seq<char>>, c: Seq<Seq<char>>)
    ensures
        key_sign(a, b) == -key_sign(b, a),
        -1 <= key_sign(a, b) <= 1,
        key_sign(a, b) <= 0 && key_sign(b, c) <= 0 ==> key_sign(a, c) <= 0,
        key_sign(a, b) < 0 && key_sign(b, c) <= 0 ==> key_sign(a, c) < 0,
        key_sign(a, b) <= 0 && key_sign(b, c) < 0 ==> key_sign(a, c) < 0,
    decreases a.len(),
{
    if a.len() > 0 && b.len() > 0 {
        lemma_part_sign(a[0], b[0], b[0]);
        if c.len() > 0 {
            lemma_part_sign(a[0], b[0], c[0]);
            lemma_part_sign(b[0], c[0], c[0]);
            lemma_part_sign(a[0], c[0], c[0]);
        }
        lemma_key_sign(a.drop_first(), b.drop_first(), c.drop_first());
        if c.len() > 0 && part_sign(a[0], b[0]) == 0 && part_sign(b[0], c[0]) == 0 {
            assert(a[0] == b[0] && b[0] == c[0]);
        }
    }
}

proof fn lemma_def_sign_antisymmetric(a: DefView, b: DefView)
    ensures
        def_sign(a, b) == -def_sign(b, a),
{
    lemma_key_sign(glob_key(a.0), glob_key(b.0), glob_key(b.0));
    lemma_lex_sign_antisymmetric(a.2, b.2);
    lemma_lex_sign_antisymmetric(a.0, b.0);
}

proof fn lemma_def_le_transitive(a: DefView, b: DefView, c: DefView)
    requires
        def_le(a, b),
        def_le(b, c),
    ensures
        def_le(a, c),
{
    let (ka, kb, kc) = (glob_key(a.0), glob_key(b.0), glob_key(c.0));
    lemma_key_sign(ka, kb, kc);
    lemma_key_sign(ka, kc, kc);
    lemma_lex_sign_zero(a.2, b.2);
    lemma_lex_sign_zero(b.2, c.2);
    if key_sign(ka, kb) == 0 && key_sign(kb, kc) == 0 && a.1 == b.1 && b.1 == c.1 {
        if lex_sign(a.2, b.2) < 0 {
            lemma_lex_strict_chain(a.2, b.2, c.2);
        } else if lex_sign(b.2, c.2) < 0 {
            lemma_lex_chain_strict(a.2, b.2, c.2);
        } else {
            lemma_lex_sign_transitive(a.0, b.0, c.0);
        }
    }
}

proof fn lemma_def_le_total_ordering()
    ensures
        total_ordering(|a: DefView, b: DefView| def_le(a, b)),
{
    let leq = |a: DefView, b: DefView| def_le(a, b);
    assert forall|a: DefView| #[trigger] leq(a, a) by {
        lemma_def_sign_antisymmetric(a, a);
    }
    assert forall|a: DefView, b: DefView| #[trigger] leq(a, b) && #[trigger] leq(b, a) implies a == b by {
        lemma_def_sign_antisymmetric(a, b);
        lemma_key_sign(glob_key(a.0), glob_key(b.0), glob_key(b.0));
        lemma_lex_sign_zero(a.2, b.2);
        lemma_lex_sign_zero(a.0, b.0);
    }
    assert forall|a: DefView, b: DefView, c: DefView| #[trigger] leq(a, b) && #[trigger] leq(b, c) implies leq(a, c) by {
        lemma_def_le_transitive(a, b, c);
    }
    assert forall|a: DefView, b: DefView| #[trigger] leq(a, b) || #[trigger] leq(b, a) by {
        lemma_def_sign_antisymmetric(a, b);
    }
}

// ---------------------------------------------------------------------------------------
// Comparing
// ---------------------------------------------------------------------------------------

pub(crate) fn lex_chars(x: &Vec<char>, y: &Vec<char>) -> (r: i8)
    ensures
        r == lex_sign(x@, y@),
{
    let mut i: usize = 0;
    assert(x@.skip(0) =~= x@ && y@.skip(0) =~= y@);
    while i < x.len() && i < y.len() && x[i] == y[i]
        invariant
            i <= x@.len(),
            i <= y@.len(),
            lex_sign(x@, y@) == lex_sign(x@.skip(i as int), y@.skip(i as int)),
        decreases x@.len() - i,
    {
        assert(x@.skip(i as int).drop_first() =~= x@.skip(i + 1));
        assert(y@.skip(i as int).drop_first() =~= y@.skip(i + 1));
        i = i + 1;
    }
    if i == x.len() && i == y.len() {
        0
    } else if i == x.len() {
        -1
    } else if i == y.len() {
        1
    } else if x[i] < y[i] {
        -1
    } else {
        1
    }
}

fn rank_of(p: &Vec<char>) -> (r: i8)
    ensures
        r == part_rank(p@),
{
    if p.len() == 1 && p[0] == '*' {
        assert(p@ =~= seq!['*']);
        return 0;
    }
    proof {
        if p@ == seq!['*'] {
            assert(p@.len() == 1 && p@[0] == '*');
        }
    }
    let mut i: usize = 0;
    while i < p.len()
        invariant
            i <= p@.len(),
            p@ != seq!['*'],
            forall|j: int| 0 <= j < i ==> p@[j] != '*',
        decreases p@.len() - i,
    {
        if p[i] == '*' {
            assert(p@[i as int] == '*');
            assert(p@.contains('*'));
            return 1;
        }
        i = i + 1;
    }
    2
}

fn part_order(a: &Vec<char>, b: &Vec<char>) -> (r: i8)
    ensures
        r == part_sign(a@, b@),
{
    let ra = rank_of(a);
    let rb = rank_of(b);
    if ra < rb {
        -1
    } else if ra > rb {
        1
    } else {
        lex_chars(a, b)
    }
}

pub open spec fn parts_view(v: Seq<Vec<char>>) -> Seq<Seq<char>> {
    v.map_values(|p: Vec<char>| p@)
}

/// The key of a glob: its parts between dots, the last first.
fn glob_key_of(g: &str) -> (r: Vec<Vec<char>>)
    ensures
        parts_view(r@) == glob_key(g@),
{
    let s = crate::tokens::chars_of(g);
    let mut parts: Vec<Vec<char>> = Vec::new();
    let ghost mut done: Seq<Seq<char>> = seq![];
    let mut q: usize = 0;
    assert(parts_view(parts@) =~= done);
    assert(done + split_from(s@, 0, '.') =~= split_from(s@, 0, '.'));
    loop
        invariant_except_break
            q <= s@.len(),
            done + split_from(s@, q as int, '.') == split_from(s@, 0, '.'),
            parts_view(parts@) == done,
        ensures
            parts_view(parts@) == split_from(s@, 0, '.'),
        decreases s@.len() - q,
    {
        let e = crate::wordlist::find_char_at(&s, q, '.');
        let part = vstd::slice::slice_to_vec(vstd::slice::slice_subrange(s.as_slice(), q, e));
        let ghost before = parts@;
        parts.push(part);
        proof {
            assert(parts_view(parts@) =~= parts_view(before).push(s@.subrange(q as int, e as int)));
            if e < s@.len() {
                assert(done + split_from(s@, q as int, '.') =~= done.push(s@.subrange(q as int, e as int))
                    + split_from(s@, e + 1, '.'));
            } else {
                assert(done + split_from(s@, q as int, '.') =~= done.push(s@.subrange(q as int, e as int)));
            }
            done = done.push(s@.subrange(q as int, e as int));
        }
        if e < s.len() {
            q = e + 1;
        } else {
            break;
        }
    }
    let n = parts.len();
    let mut rev: Vec<Vec<char>> = Vec::new();
    let mut k = n;
    while k > 0
        invariant
            k <= n,
            n == parts@.len(),
            rev@.len() == n - k,
            forall|i: int| 0 <= i < n - k ==> (#[trigger] rev@[i])@ == parts@[n - 1 - i]@,
        decreases k,
    {
        k = k - 1;
        let p = vstd::slice::slice_to_vec(parts[k].as_slice());
        rev.push(p);
    }
    assert(parts_view(rev@) =~= parts_view(parts@).reverse());
    rev
}

fn key_order(a: &Vec<Vec<char>>, b: &Vec<Vec<char>>) -> (r: i8)
    ensures
        r == key_sign(parts_view(a@), parts_view(b@)),
{
    let mut i: usize = 0;
    assert(parts_view(a@).skip(0) =~= parts_view(a@) && parts_view(b@).skip(0) =~= parts_view(b@));
    loop
        invariant
            i <= a@.len(),
            i <= b@.len(),
            key_sign(parts_view(a@), parts_view(b@)) == key_sign(parts_view(a@).skip(i as int), parts_view(b@).skip(i as int)),
        decreases a@.len() - i,
    {
        if i == a.len() && i == b.len() {
            return 0;
        } else if i == a.len() {
            return -1;
        } else if i == b.len() {
            return 1;
        }
        let s = part_order(&a[i], &b[i]);
        assert(parts_view(a@).skip(i as int)[0] == a@[i as int]@);
        assert(parts_view(b@).skip(i as int)[0] == b@[i as int]@);
        if s != 0 {
            return s;
        }
        assert(parts_view(a@).skip(i as int).drop_first() =~= parts_view(a@).skip(i + 1));
        assert(parts_view(b@).skip(i as int).drop_first() =~= parts_view(b@).skip(i + 1));
        i = i + 1;
    }
}

/// A glob of a type as held: `(glob, weight, name)`.
pub type Def = (String, usize, String);

pub open spec fn def_view(d: Def) -> DefView {
    (d.0@, d.1 as nat, d.2@)
}

pub open spec fn def_views(s: Seq<Def>) -> Seq<DefView> {
    s.map_values(|d: Def| def_view(d))
}

fn def_order(a: &Def, b: &Def) -> (r: i8)
    ensures
        r == def_sign(def_view(*a), def_view(*b)),
{
    let ka = glob_key_of(a.0.as_str());
    let kb = glob_key_of(b.0.as_str());
    let k = key_order(&ka, &kb);
    if k != 0 {
        return k;
    }
    if a.1 < b.1 {
        return -1;
    } else if a.1 > b.1 {
        return 1;
    }
    let n = lex_chars(&crate::tokens::chars_of(a.2.as_str()), &crate::tokens::chars_of(b.2.as_str()));
    if n != 0 {
        return n;
    }
    lex_chars(&crate::tokens::chars_of(a.0.as_str()), &crate::tokens::chars_of(b.0.as_str()))
}

fn clone_def(d: &Def) -> (r: Def)
    ensures
        r == *d,
{
    (d.0.clone(), d.1, d.2.clone())
}

fn merge_defs(a: &Vec<Def>, b: &Vec<Def>) -> (r: Vec<Def>)
    requires
        sorted_by(def_views(a@), |x: DefView, y: DefView| def_le(x, y)),
        sorted_by(def_views(b@), |x: DefView, y: DefView| def_le(x, y)),
    ensures
        sorted_by(def_views(r@), |x: DefView, y: DefView| def_le(x, y)),
        def_views(r@).to_multiset() == def_views(a@).to_multiset().add(def_views(b@).to_multiset()),
{
    let ghost leq = |x: DefView, y: DefView| def_le(x, y);
    let mut out: Vec<Def> = Vec::new();
    let mut i: usize = 0;
    let mut j: usize = 0;
    assert(def_views(a@.take(0)) =~= Seq::<DefView>::empty());
    assert(def_views(b@.take(0)) =~= Seq::<DefView>::empty());
    assert(def_views(out@) =~= Seq::<DefView>::empty());
    assert(def_views(out@).to_multiset() =~= def_views(a@.take(0)).to_multiset().add(def_views(b@.take(0)).to_multiset()));
    while i < a.len() || j < b.len()
        invariant
            i <= a@.len(),
            j <= b@.len(),
            leq == |x: DefView, y: DefView| def_le(x, y),
            sorted_by(def_views(a@), leq),
            sorted_by(def_views(b@), leq),
            sorted_by(def_views(out@), leq),
            def_views(out@).to_multiset() == def_views(a@.take(i as int)).to_multiset().add(
                def_views(b@.take(j as int)).to_multiset(),
            ),
            out@.len() > 0 && i < a@.len() ==> def_le(def_view(out@.last()), def_view(a@[i as int])),
            out@.len() > 0 && j < b@.len() ==> def_le(def_view(out@.last()), def_view(b@[j as int])),
        decreases a@.len() + b@.len() - i - j,
    {
        let take_a = if i == a.len() {
            false
        } else if j == b.len() {
            true
        } else {
            def_order(&a[i], &b[j]) <= 0
        };
        let ghost before = out@;
        if take_a {
            let e = clone_def(&a[i]);
            proof {
                assert(def_views(a@.take(i + 1)) =~= def_views(a@.take(i as int)).push(def_view(a@[i as int])));
                if i + 1 < a@.len() {
                    assert(leq(def_views(a@)[i as int], def_views(a@)[i + 1]));
                }
            }
            out.push(e);
            i = i + 1;
        } else {
            let e = clone_def(&b[j]);
            proof {
                if i < a@.len() {
                    lemma_def_sign_antisymmetric(def_view(a@[i as int]), def_view(b@[j as int]));
                }
                assert(def_views(b@.take(j + 1)) =~= def_views(b@.take(j as int)).push(def_view(b@[j as int])));
                if j + 1 < b@.len() {
                    assert(leq(def_views(b@)[j as int], def_views(b@)[j + 1]));
                }
            }
            out.push(e);
            j = j + 1;
        }
        proof {
            let e = def_view(out@.last());
            assert(def_views(out@) =~= def_views(before).push(e));
            assert forall|k1: int, k2: int| 0 <= k1 < k2 < def_views(out@).len() implies #[trigger] leq(
                def_views(out@)[k1],
                def_views(out@)[k2],
            ) by {
                if k2 == out@.len() - 1 && k1 < k2 - 1 {
                    assert(leq(def_views(before)[k1], def_views(before)[k2 - 1]));
                    lemma_def_le_transitive(def_views(out@)[k1], def_views(out@)[k2 - 1], e);
                } else if k2 < out@.len() - 1 {
                    assert(leq(def_views(before)[k1], def_views(before)[k2]));
                }
            }
            assert(def_views(out@).to_multiset() =~= def_views(a@.take(i as int)).to_multiset().add(
                def_views(b@.take(j as int)).to_multiset(),
            ));
        }
    }
    assert(a@.take(a@.len() as int) =~= a@);
    assert(b@.take(b@.len() as int) =~= b@);
    out
}

fn sort_def_runs(data: Vec<Def>) -> (r: Vec<Def>)
    ensures
        sorted_by(def_views(r@), |x: DefView, y: DefView| def_le(x, y)),
        def_views(r@).to_multiset() == def_views(data@).to_multiset(),
    decreases data@.len(),
{
    if data.len() <= 1 {
        return data;
    }
    let ghost all = data@;
    let mut left = data;
    let mid = left.len() / 2;
    let right = left.split_off(mid);
    assert(def_views(all) =~= def_views(left@) + def_views(right@));
    proof {
        vstd::seq_lib::lemma_multiset_commutative(def_views(left@), def_views(right@));
    }
    let l = sort_def_runs(left);
    let r = sort_def_runs(right);
    merge_defs(&l, &r)
}

/// The globs in order (the one arrangement of them that the order sorts).
pub open spec fn defs_arranged(s: Seq<DefView>) -> Seq<DefView> {
    choose|t: Seq<DefView>| sorted_by(t, |a: DefView, b: DefView| def_le(a, b)) && t.to_multiset() == s.to_multiset()
}

fn sort_defs(data: Vec<Def>) -> (r: Vec<Def>)
    ensures
        def_views(r@) == defs_arranged(def_views(data@)),
        def_views(r@).to_multiset() == def_views(data@).to_multiset(),
{
    let ghost leq = |x: DefView, y: DefView| def_le(x, y);
    let r = sort_def_runs(data);
    proof {
        lemma_def_le_total_ordering();
        let t = defs_arranged(def_views(data@));
        assert(sorted_by(def_views(r@), leq) && def_views(r@).to_multiset() == def_views(data@).to_multiset());
        vstd::seq_lib::lemma_sorted_unique(def_views(r@), t, leq);
    }
    r
}

// ---------------------------------------------------------------------------------------
// Glob sets
// ---------------------------------------------------------------------------------------

/// Declares `globset::GlobSet` to Verus; what it holds is named `set_globs`.
#[verifier::external_type_specification]
#[verifier::external_body]
pub struct ExGlobSet(globset::GlobSet);

/// Declares `globset::GlobSetBuilder` to Verus; what it holds is named `builder_globs`.
#[verifier::external_type_specification]
#[verifier::external_body]
pub struct ExGlobSetBuilder(globset::GlobSetBuilder);

/// The globs a set builder holds, in the order they were added.
pub uninterp spec fn builder_globs(b: globset::GlobSetBuilder) -> Seq<Seq<char>>;

/// The globs a set was built from, in order.
pub uninterp spec fn set_globs(s: globset::GlobSet) -> Seq<Seq<char>>;

/// Whether a glob (with `literal_separator`) is well formed, else the error's text.
pub uninterp spec fn glob_build_result(glob: Seq<char>) -> Result<(), Seq<char>>;

/// Whether a set of these globs can be built, else the error's text.
pub uninterp spec fn set_build_result(globs: Seq<Seq<char>>) -> Result<(), Seq<char>>;

/// The numbers of the globs that match a file name.
pub uninterp spec fn glob_matches(globs: Seq<Seq<char>>, name: Seq<char>) -> Seq<int>;

/// `globset::GlobSetBuilder::new`: an empty builder.
#[verifier::external_body]
fn new_builder() -> (r: globset::GlobSetBuilder)
    ensures
        builder_globs(r) == Seq::<Seq<char>>::empty(),
{
    globset::GlobSetBuilder::new()
}

/// `globset::GlobBuilder::new(glob).literal_separator(true).build()` then
/// `GlobSetBuilder::add`: the glob is added when it is well formed (named
/// `glob_build_result`), else the error's text is given and the builder is unchanged.
#[verifier::external_body]
fn builder_add(b: &mut globset::GlobSetBuilder, glob: &str) -> (r: Result<(), String>)
    ensures
        match glob_build_result(glob@) {
            Ok(()) => r is Ok && builder_globs(*final(b)) == builder_globs(*old(b)).push(glob@),
            Err(e) => r matches Err(x) && x@ == e && builder_globs(*final(b)) == builder_globs(*old(b)),
        },
{
    let g = globset::GlobBuilder::new(glob).literal_separator(true).build().map_err(|e| e.to_string())?;
    b.add(g);
    Ok(())
}

/// `globset::GlobSetBuilder::build`: the set of the builder's globs, or the error's text
/// (named `set_build_result`).
#[verifier::external_body]
fn builder_build(b: &globset::GlobSetBuilder) -> (r: Result<globset::GlobSet, String>)
    ensures
        match set_build_result(builder_globs(*b)) {
            Ok(()) => r matches Ok(s) && set_globs(s) == builder_globs(*b),
            Err(e) => r matches Err(x) && x@ == e,
        },
{
    b.build().map_err(|e| e.to_string())
}

/// `globset::GlobSet::matches_into`: the numbers of the globs that match the name (named
/// `glob_matches`), in ascending order, each the number of one of the set's globs.
#[verifier::external_body]
fn set_matches(s: &globset::GlobSet, name: &str) -> (r: Vec<usize>)
    ensures
        r@.map_values(|i: usize| i as int) == glob_matches(set_globs(*s), name@),
        forall|i: int, j: int| 0 <= i < j < r@.len() ==> r@[i] < r@[j],
        forall|i: int| 0 <= i < r@.len() ==> r@[i] < set_globs(*s).len(),
{
    let mut into = Vec::new();
    s.matches_into(name, &mut into);
    into
}

// ---------------------------------------------------------------------------------------
// Building
// ---------------------------------------------------------------------------------------

/// The types added so far, by name: each with its globs and their weights.
pub type BuilderView = Seq<(Seq<char>, Seq<(Seq<char>, nat)>)>;

/// The names are in increasing order, each once.
pub open spec fn names_sorted<T>(d: Seq<(Seq<char>, T)>) -> bool {
    forall|i: int, j: int| 0 <= i < j < d.len() ==> lex_sign(#[trigger] d[i].0, #[trigger] d[j].0) < 0
}

/// The first place from `i` whose name does not come before `name`.
pub open spec fn slot_from<T>(d: Seq<(Seq<char>, T)>, name: Seq<char>, i: int) -> int
    decreases d.len() - i,
{
    if i < 0 || i >= d.len() {
        d.len() as int
    } else if lex_sign(d[i].0, name) < 0 {
        slot_from(d, name, i + 1)
    } else {
        i
    }
}

/// Adding a glob to a type: appended to its globs with the number of types there were,
/// a new type going in its place by name.
pub open spec fn spec_add(d: BuilderView, name: Seq<char>, glob: Seq<char>) -> BuilderView {
    let p = slot_from(d, name, 0);
    if p < d.len() && d[p].0 == name {
        d.update(p, (name, d[p].1.push((glob, d.len()))))
    } else {
        d.insert(p, (name, seq![(glob, d.len())]))
    }
}

/// Types and their globs, to build `Types` from.
pub struct TypesBuilder {
    definitions: Vec<(String, Vec<(String, usize)>)>,
}

pub open spec fn globs_weights_view(g: Seq<(String, usize)>) -> Seq<(Seq<char>, nat)> {
    g.map_values(|x: (String, usize)| (x.0@, x.1 as nat))
}

pub open spec fn builder_view(d: Seq<(String, Vec<(String, usize)>)>) -> BuilderView {
    d.map_values(|x: (String, Vec<(String, usize)>)| (x.0@, globs_weights_view(x.1@)))
}

proof fn lemma_slot<T>(d: Seq<(Seq<char>, T)>, name: Seq<char>, i: int)
    requires
        0 <= i <= d.len(),
    ensures
        i <= slot_from(d, name, i) <= d.len(),
        forall|k: int| i <= k < slot_from(d, name, i) ==> lex_sign(#[trigger] d[k].0, name) < 0,
        slot_from(d, name, i) < d.len() ==> lex_sign(d[slot_from(d, name, i)].0, name) >= 0,
    decreases d.len() - i,
{
    if i < d.len() && lex_sign(d[i].0, name) < 0 {
        lemma_slot(d, name, i + 1);
    }
}

impl TypesBuilder {
    #[verifier::type_invariant]
    spec fn well_formed(&self) -> bool {
        names_sorted(builder_view(self.definitions@))
    }

    /// The types added so far.
    pub closed spec fn spec_definitions(&self) -> BuilderView {
        builder_view(self.definitions@)
    }

    /// No types yet.
    pub fn new() -> (r: TypesBuilder)
        ensures
            r.spec_definitions() == Seq::<(Seq<char>, Seq<(Seq<char>, nat)>)>::empty(),
    {
        let r = TypesBuilder { definitions: Vec::new() };
        assert(builder_view(r.definitions@) =~= Seq::<(Seq<char>, Seq<(Seq<char>, nat)>)>::empty());
        r
    }

    /// Where the type `name` is, or would go.
    fn slot(&self, name: &str) -> (r: usize)
        ensures
            r == slot_from(self.spec_definitions(), name@, 0),
            r <= self.spec_definitions().len(),
    {
        let ghost d = self.spec_definitions();
        proof {
            lemma_slot(d, name@, 0);
        }
        let n = crate::tokens::chars_of(name);
        let mut i: usize = 0;
        while i < self.definitions.len()
            invariant
                i <= d.len(),
                d == self.spec_definitions(),
                d.len() == self.definitions@.len(),
                n@ == name@,
                slot_from(d, name@, i as int) == slot_from(d, name@, 0),
            decreases d.len() - i,
        {
            let k = crate::tokens::chars_of(self.definitions[i].0.as_str());
            assert(d[i as int].0 == self.definitions@[i as int].0@);
            if lex_chars(&k, &n) >= 0 {
                return i;
            }
            i = i + 1;
        }
        i
    }

    /// Whether a type of this name was added.
    pub fn contains_name(&self, name: &str) -> (r: bool)
        ensures
            r == exists|i: int| 0 <= i < self.spec_definitions().len() && #[trigger] self.spec_definitions()[i].0 == name@,
    {
        proof {
            use_type_invariant(self);
        }
        let ghost d = self.spec_definitions();
        let p = self.slot(name);
        proof {
            lemma_slot(d, name@, 0);
        }
        if p < self.definitions.len() && str_same(self.definitions[p].0.as_str(), name) {
            assert(d[p as int].0 == name@);
            true
        } else {
            proof {
                assert forall|i: int| 0 <= i < d.len() implies #[trigger] d[i].0 != name@ by {
                    if d[i].0 == name@ {
                        lemma_lex_sign_zero(d[i].0, name@);
                        if i > p {
                            lemma_lex_sign_antisymmetric(d[p as int].0, name@);
                            lemma_lex_chain_strict(name@, d[p as int].0, d[i].0);
                            lemma_lex_sign_zero(name@, d[i].0);
                        } else if i == p {
                            assert(self.definitions@[p as int].0@ == d[p as int].0);
                        }
                    }
                }
            }
            false
        }
    }

    /// Adds a glob to the type `name`, with the number of types there are as its weight.
    pub fn add(&mut self, name: &str, glob: &str)
        ensures
            final(self).spec_definitions() == spec_add(old(self).spec_definitions(), name@, glob@),
    {
        proof {
            use_type_invariant(&*self);
        }
        let ghost d = self.spec_definitions();
        let weight = self.definitions.len();
        let p = self.slot(name);
        proof {
            lemma_slot(d, name@, 0);
        }
        if p < self.definitions.len() && str_same(self.definitions[p].0.as_str(), name) {
            assert(d[p as int].0 == name@);
            let mut defs: Vec<(String, Vec<(String, usize)>)> = Vec::new();
            std::mem::swap(&mut defs, &mut self.definitions);
            let (n, mut globs) = defs.remove(p);
            let ghost old_globs = globs@;
            globs.push((String::from_str(glob), weight));
            assert(globs_weights_view(globs@) =~= globs_weights_view(old_globs).push((glob@, d.len() as nat)));
            defs.insert(p, (n, globs));
            proof {
                assert(builder_view(defs@) =~= spec_add(d, name@, glob@));
            }
            self.definitions = defs;
        } else {
            let mut defs: Vec<(String, Vec<(String, usize)>)> = Vec::new();
            std::mem::swap(&mut defs, &mut self.definitions);
            let mut globs: Vec<(String, usize)> = Vec::new();
            globs.push((String::from_str(glob), weight));
            assert(globs_weights_view(globs@) =~= seq![(glob@, d.len() as nat)]);
            defs.insert(p, (String::from_str(name), globs));
            proof {
                let nd = builder_view(defs@);
                assert(nd =~= spec_add(d, name@, glob@));
                if p < d.len() {
                    lemma_lex_sign_zero(d[p as int].0, name@);
                }
                assert forall|i: int, j: int| 0 <= i < j < nd.len() implies lex_sign(#[trigger] nd[i].0, #[trigger] nd[j].0) < 0 by {
                    if i < p && j == p {
                    } else if i == p && j > p {
                        lemma_lex_sign_zero(d[p as int].0, name@);
                        lemma_lex_sign_antisymmetric(d[p as int].0, name@);
                        if j - 1 > p {
                            lemma_lex_strict_chain(name@, d[p as int].0, d[j - 1].0);
                        }
                    } else if i < p && j > p {
                    }
                }
            }
            self.definitions = defs;
        }
    }
}

/// Whether two strings are the same text.
fn str_same(a: &str, b: &str) -> (r: bool)
    ensures
        r == (a@ == b@),
{
    let x = crate::tokens::chars_of(a);
    let y = crate::tokens::chars_of(b);
    let s = lex_chars(&x, &y);
    proof {
        lemma_lex_sign_zero(a@, b@);
    }
    s == 0
}

// ---------------------------------------------------------------------------------------
// Types
// ---------------------------------------------------------------------------------------

/// The globs of the types, type by type, each with its weight and type name.
pub open spec fn flatten(d: BuilderView) -> Seq<DefView>
    decreases d.len(),
{
    if d.len() == 0 {
        seq![]
    } else {
        flatten(d.drop_last()) + d.last().1.map_values(|g: (Seq<char>, nat)| (g.0, g.1, d.last().0))
    }
}

/// The first glob that is not well formed, and its error's text.
pub open spec fn first_glob_error(globs: Seq<Seq<char>>) -> Option<Seq<char>>
    decreases globs.len(),
{
    if globs.len() == 0 {
        None
    } else {
        match glob_build_result(globs[0]) {
            Err(e) => Some(e),
            Ok(()) => first_glob_error(globs.drop_first()),
        }
    }
}

/// The file types: the globs in order of specificity and the type of each.
pub struct Types {
    definitions: Vec<(String, Vec<String>)>,
    glob_to_name: Vec<String>,
    set: globset::GlobSet,
}

pub open spec fn strings_of(v: Seq<String>) -> Seq<Seq<char>> {
    v.map_values(|s: String| s@)
}

impl Types {
    #[verifier::type_invariant]
    spec fn well_formed(&self) -> bool {
        &&& set_globs(self.set).len() == self.glob_to_name@.len()
        &&& grouped(groups_view(self.definitions@), set_globs(self.set), strings_of(self.glob_to_name@))
    }

    /// The globs, least specific first.
    pub closed spec fn spec_globs(&self) -> Seq<Seq<char>> {
        set_globs(self.set)
    }

    /// The type of each glob.
    pub closed spec fn spec_names(&self) -> Seq<Seq<char>> {
        strings_of(self.glob_to_name@)
    }

    /// Each type that owns a glob, with the globs it owns.
    pub closed spec fn spec_type_definitions(&self) -> Seq<(Seq<char>, Seq<Seq<char>>)> {
        groups_view(self.definitions@)
    }

    /// The type of the file at `path`: the type of the most specific glob that matches its
    /// file name; when none does and the name ends in `.in`, that of the name without it.
    pub fn file_matched(&self, path: &str) -> (r: Option<&str>)
        ensures
            match matched_type(self.spec_globs(), self.spec_names(), path@) {
                None => r is None,
                Some(t) => r matches Some(x) && x@ == t,
            },
    {
        proof {
            use_type_invariant(self);
        }
        let ghost globs = self.spec_globs();
        let ghost names = self.spec_names();
        let mut cur = String::from_str(path);
        loop
            invariant
                globs == self.spec_globs(),
                names == self.spec_names(),
                globs.len() == self.glob_to_name@.len(),
                names == strings_of(self.glob_to_name@),
                matched_type(globs, names, cur@) == matched_type(globs, names, path@),
            decreases cur@.len(),
        {
            let name = match file_name_of(cur.as_str()) {
                None => {
                    return None;
                },
                Some(n) => n,
            };
            let ms = set_matches(&self.set, name.as_str());
            if ms.len() > 0 {
                let i = ms[ms.len() - 1];
                proof {
                    assert(ms@.map_values(|i: usize| i as int).last() == i as int);
                    assert(names[i as int] == self.glob_to_name@[i as int]@);
                }
                return Some(self.glob_to_name[i].as_str());
            }
            assert(glob_matches(globs, name@).len() == 0) by {
                assert(ms@.map_values(|i: usize| i as int).len() == 0);
            }
            let chars = crate::tokens::chars_of(name.as_str());
            match ext_dot_of(&chars) {
                None => {
                    return None;
                },
                Some(d) => {
                    let n = chars.len();
                    if n - d == 3 && chars[d + 1] == 'i' && chars[d + 2] == 'n' {
                        assert(chars@.subrange(d + 1, n as int) =~= seq!['i', 'n']);
                        cur = crate::tokens::string_from_range(&chars, 0, d);
                    } else {
                        proof {
                            let sub = chars@.subrange(d + 1, n as int);
                            let inn = seq!['i', 'n'];
                            assert(inn.len() == 2 && inn[0] == 'i' && inn[1] == 'n');
                            if sub == inn {
                                assert(sub[0] == chars@[d + 1]);
                                assert(sub[1] == chars@[d + 2]);
                            }
                        }
                        return None;
                    }
                },
            }
        }
    }

    /// Each type that owns a glob, by name, with the globs it owns: a glob is owned by
    /// the type of its last place in the order of specificity.
    pub fn definitions(&self) -> (r: &Vec<(String, Vec<String>)>)
        ensures
            groups_view(r@) == self.spec_type_definitions(),
            grouped(self.spec_type_definitions(), self.spec_globs(), self.spec_names()),
    {
        proof {
            use_type_invariant(self);
        }
        &self.definitions
    }
}

/// Every glob of the flattened types belongs to one of the types.
proof fn lemma_flatten_names(d: BuilderView, x: DefView)
    requires
        flatten(d).contains(x),
    ensures
        builder_names(d).contains(x.2),
    decreases d.len(),
{
    if d.len() > 0 {
        let f = flatten(d.drop_last());
        let tail = d.last().1.map_values(|g: (Seq<char>, nat)| (g.0, g.1, d.last().0));
        assert(flatten(d) == f + tail);
        if f.contains(x) {
            lemma_flatten_names(d.drop_last(), x);
            let j = choose|j: int| 0 <= j < builder_names(d.drop_last()).len() && builder_names(d.drop_last())[j] == x.2;
            assert(builder_names(d)[j] == x.2);
        } else {
            let i = choose|i: int| 0 <= i < flatten(d).len() && flatten(d)[i] == x;
            assert(tail[i - f.len()] == x);
            assert(builder_names(d)[d.len() - 1] == x.2);
        }
    }
}

fn flatten_defs(d: &Vec<(String, Vec<(String, usize)>)>) -> (r: Vec<Def>)
    ensures
        def_views(r@) == flatten(builder_view(d@)),
{
    let mut out: Vec<Def> = Vec::new();
    let mut k: usize = 0;
    assert(builder_view(d@.take(0)) =~= Seq::<(Seq<char>, Seq<(Seq<char>, nat)>)>::empty());
    assert(def_views(out@) =~= Seq::<DefView>::empty());
    while k < d.len()
        invariant
            k <= d@.len(),
            def_views(out@) == flatten(builder_view(d@.take(k as int))),
        decreases d@.len() - k,
    {
        let (name, globs) = (&d[k].0, &d[k].1);
        let ghost start = def_views(out@);
        let ghost gv = globs_weights_view(globs@);
        let mut j: usize = 0;
        while j < globs.len()
            invariant
                j <= globs@.len(),
                gv == globs_weights_view(globs@),
                def_views(out@) == start + gv.take(j as int).map_values(|g: (Seq<char>, nat)| (g.0, g.1, name@)),
            decreases globs@.len() - j,
        {
            let ghost before = def_views(out@);
            out.push((globs[j].0.clone(), globs[j].1, name.clone()));
            assert(def_views(out@) =~= before.push((globs@[j as int].0@, globs@[j as int].1 as nat, name@)));
            assert(gv.take(j + 1) =~= gv.take(j as int).push(gv[j as int]));
            j = j + 1;
            assert(def_views(out@) =~= start + gv.take(j as int).map_values(|g: (Seq<char>, nat)| (g.0, g.1, name@)));
        }
        proof {
            let b = builder_view(d@.take(k + 1));
            assert(b.drop_last() =~= builder_view(d@.take(k as int)));
            assert(b.last() == (name@, gv));
            assert(gv.take(gv.len() as int) =~= gv);
        }
        k = k + 1;
    }
    assert(d@.take(d@.len() as int) =~= d@);
    out
}

// ---------------------------------------------------------------------------------------
// Matching a file
// ---------------------------------------------------------------------------------------

/// The file name of a path (`std::path::Path::file_name`).
pub uninterp spec fn path_file_name(path: Seq<char>) -> Option<Seq<char>>;

/// `std::path::Path::file_name`, as text: the final component of the path (`None` when
/// the path ends in `..` or has no components). The name is part of the path, so it is
/// no longer than the path.
#[verifier::external_body]
fn file_name_of(path: &str) -> (r: Option<String>)
    ensures
        match path_file_name(path@) {
            None => r is None,
            Some(n) => r matches Some(x) && x@ == n,
        },
        r matches Some(x) ==> x@.len() <= path@.len(),
{
    std::path::Path::new(path).file_name().map(|n| n.to_string_lossy().into_owned())
}

/// The last `.` before `n` in a name, or -1.
pub open spec fn last_dot_before(name: Seq<char>, n: int) -> int
    decreases n,
{
    if n <= 0 {
        -1
    } else if name[n - 1] == '.' {
        n - 1
    } else {
        last_dot_before(name, n - 1)
    }
}

/// Where a file name splits into stem and extension (`std::path::Path::file_stem` and
/// `extension`): at its last `.`, unless the name is `..` or that `.` is its first
/// character; -1 when it has no extension.
pub open spec fn ext_dot(name: Seq<char>) -> int {
    let d = last_dot_before(name, name.len() as int);
    if name == seq!['.', '.'] || d <= 0 {
        -1
    } else {
        d
    }
}

/// The last dot before `n` is a dot, and none comes after it.
pub proof fn lemma_last_dot(name: Seq<char>, n: int)
    requires
        0 <= n <= name.len(),
    ensures
        -1 <= last_dot_before(name, n) < n,
        last_dot_before(name, n) >= 0 ==> name[last_dot_before(name, n)] == '.',
        forall|k: int| last_dot_before(name, n) < k < n ==> name[k] != '.',
    decreases n,
{
    if n > 0 && name[n - 1] != '.' {
        lemma_last_dot(name, n - 1);
    }
}

/// The type of a file: the type of the last (most specific) glob matching its file name;
/// when none matches and the name's extension is `in`, the type of the name without it.
pub open spec fn matched_type(globs: Seq<Seq<char>>, names: Seq<Seq<char>>, path: Seq<char>) -> Option<Seq<char>>
    decreases path.len(),
{
    match path_file_name(path) {
        None => None,
        Some(name) => {
            let ms = glob_matches(globs, name);
            if ms.len() > 0 {
                Some(names[ms.last()])
            } else {
                proof {
                    lemma_last_dot(name, name.len() as int);
                }
                let d = ext_dot(name);
                // a file name is never longer than its path
                if d >= 0 && name.subrange(d + 1, name.len() as int) == seq!['i', 'n'] && name.len() <= path.len() {
                    matched_type(globs, names, name.subrange(0, d))
                } else {
                    None
                }
            }
        },
    }
}

/// Where the name splits into stem and extension, if it has an extension.
fn ext_dot_of(name: &Vec<char>) -> (r: Option<usize>)
    ensures
        match r {
            None => ext_dot(name@) == -1,
            Some(d) => ext_dot(name@) == d && d < name@.len(),
        },
{
    proof {
        lemma_last_dot(name@, name@.len() as int);
    }
    let n = name.len();
    if n == 2 && name[0] == '.' && name[1] == '.' {
        assert(name@ =~= seq!['.', '.']);
        return None;
    }
    let mut i: usize = n;
    while i > 0
        invariant
            n == name@.len(),
            i <= n,
            forall|k: int| i <= k < n ==> name@[k] != '.',
            last_dot_before(name@, n as int) == last_dot_before(name@, i as int),
            !(n == 2 && name@[0] == '.' && name@[1] == '.'),
        decreases i,
    {
        if name[i - 1] == '.' {
            assert(last_dot_before(name@, i as int) == i - 1);
            if i - 1 == 0 {
                return None;
            }
            proof {
                let dd = seq!['.', '.'];
                assert(dd.len() == 2 && dd[0] == '.' && dd[1] == '.');
            }
            return Some(i - 1);
        }
        i = i - 1;
    }
    None
}

// ---------------------------------------------------------------------------------------
// The globs of each type
// ---------------------------------------------------------------------------------------

/// The glob at `m` does not come again later.
pub open spec fn last_of(globs: Seq<Seq<char>>, m: int) -> bool {
    forall|m2: int| m < m2 < globs.len() ==> #[trigger] globs[m2] != globs[m]
}

/// The type `name` owns `glob`: at the last place of the glob, the type is `name`.
pub open spec fn owns(globs: Seq<Seq<char>>, names: Seq<Seq<char>>, name: Seq<char>, glob: Seq<char>) -> bool {
    exists|m: int| 0 <= m < globs.len() && #[trigger] globs[m] == glob && names[m] == name && last_of(globs, m)
}

/// Texts in increasing order, each once.
pub open spec fn lex_increasing(s: Seq<Seq<char>>) -> bool {
    forall|i: int, j: int| 0 <= i < j < s.len() ==> lex_sign(#[trigger] s[i], #[trigger] s[j]) < 0
}

/// Each type that owns a glob, by name in increasing order, with the globs it owns in
/// increasing order.
pub open spec fn grouped(d: Seq<(Seq<char>, Seq<Seq<char>>)>, globs: Seq<Seq<char>>, names: Seq<Seq<char>>) -> bool {
    &&& names_sorted(d)
    &&& forall|i: int| 0 <= i < d.len() ==> (#[trigger] d[i]).1.len() > 0 && lex_increasing(d[i].1)
    &&& forall|i: int, g: Seq<char>| 0 <= i < d.len() ==> (#[trigger] d[i].1.contains(g) <==> owns(globs, names, d[i].0, g))
    &&& forall|m: int| 0 <= m < globs.len() && last_of(globs, m) ==> exists|i: int| 0 <= i < d.len() && #[trigger] d[i].0 == names[m]
}

pub open spec fn groups_view(d: Seq<(String, Vec<String>)>) -> Seq<(Seq<char>, Seq<Seq<char>>)> {
    d.map_values(|x: (String, Vec<String>)| (x.0@, strings_of(x.1@)))
}

/// Whether the glob at each place does not come again later.
fn last_places(sorted: &Vec<Def>) -> (r: Vec<bool>)
    ensures
        r@.len() == sorted@.len(),
        forall|m: int| 0 <= m < r@.len() ==> r@[m] == last_of(def_views(sorted@).map_values(|x: DefView| x.0), m),
{
    let ghost globs = def_views(sorted@).map_values(|x: DefView| x.0);
    let mut r: Vec<bool> = Vec::new();
    let n = sorted.len();
    let mut m: usize = 0;
    while m < n
        invariant
            n == sorted@.len(),
            globs == def_views(sorted@).map_values(|x: DefView| x.0),
            m <= n,
            r@.len() == m,
            forall|i: int| 0 <= i < m ==> r@[i] == last_of(globs, i),
        decreases n - m,
    {
        let mut last = true;
        let mut m2: usize = m + 1;
        while m2 < n
            invariant_except_break
                n == sorted@.len(),
                globs == def_views(sorted@).map_values(|x: DefView| x.0),
                m < m2 <= n,
                last,
                forall|k: int| m < k < m2 ==> globs[k] != globs[m as int],
            ensures
                last == last_of(globs, m as int),
            decreases n - m2,
        {
            if str_same(sorted[m2].0.as_str(), sorted[m].0.as_str()) {
                assert(globs[m2 as int] == globs[m as int]);
                last = false;
                break;
            }
            m2 = m2 + 1;
        }
        r.push(last);
        m = m + 1;
    }
    r
}

/// Puts a glob in its place in globs in increasing order that do not hold it.
fn insert_glob(gs: &mut Vec<String>, g: String)
    requires
        lex_increasing(strings_of(old(gs)@)),
        !strings_of(old(gs)@).contains(g@),
    ensures
        lex_increasing(strings_of(final(gs)@)),
        strings_of(final(gs)@).len() > 0,
        forall|x: Seq<char>| #[trigger] strings_of(final(gs)@).contains(x) <==> (strings_of(old(gs)@).contains(x) || x == g@),
{
    let ghost before = strings_of(gs@);
    let gc = crate::tokens::chars_of(g.as_str());
    let mut p: usize = 0;
    while p < gs.len()
        invariant_except_break
            before == strings_of(gs@),
            gc@ == g@,
            p <= gs@.len(),
            forall|i: int| 0 <= i < p ==> lex_sign(#[trigger] before[i], g@) < 0,
        ensures
            before == strings_of(gs@),
            p <= gs@.len(),
            forall|i: int| 0 <= i < p ==> lex_sign(#[trigger] before[i], g@) < 0,
            p < gs@.len() ==> lex_sign(before[p as int], g@) >= 0,
        decreases gs@.len() - p,
    {
        let k = crate::tokens::chars_of(gs[p].as_str());
        assert(before[p as int] == gs@[p as int]@);
        if lex_chars(&k, &gc) >= 0 {
            break;
        }
        p = p + 1;
    }
    proof {
        if p < before.len() {
            lemma_lex_sign_zero(before[p as int], g@);
            assert(before[p as int] != g@);
        }
    }
    gs.insert(p, g);
    proof {
        let after = strings_of(gs@);
        assert(after =~= before.insert(p as int, g@));
        assert forall|i: int, j: int| 0 <= i < j < after.len() implies lex_sign(#[trigger] after[i], #[trigger] after[j]) < 0 by {
            if i < p && j == p {
            } else if i == p && j > p {
                lemma_lex_sign_antisymmetric(before[p as int], g@);
                if j - 1 > p {
                    lemma_lex_strict_chain(g@, before[p as int], before[j - 1]);
                }
            } else if i < p && j > p {
            }
        }
        assert forall|x: Seq<char>| #[trigger] after.contains(x) <==> (before.contains(x) || x == g@) by {
            if after.contains(x) {
                let i = choose|i: int| 0 <= i < after.len() && after[i] == x;
                if i < p {
                    assert(before[i] == x);
                } else if i > p {
                    assert(before[i - 1] == x);
                }
            }
            if before.contains(x) {
                let i = choose|i: int| 0 <= i < before.len() && before[i] == x;
                if i < p {
                    assert(after[i] == x);
                } else {
                    assert(after[i + 1] == x);
                }
            }
            if x == g@ {
                assert(after[p as int] == x);
            }
        }
    }
}

/// The names of the builder's types.
pub open spec fn builder_names(d: BuilderView) -> Seq<Seq<char>> {
    d.map_values(|x: (Seq<char>, Seq<(Seq<char>, nat)>)| x.0)
}

/// The globs the type `name` owns, in increasing order.
fn owned_globs(sorted: &Vec<Def>, last: &Vec<bool>, name: &String) -> (r: Vec<String>)
    requires
        last@.len() == sorted@.len(),
        forall|m: int| 0 <= m < last@.len() ==> last@[m] == last_of(def_views(sorted@).map_values(|x: DefView| x.0), m),
    ensures
        lex_increasing(strings_of(r@)),
        forall|g: Seq<char>| #[trigger] strings_of(r@).contains(g) <==> owns(
            def_views(sorted@).map_values(|x: DefView| x.0),
            def_views(sorted@).map_values(|x: DefView| x.2),
            name@,
            g,
        ),
{
    let ghost globs = def_views(sorted@).map_values(|x: DefView| x.0);
    let ghost names = def_views(sorted@).map_values(|x: DefView| x.2);
    let mut gs: Vec<String> = Vec::new();
    let n = sorted.len();
    let mut m: usize = 0;
    while m < n
        invariant
            n == sorted@.len(),
            last@.len() == n,
            globs == def_views(sorted@).map_values(|x: DefView| x.0),
            names == def_views(sorted@).map_values(|x: DefView| x.2),
            forall|k: int| 0 <= k < n ==> last@[k] == last_of(globs, k),
            m <= n,
            lex_increasing(strings_of(gs@)),
            forall|g: Seq<char>| #[trigger] strings_of(gs@).contains(g) <==> exists|k: int|
                0 <= k < m && #[trigger] globs[k] == g && names[k] == name@ && last_of(globs, k),
        decreases n - m,
    {
        let ghost before = strings_of(gs@);
        if last[m] && str_same(sorted[m].2.as_str(), name.as_str()) {
            proof {
                if before.contains(globs[m as int]) {
                    let k = choose|k: int| 0 <= k < m && #[trigger] globs[k] == globs[m as int] && names[k] == name@ && last_of(globs, k);
                    assert(globs[m as int] != globs[k]);
                }
            }
            assert(globs[m as int] == sorted@[m as int].0@);
            insert_glob(&mut gs, sorted[m].0.clone());
        }
        proof {
            assert forall|g: Seq<char>| #[trigger] strings_of(gs@).contains(g) <==> exists|k: int|
                0 <= k < m + 1 && #[trigger] globs[k] == g && names[k] == name@ && last_of(globs, k) by {
                if g == globs[m as int] && names[m as int] == name@ && last_of(globs, m as int) {
                    assert(strings_of(gs@).contains(g));
                }
            }
        }
        m = m + 1;
    }
    gs
}

/// Groups the owned globs by type.
fn group_globs(defs: &Vec<(String, Vec<(String, usize)>)>, sorted: &Vec<Def>) -> (r: Vec<(String, Vec<String>)>)
    requires
        names_sorted(builder_view(defs@)),
        forall|m: int| 0 <= m < sorted@.len() ==> builder_names(builder_view(defs@)).contains(#[trigger] sorted@[m].2@),
    ensures
        grouped(
            groups_view(r@),
            def_views(sorted@).map_values(|x: DefView| x.0),
            def_views(sorted@).map_values(|x: DefView| x.2),
        ),
{
    let ghost globs = def_views(sorted@).map_values(|x: DefView| x.0);
    let ghost names = def_views(sorted@).map_values(|x: DefView| x.2);
    let ghost bv = builder_view(defs@);
    let last = last_places(sorted);
    let mut out: Vec<(String, Vec<String>)> = Vec::new();
    let n = defs.len();
    let mut k: usize = 0;
    while k < n
        invariant
            n == defs@.len(),
            bv == builder_view(defs@),
            names_sorted(bv),
            last@.len() == sorted@.len(),
            globs == def_views(sorted@).map_values(|x: DefView| x.0),
            names == def_views(sorted@).map_values(|x: DefView| x.2),
            forall|m: int| 0 <= m < last@.len() ==> last@[m] == last_of(globs, m),
            k <= n,
            names_sorted(groups_view(out@)),
            forall|i: int| 0 <= i < out@.len() ==> exists|j: int| 0 <= j < k && #[trigger] groups_view(out@)[i].0 == bv[j].0,
            forall|i: int| 0 <= i < out@.len() ==> (#[trigger] groups_view(out@)[i]).1.len() > 0 && lex_increasing(groups_view(out@)[i].1),
            forall|i: int, g: Seq<char>| 0 <= i < out@.len() ==> (#[trigger] groups_view(out@)[i].1.contains(g) <==> owns(globs, names, groups_view(out@)[i].0, g)),
            forall|m: int| 0 <= m < globs.len() && last_of(globs, m) && (exists|j: int| 0 <= j < k && bv[j].0 == names[m])
                ==> exists|i: int| 0 <= i < out@.len() && #[trigger] groups_view(out@)[i].0 == names[m],
        decreases n - k,
    {
        let ghost before = groups_view(out@);
        let gs = owned_globs(sorted, &last, &defs[k].0);
        assert(defs@[k as int].0@ == bv[k as int].0);
        if gs.len() > 0 {
            out.push((defs[k].0.clone(), gs));
            proof {
                let after = groups_view(out@);
                assert(after =~= before.push((bv[k as int].0, strings_of(gs@))));
                assert forall|i: int, j: int| 0 <= i < j < after.len() implies lex_sign(#[trigger] after[i].0, #[trigger] after[j].0) < 0 by {
                    if j == before.len() {
                        let jj = choose|jj: int| 0 <= jj < k && #[trigger] before[i].0 == bv[jj].0;
                        assert(before[i] == after[i]);
                    } else {
                        assert(before[i] == after[i] && before[j] == after[j]);
                    }
                }
                assert forall|i: int| 0 <= i < after.len() implies exists|j: int| 0 <= j < k + 1 && #[trigger] after[i].0 == bv[j].0 by {
                    if i < before.len() {
                        assert(before[i] == after[i]);
                        let jj = choose|jj: int| 0 <= jj < k && #[trigger] before[i].0 == bv[jj].0;
                    } else {
                        assert(after[i].0 == bv[k as int].0);
                    }
                }
                assert forall|i: int| 0 <= i < after.len() implies (#[trigger] after[i]).1.len() > 0 && lex_increasing(after[i].1) by {
                    if i < before.len() {
                        assert(before[i] == after[i]);
                    } else {
                        assert(strings_of(gs@).len() > 0);
                    }
                }
                assert forall|i: int, g: Seq<char>| 0 <= i < after.len() implies (#[trigger] after[i].1.contains(g) <==> owns(globs, names, after[i].0, g)) by {
                    if i < before.len() {
                        assert(before[i] == after[i]);
                        assert(before[i].1.contains(g) <==> owns(globs, names, before[i].0, g));
                    } else {
                        assert(strings_of(gs@).contains(g) <==> owns(globs, names, bv[k as int].0, g));
                    }
                }
                assert forall|m: int| 0 <= m < globs.len() && last_of(globs, m) && (exists|j: int| 0 <= j < k + 1 && bv[j].0 == names[m])
                    implies exists|i: int| 0 <= i < after.len() && #[trigger] after[i].0 == names[m] by {
                    if names[m] == bv[k as int].0 {
                        assert(after[before.len() as int].0 == names[m]);
                    } else {
                        let j = choose|j: int| 0 <= j < k + 1 && bv[j].0 == names[m];
                        assert(j < k);
                        let i = choose|i: int| 0 <= i < before.len() && #[trigger] before[i].0 == names[m];
                        assert(after[i] == before[i]);
                    }
                }
            }
        } else {
            proof {
                assert forall|m: int| 0 <= m < globs.len() && last_of(globs, m) && (exists|j: int| 0 <= j < k + 1 && bv[j].0 == names[m])
                    implies exists|i: int| 0 <= i < before.len() && #[trigger] before[i].0 == names[m] by {
                    if names[m] == bv[k as int].0 {
                        assert(owns(globs, names, bv[k as int].0, globs[m]));
                        assert(strings_of(gs@).contains(globs[m]));
                    } else {
                        let j = choose|j: int| 0 <= j < k + 1 && bv[j].0 == names[m];
                        assert(j < k);
                    }
                }
            }
        }
        k = k + 1;
    }
    proof {
        let d = groups_view(out@);
        assert forall|m: int| 0 <= m < globs.len() && last_of(globs, m) implies exists|i: int| 0 <= i < d.len() && #[trigger] d[i].0 == names[m] by {
            assert(names[m] == sorted@[m].2@);
            assert(builder_names(bv).contains(sorted@[m].2@));
            let j = choose|j: int| 0 <= j < builder_names(bv).len() && builder_names(bv)[j] == sorted@[m].2@;
            assert(bv[j].0 == names[m]);
        }
    }
    out
}

impl TypesBuilder {
    /// The types: every glob of every type, in order of specificity, each with its type;
    /// or the error of the first glob that is not well formed, or of the set.
    pub fn build(self) -> (r: Result<Types, String>)
        ensures
            ({
                let sorted = defs_arranged(flatten(self.spec_definitions()));
                let globs = sorted.map_values(|x: DefView| x.0);
                match first_glob_error(globs) {
                    Some(e) => r matches Err(x) && x@ == e,
                    None => match set_build_result(globs) {
                        Err(e) => r matches Err(x) && x@ == e,
                        Ok(()) => r matches Ok(t) && t.spec_globs() == globs && t.spec_names()
                            == sorted.map_values(|x: DefView| x.2),
                    },
                }
            }),
    {
        let flat = flatten_defs(&self.definitions);
        let sorted = sort_defs(flat);
        let ghost sv = def_views(sorted@);
        let ghost globs = sv.map_values(|x: DefView| x.0);
        let mut builder = new_builder();
        let mut names: Vec<String> = Vec::new();
        let mut k: usize = 0;
        assert(globs.take(0) =~= Seq::<Seq<char>>::empty());
        assert(globs.skip(0) =~= globs);
        assert(sv.take(0).map_values(|x: DefView| x.2) =~= Seq::<Seq<char>>::empty());
        assert(strings_of(names@) =~= Seq::<Seq<char>>::empty());
        while k < sorted.len()
            invariant
                k <= sorted@.len(),
                sv == def_views(sorted@),
                sv == defs_arranged(flatten(self.spec_definitions())),
                globs == sv.map_values(|x: DefView| x.0),
                builder_globs(builder) == globs.take(k as int),
                strings_of(names@) == sv.take(k as int).map_values(|x: DefView| x.2),
                first_glob_error(globs) == first_glob_error(globs.skip(k as int)),
            decreases sorted@.len() - k,
        {
            let ghost before = builder_globs(builder);
            let ghost before_names = strings_of(names@);
            assert(globs.skip(k as int)[0] == sorted@[k as int].0@);
            match builder_add(&mut builder, sorted[k].0.as_str()) {
                Err(e) => {
                    assert(first_glob_error(globs.skip(k as int)) == Some(e@));
                    return Err(e);
                },
                Ok(()) => {},
            }
            names.push(sorted[k].2.clone());
            proof {
                assert(globs.take(k + 1) =~= globs.take(k as int).push(sorted@[k as int].0@));
                assert(strings_of(names@) =~= before_names.push(sorted@[k as int].2@));
                assert(sv.take(k + 1).map_values(|x: DefView| x.2) =~= sv.take(k as int).map_values(|x: DefView| x.2).push(
                    sorted@[k as int].2@,
                ));
                assert(globs.skip(k as int).drop_first() =~= globs.skip(k + 1));
            }
            k = k + 1;
        }
        proof {
            assert(globs.take(globs.len() as int) =~= globs);
            assert(sv.take(sv.len() as int) =~= sv);
            assert(globs.skip(globs.len() as int) =~= Seq::<Seq<char>>::empty());
        }
        match builder_build(&builder) {
            Err(e) => Err(e),
            Ok(set) => {
                proof {
                    use_type_invariant(&self);
                    assert forall|m: int| 0 <= m < sorted@.len() implies builder_names(builder_view(self.definitions@)).contains(
                        #[trigger] sorted@[m].2@,
                    ) by {
                        assert(sv[m] == def_views(sorted@)[m]);
                        assert(sv.contains(sv[m]));
                        assert(sv.to_multiset().count(sv[m]) > 0);
                        assert(sv.to_multiset() == flatten(builder_view(self.definitions@)).to_multiset());
                        assert(flatten(builder_view(self.definitions@)).contains(sv[m]));
                        lemma_flatten_names(builder_view(self.definitions@), sv[m]);
                    }
                }
                let definitions = group_globs(&self.definitions, &sorted);
                Ok(Types { definitions, glob_to_name: names, set })
            },
        }
    }
}

} // verus!
