//! Reading VarCon clusters from text.
//!
//! A cluster is a header line (`# word <verified> (level N)`), then one or more entry
//! lines, then `##` note lines.  An entry is variants separated by `/`, each a list of
//! types (category, optional tag, optional number) and a word, optionally followed by
//! `|`-separated details and a `#` comment.
//!
//! Each step of the grammar is a function from a position in the text to what it read
//! and where it stopped, or to a failure: a backtrack lets an enclosing optional or
//! repeated part give up, a cut fails the whole parse.

use vstd::prelude::*;

use crate::tokens::{chars_of, string_from_chars, string_from_range};
use crate::varcon::{Category, Cluster, Entry, Pos, Tag, Type, Variant};

verus! {

/// What a step of the grammar gives.
pub enum Parsed<T> {
    /// The value read and where reading stopped.
    Done(T, int),
    /// Nothing matched here; an enclosing optional or repeated part may give up.
    Backtrack,
    /// A malformed part after a point of no return; the whole parse fails.
    Cut,
    /// The number of a type does not fit in a `usize`; reading it cannot go on.
    Overflow,
}

/// What an executable step gives.
pub enum Step<T> {
    Done(T, usize),
    Backtrack,
    Cut,
    Overflow,
}

/// The executable outcome `r` is the outcome `spec` of the grammar, its value seen
/// through `view`.
pub open spec fn agrees<T, V>(r: Step<T>, spec: Parsed<V>, view: spec_fn(T) -> V) -> bool {
    match spec {
        Parsed::Done(v, q) => r matches Step::Done(x, e) && view(x) == v && e == q,
        Parsed::Backtrack => r is Backtrack,
        Parsed::Cut => r is Cut,
        Parsed::Overflow => r is Overflow,
    }
}

// ---------------------------------------------------------------------------------------
// Characters and runs
// ---------------------------------------------------------------------------------------

/// The kinds of characters that runs are made of, or stop at.
#[derive(Debug, Clone, Copy, PartialEq, Eq, Structural)]
pub enum Run {
    /// Spaces and tabs.
    Spaces,
    /// ASCII digits.
    Digits,
    /// Anything but ASCII whitespace (a word).
    Word,
    /// Anything but a line break, `#` or `|` (a description).
    Description,
    /// Anything but a line break, `<` or `(` (a header word).
    Header,
    /// Anything but a line break.
    Line,
    /// Unicode white space.
    White,
}

/// Unicode's `White_Space` property, which `char::is_whitespace` tests.
pub open spec fn is_white_space(c: char) -> bool {
    ||| '\u{9}' <= c && c <= '\u{D}'
    ||| c == ' '
    ||| c == '\u{85}'
    ||| c == '\u{A0}'
    ||| c == '\u{1680}'
    ||| '\u{2000}' <= c && c <= '\u{200A}'
    ||| c == '\u{2028}'
    ||| c == '\u{2029}'
    ||| c == '\u{202F}'
    ||| c == '\u{205F}'
    ||| c == '\u{3000}'
}

pub open spec fn is_ascii_whitespace(c: char) -> bool {
    c == ' ' || c == '\t' || c == '\n' || c == '\r' || c == '\x0C'
}

/// Whether `c` continues a run of the kind.
pub open spec fn in_run(kind: Run, c: char) -> bool {
    match kind {
        Run::Spaces => c == ' ' || c == '\t',
        Run::Digits => '0' <= c && c <= '9',
        Run::Word => !is_ascii_whitespace(c),
        Run::Description => !(c == '\n' || c == '\r' || c == '#' || c == '|'),
        Run::Header => !(c == '\n' || c == '\r' || c == '<' || c == '('),
        Run::Line => !(c == '\n' || c == '\r'),
        Run::White => is_white_space(c),
    }
}

/// Where the run of the kind that starts at `p` ends.
pub open spec fn run_end(s: Seq<char>, p: int, kind: Run) -> int
    decreases s.len() - p,
{
    if 0 <= p < s.len() && in_run(kind, s[p]) {
        run_end(s, p + 1, kind)
    } else {
        p
    }
}

pub proof fn lemma_run_end(s: Seq<char>, p: int, kind: Run)
    requires
        0 <= p <= s.len(),
    ensures
        p <= run_end(s, p, kind) <= s.len(),
        forall|i: int| p <= i < run_end(s, p, kind) ==> in_run(kind, #[trigger] s[i]),
        run_end(s, p, kind) < s.len() ==> !in_run(kind, s[run_end(s, p, kind)]),
    decreases s.len() - p,
{
    if p < s.len() && in_run(kind, s[p]) {
        lemma_run_end(s, p + 1, kind);
    }
}

fn in_run_exec(kind: Run, c: char) -> (r: bool)
    ensures
        r == in_run(kind, c),
{
    match kind {
        Run::Spaces => c == ' ' || c == '\t',
        Run::Digits => '0' <= c && c <= '9',
        Run::Word => !(c == ' ' || c == '\t' || c == '\n' || c == '\r' || c == '\x0C'),
        Run::Description => !(c == '\n' || c == '\r' || c == '#' || c == '|'),
        Run::Header => !(c == '\n' || c == '\r' || c == '<' || c == '('),
        Run::Line => !(c == '\n' || c == '\r'),
        Run::White => ('\u{9}' <= c && c <= '\u{D}') || c == ' ' || c == '\u{85}' || c == '\u{A0}'
            || c == '\u{1680}' || ('\u{2000}' <= c && c <= '\u{200A}') || c == '\u{2028}'
            || c == '\u{2029}' || c == '\u{202F}' || c == '\u{205F}' || c == '\u{3000}',
    }
}

fn scan(s: &Vec<char>, p: usize, kind: Run) -> (r: usize)
    requires
        p <= s@.len(),
    ensures
        r == run_end(s@, p as int, kind),
        p <= r <= s@.len(),
{
    proof {
        lemma_run_end(s@, p as int, kind);
    }
    let mut i = p;
    while i < s.len() && in_run_exec(kind, s[i])
        invariant
            p <= i <= s@.len(),
            run_end(s@, i as int, kind) == run_end(s@, p as int, kind),
        decreases s@.len() - i,
    {
        i = i + 1;
    }
    i
}

/// Whether the text at `p` starts with `lit`.
pub open spec fn at(s: Seq<char>, p: int, lit: Seq<char>) -> bool {
    0 <= p && p + lit.len() <= s.len() && s.subrange(p, p + lit.len()) == lit
}

fn at_exec(s: &Vec<char>, p: usize, lit: &str) -> (r: bool)
    ensures
        r == at(s@, p as int, lit@),
{
    let l = chars_of(lit);
    if p > s.len() || l.len() > s.len() - p {
        return false;
    }
    let n = s.len();
    let mut i: usize = 0;
    while i < l.len()
        invariant
            i <= l@.len(),
            l@ == lit@,
            n == s@.len(),
            p + l@.len() <= s@.len(),
            forall|j: int| 0 <= j < i ==> s@[p + j] == l@[j],
        decreases l@.len() - i,
    {
        if s[p + i] != l[i] {
            assert(s@.subrange(p as int, p + l@.len())[i as int] != l@[i as int]);
            return false;
        }
        i = i + 1;
    }
    assert(s@.subrange(p as int, p + l@.len()) =~= l@);
    true
}

/// The value of the decimal digits `s[i..j]`.
pub open spec fn digits_value(s: Seq<char>, i: int, j: int) -> nat
    decreases j - i,
{
    if j <= i {
        0
    } else {
        digits_value(s, i, j - 1) * 10 + ((s[j - 1] as u32) - 48) as nat
    }
}

pub open spec fn is_digit(c: char) -> bool {
    '0' <= c && c <= '9'
}

pub proof fn lemma_digits_mono(s: Seq<char>, i: int, k: int, j: int)
    requires
        i <= k <= j,
        forall|m: int| i <= m < j ==> is_digit(#[trigger] s[m]),
    ensures
        digits_value(s, i, k) <= digits_value(s, i, j),
    decreases j - k,
{
    if k < j {
        lemma_digits_mono(s, i, k, j - 1);
    }
}

/// The number that the digits `s[i..j]` stand for, if it fits in a `usize`.
fn digits_at(s: &Vec<char>, i: usize, j: usize) -> (r: Option<usize>)
    requires
        i <= j <= s@.len(),
        forall|k: int| i <= k < j ==> is_digit(#[trigger] s@[k]),
    ensures
        match r {
            Some(v) => v == digits_value(s@, i as int, j as int),
            None => digits_value(s@, i as int, j as int) > usize::MAX,
        },
{
    let mut v: usize = 0;
    let mut k = i;
    while k < j
        invariant
            i <= k <= j <= s@.len(),
            forall|m: int| i <= m < j ==> is_digit(#[trigger] s@[m]),
            v == digits_value(s@, i as int, k as int),
        decreases j - k,
    {
        let d: u32 = (s[k] as u32) - 48;
        assert(digits_value(s@, i as int, k + 1) == v * 10 + d);
        match v.checked_mul(10) {
            None => {
                proof {
                    lemma_digits_mono(s@, i as int, k + 1, j as int);
                }
                return None;
            },
            Some(t) => match t.checked_add(d as usize) {
                None => {
                    proof {
                        lemma_digits_mono(s@, i as int, k + 1, j as int);
                    }
                    return None;
                },
                Some(w) => {
                    v = w;
                },
            },
        }
        k = k + 1;
    }
    Some(v)
}

// ---------------------------------------------------------------------------------------
// Categories, tags, parts of speech, types
// ---------------------------------------------------------------------------------------

pub open spec fn spec_category(s: Seq<char>, p: int) -> Parsed<Category> {
    if 0 <= p < s.len() {
        let c = s[p];
        if c == 'A' {
            Parsed::Done(Category::American, p + 1)
        } else if c == 'B' {
            Parsed::Done(Category::BritishIse, p + 1)
        } else if c == 'Z' {
            Parsed::Done(Category::BritishIze, p + 1)
        } else if c == 'C' {
            Parsed::Done(Category::Canadian, p + 1)
        } else if c == 'D' {
            Parsed::Done(Category::Australian, p + 1)
        } else if c == '_' {
            Parsed::Done(Category::Other, p + 1)
        } else {
            Parsed::Backtrack
        }
    } else {
        Parsed::Backtrack
    }
}

fn category_at(s: &Vec<char>, p: usize) -> (r: Option<Category>)
    ensures
        match spec_category(s@, p as int) {
            Parsed::Done(c, q) => r == Some(c) && q == p + 1,
            _ => r is None,
        },
        r is Some ==> p < s@.len(),
{
    if p >= s.len() {
        return None;
    }
    let c = s[p];
    if c == 'A' {
        Some(Category::American)
    } else if c == 'B' {
        Some(Category::BritishIse)
    } else if c == 'Z' {
        Some(Category::BritishIze)
    } else if c == 'C' {
        Some(Category::Canadian)
    } else if c == 'D' {
        Some(Category::Australian)
    } else if c == '_' {
        Some(Category::Other)
    } else {
        None
    }
}

pub open spec fn spec_tag(s: Seq<char>, p: int) -> Parsed<Tag> {
    if 0 <= p < s.len() {
        let c = s[p];
        if c == '.' {
            Parsed::Done(Tag::Eq, p + 1)
        } else if c == 'v' {
            Parsed::Done(Tag::Variant, p + 1)
        } else if c == 'V' {
            Parsed::Done(Tag::Seldom, p + 1)
        } else if c == '-' {
            Parsed::Done(Tag::Possible, p + 1)
        } else if c == 'x' {
            Parsed::Done(Tag::Improper, p + 1)
        } else {
            Parsed::Backtrack
        }
    } else {
        Parsed::Backtrack
    }
}

fn tag_at(s: &Vec<char>, p: usize) -> (r: Option<Tag>)
    ensures
        match spec_tag(s@, p as int) {
            Parsed::Done(t, q) => r == Some(t) && q == p + 1,
            _ => r is None,
        },
        r is Some ==> p < s@.len(),
{
    if p >= s.len() {
        return None;
    }
    let c = s[p];
    if c == '.' {
        Some(Tag::Eq)
    } else if c == 'v' {
        Some(Tag::Variant)
    } else if c == 'V' {
        Some(Tag::Seldom)
    } else if c == '-' {
        Some(Tag::Possible)
    } else if c == 'x' {
        Some(Tag::Improper)
    } else {
        None
    }
}

/// A part of speech: the first of `N`, `V`, `Adj`, `Adv`, `A`, `Inj`, `Prep` that the
/// text starts with.
pub open spec fn spec_pos(s: Seq<char>, p: int) -> Parsed<Pos> {
    if at(s, p, "N"@) {
        Parsed::Done(Pos::Noun, p + 1)
    } else if at(s, p, "V"@) {
        Parsed::Done(Pos::Verb, p + 1)
    } else if at(s, p, "Adj"@) {
        Parsed::Done(Pos::Adjective, p + 3)
    } else if at(s, p, "Adv"@) {
        Parsed::Done(Pos::Adverb, p + 3)
    } else if at(s, p, "A"@) {
        Parsed::Done(Pos::AdjectiveOrAdverb, p + 1)
    } else if at(s, p, "Inj"@) {
        Parsed::Done(Pos::Interjection, p + 3)
    } else if at(s, p, "Prep"@) {
        Parsed::Done(Pos::Preposition, p + 4)
    } else {
        Parsed::Backtrack
    }
}

fn pos_at(s: &Vec<char>, p: usize) -> (r: Option<(Pos, usize)>)
    ensures
        match spec_pos(s@, p as int) {
            Parsed::Done(x, q) => r matches Some((y, e)) && y == x && e == q && q <= s@.len(),
            _ => r is None,
        },
{
    proof {
        reveal_strlit("N");
        reveal_strlit("V");
        reveal_strlit("Adj");
        reveal_strlit("Adv");
        reveal_strlit("A");
        reveal_strlit("Inj");
        reveal_strlit("Prep");
    }
    let n = s.len();
    if at_exec(s, p, "N") {
        Some((Pos::Noun, p + 1))
    } else if at_exec(s, p, "V") {
        Some((Pos::Verb, p + 1))
    } else if at_exec(s, p, "Adj") {
        Some((Pos::Adjective, p + 3))
    } else if at_exec(s, p, "Adv") {
        Some((Pos::Adverb, p + 3))
    } else if at_exec(s, p, "A") {
        Some((Pos::AdjectiveOrAdverb, p + 1))
    } else if at_exec(s, p, "Inj") {
        Some((Pos::Interjection, p + 3))
    } else if at_exec(s, p, "Prep") {
        Some((Pos::Preposition, p + 4))
    } else {
        None
    }
}

/// A type: a category, then perhaps a tag, then perhaps a number.
pub open spec fn spec_type(s: Seq<char>, p: int) -> Parsed<Type> {
    match spec_category(s, p) {
        Parsed::Done(category, p1) => {
            let (tag, p2) = match spec_tag(s, p1) {
                Parsed::Done(t, q) => (Some(t), q),
                _ => (None, p1),
            };
            let q = run_end(s, p2, Run::Digits);
            if q > p2 && digits_value(s, p2, q) > usize::MAX {
                Parsed::Overflow
            } else {
                let num = if q > p2 {
                    Some(digits_value(s, p2, q) as usize)
                } else {
                    None
                };
                Parsed::Done(Type { category, tag, num }, q)
            }
        },
        _ => Parsed::Backtrack,
    }
}

fn type_at(s: &Vec<char>, p: usize) -> (r: Step<Type>)
    ensures
        agrees(r, spec_type(s@, p as int), |t: Type| t),
        r matches Step::Done(_, q) ==> p < q <= s@.len(),
{
    let n = s.len();
    match category_at(s, p) {
        None => Step::Backtrack,
        Some(category) => {
            let p1 = p + 1;
            let (tag, p2) = match tag_at(s, p1) {
                Some(t) => (Some(t), p1 + 1),
                None => (None, p1),
            };
            let q = scan(s, p2, Run::Digits);
            proof {
                lemma_run_end(s@, p2 as int, Run::Digits);
            }
            if q > p2 {
                match digits_at(s, p2, q) {
                    Some(v) => Step::Done(Type { category, tag, num: Some(v) }, q),
                    None => Step::Overflow,
                }
            } else {
                Step::Done(Type { category, tag, num: None }, q)
            }
        },
    }
}

// ---------------------------------------------------------------------------------------
// Variants
// ---------------------------------------------------------------------------------------

pub proof fn lemma_type_progress(s: Seq<char>, p: int)
    requires
        0 <= p <= s.len(),
    ensures
        spec_type(s, p) matches Parsed::Done(_, q) ==> p < q <= s.len(),
{
    if let Parsed::Done(c, p1) = spec_category(s, p) {
        let p2 = match spec_tag(s, p1) {
            Parsed::Done(t, q) => q,
            _ => p1,
        };
        lemma_run_end(s, p2, Run::Digits);
    }
}

/// What a repeated part read, with `pre` read before it.
pub open spec fn prefixed<T>(pre: Seq<T>, r: Parsed<Seq<T>>) -> Parsed<Seq<T>> {
    match r {
        Parsed::Done(rest, q) => Parsed::Done(pre + rest, q),
        Parsed::Backtrack => Parsed::Backtrack,
        Parsed::Cut => Parsed::Cut,
        Parsed::Overflow => Parsed::Overflow,
    }
}

/// The types after the first, each after spaces; stops (before the spaces) at the first
/// place no type follows.
pub open spec fn more_types(s: Seq<char>, q: int) -> Parsed<Seq<Type>>
    decreases s.len() - q,
{
    if q < 0 || q > s.len() {
        Parsed::Done(seq![], q)
    } else {
        let q1 = run_end(s, q, Run::Spaces);
        if q1 == q {
            Parsed::Done(seq![], q)
        } else {
            match spec_type(s, q1) {
                Parsed::Done(t, q2) => {
                    proof {
                        lemma_run_end(s, q, Run::Spaces);
                        lemma_type_progress(s, q1);
                    }
                    prefixed(seq![t], more_types(s, q2))
                },
                Parsed::Overflow => Parsed::Overflow,
                _ => Parsed::Done(seq![], q),
            }
        }
    }
}

pub proof fn lemma_more_types(s: Seq<char>, q: int)
    requires
        0 <= q <= s.len(),
    ensures
        more_types(s, q) matches Parsed::Done(_, e) ==> q <= e <= s.len(),
        more_types(s, q) is Done || more_types(s, q) is Overflow,
    decreases s.len() - q,
{
    lemma_run_end(s, q, Run::Spaces);
    let q1 = run_end(s, q, Run::Spaces);
    if q1 != q {
        lemma_type_progress(s, q1);
        if let Parsed::Done(t, q2) = spec_type(s, q1) {
            lemma_more_types(s, q2);
        }
    }
}

fn more_types_at(s: &Vec<char>, q: usize, types: &mut Vec<Type>) -> (r: Option<usize>)
    requires
        q <= s@.len(),
    ensures
        match more_types(s@, q as int) {
            Parsed::Done(ts, e) => r matches Some(x) && x == e && final(types)@ == old(types)@ + ts,
            _ => r is None,
        },
    decreases s@.len() - q,
{
    let q1 = scan(s, q, Run::Spaces);
    if q1 == q {
        assert(types@ + Seq::<Type>::empty() =~= types@);
        return Some(q);
    }
    match type_at(s, q1) {
        Step::Done(t, q2) => {
            let ghost before = types@;
            types.push(t);
            let r = more_types_at(s, q2, types);
            proof {
                if let Parsed::Done(ts, e) = more_types(s@, q2 as int) {
                    assert(before + (seq![t] + ts) =~= before.push(t) + ts);
                }
            }
            r
        },
        Step::Overflow => None,
        _ => {
            assert(types@ + Seq::<Type>::empty() =~= types@);
            Some(q)
        },
    }
}

/// Column numbers after the types: digit runs separated by spaces.
pub open spec fn more_columns(s: Seq<char>, q: int) -> int
    decreases s.len() - q,
{
    if q < 0 || q > s.len() {
        q
    } else {
        let q1 = run_end(s, q, Run::Spaces);
        if q1 == q {
            q
        } else {
            let d = run_end(s, q1, Run::Digits);
            if d == q1 {
                q
            } else {
                proof {
                    lemma_run_end(s, q, Run::Spaces);
                    lemma_run_end(s, q1, Run::Digits);
                }
                more_columns(s, d)
            }
        }
    }
}

pub open spec fn columns_end(s: Seq<char>, p: int) -> int {
    let d = run_end(s, p, Run::Digits);
    if d == p {
        p
    } else {
        more_columns(s, d)
    }
}

pub proof fn lemma_columns_end(s: Seq<char>, p: int)
    requires
        0 <= p <= s.len(),
    ensures
        p <= columns_end(s, p) <= s.len(),
{
    lemma_run_end(s, p, Run::Digits);
    let d = run_end(s, p, Run::Digits);
    if d != p {
        lemma_more_columns(s, d);
    }
}

pub proof fn lemma_more_columns(s: Seq<char>, q: int)
    requires
        0 <= q <= s.len(),
    ensures
        q <= more_columns(s, q) <= s.len(),
    decreases s.len() - q,
{
    lemma_run_end(s, q, Run::Spaces);
    let q1 = run_end(s, q, Run::Spaces);
    if q1 != q {
        lemma_run_end(s, q1, Run::Digits);
        let d = run_end(s, q1, Run::Digits);
        if d != q1 {
            lemma_more_columns(s, d);
        }
    }
}

/// Underscores in a word stand for spaces.
pub open spec fn spaced(w: Seq<char>) -> Seq<char> {
    w.map_values(|c: char| if c == '_' { ' ' } else { c })
}

/// `(types, word)`.
pub type VariantView = (Seq<Type>, Seq<char>);

/// A variant: types separated by spaces, perhaps column numbers, `:`, and a word (up to
/// ASCII whitespace).
pub open spec fn spec_variant(s: Seq<char>, p: int) -> Parsed<VariantView> {
    match spec_type(s, p) {
        Parsed::Done(t, q) => match more_types(s, q) {
            Parsed::Done(ts, e) => {
                let q2 = run_end(s, e, Run::Spaces);
                let q3 = columns_end(s, q2);
                if 0 <= q3 < s.len() && s[q3] == ':' {
                    let q4 = run_end(s, q3 + 1, Run::Spaces);
                    let w = run_end(s, q4, Run::Word);
                    if w > q4 {
                        Parsed::Done((seq![t] + ts, spaced(s.subrange(q4, w))), w)
                    } else {
                        Parsed::Backtrack
                    }
                } else {
                    Parsed::Backtrack
                }
            },
            _ => Parsed::Overflow,
        },
        Parsed::Overflow => Parsed::Overflow,
        _ => Parsed::Backtrack,
    }
}

pub proof fn lemma_variant_progress(s: Seq<char>, p: int)
    requires
        0 <= p <= s.len(),
    ensures
        spec_variant(s, p) matches Parsed::Done(_, q) ==> p < q <= s.len(),
{
    lemma_type_progress(s, p);
    if let Parsed::Done(t, q) = spec_type(s, p) {
        lemma_more_types(s, q);
        if let Parsed::Done(ts, e) = more_types(s, q) {
            lemma_run_end(s, e, Run::Spaces);
            let q2 = run_end(s, e, Run::Spaces);
            lemma_columns_end(s, q2);
            let q3 = columns_end(s, q2);
            if 0 <= q3 < s.len() && s[q3] == ':' {
                lemma_run_end(s, q3 + 1, Run::Spaces);
                let q4 = run_end(s, q3 + 1, Run::Spaces);
                lemma_run_end(s, q4, Run::Word);
            }
        }
    }
}

fn columns_at(s: &Vec<char>, p: usize) -> (r: usize)
    requires
        p <= s@.len(),
    ensures
        r == columns_end(s@, p as int),
{
    let d = scan(s, p, Run::Digits);
    if d == p {
        return p;
    }
    let mut cur = d;
    loop
        invariant
            cur <= s@.len(),
            more_columns(s@, cur as int) == columns_end(s@, p as int),
        decreases s@.len() - cur,
    {
        let q1 = scan(s, cur, Run::Spaces);
        if q1 == cur {
            return cur;
        }
        let d2 = scan(s, q1, Run::Digits);
        if d2 == q1 {
            return cur;
        }
        cur = d2;
    }
}

fn spaced_string(s: &Vec<char>, i: usize, j: usize) -> (r: String)
    requires
        i <= j <= s@.len(),
    ensures
        r@ == spaced(s@.subrange(i as int, j as int)),
{
    let mut out: Vec<char> = Vec::new();
    let mut k = i;
    while k < j
        invariant
            i <= k <= j <= s@.len(),
            out@ == spaced(s@.subrange(i as int, k as int)),
        decreases j - k,
    {
        let c = s[k];
        out.push(if c == '_' { ' ' } else { c });
        k = k + 1;
        assert(out@ =~= spaced(s@.subrange(i as int, k as int)));
    }
    string_from_chars(out.as_slice())
}

fn variant_at(s: &Vec<char>, p: usize) -> (r: Step<Variant>)
    requires
        p <= s@.len(),
    ensures
        agrees(r, spec_variant(s@, p as int), |v: Variant| variant_view(v)),
        r matches Step::Done(_, q) ==> p < q <= s@.len(),
{
    proof {
        lemma_variant_progress(s@, p as int);
    }
    match type_at(s, p) {
        Step::Done(t, q) => {
            let mut types: Vec<Type> = Vec::new();
            types.push(t);
            assert(types@ =~= seq![t]);
            proof {
                lemma_more_types(s@, q as int);
            }
            match more_types_at(s, q, &mut types) {
                None => Step::Overflow,
                Some(q1) => {
                    let q2 = scan(s, q1, Run::Spaces);
                    proof {
                        lemma_columns_end(s@, q2 as int);
                    }
                    let q3 = columns_at(s, q2);
                    if q3 < s.len() && s[q3] == ':' {
                        let q4 = scan(s, q3 + 1, Run::Spaces);
                        let w = scan(s, q4, Run::Word);
                        if w > q4 {
                            let word = spaced_string(s, q4, w);
                            Step::Done(Variant { types, word }, w)
                        } else {
                            Step::Backtrack
                        }
                    } else {
                        Step::Backtrack
                    }
                },
            }
        },
        Step::Overflow => Step::Overflow,
        _ => Step::Backtrack,
    }
}

// ---------------------------------------------------------------------------------------
// Entries
// ---------------------------------------------------------------------------------------

pub open spec fn variant_view(v: Variant) -> VariantView {
    (v.types@, v.word@)
}

pub open spec fn variants_view(vs: Seq<Variant>) -> Seq<VariantView> {
    vs.map_values(|v: Variant| variant_view(v))
}

/// The variants after the first, each after a `/` (with spaces around it); stops before
/// the `/` where no variant follows.
pub open spec fn more_variants(s: Seq<char>, q: int) -> Parsed<Seq<VariantView>>
    decreases s.len() - q,
{
    if q < 0 || q > s.len() {
        Parsed::Done(seq![], q)
    } else {
        let q1 = run_end(s, q, Run::Spaces);
        if q1 < s.len() && s[q1] == '/' {
            let q2 = run_end(s, q1 + 1, Run::Spaces);
            match spec_variant(s, q2) {
                Parsed::Done(v, q3) => {
                    proof {
                        lemma_run_end(s, q, Run::Spaces);
                        lemma_run_end(s, q1 + 1, Run::Spaces);
                        lemma_variant_progress(s, q2);
                    }
                    prefixed(seq![v], more_variants(s, q3))
                },
                Parsed::Overflow => Parsed::Overflow,
                _ => Parsed::Done(seq![], q),
            }
        } else {
            Parsed::Done(seq![], q)
        }
    }
}

pub proof fn lemma_more_variants(s: Seq<char>, q: int)
    requires
        0 <= q <= s.len(),
    ensures
        more_variants(s, q) matches Parsed::Done(_, e) ==> q <= e <= s.len(),
        more_variants(s, q) is Done || more_variants(s, q) is Overflow,
    decreases s.len() - q,
{
    lemma_run_end(s, q, Run::Spaces);
    let q1 = run_end(s, q, Run::Spaces);
    if q1 < s.len() && s[q1] == '/' {
        lemma_run_end(s, q1 + 1, Run::Spaces);
        let q2 = run_end(s, q1 + 1, Run::Spaces);
        lemma_variant_progress(s, q2);
        if let Parsed::Done(v, q3) = spec_variant(s, q2) {
            lemma_more_variants(s, q3);
        }
    }
}

fn more_variants_at(s: &Vec<char>, q: usize, variants: &mut Vec<Variant>) -> (r: Option<usize>)
    requires
        q <= s@.len(),
    ensures
        match more_variants(s@, q as int) {
            Parsed::Done(vs, e) => r matches Some(x) && x == e && variants_view(final(variants)@)
                == variants_view(old(variants)@) + vs,
            _ => r is None,
        },
    decreases s@.len() - q,
{
    let q1 = scan(s, q, Run::Spaces);
    if q1 < s.len() && s[q1] == '/' {
        let q2 = scan(s, q1 + 1, Run::Spaces);
        match variant_at(s, q2) {
            Step::Done(v, q3) => {
                let ghost before = variants@;
                variants.push(v);
                assert(variants_view(variants@) =~= variants_view(before).push(variant_view(v)));
                let r = more_variants_at(s, q3, variants);
                proof {
                    if let Parsed::Done(vs, e) = more_variants(s@, q3 as int) {
                        assert(variants_view(before) + (seq![variant_view(v)] + vs)
                            =~= variants_view(before).push(variant_view(v)) + vs);
                    }
                }
                r
            },
            Step::Overflow => None,
            _ => {
                assert(variants_view(variants@) + Seq::<VariantView>::empty() =~= variants_view(variants@));
                Some(q)
            },
        }
    } else {
        assert(variants_view(variants@) + Seq::<VariantView>::empty() =~= variants_view(variants@));
        Some(q)
    }
}

/// After spaces, the literal; else nothing is read.
pub open spec fn opt_spaced_lit(s: Seq<char>, p: int, lit: Seq<char>) -> int {
    let sp = run_end(s, p, Run::Spaces);
    if sp > p && at(s, sp, lit) {
        sp + lit.len()
    } else {
        p
    }
}

/// After spaces, a note: `--`, spaces, and its text up to a line break, `#` or `|`.
pub open spec fn opt_note(s: Seq<char>, p: int) -> (Option<Seq<char>>, int) {
    let sp = run_end(s, p, Run::Spaces);
    if sp > p && at(s, sp, "--"@) {
        let sp2 = run_end(s, sp + 2, Run::Spaces);
        if sp2 > sp + 2 {
            let e = run_end(s, sp2, Run::Description);
            (Some(s.subrange(sp2, e)), e)
        } else {
            (None, p)
        }
    } else {
        (None, p)
    }
}

/// `(pos, archaic, description, note)`.
pub type DetailsView = (Option<Pos>, bool, Option<Seq<char>>, Option<Seq<char>>);

/// The part of speech in `<...>` after spaces, if the text goes on with `<`: a `<`
/// must be followed by a part of speech and `>`.
pub open spec fn opt_pos(s: Seq<char>, p: int) -> Parsed<Option<Pos>> {
    let sp = run_end(s, p, Run::Spaces);
    if sp > p && sp < s.len() && s[sp] == '<' {
        match spec_pos(s, sp + 1) {
            Parsed::Done(x, q) => if 0 <= q < s.len() && s[q] == '>' {
                Parsed::Done(Some(x), q + 1)
            } else {
                Parsed::Cut
            },
            _ => Parsed::Cut,
        }
    } else {
        Parsed::Done(None, p)
    }
}

/// The details after a `|`: abbreviation and plural marks (skipped), a part of speech, an
/// archaic mark `(-)`, a note and a description, and after another `|` a note (which
/// replaces the first).
pub open spec fn spec_details(s: Seq<char>, p: int) -> Parsed<DetailsView> {
    let q0 = run_end(s, p, Run::Spaces);
    if !(0 <= q0 < s.len() && s[q0] == '|') {
        Parsed::Done((None, false, None, None), p)
    } else {
        let p2 = opt_spaced_lit(s, q0 + 1, "<abbr>"@);
        let p3 = opt_spaced_lit(s, p2, "<pl>"@);
        match opt_pos(s, p3) {
            Parsed::Done(pos, p4) => {
                let p5 = opt_spaced_lit(s, p4, "(-)"@);
                let archaic = p5 != p4;
                let n1 = opt_note(s, p5);
                let p6 = n1.1;
                let sp6 = run_end(s, p6, Run::Spaces);
                let d = if sp6 > p6 {
                    let e = run_end(s, sp6, Run::Description);
                    (Some(s.subrange(sp6, e)), e)
                } else {
                    (None, p6)
                };
                let q1 = run_end(s, d.1, Run::Spaces);
                if 0 <= q1 < s.len() && s[q1] == '|' {
                    let n2 = opt_note(s, q1 + 1);
                    Parsed::Done((pos, archaic, d.0, n2.0), n2.1)
                } else {
                    Parsed::Done((pos, archaic, d.0, n1.0), d.1)
                }
            },
            _ => Parsed::Cut,
        }
    }
}

/// Where the text up to a line ending ends; a lone `\r` is no line ending.
pub open spec fn till_line_ending(s: Seq<char>, p: int) -> Option<int> {
    let e = run_end(s, p, Run::Line);
    if 0 <= e < s.len() && s[e] == '\r' && !(e + 1 < s.len() && s[e + 1] == '\n') {
        None
    } else {
        Some(e)
    }
}

/// A comment: spaces, `#`, spaces, and the rest of the line.
pub open spec fn opt_comment(s: Seq<char>, p: int) -> (Option<Seq<char>>, int) {
    let c0 = run_end(s, p, Run::Spaces);
    if 0 <= c0 < s.len() && s[c0] == '#' {
        let c1 = run_end(s, c0 + 1, Run::Spaces);
        if c1 > c0 + 1 {
            match till_line_ending(s, c1) {
                Some(e) => (Some(s.subrange(c1, e)), e),
                None => (None, p),
            }
        } else {
            (None, p)
        }
    } else {
        (None, p)
    }
}

/// An entry as plain values.
pub struct EntryView {
    pub variants: Seq<VariantView>,
    pub pos: Option<Pos>,
    pub archaic: bool,
    pub description: Option<Seq<char>>,
    pub note: Option<Seq<char>>,
    pub comment: Option<Seq<char>>,
}

pub open spec fn opt_text(s: Option<String>) -> Option<Seq<char>> {
    match s {
        Some(s) => Some(s@),
        None => None,
    }
}

pub open spec fn entry_view(e: Entry) -> EntryView {
    EntryView {
        variants: variants_view(e.variants@),
        pos: e.pos,
        archaic: e.archaic,
        description: opt_text(e.description),
        note: opt_text(e.note),
        comment: opt_text(e.comment),
    }
}

/// An entry: variants, details, a comment, and trailing spaces.
pub open spec fn spec_entry(s: Seq<char>, p: int) -> Parsed<EntryView> {
    match spec_variant(s, p) {
        Parsed::Done(v, q) => match more_variants(s, q) {
            Parsed::Done(vs, e) => match spec_details(s, e) {
                Parsed::Done(d, q1) => {
                    let c = opt_comment(s, q1);
                    let q3 = run_end(s, c.1, Run::Spaces);
                    Parsed::Done(
                        EntryView {
                            variants: seq![v] + vs,
                            pos: d.0,
                            archaic: d.1,
                            description: d.2,
                            note: d.3,
                            comment: c.0,
                        },
                        q3,
                    )
                },
                _ => Parsed::Cut,
            },
            _ => Parsed::Overflow,
        },
        Parsed::Overflow => Parsed::Overflow,
        _ => Parsed::Backtrack,
    }
}

fn opt_spaced_lit_at(s: &Vec<char>, p: usize, lit: &str) -> (r: usize)
    requires
        p <= s@.len(),
    ensures
        r == opt_spaced_lit(s@, p as int, lit@),
        p <= r <= s@.len(),
{
    let n = s.len();
    let sp = scan(s, p, Run::Spaces);
    if sp > p && at_exec(s, sp, lit) {
        let l = chars_of(lit);
        sp + l.len()
    } else {
        p
    }
}

fn opt_note_at(s: &Vec<char>, p: usize) -> (r: (Option<String>, usize))
    requires
        p <= s@.len(),
    ensures
        opt_text(r.0) == opt_note(s@, p as int).0,
        r.1 == opt_note(s@, p as int).1,
        p <= r.1 <= s@.len(),
{
    proof {
        reveal_strlit("--");
    }
    let n = s.len();
    let sp = scan(s, p, Run::Spaces);
    if sp > p && at_exec(s, sp, "--") {
        let sp2 = scan(s, sp + 2, Run::Spaces);
        if sp2 > sp + 2 {
            let e = scan(s, sp2, Run::Description);
            (Some(string_from_range(s, sp2, e)), e)
        } else {
            (None, p)
        }
    } else {
        (None, p)
    }
}

fn opt_pos_at(s: &Vec<char>, p: usize) -> (r: Step<Option<Pos>>)
    requires
        p <= s@.len(),
    ensures
        agrees(r, opt_pos(s@, p as int), |x: Option<Pos>| x),
        r matches Step::Done(_, q) ==> p <= q <= s@.len(),
{
    let sp = scan(s, p, Run::Spaces);
    if sp > p && sp < s.len() && s[sp] == '<' {
        match pos_at(s, sp + 1) {
            Some((x, q)) => {
                if q < s.len() && s[q] == '>' {
                    Step::Done(Some(x), q + 1)
                } else {
                    Step::Cut
                }
            },
            None => Step::Cut,
        }
    } else {
        Step::Done(None, p)
    }
}

/// `(pos, archaic, description, note)` as read.
pub type Details = (Option<Pos>, bool, Option<String>, Option<String>);

pub open spec fn details_view(d: Details) -> DetailsView {
    (d.0, d.1, opt_text(d.2), opt_text(d.3))
}

fn details_at(s: &Vec<char>, p: usize) -> (r: Step<Details>)
    requires
        p <= s@.len(),
    ensures
        agrees(r, spec_details(s@, p as int), |d: Details| details_view(d)),
        r matches Step::Done(_, q) ==> p <= q <= s@.len(),
{
    proof {
        reveal_strlit("<abbr>");
        reveal_strlit("<pl>");
        reveal_strlit("(-)");
    }
    let q0 = scan(s, p, Run::Spaces);
    if !(q0 < s.len() && s[q0] == '|') {
        return Step::Done((None, false, None, None), p);
    }
    let p2 = opt_spaced_lit_at(s, q0 + 1, "<abbr>");
    let p3 = opt_spaced_lit_at(s, p2, "<pl>");
    match opt_pos_at(s, p3) {
        Step::Done(pos, p4) => {
            let p5 = opt_spaced_lit_at(s, p4, "(-)");
            let archaic = p5 != p4;
            let (n1, p6) = opt_note_at(s, p5);
            let sp6 = scan(s, p6, Run::Spaces);
            let (description, d1) = if sp6 > p6 {
                let e = scan(s, sp6, Run::Description);
                (Some(string_from_range(s, sp6, e)), e)
            } else {
                (None, p6)
            };
            let q1 = scan(s, d1, Run::Spaces);
            if q1 < s.len() && s[q1] == '|' {
                let (n2, e2) = opt_note_at(s, q1 + 1);
                Step::Done((pos, archaic, description, n2), e2)
            } else {
                Step::Done((pos, archaic, description, n1), d1)
            }
        },
        _ => Step::Cut,
    }
}

fn till_line_ending_at(s: &Vec<char>, p: usize) -> (r: Option<usize>)
    requires
        p <= s@.len(),
    ensures
        match till_line_ending(s@, p as int) {
            Some(e) => r matches Some(x) && x == e && p <= e <= s@.len(),
            None => r is None,
        },
{
    let e = scan(s, p, Run::Line);
    if e < s.len() && s[e] == '\r' && !(e + 1 < s.len() && s[e + 1] == '\n') {
        None
    } else {
        Some(e)
    }
}

fn opt_comment_at(s: &Vec<char>, p: usize) -> (r: (Option<String>, usize))
    requires
        p <= s@.len(),
    ensures
        opt_text(r.0) == opt_comment(s@, p as int).0,
        r.1 == opt_comment(s@, p as int).1,
        p <= r.1 <= s@.len(),
{
    let c0 = scan(s, p, Run::Spaces);
    if c0 < s.len() && s[c0] == '#' {
        let c1 = scan(s, c0 + 1, Run::Spaces);
        if c1 > c0 + 1 {
            match till_line_ending_at(s, c1) {
                Some(e) => (Some(string_from_range(s, c1, e)), e),
                None => (None, p),
            }
        } else {
            (None, p)
        }
    } else {
        (None, p)
    }
}

fn entry_at(s: &Vec<char>, p: usize) -> (r: Step<Entry>)
    requires
        p <= s@.len(),
    ensures
        agrees(r, spec_entry(s@, p as int), |e: Entry| entry_view(e)),
        r matches Step::Done(_, q) ==> p < q <= s@.len(),
{
    match variant_at(s, p) {
        Step::Done(v, q) => {
            let mut variants: Vec<Variant> = Vec::new();
            variants.push(v);
            assert(variants_view(variants@) =~= seq![variant_view(v)]);
            proof {
                lemma_more_variants(s@, q as int);
            }
            match more_variants_at(s, q, &mut variants) {
                None => Step::Overflow,
                Some(q1) => match details_at(s, q1) {
                    Step::Done(d, q2) => {
                        let (pos, archaic, description, note) = d;
                        let (comment, q3) = opt_comment_at(s, q2);
                        let q4 = scan(s, q3, Run::Spaces);
                        Step::Done(Entry { variants, pos, archaic, description, note, comment }, q4)
                    },
                    _ => Step::Cut,
                },
            }
        },
        Step::Overflow => Step::Overflow,
        _ => Step::Backtrack,
    }
}

// ---------------------------------------------------------------------------------------
// Clusters
// ---------------------------------------------------------------------------------------

/// A line ending: `\n` or `\r\n`.
pub open spec fn line_ending(s: Seq<char>, p: int) -> Option<int> {
    if 0 <= p < s.len() && s[p] == '\n' {
        Some(p + 1)
    } else if 0 <= p && p + 1 < s.len() && s[p] == '\r' && s[p + 1] == '\n' {
        Some(p + 2)
    } else {
        None
    }
}

/// `(header, verified, level)`.
pub type HeaderView = (Seq<char>, bool, usize);

/// The header line: `#`, spaces, the header (not empty, up to a line break, `<` or `(`),
/// spaces, perhaps `<verified>` and spaces, `(level N)`, spaces and a line ending.  A
/// level too large for a `usize` makes the line no header.
pub open spec fn spec_header(s: Seq<char>, p: int) -> Parsed<HeaderView> {
    if !(0 <= p < s.len() && s[p] == '#') {
        Parsed::Backtrack
    } else {
        let h0 = run_end(s, p + 1, Run::Spaces);
        let h1 = run_end(s, h0, Run::Header);
        let h2 = run_end(s, h1, Run::Spaces);
        let verified = at(s, h2, "<verified>"@);
        let h3 = if verified {
            run_end(s, h2 + 10, Run::Spaces)
        } else {
            h2
        };
        let d0 = h3 + 7;
        let d1 = run_end(s, d0, Run::Digits);
        if h1 == h0 || !at(s, h3, "(level "@) || d1 == d0 || !(d1 < s.len() && s[d1] == ')')
            || digits_value(s, d0, d1) > usize::MAX {
            Parsed::Backtrack
        } else {
            match line_ending(s, run_end(s, d1 + 1, Run::Spaces)) {
                Some(e) => Parsed::Done((s.subrange(h0, h1), verified, digits_value(s, d0, d1) as usize), e),
                None => Parsed::Backtrack,
            }
        }
    }
}

pub proof fn lemma_entry_progress(s: Seq<char>, p: int)
    requires
        0 <= p <= s.len(),
    ensures
        spec_entry(s, p) matches Parsed::Done(_, q) ==> p < q <= s.len(),
{
    lemma_variant_progress(s, p);
    if let Parsed::Done(v, q) = spec_variant(s, p) {
        lemma_more_variants(s, q);
        if let Parsed::Done(vs, e) = more_variants(s, q) {
            lemma_details_progress(s, e);
            if let Parsed::Done(d, q1) = spec_details(s, e) {
                lemma_comment_progress(s, q1);
                lemma_run_end(s, opt_comment(s, q1).1, Run::Spaces);
            }
        }
    }
}

pub proof fn lemma_details_progress(s: Seq<char>, p: int)
    requires
        0 <= p <= s.len(),
    ensures
        spec_details(s, p) matches Parsed::Done(_, q) ==> p <= q <= s.len(),
{
    lemma_run_end(s, p, Run::Spaces);
    let q0 = run_end(s, p, Run::Spaces);
    if 0 <= q0 < s.len() && s[q0] == '|' {
        lemma_opt_spaced_lit(s, q0 + 1, "<abbr>"@);
        let p2 = opt_spaced_lit(s, q0 + 1, "<abbr>"@);
        lemma_opt_spaced_lit(s, p2, "<pl>"@);
        let p3 = opt_spaced_lit(s, p2, "<pl>"@);
        lemma_run_end(s, p3, Run::Spaces);
        if let Parsed::Done(pos, p4) = opt_pos(s, p3) {
            lemma_opt_pos(s, p3);
            lemma_opt_spaced_lit(s, p4, "(-)"@);
            let p5 = opt_spaced_lit(s, p4, "(-)"@);
            lemma_opt_note(s, p5);
            let p6 = opt_note(s, p5).1;
            lemma_run_end(s, p6, Run::Spaces);
            let sp6 = run_end(s, p6, Run::Spaces);
            lemma_run_end(s, sp6, Run::Description);
            let d1 = if sp6 > p6 {
                run_end(s, sp6, Run::Description)
            } else {
                p6
            };
            lemma_run_end(s, d1, Run::Spaces);
            let q1 = run_end(s, d1, Run::Spaces);
            if 0 <= q1 < s.len() && s[q1] == '|' {
                lemma_opt_note(s, q1 + 1);
            }
        }
    }
}

pub proof fn lemma_opt_spaced_lit(s: Seq<char>, p: int, lit: Seq<char>)
    requires
        0 <= p <= s.len(),
    ensures
        p <= opt_spaced_lit(s, p, lit) <= s.len(),
{
    lemma_run_end(s, p, Run::Spaces);
}

pub proof fn lemma_opt_pos(s: Seq<char>, p: int)
    requires
        0 <= p <= s.len(),
    ensures
        opt_pos(s, p) matches Parsed::Done(_, q) ==> p <= q <= s.len(),
{
    lemma_run_end(s, p, Run::Spaces);
}

pub proof fn lemma_opt_note(s: Seq<char>, p: int)
    requires
        0 <= p <= s.len(),
    ensures
        p <= opt_note(s, p).1 <= s.len(),
{
    reveal_strlit("--");
    lemma_run_end(s, p, Run::Spaces);
    let sp = run_end(s, p, Run::Spaces);
    if sp > p && at(s, sp, "--"@) {
        lemma_run_end(s, sp + 2, Run::Spaces);
        lemma_run_end(s, run_end(s, sp + 2, Run::Spaces), Run::Description);
    }
}

pub proof fn lemma_comment_progress(s: Seq<char>, p: int)
    requires
        0 <= p <= s.len(),
    ensures
        p <= opt_comment(s, p).1 <= s.len(),
{
    lemma_run_end(s, p, Run::Spaces);
    let c0 = run_end(s, p, Run::Spaces);
    if 0 <= c0 < s.len() && s[c0] == '#' {
        lemma_run_end(s, c0 + 1, Run::Spaces);
        lemma_run_end(s, run_end(s, c0 + 1, Run::Spaces), Run::Line);
    }
}

/// Entries, each ended by a line ending; stops where none follows.
pub open spec fn more_entries(s: Seq<char>, q: int) -> Parsed<Seq<EntryView>>
    decreases s.len() - q,
{
    if q < 0 || q > s.len() {
        Parsed::Done(seq![], q)
    } else {
        match spec_entry(s, q) {
            Parsed::Done(e, q1) => match line_ending(s, q1) {
                Some(q2) => {
                    proof {
                        lemma_entry_progress(s, q);
                    }
                    prefixed(seq![e], more_entries(s, q2))
                },
                None => Parsed::Done(seq![], q),
            },
            Parsed::Backtrack => Parsed::Done(seq![], q),
            Parsed::Cut => Parsed::Cut,
            Parsed::Overflow => Parsed::Overflow,
        }
    }
}

/// Note lines: `##`, spaces, and the text up to a line ending, which must follow.
pub open spec fn more_notes(s: Seq<char>, q: int) -> (Seq<Seq<char>>, int)
    decreases s.len() - q,
{
    if q < 0 || q + 1 >= s.len() || s[q] != '#' || s[q + 1] != '#' {
        (seq![], q)
    } else {
        let n0 = run_end(s, q + 2, Run::Spaces);
        match till_line_ending(s, n0) {
            Some(e) => match line_ending(s, e) {
                Some(e2) => {
                    proof {
                        lemma_run_end(s, q + 2, Run::Spaces);
                        lemma_run_end(s, n0, Run::Line);
                    }
                    let r = more_notes(s, e2);
                    (seq![s.subrange(n0, e)] + r.0, r.1)
                },
                None => (seq![], q),
            },
            None => (seq![], q),
        }
    }
}

/// A cluster as plain values.
pub struct ClusterView {
    pub header: Seq<char>,
    pub verified: bool,
    pub level: usize,
    pub entries: Seq<EntryView>,
    pub notes: Seq<Seq<char>>,
}

pub open spec fn entries_view(es: Seq<Entry>) -> Seq<EntryView> {
    es.map_values(|e: Entry| entry_view(e))
}

pub open spec fn texts_view(ns: Seq<String>) -> Seq<Seq<char>> {
    ns.map_values(|n: String| n@)
}

pub open spec fn cluster_view(c: Cluster) -> ClusterView {
    ClusterView {
        header: c.header@,
        verified: c.verified,
        level: c.level,
        entries: entries_view(c.entries@),
        notes: texts_view(c.notes@),
    }
}

/// A cluster: a header line, one or more entries each ended by a line ending, and notes.
pub open spec fn spec_cluster(s: Seq<char>, p: int) -> Parsed<ClusterView> {
    match spec_header(s, p) {
        Parsed::Done(h, q) => match more_entries(s, q) {
            Parsed::Done(es, q1) => if es.len() == 0 {
                Parsed::Backtrack
            } else {
                let n = more_notes(s, q1);
                Parsed::Done(
                    ClusterView { header: h.0, verified: h.1, level: h.2, entries: es, notes: n.0 },
                    n.1,
                )
            },
            Parsed::Cut => Parsed::Cut,
            _ => Parsed::Overflow,
        },
        _ => Parsed::Backtrack,
    }
}

fn line_ending_at(s: &Vec<char>, p: usize) -> (r: Option<usize>)
    ensures
        match line_ending(s@, p as int) {
            Some(e) => r matches Some(x) && x == e && p < e <= s@.len(),
            None => r is None,
        },
{
    if p < s.len() && s[p] == '\n' {
        Some(p + 1)
    } else if p < s.len() && s.len() - p >= 2 && s[p] == '\r' && s[p + 1] == '\n' {
        Some(p + 2)
    } else {
        None
    }
}

fn header_at(s: &Vec<char>, p: usize) -> (r: Option<(String, bool, usize, usize)>)
    requires
        p <= s@.len(),
    ensures
        match spec_header(s@, p as int) {
            Parsed::Done(h, q) => r matches Some((t, v, l, e)) && t@ == h.0 && v == h.1 && l == h.2
                && e == q && p < q <= s@.len(),
            _ => r is None,
        },
{
    proof {
        reveal_strlit("<verified>");
        reveal_strlit("(level ");
    }
    let n = s.len();
    if !(p < n && s[p] == '#') {
        return None;
    }
    let h0 = scan(s, p + 1, Run::Spaces);
    let h1 = scan(s, h0, Run::Header);
    let h2 = scan(s, h1, Run::Spaces);
    let verified = at_exec(s, h2, "<verified>");
    let h3 = if verified {
        scan(s, h2 + 10, Run::Spaces)
    } else {
        h2
    };
    if h1 == h0 || !at_exec(s, h3, "(level ") {
        return None;
    }
    let d0 = h3 + 7;
    let d1 = scan(s, d0, Run::Digits);
    if d1 == d0 || !(d1 < n && s[d1] == ')') {
        return None;
    }
    proof {
        lemma_run_end(s@, d0 as int, Run::Digits);
    }
    match digits_at(s, d0, d1) {
        None => None,
        Some(level) => {
            let sp = scan(s, d1 + 1, Run::Spaces);
            match line_ending_at(s, sp) {
                Some(e) => Some((string_from_range(s, h0, h1), verified, level, e)),
                None => None,
            }
        },
    }
}

fn more_entries_at(s: &Vec<char>, q: usize, entries: &mut Vec<Entry>) -> (r: Step<()>)
    requires
        q <= s@.len(),
    ensures
        match more_entries(s@, q as int) {
            Parsed::Done(es, e) => r matches Step::Done(_, x) && x == e && q <= e <= s@.len()
                && entries_view(final(entries)@) == entries_view(old(entries)@) + es,
            Parsed::Cut => r is Cut,
            _ => r is Overflow,
        },
    decreases s@.len() - q,
{
    let ghost before = entries@;
    assert(entries_view(before) + Seq::<EntryView>::empty() =~= entries_view(before));
    match entry_at(s, q) {
        Step::Done(entry, q1) => match line_ending_at(s, q1) {
            Some(q2) => {
                entries.push(entry);
                assert(entries_view(entries@) =~= entries_view(before).push(entry_view(entry)));
                let r = more_entries_at(s, q2, entries);
                proof {
                    if let Parsed::Done(es, e) = more_entries(s@, q2 as int) {
                        assert(entries_view(before) + (seq![entry_view(entry)] + es)
                            =~= entries_view(before).push(entry_view(entry)) + es);
                    }
                }
                r
            },
            None => Step::Done((), q),
        },
        Step::Backtrack => Step::Done((), q),
        Step::Cut => Step::Cut,
        Step::Overflow => Step::Overflow,
    }
}

fn more_notes_at(s: &Vec<char>, q: usize, notes: &mut Vec<String>) -> (r: usize)
    requires
        q <= s@.len(),
    ensures
        r == more_notes(s@, q as int).1,
        texts_view(final(notes)@) == texts_view(old(notes)@) + more_notes(s@, q as int).0,
        q <= r <= s@.len(),
    decreases s@.len() - q,
{
    let ghost before = notes@;
    assert(texts_view(before) + Seq::<Seq<char>>::empty() =~= texts_view(before));
    let n = s.len();
    if q >= n || n - q < 2 || s[q] != '#' || s[q + 1] != '#' {
        return q;
    }
    let n0 = scan(s, q + 2, Run::Spaces);
    match till_line_ending_at(s, n0) {
        Some(e) => match line_ending_at(s, e) {
            Some(e2) => {
                let note = string_from_range(s, n0, e);
                let ghost t = note@;
                notes.push(note);
                assert(texts_view(notes@) =~= texts_view(before).push(t));
                let r = more_notes_at(s, e2, notes);
                assert(texts_view(before) + (seq![t] + more_notes(s@, e2 as int).0)
                    =~= texts_view(before).push(t) + more_notes(s@, e2 as int).0);
                r
            },
            None => q,
        },
        None => q,
    }
}

fn cluster_at(s: &Vec<char>, p: usize) -> (r: Step<Cluster>)
    requires
        p <= s@.len(),
    ensures
        agrees(r, spec_cluster(s@, p as int), |c: Cluster| cluster_view(c)),
        r matches Step::Done(_, q) ==> p < q <= s@.len(),
{
    match header_at(s, p) {
        None => Step::Backtrack,
        Some((header, verified, level, q)) => {
            let mut entries: Vec<Entry> = Vec::new();
            assert(entries_view(entries@) =~= Seq::<EntryView>::empty());
            match more_entries_at(s, q, &mut entries) {
                Step::Done(_, q1) => {
                    if entries.len() == 0 {
                        Step::Backtrack
                    } else {
                        let mut notes: Vec<String> = Vec::new();
                        assert(texts_view(notes@) =~= Seq::<Seq<char>>::empty());
                        let q2 = more_notes_at(s, q1, &mut notes);
                        Step::Done(Cluster { header, verified, level, entries, notes }, q2)
                    }
                },
                Step::Cut => Step::Cut,
                _ => Step::Overflow,
            }
        },
    }
}

// ---------------------------------------------------------------------------------------
// Reading whole texts and prefixes
// ---------------------------------------------------------------------------------------

/// A text that is not one item of the kind asked for.
#[derive(Debug)]
pub struct ParseError;

impl ParseError {
    /// What the error says: `invalid`.
    pub fn to_string(&self) -> (r: String)
        ensures
            r@ == "invalid"@,
    {
        String::from_str("invalid")
    }
}

/// Why no item of the kind asked for starts a text: nothing of the kind is there
/// (`Backtrack`), or a part after a point of no return is malformed (`Cut`).
#[derive(Debug, Clone, Copy, PartialEq, Eq)]
pub enum PeekError {
    Backtrack,
    Cut,
}

impl PeekError {
    /// What the error says.
    pub fn to_string(&self) -> (r: String)
        ensures
            r@ == (match self {
                PeekError::Backtrack => "Parsing Error: ()"@,
                PeekError::Cut => "Parsing Failure: ()"@,
            }),
    {
        match self {
            PeekError::Backtrack => String::from_str("Parsing Error: ()"),
            PeekError::Cut => String::from_str("Parsing Failure: ()"),
        }
    }
}

/// `r` is what reading the whole text of length `len` gives, where the grammar reads
/// `spec` from its start: the item if it ends where the text does, else an error.
pub open spec fn read_whole<T, V>(
    r: Result<T, ParseError>,
    spec: Parsed<V>,
    len: int,
    view: spec_fn(T) -> V,
) -> bool {
    match spec {
        Parsed::Done(v, q) => if q == len {
            r matches Ok(x) && view(x) == v
        } else {
            r is Err
        },
        _ => r is Err,
    }
}

/// `r` is what reading the start of the text `s` gives, where the grammar reads `spec`
/// from its start: the rest of the text and the item, or why nothing was read.
pub open spec fn read_prefix<T, V>(
    r: Result<(String, T), PeekError>,
    spec: Parsed<V>,
    s: Seq<char>,
    view: spec_fn(T) -> V,
) -> bool {
    match spec {
        Parsed::Done(v, q) => r matches Ok((rest, x)) && rest@ == s.subrange(q, s.len() as int)
            && view(x) == v,
        Parsed::Backtrack => r == Err::<(String, T), PeekError>(PeekError::Backtrack),
        Parsed::Cut => r == Err::<(String, T), PeekError>(PeekError::Cut),
        Parsed::Overflow => false,
    }
}

fn whole_result<T>(r: Step<T>, len: usize) -> (res: Result<T, ParseError>)
    ensures
        match r {
            Step::Done(x, q) => if q == len {
                res == Ok::<T, ParseError>(x)
            } else {
                res is Err
            },
            _ => res is Err,
        },
{
    match r {
        Step::Done(x, q) => if q == len {
            Ok(x)
        } else {
            Err(ParseError)
        },
        _ => Err(ParseError),
    }
}

fn prefix_result<T>(r: Step<T>, s: &Vec<char>) -> (res: Result<(String, T), PeekError>)
    requires
        !(r is Overflow),
        r matches Step::Done(_, q) ==> q <= s@.len(),
    ensures
        match r {
            Step::Done(x, q) => res matches Ok((rest, y)) && rest@ == s@.subrange(q as int, s@.len() as int)
                && y == x,
            Step::Backtrack => res == Err::<(String, T), PeekError>(PeekError::Backtrack),
            Step::Cut => res == Err::<(String, T), PeekError>(PeekError::Cut),
            Step::Overflow => false,
        },
{
    match r {
        Step::Done(x, q) => Ok((string_from_range(s, q, s.len()), x)),
        Step::Backtrack => Err(PeekError::Backtrack),
        Step::Cut => Err(PeekError::Cut),
        Step::Overflow => Err(PeekError::Cut),
    }
}

fn option_step<T>(r: Option<(T, usize)>) -> (res: Step<T>)
    ensures
        match r {
            Some((x, q)) => res == Step::Done(x, q),
            None => res == Step::<T>::Backtrack,
        },
{
    match r {
        Some((x, q)) => Step::Done(x, q),
        None => Step::Backtrack,
    }
}

impl Category {
    /// Reads a category that makes up the whole text.
    pub fn parse(input: &str) -> (r: Result<Category, ParseError>)
        ensures
            read_whole(r, spec_category(input@, 0), input@.len() as int, |c: Category| c),
    {
        let s = chars_of(input);
        let found = match category_at(&s, 0) {
            Some(c) => Some((c, 1)),
            None => None,
        };
        whole_result(option_step(found), s.len())
    }

    /// Reads a category at the start of the text.
    pub fn parse_peek(input: &str) -> (r: Result<(String, Category), PeekError>)
        ensures
            read_prefix(r, spec_category(input@, 0), input@, |c: Category| c),
    {
        let s = chars_of(input);
        let found = match category_at(&s, 0) {
            Some(c) => Some((c, 1)),
            None => None,
        };
        prefix_result(option_step(found), &s)
    }
}

impl Tag {
    /// Reads a tag that makes up the whole text.
    pub fn parse(input: &str) -> (r: Result<Tag, ParseError>)
        ensures
            read_whole(r, spec_tag(input@, 0), input@.len() as int, |t: Tag| t),
    {
        let s = chars_of(input);
        let found = match tag_at(&s, 0) {
            Some(t) => Some((t, 1)),
            None => None,
        };
        whole_result(option_step(found), s.len())
    }

    /// Reads a tag at the start of the text.
    pub fn parse_peek(input: &str) -> (r: Result<(String, Tag), PeekError>)
        ensures
            read_prefix(r, spec_tag(input@, 0), input@, |t: Tag| t),
    {
        let s = chars_of(input);
        let found = match tag_at(&s, 0) {
            Some(t) => Some((t, 1)),
            None => None,
        };
        prefix_result(option_step(found), &s)
    }
}

impl Pos {
    /// Reads a part of speech that makes up the whole text.
    pub fn parse(input: &str) -> (r: Result<Pos, ParseError>)
        ensures
            read_whole(r, spec_pos(input@, 0), input@.len() as int, |x: Pos| x),
    {
        let s = chars_of(input);
        whole_result(option_step(pos_at(&s, 0)), s.len())
    }

    /// Reads a part of speech at the start of the text.
    pub fn parse_peek(input: &str) -> (r: Result<(String, Pos), PeekError>)
        ensures
            read_prefix(r, spec_pos(input@, 0), input@, |x: Pos| x),
    {
        let s = chars_of(input);
        prefix_result(option_step(pos_at(&s, 0)), &s)
    }
}

impl Type {
    /// Reads a type that makes up the whole text.  A type whose number does not fit in a
    /// `usize` cannot be read.
    pub fn parse(input: &str) -> (r: Result<Type, ParseError>)
        requires
            !(spec_type(input@, 0) is Overflow),
        ensures
            read_whole(r, spec_type(input@, 0), input@.len() as int, |t: Type| t),
    {
        let s = chars_of(input);
        whole_result(type_at(&s, 0), s.len())
    }

    /// Reads a type at the start of the text.
    pub fn parse_peek(input: &str) -> (r: Result<(String, Type), PeekError>)
        requires
            !(spec_type(input@, 0) is Overflow),
        ensures
            read_prefix(r, spec_type(input@, 0), input@, |t: Type| t),
    {
        let s = chars_of(input);
        prefix_result(type_at(&s, 0), &s)
    }
}

impl Variant {
    /// Reads a variant that makes up the whole text.
    pub fn parse(input: &str) -> (r: Result<Variant, ParseError>)
        requires
            !(spec_variant(input@, 0) is Overflow),
        ensures
            read_whole(r, spec_variant(input@, 0), input@.len() as int, |v: Variant| variant_view(v)),
    {
        let s = chars_of(input);
        whole_result(variant_at(&s, 0), s.len())
    }

    /// Reads a variant at the start of the text.
    pub fn parse_peek(input: &str) -> (r: Result<(String, Variant), PeekError>)
        requires
            !(spec_variant(input@, 0) is Overflow),
        ensures
            read_prefix(r, spec_variant(input@, 0), input@, |v: Variant| variant_view(v)),
    {
        let s = chars_of(input);
        prefix_result(variant_at(&s, 0), &s)
    }
}

impl Entry {
    /// Reads an entry that makes up the whole text.
    pub fn parse(input: &str) -> (r: Result<Entry, ParseError>)
        requires
            !(spec_entry(input@, 0) is Overflow),
        ensures
            read_whole(r, spec_entry(input@, 0), input@.len() as int, |e: Entry| entry_view(e)),
    {
        let s = chars_of(input);
        whole_result(entry_at(&s, 0), s.len())
    }

    /// Reads an entry at the start of the text.
    pub fn parse_peek(input: &str) -> (r: Result<(String, Entry), PeekError>)
        requires
            !(spec_entry(input@, 0) is Overflow),
        ensures
            read_prefix(r, spec_entry(input@, 0), input@, |e: Entry| entry_view(e)),
    {
        let s = chars_of(input);
        prefix_result(entry_at(&s, 0), &s)
    }
}

impl Cluster {
    /// Reads a cluster that makes up the whole text.
    pub fn parse(input: &str) -> (r: Result<Cluster, ParseError>)
        requires
            !(spec_cluster(input@, 0) is Overflow),
        ensures
            read_whole(r, spec_cluster(input@, 0), input@.len() as int, |c: Cluster| cluster_view(c)),
    {
        let s = chars_of(input);
        whole_result(cluster_at(&s, 0), s.len())
    }

    /// Reads a cluster at the start of the text.
    pub fn parse_peek(input: &str) -> (r: Result<(String, Cluster), PeekError>)
        requires
            !(spec_cluster(input@, 0) is Overflow),
        ensures
            read_prefix(r, spec_cluster(input@, 0), input@, |c: Cluster| cluster_view(c)),
    {
        let s = chars_of(input);
        prefix_result(cluster_at(&s, 0), &s)
    }
}

/// Reads the clusters of a text one after another, each after white space.
pub struct ClusterIter {
    text: Vec<char>,
    pos: usize,
}

/// Where the next cluster is looked for: after the white space at `pos`.
pub open spec fn next_start(text: Seq<char>, pos: int) -> int {
    run_end(text, pos, Run::White)
}

impl ClusterIter {
    #[verifier::type_invariant]
    spec fn well_formed(self) -> bool {
        self.pos <= self.text@.len()
    }

    /// The text read.
    pub closed spec fn text(self) -> Seq<char> {
        self.text@
    }

    /// Where reading stands in the text.
    pub closed spec fn pos(self) -> int {
        self.pos as int
    }

    /// Starts reading at the start of the text.
    pub fn new(input: &str) -> (r: ClusterIter)
        ensures
            r.text() == input@,
            r.pos() == 0,
    {
        ClusterIter { text: chars_of(input), pos: 0 }
    }

    /// The next cluster, read after the white space where reading stands; `None` where no
    /// cluster starts there.
    pub fn next(&mut self) -> (r: Option<Cluster>)
        requires
            !(spec_cluster(old(self).text(), next_start(old(self).text(), old(self).pos())) is Overflow),
        ensures
            final(self).text() == old(self).text(),
            match spec_cluster(old(self).text(), next_start(old(self).text(), old(self).pos())) {
                Parsed::Done(c, q) => r matches Some(x) && cluster_view(x) == c && final(self).pos() == q,
                _ => r is None && final(self).pos() == next_start(old(self).text(), old(self).pos()),
            },
    {
        proof {
            use_type_invariant(&*self);
        }
        let start = scan(&self.text, self.pos, Run::White);
        match cluster_at(&self.text, start) {
            Step::Done(c, q) => {
                self.pos = q;
                Some(c)
            },
            _ => {
                self.pos = start;
                None
            },
        }
    }
}

} // verus!
