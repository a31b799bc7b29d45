//! Ordering words ignoring case, as `unicase` does: by their case-folded characters.

use vstd::prelude::*;

verus! {

/// The Unicode case folding of a string (ASCII lowercase for ASCII text), as
/// `unicase::UniCase::to_folded_case` gives it.
pub uninterp spec fn unicase_folded(s: Seq<char>) -> Seq<char>;

/// Lexicographic order of character sequences: `-1`, `0` or `1`; a proper prefix comes
/// first.
pub open spec fn lex_sign(a: Seq<char>, b: Seq<char>) -> int
    decreases a.len(),
{
    if a.len() == 0 {
        if b.len() == 0 {
            0
        } else {
            -1
        }
    } else if b.len() == 0 {
        1
    } else if a[0] < b[0] {
        -1
    } else if b[0] < a[0] {
        1
    } else {
        lex_sign(a.drop_first(), b.drop_first())
    }
}

pub proof fn lemma_lex_sign_range(a: Seq<char>, b: Seq<char>)
    ensures
        -1 <= lex_sign(a, b) <= 1,
    decreases a.len(),
{
    if a.len() > 0 && b.len() > 0 && a[0] == b[0] {
        lemma_lex_sign_range(a.drop_first(), b.drop_first());
    }
}

/// Swapping the two sides flips the sign.
pub proof fn lemma_lex_sign_antisymmetric(a: Seq<char>, b: Seq<char>)
    ensures
        lex_sign(a, b) == -lex_sign(b, a),
    decreases a.len(),
{
    if a.len() > 0 && b.len() > 0 && a[0] == b[0] {
        lemma_lex_sign_antisymmetric(a.drop_first(), b.drop_first());
    }
}

/// Sequences of sign zero are equal.
pub proof fn lemma_lex_sign_zero(a: Seq<char>, b: Seq<char>)
    ensures
        lex_sign(a, b) == 0 <==> a == b,
    decreases a.len(),
{
    if a.len() == 0 {
        if b.len() == 0 {
            assert(a =~= b);
        } else {
            assert(a.len() != b.len());
        }
    } else if b.len() == 0 {
        assert(a.len() != b.len());
    } else if a[0] != b[0] {
        assert(a[0] != b[0]);
    } else {
        lemma_lex_sign_zero(a.drop_first(), b.drop_first());
        if a.drop_first() == b.drop_first() {
            assert(a =~= seq![a[0]] + a.drop_first());
            assert(b =~= seq![b[0]] + b.drop_first());
        }
        if a == b {
            assert(a.drop_first() =~= b.drop_first());
        }
    }
}

/// The order is transitive.
pub proof fn lemma_lex_sign_transitive(a: Seq<char>, b: Seq<char>, c: Seq<char>)
    requires
        lex_sign(a, b) <= 0,
        lex_sign(b, c) <= 0,
    ensures
        lex_sign(a, c) <= 0,
    decreases a.len(),
{
    if a.len() > 0 && b.len() > 0 && c.len() > 0 && a[0] == b[0] && b[0] == c[0] {
        lemma_lex_sign_transitive(a.drop_first(), b.drop_first(), c.drop_first());
    }
}

/// A strict step then a step keeps the order strict.
pub proof fn lemma_lex_strict_chain(a: Seq<char>, b: Seq<char>, c: Seq<char>)
    requires
        lex_sign(a, b) < 0,
        lex_sign(b, c) <= 0,
    ensures
        lex_sign(a, c) < 0,
{
    lemma_lex_sign_transitive(a, b, c);
    lemma_lex_sign_zero(a, c);
    lemma_lex_sign_antisymmetric(a, b);
}

/// A step then a strict step keeps the order strict.
pub proof fn lemma_lex_chain_strict(a: Seq<char>, b: Seq<char>, c: Seq<char>)
    requires
        lex_sign(a, b) <= 0,
        lex_sign(b, c) < 0,
    ensures
        lex_sign(a, c) < 0,
{
    lemma_lex_sign_transitive(a, b, c);
    lemma_lex_sign_zero(a, c);
    lemma_lex_sign_antisymmetric(b, c);
}

/// The order of `unicase::UniCase` values (`Ord::cmp`) as a sign: `UniCase` compares the
/// case-folded characters of the two strings one by one (ASCII lowercase bytes when both
/// are ASCII, which order alike).
#[verifier::external_body]
pub(crate) fn unicase_sign(a: &str, b: &str) -> (r: i8)
    ensures
        r == lex_sign(unicase_folded(a@), unicase_folded(b@)),
{
    match unicase::UniCase::new(a).cmp(&unicase::UniCase::new(b)) {
        core::cmp::Ordering::Less => -1,
        core::cmp::Ordering::Equal => 0,
        core::cmp::Ordering::Greater => 1,
    }
}

/// Words ordered ignoring case: `a` comes no later than `b`.
pub open spec fn fold_le(a: Seq<char>, b: Seq<char>) -> bool {
    lex_sign(unicase_folded(a), unicase_folded(b)) <= 0
}

pub proof fn lemma_fold_le_total(a: Seq<char>, b: Seq<char>)
    ensures
        fold_le(a, b) || fold_le(b, a),
{
    lemma_lex_sign_antisymmetric(unicase_folded(a), unicase_folded(b));
}

pub proof fn lemma_fold_le_transitive(a: Seq<char>, b: Seq<char>, c: Seq<char>)
    requires
        fold_le(a, b),
        fold_le(b, c),
    ensures
        fold_le(a, c),
{
    lemma_lex_sign_transitive(unicase_folded(a), unicase_folded(b), unicase_folded(c));
}

} // verus!
