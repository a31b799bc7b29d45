//! Sorted tables searched by bisection, and tries of them, for looking words up.

use vstd::prelude::*;
use vstd::string::StringSliceAdditionalSpecFns;
use crate::casefold::{lex_sign, unicase_folded, unicase_sign, lemma_lex_sign_antisymmetric, lemma_lex_sign_zero, lemma_lex_strict_chain};
use crate::tokens::{byte_len, lemma_byte_len_is_encoding_len};

verus! {

// ---------------------------------------------------------------------------------------
// Orders on byte strings
// ---------------------------------------------------------------------------------------

/// Lexicographic order on byte strings (the order of `str`).
pub open spec fn lex_lt(a: Seq<u8>, b: Seq<u8>) -> bool
    decreases a.len(),
{
    if a.len() == 0 {
        b.len() > 0
    } else if b.len() == 0 {
        false
    } else if a[0] != b[0] {
        a[0] < b[0]
    } else {
        lex_lt(a.drop_first(), b.drop_first())
    }
}

pub proof fn lemma_lex_irreflexive(a: Seq<u8>)
    ensures
        !lex_lt(a, a),
    decreases a.len(),
{
    if a.len() > 0 {
        lemma_lex_irreflexive(a.drop_first());
    }
}

pub proof fn lemma_lex_transitive(a: Seq<u8>, b: Seq<u8>, c: Seq<u8>)
    requires
        lex_lt(a, b),
        lex_lt(b, c),
    ensures
        lex_lt(a, c),
    decreases a.len(),
{
    if a.len() > 0 && b.len() > 0 && c.len() > 0 && a[0] == b[0] && b[0] == c[0] {
        lemma_lex_transitive(a.drop_first(), b.drop_first(), c.drop_first());
    }
}

pub proof fn lemma_lex_total(a: Seq<u8>, b: Seq<u8>)
    ensures
        a == b || lex_lt(a, b) || lex_lt(b, a),
    decreases a.len(),
{
    if a.len() > 0 && b.len() > 0 && a[0] == b[0] {
        lemma_lex_total(a.drop_first(), b.drop_first());
        if a.drop_first() == b.drop_first() {
            assert(a =~= seq![a[0]] + a.drop_first());
            assert(b =~= seq![b[0]] + b.drop_first());
        }
    } else if a.len() == 0 && b.len() == 0 {
        assert(a =~= b);
    }
}

pub proof fn lemma_lex_asymmetric(a: Seq<u8>, b: Seq<u8>)
    requires
        lex_lt(a, b),
    ensures
        !lex_lt(b, a),
{
    if lex_lt(b, a) {
        lemma_lex_transitive(a, b, a);
        lemma_lex_irreflexive(a);
    }
}

/// ASCII uppercase letters become lowercase.
pub open spec fn lower_byte(b: u8) -> u8 {
    if 65 <= b && b <= 90 {
        (b + 32) as u8
    } else {
        b
    }
}

pub open spec fn lower_bytes(s: Seq<u8>) -> Seq<u8> {
    s.map_values(|b: u8| lower_byte(b))
}

/// The bytes a key is compared by: ASCII-lowercased when case is ignored.
pub open spec fn sort_key(s: Seq<u8>, caseless: bool) -> Seq<u8> {
    if caseless {
        lower_bytes(s)
    } else {
        s
    }
}

fn lower(b: u8) -> (r: u8)
    ensures
        r == lower_byte(b),
{
    if 65 <= b && b <= 90 {
        b + 32
    } else {
        b
    }
}

/// The order of `a` and `b` by their sort keys: negative, zero or positive.
fn compare(a: &[u8], b: &[u8], caseless: bool) -> (r: i8)
    ensures
        (r < 0) == lex_lt(sort_key(a@, caseless), sort_key(b@, caseless)),
        (r == 0) == (sort_key(a@, caseless) == sort_key(b@, caseless)),
        (r > 0) == lex_lt(sort_key(b@, caseless), sort_key(a@, caseless)),
{
    let ghost ka = sort_key(a@, caseless);
    let ghost kb = sort_key(b@, caseless);
    let mut i: usize = 0;
    assert(ka.skip(0) =~= ka);
    assert(kb.skip(0) =~= kb);
    while i < a.len() && i < b.len()
        invariant
            i <= a@.len(),
            i <= b@.len(),
            ka == sort_key(a@, caseless),
            kb == sort_key(b@, caseless),
            ka.len() == a@.len(),
            kb.len() == b@.len(),
            ka.take(i as int) == kb.take(i as int),
            lex_lt(ka, kb) == lex_lt(ka.skip(i as int), kb.skip(i as int)),
            lex_lt(kb, ka) == lex_lt(kb.skip(i as int), ka.skip(i as int)),
        decreases a@.len() - i,
    {
        let x = if caseless {
            lower(a[i])
        } else {
            a[i]
        };
        let y = if caseless {
            lower(b[i])
        } else {
            b[i]
        };
        assert(x == ka[i as int] && y == kb[i as int]);
        if x < y {
            proof {
                lemma_lex_asymmetric(ka, kb);
                assert(ka != kb) by {
                    assert(ka[i as int] != kb[i as int]);
                }
            }
            return -1;
        }
        if x > y {
            proof {
                lemma_lex_asymmetric(kb, ka);
                assert(ka != kb) by {
                    assert(ka[i as int] != kb[i as int]);
                }
            }
            return 1;
        }
        assert(ka.skip(i + 1) =~= ka.skip(i as int).drop_first());
        assert(kb.skip(i + 1) =~= kb.skip(i as int).drop_first());
        assert(ka.take(i + 1) =~= ka.take(i as int).push(x));
        assert(kb.take(i + 1) =~= kb.take(i as int).push(y));
        i = i + 1;
    }
    if a.len() < b.len() {
        assert(ka.skip(i as int).len() == 0);
        assert(ka != kb);
        -1
    } else if a.len() > b.len() {
        assert(kb.skip(i as int).len() == 0);
        assert(ka != kb);
        1
    } else {
        assert(ka =~= ka.take(i as int));
        assert(kb =~= kb.take(i as int));
        proof {
            lemma_lex_irreflexive(ka);
        }
        0
    }
}

// ---------------------------------------------------------------------------------------
// Sorted tables
// ---------------------------------------------------------------------------------------

/// Keys in strictly increasing order of their sort keys (so no two match).
pub open spec fn strictly_sorted(keys: Seq<Seq<u8>>, caseless: bool) -> bool {
    forall|i: int, j: int|
        0 <= i < j < keys.len() ==> lex_lt(
            sort_key(#[trigger] keys[i], caseless),
            sort_key(#[trigger] keys[j], caseless),
        )
}

/// A word matches a key when their sort keys are equal.
pub open spec fn key_matches(key: Seq<u8>, word: Seq<u8>, caseless: bool) -> bool {
    sort_key(key, caseless) == sort_key(word, caseless)
}

/// A sorted table from words to values, exact or ignoring ASCII case, with the range of
/// key lengths (in bytes) that it holds.
pub struct OrderedMap<V> {
    keys: Vec<String>,
    values: Vec<V>,
    range: (usize, usize),
    caseless: bool,
}

pub open spec fn keys_view(keys: Seq<String>) -> Seq<Seq<u8>> {
    keys.map_values(|k: String| vstd::utf8::encode_utf8(k@))
}

impl<V> OrderedMap<V> {
    #[verifier::type_invariant]
    spec fn well_formed(&self) -> bool {
        &&& self.keys@.len() == self.values@.len()
        &&& strictly_sorted(keys_view(self.keys@), self.caseless)
    }

    /// The keys' bytes.
    pub closed spec fn spec_keys(&self) -> Seq<Seq<u8>> {
        keys_view(self.keys@)
    }

    pub closed spec fn spec_values(&self) -> Seq<V> {
        self.values@
    }

    pub closed spec fn spec_range(&self) -> (usize, usize) {
        self.range
    }

    pub closed spec fn spec_caseless(&self) -> bool {
        self.caseless
    }

    /// The table of these entries, when their keys are strictly increasing (by their
    /// ASCII-lowercased bytes when `caseless`) and as many as the values.
    pub fn new(keys: Vec<String>, values: Vec<V>, range: (usize, usize), caseless: bool) -> (r: Option<
        OrderedMap<V>,
    >)
        ensures
            r is Some <==> (keys@.len() == values@.len() && strictly_sorted(keys_view(keys@), caseless)),
            r matches Some(m) ==> m.spec_keys() == keys_view(keys@) && m.spec_values() == values@
                && m.spec_range() == range && m.spec_caseless() == caseless,
    {
        if keys.len() != values.len() {
            return None;
        }
        let ghost kv = keys_view(keys@);
        let mut i: usize = 1;
        while i < keys.len()
            invariant
                1 <= i,
                kv == keys_view(keys@),
                keys@.len() == 0 || i <= keys@.len(),
                forall|a: int, b: int| 0 <= a < b < i && b < kv.len() ==> lex_lt(
                    sort_key(#[trigger] kv[a], caseless),
                    sort_key(#[trigger] kv[b], caseless),
                ),
            decreases keys@.len() - i,
        {
            assert(kv[i - 1] == vstd::utf8::encode_utf8(keys@[i - 1]@));
            let c = compare(keys[i - 1].as_str().as_bytes(), keys[i].as_str().as_bytes(), caseless);
            if c >= 0 {
                assert(!strictly_sorted(kv, caseless)) by {
                    let x = sort_key(kv[i - 1], caseless);
                    let y = sort_key(kv[i as int], caseless);
                    if c == 0 {
                        lemma_lex_irreflexive(x);
                    } else {
                        lemma_lex_asymmetric(y, x);
                    }
                }
                return None;
            }
            proof {
                assert forall|a: int, b: int| 0 <= a < b < i + 1 && b < kv.len() implies lex_lt(
                    sort_key(#[trigger] kv[a], caseless),
                    sort_key(#[trigger] kv[b], caseless),
                ) by {
                    if b == i && a < i - 1 {
                        lemma_lex_transitive(
                            sort_key(kv[a], caseless),
                            sort_key(kv[i - 1], caseless),
                            sort_key(kv[b], caseless),
                        );
                    }
                }
            }
            i = i + 1;
        }
        Some(OrderedMap { keys, values, range, caseless })
    }

    /// The value of the key matching `word`, when the word's length is in range.
    pub fn find(&self, word: &str) -> (r: Option<&V>)
        ensures
            match r {
                Some(v) => ordered_find(self, word.spec_bytes()) == Some(*v),
                None => ordered_find(self, word.spec_bytes()) is None,
            },
            forall|i: int|
                #![trigger self.spec_keys()[i]]
                0 <= i < self.spec_keys().len() && self.spec_range().0 <= word.spec_bytes().len() <= self.spec_range().1
                    && key_matches(self.spec_keys()[i], word.spec_bytes(), self.spec_caseless()) ==> (r matches Some(v)
                    && *v == self.spec_values()[i]),
    {
        proof {
            use_type_invariant(self);
            self.lemma_ordered_find(word.spec_bytes());
        }
        self.find_bytes(word.as_bytes())
    }

    /// The value of the key matching the bytes `w`, when their length is in range.
    pub fn find_bytes(&self, w: &[u8]) -> (r: Option<&V>)
        ensures
            match r {
                Some(v) => ordered_find(self, w@) == Some(*v),
                None => ordered_find(self, w@) is None,
            },
            forall|i: int|
                #![trigger self.spec_keys()[i]]
                0 <= i < self.spec_keys().len() && self.spec_range().0 <= w@.len() <= self.spec_range().1
                    && key_matches(self.spec_keys()[i], w@, self.spec_caseless()) ==> (r matches Some(v)
                    && *v == self.spec_values()[i]),
    {
        proof {
            use_type_invariant(self);
            self.lemma_ordered_find(w@);
        }
        self.find_raw(w)
    }

    fn find_raw(&self, w: &[u8]) -> (r: Option<&V>)
        ensures
            match r {
                Some(v) => self.spec_range().0 <= w@.len() <= self.spec_range().1
                    && exists|i: int|
                    0 <= i < self.spec_keys().len() && key_matches(
                        #[trigger] self.spec_keys()[i],
                        w@,
                        self.spec_caseless(),
                    ) && *v == self.spec_values()[i],
                None => !(self.spec_range().0 <= w@.len() <= self.spec_range().1)
                    || forall|i: int|
                    0 <= i < self.spec_keys().len() ==> !key_matches(
                        #[trigger] self.spec_keys()[i],
                        w@,
                        self.spec_caseless(),
                    ),
            },
    {
        proof {
            use_type_invariant(self);
        }
        let n = w.len();
        if n < self.range.0 || n > self.range.1 {
            return None;
        }
        let ghost kv = keys_view(self.keys@);
        let ghost target = sort_key(w@, self.caseless);
        let mut lo: usize = 0;
        let mut hi: usize = self.keys.len();
        while lo < hi
            invariant
                lo <= hi <= kv.len(),
                kv == keys_view(self.keys@),
                kv.len() == self.values@.len(),
                target == sort_key(w@, self.caseless),
                self.range.0 <= w@.len() <= self.range.1,
                strictly_sorted(kv, self.caseless),
                forall|i: int| 0 <= i < lo ==> lex_lt(sort_key(#[trigger] kv[i], self.caseless), target),
                forall|i: int| hi <= i < kv.len() ==> lex_lt(target, sort_key(#[trigger] kv[i], self.caseless)),
            decreases hi - lo,
        {
            let mid = lo + (hi - lo) / 2;
            assert(kv[mid as int] == vstd::utf8::encode_utf8(self.keys@[mid as int]@));
            let c = compare(self.keys[mid].as_str().as_bytes(), w, self.caseless);
            if c == 0 {
                assert(key_matches(kv[mid as int], w@, self.caseless));
                assert(self.spec_keys()[mid as int] == kv[mid as int]);
                let v = &self.values[mid];
                assert(*v == self.spec_values()[mid as int]);
                return Some(v);
            } else if c < 0 {
                proof {
                    assert forall|i: int| 0 <= i < mid + 1 implies lex_lt(sort_key(#[trigger] kv[i], self.caseless), target) by {
                        if i < mid {
                            lemma_lex_transitive(
                                sort_key(kv[i], self.caseless),
                                sort_key(kv[mid as int], self.caseless),
                                target,
                            );
                        }
                    }
                }
                lo = mid + 1;
            } else {
                proof {
                    assert forall|i: int| mid <= i < kv.len() implies lex_lt(target, sort_key(#[trigger] kv[i], self.caseless)) by {
                        if i > mid {
                            lemma_lex_transitive(
                                target,
                                sort_key(kv[mid as int], self.caseless),
                                sort_key(kv[i], self.caseless),
                            );
                        }
                    }
                }
                hi = mid;
            }
        }
        proof {
            assert forall|i: int| 0 <= i < kv.len() implies !key_matches(#[trigger] kv[i], w@, self.caseless) by {
                if i < lo {
                    lemma_lex_irreflexive(target);
                } else {
                    lemma_lex_irreflexive(target);
                }
            }
        }
        None
    }

    /// The number of entries.
    pub fn len(&self) -> (r: usize)
        ensures
            r == self.spec_keys().len(),
    {
        self.keys.len()
    }
}

/// The value a table gives for the bytes `w`: that of the key they match, when their
/// length is in the table's range.
pub open spec fn ordered_find<V>(m: &OrderedMap<V>, w: Seq<u8>) -> Option<V> {
    if m.spec_range().0 <= w.len() <= m.spec_range().1 && exists|i: int|
        0 <= i < m.spec_keys().len() && key_matches(#[trigger] m.spec_keys()[i], w, m.spec_caseless()) {
        Some(
            m.spec_values()[choose|i: int|
                0 <= i < m.spec_keys().len() && key_matches(
                    #[trigger] m.spec_keys()[i],
                    w,
                    m.spec_caseless(),
                )],
        )
    } else {
        None
    }
}

/// At most one key matches: the keys are strictly sorted by what is compared.
proof fn lemma_one_match<V>(m: &OrderedMap<V>, w: Seq<u8>, i: int, j: int)
    requires
        strictly_sorted(m.spec_keys(), m.spec_caseless()),
        0 <= i < m.spec_keys().len(),
        0 <= j < m.spec_keys().len(),
        key_matches(m.spec_keys()[i], w, m.spec_caseless()),
        key_matches(m.spec_keys()[j], w, m.spec_caseless()),
    ensures
        i == j,
{
    if i < j {
        lemma_lex_irreflexive(sort_key(w, m.spec_caseless()));
    } else if j < i {
        lemma_lex_irreflexive(sort_key(w, m.spec_caseless()));
    }
}

impl<V> OrderedMap<V> {
    proof fn lemma_ordered_find(&self, w: Seq<u8>)
        requires
            self.keys@.len() == self.values@.len(),
            strictly_sorted(keys_view(self.keys@), self.caseless),
        ensures
            forall|i: int|
                #![trigger self.spec_keys()[i]]
                0 <= i < self.spec_keys().len() && key_matches(self.spec_keys()[i], w, self.spec_caseless())
                    && self.spec_range().0 <= w.len() <= self.spec_range().1 ==> ordered_find(self, w)
                    == Some(self.spec_values()[i]),
    {
        assert forall|i: int|
            #![trigger self.spec_keys()[i]]
            0 <= i < self.spec_keys().len() && key_matches(self.spec_keys()[i], w, self.spec_caseless())
                && self.spec_range().0 <= w.len() <= self.spec_range().1 implies ordered_find(self, w)
                == Some(self.spec_values()[i]) by {
            let j = choose|j: int|
                0 <= j < self.spec_keys().len() && key_matches(
                    #[trigger] self.spec_keys()[j],
                    w,
                    self.spec_caseless(),
                );
            lemma_one_match(self, w, i, j);
        }
    }
}

// ---------------------------------------------------------------------------------------
// Tables ignoring Unicode case
// ---------------------------------------------------------------------------------------

/// Keys in strictly increasing order of their case foldings: no two match ignoring case.
pub open spec fn fold_sorted(keys: Seq<Seq<char>>) -> bool {
    forall|i: int, j: int|
        0 <= i < j < keys.len() ==> lex_sign(unicase_folded(#[trigger] keys[i]), unicase_folded(#[trigger] keys[j]))
            < 0
}

/// What a table of these keys gives for `word`: the value of the key that matches it
/// ignoring case, when the word's length (in bytes) is in range.
pub open spec fn table_find<V>(keys: Seq<Seq<char>>, values: Seq<V>, range: (usize, usize), word: Seq<char>) -> Option<V> {
    if byte_len(word) < range.0 || byte_len(word) > range.1 {
        None
    } else if exists|i: int| 0 <= i < keys.len() && unicase_folded(#[trigger] keys[i]) == unicase_folded(word) {
        Some(values[choose|i: int| 0 <= i < keys.len() && unicase_folded(#[trigger] keys[i]) == unicase_folded(word)])
    } else {
        None
    }
}

/// In keys sorted ignoring case, the key that matches a word is the only one, so the
/// table gives its value.
proof fn lemma_table_find_index<V>(keys: Seq<Seq<char>>, values: Seq<V>, range: (usize, usize), word: Seq<char>)
    requires
        fold_sorted(keys),
    ensures
        forall|i: int|
            #![trigger keys[i]]
            0 <= i < keys.len() && range.0 <= byte_len(word) <= range.1 && unicase_folded(keys[i])
                == unicase_folded(word) ==> table_find(keys, values, range, word) == Some(values[i]),
{
    assert forall|i: int|
        #![trigger keys[i]]
        0 <= i < keys.len() && range.0 <= byte_len(word) <= range.1 && unicase_folded(keys[i])
            == unicase_folded(word) implies table_find(keys, values, range, word) == Some(values[i]) by {
        let j = choose|j: int| 0 <= j < keys.len() && unicase_folded(#[trigger] keys[j]) == unicase_folded(word);
        if j != i {
            let (a, b) = if i < j { (i, j) } else { (j, i) };
            assert(lex_sign(unicase_folded(keys[a]), unicase_folded(keys[b])) < 0);
            lemma_lex_sign_zero(unicase_folded(keys[a]), unicase_folded(keys[b]));
        }
    }
}

/// A sorted table keyed by words that compare ignoring case, with the range of key
/// lengths (in bytes) that it holds.
pub struct DictTable<V> {
    keys: Vec<String>,
    values: Vec<V>,
    range: (usize, usize),
}

impl<V> DictTable<V> {
    #[verifier::type_invariant]
    spec fn well_formed(&self) -> bool {
        &&& self.keys@.len() == self.values@.len()
        &&& fold_sorted(self.keys@.map_values(|k: String| k@))
    }

    pub closed spec fn spec_keys(&self) -> Seq<Seq<char>> {
        self.keys@.map_values(|k: String| k@)
    }

    pub closed spec fn spec_values(&self) -> Seq<V> {
        self.values@
    }

    pub closed spec fn spec_range(&self) -> (usize, usize) {
        self.range
    }

    /// The table of these entries, when there are as many keys as values and the keys
    /// are in strictly increasing order ignoring case.
    pub fn new(keys: Vec<String>, values: Vec<V>, range: (usize, usize)) -> (r: Option<DictTable<V>>)
        ensures
            r is Some <==> keys@.len() == values@.len() && fold_sorted(keys@.map_values(|k: String| k@)),
            r matches Some(t) ==> t.spec_keys() == keys@.map_values(|k: String| k@) && t.spec_values()
                == values@ && t.spec_range() == range,
    {
        if keys.len() != values.len() {
            return None;
        }
        let ghost kv = keys@.map_values(|k: String| k@);
        let mut i: usize = 1;
        while i < keys.len()
            invariant
                1 <= i,
                kv == keys@.map_values(|k: String| k@),
                forall|a: int, b: int|
                    0 <= a < b < i && b < kv.len() ==> lex_sign(unicase_folded(#[trigger] kv[a]), unicase_folded(#[trigger] kv[b])) < 0,
            decreases keys@.len() - i,
        {
            let c = unicase_sign(keys[i - 1].as_str(), keys[i].as_str());
            if c >= 0 {
                assert(kv[i - 1] == keys@[i - 1]@ && kv[i as int] == keys@[i as int]@);
                return None;
            }
            assert forall|a: int, b: int| 0 <= a < b < i + 1 && b < kv.len() implies lex_sign(
                unicase_folded(#[trigger] kv[a]),
                unicase_folded(#[trigger] kv[b]),
            ) < 0 by {
                if b == i && a < i - 1 {
                    lemma_lex_strict_chain(unicase_folded(kv[a]), unicase_folded(kv[i - 1]), unicase_folded(kv[b]));
                }
            }
            i = i + 1;
        }
        Some(DictTable { keys, values, range })
    }

    /// The value of the key that matches `word` ignoring case, when the word's length
    /// is in the table's range; found by bisection.
    pub fn find(&self, word: &str) -> (r: Option<&V>)
        ensures
            r matches Some(v) ==> table_find(self.spec_keys(), self.spec_values(), self.spec_range(), word@)
                == Some(*v),
            r is None ==> table_find(self.spec_keys(), self.spec_values(), self.spec_range(), word@) is None,
            forall|i: int|
                #![trigger self.spec_keys()[i]]
                0 <= i < self.spec_keys().len() && self.spec_range().0 <= byte_len(word@) <= self.spec_range().1
                    && unicase_folded(self.spec_keys()[i]) == unicase_folded(word@) ==> (r matches Some(v)
                    && *v == self.spec_values()[i]),
    {
        proof {
            use_type_invariant(self);
            lemma_byte_len_is_encoding_len(word@);
            lemma_table_find_index(self.spec_keys(), self.spec_values(), self.spec_range(), word@);
        }
        let ghost kv = self.spec_keys();
        let ghost fw = unicase_folded(word@);
        let n = word.as_bytes().len();
        if n < self.range.0 || n > self.range.1 {
            return None;
        }
        assert(n == byte_len(word@));
        let mut lo: usize = 0;
        let mut hi: usize = self.keys.len();
        while lo < hi
            invariant
                lo <= hi <= self.keys@.len(),
                self.keys@.len() == self.values@.len(),
                n == byte_len(word@),
                self.range.0 <= n <= self.range.1,
                kv == self.keys@.map_values(|k: String| k@),
                fold_sorted(kv),
                fw == unicase_folded(word@),
                forall|i: int| 0 <= i < lo ==> lex_sign(unicase_folded(#[trigger] kv[i]), fw) < 0,
                forall|i: int| hi <= i < kv.len() ==> lex_sign(unicase_folded(#[trigger] kv[i]), fw) > 0,
            decreases hi - lo,
        {
            let mid = lo + (hi - lo) / 2;
            let c = unicase_sign(self.keys[mid].as_str(), word);
            assert(kv[mid as int] == self.keys@[mid as int]@);
            if c == 0 {
                proof {
                    lemma_lex_sign_zero(unicase_folded(kv[mid as int]), fw);
                    assert forall|i: int| 0 <= i < kv.len() && unicase_folded(#[trigger] kv[i]) == fw implies i == mid by {
                        if i < mid {
                            assert(lex_sign(unicase_folded(kv[i]), unicase_folded(kv[mid as int])) < 0);
                        } else if i > mid {
                            assert(lex_sign(unicase_folded(kv[mid as int]), unicase_folded(kv[i])) < 0);
                        }
                    }
                    assert(unicase_folded(kv[mid as int]) == unicase_folded(word@));
                    let j = choose|i: int| 0 <= i < kv.len() && unicase_folded(#[trigger] kv[i]) == unicase_folded(word@);
                    assert(j == mid);
                }
                return Some(&self.values[mid]);
            } else if c < 0 {
                proof {
                    assert forall|i: int| 0 <= i < mid + 1 implies lex_sign(unicase_folded(#[trigger] kv[i]), fw) < 0 by {
                        if i < mid {
                            lemma_lex_strict_chain(unicase_folded(kv[i]), unicase_folded(kv[mid as int]), fw);
                        }
                    }
                }
                lo = mid + 1;
            } else {
                proof {
                    assert forall|i: int| mid <= i < kv.len() implies lex_sign(unicase_folded(#[trigger] kv[i]), fw) > 0 by {
                        if i > mid {
                            lemma_lex_sign_antisymmetric(unicase_folded(kv[mid as int]), fw);
                            lemma_lex_sign_antisymmetric(unicase_folded(kv[i]), fw);
                            lemma_lex_strict_chain(fw, unicase_folded(kv[mid as int]), unicase_folded(kv[i]));
                        }
                    }
                }
                hi = mid;
            }
        }
        proof {
            assert forall|i: int| 0 <= i < kv.len() implies unicase_folded(#[trigger] kv[i]) != fw by {
                if i < lo {
                    lemma_lex_sign_zero(unicase_folded(kv[i]), fw);
                } else {
                    lemma_lex_sign_zero(unicase_folded(kv[i]), fw);
                }
            }
        }
        None
    }

    /// The number of entries.
    pub fn len(&self) -> (r: usize)
        ensures
            r == self.spec_keys().len(),
    {
        self.keys.len()
    }
}

// ---------------------------------------------------------------------------------------
// Tries
// ---------------------------------------------------------------------------------------

/// Where a trie goes on from a node: a child per letter, or a table of the rest.
pub enum TrieChild<V> {
    Nested([Option<Box<TrieNode<V>>>; 26]),
    Flat(OrderedMap<V>),
}

/// A node of a trie: where it goes on, and the value of the word that ends here.
pub struct TrieNode<V> {
    pub children: TrieChild<V>,
    pub value: Option<V>,
}

pub open spec fn is_letter(b: u8) -> bool {
    (65 <= b && b <= 90) || (97 <= b && b <= 122)
}

/// The child slot of a letter: its place in the alphabet, either case.
pub open spec fn letter_index(b: u8) -> int {
    if 97 <= b && b <= 122 {
        b - 97
    } else {
        b - 65
    }
}

/// What a node gives for the rest `w` of a word: its value at the end of the word; else
/// the child of the next letter goes on, or the flat table looks the rest up.
pub open spec fn node_find<V>(node: TrieNode<V>, w: Seq<u8>) -> Option<V>
    decreases w.len(),
{
    if w.len() == 0 {
        node.value
    } else {
        match node.children {
            TrieChild::Nested(n) => if is_letter(w[0]) {
                match n@[letter_index(w[0])] {
                    Some(child) => node_find(*child, w.drop_first()),
                    None => None,
                }
            } else {
                None
            },
            TrieChild::Flat(t) => ordered_find(&t, w),
        }
    }
}

/// A trie of ASCII words, with a table for the others, and the range of key lengths (in
/// bytes) that the trie holds.
pub struct Trie<V> {
    pub root: TrieNode<V>,
    pub unicode: DictTable<V>,
    pub range: (usize, usize),
}

pub open spec fn all_letters(w: Seq<u8>) -> bool {
    forall|i: int| 0 <= i < w.len() ==> is_letter(#[trigger] w[i])
}

fn letters_only(w: &[u8]) -> (r: bool)
    ensures
        r == all_letters(w@),
{
    let mut i: usize = 0;
    while i < w.len()
        invariant
            i <= w@.len(),
            forall|j: int| 0 <= j < i ==> is_letter(#[trigger] w@[j]),
        decreases w@.len() - i,
    {
        let b = w[i];
        if !((65 <= b && b <= 90) || (97 <= b && b <= 122)) {
            return false;
        }
        i = i + 1;
    }
    true
}

impl<V> Trie<V> {
    /// The value of a word: for a word of ASCII letters whose length is in range, the one
    /// the trie gives; for other words, one the Unicode table finds.
    pub fn find(&self, word: &str) -> (r: Option<&V>)
        ensures
            all_letters(word.spec_bytes()) ==> match r {
                Some(v) => self.range.0 <= word.spec_bytes().len() <= self.range.1 && node_find(
                    self.root,
                    word.spec_bytes(),
                ) == Some(*v),
                None => !(self.range.0 <= word.spec_bytes().len() <= self.range.1) || node_find(
                    self.root,
                    word.spec_bytes(),
                ) is None,
            },
            !all_letters(word.spec_bytes()) ==> match r {
                Some(v) => table_find(self.unicode.spec_keys(), self.unicode.spec_values(), self.unicode.spec_range(), word@)
                    == Some(*v),
                None => table_find(self.unicode.spec_keys(), self.unicode.spec_values(), self.unicode.spec_range(), word@)
                    is None,
            },
    {
        let w = word.as_bytes();
        if letters_only(w) {
            let n = w.len();
            if n >= self.range.0 && n <= self.range.1 {
                self.find_ascii(w)
            } else {
                None
            }
        } else {
            self.unicode.find(word)
        }
    }

    fn find_ascii(&self, w: &[u8]) -> (r: Option<&V>)
        ensures
            match r {
                Some(v) => node_find(self.root, w@) == Some(*v),
                None => node_find(self.root, w@) is None,
            },
    {
        let mut child: &TrieNode<V> = &self.root;
        let mut i: usize = 0;
        assert(w@.skip(0) =~= w@);
        while i < w.len()
            invariant
                i <= w@.len(),
                node_find(self.root, w@) == node_find(*child, w@.skip(i as int)),
            decreases w@.len() - i,
        {
            let ghost rest = w@.skip(i as int);
            match &child.children {
                TrieChild::Nested(n) => {
                    let b = w[i];
                    assert(rest[0] == b);
                    let index: usize = if 97 <= b && b <= 122 {
                        (b - 97) as usize
                    } else if 65 <= b && b <= 90 {
                        (b - 65) as usize
                    } else {
                        return None;
                    };
                    match &n[index] {
                        Some(next) => {
                            assert(rest.drop_first() =~= w@.skip(i + 1));
                            child = next;
                        },
                        None => {
                            return None;
                        },
                    }
                },
                TrieChild::Flat(t) => {
                    let remaining = &w[i..w.len()];
                    assert(remaining@ =~= rest);
                    return t.find_bytes(remaining);
                },
            }
            i = i + 1;
        }
        assert(w@.skip(i as int).len() == 0);
        child.value.as_ref()
    }
}

} // verus!
