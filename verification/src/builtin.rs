//! The built-in dictionary, the case of corrections, and user overrides of a dictionary.

use vstd::prelude::*;

use crate::config::{spec_locale_category, Locale};
use crate::dict::{opt_status_view, strings_view, Dictionary, Status, StatusView};
use crate::pattern::{regex_is_match, Pattern};
use crate::tokens::{chars_of, string_from_chars, Case, Identifier, TokenView, Word};
use crate::varcon::Category;

verus! {

// ---------------------------------------------------------------------------------------
// Case of corrections
// ---------------------------------------------------------------------------------------

/// ASCII lowercase letters become uppercase; every other character stays.
pub open spec fn ascii_upper(c: char) -> char {
    if 'a' <= c && c <= 'z' {
        ((c as u32) - 32) as char
    } else {
        c
    }
}

pub open spec fn ascii_upper_all(s: Seq<char>) -> Seq<char> {
    s.map_values(|c: char| ascii_upper(c))
}

/// A correction in the case of the word it corrects: all capitals for an upper-case word,
/// a capital first letter for a title-case word, unchanged otherwise.
pub open spec fn spec_case_correct(s: Seq<char>, case: Case) -> Seq<char> {
    match case {
        Case::Upper => ascii_upper_all(s),
        Case::Title => s.update(0, ascii_upper(s[0])),
        _ => s,
    }
}

/// A title-case correction starts with an ASCII character (its first byte is then a
/// whole character).
pub open spec fn case_correctable(s: Seq<char>, case: Case) -> bool {
    case == Case::Title ==> s.len() > 0 && (s[0] as u32) < 128
}

pub(crate) fn upper(c: char) -> (r: char)
    ensures
        r == ascii_upper(c),
{
    if 'a' <= c && c <= 'z' {
        let u: u32 = (c as u32) - 32;
        assert(u < 0xD800);
        let b: u8 = u as u8;
        b as char
    } else {
        c
    }
}

/// Put a correction in the case of the word it corrects.
pub fn case_correct(correction: &mut String, case: Case)
    requires
        case_correctable(old(correction)@, case),
    ensures
        final(correction)@ == spec_case_correct(old(correction)@, case),
{
    match case {
        Case::Lower | Case::NoCase => {},
        Case::Title => {
            let mut chars = chars_of(correction.as_str());
            let first = upper(chars[0]);
            chars.set(0, first);
            *correction = string_from_chars(chars.as_slice());
        },
        Case::Upper => {
            let chars = chars_of(correction.as_str());
            let mut out: Vec<char> = Vec::new();
            let mut i: usize = 0;
            while i < chars.len()
                invariant
                    i <= chars@.len(),
                    out@ == ascii_upper_all(chars@.take(i as int)),
                decreases chars@.len() - i,
            {
                out.push(upper(chars[i]));
                i = i + 1;
                assert(out@ =~= ascii_upper_all(chars@.take(i as int)));
            }
            assert(chars@.take(chars@.len() as int) =~= chars@);
            *correction = string_from_chars(out.as_slice());
        },
    }
}

/// Each correction put in the case of the word.
pub open spec fn spec_status_case(s: StatusView, case: Case) -> StatusView {
    match s {
        StatusView::Corrections(c) => StatusView::Corrections(
            c.map_values(|x: Seq<char>| spec_case_correct(x, case)),
        ),
        _ => s,
    }
}

pub open spec fn status_correctable(s: StatusView, case: Case) -> bool {
    s matches StatusView::Corrections(c) ==> forall|i: int|
        0 <= i < c.len() ==> case_correctable(#[trigger] c[i], case)
}

/// Put each correction of a status in the case of the word.
pub fn status_case_correct(status: Status, case: Case) -> (r: Status)
    requires
        status_correctable(status@, case),
    ensures
        r@ == spec_status_case(status@, case),
{
    match status {
        Status::Corrections(cs) => {
            let ghost cv = strings_view(cs@);
            let mut out: Vec<String> = Vec::new();
            let mut i: usize = 0;
            while i < cs.len()
                invariant
                    i <= cs@.len(),
                    cv == strings_view(cs@),
                    forall|j: int| 0 <= j < cv.len() ==> case_correctable(#[trigger] cv[j], case),
                    strings_view(out@) == cv.take(i as int).map_values(
                        |x: Seq<char>| spec_case_correct(x, case),
                    ),
                decreases cs@.len() - i,
            {
                let mut s = cs[i].clone();
                assert(cv[i as int] == cs@[i as int]@);
                case_correct(&mut s, case);
                let ghost before = strings_view(out@);
                out.push(s);
                assert(strings_view(out@) =~= before.push(spec_case_correct(cv[i as int], case)));
                assert(cv.take(i + 1) =~= cv.take(i as int).push(cv[i as int]));
                i = i + 1;
                assert(strings_view(out@) =~= cv.take(i as int).map_values(
                    |x: Seq<char>| spec_case_correct(x, case),
                ));
            }
            assert(cv.take(cs@.len() as int) =~= cv);
            Status::Corrections(out)
        },
        other => other,
    }
}

// ---------------------------------------------------------------------------------------
// The built-in dictionary
// ---------------------------------------------------------------------------------------

/// The spellings of a word in the VarCon variant table: the locales in which it is a
/// valid spelling, and for each locale the spellings to use there.
#[derive(Debug, Clone, PartialEq, Eq)]
pub struct Variants {
    pub valid_in: Vec<Category>,
    pub spellings: Vec<(Category, Vec<String>)>,
}

/// `(valid_in, spellings)` as plain values.
pub type VariantsView = (Seq<Category>, Seq<(Category, Seq<Seq<char>>)>);

pub open spec fn variants_view(v: Variants) -> VariantsView {
    (v.valid_in@, v.spellings@.map_values(|e: (Category, Vec<String>)| (e.0, strings_view(e.1@))))
}

/// The word list: each typo with its corrections (none: the typo is never valid).
pub type WordsView = Seq<(Seq<char>, Seq<Seq<char>>)>;

/// The variant table: each word with its spellings.
pub type VarsView = Seq<(Seq<char>, VariantsView)>;

pub open spec fn words_view(v: Seq<(String, Vec<String>)>) -> WordsView {
    v.map_values(|e: (String, Vec<String>)| (e.0@, strings_view(e.1@)))
}

pub open spec fn vars_view(v: Seq<(String, Variants)>) -> VarsView {
    v.map_values(|e: (String, Variants)| (e.0@, variants_view(e.1)))
}

/// The first entry from `i` on whose key equals `w` ignoring case.
pub open spec fn first_key_from<V>(t: Seq<(Seq<char>, V)>, w: Seq<char>, i: int) -> Option<int>
    decreases t.len() - i,
{
    if i < 0 || i >= t.len() {
        None
    } else if unicase_equal(t[i].0, w) {
        Some(i)
    } else {
        first_key_from(t, w, i + 1)
    }
}

/// What a table holds for `w`, ignoring case (its first such entry).
pub open spec fn table_lookup<V>(t: Seq<(Seq<char>, V)>, w: Seq<char>) -> Option<V> {
    match first_key_from(t, w, 0) {
        Some(i) => Some(t[i].1),
        None => None,
    }
}

/// The spellings for a locale (none when the table names none).
pub open spec fn spellings_for(sp: Seq<(Category, Seq<Seq<char>>)>, l: Category) -> Seq<Seq<char>>
    decreases sp.len(),
{
    if sp.len() == 0 {
        seq![]
    } else if sp[0].0 == l {
        sp[0].1
    } else {
        spellings_for(sp.drop_first(), l)
    }
}

/// All the spellings, locale by locale.
pub open spec fn all_spellings(sp: Seq<(Category, Seq<Seq<char>>)>) -> Seq<Seq<char>>
    decreases sp.len(),
{
    if sp.len() == 0 {
        seq![]
    } else {
        sp[0].1 + all_spellings(sp.drop_first())
    }
}

/// Where `x` goes among texts in increasing order: before the first that does not come
/// before it.
pub open spec fn slot_of(t: Seq<Seq<char>>, x: Seq<char>, i: int) -> int
    decreases t.len() - i,
{
    if i < 0 || i >= t.len() {
        t.len() as int
    } else if crate::casefold::lex_sign(t[i], x) >= 0 {
        i
    } else {
        slot_of(t, x, i + 1)
    }
}

/// `x` added to texts kept in increasing order, unless it is there already.
pub open spec fn insert_sorted(t: Seq<Seq<char>>, x: Seq<char>) -> Seq<Seq<char>> {
    if t.contains(x) {
        t
    } else {
        t.insert(slot_of(t, x, 0), x)
    }
}

/// The texts sorted, each once (a sort then a dedup).
pub open spec fn sorted_unique(s: Seq<Seq<char>>) -> Seq<Seq<char>>
    decreases s.len(),
{
    if s.len() == 0 {
        seq![]
    } else {
        insert_sorted(sorted_unique(s.drop_last()), s.last())
    }
}

/// What the variant table says of a word's entry for the locale: valid where the word is
/// a spelling of the locale, else the locale's spellings; without a locale, valid where
/// the word is a spelling of some locale, else all its spellings, sorted, each once.
pub open spec fn select_variant(locale: Option<Category>, v: VariantsView) -> StatusView {
    match locale {
        Some(l) => if v.0.contains(l) {
            StatusView::Valid
        } else {
            StatusView::Corrections(spellings_for(v.1, l))
        },
        None => if v.0.len() == 0 {
            StatusView::Corrections(sorted_unique(all_spellings(v.1)))
        } else {
            StatusView::Valid
        },
    }
}

/// What the variant table says of a word; it is consulted only for a locale.
pub open spec fn vars_status(locale: Option<Category>, vars: VarsView, w: Seq<char>) -> Option<StatusView> {
    if locale is None {
        None
    } else {
        match table_lookup(vars, w) {
            Some(v) => Some(select_variant(locale, v)),
            None => None,
        }
    }
}

/// Each correction replaced by its variants for the locale (kept where the variant table
/// says it is valid or knows nothing of it).
pub open spec fn chained(locale: Option<Category>, vars: VarsView, cs: Seq<Seq<char>>) -> Seq<Seq<char>>
    decreases cs.len(),
{
    if cs.len() == 0 {
        seq![]
    } else {
        let rest = chained(locale, vars, cs.drop_last());
        match vars_status(locale, vars, cs.last()) {
            Some(StatusView::Corrections(v)) => rest + v,
            _ => rest.push(cs.last()),
        }
    }
}

/// The word list's corrections, carried through the variant table for the locale: sorted
/// and each once when there is not exactly one; as they are without a locale.
pub open spec fn chain_with_vars(locale: Option<Category>, vars: VarsView, cs: Seq<Seq<char>>) -> StatusView {
    if locale is None {
        StatusView::Corrections(cs)
    } else {
        let ch = chained(locale, vars, cs);
        if ch.len() != 1 {
            StatusView::Corrections(sorted_unique(ch))
        } else {
            StatusView::Corrections(ch)
        }
    }
}

/// What the built-in dictionary says of a word: nothing for a word of no case; else the
/// word list's entry (no corrections: invalid; else its corrections carried through the
/// variant table), or, for a word not in the list, what the variant table says; each
/// correction in the word's case.
pub open spec fn builtin_word(locale: Option<Category>, words: WordsView, vars: VarsView, w: TokenView) -> Option<StatusView> {
    if w.1 == Case::NoCase {
        None
    } else {
        let base = match table_lookup(words, w.0) {
            Some(cs) => Some(if cs.len() == 0 {
                StatusView::Invalid
            } else {
                chain_with_vars(locale, vars, cs)
            }),
            None => vars_status(locale, vars, w.0),
        };
        match base {
            Some(st) => Some(spec_status_case(st, w.1)),
            None => None,
        }
    }
}

/// A correction that can be put in any case: it starts with an ASCII character.
pub open spec fn usable(c: Seq<char>) -> bool {
    c.len() > 0 && (c[0] as u32) < 128
}

pub open spec fn all_usable(cs: Seq<Seq<char>>) -> bool {
    forall|i: int| 0 <= i < cs.len() ==> usable(#[trigger] cs[i])
}

/// Every correction and spelling of the tables can be put in any case.
pub open spec fn tables_usable(words: WordsView, vars: VarsView) -> bool {
    &&& forall|i: int| 0 <= i < words.len() ==> all_usable(#[trigger] words[i].1)
    &&& forall|i: int, j: int| 0 <= i < vars.len() && 0 <= j < vars[i].1.1.len() ==> all_usable(
        #[trigger] vars[i].1.1[j].1,
    )
}

/// The built-in dictionary for a locale: a word list and a VarCon variant table.
#[derive(Debug)]
pub struct BuiltIn {
    locale: Option<Category>,
    words: Vec<(String, Vec<String>)>,
    vars: Vec<(String, Variants)>,
}

/// `(locale, word list, variant table)`.
impl View for BuiltIn {
    type V = (Option<Category>, WordsView, VarsView);

    closed spec fn view(&self) -> (Option<Category>, WordsView, VarsView) {
        (self.locale, words_view(self.words@), vars_view(self.vars@))
    }
}

impl Default for BuiltIn {
    fn default() -> (r: BuiltIn)
        ensures
            r@ == (None::<Category>, Seq::<(Seq<char>, Seq<Seq<char>>)>::empty(), Seq::<(Seq<char>, VariantsView)>::empty()),
    {
        let words: Vec<(String, Vec<String>)> = Vec::new();
        let vars: Vec<(String, Variants)> = Vec::new();
        assert(words_view(words@) =~= Seq::<(Seq<char>, Seq<Seq<char>>)>::empty());
        assert(vars_view(vars@) =~= Seq::<(Seq<char>, VariantsView)>::empty());
        BuiltIn { locale: None, words, vars }
    }
}

proof fn lemma_first_key_from<V>(t: Seq<(Seq<char>, V)>, w: Seq<char>, i: int)
    requires
        0 <= i <= t.len(),
    ensures
        match first_key_from(t, w, i) {
            Some(k) => i <= k < t.len() && unicase_equal(t[k].0, w),
            None => true,
        },
    decreases t.len() - i,
{
    if i < t.len() && !unicase_equal(t[i].0, w) {
        lemma_first_key_from(t, w, i + 1);
    }
}

fn find_word(words: &Vec<(String, Vec<String>)>, w: &str) -> (r: Option<usize>)
    ensures
        r matches Some(k) ==> k < words_view(words@).len() && first_key_from(words_view(words@), w@, 0) == Some(k as int),
        r is None ==> first_key_from(words_view(words@), w@, 0) is None,
{
    let ghost t = words_view(words@);
    proof {
        lemma_first_key_from(t, w@, 0);
    }
    let mut i: usize = 0;
    while i < words.len()
        invariant
            i <= words@.len(),
            t == words_view(words@),
            first_key_from(t, w@, i as int) == first_key_from(t, w@, 0),
        decreases words@.len() - i,
    {
        assert(t[i as int].0 == words@[i as int].0@);
        if unicase_eq(words[i].0.as_str(), w) {
            assert(first_key_from(t, w@, i as int) == Some(i as int));
            return Some(i);
        }
        i = i + 1;
    }
    None
}

fn find_var(vars: &Vec<(String, Variants)>, w: &str) -> (r: Option<usize>)
    ensures
        r matches Some(k) ==> k < vars_view(vars@).len() && first_key_from(vars_view(vars@), w@, 0) == Some(k as int),
        r is None ==> first_key_from(vars_view(vars@), w@, 0) is None,
{
    let ghost t = vars_view(vars@);
    let mut i: usize = 0;
    while i < vars.len()
        invariant
            i <= vars@.len(),
            t == vars_view(vars@),
            first_key_from(t, w@, i as int) == first_key_from(t, w@, 0),
        decreases vars@.len() - i,
    {
        assert(t[i as int].0 == vars@[i as int].0@);
        if unicase_eq(vars[i].0.as_str(), w) {
            assert(first_key_from(t, w@, i as int) == Some(i as int));
            return Some(i);
        }
        i = i + 1;
    }
    None
}

fn clone_texts(v: &Vec<String>) -> (r: Vec<String>)
    ensures
        strings_view(r@) == strings_view(v@),
{
    let mut r: Vec<String> = Vec::new();
    let mut i: usize = 0;
    while i < v.len()
        invariant
            i <= v@.len(),
            strings_view(r@) == strings_view(v@.take(i as int)),
        decreases v@.len() - i,
    {
        let ghost before = r@;
        let c = v[i].clone();
        assert(c@ == v@[i as int]@);
        r.push(c);
        assert(v@.take(i + 1) =~= v@.take(i as int).push(v@[i as int]));
        assert(strings_view(r@) =~= strings_view(before).push(v@[i as int]@));
        i = i + 1;
        assert(strings_view(r@) =~= strings_view(v@.take(i as int)));
    }
    assert(v@.take(v@.len() as int) =~= v@);
    r
}

fn spellings_of(sp: &Vec<(Category, Vec<String>)>, l: Category) -> (r: Vec<String>)
    ensures
        strings_view(r@) == spellings_for(sp@.map_values(|e: (Category, Vec<String>)| (e.0, strings_view(e.1@))), l),
{
    let ghost v = sp@.map_values(|e: (Category, Vec<String>)| (e.0, strings_view(e.1@)));
    let mut i: usize = 0;
    assert(v.skip(0) =~= v);
    while i < sp.len()
        invariant
            i <= sp@.len(),
            v == sp@.map_values(|e: (Category, Vec<String>)| (e.0, strings_view(e.1@))),
            spellings_for(v.skip(i as int), l) == spellings_for(v, l),
        decreases sp@.len() - i,
    {
        assert(v.skip(i as int)[0] == v[i as int]);
        assert(v.skip(i as int).drop_first() =~= v.skip(i + 1));
        if sp[i].0 == l {
            return clone_texts(&sp[i].1);
        }
        i = i + 1;
    }
    assert(v.skip(i as int) =~= Seq::<(Category, Seq<Seq<char>>)>::empty());
    Vec::new()
}

fn all_spellings_of(sp: &Vec<(Category, Vec<String>)>) -> (r: Vec<String>)
    ensures
        strings_view(r@) == all_spellings(sp@.map_values(|e: (Category, Vec<String>)| (e.0, strings_view(e.1@)))),
{
    let ghost v = sp@.map_values(|e: (Category, Vec<String>)| (e.0, strings_view(e.1@)));
    let mut r: Vec<String> = Vec::new();
    let mut i: usize = 0;
    assert(v.skip(0) =~= v);
    while i < sp.len()
        invariant
            i <= sp@.len(),
            v == sp@.map_values(|e: (Category, Vec<String>)| (e.0, strings_view(e.1@))),
            strings_view(r@) + all_spellings(v.skip(i as int)) == all_spellings(v),
        decreases sp@.len() - i,
    {
        let ghost before = strings_view(r@);
        let mut c = clone_texts(&sp[i].1);
        r.append(&mut c);
        proof {
            assert(v.skip(i as int)[0] == v[i as int]);
            assert(v.skip(i as int).drop_first() =~= v.skip(i + 1));
            assert(strings_view(r@) =~= before + v[i as int].1);
        }
        i = i + 1;
    }
    assert(v.skip(i as int) =~= Seq::<(Category, Seq<Seq<char>>)>::empty());
    assert(strings_view(r@) =~= all_spellings(v));
    r
}

proof fn lemma_slot_of(t: Seq<Seq<char>>, x: Seq<char>, i: int)
    requires
        0 <= i <= t.len(),
    ensures
        i <= slot_of(t, x, i) <= t.len(),
    decreases t.len() - i,
{
    if i < t.len() && crate::casefold::lex_sign(t[i], x) < 0 {
        lemma_slot_of(t, x, i + 1);
    }
}

/// `x` added to the texts kept in increasing order, unless it is there already.
fn insert_sorted_exec(t: &mut Vec<String>, x: String)
    ensures
        strings_view(final(t)@) == insert_sorted(strings_view(old(t)@), x@),
        forall|y: Seq<char>| #[trigger] strings_view(final(t)@).contains(y) ==> strings_view(old(t)@).contains(y) || y == x@,
{
    let ghost tv = strings_view(t@);
    let mut k: usize = 0;
    while k < t.len()
        invariant
            k <= t@.len(),
            tv == strings_view(t@),
            tv == strings_view(old(t)@),
            forall|j: int| 0 <= j < k ==> tv[j] != x@,
        decreases t@.len() - k,
    {
        if str_eq(t[k].as_str(), x.as_str()) {
            assert(tv[k as int] == x@);
            assert(tv.contains(x@));
            return;
        }
        k = k + 1;
    }
    assert(!tv.contains(x@));
    proof {
        lemma_slot_of(tv, x@, 0);
    }
    let xc = chars_of(x.as_str());
    let mut p: usize = 0;
    while p < t.len()
        invariant_except_break
            p <= t@.len(),
            tv == strings_view(t@),
            xc@ == x@,
            slot_of(tv, x@, p as int) == slot_of(tv, x@, 0),
        ensures
            p <= t@.len(),
            tv == strings_view(t@),
            slot_of(tv, x@, 0) == p,
        decreases t@.len() - p,
    {
        let tc = chars_of(t[p].as_str());
        assert(tv[p as int] == t@[p as int]@);
        if crate::file_type::lex_chars(&tc, &xc) >= 0 {
            break;
        }
        p = p + 1;
    }
    let ghost xv = x@;
    t.insert(p, x);
    proof {
        let after = strings_view(t@);
        assert(after =~= tv.insert(p as int, xv));
        assert forall|y: Seq<char>| #[trigger] after.contains(y) implies tv.contains(y) || y == xv by {
            let i = choose|i: int| 0 <= i < after.len() && after[i] == y;
            if i < p {
                assert(tv[i] == y);
            } else if i > p {
                assert(tv[i - 1] == y);
            }
        }
    }
}

/// The texts sorted, each once.
fn sort_unique(s: &Vec<String>) -> (r: Vec<String>)
    ensures
        strings_view(r@) == sorted_unique(strings_view(s@)),
        forall|y: Seq<char>| #[trigger] strings_view(r@).contains(y) ==> strings_view(s@).contains(y),
{
    let ghost sv = strings_view(s@);
    let mut r: Vec<String> = Vec::new();
    let mut i: usize = 0;
    assert(sv.take(0) =~= Seq::<Seq<char>>::empty());
    while i < s.len()
        invariant
            i <= s@.len(),
            sv == strings_view(s@),
            strings_view(r@) == sorted_unique(sv.take(i as int)),
            forall|y: Seq<char>| #[trigger] strings_view(r@).contains(y) ==> sv.take(i as int).contains(y),
        decreases s@.len() - i,
    {
        let ghost before = strings_view(r@);
        insert_sorted_exec(&mut r, s[i].clone());
        proof {
            let nt = sv.take(i + 1);
            assert(nt.drop_last() =~= sv.take(i as int));
            assert(nt.last() == sv[i as int]);
            assert forall|y: Seq<char>| #[trigger] strings_view(r@).contains(y) implies nt.contains(y) by {
                if before.contains(y) {
                    let j = choose|j: int| 0 <= j < i && sv.take(i as int)[j] == y;
                    assert(nt[j] == y);
                } else {
                    assert(nt[i as int] == y);
                }
            }
        }
        i = i + 1;
    }
    assert(sv.take(sv.len() as int) =~= sv);
    r
}

impl BuiltIn {
    #[verifier::type_invariant]
    spec fn tables_fit(&self) -> bool {
        tables_usable(words_view(self.words@), vars_view(self.vars@))
    }

    /// The dictionary for a locale with its word list and variant table.  The tables are
    /// data that the caller supplies (this library holds none); every correction and
    /// spelling in them must be one that can be put in a word's case.
    pub fn new(locale: Locale, words: Vec<(String, Vec<String>)>, vars: Vec<(String, Variants)>) -> (r: BuiltIn)
        requires
            tables_usable(words_view(words@), vars_view(vars@)),
        ensures
            r@ == (spec_locale_category(locale), words_view(words@), vars_view(vars@)),
    {
        BuiltIn { locale: locale.category(), words, vars }
    }

    /// What the variant table says of a word, for a locale.
    fn correct_with_vars(&self, word: &str) -> (r: Option<Status>)
        ensures
            opt_status_view(r) == vars_status(self@.0, self@.2, word@),
            r matches Some(Status::Corrections(c)) ==> all_usable(strings_view(c@)),
    {
        proof {
            use_type_invariant(self);
        }
        if self.locale.is_none() {
            return None;
        }
        let ghost vv = vars_view(self.vars@);
        let k = match find_var(&self.vars, word) {
            None => {
                return None;
            },
            Some(k) => k,
        };
        proof {
            lemma_first_key_from(vv, word@, 0);
            assert(first_key_from(vv, word@, 0) == Some(k as int));
        }
        let v = &self.vars[k];
        assert(vv[k as int] == (v.0@, variants_view(v.1)));
        let ghost spv = vv[k as int].1.1;
        assert(spv == v.1.spellings@.map_values(|e: (Category, Vec<String>)| (e.0, strings_view(e.1@))));
        assert(table_lookup(vv, word@) == Some(vv[k as int].1));
        match self.locale {
            Some(l) => {
                let mut valid = false;
                let mut j: usize = 0;
                while j < v.1.valid_in.len()
                    invariant
                        j <= v.1.valid_in@.len(),
                        valid == v.1.valid_in@.take(j as int).contains(l),
                    decreases v.1.valid_in@.len() - j,
                {
                    if v.1.valid_in[j] == l {
                        valid = true;
                    }
                    proof {
                        let t = v.1.valid_in@.take(j + 1);
                        assert(t =~= v.1.valid_in@.take(j as int).push(v.1.valid_in@[j as int]));
                        if valid {
                            if !v.1.valid_in@.take(j as int).contains(l) {
                                assert(t[j as int] == l);
                            }
                        }
                        if t.contains(l) {
                            let m = choose|m: int| 0 <= m < t.len() && t[m] == l;
                            if m < j {
                                assert(v.1.valid_in@.take(j as int)[m] == l);
                            }
                        }
                    }
                    j = j + 1;
                }
                assert(v.1.valid_in@.take(v.1.valid_in@.len() as int) =~= v.1.valid_in@);
                if valid {
                    Some(Status::Valid)
                } else {
                    let c = spellings_of(&v.1.spellings, l);
                    proof {
                        lemma_spellings_usable(spv, l);
                    }
                    Some(Status::Corrections(c))
                }
            },
            None => None,
        }
    }

    /// The word list's corrections carried through the variant table.
    fn chain_with_vars(&self, corrections: &Vec<String>) -> (r: Status)
        requires
            all_usable(strings_view(corrections@)),
        ensures
            r@ == chain_with_vars(self@.0, self@.2, strings_view(corrections@)),
            r matches Status::Corrections(c) && all_usable(strings_view(c@)),
    {
        if self.locale.is_none() {
            return Status::Corrections(clone_texts(corrections));
        }
        let ghost cv = strings_view(corrections@);
        let mut ch: Vec<String> = Vec::new();
        let mut i: usize = 0;
        assert(cv.take(0) =~= Seq::<Seq<char>>::empty());
        while i < corrections.len()
            invariant
                i <= corrections@.len(),
                cv == strings_view(corrections@),
                all_usable(cv),
                self@.0 is Some,
                strings_view(ch@) == chained(self@.0, self@.2, cv.take(i as int)),
                all_usable(strings_view(ch@)),
            decreases corrections@.len() - i,
        {
            let ghost before = strings_view(ch@);
            let c = &corrections[i];
            assert(cv[i as int] == c@);
            match self.correct_with_vars(c.as_str()) {
                Some(Status::Corrections(mut v)) => {
                    let ghost vv = strings_view(v@);
                    ch.append(&mut v);
                    assert(strings_view(ch@) =~= before + vv);
                },
                _ => {
                    ch.push(c.clone());
                    assert(strings_view(ch@) =~= before.push(c@));
                },
            }
            proof {
                let nt = cv.take(i + 1);
                assert(nt.drop_last() =~= cv.take(i as int));
                assert(nt.last() == cv[i as int]);
            }
            i = i + 1;
        }
        assert(cv.take(cv.len() as int) =~= cv);
        if ch.len() != 1 {
            let r = sort_unique(&ch);
            proof {
                let rv = strings_view(r@);
                assert forall|j: int| 0 <= j < rv.len() implies usable(#[trigger] rv[j]) by {
                    assert(rv.contains(rv[j]));
                    let m = choose|m: int| 0 <= m < strings_view(ch@).len() && strings_view(ch@)[m] == rv[j];
                }
            }
            Status::Corrections(r)
        } else {
            Status::Corrections(ch)
        }
    }

    /// What the dictionary says of an identifier as a whole: `O_WRONLY` is valid.
    pub fn correct_ident(&self, ident: &Identifier) -> (r: Option<Status>)
        ensures
            opt_status_view(r) == (if ident@.0 == "O_WRONLY"@ {
                Some(StatusView::Valid)
            } else {
                None
            }),
    {
        if str_eq(ident.token(), "O_WRONLY") {
            Some(Status::Valid)
        } else {
            None
        }
    }

    /// What the dictionary says of a word: nothing for a word of no case; else the word
    /// list's entry (no corrections: invalid; else its corrections carried through the
    /// variant table), or for a word not in the list what the variant table says; each
    /// correction in the word's case.
    pub fn correct_word(&self, word: &Word) -> (r: Option<Status>)
        ensures
            opt_status_view(r) == builtin_word(self@.0, self@.1, self@.2, word@),
    {
        proof {
            use_type_invariant(self);
        }
        if word.case() == Case::NoCase {
            return None;
        }
        let ghost wv = words_view(self.words@);
        let status = match find_word(&self.words, word.token()) {
            Some(k) => {
                proof {
                    lemma_first_key_from(wv, word@.0, 0);
                    assert(first_key_from(wv, word@.0, 0) == Some(k as int));
                    assert(table_lookup(wv, word@.0) == Some(wv[k as int].1));
                }
                let cs = &self.words[k].1;
                assert(wv[k as int].1 == strings_view(cs@));
                if cs.len() == 0 {
                    Status::Invalid
                } else {
                    self.chain_with_vars(cs)
                }
            },
            None => match self.correct_with_vars(word.token()) {
                Some(s) => s,
                None => {
                    return None;
                },
            },
        };
        proof {
            if let StatusView::Corrections(c) = status@ {
                assert forall|i: int| 0 <= i < c.len() implies case_correctable(#[trigger] c[i], word@.1) by {
                    assert(usable(c[i]));
                }
            }
        }
        Some(status_case_correct(status, word.case()))
    }
}

proof fn lemma_spellings_usable(sp: Seq<(Category, Seq<Seq<char>>)>, l: Category)
    requires
        forall|j: int| 0 <= j < sp.len() ==> all_usable(#[trigger] sp[j].1),
    ensures
        all_usable(spellings_for(sp, l)),
    decreases sp.len(),
{
    if sp.len() > 0 && sp[0].0 != l {
        assert forall|j: int| 0 <= j < sp.drop_first().len() implies all_usable(#[trigger] sp.drop_first()[j].1) by {
            assert(sp.drop_first()[j] == sp[j + 1]);
        }
        lemma_spellings_usable(sp.drop_first(), l);
    } else if sp.len() > 0 {
        assert(all_usable(sp[0].1));
    }
}

impl Dictionary for BuiltIn {
    open spec fn spec_correct_ident(&self, ident: TokenView) -> Option<StatusView> {
        if ident.0 == "O_WRONLY"@ {
            Some(StatusView::Valid)
        } else {
            None
        }
    }

    open spec fn spec_correct_word(&self, word: TokenView) -> Option<StatusView> {
        builtin_word(self@.0, self@.1, self@.2, word)
    }

    fn correct_ident(&self, ident: &Identifier) -> (r: Option<Status>) {
        BuiltIn::correct_ident(self, ident)
    }

    fn correct_word(&self, word: &Word) -> (r: Option<Status>) {
        BuiltIn::correct_word(self, word)
    }
}

// ---------------------------------------------------------------------------------------
// Overrides
// ---------------------------------------------------------------------------------------

/// Whether two strings are equal ignoring case: their case foldings are the same.
pub open spec fn unicase_equal(a: Seq<char>, b: Seq<char>) -> bool {
    crate::casefold::unicase_folded(a) == crate::casefold::unicase_folded(b)
}

pub open spec fn ascii_lower(c: char) -> char {
    if 'A' <= c && c <= 'Z' {
        ((c as u32) + 32) as char
    } else {
        c
    }
}

pub open spec fn all_ascii(s: Seq<char>) -> bool {
    forall|i: int| 0 <= i < s.len() ==> (s[i] as u32) < 128
}

/// `unicase::eq`: whether the two strings' case foldings (`unicase_folded`) are the same,
/// as `UniCase`'s `==` compares them; for two ASCII strings it ignores ASCII case only, as
/// the crate's source shows.
#[verifier::external_body]
pub(crate) fn unicase_eq(a: &str, b: &str) -> (r: bool)
    ensures
        r == unicase_equal(a@, b@),
        all_ascii(a@) && all_ascii(b@) ==> (r <==> a@.map_values(|c: char| ascii_lower(c)) == b@.map_values(
            |c: char| ascii_lower(c),
        )),
{
    unicase::eq(a, b)
}

/// How an override is read: the term itself is valid, an empty correction makes it
/// invalid, anything else is its correction.
pub open spec fn spec_interpret(typo: Seq<char>, correction: Seq<char>) -> StatusView {
    if typo == correction {
        StatusView::Valid
    } else if correction.len() == 0 {
        StatusView::Invalid
    } else {
        StatusView::Corrections(seq![correction])
    }
}

/// Whether two strings hold the same characters.
pub fn str_eq(a: &str, b: &str) -> (r: bool)
    ensures
        r == (a@ == b@),
{
    let x = chars_of(a);
    let y = chars_of(b);
    if x.len() != y.len() {
        return false;
    }
    let mut i: usize = 0;
    while i < x.len()
        invariant
            i <= x@.len(),
            x@.len() == y@.len(),
            x@ == a@,
            y@ == b@,
            forall|j: int| 0 <= j < i ==> x@[j] == y@[j],
        decreases x@.len() - i,
    {
        if x[i] != y[i] {
            return false;
        }
        i = i + 1;
    }
    assert(x@ =~= y@);
    true
}

fn interpret(typo: &str, correction: &str) -> (r: Status)
    ensures
        r@ == spec_interpret(typo@, correction@),
{
    if str_eq(typo, correction) {
        Status::Valid
    } else if correction.as_bytes().len() == 0 {
        proof {
            crate::tokens::lemma_byte_len_is_encoding_len(correction@);
        }
        Status::Invalid
    } else {
        proof {
            crate::tokens::lemma_byte_len_is_encoding_len(correction@);
            if correction@.len() == 0 {
                assert(correction@ =~= Seq::<char>::empty());
            }
        }
        let mut v: Vec<String> = Vec::new();
        v.push(correction.to_owned());
        assert(strings_view(v@) =~= seq![correction@]);
        Status::Corrections(v)
    }
}

/// The status of the last entry `k < n` whose term the key matches (exactly, or ignoring
/// case), if any.
pub open spec fn last_match(entries: Seq<(Seq<char>, StatusView)>, key: Seq<char>, caseless: bool, n: int) -> Option<
    StatusView,
>
    decreases n,
{
    if n <= 0 {
        None
    } else if (if caseless {
        unicase_equal(entries[n - 1].0, key)
    } else {
        entries[n - 1].0 == key
    }) {
        Some(entries[n - 1].1)
    } else {
        last_match(entries, key, caseless, n - 1)
    }
}

pub open spec fn entries_view(v: Seq<(String, Status)>) -> Seq<(Seq<char>, StatusView)> {
    v.map_values(|e: (String, Status)| (e.0@, e.1@))
}

/// A dictionary whose answers are overridden: identifiers matching an ignore pattern are
/// valid; listed identifiers (exactly) and words (ignoring case) get the listed status;
/// everything else goes to the inner dictionary.
pub struct Override<D> {
    ignored_identifiers: Vec<Pattern>,
    identifiers: Vec<(String, Status)>,
    words: Vec<(String, Status)>,
    inner: D,
}

pub struct OverrideView<D> {
    pub ignored_identifiers: Seq<Seq<char>>,
    pub identifiers: Seq<(Seq<char>, StatusView)>,
    pub words: Seq<(Seq<char>, StatusView)>,
    pub inner: D,
}

impl<D> View for Override<D> {
    type V = OverrideView<D>;

    closed spec fn view(&self) -> OverrideView<D> {
        OverrideView {
            ignored_identifiers: self.ignored_identifiers@.map_values(|p: Pattern| p@),
            identifiers: entries_view(self.identifiers@),
            words: entries_view(self.words@),
            inner: self.inner,
        }
    }
}

/// The entries read from `(typo, correction)` pairs.
pub open spec fn interpreted(pairs: Seq<(String, String)>) -> Seq<(Seq<char>, StatusView)> {
    pairs.map_values(|p: (String, String)| (p.0@, spec_interpret(p.0@, p.1@)))
}

fn interpret_all(pairs: &Vec<(String, String)>) -> (r: Vec<(String, Status)>)
    ensures
        entries_view(r@) == interpreted(pairs@),
{
    let mut r: Vec<(String, Status)> = Vec::new();
    let mut i: usize = 0;
    while i < pairs.len()
        invariant
            i <= pairs@.len(),
            entries_view(r@) == interpreted(pairs@.take(i as int)),
        decreases pairs@.len() - i,
    {
        let pair = &pairs[i];
        let status = interpret(pair.0.as_str(), pair.1.as_str());
        let ghost before = entries_view(r@);
        let entry = (pair.0.clone(), status);
        r.push(entry);
        assert(entries_view(r@) =~= before.push((pairs@[i as int].0@, spec_interpret(pairs@[i as int].0@, pairs@[i as int].1@))));
        assert(pairs@.take(i + 1) =~= pairs@.take(i as int).push(pairs@[i as int]));
        i = i + 1;
        assert(entries_view(r@) =~= interpreted(pairs@.take(i as int)));
    }
    assert(pairs@.take(pairs@.len() as int) =~= pairs@);
    r
}

fn find_last(entries: &Vec<(String, Status)>, key: &str, caseless: bool) -> (r: Option<Status>)
    ensures
        opt_status_view(r) == last_match(entries_view(entries@), key@, caseless, entries@.len() as int),
{
    let ghost ev = entries_view(entries@);
    let mut n: usize = entries.len();
    while n > 0
        invariant
            n <= entries@.len(),
            ev == entries_view(entries@),
            last_match(ev, key@, caseless, entries@.len() as int) == last_match(ev, key@, caseless, n as int),
        decreases n,
    {
        let (term, status) = &entries[n - 1];
        assert(ev[n - 1] == (term@, status@));
        let hit = if caseless {
            unicase_eq(term.as_str(), key)
        } else {
            str_eq(term.as_str(), key)
        };
        if hit {
            return Some(status.clone());
        }
        n = n - 1;
    }
    None
}

impl<D: Dictionary> Override<D> {
    /// No overrides yet.
    pub fn new(inner: D) -> (r: Override<D>)
        ensures
            r@.ignored_identifiers.len() == 0,
            r@.identifiers.len() == 0,
            r@.words.len() == 0,
            r@.inner == inner,
    {
        let r = Override { ignored_identifiers: Vec::new(), identifiers: Vec::new(), words: Vec::new(), inner };
        assert(r@.ignored_identifiers =~= Seq::<Seq<char>>::empty());
        assert(r@.identifiers =~= Seq::<(Seq<char>, StatusView)>::empty());
        assert(r@.words =~= Seq::<(Seq<char>, StatusView)>::empty());
        r
    }

    /// Add patterns of identifiers that are always valid.
    pub fn ignored_identifiers(&mut self, ignored: Vec<Pattern>)
        ensures
            final(self)@.ignored_identifiers == old(self)@.ignored_identifiers + ignored@.map_values(
                |p: Pattern| p@,
            ),
            final(self)@.identifiers == old(self)@.identifiers,
            final(self)@.words == old(self)@.words,
            final(self)@.inner == old(self)@.inner,
    {
        let mut ignored = ignored;
        let ghost added = ignored@.map_values(|p: Pattern| p@);
        let ghost before = self@.ignored_identifiers;
        self.ignored_identifiers.append(&mut ignored);
        assert(self@.ignored_identifiers =~= before + added);
    }

    /// Replace the identifier overrides by the `(typo, correction)` pairs.
    pub fn identifiers(&mut self, identifiers: &Vec<(String, String)>)
        ensures
            final(self)@.identifiers == interpreted(identifiers@),
            final(self)@.ignored_identifiers == old(self)@.ignored_identifiers,
            final(self)@.words == old(self)@.words,
            final(self)@.inner == old(self)@.inner,
    {
        self.identifiers = interpret_all(identifiers);
    }

    /// Replace the word overrides by the `(typo, correction)` pairs.
    pub fn words(&mut self, words: &Vec<(String, String)>)
        ensures
            final(self)@.words == interpreted(words@),
            final(self)@.ignored_identifiers == old(self)@.ignored_identifiers,
            final(self)@.identifiers == old(self)@.identifiers,
            final(self)@.inner == old(self)@.inner,
    {
        self.words = interpret_all(words);
    }
}

/// What `last_match` finds: the status of the last entry (below `n`) whose term matches
/// the key, or nothing when none does.
pub proof fn lemma_last_match(entries: Seq<(Seq<char>, StatusView)>, key: Seq<char>, caseless: bool, n: int)
    requires
        0 <= n <= entries.len(),
    ensures
        forall|j: int|
            #![trigger entries[j]]
            0 <= j < n && (if caseless {
                unicase_equal(entries[j].0, key)
            } else {
                entries[j].0 == key
            }) && (forall|j2: int|
                #![trigger entries[j2]]
                j < j2 < n ==> !(if caseless {
                    unicase_equal(entries[j2].0, key)
                } else {
                    entries[j2].0 == key
                })) ==> last_match(entries, key, caseless, n) == Some(entries[j].1),
        (forall|j: int|
            #![trigger entries[j]]
            0 <= j < n ==> !(if caseless {
                unicase_equal(entries[j].0, key)
            } else {
                entries[j].0 == key
            })) ==> last_match(entries, key, caseless, n) is None,
    decreases n,
{
    if n > 0 {
        lemma_last_match(entries, key, caseless, n - 1);
        let m = n - 1;
        assert(entries[m] == entries[m]);
    }
}

/// Overrides of identifiers: an identifier that any of the ignore patterns matches (not
/// only the first) is valid; otherwise the last identifier override naming it exactly
/// decides; otherwise the inner dictionary does.
pub proof fn lemma_override_ident<D: Dictionary>(d: Override<D>, ident: TokenView)
    ensures
        forall|i: int|
            #![trigger d@.ignored_identifiers[i]]
            0 <= i < d@.ignored_identifiers.len() && regex_is_match(d@.ignored_identifiers[i], ident.0)
                ==> d.spec_correct_ident(ident) == Some(StatusView::Valid),
        (forall|i: int|
            #![trigger d@.ignored_identifiers[i]]
            0 <= i < d@.ignored_identifiers.len() ==> !regex_is_match(d@.ignored_identifiers[i], ident.0))
            ==> {
            &&& forall|j: int|
                #![trigger d@.identifiers[j]]
                0 <= j < d@.identifiers.len() && d@.identifiers[j].0 == ident.0 && (forall|j2: int|
                    #![trigger d@.identifiers[j2]]
                    j < j2 < d@.identifiers.len() ==> d@.identifiers[j2].0 != ident.0)
                    ==> d.spec_correct_ident(ident) == Some(d@.identifiers[j].1)
            &&& (forall|j: int|
                #![trigger d@.identifiers[j]]
                0 <= j < d@.identifiers.len() ==> d@.identifiers[j].0 != ident.0)
                ==> d.spec_correct_ident(ident) == d@.inner.spec_correct_ident(ident)
        },
{
    let ids = d@.identifiers;
    lemma_last_match(ids, ident.0, false, ids.len() as int);
    assert forall|i: int|
        #![trigger d@.ignored_identifiers[i]]
        0 <= i < d@.ignored_identifiers.len() && regex_is_match(d@.ignored_identifiers[i], ident.0)
            implies d.spec_correct_ident(ident) == Some(StatusView::Valid) by {
        assert(any_matches(d@.ignored_identifiers, ident.0));
    }
}

/// Overrides of words: a word of no case is never looked up; otherwise the last word
/// override naming it ignoring case decides, else the inner dictionary does.
pub proof fn lemma_override_word<D: Dictionary>(d: Override<D>, word: TokenView)
    ensures
        word.1 == Case::NoCase ==> d.spec_correct_word(word) is None,
        word.1 != Case::NoCase ==> {
            &&& forall|j: int|
                #![trigger d@.words[j]]
                0 <= j < d@.words.len() && unicase_equal(d@.words[j].0, word.0) && (forall|j2: int|
                    #![trigger d@.words[j2]]
                    j < j2 < d@.words.len() ==> !unicase_equal(d@.words[j2].0, word.0))
                    ==> d.spec_correct_word(word) == Some(d@.words[j].1)
            &&& (forall|j: int|
                #![trigger d@.words[j]]
                0 <= j < d@.words.len() ==> !unicase_equal(d@.words[j].0, word.0))
                ==> d.spec_correct_word(word) == d@.inner.spec_correct_word(word)
        },
{
    lemma_last_match(d@.words, word.0, true, d@.words.len() as int);
}

/// How an override pair is read: a term mapped to itself is valid, one mapped to nothing
/// is invalid, and otherwise the mapping is its only correction.
pub proof fn lemma_interpreted(pairs: Seq<(String, String)>)
    ensures
        interpreted(pairs).len() == pairs.len(),
        forall|i: int|
            #![trigger pairs[i]]
            0 <= i < pairs.len() ==> {
                let e = interpreted(pairs)[i];
                &&& e.0 == pairs[i].0@
                &&& (pairs[i].0@ == pairs[i].1@ ==> e.1 == StatusView::Valid)
                &&& (pairs[i].0@ != pairs[i].1@ && pairs[i].1@.len() == 0 ==> e.1 == StatusView::Invalid)
                &&& (pairs[i].0@ != pairs[i].1@ && pairs[i].1@.len() > 0 ==> e.1 == StatusView::Corrections(
                    seq![pairs[i].1@],
                ))
            },
{
}

/// Whether one of the patterns matches the identifier.
pub open spec fn any_matches(patterns: Seq<Seq<char>>, ident: Seq<char>) -> bool {
    exists|i: int| 0 <= i < patterns.len() && regex_is_match(#[trigger] patterns[i], ident)
}

impl<D: Dictionary> Dictionary for Override<D> {
    open spec fn spec_correct_ident(&self, ident: TokenView) -> Option<StatusView> {
        if any_matches(self@.ignored_identifiers, ident.0) {
            Some(StatusView::Valid)
        } else {
            match last_match(self@.identifiers, ident.0, false, self@.identifiers.len() as int) {
                Some(s) => Some(s),
                None => self@.inner.spec_correct_ident(ident),
            }
        }
    }

    open spec fn spec_correct_word(&self, word: TokenView) -> Option<StatusView> {
        if word.1 == Case::NoCase {
            None
        } else {
            match last_match(self@.words, word.0, true, self@.words.len() as int) {
                Some(s) => Some(s),
                None => self@.inner.spec_correct_word(word),
            }
        }
    }

    fn correct_ident(&self, ident: &Identifier) -> (r: Option<Status>) {
        let token = ident.token();
        let ghost pv = self@.ignored_identifiers;
        let mut i: usize = 0;
        while i < self.ignored_identifiers.len()
            invariant
                i <= self.ignored_identifiers@.len(),
                pv == self@.ignored_identifiers,
                token@ == ident@.0,
                forall|j: int| 0 <= j < i ==> !regex_is_match(#[trigger] pv[j], token@),
            decreases self.ignored_identifiers@.len() - i,
        {
            assert(pv[i as int] == self.ignored_identifiers@[i as int]@);
            if self.ignored_identifiers[i].is_match(token) {
                assert(any_matches(pv, token@));
                return Some(Status::Valid);
            }
            i = i + 1;
        }
        assert(!any_matches(pv, token@));
        match find_last(&self.identifiers, token, false) {
            Some(s) => Some(s),
            None => self.inner.correct_ident(ident),
        }
    }

    fn correct_word(&self, word: &Word) -> (r: Option<Status>) {
        if word.case() == Case::NoCase {
            return None;
        }
        match find_last(&self.words, word.token(), true) {
            Some(s) => Some(s),
            None => self.inner.correct_word(word),
        }
    }
}

} // verus!
