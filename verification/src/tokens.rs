//! Splitting text into identifiers and identifiers into words.

use vstd::prelude::*;
use vstd::utf8::*;
use vstd::std_specs::iter::IteratorSpec;
use vstd::string::StringSliceAdditionalSpecFns;

verus! {

/// Format of a term.
#[derive(Debug, Clone, Copy, PartialEq, Eq, Structural)]
pub enum Case {
    Title,
    Lower,
    Upper,
    NoCase,
}

/// The case class of a single character while scanning an identifier.
#[derive(Debug, Clone, Copy, PartialEq, Eq, Structural)]
pub enum WordMode {
    /// Neither lowercase, uppercase nor an ASCII digit.
    Boundary,
    Lowercase,
    Uppercase,
    Number,
}

/// Whether `char::is_lowercase` holds of a character (Unicode `Lowercase` property).
pub uninterp spec fn char_lowercase(c: char) -> bool;

/// Whether `char::is_uppercase` holds of a character (Unicode `Uppercase` property).
pub uninterp spec fn char_uppercase(c: char) -> bool;

/// `char::is_lowercase` from std: whether the character has the Unicode `Lowercase`
/// property.  The property table is not restated; the result is named `char_lowercase`.
#[verifier::external_body]
fn is_lowercase(c: char) -> (r: bool)
    ensures
        r == char_lowercase(c),
{
    c.is_lowercase()
}

/// `char::is_uppercase` from std: whether the character has the Unicode `Uppercase`
/// property.  The property table is not restated; the result is named `char_uppercase`.
#[verifier::external_body]
fn is_uppercase(c: char) -> (r: bool)
    ensures
        r == char_uppercase(c),
{
    c.is_uppercase()
}

pub open spec fn is_ascii_digit_char(c: char) -> bool {
    '0' <= c && c <= '9'
}

/// The mode of a character: lowercase is tested first, then uppercase, then ASCII digits.
pub open spec fn spec_classify(c: char) -> WordMode {
    if char_lowercase(c) {
        WordMode::Lowercase
    } else if char_uppercase(c) {
        WordMode::Uppercase
    } else if is_ascii_digit_char(c) {
        WordMode::Number
    } else {
        WordMode::Boundary
    }
}

/// The pairs of (first, last) modes a word can have.
pub open spec fn valid_case_pair(first: WordMode, last: WordMode) -> bool {
    ||| (first == WordMode::Uppercase && last == WordMode::Uppercase)
    ||| (first == WordMode::Uppercase && last == WordMode::Lowercase)
    ||| (first == WordMode::Lowercase && last == WordMode::Lowercase)
    ||| (first == WordMode::Number && last == WordMode::Number)
}

/// The case of a word from the modes of its first and last characters.
pub open spec fn spec_case(first: WordMode, last: WordMode) -> Case {
    if first == WordMode::Uppercase && last == WordMode::Uppercase {
        Case::Upper
    } else if first == WordMode::Uppercase && last == WordMode::Lowercase {
        Case::Title
    } else if first == WordMode::Lowercase && last == WordMode::Lowercase {
        Case::Lower
    } else {
        Case::NoCase
    }
}

/// A word ends with `cur` when the next character's mode is one of these.
pub open spec fn is_end_pair(cur: WordMode, next: WordMode) -> bool {
    ||| next == WordMode::Boundary
    ||| (cur == WordMode::Lowercase && next == WordMode::Number)
    ||| (cur == WordMode::Uppercase && next == WordMode::Number)
    ||| (cur == WordMode::Number && next == WordMode::Lowercase)
    ||| (cur == WordMode::Number && next == WordMode::Uppercase)
    ||| (cur == WordMode::Lowercase && next == WordMode::Uppercase)
}

impl WordMode {
    pub fn classify(c: char) -> (m: WordMode)
        ensures
            m == spec_classify(c),
    {
        if is_lowercase(c) {
            WordMode::Lowercase
        } else if is_uppercase(c) {
            WordMode::Uppercase
        } else if '0' <= c && c <= '9' {
            WordMode::Number
        } else {
            WordMode::Boundary
        }
    }

    pub fn case(self, last: WordMode) -> (c: Case)
        requires
            valid_case_pair(self, last),
        ensures
            c == spec_case(self, last),
    {
        match (self, last) {
            (WordMode::Uppercase, WordMode::Uppercase) => Case::Upper,
            (WordMode::Uppercase, WordMode::Lowercase) => Case::Title,
            (WordMode::Lowercase, WordMode::Lowercase) => Case::Lower,
            _ => Case::NoCase,
        }
    }
}

/// The words (as `(start, end, case)` spans of character indices) that the splitting scan
/// produces from position `i` on, in the state `(start, start_mode, last_mode)`:
/// `start_mode` is the mode of the first character of the word in progress (or `Boundary`
/// when there is none) and `last_mode` that of the previous character of that word.
pub open spec fn split_from(
    modes: Seq<WordMode>,
    i: int,
    start: int,
    start_mode: WordMode,
    last_mode: WordMode,
) -> Seq<(int, int, Case)>
    decreases modes.len() - i,
{
    if i < 0 || i >= modes.len() {
        seq![]
    } else {
        let cur = modes[i];
        if cur == WordMode::Boundary {
            split_from(modes, i + 1, start, start_mode, last_mode)
        } else {
            let s = if start_mode == WordMode::Boundary { i } else { start };
            let sm = if start_mode == WordMode::Boundary { cur } else { start_mode };
            if i + 1 < modes.len() {
                let next = modes[i + 1];
                if is_end_pair(cur, next) {
                    seq![(s, i + 1, spec_case(sm, cur))] + split_from(
                        modes,
                        i + 1,
                        i + 1,
                        WordMode::Boundary,
                        WordMode::Boundary,
                    )
                } else if last_mode == WordMode::Uppercase && cur == WordMode::Uppercase && next
                    == WordMode::Lowercase {
                    seq![(s, i, Case::Upper)] + split_from(modes, i + 1, i, cur, WordMode::Boundary)
                } else {
                    split_from(modes, i + 1, s, sm, cur)
                }
            } else {
                seq![(s, modes.len() as int, spec_case(sm, cur))]
            }
        }
    }
}

/// The word spans of an identifier whose characters have the given modes.
pub open spec fn split_spans(modes: Seq<WordMode>) -> Seq<(int, int, Case)> {
    split_from(modes, 0, 0, WordMode::Boundary, WordMode::Boundary)
}

pub open spec fn span_view(s: (usize, usize, Case)) -> (int, int, Case) {
    (s.0 as int, s.1 as int, s.2)
}

/// Splits an identifier, given by the modes of its characters, into word spans.
pub fn split_modes(modes: &Vec<WordMode>) -> (spans: Vec<(usize, usize, Case)>)
    ensures
        spans@.map_values(|s: (usize, usize, Case)| span_view(s)) == split_spans(modes@),
{
    let n = modes.len();
    let mut spans: Vec<(usize, usize, Case)> = Vec::new();
    let mut i: usize = 0;
    let mut start: usize = 0;
    let mut start_mode = WordMode::Boundary;
    let mut last_mode = WordMode::Boundary;
    while i < n
        invariant
            n == modes@.len(),
            i <= n,
            start <= i,
            start_mode != WordMode::Boundary ==> {
                &&& 0 < i
                &&& start < i
                &&& modes@[i - 1] != WordMode::Boundary
                &&& valid_case_pair(start_mode, modes@[i - 1])
                &&& (i < n ==> !is_end_pair(modes@[i - 1], modes@[i as int]))
            },
            last_mode != WordMode::Boundary ==> {
                &&& start_mode != WordMode::Boundary
                &&& last_mode == modes@[i - 1]
                &&& start < i - 1 || start == i - 1
            },
            spans@.map_values(|s: (usize, usize, Case)| span_view(s)) + split_from(
                modes@,
                i as int,
                start as int,
                start_mode,
                last_mode,
            ) == split_spans(modes@),
        decreases n - i,
    {
        let ghost old_spans = spans@.map_values(|s: (usize, usize, Case)| span_view(s));
        let cur = modes[i];
        if cur == WordMode::Boundary {
            assert(start_mode == WordMode::Boundary);
            i = i + 1;
            continue;
        }
        if start_mode == WordMode::Boundary {
            start_mode = cur;
            start = i;
        }
        if i + 1 < n {
            let next = modes[i + 1];
            if is_end_pair_exec(cur, next) {
                let case = start_mode.case(cur);
                spans.push((start, i + 1, case));
                assert(spans@.map_values(|s: (usize, usize, Case)| span_view(s)) =~= old_spans
                    + seq![(start as int, i + 1, case)]);
                start = i + 1;
                start_mode = WordMode::Boundary;
                last_mode = WordMode::Boundary;
            } else if last_mode == WordMode::Uppercase && cur == WordMode::Uppercase && next
                == WordMode::Lowercase {
                spans.push((start, i, Case::Upper));
                assert(spans@.map_values(|s: (usize, usize, Case)| span_view(s)) =~= old_spans
                    + seq![(start as int, i as int, Case::Upper)]);
                start = i;
                start_mode = cur;
                last_mode = WordMode::Boundary;
            } else {
                last_mode = cur;
            }
            i = i + 1;
        } else {
            let case = start_mode.case(cur);
            spans.push((start, n, case));
            assert(spans@.map_values(|s: (usize, usize, Case)| span_view(s)) =~= old_spans
                + seq![(start as int, n as int, case)]);
            i = i + 1;
            start = i;
            start_mode = WordMode::Boundary;
            last_mode = WordMode::Boundary;
        }
    }
    spans
}

fn is_end_pair_exec(cur: WordMode, next: WordMode) -> (r: bool)
    ensures
        r == is_end_pair(cur, next),
{
    match (cur, next) {
        (_, WordMode::Boundary) => true,
        (WordMode::Lowercase, WordMode::Number) => true,
        (WordMode::Uppercase, WordMode::Number) => true,
        (WordMode::Number, WordMode::Lowercase) => true,
        (WordMode::Number, WordMode::Uppercase) => true,
        (WordMode::Lowercase, WordMode::Uppercase) => true,
        _ => false,
    }
}


// ---------------------------------------------------------------------------------------
// Character widths and byte offsets
// ---------------------------------------------------------------------------------------

/// Number of bytes of the UTF-8 encoding of a character.
pub open spec fn spec_char_width(c: char) -> nat {
    if (c as u32) <= 0x7f {
        1
    } else if (c as u32) <= 0x7ff {
        2
    } else if (c as u32) <= 0xffff {
        3
    } else {
        4
    }
}

/// Number of bytes of the UTF-8 encoding of a character sequence.
pub open spec fn byte_len(s: Seq<char>) -> nat
    decreases s.len(),
{
    if s.len() == 0 {
        0
    } else {
        spec_char_width(s[0]) + byte_len(s.drop_first())
    }
}

/// `char::len_utf8`, computed from the scalar value.
pub fn char_width(c: char) -> (w: usize)
    ensures
        w == spec_char_width(c),
        1 <= w <= 4,
{
    let v = c as u32;
    if v <= 0x7f {
        1
    } else if v <= 0x7ff {
        2
    } else if v <= 0xffff {
        3
    } else {
        4
    }
}

/// The width of a character is the length of its UTF-8 encoding.
pub proof fn lemma_char_width_encoding(c: char)
    ensures
        spec_char_width(c) == encode_scalar(c as u32).len(),
{
    char_is_scalar(c);
}

/// The byte length of characters is the length of their UTF-8 encoding.
pub proof fn lemma_byte_len_is_encoding_len(s: Seq<char>)
    ensures
        byte_len(s) == encode_utf8(s).len(),
    decreases s.len(),
{
    if s.len() > 0 {
        lemma_char_width_encoding(s[0]);
        lemma_byte_len_is_encoding_len(s.drop_first());
    }
}

/// Byte length is additive over concatenation.
pub proof fn lemma_byte_len_concat(a: Seq<char>, b: Seq<char>)
    ensures
        byte_len(a + b) == byte_len(a) + byte_len(b),
    decreases a.len(),
{
    if a.len() > 0 {
        assert((a + b).drop_first() =~= a.drop_first() + b);
        lemma_byte_len_concat(a.drop_first(), b);
    } else {
        assert(a + b =~= b);
    }
}

/// The byte offset of character `i + 1` is that of character `i` plus its width.
pub proof fn lemma_byte_len_take_step(s: Seq<char>, i: int)
    requires
        0 <= i < s.len(),
    ensures
        byte_len(s.take(i + 1)) == byte_len(s.take(i)) + spec_char_width(s[i]),
{
    assert(s.take(i + 1) =~= s.take(i) + seq![s[i]]);
    lemma_byte_len_concat(s.take(i), seq![s[i]]);
    assert(seq![s[i]].drop_first() =~= Seq::<char>::empty());
    assert(byte_len(Seq::<char>::empty()) == 0);
    assert(byte_len(seq![s[i]]) == spec_char_width(s[i]) + byte_len(seq![s[i]].drop_first()));
}

/// Byte offsets grow with the number of characters taken.
pub proof fn lemma_byte_len_take_mono(s: Seq<char>, i: int, j: int)
    requires
        0 <= i <= j <= s.len(),
    ensures
        byte_len(s.take(i)) <= byte_len(s.take(j)),
    decreases j - i,
{
    if i < j {
        lemma_byte_len_take_step(s, j - 1);
        lemma_byte_len_take_mono(s, i, j - 1);
    }
}

/// The characters of a string slice.
pub fn chars_of(s: &str) -> (v: Vec<char>)
    ensures
        v@ == s@,
{
    let mut v: Vec<char> = Vec::new();
    broadcast use vstd::string::axiom_spec_iter;
    for c in iter: s.chars()
        invariant
            v@ =~= iter.seq().take(iter.index() as int),
    {
        v.push(c);
    }
    assert(v@ =~= s@);
    v
}

/// The byte offset of each character (and of the end) of a character sequence.
pub fn byte_offsets(chars: &Vec<char>) -> (offs: Vec<usize>)
    requires
        byte_len(chars@) <= usize::MAX,
    ensures
        offs@.len() == chars@.len() + 1,
        forall|i: int| 0 <= i <= chars@.len() ==> offs@[i] == byte_len(#[trigger] chars@.take(i)),
{
    let n = chars.len();
    let mut offs: Vec<usize> = Vec::new();
    let mut acc: usize = 0;
    let mut i: usize = 0;
    assert(chars@.take(0) =~= Seq::<char>::empty());
    while i < n
        invariant
            n == chars@.len(),
            i <= n,
            byte_len(chars@) <= usize::MAX,
            acc == byte_len(chars@.take(i as int)),
            offs@.len() == i,
            forall|k: int| 0 <= k < i ==> offs@[k] == byte_len(#[trigger] chars@.take(k)),
        decreases n - i,
    {
        offs.push(acc);
        proof {
            lemma_byte_len_take_step(chars@, i as int);
            lemma_byte_len_take_mono(chars@, i + 1, n as int);
            assert(chars@.take(n as int) =~= chars@);
        }
        acc = acc + char_width(chars[i]);
        i = i + 1;
    }
    offs.push(acc);
    offs
}

/// `String: FromIterator<char>` from std: the string made of the given characters.
#[verifier::external_body]
pub(crate) fn string_from_chars(chars: &[char]) -> (s: String)
    ensures
        s@ == chars@,
{
    chars.iter().collect()
}

/// The string made of the characters `start..end` of a sequence.
pub fn string_from_range(chars: &Vec<char>, start: usize, end: usize) -> (s: String)
    requires
        start <= end <= chars@.len(),
    ensures
        s@ == chars@.subrange(start as int, end as int),
{
    let slice = chars.as_slice();
    let sub = &slice[start..end];
    string_from_chars(sub)
}


// ---------------------------------------------------------------------------------------
// Identifier literals
// ---------------------------------------------------------------------------------------

/// Whether a non-ASCII character has the Unicode `XID_Continue` property, as the
/// `unicode-xid` tables give it.
pub uninterp spec fn xid_continue_table(c: char) -> bool;

/// Whether a character may continue an identifier (`XID_Continue`).
pub open spec fn spec_xid_continue(c: char) -> bool {
    if c <= '\x7f' {
        ('a' <= c && c <= 'z') || ('A' <= c && c <= 'Z') || ('0' <= c && c <= '9') || c == '_'
    } else {
        xid_continue_table(c)
    }
}

/// `unicode_xid::UnicodeXID::is_xid_continue`: for ASCII characters the crate's fast path
/// accepts exactly letters, digits and `_`; other characters are looked up in its
/// generated `XID_Continue` table, whose content is only named here.
#[verifier::external_body]
fn is_xid_continue(c: char) -> (r: bool)
    ensures
        c <= '\x7f' ==> (r <==> (('a' <= c && c <= 'z') || ('A' <= c && c <= 'Z') || ('0' <= c
            && c <= '9') || c == '_')),
        c > '\x7f' ==> r == xid_continue_table(c),
{
    unicode_xid::UnicodeXID::is_xid_continue(c)
}

/// The end of the run of `true` starting at `i`.
pub open spec fn run_end(xid: Seq<bool>, i: int) -> int
    decreases xid.len() - i,
{
    if 0 <= i < xid.len() && xid[i] {
        run_end(xid, i + 1)
    } else {
        i
    }
}

pub proof fn lemma_run_end(xid: Seq<bool>, i: int)
    requires
        0 <= i <= xid.len(),
    ensures
        i <= run_end(xid, i) <= xid.len(),
        i < xid.len() && xid[i] ==> i < run_end(xid, i),
        forall|k: int| i <= k < run_end(xid, i) ==> xid[k],
        run_end(xid, i) < xid.len() ==> !xid[run_end(xid, i)],
    decreases xid.len() - i,
{
    if i < xid.len() && xid[i] {
        lemma_run_end(xid, i + 1);
    }
}

/// The maximal runs of identifier characters from position `i` on, as `(start, end)` spans.
pub open spec fn literals_from(xid: Seq<bool>, i: int) -> Seq<(int, int)>
    decreases xid.len() - i,
{
    if i < 0 || i >= xid.len() {
        seq![]
    } else if !xid[i] {
        literals_from(xid, i + 1)
    } else {
        proof {
            lemma_run_end(xid, i);
        }
        seq![(i, run_end(xid, i))] + literals_from(xid, run_end(xid, i))
    }
}

pub proof fn lemma_literals_from_wf(xid: Seq<bool>, i: int)
    requires
        0 <= i <= xid.len(),
    ensures
        forall|k: int|
            0 <= k < literals_from(xid, i).len() ==> i <= (#[trigger] literals_from(xid, i)[k]).0
                < literals_from(xid, i)[k].1 <= xid.len(),
    decreases xid.len() - i,
{
    if i == xid.len() {
        assert(literals_from(xid, i).len() == 0);
    } else {
        if !xid[i] {
            lemma_literals_from_wf(xid, i + 1);
            assert(literals_from(xid, i) == literals_from(xid, i + 1));
        } else {
            lemma_run_end(xid, i);
            let e = run_end(xid, i);
            lemma_literals_from_wf(xid, e);
            let rest = literals_from(xid, e);
            assert(literals_from(xid, i) == seq![(i, e)] + rest);
            assert forall|k: int| 0 <= k < literals_from(xid, i).len() implies i <= (
            #[trigger] literals_from(xid, i)[k]).0 < literals_from(xid, i)[k].1 <= xid.len() by {
                if k > 0 {
                    assert(literals_from(xid, i)[k] == rest[k - 1]);
                }
            }
        }
    }
}

/// The identifier-character flags of a character sequence.
pub open spec fn xid_flags(text: Seq<char>) -> Seq<bool> {
    Seq::new(text.len(), |i: int| spec_xid_continue(text[i]))
}

pub open spec fn pair_view(p: (usize, usize)) -> (int, int) {
    (p.0 as int, p.1 as int)
}

/// The maximal runs of identifier characters.
fn literal_spans(xid: &Vec<bool>) -> (spans: Vec<(usize, usize)>)
    ensures
        spans@.map_values(|p: (usize, usize)| pair_view(p)) == literals_from(xid@, 0),
{
    let n = xid.len();
    let mut spans: Vec<(usize, usize)> = Vec::new();
    let mut i: usize = 0;
    while i < n
        invariant
            n == xid@.len(),
            i <= n,
            spans@.map_values(|p: (usize, usize)| pair_view(p)) + literals_from(xid@, i as int)
                == literals_from(xid@, 0),
        decreases n - i,
    {
        if !xid[i] {
            i = i + 1;
        } else {
            let mut j = i;
            proof {
                lemma_run_end(xid@, i as int);
            }
            while j < n && xid[j]
                invariant
                    n == xid@.len(),
                    i <= j <= n,
                    run_end(xid@, j as int) == run_end(xid@, i as int),
                decreases n - j,
            {
                j = j + 1;
            }
            let ghost old_spans = spans@.map_values(|p: (usize, usize)| pair_view(p));
            spans.push((i, j));
            assert(spans@.map_values(|p: (usize, usize)| pair_view(p)) =~= old_spans + seq![
                (i as int, j as int),
            ]);
            i = j;
        }
    }
    spans
}

// ---------------------------------------------------------------------------------------
// Numbers
// ---------------------------------------------------------------------------------------

/// `_` and `'` separate digits in number literals (Rust, C++).
pub open spec fn is_digit_sep(c: char) -> bool {
    c == '_' || c == '\''
}

pub open spec fn is_hex_digit(c: char) -> bool {
    ('0' <= c && c <= '9') || ('a' <= c && c <= 'f') || ('A' <= c && c <= 'F')
}

/// Every character is a digit or a digit separator.
pub open spec fn spec_is_number(t: Seq<char>) -> bool {
    forall|k: int| 0 <= k < t.len() ==> is_ascii_digit_char(#[trigger] t[k]) || is_digit_sep(t[k])
}

/// `0x` followed by at least one hex digit or separator, and only those.
pub open spec fn spec_is_hex(t: Seq<char>) -> bool {
    &&& t.len() >= 3
    &&& t[0] == '0'
    &&& t[1] == 'x'
    &&& forall|k: int| 2 <= k < t.len() ==> is_hex_digit(#[trigger] t[k]) || is_digit_sep(t[k])
}

fn is_number(t: &[char]) -> (r: bool)
    ensures
        r == spec_is_number(t@),
{
    let mut i: usize = 0;
    while i < t.len()
        invariant
            i <= t@.len(),
            forall|k: int| 0 <= k < i ==> is_ascii_digit_char(#[trigger] t@[k]) || is_digit_sep(t@[k]),
        decreases t@.len() - i,
    {
        let c = t[i];
        if !(('0' <= c && c <= '9') || c == '_' || c == '\'') {
            return false;
        }
        i = i + 1;
    }
    true
}

fn is_hex(t: &[char]) -> (r: bool)
    ensures
        r == spec_is_hex(t@),
{
    if t.len() < 3 {
        return false;
    }
    if !(t[0] == '0' && t[1] == 'x') {
        return false;
    }
    let mut i: usize = 2;
    while i < t.len()
        invariant
            2 <= i <= t@.len(),
            forall|k: int| 2 <= k < i ==> is_hex_digit(#[trigger] t@[k]) || is_digit_sep(t@[k]),
        decreases t@.len() - i,
    {
        let c = t[i];
        if !(('0' <= c && c <= '9') || ('a' <= c && c <= 'f') || ('A' <= c && c <= 'F') || c == '_'
            || c == '\'') {
            return false;
        }
        i = i + 1;
    }
    true
}


// ---------------------------------------------------------------------------------------
// Identifiers and words
// ---------------------------------------------------------------------------------------

/// A term composed of words.
#[derive(Debug, PartialEq, Eq)]
pub struct Identifier {
    token: String,
    case: Case,
    offset: usize,
}

/// An indivisible term.
#[derive(Debug, Clone, PartialEq, Eq)]
pub struct Word {
    token: String,
    case: Case,
    offset: usize,
}

/// The abstract value of a token: its characters, its case and its byte offset.
pub type TokenView = (Seq<char>, Case, int);

impl Identifier {
    /// The end of the token, as a byte offset, fits in `usize`.
    #[verifier::type_invariant]
    spec fn fits(&self) -> bool {
        self.offset + byte_len(self.token@) <= usize::MAX
    }
}

impl Clone for Identifier {
    fn clone(&self) -> (r: Identifier)
        ensures
            r@ == self@,
    {
        proof {
            use_type_invariant(self);
        }
        Identifier { token: self.token.clone(), case: self.case, offset: self.offset }
    }
}

impl View for Identifier {
    type V = TokenView;

    closed spec fn view(&self) -> TokenView {
        (self.token@, self.case, self.offset as int)
    }
}

impl View for Word {
    type V = TokenView;

    closed spec fn view(&self) -> TokenView {
        (self.token@, self.case, self.offset as int)
    }
}

/// Why a string is not a single word.
#[derive(Debug, Clone, Copy, PartialEq, Eq, Structural)]
pub enum WordError {
    /// The string holds no word at all.
    Empty,
    /// The first word does not start at the beginning of the string.
    Padding,
    /// The string holds more than one word.
    MultipleWords,
}

/// The modes of the characters of a token.
pub open spec fn modes_of(t: Seq<char>) -> Seq<WordMode> {
    Seq::new(t.len(), |i: int| spec_classify(t[i]))
}

/// The word that a span of a token stands for, given the token's byte offset.
pub open spec fn word_of(t: Seq<char>, offset: int, sp: (int, int, Case)) -> TokenView {
    (t.subrange(sp.0, sp.1), sp.2, offset + byte_len(t.take(sp.0)))
}

/// The words of a token at the given byte offset, split by case and digits.
pub open spec fn spec_split_words(t: Seq<char>, offset: int) -> Seq<TokenView> {
    split_spans(modes_of(t)).map_values(|sp: (int, int, Case)| word_of(t, offset, sp))
}

/// The words of an identifier: a split when its case is unknown, itself otherwise.
pub open spec fn spec_split(ident: TokenView) -> Seq<TokenView> {
    if ident.1 == Case::NoCase {
        spec_split_words(ident.0, ident.2)
    } else {
        seq![ident]
    }
}

pub proof fn lemma_split_from_wf(
    modes: Seq<WordMode>,
    i: int,
    start: int,
    start_mode: WordMode,
    last_mode: WordMode,
)
    requires
        0 <= start <= i,
    ensures
        forall|k: int|
            0 <= k < split_from(modes, i, start, start_mode, last_mode).len() ==> 0 <= (
            #[trigger] split_from(modes, i, start, start_mode, last_mode)[k]).0 <= split_from(
                modes,
                i,
                start,
                start_mode,
                last_mode,
            )[k].1 <= modes.len(),
    decreases modes.len() - i,
{
    let r = split_from(modes, i, start, start_mode, last_mode);
    if i < 0 || i >= modes.len() {
    } else {
        let cur = modes[i];
        if cur == WordMode::Boundary {
            lemma_split_from_wf(modes, i + 1, start, start_mode, last_mode);
            assert(r == split_from(modes, i + 1, start, start_mode, last_mode));
        } else {
            let s = if start_mode == WordMode::Boundary { i } else { start };
            let sm = if start_mode == WordMode::Boundary { cur } else { start_mode };
            if i + 1 < modes.len() {
                let next = modes[i + 1];
                if is_end_pair(cur, next) {
                    let rest = split_from(modes, i + 1, i + 1, WordMode::Boundary, WordMode::Boundary);
                    lemma_split_from_wf(modes, i + 1, i + 1, WordMode::Boundary, WordMode::Boundary);
                    assert forall|k: int| 0 <= k < r.len() implies 0 <= (#[trigger] r[k]).0
                        <= r[k].1 <= modes.len() by {
                        if k > 0 {
                            assert(r[k] == rest[k - 1]);
                        }
                    }
                } else if last_mode == WordMode::Uppercase && cur == WordMode::Uppercase && next
                    == WordMode::Lowercase {
                    let rest = split_from(modes, i + 1, i, cur, WordMode::Boundary);
                    lemma_split_from_wf(modes, i + 1, i, cur, WordMode::Boundary);
                    assert forall|k: int| 0 <= k < r.len() implies 0 <= (#[trigger] r[k]).0
                        <= r[k].1 <= modes.len() by {
                        if k > 0 {
                            assert(r[k] == rest[k - 1]);
                        }
                    }
                } else {
                    lemma_split_from_wf(modes, i + 1, s, sm, cur);
                    assert(r == split_from(modes, i + 1, s, sm, cur));
                }
            } else {
                assert(r == seq![(s, modes.len() as int, spec_case(sm, cur))]);
            }
        }
    }
}

/// The modes of the characters of a token.
fn modes_of_chars(chars: &Vec<char>) -> (modes: Vec<WordMode>)
    ensures
        modes@ == modes_of(chars@),
{
    let mut modes: Vec<WordMode> = Vec::new();
    let mut i: usize = 0;
    while i < chars.len()
        invariant
            i <= chars@.len(),
            modes@ =~= modes_of(chars@).take(i as int),
        decreases chars@.len() - i,
    {
        modes.push(WordMode::classify(chars[i]));
        i = i + 1;
    }
    assert(modes@ =~= modes_of(chars@));
    modes
}

/// The words of a token of the given characters at the given byte offset.
fn split_chars(chars: &Vec<char>, offset: usize) -> (words: Vec<Word>)
    requires
        offset + byte_len(chars@) <= usize::MAX,
    ensures
        words@.map_values(|w: Word| w@) == spec_split_words(chars@, offset as int),
{
    let modes = modes_of_chars(chars);
    let spans = split_modes(&modes);
    let offs = byte_offsets(chars);
    let ghost sv = split_spans(modes@);
    proof {
        lemma_split_from_wf(modes@, 0, 0, WordMode::Boundary, WordMode::Boundary);
        assert(spans@.map_values(|s: (usize, usize, Case)| span_view(s)).len() == spans@.len());
    }
    let mut words: Vec<Word> = Vec::new();
    let mut k: usize = 0;
    while k < spans.len()
        invariant
            k <= spans@.len(),
            offs@.len() == chars@.len() + 1,
            forall|i: int| 0 <= i <= chars@.len() ==> offs@[i] == byte_len(#[trigger] chars@.take(i)),
            offset + byte_len(chars@) <= usize::MAX,
            sv == split_spans(modes_of(chars@)),
            spans@.map_values(|s: (usize, usize, Case)| span_view(s)) == sv,
            forall|j: int| 0 <= j < sv.len() ==> 0 <= (#[trigger] sv[j]).0 <= sv[j].1 <= chars@.len(),
            words@.map_values(|w: Word| w@) =~= spec_split_words(chars@, offset as int).take(k as int),
        decreases spans@.len() - k,
    {
        let (s, e, c) = spans[k];
        assert(sv[k as int] == span_view(spans@[k as int]));
        proof {
            lemma_byte_len_take_mono(chars@, s as int, chars@.len() as int);
            assert(chars@.take(chars@.len() as int) =~= chars@);
        }
        let token = string_from_range(chars, s, e);
        let w = Word { token, case: c, offset: offset + offs[s] };
        let ghost before = words@.map_values(|w: Word| w@);
        words.push(w);
        assert(words@.map_values(|w: Word| w@) =~= before + seq![w@]);
        k = k + 1;
    }
    words
}

impl Identifier {
    pub fn new_unchecked(token: &str, case: Case, offset: usize) -> (r: Identifier)
        requires
            offset + byte_len(token@) <= usize::MAX,
        ensures
            r@ == (token@, case, offset as int),
    {
        Identifier { token: token.to_owned(), case, offset }
    }

    pub fn token(&self) -> (r: &str)
        ensures
            r@ == self@.0,
    {
        self.token.as_str()
    }

    pub fn case(&self) -> (r: Case)
        ensures
            r == self@.1,
    {
        self.case
    }

    pub fn offset(&self) -> (r: usize)
        ensures
            r == self@.2,
    {
        self.offset
    }

    /// Split into individual words.
    pub fn split(&self) -> (words: Vec<Word>)
        ensures
            words@.map_values(|w: Word| w@) == spec_split(self@),
    {
        proof {
            use_type_invariant(self);
        }
        if self.case == Case::NoCase {
            let chars = chars_of(self.token.as_str());
            split_chars(&chars, self.offset)
        } else {
            let mut words: Vec<Word> = Vec::new();
            words.push(Word { token: self.token.clone(), case: self.case, offset: self.offset });
            assert(words@.map_values(|w: Word| w@) =~= seq![self@]);
            words
        }
    }
}

impl Word {
    /// The single word that `token` consists of, at byte offset `offset`.
    pub fn new(token: &str, offset: usize) -> (r: Result<Word, WordError>)
        ensures
            ({
                let spans = split_spans(modes_of(token@));
                match r {
                    Ok(w) => spans.len() == 1 && spans[0].0 == 0 && w@ == (
                        token@.subrange(0, spans[0].1),
                        spans[0].2,
                        offset as int,
                    ),
                    Err(WordError::Empty) => spans.len() == 0,
                    Err(WordError::Padding) => spans.len() >= 1 && spans[0].0 != 0,
                    Err(WordError::MultipleWords) => spans.len() >= 2 && spans[0].0 == 0,
                }
            }),
    {
        let chars = chars_of(token);
        let modes = modes_of_chars(&chars);
        let spans = split_modes(&modes);
        proof {
            lemma_split_from_wf(modes@, 0, 0, WordMode::Boundary, WordMode::Boundary);
            assert(spans@.map_values(|s: (usize, usize, Case)| span_view(s)).len() == spans@.len());
        }
        if spans.len() == 0 {
            return Err(WordError::Empty);
        }
        let (s, e, c) = spans[0];
        assert(split_spans(modes_of(token@))[0] == span_view(spans@[0]));
        if s != 0 {
            return Err(WordError::Padding);
        }
        if spans.len() > 1 {
            return Err(WordError::MultipleWords);
        }
        let token = string_from_range(&chars, 0, e);
        Ok(Word { token, case: c, offset })
    }

    pub fn new_unchecked(token: &str, case: Case, offset: usize) -> (r: Word)
        ensures
            r@ == (token@, case, offset as int),
    {
        Word { token: token.to_owned(), case, offset }
    }

    pub fn token(&self) -> (r: &str)
        ensures
            r@ == self@.0,
    {
        self.token.as_str()
    }

    pub fn case(&self) -> (r: Case)
        ensures
            r == self@.1,
    {
        self.case
    }

    pub fn offset(&self) -> (r: usize)
        ensures
            r == self@.2,
    {
        self.offset
    }
}


// ---------------------------------------------------------------------------------------
// Tokenizer
// ---------------------------------------------------------------------------------------

/// Rules for tokenizing a buffer.
#[derive(Debug, Clone, PartialEq, Eq)]
pub struct TokenizerBuilder {
    ignore_hex: bool,
    leading_digits: bool,
}

/// Extracts identifiers from a buffer.
#[derive(Debug, Clone)]
pub struct Tokenizer {
    leading_digits: bool,
    ignore_hex: bool,
}

/// `(leading_digits, ignore_hex)`.
impl View for TokenizerBuilder {
    type V = (bool, bool);

    closed spec fn view(&self) -> (bool, bool) {
        (self.leading_digits, self.ignore_hex)
    }
}

/// `(leading_digits, ignore_hex)`.
impl View for Tokenizer {
    type V = (bool, bool);

    closed spec fn view(&self) -> (bool, bool) {
        (self.leading_digits, self.ignore_hex)
    }
}

impl TokenizerBuilder {
    /// Leading digits are not allowed and hexadecimal numbers are ignored.
    pub fn new() -> (b: TokenizerBuilder)
        ensures
            b@ == (false, true),
    {
        TokenizerBuilder { leading_digits: false, ignore_hex: true }
    }

    /// Specify that hexadecimal numbers should be ignored.
    pub fn ignore_hex(&mut self, yes: bool) -> (r: &mut Self)
        ensures
            r@ == (old(self)@.0, yes),
            final(self)@ == final(r)@,
    {
        self.ignore_hex = yes;
        self
    }

    /// Specify that leading digits are allowed for identifiers.
    pub fn leading_digits(&mut self, yes: bool) -> (r: &mut Self)
        ensures
            r@ == (yes, old(self)@.1),
            final(self)@ == final(r)@,
    {
        self.leading_digits = yes;
        self
    }

    pub fn build(&self) -> (t: Tokenizer)
        ensures
            t@ == self@,
    {
        Tokenizer { leading_digits: self.leading_digits, ignore_hex: self.ignore_hex }
    }
}

impl Default for TokenizerBuilder {
    fn default() -> (b: TokenizerBuilder)
        ensures
            b@ == (false, true),
    {
        TokenizerBuilder::new()
    }
}

impl Default for Tokenizer {
    fn default() -> (t: Tokenizer)
        ensures
            t@ == (false, true),
    {
        Tokenizer::new()
    }
}

/// Whether the tokenizer keeps an identifier of the given characters (never empty).
pub open spec fn spec_keep(tok: (bool, bool), t: Seq<char>) -> bool {
    if tok.0 {
        !spec_is_number(t) && !(tok.1 && spec_is_hex(t))
    } else {
        !is_ascii_digit_char(t[0])
    }
}

/// The identifiers kept from the literal spans `spans[k..]` of `text`.
pub open spec fn idents_from(tok: (bool, bool), text: Seq<char>, spans: Seq<(int, int)>, k: int) -> Seq<
    TokenView,
>
    decreases spans.len() - k,
{
    if k < 0 || k >= spans.len() {
        seq![]
    } else {
        let t = text.subrange(spans[k].0, spans[k].1);
        (if spec_keep(tok, t) {
            seq![(t, Case::NoCase, byte_len(text.take(spans[k].0)) as int)]
        } else {
            seq![]
        }) + idents_from(tok, text, spans, k + 1)
    }
}

/// The identifiers that a tokenizer with settings `tok` finds in `text`: the maximal runs of
/// `XID_Continue` characters that it keeps, at their byte offsets, with no case yet.
pub open spec fn spec_parse_text(tok: (bool, bool), text: Seq<char>) -> Seq<TokenView> {
    idents_from(tok, text, literals_from(xid_flags(text), 0), 0)
}

impl Tokenizer {
    pub fn new() -> (t: Tokenizer)
        ensures
            t@ == (false, true),
    {
        TokenizerBuilder::new().build()
    }

    /// A tokenizer with the same settings.
    pub fn clone_settings(&self) -> (t: Tokenizer)
        ensures
            t@ == self@,
    {
        Tokenizer { leading_digits: self.leading_digits, ignore_hex: self.ignore_hex }
    }

    fn transform(&self, t: &[char]) -> (keep: bool)
        requires
            t@.len() > 0,
        ensures
            keep == spec_keep(self@, t@),
    {
        if self.leading_digits {
            if is_number(t) {
                return false;
            }
            if self.ignore_hex && is_hex(t) {
                return false;
            }
            true
        } else {
            let c = t[0];
            !('0' <= c && c <= '9')
        }
    }

    /// Identifiers of a text given by its characters and their byte offsets.
    fn parse_chars(&self, chars: &Vec<char>, offs: &Vec<usize>, Ghost(total): Ghost<nat>) -> (idents: Vec<Identifier>)
        requires
            byte_len(chars@) == total,
            total <= usize::MAX,
            offs@.len() == chars@.len() + 1,
            forall|i: int| 0 <= i <= chars@.len() ==> offs@[i] == byte_len(#[trigger] chars@.take(i)),
        ensures
            idents@.map_values(|i: Identifier| i@) == spec_parse_text(self@, chars@),
    {
        let n = chars.len();
        let mut xid: Vec<bool> = Vec::new();
        let mut i: usize = 0;
        while i < n
            invariant
                n == chars@.len(),
                i <= n,
                xid@ =~= xid_flags(chars@).take(i as int),
            decreases n - i,
        {
            xid.push(is_xid_continue(chars[i]));
            i = i + 1;
        }
        assert(xid@ =~= xid_flags(chars@));
        let spans = literal_spans(&xid);
        let ghost sv = literals_from(xid@, 0);
        proof {
            lemma_literals_from_wf(xid@, 0);
            assert(spans@.map_values(|p: (usize, usize)| pair_view(p)).len() == spans@.len());
        }
        let mut idents: Vec<Identifier> = Vec::new();
        let mut k: usize = 0;
        while k < spans.len()
            invariant
                n == chars@.len(),
                byte_len(chars@) <= usize::MAX,
                xid@ == xid_flags(chars@),
                k <= spans@.len(),
                offs@.len() == chars@.len() + 1,
                forall|i: int| 0 <= i <= chars@.len() ==> offs@[i] == byte_len(#[trigger] chars@.take(i)),
                sv == literals_from(xid@, 0),
                spans@.map_values(|p: (usize, usize)| pair_view(p)) == sv,
                forall|j: int| 0 <= j < sv.len() ==> 0 <= (#[trigger] sv[j]).0 < sv[j].1 <= xid@.len(),
                idents@.map_values(|i: Identifier| i@) + idents_from(self@, chars@, sv, k as int)
                    == spec_parse_text(self@, chars@),
            decreases spans@.len() - k,
        {
            let (s, e) = spans[k];
            assert(sv[k as int] == pair_view(spans@[k as int]));
            let slice = chars.as_slice();
            let t = &slice[s..e];
            let ghost before = idents@.map_values(|i: Identifier| i@);
            if self.transform(t) {
                let token = string_from_chars(t);
                proof {
                    assert(chars@.take(e as int) =~= chars@.take(s as int) + t@);
                    lemma_byte_len_concat(chars@.take(s as int), t@);
                    lemma_byte_len_take_mono(chars@, e as int, n as int);
                    assert(chars@.take(n as int) =~= chars@);
                }
                idents.push(Identifier { token, case: Case::NoCase, offset: offs[s] });
                assert(idents@.map_values(|i: Identifier| i@) =~= before + seq![
                    (chars@.subrange(s as int, e as int), Case::NoCase, byte_len(chars@.take(s as int)) as int),
                ]);
            } else {
                assert(idents@.map_values(|i: Identifier| i@) =~= before + Seq::<TokenView>::empty());
            }
            k = k + 1;
        }
        idents
    }

    /// The identifiers in a string.
    pub fn parse_str(&self, content: &str) -> (idents: Vec<Identifier>)
        requires
            byte_len(content@) <= usize::MAX,
        ensures
            idents@.map_values(|i: Identifier| i@) == spec_parse_text(self@, content@),
    {
        let chars = chars_of(content);
        let offs = byte_offsets(&chars);
        self.parse_chars(&chars, &offs, Ghost(byte_len(content@)))
    }
}


/// Every identifier found in a text lies within it: its byte offset plus its byte length is
/// at most the byte length of the text.
pub proof fn lemma_parse_text_bounds(tok: (bool, bool), text: Seq<char>)
    ensures
        forall|j: int|
            0 <= j < spec_parse_text(tok, text).len() ==> 0 <= (#[trigger] spec_parse_text(
                tok,
                text,
            )[j]).2 && spec_parse_text(tok, text)[j].2 + byte_len(spec_parse_text(tok, text)[j].0)
                <= byte_len(text),
{
    let xid = xid_flags(text);
    lemma_literals_from_wf(xid, 0);
    lemma_idents_from_bounds(tok, text, literals_from(xid, 0), 0);
}

proof fn lemma_idents_from_bounds(tok: (bool, bool), text: Seq<char>, spans: Seq<(int, int)>, k: int)
    requires
        forall|j: int| 0 <= j < spans.len() ==> 0 <= (#[trigger] spans[j]).0 < spans[j].1 <= text.len(),
    ensures
        forall|j: int|
            0 <= j < idents_from(tok, text, spans, k).len() ==> 0 <= (#[trigger] idents_from(
                tok,
                text,
                spans,
                k,
            )[j]).2 && idents_from(tok, text, spans, k)[j].2 + byte_len(
                idents_from(tok, text, spans, k)[j].0,
            ) <= byte_len(text),
    decreases spans.len() - k,
{
    let r = idents_from(tok, text, spans, k);
    if k < 0 || k >= spans.len() {
    } else {
        lemma_idents_from_bounds(tok, text, spans, k + 1);
        let rest = idents_from(tok, text, spans, k + 1);
        let (s, e) = spans[k];
        let t = text.subrange(s, e);
        assert(text.take(e) =~= text.take(s) + t);
        lemma_byte_len_concat(text.take(s), t);
        lemma_byte_len_take_mono(text, e, text.len() as int);
        assert(text.take(text.len() as int) =~= text);
        if spec_keep(tok, t) {
            assert forall|j: int| 0 <= j < r.len() implies 0 <= (#[trigger] r[j]).2 && r[j].2
                + byte_len(r[j].0) <= byte_len(text) by {
                if j > 0 {
                    assert(r[j] == rest[j - 1]);
                }
            }
        } else {
            assert(r =~= rest);
        }
    }
}

// ---------------------------------------------------------------------------------------
// Bytes
// ---------------------------------------------------------------------------------------

/// The error that `simdutf8` reports for invalid UTF-8: `(valid_up_to, error_len)`.
pub uninterp spec fn utf8_error(bytes: Seq<u8>) -> (usize, Option<usize>);

/// `simdutf8::compat::from_utf8`: the bytes as a string when they are valid UTF-8; otherwise
/// the error's `valid_up_to()` (the longest valid prefix) and `error_len()` (the length of
/// the invalid sequence there, `None` when the input ends inside a sequence).  Which
/// invalid sequences are `None` and how long the others are is only named.
#[verifier::external_body]
pub(crate) fn validate_utf8(bytes: &[u8]) -> (r: Result<&str, (usize, Option<usize>)>)
    ensures
        r is Ok <==> valid_utf8(bytes@),
        r matches Ok(s) ==> s.spec_bytes() == bytes@,
        r matches Err(e) ==> {
            &&& e == utf8_error(bytes@)
            &&& e.0 <= bytes@.len()
            &&& valid_utf8(bytes@.take(e.0 as int))
            &&& forall|j: int| e.0 < j <= bytes@.len() ==> !valid_utf8(#[trigger] bytes@.take(j))
            &&& (e.1 matches Some(n) ==> 1 <= n <= 3 && e.0 + n <= bytes@.len())
        },
{
    match simdutf8::compat::from_utf8(bytes) {
        Ok(s) => Ok(s),
        Err(e) => Err((e.valid_up_to(), e.error_len())),
    }
}

/// The valid UTF-8 chunks of `bytes` from `pos` on, with their byte offsets: the longest
/// valid prefix, then (after skipping an invalid sequence) the chunks of the rest.
pub open spec fn chunks_from(bytes: Seq<u8>, pos: int) -> Seq<(int, Seq<char>)>
    decreases bytes.len() - pos,
{
    if pos < 0 || pos >= bytes.len() {
        seq![]
    } else {
        let rest = bytes.skip(pos);
        if valid_utf8(rest) {
            seq![(pos, decode_utf8(rest))]
        } else {
            let e = utf8_error(rest);
            let head = (pos, decode_utf8(rest.take(e.0 as int)));
            match e.1 {
                Some(n) => if n >= 1 && pos + e.0 + n <= bytes.len() {
                    seq![head] + chunks_from(bytes, pos + e.0 + n)
                } else {
                    seq![head]
                },
                None => seq![head],
            }
        }
    }
}

pub open spec fn shift_views(v: Seq<TokenView>, delta: int) -> Seq<TokenView> {
    v.map_values(|t: TokenView| (t.0, t.1, t.2 + delta))
}

/// The identifiers of the chunks `chunks[k..]`, at their offsets in the whole buffer.
pub open spec fn chunk_idents(tok: (bool, bool), chunks: Seq<(int, Seq<char>)>, k: int) -> Seq<
    TokenView,
>
    decreases chunks.len() - k,
{
    if k < 0 || k >= chunks.len() {
        seq![]
    } else {
        shift_views(spec_parse_text(tok, chunks[k].1), chunks[k].0) + chunk_idents(tok, chunks, k + 1)
    }
}

/// The identifiers that a tokenizer finds in a buffer: those of each valid UTF-8 chunk.
pub open spec fn spec_parse_bytes(tok: (bool, bool), bytes: Seq<u8>) -> Seq<TokenView> {
    chunk_idents(tok, chunks_from(bytes, 0), 0)
}

/// The identifiers of one valid chunk `s` that starts at byte `pos`.
fn chunk_identifiers(tokenizer: &Tokenizer, s: &str, pos: usize, total: usize) -> (idents: Vec<
    Identifier,
>)
    requires
        pos + s.spec_bytes().len() <= total,
    ensures
        idents@.map_values(|i: Identifier| i@) == shift_views(
            spec_parse_text(tokenizer@, s@),
            pos as int,
        ),
{
    proof {
        lemma_byte_len_is_encoding_len(s@);
        lemma_parse_text_bounds(tokenizer@, s@);
    }
    let found = tokenizer.parse_str(s);
    let ghost fv = spec_parse_text(tokenizer@, s@);
    let mut idents: Vec<Identifier> = Vec::new();
    let mut k: usize = 0;
    while k < found.len()
        invariant
            k <= found@.len(),
            found@.map_values(|i: Identifier| i@) == fv,
            fv == spec_parse_text(tokenizer@, s@),
            forall|j: int| 0 <= j < fv.len() ==> 0 <= (#[trigger] fv[j]).2 && fv[j].2 + byte_len(fv[j].0) <= byte_len(s@),
            byte_len(s@) == s.spec_bytes().len(),
            pos + s.spec_bytes().len() <= total,
            idents@.map_values(|i: Identifier| i@) =~= shift_views(fv, pos as int).take(k as int),
        decreases found@.len() - k,
    {
        let id = &found[k];
        assert(fv[k as int] == found@[k as int]@);
        proof {
            use_type_invariant(id);
        }
        let shifted = Identifier { token: id.token.clone(), case: id.case, offset: id.offset + pos };
        let ghost before = idents@.map_values(|i: Identifier| i@);
        idents.push(shifted);
        assert(idents@.map_values(|i: Identifier| i@) =~= before + seq![shifted@]);
        k = k + 1;
    }
    idents
}

impl Tokenizer {
    /// The identifiers in a byte buffer; invalid UTF-8 sequences separate identifiers.
    pub fn parse_bytes(&self, content: &[u8]) -> (idents: Vec<Identifier>)
        ensures
            idents@.map_values(|i: Identifier| i@) == spec_parse_bytes(self@, content@),
    {
        let n = content.len();
        let mut idents: Vec<Identifier> = Vec::new();
        let mut pos: usize = 0;
        let ghost chunks = chunks_from(content@, 0);
        let ghost mut k: int = 0;
        while pos < n
            invariant
                n == content@.len(),
                pos <= n,
                0 <= k <= chunks.len(),
                chunks == chunks_from(content@, 0),
                chunks_from(content@, pos as int) == chunks.subrange(k, chunks.len() as int),
                idents@.map_values(|i: Identifier| i@) + chunk_idents(self@, chunks, k)
                    == spec_parse_bytes(self@, content@),
            decreases n - pos,
        {
            let ghost before = idents@.map_values(|i: Identifier| i@);
            let slice = &content[pos..n];
            assert(slice@ =~= content@.skip(pos as int));
            let ghost cf = chunks_from(content@, pos as int);
            assert(cf.len() > 0);
            assert(k < chunks.len());
            assert(chunks[k] == cf[0]);
            match validate_utf8(slice) {
                Ok(s) => {
                    proof {
                        encode_utf8_decode_utf8(s@);
                    }
                    let mut found = chunk_identifiers(self, s, pos, n);
                    idents.append(&mut found);
                    proof {
                        assert(chunk_idents(self@, chunks, k + 1) =~= Seq::<TokenView>::empty());
                        assert(idents@.map_values(|i: Identifier| i@) =~= before + shift_views(
                            spec_parse_text(self@, chunks[k].1),
                            chunks[k].0,
                        ));
                    }
                    return idents;
                },
                Err((v, e)) => {
                    let prefix = &content[pos..pos + v];
                    assert(prefix@ =~= content@.skip(pos as int).take(v as int));
                    match validate_utf8(prefix) {
                        Ok(s) => {
                            proof {
                                encode_utf8_decode_utf8(s@);
                            }
                            let mut found = chunk_identifiers(self, s, pos, n);
                            idents.append(&mut found);
                            let ghost after = idents@.map_values(|i: Identifier| i@);
                            assert(after =~= before + shift_views(
                                spec_parse_text(self@, chunks[k].1),
                                chunks[k].0,
                            ));
                            match e {
                                Some(len) => {
                                    assert(cf == seq![cf[0]] + chunks_from(content@, pos + v + len));
                                    assert(chunks_from(content@, pos + v + len) =~= cf.drop_first());
                                    assert(cf.drop_first() =~= chunks.subrange(k + 1, chunks.len() as int));
                                    pos = pos + v + len;
                                    proof {
                                        k = k + 1;
                                    }
                                },
                                None => {
                                    assert(chunk_idents(self@, chunks, k + 1) =~= Seq::<
                                        TokenView,
                                    >::empty());
                                    return idents;
                                },
                            }
                        },
                        Err(_) => {
                            return idents;
                        },
                    }
                },
            }
        }
        proof {
            assert(chunk_idents(self@, chunks, k) =~= Seq::<TokenView>::empty());
        }
        idents
    }
}

// ---------------------------------------------------------------------------------------
// Laws of tokenizing
// ---------------------------------------------------------------------------------------

/// What the tokenizer never takes for an identifier: with leading digits allowed, a number
/// (ASCII digits and the separators `_` and `'` only) and, when hexadecimal is ignored, a
/// `0x` literal of hex digits and separators; without leading digits, anything starting
/// with an ASCII digit.
pub open spec fn kept_token(tok: (bool, bool), t: Seq<char>) -> bool {
    &&& t.len() > 0
    &&& tok.0 ==> exists|k: int|
        0 <= k < t.len() && !(('0' <= #[trigger] t[k] && t[k] <= '9') || t[k] == '_' || t[k] == '\'')
    &&& (tok.0 && tok.1 && t.len() >= 3 && t[0] == '0' && t[1] == 'x') ==> exists|k: int|
        2 <= k < t.len() && !(('0' <= #[trigger] t[k] && t[k] <= '9') || ('a' <= t[k] && t[k] <= 'f') || (
        'A' <= t[k] && t[k] <= 'F') || t[k] == '_' || t[k] == '\'')
    &&& !tok.0 ==> !('0' <= t[0] && t[0] <= '9')
}

/// An identifier found in `text`: a maximal run of identifier characters at character
/// position `s`, reported at its byte offset and with no case yet.
pub open spec fn found_at(text: Seq<char>, id: TokenView, s: int) -> bool {
    let e = s + id.0.len();
    &&& 0 <= s && e <= text.len()
    &&& text.subrange(s, e) == id.0
    &&& id.1 == Case::NoCase
    &&& id.2 == byte_len(text.take(s))
    &&& forall|k: int| s <= k < e ==> spec_xid_continue(#[trigger] text[k])
    &&& (s == 0 || !spec_xid_continue(text[s - 1]))
    &&& (e == text.len() || !spec_xid_continue(text[e]))
}

/// The literal runs are maximal: each is a run of `true` with no `true` just before or
/// just after it.
proof fn lemma_literals_maximal(xid: Seq<bool>, i: int)
    requires
        0 <= i <= xid.len(),
        i == 0 || i == xid.len() || !xid[i - 1] || !xid[i],
    ensures
        forall|j: int|
            #![trigger literals_from(xid, i)[j]]
            0 <= j < literals_from(xid, i).len() ==> {
                let (s, e) = literals_from(xid, i)[j];
                &&& i <= s < e <= xid.len()
                &&& (s == 0 || !xid[s - 1])
                &&& (e == xid.len() || !xid[e])
                &&& forall|k: int| s <= k < e ==> xid[k]
            },
    decreases xid.len() - i,
{
    if i < xid.len() {
        if !xid[i] {
            lemma_literals_maximal(xid, i + 1);
            assert(literals_from(xid, i) == literals_from(xid, i + 1));
        } else {
            lemma_run_end(xid, i);
            let e = run_end(xid, i);
            lemma_literals_maximal(xid, e);
            let rest = literals_from(xid, e);
            assert(literals_from(xid, i) == seq![(i, e)] + rest);
            assert forall|j: int|
                #![trigger literals_from(xid, i)[j]]
                0 <= j < literals_from(xid, i).len() implies {
                    let (s, e2) = literals_from(xid, i)[j];
                    &&& i <= s < e2 <= xid.len()
                    &&& (s == 0 || !xid[s - 1])
                    &&& (e2 == xid.len() || !xid[e2])
                    &&& forall|k: int| s <= k < e2 ==> xid[k]
                } by {
                if j > 0 {
                    assert(literals_from(xid, i)[j] == rest[j - 1]);
                }
            }
        }
    }
}

proof fn lemma_idents_from_laws(tok: (bool, bool), text: Seq<char>, spans: Seq<(int, int)>, k: int)
    requires
        0 <= k,
        forall|j: int|
            #![trigger spans[j]]
            0 <= j < spans.len() ==> {
                let (s, e) = spans[j];
                &&& 0 <= s < e <= text.len()
                &&& (s == 0 || !xid_flags(text)[s - 1])
                &&& (e == text.len() || !xid_flags(text)[e])
                &&& forall|m: int| s <= m < e ==> xid_flags(text)[m]
            },
    ensures
        forall|j: int|
            #![trigger idents_from(tok, text, spans, k)[j]]
            0 <= j < idents_from(tok, text, spans, k).len() ==> kept_token(
                tok,
                idents_from(tok, text, spans, k)[j].0,
            ) && exists|s: int| found_at(text, idents_from(tok, text, spans, k)[j], s),
    decreases spans.len() - k,
{
    if k < spans.len() {
        lemma_idents_from_laws(tok, text, spans, k + 1);
        let r = idents_from(tok, text, spans, k);
        let rest = idents_from(tok, text, spans, k + 1);
        let (s, e) = spans[k];
        let t = text.subrange(s, e);
        if spec_keep(tok, t) {
            let id = (t, Case::NoCase, byte_len(text.take(s)) as int);
            assert(r == seq![id] + rest);
            assert(kept_token(tok, t)) by {
                if tok.0 {
                    assert(!spec_is_number(t));
                    let m = choose|m: int| 0 <= m < t.len() && !(is_ascii_digit_char(#[trigger] t[m]) || is_digit_sep(t[m]));
                    assert(!(('0' <= t[m] && t[m] <= '9') || t[m] == '_' || t[m] == '\''));
                    if tok.1 && t.len() >= 3 && t[0] == '0' && t[1] == 'x' {
                        assert(!spec_is_hex(t));
                        let m2 = choose|m2: int| 2 <= m2 < t.len() && !(is_hex_digit(#[trigger] t[m2]) || is_digit_sep(t[m2]));
                        assert(!(('0' <= t[m2] && t[m2] <= '9') || ('a' <= t[m2] && t[m2] <= 'f') || ('A' <= t[m2] && t[m2] <= 'F') || t[m2] == '_' || t[m2] == '\''));
                    }
                }
            }
            assert(found_at(text, id, s)) by {
                assert forall|m: int| s <= m < e implies spec_xid_continue(#[trigger] text[m]) by {
                    assert(xid_flags(text)[m]);
                }
                if s > 0 {
                    assert(!xid_flags(text)[s - 1]);
                }
                if e < text.len() {
                    assert(!xid_flags(text)[e]);
                }
            }
            assert forall|j: int|
                #![trigger r[j]]
                0 <= j < r.len() implies kept_token(tok, r[j].0) && exists|s2: int| found_at(text, r[j], s2) by {
                if j == 0 {
                    assert(r[0] == id);
                } else {
                    assert(r[j] == rest[j - 1]);
                }
            }
        } else {
            assert(r == rest);
        }
    }
}

/// What the tokenizer finds in a text: each identifier is a maximal run of identifier
/// characters of the text, at its byte offset, with no case yet; and none is a number
/// (with leading digits allowed), a hexadecimal literal (when those are ignored), or starts
/// with a digit (without leading digits).
pub proof fn lemma_parse_text_laws(tok: (bool, bool), text: Seq<char>)
    ensures
        forall|j: int|
            #![trigger spec_parse_text(tok, text)[j]]
            0 <= j < spec_parse_text(tok, text).len() ==> kept_token(tok, spec_parse_text(tok, text)[j].0)
                && exists|s: int| found_at(text, spec_parse_text(tok, text)[j], s),
{
    let xid = xid_flags(text);
    lemma_literals_maximal(xid, 0);
    lemma_idents_from_laws(tok, text, literals_from(xid, 0), 0);
}

proof fn lemma_run_end_exact(xid: Seq<bool>, i: int, e: int)
    requires
        0 <= i <= e <= xid.len(),
        forall|k: int| i <= k < e ==> xid[k],
        e == xid.len() || !xid[e],
    ensures
        run_end(xid, i) == e,
    decreases xid.len() - i,
{
    if i < e {
        lemma_run_end_exact(xid, i + 1, e);
    }
}

/// Every maximal run of `true` from `i` on is one of the literal runs.
proof fn lemma_literals_complete(xid: Seq<bool>, i: int, s: int, e: int)
    requires
        0 <= i <= s < e <= xid.len(),
        i == 0 || i == xid.len() || !xid[i - 1] || !xid[i],
        forall|k: int| s <= k < e ==> xid[k],
        s == 0 || !xid[s - 1],
        e == xid.len() || !xid[e],
    ensures
        exists|j: int| 0 <= j < literals_from(xid, i).len() && #[trigger] literals_from(xid, i)[j] == (s, e),
    decreases xid.len() - i,
{
    if !xid[i] {
        assert(s != i);
        lemma_literals_complete(xid, i + 1, s, e);
        assert(literals_from(xid, i) == literals_from(xid, i + 1));
    } else {
        lemma_run_end(xid, i);
        let re = run_end(xid, i);
        let rest = literals_from(xid, re);
        assert(literals_from(xid, i) == seq![(i, re)] + rest);
        if s == i {
            lemma_run_end_exact(xid, i, e);
            assert(literals_from(xid, i)[0] == (s, e));
        } else {
            assert(s >= re) by {
                if s < re {
                    assert(xid[s - 1]);
                }
            }
            assert(s > re) by {
                if s == re && re < xid.len() {
                    assert(!xid[re]);
                }
            }
            lemma_literals_complete(xid, re, s, e);
            let j = choose|j: int| 0 <= j < rest.len() && #[trigger] rest[j] == (s, e);
            assert(literals_from(xid, i)[j + 1] == rest[j]);
        }
    }
}

proof fn lemma_idents_from_complete(tok: (bool, bool), text: Seq<char>, spans: Seq<(int, int)>, k: int, k0: int)
    requires
        0 <= k <= k0 < spans.len(),
        spec_keep(tok, text.subrange(spans[k0].0, spans[k0].1)),
    ensures
        exists|j: int|
            0 <= j < idents_from(tok, text, spans, k).len() && #[trigger] idents_from(tok, text, spans, k)[j] == (
                text.subrange(spans[k0].0, spans[k0].1),
                Case::NoCase,
                byte_len(text.take(spans[k0].0)) as int,
            ),
    decreases k0 - k,
{
    let r = idents_from(tok, text, spans, k);
    let rest = idents_from(tok, text, spans, k + 1);
    let t = text.subrange(spans[k].0, spans[k].1);
    let target = (text.subrange(spans[k0].0, spans[k0].1), Case::NoCase, byte_len(text.take(spans[k0].0)) as int);
    if k == k0 {
        assert(r == seq![target] + rest);
        assert(r[0] == target);
    } else {
        lemma_idents_from_complete(tok, text, spans, k + 1, k0);
        let j = choose|j: int| 0 <= j < rest.len() && #[trigger] rest[j] == target;
        if spec_keep(tok, t) {
            assert(r == seq![(t, Case::NoCase, byte_len(text.take(spans[k].0)) as int)] + rest);
            assert(r[j + 1] == rest[j]);
        } else {
            assert(r == rest);
        }
    }
}

/// The tokenizer misses nothing: every maximal run of identifier characters in a text that
/// is not a number, a hexadecimal literal or a leading-digit word (as `kept_token` says
/// for the settings) is found, at its byte offset.
pub proof fn lemma_parse_text_complete(tok: (bool, bool), text: Seq<char>, s: int, e: int)
    requires
        0 <= s < e <= text.len(),
        forall|k: int| s <= k < e ==> spec_xid_continue(#[trigger] text[k]),
        s == 0 || !spec_xid_continue(text[s - 1]),
        e == text.len() || !spec_xid_continue(text[e]),
        kept_token(tok, text.subrange(s, e)),
    ensures
        exists|j: int|
            0 <= j < spec_parse_text(tok, text).len() && #[trigger] spec_parse_text(tok, text)[j] == (
                text.subrange(s, e),
                Case::NoCase,
                byte_len(text.take(s)) as int,
            ),
{
    let xid = xid_flags(text);
    let t = text.subrange(s, e);
    assert forall|k: int| s <= k < e implies xid[k] by {
        assert(spec_xid_continue(text[k]));
    }
    lemma_literals_complete(xid, 0, s, e);
    let spans = literals_from(xid, 0);
    let k0 = choose|j: int| 0 <= j < spans.len() && #[trigger] spans[j] == (s, e);
    assert(spec_keep(tok, t)) by {
        if tok.0 {
            let m = choose|m: int| 0 <= m < t.len() && !(('0' <= #[trigger] t[m] && t[m] <= '9') || t[m] == '_' || t[m] == '\'');
            assert(!(is_ascii_digit_char(t[m]) || is_digit_sep(t[m])));
            if tok.1 && spec_is_hex(t) {
                let m2 = choose|m2: int| 2 <= m2 < t.len() && !(('0' <= #[trigger] t[m2] && t[m2] <= '9') || ('a' <= t[m2] && t[m2] <= 'f') || ('A' <= t[m2] && t[m2] <= 'F') || t[m2] == '_' || t[m2] == '\'');
                assert(!(is_hex_digit(t[m2]) || is_digit_sep(t[m2])));
            }
        }
    }
    lemma_idents_from_complete(tok, text, spans, 0, k0);
    assert(spans[k0].0 == s && spans[k0].1 == e);
    let found = idents_from(tok, text, spans, 0);
    assert(found == spec_parse_text(tok, text));
    let j = choose|j: int|
        0 <= j < found.len() && #[trigger] found[j] == (
            text.subrange(spans[k0].0, spans[k0].1),
            Case::NoCase,
            byte_len(text.take(spans[k0].0)) as int,
        );
    assert(found[j] == (text.subrange(s, e), Case::NoCase, byte_len(text.take(s)) as int));
}

proof fn lemma_chunk_idents_kept(tok: (bool, bool), chunks: Seq<(int, Seq<char>)>, k: int)
    requires
        0 <= k,
    ensures
        forall|j: int|
            #![trigger chunk_idents(tok, chunks, k)[j]]
            0 <= j < chunk_idents(tok, chunks, k).len() ==> kept_token(tok, chunk_idents(tok, chunks, k)[j].0)
                && chunk_idents(tok, chunks, k)[j].1 == Case::NoCase,
    decreases chunks.len() - k,
{
    if k < chunks.len() {
        lemma_chunk_idents_kept(tok, chunks, k + 1);
        lemma_parse_text_laws(tok, chunks[k].1);
        let here = spec_parse_text(tok, chunks[k].1);
        let sh = shift_views(here, chunks[k].0);
        let rest = chunk_idents(tok, chunks, k + 1);
        let r = chunk_idents(tok, chunks, k);
        assert(r == sh + rest);
        assert forall|j: int|
            #![trigger r[j]]
            0 <= j < r.len() implies kept_token(tok, r[j].0) && r[j].1 == Case::NoCase by {
            if j < sh.len() {
                assert(r[j] == sh[j]);
                assert(sh[j].0 == here[j].0 && sh[j].1 == here[j].1);
                let s = choose|s: int| found_at(chunks[k].1, here[j], s);
            } else {
                assert(r[j] == rest[j - sh.len()]);
            }
        }
    }
}

/// Every identifier found in a byte buffer obeys the same rules: none is a number (with
/// leading digits allowed), a hexadecimal literal (when those are ignored), or starts with
/// a digit (without leading digits), and none has a case yet.
pub proof fn lemma_parse_bytes_kept(tok: (bool, bool), bytes: Seq<u8>)
    ensures
        forall|j: int|
            #![trigger spec_parse_bytes(tok, bytes)[j]]
            0 <= j < spec_parse_bytes(tok, bytes).len() ==> kept_token(tok, spec_parse_bytes(tok, bytes)[j].0)
                && spec_parse_bytes(tok, bytes)[j].1 == Case::NoCase,
{
    lemma_chunk_idents_kept(tok, chunks_from(bytes, 0), 0);
}

// ---------------------------------------------------------------------------------------
// Laws of splitting
// ---------------------------------------------------------------------------------------

/// Every mode in `m[s..e]` is `md`.
pub open spec fn all_mode(m: Seq<WordMode>, s: int, e: int, md: WordMode) -> bool {
    forall|k: int| s <= k < e ==> #[trigger] m[k] == md
}

/// `m[s..e]` is one word of case `c`: all lowercase (lower case), all uppercase (upper
/// case), an uppercase letter then only lowercase ones (title case), or all ASCII digits (no
/// case).  So a word never mixes digits and letters, never holds a separator, and never
/// has a lowercase letter followed by an uppercase one.
pub open spec fn word_class(m: Seq<WordMode>, s: int, e: int, c: Case) -> bool {
    &&& 0 <= s < e <= m.len()
    &&& {
        ||| c == Case::Lower && all_mode(m, s, e, WordMode::Lowercase)
        ||| c == Case::Upper && all_mode(m, s, e, WordMode::Uppercase)
        ||| c == Case::Title && e - s >= 2 && m[s] == WordMode::Uppercase && all_mode(m, s + 1, e, WordMode::Lowercase)
        ||| c == Case::NoCase && all_mode(m, s, e, WordMode::Number)
    }
}

/// The shape of the word in progress `m[s..i]` that starts with mode `sm`.
spec fn progress_shape(m: Seq<WordMode>, s: int, i: int, sm: WordMode) -> bool {
    ||| all_mode(m, s, i, sm)
    ||| (sm == WordMode::Uppercase && i - s >= 2 && all_mode(m, s + 1, i, WordMode::Lowercase))
}

/// The state of the splitting scan at position `i`.
spec fn split_state(m: Seq<WordMode>, i: int, s: int, sm: WordMode, lm: WordMode) -> bool {
    &&& 0 <= i <= m.len()
    &&& sm == WordMode::Boundary ==> lm == WordMode::Boundary
    &&& sm != WordMode::Boundary ==> {
        &&& 0 <= s < i < m.len()
        &&& m[s] == sm
        &&& progress_shape(m, s, i, sm)
        &&& (lm == m[i - 1] || (lm == WordMode::Boundary && i == s + 1 && m[i] == WordMode::Lowercase
            && sm == WordMode::Uppercase))
        &&& !is_end_pair(m[i - 1], m[i])
        &&& (sm == WordMode::Uppercase && all_mode(m, s, i, sm) && i - s >= 2) ==> m[i] != WordMode::Lowercase
    }
}

proof fn lemma_split_from_classes(m: Seq<WordMode>, i: int, start: int, start_mode: WordMode, last_mode: WordMode)
    requires
        split_state(m, i, start, start_mode, last_mode),
    ensures
        forall|j: int|
            #![trigger split_from(m, i, start, start_mode, last_mode)[j]]
            0 <= j < split_from(m, i, start, start_mode, last_mode).len() ==> word_class(
                m,
                split_from(m, i, start, start_mode, last_mode)[j].0,
                split_from(m, i, start, start_mode, last_mode)[j].1,
                split_from(m, i, start, start_mode, last_mode)[j].2,
            ),
    decreases m.len() - i,
{
    let r = split_from(m, i, start, start_mode, last_mode);
    if i < m.len() {
        let cur = m[i];
        if cur == WordMode::Boundary {
            assert(start_mode == WordMode::Boundary) by {
                if start_mode != WordMode::Boundary {
                    assert(is_end_pair(m[i - 1], m[i]));
                }
            }
            lemma_split_from_classes(m, i + 1, start, start_mode, last_mode);
            assert(r == split_from(m, i + 1, start, start_mode, last_mode));
        } else {
            let s = if start_mode == WordMode::Boundary { i } else { start };
            let sm = if start_mode == WordMode::Boundary { cur } else { start_mode };
            // The word in progress, extended by the current character.
            assert(progress_shape(m, s, i + 1, sm) && m[s] == sm && 0 <= s <= i) by {
                if start_mode == WordMode::Boundary {
                    assert(all_mode(m, s, i + 1, sm));
                } else {
                    let prev = m[i - 1];
                    if all_mode(m, s, i, sm) {
                        assert(prev == sm);
                        if sm == WordMode::Lowercase || sm == WordMode::Number {
                            assert(cur == sm);
                            assert(all_mode(m, s, i + 1, sm));
                        } else {
                            assert(sm == WordMode::Uppercase);
                            if cur == WordMode::Uppercase {
                                assert(all_mode(m, s, i + 1, sm));
                            } else {
                                assert(cur == WordMode::Lowercase);
                                assert(i == s + 1);
                                assert(all_mode(m, s + 1, i + 1, WordMode::Lowercase));
                            }
                        }
                    } else {
                        assert(m[i - 1] == WordMode::Lowercase);
                        assert(cur == WordMode::Lowercase);
                        assert(all_mode(m, s + 1, i + 1, WordMode::Lowercase));
                    }
                }
            }
            // The word `m[s..i + 1]` has the class of its first and last characters.
            assert(word_class(m, s, i + 1, spec_case(sm, cur))) by {
                if all_mode(m, s, i + 1, sm) {
                    assert(m[i] == sm);
                } else {
                    assert(m[i] == WordMode::Lowercase);
                }
            }
            if i + 1 < m.len() {
                let next = m[i + 1];
                if is_end_pair(cur, next) {
                    let rest = split_from(m, i + 1, i + 1, WordMode::Boundary, WordMode::Boundary);
                    lemma_split_from_classes(m, i + 1, i + 1, WordMode::Boundary, WordMode::Boundary);
                    assert(r == seq![(s, i + 1, spec_case(sm, cur))] + rest);
                    assert forall|j: int|
                        #![trigger r[j]]
                        0 <= j < r.len() implies word_class(m, r[j].0, r[j].1, r[j].2) by {
                        if j > 0 {
                            assert(r[j] == rest[j - 1]);
                        }
                    }
                } else if last_mode == WordMode::Uppercase && cur == WordMode::Uppercase && next
                    == WordMode::Lowercase {
                    // An acronym followed by a title-case word: the acronym ends before `cur`.
                    assert(start_mode != WordMode::Boundary);
                    assert(last_mode == m[i - 1]);
                    assert(all_mode(m, s, i, WordMode::Uppercase)) by {
                        if !all_mode(m, s, i, sm) {
                            assert(m[i - 1] == WordMode::Lowercase);
                        } else if sm != WordMode::Uppercase {
                            assert(m[i - 1] == sm);
                        }
                    }
                    assert(word_class(m, s, i, Case::Upper));
                    let rest = split_from(m, i + 1, i, cur, WordMode::Boundary);
                    assert(all_mode(m, i, i + 1, cur));
                    lemma_split_from_classes(m, i + 1, i, cur, WordMode::Boundary);
                    assert(r == seq![(s, i, Case::Upper)] + rest);
                    assert forall|j: int|
                        #![trigger r[j]]
                        0 <= j < r.len() implies word_class(m, r[j].0, r[j].1, r[j].2) by {
                        if j > 0 {
                            assert(r[j] == rest[j - 1]);
                        }
                    }
                } else {
                    assert(split_state(m, i + 1, s, sm, cur)) by {
                        if sm == WordMode::Uppercase && all_mode(m, s, i + 1, sm) && i + 1 - s >= 2 {
                            assert(start_mode != WordMode::Boundary);
                            assert(m[i - 1] == WordMode::Uppercase);
                            assert(last_mode == m[i - 1]);
                        }
                    }
                    lemma_split_from_classes(m, i + 1, s, sm, cur);
                    assert(r == split_from(m, i + 1, s, sm, cur));
                }
            } else {
                assert(r == seq![(s, m.len() as int, spec_case(sm, cur))]);
                assert forall|j: int|
                    #![trigger r[j]]
                    0 <= j < r.len() implies word_class(m, r[j].0, r[j].1, r[j].2) by {
                    assert(r[j] == (s, m.len() as int, spec_case(sm, cur)));
                }
            }
        }
    }
}

/// Splitting a token into words: every word is a non-empty run of the token's characters
/// of one class (all lowercase, all uppercase, an uppercase letter then lowercase ones, or
/// all ASCII digits), with the case that class gives.  No word mixes digits with letters
/// (`99bottles` is `99` and `bottles`), holds a separator, or goes on from a lowercase
/// letter into an uppercase one.
pub proof fn lemma_split_words_are_runs(t: Seq<char>)
    ensures
        forall|j: int|
            #![trigger split_spans(modes_of(t))[j]]
            0 <= j < split_spans(modes_of(t)).len() ==> word_class(
                modes_of(t),
                split_spans(modes_of(t))[j].0,
                split_spans(modes_of(t))[j].1,
                split_spans(modes_of(t))[j].2,
            ),
{
    lemma_split_from_classes(modes_of(t), 0, 0, WordMode::Boundary, WordMode::Boundary);
}

/// Where two adjacent words meet at `e`, the characters on either side differ in kind: a
/// digit and a letter, a lowercase letter then an uppercase one, or two uppercase letters
/// where the second starts a title-case word (an acronym before a capitalised word).
pub open spec fn join_ok(m: Seq<WordMode>, e: int, next_case: Case) -> bool {
    ||| (m[e - 1] == WordMode::Number) != (m[e] == WordMode::Number)
    ||| (m[e - 1] == WordMode::Lowercase && m[e] == WordMode::Uppercase)
    ||| (m[e - 1] == WordMode::Uppercase && m[e] == WordMode::Uppercase && next_case == Case::Title)
}

/// The spans `r` are in order, apart, within `lo..m.len()`, cover every letter and digit
/// from `lo` on, and meet only where `join_ok` holds.
#[verifier::opaque]
pub open spec fn spans_partition(m: Seq<WordMode>, r: Seq<(int, int, Case)>, lo: int) -> bool {
    &&& forall|j: int| #![trigger r[j]] 0 <= j < r.len() ==> lo <= r[j].0 < r[j].1 <= m.len()
    &&& forall|j: int| #![trigger r[j]] 0 <= j && j + 1 < r.len() ==> r[j].1 <= r[j + 1].0
    &&& forall|k: int|
        lo <= k < m.len() && #[trigger] m[k] != WordMode::Boundary ==> exists|j: int|
            #![trigger r[j]]
            0 <= j < r.len() && r[j].0 <= k < r[j].1
    &&& forall|j: int|
        #![trigger r[j]]
        0 <= j && j + 1 < r.len() && r[j].1 == r[j + 1].0 ==> join_ok(m, r[j].1, r[j + 1].2)
}

proof fn lemma_partition_skip(m: Seq<WordMode>, r: Seq<(int, int, Case)>, lo: int)
    requires
        0 <= lo < m.len(),
        m[lo] == WordMode::Boundary,
        spans_partition(m, r, lo + 1),
    ensures
        spans_partition(m, r, lo),
{
    reveal(spans_partition);
}

proof fn lemma_partition_prepend(
    m: Seq<WordMode>,
    head: (int, int, Case),
    rest: Seq<(int, int, Case)>,
    lo: int,
    lo2: int,
)
    requires
        lo <= head.0 < head.1 <= lo2 <= m.len(),
        spans_partition(m, rest, lo2),
        forall|k: int| lo <= k < lo2 && #[trigger] m[k] != WordMode::Boundary ==> head.0 <= k < head.1,
        rest.len() > 0 && rest[0].0 == head.1 ==> join_ok(m, head.1, rest[0].2),
    ensures
        spans_partition(m, seq![head] + rest, lo),
{
    reveal(spans_partition);
    let r = seq![head] + rest;
    assert forall|j: int| #![trigger r[j]] 0 <= j < r.len() implies lo <= r[j].0 < r[j].1 <= m.len() by {
        if j > 0 {
            assert(r[j] == rest[j - 1]);
        }
    }
    assert forall|j: int| #![trigger r[j]] 0 <= j && j + 1 < r.len() implies r[j].1 <= r[j + 1].0 by {
        assert(r[j + 1] == rest[j]);
        if j > 0 {
            assert(r[j] == rest[j - 1]);
        }
    }
    assert forall|k: int|
        lo <= k < m.len() && #[trigger] m[k] != WordMode::Boundary implies exists|j: int|
            #![trigger r[j]]
            0 <= j < r.len() && r[j].0 <= k < r[j].1 by {
        if k < lo2 {
            assert(r[0] == head);
        } else {
            let j = choose|j: int| #![trigger rest[j]] 0 <= j < rest.len() && rest[j].0 <= k < rest[j].1;
            assert(r[j + 1] == rest[j]);
        }
    }
    assert forall|j: int|
        #![trigger r[j]]
        0 <= j && j + 1 < r.len() && r[j].1 == r[j + 1].0 implies join_ok(m, r[j].1, r[j + 1].2) by {
        assert(r[j + 1] == rest[j]);
        if j > 0 {
            assert(r[j] == rest[j - 1]);
        }
    }
}

/// After a word ends at `e` on an end pair, the next word does not start at `e` unless the
/// kinds differ there.
proof fn lemma_end_pair_join(m: Seq<WordMode>, e: int, c: Case)
    requires
        0 < e < m.len(),
        is_end_pair(m[e - 1], m[e]),
        m[e] != WordMode::Boundary,
    ensures
        join_ok(m, e, c),
{
}

#[verifier::rlimit(50)]
proof fn lemma_split_from_partition(m: Seq<WordMode>, i: int, start: int, start_mode: WordMode, last_mode: WordMode)
    requires
        split_state(m, i, start, start_mode, last_mode),
    ensures
        spans_partition(
            m,
            split_from(m, i, start, start_mode, last_mode),
            if start_mode != WordMode::Boundary { start } else { i },
        ),
        start_mode != WordMode::Boundary ==> split_from(m, i, start, start_mode, last_mode).len() > 0
            && split_from(m, i, start, start_mode, last_mode)[0].0 == start,
        start_mode == WordMode::Uppercase && ((i - start >= 2 && all_mode(m, start + 1, i, WordMode::Lowercase))
            || last_mode == WordMode::Boundary) ==> split_from(m, i, start, start_mode, last_mode).len() > 0
            && split_from(m, i, start, start_mode, last_mode)[0].2 == Case::Title,
    decreases m.len() - i,
{
    let r = split_from(m, i, start, start_mode, last_mode);
    if i >= m.len() {
        reveal(spans_partition);
        assert(r.len() == 0);
    } else {
        let cur = m[i];
        if cur == WordMode::Boundary {
            assert(start_mode == WordMode::Boundary) by {
                if start_mode != WordMode::Boundary {
                    assert(is_end_pair(m[i - 1], m[i]));
                }
            }
            lemma_split_from_partition(m, i + 1, start, start_mode, last_mode);
            assert(r == split_from(m, i + 1, start, start_mode, last_mode));
            lemma_partition_skip(m, r, i);
        } else {
            let s = if start_mode == WordMode::Boundary { i } else { start };
            let sm = if start_mode == WordMode::Boundary { cur } else { start_mode };
            assert(forall|k: int| s <= k <= i ==> #[trigger] m[k] != WordMode::Boundary) by {
                if start_mode != WordMode::Boundary {
                    assert forall|k: int| s <= k <= i implies #[trigger] m[k] != WordMode::Boundary by {
                        if k < i && !all_mode(m, s, i, sm) && k > s {
                            assert(m[k] == WordMode::Lowercase);
                        } else if k < i && all_mode(m, s, i, sm) {
                            assert(m[k] == sm);
                        }
                    }
                }
            }
            if i + 1 < m.len() {
                let next = m[i + 1];
                if is_end_pair(cur, next) {
                    let rest = split_from(m, i + 1, i + 1, WordMode::Boundary, WordMode::Boundary);
                    lemma_split_from_partition(m, i + 1, i + 1, WordMode::Boundary, WordMode::Boundary);
                    lemma_split_from_classes(m, i + 1, i + 1, WordMode::Boundary, WordMode::Boundary);
                    let head = (s, i + 1, spec_case(sm, cur));
                    assert(r == seq![head] + rest);
                    if rest.len() > 0 && rest[0].0 == i + 1 {
                        assert(word_class(m, rest[0].0, rest[0].1, rest[0].2));
                        assert(m[i + 1] != WordMode::Boundary);
                        lemma_end_pair_join(m, i + 1, rest[0].2);
                    }
                    lemma_partition_prepend(m, head, rest, s, i + 1);
                    if start_mode == WordMode::Uppercase && ((i - start >= 2 && all_mode(
                        m,
                        start + 1,
                        i,
                        WordMode::Lowercase,
                    )) || last_mode == WordMode::Boundary) {
                        if last_mode == WordMode::Boundary {
                            assert(m[i] == WordMode::Lowercase);
                        } else {
                            assert(m[i - 1] == WordMode::Lowercase);
                        }
                        assert(cur == WordMode::Lowercase);
                    }
                } else if last_mode == WordMode::Uppercase && cur == WordMode::Uppercase && next
                    == WordMode::Lowercase {
                    let rest = split_from(m, i + 1, i, cur, WordMode::Boundary);
                    assert(all_mode(m, i, i + 1, cur));
                    lemma_split_from_partition(m, i + 1, i, cur, WordMode::Boundary);
                    let head = (s, i, Case::Upper);
                    assert(r == seq![head] + rest);
                    assert(start_mode != WordMode::Boundary);
                    assert(last_mode == m[i - 1]);
                    lemma_partition_prepend(m, head, rest, s, i);
                    if start_mode == WordMode::Uppercase && i - start >= 2 && all_mode(m, start + 1, i, WordMode::Lowercase) {
                        assert(m[i - 1] == WordMode::Lowercase);
                    }
                } else {
                    assert(split_state(m, i + 1, s, sm, cur)) by {
                        assert(progress_shape(m, s, i + 1, sm)) by {
                            if start_mode == WordMode::Boundary {
                                assert(all_mode(m, s, i + 1, sm));
                            } else if all_mode(m, s, i, sm) {
                                assert(m[i - 1] == sm);
                                if cur == sm {
                                    assert(all_mode(m, s, i + 1, sm));
                                } else {
                                    assert(i == s + 1);
                                    assert(all_mode(m, s + 1, i + 1, WordMode::Lowercase));
                                }
                            } else {
                                assert(m[i - 1] == WordMode::Lowercase);
                                assert(all_mode(m, s + 1, i + 1, WordMode::Lowercase));
                            }
                        }
                        if sm == WordMode::Uppercase && all_mode(m, s, i + 1, sm) && i + 1 - s >= 2 {
                            assert(m[i - 1] == WordMode::Uppercase);
                            assert(last_mode == m[i - 1]);
                        }
                    }
                    lemma_split_from_partition(m, i + 1, s, sm, cur);
                    assert(r == split_from(m, i + 1, s, sm, cur));
                    if sm == WordMode::Uppercase && ((i - start >= 2 && all_mode(m, start + 1, i, WordMode::Lowercase))
                        || last_mode == WordMode::Boundary) && start_mode != WordMode::Boundary {
                        if last_mode == WordMode::Boundary {
                            assert(m[i] == WordMode::Lowercase);
                        } else {
                            assert(m[i - 1] == WordMode::Lowercase);
                            assert(cur == WordMode::Lowercase);
                        }
                        assert(all_mode(m, s + 1, i + 1, WordMode::Lowercase));
                    }
                }
            } else {
                let head = (s, m.len() as int, spec_case(sm, cur));
                assert(r == seq![head] + Seq::<(int, int, Case)>::empty());
                assert(spans_partition(m, Seq::<(int, int, Case)>::empty(), m.len() as int)) by {
                    reveal(spans_partition);
                }
                lemma_partition_prepend(m, head, Seq::<(int, int, Case)>::empty(), s, m.len() as int);
                if start_mode == WordMode::Uppercase && ((i - start >= 2 && all_mode(m, start + 1, i, WordMode::Lowercase))
                    || last_mode == WordMode::Boundary) {
                    if last_mode == WordMode::Boundary {
                        assert(m[i] == WordMode::Lowercase);
                    } else {
                        assert(m[i - 1] == WordMode::Lowercase);
                    }
                }
            }
        }
    }
}

/// Splitting a token into words covers it: the words come in order, apart, and every
/// letter and digit of the token lies in one of them; two words meet only where the kind
/// of character changes (a digit and a letter, a lowercase then an uppercase letter, or an
/// acronym before a capitalised word).
pub proof fn lemma_split_words_partition(t: Seq<char>)
    ensures
        ({
            let m = modes_of(t);
            let r = split_spans(m);
            &&& forall|j: int| #![trigger r[j]] 0 <= j < r.len() ==> 0 <= r[j].0 < r[j].1 <= m.len()
            &&& forall|j: int| #![trigger r[j]] 0 <= j && j + 1 < r.len() ==> r[j].1 <= r[j + 1].0
            &&& forall|k: int|
                0 <= k < m.len() && #[trigger] m[k] != WordMode::Boundary ==> exists|j: int|
                    #![trigger r[j]]
                    0 <= j < r.len() && r[j].0 <= k < r[j].1
            &&& forall|j: int|
                #![trigger r[j]]
                0 <= j && j + 1 < r.len() && r[j].1 == r[j + 1].0 ==> join_ok(m, r[j].1, r[j + 1].2)
        }),
{
    lemma_split_from_partition(modes_of(t), 0, 0, WordMode::Boundary, WordMode::Boundary);
    assert(spans_partition(modes_of(t), split_spans(modes_of(t)), 0));
    reveal(spans_partition);
}

/// The words of a token, in terms of its text: each word is the characters of its span,
/// with the span's case, and its bytes are the token's bytes from the word's offset on:
/// it starts at the token's offset plus the bytes before it and ends where the token's
/// bytes up to the span's end end, inside the token.
pub proof fn lemma_split_words_text(t: Seq<char>, off: int)
    ensures
        spec_split_words(t, off).len() == split_spans(modes_of(t)).len(),
        forall|j: int|
            #![trigger spec_split_words(t, off)[j]]
            0 <= j < spec_split_words(t, off).len() ==> {
                let w = spec_split_words(t, off)[j];
                let sp = split_spans(modes_of(t))[j];
                &&& w.0 == t.subrange(sp.0, sp.1)
                &&& w.1 == sp.2
                &&& off <= w.2
                &&& w.2 + byte_len(w.0) == off + byte_len(t.take(sp.1))
                &&& w.2 + byte_len(w.0) <= off + byte_len(t)
            },
{
    let m = modes_of(t);
    lemma_split_from_classes(m, 0, 0, WordMode::Boundary, WordMode::Boundary);
    assert forall|j: int|
        #![trigger spec_split_words(t, off)[j]]
        0 <= j < spec_split_words(t, off).len() implies {
            let w = spec_split_words(t, off)[j];
            let sp = split_spans(modes_of(t))[j];
            &&& w.0 == t.subrange(sp.0, sp.1)
            &&& w.1 == sp.2
            &&& off <= w.2
            &&& w.2 + byte_len(w.0) == off + byte_len(t.take(sp.1))
            &&& w.2 + byte_len(w.0) <= off + byte_len(t)
        } by {
        let sp = split_spans(m)[j];
        assert(word_class(m, sp.0, sp.1, sp.2));
        assert(t.take(sp.1) =~= t.take(sp.0) + t.subrange(sp.0, sp.1));
        lemma_byte_len_concat(t.take(sp.0), t.subrange(sp.0, sp.1));
        lemma_byte_len_take_mono(t, sp.1, t.len() as int);
        assert(t.take(t.len() as int) =~= t);
    }
}

} // verus!
