//! Finding the typos in a buffer.

use vstd::prelude::*;

use crate::dict::{Dictionary, Status, StatusView, opt_status_view};
use crate::tokens::{
    byte_len, spec_parse_bytes, spec_parse_text, spec_split, Identifier, TokenView, Tokenizer,
    Word,
};

verus! {

/// An invalid term found in a buffer.
#[derive(Debug)]
pub struct Typo {
    pub byte_offset: usize,
    pub typo: String,
    pub corrections: Status,
}

/// `(byte_offset, typo, corrections)`.
pub type TypoView = (int, Seq<char>, StatusView);

impl View for Typo {
    type V = TypoView;

    open spec fn view(&self) -> TypoView {
        (self.byte_offset as int, self.typo@, self.corrections@)
    }
}

impl Typo {
    /// A typo that owns its text.
    pub fn into_owned(self) -> (r: Typo)
        ensures
            r@ == self@,
    {
        Typo { byte_offset: self.byte_offset, typo: self.typo, corrections: self.corrections.into_owned() }
    }

    /// A typo with the same content.
    pub fn borrow(&self) -> (r: Typo)
        ensures
            r@ == self@,
    {
        Typo {
            byte_offset: self.byte_offset,
            typo: self.typo.clone(),
            corrections: self.corrections.borrow(),
        }
    }
}

impl Clone for Typo {
    fn clone(&self) -> (r: Typo)
        ensures
            r@ == self@,
    {
        self.borrow()
    }
}

impl Default for Typo {
    fn default() -> (r: Typo)
        ensures
            r@ == (0int, Seq::<char>::empty(), StatusView::Invalid),
    {
        Typo { byte_offset: 0, typo: String::new(), corrections: Status::Invalid }
    }
}

/// The typo reported for a term from what the dictionary says of it: none for a valid or
/// unknown term.
pub open spec fn typo_for(term: TokenView, status: Option<StatusView>) -> Seq<TypoView> {
    match status {
        Some(StatusView::Valid) => seq![],
        Some(s) => seq![(term.2, term.0, s)],
        None => seq![],
    }
}

/// The typos among the words `words[k..]`.
pub open spec fn word_typos<D: Dictionary>(d: &D, words: Seq<TokenView>, k: int) -> Seq<TypoView>
    decreases words.len() - k,
{
    if k < 0 || k >= words.len() {
        seq![]
    } else {
        typo_for(words[k], d.spec_correct_word(words[k])) + word_typos(d, words, k + 1)
    }
}

/// The typos of an identifier: what the dictionary says of the whole identifier, or, when
/// it does not know it, the typos among its words.
pub open spec fn ident_typos<D: Dictionary>(d: &D, ident: TokenView) -> Seq<TypoView> {
    match d.spec_correct_ident(ident) {
        Some(StatusView::Valid) => seq![],
        Some(s) => seq![(ident.2, ident.0, s)],
        None => word_typos(d, spec_split(ident), 0),
    }
}

/// The typos among the identifiers `idents[k..]`.
pub open spec fn idents_typos<D: Dictionary>(d: &D, idents: Seq<TokenView>, k: int) -> Seq<TypoView>
    decreases idents.len() - k,
{
    if k < 0 || k >= idents.len() {
        seq![]
    } else {
        ident_typos(d, idents[k]) + idents_typos(d, idents, k + 1)
    }
}

/// The typos in a text.
pub open spec fn spec_check_text<D: Dictionary>(d: &D, tok: (bool, bool), text: Seq<char>) -> Seq<
    TypoView,
> {
    idents_typos(d, spec_parse_text(tok, text), 0)
}

/// The typos in a byte buffer.
pub open spec fn spec_check_bytes<D: Dictionary>(d: &D, tok: (bool, bool), bytes: Seq<u8>) -> Seq<
    TypoView,
> {
    idents_typos(d, spec_parse_bytes(tok, bytes), 0)
}

pub open spec fn typos_view(v: Seq<Typo>) -> Seq<TypoView> {
    v.map_values(|t: Typo| t@)
}

fn process_word<D: Dictionary>(word: &Word, dictionary: &D) -> (r: Option<Typo>)
    ensures
        match r {
            Some(t) => typo_for(word@, dictionary.spec_correct_word(word@)) == seq![t@],
            None => typo_for(word@, dictionary.spec_correct_word(word@)) == Seq::<TypoView>::empty(),
        },
{
    match dictionary.correct_word(word) {
        Some(Status::Valid) => None,
        Some(corrections) => Some(
            Typo { byte_offset: word.offset(), typo: word.token().to_owned(), corrections },
        ),
        None => None,
    }
}

fn process_ident<D: Dictionary>(ident: &Identifier, dictionary: &D, typos: &mut Vec<Typo>)
    ensures
        typos_view(final(typos)@) == typos_view(old(typos)@) + ident_typos(dictionary, ident@),
{
    let ghost start = typos_view(typos@);
    match dictionary.correct_ident(ident) {
        Some(Status::Valid) => {
            assert(typos_view(typos@) =~= start + Seq::<TypoView>::empty());
        },
        Some(corrections) => {
            typos.push(
                Typo { byte_offset: ident.offset(), typo: ident.token().to_owned(), corrections },
            );
            assert(typos_view(typos@) =~= start + ident_typos(dictionary, ident@));
        },
        None => {
            let words = ident.split();
            let ghost wv = spec_split(ident@);
            let mut k: usize = 0;
            while k < words.len()
                invariant
                    k <= words@.len(),
                    words@.map_values(|w: Word| w@) == wv,
                    wv == spec_split(ident@),
                    dictionary.spec_correct_ident(ident@) is None,
                    typos_view(typos@) + word_typos(dictionary, wv, k as int) == start
                        + ident_typos(dictionary, ident@),
                decreases words@.len() - k,
            {
                assert(wv[k as int] == words@[k as int]@);
                let ghost before = typos_view(typos@);
                match process_word(&words[k], dictionary) {
                    Some(t) => {
                        typos.push(t);
                        assert(typos_view(typos@) =~= before + seq![t@]);
                    },
                    None => {},
                }
                assert(word_typos(dictionary, wv, k as int) == typo_for(
                    wv[k as int],
                    dictionary.spec_correct_word(wv[k as int]),
                ) + word_typos(dictionary, wv, k + 1));
                k = k + 1;
            }
            assert(word_typos(dictionary, wv, k as int) =~= Seq::<TypoView>::empty());
        },
    }
}

fn check_identifiers<D: Dictionary>(idents: &Vec<Identifier>, dictionary: &D) -> (typos: Vec<Typo>)
    ensures
        typos_view(typos@) == idents_typos(dictionary, idents@.map_values(|i: Identifier| i@), 0),
{
    let ghost iv = idents@.map_values(|i: Identifier| i@);
    let mut typos: Vec<Typo> = Vec::new();
    let mut k: usize = 0;
    while k < idents.len()
        invariant
            k <= idents@.len(),
            iv == idents@.map_values(|i: Identifier| i@),
            typos_view(typos@) + idents_typos(dictionary, iv, k as int) == idents_typos(
                dictionary,
                iv,
                0,
            ),
        decreases idents@.len() - k,
    {
        assert(iv[k as int] == idents@[k as int]@);
        let ghost before = typos_view(typos@);
        process_ident(&idents[k], dictionary, &mut typos);
        assert(idents_typos(dictionary, iv, k as int) == ident_typos(dictionary, iv[k as int])
            + idents_typos(dictionary, iv, k + 1));
        k = k + 1;
    }
    assert(typos_view(typos@) =~= idents_typos(dictionary, iv, 0));
    typos
}

/// The typos in a string.
pub fn check_str<D: Dictionary>(buffer: &str, tokenizer: &Tokenizer, dictionary: &D) -> (typos: Vec<
    Typo,
>)
    requires
        byte_len(buffer@) <= usize::MAX,
    ensures
        typos_view(typos@) == spec_check_text(dictionary, tokenizer@, buffer@),
{
    let idents = tokenizer.parse_str(buffer);
    check_identifiers(&idents, dictionary)
}

/// The typos in a byte buffer.
pub fn check_bytes<D: Dictionary>(buffer: &[u8], tokenizer: &Tokenizer, dictionary: &D) -> (typos: Vec<
    Typo,
>)
    ensures
        typos_view(typos@) == spec_check_bytes(dictionary, tokenizer@, buffer@),
{
    let idents = tokenizer.parse_bytes(buffer);
    check_identifiers(&idents, dictionary)
}

// ---------------------------------------------------------------------------------------
// Laws of checking
// ---------------------------------------------------------------------------------------

/// A status that makes a term a typo: anything but valid.
pub open spec fn is_typo_status(s: Option<StatusView>) -> bool {
    s matches Some(st) && st != StatusView::Valid
}

/// The typos among words are exactly the words that the dictionary does not find valid
/// but knows: each reported typo is such a word, at its offset and with the dictionary's
/// status, and each such word is reported, in order.
pub proof fn lemma_word_typos<D: Dictionary>(d: &D, words: Seq<TokenView>, k: int)
    requires
        0 <= k <= words.len(),
    ensures
        forall|m: int|
            0 <= m < word_typos(d, words, k).len() ==> exists|j: int|
                #![trigger words[j]]
                k <= j < words.len() && is_typo_status(d.spec_correct_word(words[j]))
                    && #[trigger] word_typos(d, words, k)[m] == (
                    words[j].2,
                    words[j].0,
                    d.spec_correct_word(words[j])->0,
                ),
        forall|j: int|
            #![trigger words[j]]
            k <= j < words.len() && is_typo_status(d.spec_correct_word(words[j])) ==> exists|m: int|
                0 <= m < word_typos(d, words, k).len() && #[trigger] word_typos(d, words, k)[m] == (
                    words[j].2,
                    words[j].0,
                    d.spec_correct_word(words[j])->0,
                ),
        (forall|j: int|
            #![trigger words[j]]
            k <= j < words.len() ==> !is_typo_status(d.spec_correct_word(words[j]))) ==> word_typos(
            d,
            words,
            k,
        ).len() == 0,
    decreases words.len() - k,
{
    if k < words.len() {
        lemma_word_typos(d, words, k + 1);
        let head = typo_for(words[k], d.spec_correct_word(words[k]));
        let rest = word_typos(d, words, k + 1);
        let all = word_typos(d, words, k);
        assert(all == head + rest);
        assert forall|m: int| 0 <= m < all.len() implies exists|j: int|
            #![trigger words[j]]
            k <= j < words.len() && is_typo_status(d.spec_correct_word(words[j])) && #[trigger] all[m] == (
                words[j].2,
                words[j].0,
                d.spec_correct_word(words[j])->0,
            ) by {
            if m < head.len() {
                assert(all[m] == head[m]);
                assert(words[k] == words[k]);
            } else {
                assert(all[m] == rest[m - head.len()]);
            }
        }
        assert forall|j: int|
            #![trigger words[j]]
            k <= j < words.len() && is_typo_status(d.spec_correct_word(words[j])) implies exists|m: int|
                0 <= m < all.len() && #[trigger] all[m] == (
                    words[j].2,
                    words[j].0,
                    d.spec_correct_word(words[j])->0,
                ) by {
            if j == k {
                assert(all[0] == head[0]);
            } else {
                let m = choose|m: int|
                    0 <= m < rest.len() && #[trigger] rest[m] == (
                        words[j].2,
                        words[j].0,
                        d.spec_correct_word(words[j])->0,
                    );
                assert(all[m + head.len()] == rest[m]);
            }
        }
        if forall|j: int|
            #![trigger words[j]]
            k <= j < words.len() ==> !is_typo_status(d.spec_correct_word(words[j])) {
            assert(words[k] == words[k]);
        }
    }
}

/// The typos of an identifier: none when the dictionary finds the identifier valid (its
/// words are then not checked), exactly one for the whole identifier, at its offset, when
/// the dictionary knows it otherwise, and those of its words when it does not know it.
pub proof fn lemma_ident_typos<D: Dictionary>(d: &D, ident: TokenView)
    ensures
        d.spec_correct_ident(ident) == Some(StatusView::Valid) ==> ident_typos(d, ident).len() == 0,
        is_typo_status(d.spec_correct_ident(ident)) ==> ident_typos(d, ident) == seq![
            (ident.2, ident.0, d.spec_correct_ident(ident)->0),
        ],
        d.spec_correct_ident(ident) is None ==> ident_typos(d, ident) == word_typos(d, spec_split(ident), 0),
{
}

/// Checking identifiers concatenates the typos of each: every typo reported comes from one
/// of the identifiers, and an identifier that the dictionary finds valid contributes none.
pub proof fn lemma_idents_typos<D: Dictionary>(d: &D, idents: Seq<TokenView>, k: int)
    requires
        0 <= k <= idents.len(),
    ensures
        (forall|j: int|
            #![trigger idents[j]]
            k <= j < idents.len() ==> d.spec_correct_ident(idents[j]) == Some(StatusView::Valid))
            ==> idents_typos(d, idents, k).len() == 0,
        k < idents.len() ==> idents_typos(d, idents, k) == ident_typos(d, idents[k]) + idents_typos(
            d,
            idents,
            k + 1,
        ),
    decreases idents.len() - k,
{
    if k < idents.len() {
        lemma_idents_typos(d, idents, k + 1);
        lemma_ident_typos(d, idents[k]);
    }
}

} // verus!
