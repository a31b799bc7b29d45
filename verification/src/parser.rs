//! Parsers over a tokenizer and a dictionary: typos, identifiers and words of a buffer.

use vstd::prelude::*;

use crate::check::{check_bytes, check_str, spec_check_bytes, spec_check_text, typos_view, Typo};
use crate::dict::{Dictionary, NullDictionary};
use crate::tokens::{
    byte_len, spec_parse_bytes, spec_parse_text, spec_split, Identifier, TokenView, Tokenizer,
    Word,
};

verus! {

/// Chooses the tokenizer and dictionary of a parser.
pub struct ParserBuilder<'d, D> {
    tokenizer: Option<Tokenizer>,
    dictionary: &'d D,
}

/// Finds typos.
pub struct TyposParser<'d, D> {
    tokenizer: Tokenizer,
    dictionary: &'d D,
}

/// Finds identifiers.
pub struct IdentifiersParser {
    tokenizer: Tokenizer,
}

/// Finds words.
pub struct WordsParser {
    tokenizer: Tokenizer,
}

/// The tokenizer settings used when none is chosen.
pub open spec fn default_tokenizer() -> (bool, bool) {
    (false, true)
}

impl<'d, D> ParserBuilder<'d, D> {
    /// The chosen tokenizer's settings, if any.
    pub closed spec fn spec_tokenizer(&self) -> Option<(bool, bool)> {
        match self.tokenizer {
            Some(t) => Some(t@),
            None => None,
        }
    }

    pub closed spec fn spec_dictionary(&self) -> &'d D {
        self.dictionary
    }

    /// The settings of the tokenizer that built parsers use.
    pub open spec fn spec_effective_tokenizer(&self) -> (bool, bool) {
        match self.spec_tokenizer() {
            Some(t) => t,
            None => default_tokenizer(),
        }
    }

    fn effective_tokenizer(&self) -> (t: Tokenizer)
        ensures
            t@ == self.spec_effective_tokenizer(),
    {
        match &self.tokenizer {
            Some(t) => t.clone_settings(),
            None => Tokenizer::new(),
        }
    }

    pub fn tokenizer(self, tokenizer: &Tokenizer) -> (r: ParserBuilder<'d, D>)
        ensures
            r.spec_tokenizer() == Some(tokenizer@),
            r.spec_dictionary() == self.spec_dictionary(),
    {
        ParserBuilder { tokenizer: Some(tokenizer.clone_settings()), dictionary: self.dictionary }
    }

    pub fn dictionary<'d1, D1>(self, dictionary: &'d1 D1) -> (r: ParserBuilder<'d1, D1>)
        ensures
            r.spec_tokenizer() == self.spec_tokenizer(),
            r.spec_dictionary() == dictionary,
    {
        ParserBuilder { tokenizer: self.tokenizer, dictionary }
    }

    pub fn typos(&self) -> (p: TyposParser<'d, D>)
        ensures
            p.spec_tokenizer() == self.spec_effective_tokenizer(),
            p.spec_dictionary() == self.spec_dictionary(),
    {
        TyposParser { tokenizer: self.effective_tokenizer(), dictionary: self.dictionary }
    }

    pub fn identifiers(&self) -> (p: IdentifiersParser)
        ensures
            p.spec_tokenizer() == self.spec_effective_tokenizer(),
    {
        IdentifiersParser { tokenizer: self.effective_tokenizer() }
    }

    pub fn words(&self) -> (p: WordsParser)
        ensures
            p.spec_tokenizer() == self.spec_effective_tokenizer(),
    {
        WordsParser { tokenizer: self.effective_tokenizer() }
    }
}

impl ParserBuilder<'static, NullDictionary> {
    /// The default tokenizer and a dictionary that knows nothing.
    pub fn new() -> (r: ParserBuilder<'static, NullDictionary>)
        ensures
            r.spec_tokenizer() is None,
    {
        ParserBuilder { tokenizer: None, dictionary: &NullDictionary }
    }
}

impl<'d, D> TyposParser<'d, D> {
    pub closed spec fn spec_tokenizer(&self) -> (bool, bool) {
        self.tokenizer@
    }

    pub closed spec fn spec_dictionary(&self) -> &'d D {
        self.dictionary
    }
}

impl<'d, D: Dictionary> TyposParser<'d, D> {
    /// The typos in a string.
    pub fn parse_str(&self, buffer: &str) -> (typos: Vec<Typo>)
        requires
            byte_len(buffer@) <= usize::MAX,
        ensures
            typos_view(typos@) == spec_check_text(self.spec_dictionary(), self.spec_tokenizer(), buffer@),
    {
        check_str(buffer, &self.tokenizer, self.dictionary)
    }

    /// The typos in a byte buffer.
    pub fn parse_bytes(&self, buffer: &[u8]) -> (typos: Vec<Typo>)
        ensures
            typos_view(typos@) == spec_check_bytes(self.spec_dictionary(), self.spec_tokenizer(), buffer@),
    {
        check_bytes(buffer, &self.tokenizer, self.dictionary)
    }
}

pub open spec fn idents_view(v: Seq<Identifier>) -> Seq<TokenView> {
    v.map_values(|i: Identifier| i@)
}

pub open spec fn words_view(v: Seq<Word>) -> Seq<TokenView> {
    v.map_values(|w: Word| w@)
}

/// The words of the identifiers `idents[k..]`, in order.
pub open spec fn words_from(idents: Seq<TokenView>, k: int) -> Seq<TokenView>
    decreases idents.len() - k,
{
    if k < 0 || k >= idents.len() {
        seq![]
    } else {
        spec_split(idents[k]) + words_from(idents, k + 1)
    }
}

pub(crate) fn split_all(idents: &Vec<Identifier>) -> (words: Vec<Word>)
    ensures
        words_view(words@) == words_from(idents_view(idents@), 0),
{
    let ghost iv = idents_view(idents@);
    let mut words: Vec<Word> = Vec::new();
    let mut k: usize = 0;
    while k < idents.len()
        invariant
            k <= idents@.len(),
            iv == idents_view(idents@),
            words_view(words@) + words_from(iv, k as int) == words_from(iv, 0),
        decreases idents@.len() - k,
    {
        let mut split = idents[k].split();
        assert(iv[k as int] == idents@[k as int]@);
        let ghost before = words_view(words@);
        let ghost added = words_view(split@);
        words.append(&mut split);
        assert(words_view(words@) =~= before + added);
        assert(words_from(iv, k as int) == spec_split(iv[k as int]) + words_from(iv, k + 1));
        k = k + 1;
    }
    assert(words_from(iv, k as int) =~= Seq::<TokenView>::empty());
    assert(words_view(words@) =~= words_from(iv, 0));
    words
}

impl IdentifiersParser {
    pub closed spec fn spec_tokenizer(&self) -> (bool, bool) {
        self.tokenizer@
    }

    pub fn parse_str(&self, buffer: &str) -> (idents: Vec<Identifier>)
        requires
            byte_len(buffer@) <= usize::MAX,
        ensures
            idents_view(idents@) == spec_parse_text(self.spec_tokenizer(), buffer@),
    {
        self.tokenizer.parse_str(buffer)
    }

    pub fn parse_bytes(&self, buffer: &[u8]) -> (idents: Vec<Identifier>)
        ensures
            idents_view(idents@) == spec_parse_bytes(self.spec_tokenizer(), buffer@),
    {
        self.tokenizer.parse_bytes(buffer)
    }
}

impl WordsParser {
    pub closed spec fn spec_tokenizer(&self) -> (bool, bool) {
        self.tokenizer@
    }

    pub fn parse_str(&self, buffer: &str) -> (words: Vec<Word>)
        requires
            byte_len(buffer@) <= usize::MAX,
        ensures
            words_view(words@) == words_from(spec_parse_text(self.spec_tokenizer(), buffer@), 0),
    {
        let idents = self.tokenizer.parse_str(buffer);
        split_all(&idents)
    }

    pub fn parse_bytes(&self, buffer: &[u8]) -> (words: Vec<Word>)
        ensures
            words_view(words@) == words_from(spec_parse_bytes(self.spec_tokenizer(), buffer@), 0),
    {
        let idents = self.tokenizer.parse_bytes(buffer);
        split_all(&idents)
    }
}

} // verus!
