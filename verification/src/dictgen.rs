//! Generating and searching case-insensitive lookup tables of words.

use vstd::prelude::*;
use crate::tokens::{byte_len, lemma_byte_len_is_encoding_len};

pub mod write;
pub mod trie;

verus! {

/// Names a generated table and the type of its values.
#[derive(Debug, Clone, Copy)]
pub struct DictGen<'g> {
    name: &'g str,
    value_type: &'g str,
}

/// `(name, value_type)`.
impl<'g> View for DictGen<'g> {
    type V = (Seq<char>, Seq<char>);

    closed spec fn view(&self) -> (Seq<char>, Seq<char>) {
        (self.name@, self.value_type@)
    }
}

/// Generates a perfect-hash map.
#[derive(Debug, Clone, Copy)]
pub struct MapGen<'g> {
    gen: DictGen<'g>,
    unicase: bool,
    unicode: bool,
}

/// Generates a sorted table searched by bisection.
#[derive(Debug, Clone, Copy)]
pub struct OrderedMapGen<'g> {
    gen: DictGen<'g>,
    unicase: bool,
    unicode: bool,
}

/// Generates a trie of sorted tables.
#[derive(Debug, Clone, Copy)]
pub struct TrieGen<'g> {
    gen: DictGen<'g>,
    limit: usize,
}

/// Generates a `match` on the words.
#[derive(Debug, Clone, Copy)]
pub struct MatchGen<'g> {
    gen: DictGen<'g>,
}

/// Generates an Aho-Corasick automaton over the words.
#[derive(Debug, Clone, Copy)]
pub struct AhoCorasickGen<'g> {
    gen: DictGen<'g>,
}

/// Generates a sorted table of case-insensitive keys.
#[derive(Debug, Clone, Copy)]
pub struct DictTableGen<'g> {
    gen: DictGen<'g>,
}

/// `(generator, unicase, unicode)`.
impl<'g> View for MapGen<'g> {
    type V = ((Seq<char>, Seq<char>), bool, bool);

    closed spec fn view(&self) -> ((Seq<char>, Seq<char>), bool, bool) {
        (self.gen@, self.unicase, self.unicode)
    }
}

/// `(generator, unicase, unicode)`.
impl<'g> View for OrderedMapGen<'g> {
    type V = ((Seq<char>, Seq<char>), bool, bool);

    closed spec fn view(&self) -> ((Seq<char>, Seq<char>), bool, bool) {
        (self.gen@, self.unicase, self.unicode)
    }
}

/// `(generator, limit)`.
impl<'g> View for TrieGen<'g> {
    type V = ((Seq<char>, Seq<char>), usize);

    closed spec fn view(&self) -> ((Seq<char>, Seq<char>), usize) {
        (self.gen@, self.limit)
    }
}

impl<'g> View for MatchGen<'g> {
    type V = (Seq<char>, Seq<char>);

    closed spec fn view(&self) -> (Seq<char>, Seq<char>) {
        self.gen@
    }
}

impl<'g> View for AhoCorasickGen<'g> {
    type V = (Seq<char>, Seq<char>);

    closed spec fn view(&self) -> (Seq<char>, Seq<char>) {
        self.gen@
    }
}

impl<'g> View for DictTableGen<'g> {
    type V = (Seq<char>, Seq<char>);

    closed spec fn view(&self) -> (Seq<char>, Seq<char>) {
        self.gen@
    }
}

impl DictGen<'static> {
    /// A table named `DICT` of `&'static str` values.
    pub fn new() -> (g: DictGen<'static>)
        ensures
            g@ == ("DICT"@, "&'static str"@),
    {
        DictGen { name: "DICT", value_type: "&'static str" }
    }
}

impl<'g> DictGen<'g> {
    pub fn name<'n>(self, name: &'n str) -> (g: DictGen<'n>) where 'g: 'n
        ensures
            g@ == (name@, self@.1),
    {
        DictGen { name, value_type: self.value_type }
    }

    pub fn value_type<'t>(self, value_type: &'t str) -> (g: DictGen<'t>) where 'g: 't
        ensures
            g@ == (self@.0, value_type@),
    {
        DictGen { name: self.name, value_type }
    }

    /// A case-insensitive, Unicode-aware map generator.
    pub fn map(self) -> (m: MapGen<'g>)
        ensures
            m@ == (self@, true, true),
    {
        MapGen { gen: self, unicode: true, unicase: true }
    }

    /// A case-insensitive, Unicode-aware sorted table generator.
    pub fn ordered_map(self) -> (m: OrderedMapGen<'g>)
        ensures
            m@ == (self@, true, true),
    {
        OrderedMapGen { gen: self, unicode: true, unicase: true }
    }

    /// A trie generator that splits tables of 64 or more entries.
    pub fn trie(self) -> (t: TrieGen<'g>)
        ensures
            t@ == (self@, 64usize),
    {
        TrieGen { gen: self, limit: 64 }
    }

    pub fn match_gen(self) -> (m: MatchGen<'g>)
        ensures
            m@ == self@,
    {
        MatchGen { gen: self }
    }

    pub fn aho_corasick(self) -> (a: AhoCorasickGen<'g>)
        ensures
            a@ == self@,
    {
        AhoCorasickGen { gen: self }
    }

    pub fn table(self) -> (t: DictTableGen<'g>)
        ensures
            t@ == self@,
    {
        DictTableGen { gen: self }
    }
}

/// The type of the keys of a generated table.
pub open spec fn spec_key_type(unicase: bool, unicode: bool) -> Seq<char> {
    if unicase && unicode {
        "dictgen::InsensitiveStr<'static>"@
    } else if unicase {
        "dictgen::InsensitiveAscii<'static>"@
    } else {
        "&'static str"@
    }
}

fn key_type_of(unicase: bool, unicode: bool) -> (r: &'static str)
    ensures
        r@ == spec_key_type(unicase, unicode),
{
    match (unicase, unicode) {
        (true, true) => "dictgen::InsensitiveStr<'static>",
        (true, false) => "dictgen::InsensitiveAscii<'static>",
        (false, _) => "&'static str",
    }
}

impl<'g> MapGen<'g> {
    pub fn unicase(self, yes: bool) -> (m: MapGen<'g>)
        ensures
            m@ == (self@.0, yes, self@.2),
    {
        MapGen { unicase: yes, ..self }
    }

    pub fn unicode(self, yes: bool) -> (m: MapGen<'g>)
        ensures
            m@ == (self@.0, self@.1, yes),
    {
        MapGen { unicode: yes, ..self }
    }

    /// The type of the generated map's keys.
    pub fn key_type(&self) -> (r: &'static str)
        ensures
            r@ == spec_key_type(self@.1, self@.2),
    {
        key_type_of(self.unicase, self.unicode)
    }

    /// Whether keys ignore case, and whether they may hold non-ASCII text.
    pub fn key_settings(&self) -> (r: (bool, bool))
        ensures
            r == (self@.1, self@.2),
    {
        (self.unicase, self.unicode)
    }
}

impl<'g> OrderedMapGen<'g> {
    pub fn unicase(self, yes: bool) -> (m: OrderedMapGen<'g>)
        ensures
            m@ == (self@.0, yes, self@.2),
    {
        OrderedMapGen { unicase: yes, ..self }
    }

    pub fn unicode(self, yes: bool) -> (m: OrderedMapGen<'g>)
        ensures
            m@ == (self@.0, self@.1, yes),
    {
        OrderedMapGen { unicode: yes, ..self }
    }

    /// The type of the generated table's keys.
    pub fn key_type(&self) -> (r: &'static str)
        ensures
            r@ == spec_key_type(self@.1, self@.2),
    {
        key_type_of(self.unicase, self.unicode)
    }
}

impl<'g> TrieGen<'g> {
    /// Split tables of `limit` or more entries into nested nodes.
    pub fn limit(self, limit: usize) -> (t: TrieGen<'g>)
        ensures
            t@ == (self@.0, limit),
    {
        TrieGen { limit, ..self }
    }
}

/// A key compared with Unicode case folding, or, when it is ASCII, ASCII case folding.
#[derive(Debug, Clone, Copy)]
pub enum InsensitiveStr<'s> {
    Unicode(&'s str),
    Ascii(&'s str),
}

/// A key compared with ASCII case folding.
#[derive(Debug, Clone, Copy)]
pub struct InsensitiveAscii<'s>(pub &'s str);

/// The text of a key.
pub open spec fn insensitive_text<'s>(k: InsensitiveStr<'s>) -> Seq<char> {
    match k {
        InsensitiveStr::Unicode(s) => s@,
        InsensitiveStr::Ascii(s) => s@,
    }
}

impl<'s> InsensitiveStr<'s> {
    /// The key of a word: ASCII folding when the word is ASCII, else Unicode folding.
    pub fn from_text(s: &'s str) -> (r: InsensitiveStr<'s>)
        ensures
            r == (if vstd::utf8::is_ascii_chars(s@) {
                InsensitiveStr::Ascii(s)
            } else {
                InsensitiveStr::Unicode(s)
            }),
    {
        if s.is_ascii() {
            InsensitiveStr::Ascii(s)
        } else {
            InsensitiveStr::Unicode(s)
        }
    }

    pub fn into_inner(self) -> (r: &'s str)
        ensures
            r@ == insensitive_text(self),
    {
        match self {
            InsensitiveStr::Unicode(s) => s,
            InsensitiveStr::Ascii(s) => s,
        }
    }

    pub fn is_empty(self) -> (r: bool)
        ensures
            r == (insensitive_text(self).len() == 0),
    {
        match self {
            InsensitiveStr::Unicode(s) => s.is_empty(),
            InsensitiveStr::Ascii(s) => s.is_empty(),
        }
    }

    /// The length of the key in bytes.
    pub fn len(self) -> (r: usize)
        ensures
            r == byte_len(insensitive_text(self)),
    {
        let s = self.into_inner();
        proof {
            lemma_byte_len_is_encoding_len(s@);
        }
        s.as_bytes().len()
    }
}

impl<'s> InsensitiveAscii<'s> {
    pub fn into_inner(self) -> (r: &'s str)
        ensures
            r@ == self.0@,
    {
        self.0
    }

    pub fn is_empty(self) -> (r: bool)
        ensures
            r == (self.0@.len() == 0),
    {
        self.0.is_empty()
    }

    /// The length of the key in bytes.
    pub fn len(self) -> (r: usize)
        ensures
            r == byte_len(self.0@),
    {
        proof {
            lemma_byte_len_is_encoding_len(self.0@);
        }
        self.0.as_bytes().len()
    }
}

} // verus!
