//! Clusters held in static tables, and their owned copies.

use vstd::prelude::*;

use crate::varcon::{Pos, Type};

verus! {

/// A cluster whose text lives in static tables.
#[derive(Debug, Clone, Copy, PartialEq, Eq)]
pub struct Cluster {
    pub header: &'static str,
    pub verified: bool,
    pub level: usize,
    pub entries: &'static [Entry],
    pub notes: &'static [&'static str],
}

/// An entry whose text lives in static tables.
#[derive(Debug, Clone, Copy, PartialEq, Eq)]
pub struct Entry {
    pub variants: &'static [Variant],
    pub pos: Option<Pos>,
    pub archaic: bool,
    pub description: Option<&'static str>,
    pub note: Option<&'static str>,
    pub comment: Option<&'static str>,
}

/// A variant whose text lives in static tables.
#[derive(Debug, Clone, Copy, PartialEq, Eq)]
pub struct Variant {
    pub types: &'static [Type],
    pub word: &'static str,
}

pub open spec fn opt_str(s: Option<&str>) -> Option<Seq<char>> {
    match s {
        Some(s) => Some(s@),
        None => None,
    }
}

pub open spec fn opt_string(s: Option<String>) -> Option<Seq<char>> {
    match s {
        Some(s) => Some(s@),
        None => None,
    }
}

fn owned_opt(s: Option<&str>) -> (r: Option<String>)
    ensures
        opt_string(r) == opt_str(s),
{
    match s {
        Some(s) => Some(s.to_owned()),
        None => None,
    }
}

/// The same variant, owning its text.
pub open spec fn variant_owned(b: Variant, o: crate::varcon::Variant) -> bool {
    o.types@ == b.types@ && o.word@ == b.word@
}

/// The same entry, owning its text.
pub open spec fn entry_owned(b: Entry, o: crate::varcon::Entry) -> bool {
    &&& o.variants@.len() == b.variants@.len()
    &&& forall|i: int| 0 <= i < b.variants@.len() ==> variant_owned(#[trigger] b.variants@[i], o.variants@[i])
    &&& o.pos == b.pos
    &&& o.archaic == b.archaic
    &&& opt_string(o.description) == opt_str(b.description)
    &&& opt_string(o.note) == opt_str(b.note)
    &&& opt_string(o.comment) == opt_str(b.comment)
}

impl Variant {
    pub fn into_owned(self) -> (r: crate::varcon::Variant)
        ensures
            variant_owned(self, r),
    {
        let mut types: Vec<Type> = Vec::new();
        let mut i: usize = 0;
        while i < self.types.len()
            invariant
                i <= self.types@.len(),
                types@ == self.types@.take(i as int),
            decreases self.types@.len() - i,
        {
            types.push(self.types[i]);
            i = i + 1;
            assert(types@ =~= self.types@.take(i as int));
        }
        assert(self.types@.take(i as int) =~= self.types@);
        crate::varcon::Variant { types, word: self.word.to_owned() }
    }
}

impl Entry {
    pub fn into_owned(self) -> (r: crate::varcon::Entry)
        ensures
            entry_owned(self, r),
    {
        let mut variants: Vec<crate::varcon::Variant> = Vec::new();
        let mut i: usize = 0;
        while i < self.variants.len()
            invariant
                i <= self.variants@.len(),
                variants@.len() == i,
                forall|j: int| 0 <= j < i ==> variant_owned(#[trigger] self.variants@[j], variants@[j]),
            decreases self.variants@.len() - i,
        {
            variants.push(self.variants[i].into_owned());
            i = i + 1;
        }
        crate::varcon::Entry {
            variants,
            pos: self.pos,
            archaic: self.archaic,
            description: owned_opt(self.description),
            note: owned_opt(self.note),
            comment: owned_opt(self.comment),
        }
    }
}

impl Cluster {
    pub fn into_owned(self) -> (r: crate::varcon::Cluster)
        ensures
            r.header@ == self.header@,
            r.verified == self.verified,
            r.level == self.level,
            r.entries@.len() == self.entries@.len(),
            forall|i: int| 0 <= i < self.entries@.len() ==> entry_owned(#[trigger] self.entries@[i], r.entries@[i]),
            r.notes@.map_values(|n: String| n@) == self.notes@.map_values(|n: &str| n@),
    {
        let mut entries: Vec<crate::varcon::Entry> = Vec::new();
        let mut i: usize = 0;
        while i < self.entries.len()
            invariant
                i <= self.entries@.len(),
                entries@.len() == i,
                forall|j: int| 0 <= j < i ==> entry_owned(#[trigger] self.entries@[j], entries@[j]),
            decreases self.entries@.len() - i,
        {
            entries.push(self.entries[i].into_owned());
            i = i + 1;
        }
        let mut notes: Vec<String> = Vec::new();
        let mut k: usize = 0;
        while k < self.notes.len()
            invariant
                k <= self.notes@.len(),
                notes@.map_values(|n: String| n@) == self.notes@.take(k as int).map_values(|n: &str| n@),
            decreases self.notes@.len() - k,
        {
            let ghost before = notes@.map_values(|n: String| n@);
            let note = self.notes[k].to_owned();
            notes.push(note);
            assert(notes@.map_values(|n: String| n@) =~= before.push(self.notes@[k as int]@));
            assert(self.notes@.take(k + 1) =~= self.notes@.take(k as int).push(self.notes@[k as int]));
            k = k + 1;
            assert(notes@.map_values(|n: String| n@) =~= self.notes@.take(k as int).map_values(|n: &str| n@));
        }
        assert(self.notes@.take(k as int) =~= self.notes@);
        crate::varcon::Cluster {
            header: self.header.to_owned(),
            verified: self.verified,
            level: self.level,
            entries,
            notes,
        }
    }
}

} // verus!
