//! Looking up the validity of terms.

use vstd::prelude::*;

use crate::tokens::{Identifier, TokenView, Word};

verus! {

/// Validity of a term in a dictionary.
#[derive(Debug, PartialEq, Eq)]
pub enum Status {
    Valid,
    Invalid,
    Corrections(Vec<String>),
}

/// The abstract value of a `Status`: the corrections as character sequences.
pub enum StatusView {
    Valid,
    Invalid,
    Corrections(Seq<Seq<char>>),
}

pub open spec fn strings_view(v: Seq<String>) -> Seq<Seq<char>> {
    v.map_values(|s: String| s@)
}

impl View for Status {
    type V = StatusView;

    open spec fn view(&self) -> StatusView {
        match self {
            Status::Valid => StatusView::Valid,
            Status::Invalid => StatusView::Invalid,
            Status::Corrections(c) => StatusView::Corrections(strings_view(c@)),
        }
    }
}

pub open spec fn opt_status_view(r: Option<Status>) -> Option<StatusView> {
    match r {
        Some(s) => Some(s@),
        None => None,
    }
}

/// A copy of a list of strings.
pub fn clone_strings(v: &Vec<String>) -> (r: Vec<String>)
    ensures
        r@ == v@,
{
    let mut r: Vec<String> = Vec::new();
    let mut i: usize = 0;
    while i < v.len()
        invariant
            i <= v@.len(),
            r@ =~= v@.take(i as int),
        decreases v@.len() - i,
    {
        r.push(v[i].clone());
        i = i + 1;
    }
    assert(r@ =~= v@);
    r
}

impl Clone for Status {
    fn clone(&self) -> (r: Status)
        ensures
            r@ == self@,
    {
        match self {
            Status::Valid => Status::Valid,
            Status::Invalid => Status::Invalid,
            Status::Corrections(c) => Status::Corrections(clone_strings(c)),
        }
    }
}

impl Status {
    pub fn is_invalid(&self) -> (r: bool)
        ensures
            r == (self@ is Invalid),
    {
        matches!(self, Status::Invalid)
    }

    pub fn is_valid(&self) -> (r: bool)
        ensures
            r == (self@ is Valid),
    {
        matches!(self, Status::Valid)
    }

    pub fn is_correction(&self) -> (r: bool)
        ensures
            r == (self@ is Corrections),
    {
        matches!(self, Status::Corrections(_))
    }

    /// The corrections, to change in place; nothing for a valid or invalid term.
    pub fn corrections_mut(&mut self) -> (r: Option<&mut Vec<String>>)
        ensures
            match *old(self) {
                Status::Corrections(c) => r matches Some(v) && *v == c && *final(self) == Status::Corrections(*final(v)),
                _ => r is None && *final(self) == *old(self),
            },
    {
        match self {
            Status::Corrections(c) => Some(c),
            _ => None,
        }
    }

    /// A status that owns its corrections.
    pub fn into_owned(self) -> (r: Status)
        ensures
            r@ == self@,
    {
        match self {
            Status::Valid => Status::Valid,
            Status::Invalid => Status::Invalid,
            Status::Corrections(corrections) => Status::Corrections(corrections),
        }
    }

    /// A status with the same corrections.
    pub fn borrow(&self) -> (r: Status)
        ensures
            r@ == self@,
    {
        self.clone()
    }
}

/// Looks up the validity of a term.
pub trait Dictionary {
    /// What the dictionary says of an identifier (`None`: unknown).
    spec fn spec_correct_ident(&self, ident: TokenView) -> Option<StatusView>;

    /// What the dictionary says of a word (`None`: unknown).
    spec fn spec_correct_word(&self, word: TokenView) -> Option<StatusView>;

    /// Look up the validity of an identifier; `None` if the status is unknown.
    fn correct_ident(&self, ident: &Identifier) -> (r: Option<Status>)
        ensures
            opt_status_view(r) == self.spec_correct_ident(ident@),
    ;

    /// Look up the validity of a word; `None` if the status is unknown.
    fn correct_word(&self, word: &Word) -> (r: Option<Status>)
        ensures
            opt_status_view(r) == self.spec_correct_word(word@),
    ;
}

/// A dictionary that knows no term.
#[derive(Debug, Clone, Copy, PartialEq, Eq)]
pub struct NullDictionary;

impl Dictionary for NullDictionary {
    open spec fn spec_correct_ident(&self, ident: TokenView) -> Option<StatusView> {
        None
    }

    open spec fn spec_correct_word(&self, word: TokenView) -> Option<StatusView> {
        None
    }

    fn correct_ident(&self, ident: &Identifier) -> (r: Option<Status>) {
        None
    }

    fn correct_word(&self, word: &Word) -> (r: Option<Status>) {
        None
    }
}

} // verus!
