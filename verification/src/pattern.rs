//! Regular expressions, kept with the text they were compiled from.

use vstd::prelude::*;
use vstd::string::StringSliceAdditionalSpecFns;

verus! {

/// Declares `regex::Regex` to Verus; a compiled pattern is opaque here.
#[verifier::external_type_specification]
#[verifier::external_body]
pub struct ExRegex(regex::Regex);

/// Whether `regex` accepts the pattern.
pub uninterp spec fn regex_compiles(pattern: Seq<char>) -> bool;

/// The byte ranges of the successive non-overlapping leftmost-first matches of the pattern
/// in the haystack.
pub uninterp spec fn regex_find_spans(pattern: Seq<char>, haystack: Seq<char>) -> Seq<(usize, usize)>;

/// Whether the pattern matches somewhere in the haystack: it has a first match.
pub open spec fn regex_is_match(pattern: Seq<char>, haystack: Seq<char>) -> bool {
    regex_find_spans(pattern, haystack).len() > 0
}

/// `regex::Regex::new`: a compiled pattern, or the error's text.  Whether a pattern
/// compiles is a function of the pattern, named `regex_compiles`.
#[verifier::external_body]
fn compile(pattern: &str) -> (r: Result<regex::Regex, String>)
    ensures
        r is Ok <==> regex_compiles(pattern@),
{
    regex::Regex::new(pattern).map_err(|e| e.to_string())
}

/// A compiled regular expression and the text it was compiled from.
#[derive(Debug)]
pub struct Pattern {
    text: String,
    regex: regex::Regex,
}

impl View for Pattern {
    type V = Seq<char>;

    /// The text of the pattern.
    closed spec fn view(&self) -> Seq<char> {
        self.text@
    }
}

/// `regex::Regex::find_iter`, each match taken as its byte range.  The ranges are named
/// `regex_find_spans` of the pattern's text and the haystack (a `Pattern` is only made by
/// compiling its text); that each lies within the haystack, as the crate documents, is
/// stated.
#[verifier::external_body]
fn find_spans(p: &Pattern, haystack: &str) -> (r: Vec<(usize, usize)>)
    ensures
        r@ == regex_find_spans(p@, haystack@),
        forall|i: int| 0 <= i < r@.len() ==> (#[trigger] r@[i]).0 <= r@[i].1 <= haystack.spec_bytes().len(),
{
    p.regex.find_iter(haystack).map(|m| (m.start(), m.end())).collect()
}

/// `regex::Regex::is_match`: whether the pattern matches somewhere, that is whether
/// `find_iter` yields a first match (`regex_is_match`).
#[verifier::external_body]
fn is_match(p: &Pattern, haystack: &str) -> (r: bool)
    ensures
        r == regex_is_match(p@, haystack@),
{
    p.regex.is_match(haystack)
}

impl Pattern {
    /// The pattern compiled from `text`, or the reason it does not compile.
    pub fn new(text: String) -> (r: Result<Pattern, String>)
        ensures
            r is Ok <==> regex_compiles(text@),
            r matches Ok(p) ==> p@ == text@,
    {
        match compile(text.as_str()) {
            Ok(regex) => Ok(Pattern { text, regex }),
            Err(e) => Err(e),
        }
    }

    pub fn as_str(&self) -> (r: &str)
        ensures
            r@ == self@,
    {
        self.text.as_str()
    }

    /// The byte ranges of the matches in `haystack`, in order.
    pub fn find_spans(&self, haystack: &str) -> (r: Vec<(usize, usize)>)
        ensures
            r@ == regex_find_spans(self@, haystack@),
            forall|i: int| 0 <= i < r@.len() ==> (#[trigger] r@[i]).0 <= r@[i].1 <= haystack.spec_bytes().len(),
    {
        find_spans(self, haystack)
    }

    /// Whether the pattern matches somewhere in `haystack`.
    pub fn is_match(&self, haystack: &str) -> (r: bool)
        ensures
            r == regex_is_match(self@, haystack@),
    {
        is_match(self, haystack)
    }
}

/// Compile each pattern, stopping at the first that does not compile.
pub fn compile_all(texts: &Vec<String>) -> (r: Result<Vec<Pattern>, String>)
    ensures
        r is Ok <==> forall|i: int| 0 <= i < texts@.len() ==> regex_compiles(#[trigger] texts@[i]@),
        r matches Ok(ps) ==> ps@.len() == texts@.len() && forall|i: int|
            0 <= i < texts@.len() ==> (#[trigger] ps@[i])@ == texts@[i]@,
{
    let mut ps: Vec<Pattern> = Vec::new();
    let mut k: usize = 0;
    while k < texts.len()
        invariant
            k <= texts@.len(),
            ps@.len() == k,
            forall|i: int| 0 <= i < k ==> regex_compiles(#[trigger] texts@[i]@),
            forall|i: int| 0 <= i < k ==> (#[trigger] ps@[i])@ == texts@[i]@,
        decreases texts@.len() - k,
    {
        match Pattern::new(texts[k].clone()) {
            Ok(p) => ps.push(p),
            Err(e) => {
                return Err(e);
            },
        }
        k = k + 1;
    }
    Ok(ps)
}

} // verus!
