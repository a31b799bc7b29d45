//! The unified diff that `--diff` shows of a fix: the lines of the file before and after,
//! compared by difflib.

use vstd::prelude::*;

use crate::file::{find_newline, lemma_find_newline};
use crate::print::{from_utf8_lossy, lossy_text, texts};

verus! {

/// The lines of `buf` from `start` on, each with its `\n`; a last line without one counts
/// when it is not empty.
pub open spec fn terminated_lines(buf: Seq<u8>, start: int) -> Seq<Seq<u8>>
    decreases buf.len() - start,
{
    if start < 0 || start >= buf.len() {
        seq![]
    } else {
        let j = find_newline(buf, start);
        if j < buf.len() {
            proof {
                lemma_find_newline(buf, start);
            }
            seq![buf.subrange(start, j + 1)] + terminated_lines(buf, j + 1)
        } else {
            seq![buf.subrange(start, buf.len() as int)]
        }
    }
}

/// The lines of `buf`, each with its terminator, as text (invalid UTF-8 replaced).
pub open spec fn lossy_lines(buf: Seq<u8>) -> Seq<Seq<char>> {
    terminated_lines(buf, 0).map_values(|l: Seq<u8>| lossy_text(l))
}

/// The lines of a unified diff between two texts given line by line, with the names and
/// dates of the two sides and the number of context lines.
pub uninterp spec fn unified_diff_of(
    first: Seq<Seq<char>>,
    second: Seq<Seq<char>>,
    from_file: Seq<char>,
    to_file: Seq<char>,
    from_date: Seq<char>,
    to_date: Seq<char>,
    context: nat,
) -> Seq<Seq<char>>;

/// `difflib::unified_diff`: named `unified_diff_of` of its arguments.  The number of
/// context lines is bounded: difflib adds it to line numbers and doubles it, which
/// overflows for a very large one.
#[verifier::external_body]
fn unified_diff(
    first: &Vec<String>,
    second: &Vec<String>,
    from_file: &str,
    to_file: &str,
    from_date: &str,
    to_date: &str,
    context: usize,
) -> (r: Vec<String>)
    requires
        context <= usize::MAX / 4,
    ensures
        texts(r@) == unified_diff_of(
            texts(first@),
            texts(second@),
            from_file@,
            to_file@,
            from_date@,
            to_date@,
            context as nat,
        ),
{
    difflib::unified_diff(first.as_slice(), second.as_slice(), from_file, to_file, from_date, to_date, context)
}

/// The lines of `buf`, each with its terminator, as text.
pub fn lines_with_terminator(buf: &[u8]) -> (r: Vec<String>)
    ensures
        texts(r@) == lossy_lines(buf@),
{
    let ghost all = terminated_lines(buf@, 0);
    let mut r: Vec<String> = Vec::new();
    let mut start: usize = 0;
    while start < buf.len()
        invariant
            start <= buf@.len(),
            all == terminated_lines(buf@, 0),
            texts(r@) + terminated_lines(buf@, start as int).map_values(|l: Seq<u8>| lossy_text(l))
                == all.map_values(|l: Seq<u8>| lossy_text(l)),
        decreases buf@.len() - start,
    {
        proof {
            lemma_find_newline(buf@, start as int);
        }
        let mut j = start;
        while j < buf.len() && buf[j] != 10
            invariant
                start <= j <= buf@.len(),
                find_newline(buf@, j as int) == find_newline(buf@, start as int),
            decreases buf@.len() - j,
        {
            j = j + 1;
        }
        let end = if j < buf.len() {
            j + 1
        } else {
            j
        };
        let piece = &buf[start..end];
        assert(piece@ == buf@.subrange(start as int, end as int));
        let line = from_utf8_lossy(piece);
        let ghost before = texts(r@);
        let ghost rest = terminated_lines(buf@, start as int);
        let ghost next = terminated_lines(buf@, end as int);
        r.push(line);
        assert(texts(r@) =~= before.push(lossy_text(buf@.subrange(start as int, end as int))));
        if j < buf.len() {
            assert(rest == seq![buf@.subrange(start as int, end as int)] + next);
        } else {
            assert(rest == seq![buf@.subrange(start as int, end as int)]);
            assert(next =~= Seq::<Seq<u8>>::empty());
        }
        assert(rest.map_values(|l: Seq<u8>| lossy_text(l)) =~= seq![lossy_text(buf@.subrange(start as int, end as int))]
            + next.map_values(|l: Seq<u8>| lossy_text(l)));
        assert(texts(r@) + next.map_values(|l: Seq<u8>| lossy_text(l)) =~= before + rest.map_values(
            |l: Seq<u8>| lossy_text(l),
        ));
        start = end;
    }
    assert(terminated_lines(buf@, start as int) =~= Seq::<Seq<u8>>::empty());
    assert(texts(r@) =~= all.map_values(|l: Seq<u8>| lossy_text(l)));
    r
}

/// The unified diff of a fix, without context lines: the file's lines before (under its
/// path, dated "original") and after (under its new path, dated "fixed").
pub fn diff_text(original_path: &str, fixed_path: &str, original: &[u8], fixed: &[u8]) -> (r: Vec<String>)
    ensures
        texts(r@) == unified_diff_of(
            lossy_lines(original@),
            lossy_lines(fixed@),
            original_path@,
            fixed_path@,
            "original"@,
            "fixed"@,
            0,
        ),
{
    let first = lines_with_terminator(original);
    let second = lines_with_terminator(fixed);
    unified_diff(&first, &second, original_path, fixed_path, "original", "fixed", 0)
}

} // verus!
