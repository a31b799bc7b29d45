//! Diagnostics for a language server: each typo of a text as a warning over its range,
//! positions counted in lines from 0 and bytes within the line.

use vstd::prelude::*;

use vstd::string::{StringExecFns, StringSliceAdditionalSpecFns};

use crate::check::{check_str, typos_view, Typo, TypoView};
use crate::dict::{Dictionary, Status, StatusView};
use crate::file::{count_newlines, lemma_count_newlines_bound, lemma_count_newlines_concat, lemma_rfind_newline, rfind_newline};
use crate::print::{join, typo_title};
use crate::tokens::{byte_len, lemma_byte_len_is_encoding_len, Tokenizer};

verus! {

/// A place in a text: its line (from 0) and its byte offset within the line.
#[derive(Debug, Clone, Copy, PartialEq, Eq, Structural)]
pub struct Position {
    pub line: u32,
    pub character: u32,
}

/// A warning about a range of a text.
#[derive(Debug, Clone, PartialEq, Eq)]
pub struct Diagnostic {
    pub start: Position,
    pub end: Position,
    /// What reports it.
    pub source: String,
    pub message: String,
}

/// The line of offset `o` (from 0) and the offset within it.
pub open spec fn line_and_column(buf: Seq<u8>, o: int) -> (nat, int) {
    (count_newlines(buf.take(o)), o - (rfind_newline(buf, o) + 1))
}

/// The message of a typo: what it should be, or that it is disallowed.
pub open spec fn typo_message(t: TypoView) -> Seq<char> {
    match t.2 {
        StatusView::Invalid => "`"@ + t.1 + "` is disallowed"@,
        StatusView::Corrections(cs) => "`"@ + t.1 + "` should be "@ + join(
            cs.map_values(|c: Seq<char>| "`"@ + c + "`"@),
            ", "@,
        ),
        StatusView::Valid => seq![],
    }
}

/// A diagnostic as plain values: `(start line, start column, end line, end column, source,
/// message)`, the numbers cut to 32 bits.
pub type DiagnosticView = (u32, u32, u32, u32, Seq<char>, Seq<char>);

pub open spec fn diagnostic_view(d: Diagnostic) -> DiagnosticView {
    (d.start.line, d.start.character, d.end.line, d.end.character, d.source@, d.message@)
}

/// The diagnostic of a typo of the text.
pub open spec fn typo_diagnostic(buf: Seq<u8>, t: TypoView, source: Seq<char>) -> DiagnosticView {
    let (line, col) = line_and_column(buf, t.0);
    (line as u32, col as u32, line as u32, (col + byte_len(t.1)) as u32, source, typo_message(t))
}

/// The typos can be placed: in the text, in order, none of them valid.
pub open spec fn placeable(buf: Seq<u8>, typos: Seq<TypoView>) -> bool {
    &&& forall|i: int| 0 <= i < typos.len() ==> 0 <= #[trigger] typos[i].0 <= buf.len()
    &&& forall|i: int, j: int| 0 <= i < j < typos.len() ==> #[trigger] typos[i].0 <= #[trigger] typos[j].0
    &&& forall|i: int| 0 <= i < typos.len() ==> !(#[trigger] typos[i].2 is Valid)
    &&& forall|i: int| 0 <= i < typos.len() ==> typos[i].0 + byte_len(#[trigger] typos[i].1) <= usize::MAX
}

pub open spec fn diagnostics_view(v: Seq<Diagnostic>) -> Seq<DiagnosticView> {
    v.map_values(|d: Diagnostic| diagnostic_view(d))
}

/// Counts lines while offsets are asked for in increasing order.
struct AccumulatePosition {
    line_num: usize,
    last_offset: usize,
}

fn message_of(t: &Typo) -> (r: String)
    requires
        !(t.corrections@ is Valid),
    ensures
        r@ == typo_message((t.byte_offset as int, t.typo@, t.corrections@)),
{
    let report = crate::report::Typo {
        context: None,
        buffer: Vec::new(),
        byte_offset: t.byte_offset,
        typo: t.typo.clone(),
        corrections: t.corrections.borrow(),
    };
    match crate::print::title_of(&report) {
        Some(m) => m,
        None => String::new(),
    }
}

fn rfind_newline_at(buf: &[u8], o: usize) -> (r: usize)
    requires
        o <= buf@.len(),
    ensures
        r == rfind_newline(buf@, o as int) + 1,
        r <= o,
{
    let mut i = o;
    proof {
        lemma_rfind_newline(buf@, o as int);
    }
    while i > 0 && buf[i - 1] != 10
        invariant
            i <= o <= buf@.len(),
            rfind_newline(buf@, i as int) == rfind_newline(buf@, o as int),
        decreases i,
    {
        i = i - 1;
    }
    i
}

/// The diagnostics of typos of the text, in order.
pub fn diagnostics(buffer: &str, typos: &Vec<Typo>, source: &str) -> (r: Vec<Diagnostic>)
    requires
        placeable(buffer.spec_bytes(), typos_view(typos@)),
    ensures
        diagnostics_view(r@) == typos_view(typos@).map_values(
            |t: TypoView| typo_diagnostic(buffer.spec_bytes(), t, source@),
        ),
{
    let buf = buffer.as_bytes();
    let ghost tv = typos_view(typos@);
    let mut accum = AccumulatePosition { line_num: 0, last_offset: 0 };
    let mut out: Vec<Diagnostic> = Vec::new();
    let mut k: usize = 0;
    while k < typos.len()
        invariant
            k <= typos@.len(),
            buf@ == buffer.spec_bytes(),
            tv == typos_view(typos@),
            placeable(buf@, tv),
            accum.last_offset <= buf@.len(),
            accum.line_num == count_newlines(buf@.take(accum.last_offset as int)),
            k > 0 ==> accum.last_offset == tv[k - 1].0,
            k == 0 ==> accum.last_offset == 0,
            diagnostics_view(out@) == tv.take(k as int).map_values(
                |t: TypoView| typo_diagnostic(buf@, t, source@),
            ),
        decreases typos@.len() - k,
    {
        let t = &typos[k];
        let o = t.byte_offset;
        assert(tv[k as int] == (o as int, t.typo@, t.corrections@));
        assert(0 <= tv[k as int].0 <= buf@.len());
        assert(k > 0 ==> tv[k - 1].0 <= tv[k as int].0);
        assert(!(tv[k as int].2 is Valid));
        assert(tv[k as int].0 + byte_len(tv[k as int].1) <= usize::MAX);
        let newlines = crate::file::count_newline_bytes(vstd::slice::slice_subrange(buf, accum.last_offset, o));
        proof {
            assert(buf@.take(o as int) =~= buf@.take(accum.last_offset as int) + buf@.subrange(
                accum.last_offset as int,
                o as int,
            ));
            lemma_count_newlines_concat(buf@.take(accum.last_offset as int), buf@.subrange(accum.last_offset as int, o as int));
            lemma_count_newlines_bound(buf@.take(o as int));
        }
        let line_num = accum.line_num + newlines;
        let line_start = rfind_newline_at(buf, o);
        let col = o - line_start;
        accum = AccumulatePosition { line_num, last_offset: o };
        proof {
            lemma_byte_len_is_encoding_len(t.typo@);
        }
        let len = t.typo.as_str().as_bytes().len();
        let end = col + len;
        let message = message_of(t);
        let d = Diagnostic {
            start: Position { line: #[verifier::truncate] (line_num as u32), character: #[verifier::truncate] (col as u32) },
            end: Position { line: #[verifier::truncate] (line_num as u32), character: #[verifier::truncate] (end as u32) },
            source: String::from_str(source),
            message,
        };
        let ghost before = out@;
        out.push(d);
        proof {
            assert(diagnostics_view(out@) =~= diagnostics_view(before).push(diagnostic_view(d)));
            assert(tv.take(k + 1) =~= tv.take(k as int).push(tv[k as int]));
            assert(tv.take(k + 1).map_values(|t: TypoView| typo_diagnostic(buf@, t, source@)) =~= tv.take(
                k as int,
            ).map_values(|t: TypoView| typo_diagnostic(buf@, t, source@)).push(
                typo_diagnostic(buf@, tv[k as int], source@),
            ));
        }
        k = k + 1;
    }
    assert(tv.take(tv.len() as int) =~= tv);
    out
}

fn typos_placeable(buffer: &str, typos: &Vec<Typo>) -> (r: bool)
    ensures
        r == placeable(buffer.spec_bytes(), typos_view(typos@)),
{
    let n = buffer.as_bytes().len();
    let ghost tv = typos_view(typos@);
    let mut k: usize = 0;
    while k < typos.len()
        invariant
            k <= typos@.len(),
            n == buffer.spec_bytes().len(),
            tv == typos_view(typos@),
            forall|i: int| 0 <= i < k ==> 0 <= #[trigger] tv[i].0 <= n,
            forall|i: int, j: int| 0 <= i < j < k ==> #[trigger] tv[i].0 <= #[trigger] tv[j].0,
            forall|i: int| 0 <= i < k ==> !(#[trigger] tv[i].2 is Valid),
            forall|i: int| 0 <= i < k ==> tv[i].0 + byte_len(#[trigger] tv[i].1) <= usize::MAX,
        decreases typos@.len() - k,
    {
        let t = &typos[k];
        assert(tv[k as int] == (t.byte_offset as int, t.typo@, t.corrections@));
        proof {
            lemma_byte_len_is_encoding_len(t.typo@);
        }
        let len = t.typo.as_str().as_bytes().len();
        if t.byte_offset > n || len > usize::MAX - t.byte_offset {
            assert(!(0 <= tv[k as int].0 <= n) || !(tv[k as int].0 + byte_len(tv[k as int].1) <= usize::MAX));
            return false;
        }
        if let Status::Valid = t.corrections {
            assert(tv[k as int].2 is Valid);
            return false;
        }
        if k > 0 && typos[k - 1].byte_offset > t.byte_offset {
            assert(tv[k - 1] == (typos@[k - 1].byte_offset as int, typos@[k - 1].typo@, typos@[k - 1].corrections@));
            assert(tv[k - 1].0 > tv[k as int].0);
            return false;
        }
        proof {
            if k > 0 {
                assert(tv[k - 1] == (typos@[k - 1].byte_offset as int, typos@[k - 1].typo@, typos@[k - 1].corrections@));
                assert forall|i: int, j: int| 0 <= i < j < k + 1 implies #[trigger] tv[i].0 <= #[trigger] tv[j].0 by {
                    if j == k && i < k - 1 {
                        assert(tv[i].0 <= tv[k - 1].0);
                    }
                }
            }
        }
        k = k + 1;
    }
    true
}

/// The diagnostics of the typos that the dictionary finds in the text; `None` if they
/// could not be placed (out of order or outside the text).
pub fn check_text<D: Dictionary>(buffer: &str, tokenizer: &Tokenizer, dictionary: &D, source: &str) -> (r: Option<Vec<Diagnostic>>)
    requires
        byte_len(buffer@) <= usize::MAX,
    ensures
        match r {
            Some(d) => exists|typos: Seq<TypoView>|
                placeable(buffer.spec_bytes(), typos) && typos == crate::check::spec_check_text(dictionary, tokenizer@, buffer@)
                    && diagnostics_view(d@) == typos.map_values(
                    |t: TypoView| typo_diagnostic(buffer.spec_bytes(), t, source@),
                ),
            None => !placeable(buffer.spec_bytes(), crate::check::spec_check_text(dictionary, tokenizer@, buffer@)),
        },
{
    let typos = check_str(buffer, tokenizer, dictionary);
    if typos_placeable(buffer, &typos) {
        Some(diagnostics(buffer, &typos, source))
    } else {
        None
    }
}

} // verus!
