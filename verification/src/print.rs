//! The text that reporters print: brief and long lines for the messages of the buffer
//! checks, and the title and source line of an annotated typo report.

use vstd::prelude::*;

use vstd::string::{StrSliceExecFns, StringExecFns, StringSliceAdditionalSpecFns};
use vstd::utf8::{decode_utf8, valid_utf8};

use crate::decimal::{decimal, to_decimal};
use crate::dict::{Status, StatusView};
use crate::messages::{strings_view, Message, MessageView};
use crate::report::{spec_context_display, Context, ContextView, TypoMessageView};
use crate::tokens::{byte_len, lemma_byte_len_is_encoding_len, string_from_chars};
use crate::varcon::parser::is_white_space;

verus! {

/// The text of bytes decoded as UTF-8, each invalid sequence replaced by U+FFFD.
pub uninterp spec fn lossy_text(bytes: Seq<u8>) -> Seq<char>;

/// `String::from_utf8_lossy`: named `lossy_text`; bytes that are UTF-8 give the text they
/// encode.
#[verifier::external_body]
pub(crate) fn from_utf8_lossy(bytes: &[u8]) -> (r: String)
    ensures
        r@ == lossy_text(bytes@),
        valid_utf8(bytes@) ==> r@ == decode_utf8(bytes@),
{
    String::from_utf8_lossy(bytes).into_owned()
}

/// `std::str::from_utf8`: the text when the bytes are UTF-8.
#[verifier::external_body]
fn str_from_utf8(bytes: &[u8]) -> (r: Option<&str>)
    ensures
        r is Some <==> valid_utf8(bytes@),
        r matches Some(s) ==> s@ == decode_utf8(bytes@),
{
    std::str::from_utf8(bytes).ok()
}

pub open spec fn texts(v: Seq<String>) -> Seq<Seq<char>> {
    v.map_values(|s: String| s@)
}

/// The parts with `sep` between them.
pub open spec fn join(parts: Seq<Seq<char>>, sep: Seq<char>) -> Seq<char>
    decreases parts.len(),
{
    if parts.len() == 0 {
        seq![]
    } else if parts.len() == 1 {
        parts[0]
    } else {
        join(parts.drop_last(), sep) + sep + parts.last()
    }
}

pub(crate) fn join_strings(parts: &Vec<String>, sep: &str) -> (r: String)
    ensures
        r@ == join(strings_view(parts@), sep@),
{
    let mut r = String::new();
    let mut i: usize = 0;
    assert(strings_view(parts@.take(0)) =~= Seq::<Seq<char>>::empty());
    while i < parts.len()
        invariant
            i <= parts@.len(),
            r@ == join(strings_view(parts@.take(i as int)), sep@),
        decreases parts@.len() - i,
    {
        if i > 0 {
            r.append(sep);
        }
        r.append(parts[i].as_str());
        proof {
            let a = strings_view(parts@.take(i + 1));
            assert(a.drop_last() =~= strings_view(parts@.take(i as int)));
            assert(a.last() == parts@[i as int]@);
            if i == 0 {
                assert(a.len() == 1);
            }
        }
        i = i + 1;
    }
    assert(parts@.take(parts@.len() as int) =~= parts@);
    r
}

/// Where a message comes from, as shown (nothing when it has no context).
pub open spec fn context_text(c: Option<ContextView>) -> Seq<char> {
    match c {
        Some(c) => spec_context_display(c),
        None => seq![],
    }
}

fn context_string(c: &Option<Context>) -> (r: String)
    ensures
        r@ == context_text(crate::report::opt_context_view(*c)),
{
    match c {
        Some(c) => c.display(),
        None => String::new(),
    }
}

/// `n` copies of `c`.
pub open spec fn repeated(c: char, n: nat) -> Seq<char> {
    Seq::new(n, |i: int| c)
}

fn repeat_char(c: char, n: usize) -> (r: String)
    ensures
        r@ == repeated(c, n as nat),
{
    let mut v: Vec<char> = Vec::new();
    let mut i: usize = 0;
    while i < n
        invariant
            i <= n,
            v@ == repeated(c, i as nat),
        decreases n - i,
    {
        v.push(c);
        i = i + 1;
        assert(v@ =~= repeated(c, i as nat));
    }
    string_from_chars(v.as_slice())
}

/// Tabs shown as spaces.
pub open spec fn detab(s: Seq<char>) -> Seq<char> {
    s.map_values(|c: char| if c == '\t' {
        ' '
    } else {
        c
    })
}

/// Without trailing white space.
pub open spec fn trim_end(s: Seq<char>) -> Seq<char>
    decreases s.len(),
{
    if s.len() > 0 && is_white_space(s.last()) {
        trim_end(s.drop_last())
    } else {
        s
    }
}

fn is_white(c: char) -> (r: bool)
    ensures
        r == is_white_space(c),
{
    ('\u{9}' <= c && c <= '\u{D}') || c == ' ' || c == '\u{85}' || c == '\u{A0}' || c == '\u{1680}'
        || ('\u{2000}' <= c && c <= '\u{200A}') || c == '\u{2028}' || c == '\u{2029}' || c == '\u{202F}'
        || c == '\u{205F}' || c == '\u{3000}'
}

/// The line shown under a typo: tabs as spaces, trailing white space trimmed.
fn shown_line(text: &str) -> (r: String)
    ensures
        r@ == trim_end(detab(text@)),
{
    let chars = crate::tokens::chars_of(text);
    let mut v: Vec<char> = Vec::new();
    let mut i: usize = 0;
    while i < chars.len()
        invariant
            i <= chars@.len(),
            v@ == detab(chars@.take(i as int)),
        decreases chars@.len() - i,
    {
        let c = chars[i];
        v.push(if c == '\t' {
            ' '
        } else {
            c
        });
        i = i + 1;
        assert(v@ =~= detab(chars@.take(i as int)));
    }
    assert(chars@.take(chars@.len() as int) =~= chars@);
    let mut n = v.len();
    assert(v@.take(n as int) =~= v@);
    while n > 0 && is_white(v[n - 1])
        invariant
            n <= v@.len(),
            trim_end(v@.take(n as int)) == trim_end(detab(text@)),
        decreases n,
    {
        assert(v@.take(n as int).drop_last() =~= v@.take(n - 1));
        n = n - 1;
    }
    assert(n > 0 ==> v@.take(n as int).last() == v@[n - 1]);
    let slice = v.as_slice();
    let kept = vstd::slice::slice_subrange(slice, 0, n);
    assert(kept@ =~= v@.take(n as int));
    string_from_chars(kept)
}

// ---------------------------------------------------------------------------------------
// Brief and long lines of the buffer checks' messages
// ---------------------------------------------------------------------------------------

/// The brief line of a typo: `context:offset: typo is disallowed`, or `... -> a, b`; none
/// for a valid word.
pub open spec fn brief_correction(t: TypoMessageView) -> Seq<Seq<char>> {
    let place = context_text(t.context) + ":"@ + decimal(t.byte_offset as nat) + ": "@ + t.typo;
    match t.corrections {
        StatusView::Valid => seq![],
        StatusView::Invalid => seq![place + " is disallowed"@],
        StatusView::Corrections(cs) => seq![place + " -> "@ + join(cs, ", "@)],
    }
}

/// The long lines of a typo: what it should be, where it is, and for a line of a file the
/// line with the typo underlined.
pub open spec fn long_correction(t: TypoMessageView) -> Seq<Seq<char>> {
    let place = context_text(t.context) + ":"@ + decimal(t.byte_offset as nat);
    let head = match t.corrections {
        StatusView::Valid => seq![],
        StatusView::Invalid => seq![place + ": "@ + t.typo + " is disallowed"@],
        StatusView::Corrections(cs) => seq!["error: `"@ + t.typo + "` should be "@ + join(cs, ", "@)],
    };
    head + seq!["  --> "@ + place] + match t.context {
        Some(ContextView::File(_, line)) => {
            let num = decimal(line as nat);
            let indent = repeated(' ', num.len());
            seq![
                indent + " |"@,
                num + " | "@ + trim_end(detab(lossy_text(t.buffer))),
                indent + " | "@ + repeated(' ', t.byte_offset as nat) + repeated('^', byte_len(t.typo)),
                indent + " |"@,
            ]
        },
        _ => seq![],
    }
}

fn push_line(out: &mut Vec<String>, line: String)
    ensures
        texts(final(out)@) == texts(old(out)@).push(line@),
{
    out.push(line);
    assert(texts(out@) =~= texts(old(out)@).push(line@));
}

/// The brief lines of a typo.
pub fn brief_correction_lines(t: &crate::report::Typo) -> (r: Vec<String>)
    ensures
        texts(r@) == brief_correction(t@),
{
    let mut out: Vec<String> = Vec::new();
    let mut place = context_string(&t.context);
    place.append(":");
    let off = to_decimal(t.byte_offset);
    place.append(off.as_str());
    place.append(": ");
    place.append(t.typo.as_str());
    match &t.corrections {
        Status::Valid => {},
        Status::Invalid => {
            place.append(" is disallowed");
            push_line(&mut out, place);
        },
        Status::Corrections(cs) => {
            place.append(" -> ");
            let j = join_strings(cs, ", ");
            place.append(j.as_str());
            push_line(&mut out, place);
        },
    }
    assert(texts(out@) =~= brief_correction(t@));
    out
}

/// The long lines of a typo.
pub fn long_correction_lines(t: &crate::report::Typo) -> (r: Vec<String>)
    ensures
        texts(r@) == long_correction(t@),
{
    let mut out: Vec<String> = Vec::new();
    let mut place = context_string(&t.context);
    place.append(":");
    let off = to_decimal(t.byte_offset);
    place.append(off.as_str());
    match &t.corrections {
        Status::Valid => {},
        Status::Invalid => {
            let mut l = place.clone();
            l.append(": ");
            l.append(t.typo.as_str());
            l.append(" is disallowed");
            push_line(&mut out, l);
        },
        Status::Corrections(cs) => {
            let mut l = String::from_str("error: `");
            l.append(t.typo.as_str());
            l.append("` should be ");
            let j = join_strings(cs, ", ");
            l.append(j.as_str());
            push_line(&mut out, l);
        },
    }
    let mut l = String::from_str("  --> ");
    l.append(place.as_str());
    push_line(&mut out, l);
    if let Some(Context::File(c)) = &t.context {
        let num = to_decimal(c.line_num);
        let indent = repeat_char(' ', num.as_str().unicode_len());
        let mut l = indent.clone();
        l.append(" |");
        push_line(&mut out, l);
        let text = from_utf8_lossy(t.buffer.as_slice());
        let shown = shown_line(text.as_str());
        let mut l = num.clone();
        l.append(" | ");
        l.append(shown.as_str());
        push_line(&mut out, l);
        let mut l = indent.clone();
        l.append(" | ");
        let gap = repeat_char(' ', t.byte_offset);
        l.append(gap.as_str());
        proof {
            lemma_byte_len_is_encoding_len(t.typo@);
        }
        let hl = repeat_char('^', t.typo.as_str().as_bytes().len());
        l.append(hl.as_str());
        push_line(&mut out, l);
        let mut l = indent.clone();
        l.append(" |");
        push_line(&mut out, l);
    }
    assert(texts(out@) =~= long_correction(t@));
    out
}

/// What a brief reporter prints for a message: a typo's brief line, a file's path, a
/// parse's terms separated by spaces.  (Binary files and errors go to the log.)
pub open spec fn brief_report(m: MessageView) -> Seq<Seq<char>> {
    match m {
        MessageView::Typo(t) => brief_correction(t),
        MessageView::File(path) => seq![path],
        MessageView::Parse(_, _, data) => seq![join(data, " "@)],
        _ => seq![],
    }
}

/// What a long reporter prints for a message: as the brief one, with a typo's long lines.
pub open spec fn long_report(m: MessageView) -> Seq<Seq<char>> {
    match m {
        MessageView::Typo(t) => long_correction(t),
        _ => brief_report(m),
    }
}

/// What goes to the log for a message: a skipped binary file, or an error with where it
/// comes from.
pub open spec fn log_report(m: MessageView) -> Option<Seq<char>> {
    match m {
        MessageView::BinaryFile(path) => Some("Skipping binary file "@ + path),
        MessageView::Error(c, msg) => Some(context_text(c) + ": "@ + msg),
        _ => None,
    }
}

/// The lines a brief reporter prints for the message.
pub fn brief_lines(msg: &Message) -> (r: Vec<String>)
    ensures
        texts(r@) == brief_report(msg@),
{
    match msg {
        Message::Typo(t) => brief_correction_lines(t),
        Message::File(f) => {
            let mut out: Vec<String> = Vec::new();
            push_line(&mut out, f.path.clone());
            assert(texts(out@) =~= brief_report(msg@));
            out
        },
        Message::Parse(p) => {
            let mut out: Vec<String> = Vec::new();
            push_line(&mut out, join_strings(&p.data, " "));
            assert(texts(out@) =~= brief_report(msg@));
            out
        },
        _ => {
            let out: Vec<String> = Vec::new();
            assert(texts(out@) =~= brief_report(msg@));
            out
        },
    }
}

/// The lines a long reporter prints for the message.
pub fn long_lines(msg: &Message) -> (r: Vec<String>)
    ensures
        texts(r@) == long_report(msg@),
{
    match msg {
        Message::Typo(t) => long_correction_lines(t),
        _ => brief_lines(msg),
    }
}

/// The log line of the message, if it has one.
pub fn log_line(msg: &Message) -> (r: Option<String>)
    ensures
        match log_report(msg@) {
            Some(l) => r matches Some(s) && s@ == l,
            None => r is None,
        },
{
    match msg {
        Message::BinaryFile(b) => {
            let mut l = String::from_str("Skipping binary file ");
            l.append(b.path.as_str());
            Some(l)
        },
        Message::Error(e) => {
            let mut l = context_string(&e.context);
            l.append(": ");
            l.append(e.msg.as_str());
            Some(l)
        },
        _ => None,
    }
}

// ---------------------------------------------------------------------------------------
// Annotated reports
// ---------------------------------------------------------------------------------------

/// The title of an annotated report of a typo: ``` `typo` is disallowed ``` or
/// ``` `typo` should be `a`, `b` ```; a valid word is never reported.
pub open spec fn typo_title(t: TypoMessageView) -> Option<Seq<char>> {
    match t.corrections {
        StatusView::Valid => None,
        StatusView::Invalid => Some("`"@ + t.typo + "` is disallowed"@),
        StatusView::Corrections(cs) => Some(
            "`"@ + t.typo + "` should be "@ + join(cs.map_values(|c: Seq<char>| "`"@ + c + "`"@), ", "@),
        ),
    }
}

/// The title of the annotated report of a typo, `None` for a valid word.
pub fn title_of(t: &crate::report::Typo) -> (r: Option<String>)
    ensures
        match typo_title(t@) {
            Some(l) => r matches Some(s) && s@ == l,
            None => r is None,
        },
{
    match &t.corrections {
        Status::Valid => None,
        Status::Invalid => {
            let mut l = String::from_str("`");
            l.append(t.typo.as_str());
            l.append("` is disallowed");
            Some(l)
        },
        Status::Corrections(cs) => {
            let mut quoted: Vec<String> = Vec::new();
            let mut i: usize = 0;
            while i < cs.len()
                invariant
                    i <= cs@.len(),
                    strings_view(quoted@) == strings_view(cs@.take(i as int)).map_values(
                        |c: Seq<char>| "`"@ + c + "`"@,
                    ),
                decreases cs@.len() - i,
            {
                let mut q = String::from_str("`");
                q.append(cs[i].as_str());
                q.append("`");
                let ghost before = quoted@;
                let ghost qv = q@;
                assert(qv == "`"@ + cs@[i as int]@ + "`"@);
                quoted.push(q);
                assert(strings_view(cs@.take(i + 1)) =~= strings_view(cs@.take(i as int)).push(cs@[i as int]@));
                assert(strings_view(quoted@) =~= strings_view(before).push(qv));
                i = i + 1;
                assert(strings_view(quoted@) =~= strings_view(cs@.take(i as int)).map_values(
                    |c: Seq<char>| "`"@ + c + "`"@,
                ));
            }
            assert(cs@.take(cs@.len() as int) =~= cs@);
            let mut l = String::from_str("`");
            l.append(t.typo.as_str());
            l.append("` should be ");
            let j = join_strings(&quoted, ", ");
            l.append(j.as_str());
            Some(l)
        },
    }
}

/// The source line of an annotated report and the span of the typo in it (in bytes):
/// the line itself when it is UTF-8, else the lossy text of the parts before, in and
/// after the typo, with the span moved to match.
pub open spec fn source_line(line: Seq<u8>, start: nat, len: nat) -> (Seq<char>, nat, nat) {
    if valid_utf8(line) {
        (decode_utf8(line), start, start + len)
    } else {
        let prefix = lossy_text(line.subrange(0, start as int));
        let middle = lossy_text(line.subrange(start as int, (start + len) as int));
        let suffix = lossy_text(line.subrange((start + len) as int, line.len() as int));
        (prefix + middle + suffix, byte_len(prefix), byte_len(prefix) + byte_len(middle))
    }
}

/// The source line of an annotated report and the span of the typo in it.  (A typo that
/// runs past the end of a line that is not UTF-8 cannot be shown.)
pub fn to_string(line: &[u8], start: usize, len: usize) -> (r: (String, usize, usize))
    requires
        start + len <= usize::MAX,
        !valid_utf8(line@) ==> start + len <= line@.len(),
    ensures
        r.0@ == source_line(line@, start as nat, len as nat).0,
        r.1 == source_line(line@, start as nat, len as nat).1,
        r.2 == source_line(line@, start as nat, len as nat).2,
{
    let end = start + len;
    if let Some(text) = str_from_utf8(line) {
        return (String::from_str(text), start, end);
    }
    let prefix = from_utf8_lossy(vstd::slice::slice_subrange(line, 0, start));
    let middle = from_utf8_lossy(vstd::slice::slice_subrange(line, start, end));
    let suffix = from_utf8_lossy(vstd::slice::slice_subrange(line, end, line.len()));
    let ghost (p, m, x) = (prefix@, middle@, suffix@);
    proof {
        lemma_byte_len_is_encoding_len(p);
        lemma_byte_len_is_encoding_len(m);
        lemma_byte_len_is_encoding_len(p + m + x);
        crate::tokens::lemma_byte_len_concat(p, m);
        crate::tokens::lemma_byte_len_concat(p + m, x);
    }
    let span_start = prefix.as_str().as_bytes().len();
    let middle_len = middle.as_str().as_bytes().len();
    let mut text = prefix;
    text.append(middle.as_str());
    text.append(suffix.as_str());
    let n = text.as_str().as_bytes().len();
    assert(text@ == p + m + x);
    assert(span_start + middle_len <= n);
    (text, span_start, span_start + middle_len)
}

} // verus!
