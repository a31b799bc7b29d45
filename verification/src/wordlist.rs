//! Reading the codespell word list (`typo->correction, correction`, one per line) and
//! generating the table of it.

use vstd::prelude::*;

use vstd::string::{StrSliceExecFns, StringExecFns};

use crate::dictgen::write::{arranged, dict_table_lines, texts, views, Item, ItemView};
use crate::dictgen::DictGen;
use crate::messages::strings_view;
use crate::tokens::{chars_of, string_from_range};
use crate::varcon::parser::is_white_space;

verus! {

/// Where the first `c` at or after `p` is, or the end.
pub open spec fn find_char(s: Seq<char>, p: int, c: char) -> int
    decreases s.len() - p,
{
    if p < 0 || p >= s.len() {
        s.len() as int
    } else if s[p] == c {
        p
    } else {
        find_char(s, p + 1, c)
    }
}

pub proof fn lemma_find_char(s: Seq<char>, p: int, c: char)
    requires
        0 <= p <= s.len(),
    ensures
        p <= find_char(s, p, c) <= s.len(),
        find_char(s, p, c) < s.len() ==> s[find_char(s, p, c)] == c,
        forall|i: int| p <= i < find_char(s, p, c) ==> s[i] != c,
    decreases s.len() - p,
{
    if p < s.len() && s[p] != c {
        lemma_find_char(s, p + 1, c);
    }
}

pub(crate) fn find_char_at(s: &Vec<char>, p: usize, c: char) -> (r: usize)
    requires
        p <= s@.len(),
    ensures
        r == find_char(s@, p as int, c),
        p <= r <= s@.len(),
{
    proof {
        lemma_find_char(s@, p as int, c);
    }
    let mut i = p;
    while i < s.len() && s[i] != c
        invariant
            p <= i <= s@.len(),
            find_char(s@, i as int, c) == find_char(s@, p as int, c),
        decreases s@.len() - i,
    {
        i = i + 1;
    }
    i
}

/// Without a final carriage return.
pub open spec fn strip_cr(t: Seq<char>) -> Seq<char> {
    if t.len() > 0 && t.last() == '\r' {
        t.drop_last()
    } else {
        t
    }
}

/// The lines of the text from `p` on, as `str::lines` gives them: split at `\n`, a `\r`
/// before it dropped, no line after a final `\n`.
pub open spec fn lines_from(s: Seq<char>, p: int) -> Seq<Seq<char>>
    decreases s.len() - p,
{
    if p < 0 || p >= s.len() {
        seq![]
    } else {
        let e = find_char(s, p, '\n');
        if e < s.len() {
            proof {
                lemma_find_char(s, p, '\n');
            }
            seq![strip_cr(s.subrange(p, e))] + lines_from(s, e + 1)
        } else {
            seq![s.subrange(p, s.len() as int)]
        }
    }
}

/// Without leading white space.
pub open spec fn trim_start(t: Seq<char>) -> Seq<char>
    decreases t.len(),
{
    if t.len() > 0 && is_white_space(t[0]) {
        trim_start(t.drop_first())
    } else {
        t
    }
}

/// Without leading or trailing white space (`str::trim`).
pub open spec fn trim(t: Seq<char>) -> Seq<char> {
    crate::print::trim_end(trim_start(t))
}

/// The pieces of the text from `q` on between the `c`s (`str::split`).
pub open spec fn split_from(t: Seq<char>, q: int, c: char) -> Seq<Seq<char>>
    decreases t.len() - q,
{
    if q < 0 || q > t.len() {
        seq![]
    } else {
        let e = find_char(t, q, c);
        if e < t.len() {
            proof {
                lemma_find_char(t, q, c);
            }
            seq![t.subrange(q, e)] + split_from(t, e + 1, c)
        } else {
            seq![t.subrange(q, t.len() as int)]
        }
    }
}

/// Where `->` first starts at or after `p`, if it does.
pub open spec fn arrow_from(t: Seq<char>, p: int) -> Option<int>
    decreases t.len() - p,
{
    if p < 0 || p + 1 >= t.len() {
        None
    } else if t[p] == '-' && t[p + 1] == '>' {
        Some(p)
    } else {
        arrow_from(t, p + 1)
    }
}

/// The non-empty trimmed pieces.
pub open spec fn corrections_of(pieces: Seq<Seq<char>>) -> Seq<Seq<char>>
    decreases pieces.len(),
{
    if pieces.len() == 0 {
        seq![]
    } else {
        let r = corrections_of(pieces.drop_last());
        let c = trim(pieces.last());
        if c.len() == 0 {
            r
        } else {
            r.push(c)
        }
    }
}

/// An entry of the list: the trimmed typo before the first `->`, and the non-empty
/// trimmed corrections after it, separated by commas.
pub open spec fn entry_of(line: Seq<char>) -> (Seq<char>, Seq<Seq<char>>) {
    match arrow_from(line, 0) {
        Some(i) => (trim(line.subrange(0, i)), corrections_of(split_from(line, i + 2, ','))),
        None => (line, seq![]),
    }
}

/// Every line has an `->`.
pub open spec fn all_arrows(raw: Seq<char>) -> bool {
    forall|k: int| 0 <= k < lines_from(raw, 0).len() ==> #[trigger] arrow_from(lines_from(raw, 0)[k], 0) is Some
}

pub open spec fn entry_view(e: (String, Vec<String>)) -> (Seq<char>, Seq<Seq<char>>) {
    (e.0@, strings_view(e.1@))
}

pub open spec fn entries_view(v: Seq<(String, Vec<String>)>) -> Seq<(Seq<char>, Seq<Seq<char>>)> {
    v.map_values(|e: (String, Vec<String>)| entry_view(e))
}

pub open spec fn entries_of(lines: Seq<Seq<char>>) -> Seq<(Seq<char>, Seq<Seq<char>>)> {
    lines.map_values(|l: Seq<char>| entry_of(l))
}

fn is_white(c: char) -> (r: bool)
    ensures
        r == is_white_space(c),
{
    ('\u{9}' <= c && c <= '\u{D}') || c == ' ' || c == '\u{85}' || c == '\u{A0}' || c == '\u{1680}'
        || ('\u{2000}' <= c && c <= '\u{200A}') || c == '\u{2028}' || c == '\u{2029}' || c == '\u{202F}'
        || c == '\u{205F}' || c == '\u{3000}'
}

/// The trimmed text `v[a..b]`.
pub(crate) fn trimmed(v: &Vec<char>, a: usize, b: usize) -> (r: String)
    requires
        a <= b <= v@.len(),
    ensures
        r@ == trim(v@.subrange(a as int, b as int)),
{
    let mut i = a;
    while i < b && is_white(v[i])
        invariant
            a <= i <= b <= v@.len(),
            trim_start(v@.subrange(i as int, b as int)) == trim_start(v@.subrange(a as int, b as int)),
        decreases b - i,
    {
        assert(v@.subrange(i as int, b as int).drop_first() =~= v@.subrange(i + 1, b as int));
        i = i + 1;
    }
    assert(trim_start(v@.subrange(i as int, b as int)) == v@.subrange(i as int, b as int));
    let mut j = b;
    while j > i && is_white(v[j - 1])
        invariant
            i <= j <= b,
            b <= v@.len(),
            crate::print::trim_end(v@.subrange(i as int, j as int)) == trim(v@.subrange(a as int, b as int)),
        decreases j,
    {
        assert(v@.subrange(i as int, j as int).drop_last() =~= v@.subrange(i as int, j - 1));
        j = j - 1;
    }
    assert(j > i ==> v@.subrange(i as int, j as int).last() == v@[j - 1]);
    string_from_range(v, i, j)
}

fn arrow_at(t: &Vec<char>) -> (r: usize)
    requires
        arrow_from(t@, 0) is Some,
    ensures
        arrow_from(t@, 0) == Some(r as int),
        r + 2 <= t@.len(),
{
    let n = t.len();
    let mut p: usize = 0;
    loop
        invariant
            n == t@.len(),
            arrow_from(t@, p as int) == arrow_from(t@, 0),
            arrow_from(t@, 0) is Some,
            p + 1 < t@.len(),
        decreases t@.len() - p,
    {
        if t[p] == '-' && t[p + 1] == '>' {
            return p;
        }
        p = p + 1;
    }
}

/// An entry of the list from its line.
fn parse_line(line: &Vec<char>) -> (r: (String, Vec<String>))
    requires
        arrow_from(line@, 0) is Some,
    ensures
        entry_view(r) == entry_of(line@),
{
    let n = line.len();
    let i = arrow_at(line);
    let typo = trimmed(line, 0, i);
    let mut corrections: Vec<String> = Vec::new();
    let ghost mut pieces: Seq<Seq<char>> = seq![];
    let mut q = i + 2;
    assert(strings_view(corrections@) =~= corrections_of(pieces));
    loop
        invariant
            i + 2 <= q <= line@.len(),
            typo@ == trim(line@.subrange(0, i as int)),
            arrow_from(line@, 0) == Some(i as int),
            pieces + split_from(line@, q as int, ',') == split_from(line@, i + 2, ','),
            strings_view(corrections@) == corrections_of(pieces),
        decreases line@.len() - q,
    {
        let e = find_char_at(line, q, ',');
        let piece = trimmed(line, q, e);
        let ghost raw = line@.subrange(q as int, e as int);
        let ghost before = corrections@;
        if piece.unicode_len() > 0 {
            corrections.push(piece);
            assert(strings_view(corrections@) =~= strings_view(before).push(trim(raw)));
        }
        proof {
            assert(pieces.push(raw).drop_last() =~= pieces);
            assert(pieces.push(raw).last() == raw);
            assert(strings_view(corrections@) == corrections_of(pieces.push(raw)));
        }
        if e < line.len() {
            proof {
                assert(pieces + split_from(line@, q as int, ',') =~= pieces.push(raw) + split_from(line@, e + 1, ','));
                pieces = pieces.push(raw);
            }
            q = e + 1;
        } else {
            proof {
                assert(pieces + split_from(line@, q as int, ',') =~= pieces.push(raw));
                pieces = pieces.push(raw);
                assert(pieces == split_from(line@, i + 2, ','));
                assert(strings_view(corrections@) == corrections_of(split_from(line@, i + 2, ',')));
                assert(typo@ == trim(line@.subrange(0, i as int)));
                assert(entry_of(line@) == (trim(line@.subrange(0, i as int)), corrections_of(split_from(line@, i + 2, ','))));
            }
            return (typo, corrections);
        }
    }
}

/// The entries of the list, one per line, in order.  (A line without `->` cannot be
/// read.)
pub fn parse_dict(raw: &str) -> (r: Vec<(String, Vec<String>)>)
    requires
        all_arrows(raw@),
    ensures
        entries_view(r@) == entries_of(lines_from(raw@, 0)),
{
    let s = chars_of(raw);
    let mut out: Vec<(String, Vec<String>)> = Vec::new();
    let ghost mut done: Seq<Seq<char>> = seq![];
    let mut p: usize = 0;
    assert(entries_view(out@) =~= entries_of(done));
    assert(done + lines_from(s@, 0) =~= lines_from(s@, 0));
    while p < s.len()
        invariant
            p <= s@.len(),
            s@ == raw@,
            all_arrows(raw@),
            done + lines_from(s@, p as int) == lines_from(s@, 0),
            entries_view(out@) == entries_of(done),
        decreases s@.len() - p,
    {
        let e = find_char_at(&s, p, '\n');
        let mut end = e;
        if e < s.len() && e > p && s[e - 1] == '\r' {
            end = e - 1;
        }
        let line = vstd::slice::slice_to_vec(vstd::slice::slice_subrange(s.as_slice(), p, end));
        let ghost l = line@;
        proof {
            if e < s@.len() {
                assert(l =~= strip_cr(s@.subrange(p as int, e as int)));
            } else {
                assert(l =~= s@.subrange(p as int, s@.len() as int));
            }
            assert(lines_from(s@, p as int)[0] == l);
            let k = done.len() as int;
            assert(lines_from(s@, 0)[k] == l);
        }
        let entry = parse_line(&line);
        let ghost before = out@;
        out.push(entry);
        assert(entries_view(out@) =~= entries_view(before).push(entry_of(l)));
        assert(entries_of(done.push(l)) =~= entries_of(done).push(entry_of(l)));
        proof {
            if e < s@.len() {
                assert(done + lines_from(s@, p as int) =~= done.push(l) + lines_from(s@, e + 1));
            } else {
                assert(done + lines_from(s@, p as int) =~= done.push(l));
                assert(lines_from(s@, s@.len() as int) =~= Seq::<Seq<char>>::empty());
                assert(done.push(l) + lines_from(s@, s@.len() as int) =~= done.push(l));
            }
            done = done.push(l);
        }
        p = if e < s.len() { e + 1 } else { s.len() };
    }
    assert(lines_from(s@, p as int) =~= Seq::<Seq<char>>::empty());
    assert(done =~= lines_from(s@, 0));
    out
}

/// The Rust literal of a list of strings (`{:?}` of a `Vec` of them).
pub uninterp spec fn debug_list(items: Seq<Seq<char>>) -> Seq<char>;

/// `<Vec<String> as Debug>::fmt`: the list's literal, named `debug_list`.
#[verifier::external_body]
fn list_literal(items: &Vec<String>) -> (r: String)
    ensures
        r@ == debug_list(strings_view(items@)),
{
    format!("{items:?}")
}

/// The table entries of the list: each typo with the literal of a reference to its
/// corrections.
pub open spec fn table_items(entries: Seq<(Seq<char>, Seq<Seq<char>>)>) -> Seq<ItemView> {
    entries.map_values(|e: (Seq<char>, Seq<Seq<char>>)| (e.0, "&"@ + debug_list(e.1)))
}

/// The generated source: a line naming the generator, a blank line, and the table
/// `WORD_DICTIONARY` of the list's entries.
pub open spec fn generated(raw: Seq<char>, generator: Seq<char>) -> Seq<Seq<char>> {
    seq!["// This file is code-genned by "@ + generator, ""@] + dict_table_lines(
        "WORD_DICTIONARY"@,
        "&[&str]"@,
        arranged(table_items(entries_of(lines_from(raw, 0)))),
    )
}

/// The source lines of the table of the codespell list.
pub fn generate(raw: &str, generator: &str) -> (r: Vec<String>)
    requires
        all_arrows(raw@),
    ensures
        texts(r@) == generated(raw@, generator@),
{
    let entries = parse_dict(raw);
    let mut data: Vec<Item> = Vec::new();
    let mut k: usize = 0;
    while k < entries.len()
        invariant
            k <= entries@.len(),
            views(data@) == table_items(entries_view(entries@.take(k as int))),
        decreases entries@.len() - k,
    {
        let mut value = String::from_str("&");
        let l = list_literal(&entries[k].1);
        value.append(l.as_str());
        let ghost before = data@;
        data.push((entries[k].0.clone(), value));
        proof {
            assert(entries_view(entries@.take(k + 1)) =~= entries_view(entries@.take(k as int)).push(entry_view(entries@[k as int])));
            assert(views(data@) =~= views(before).push((entries@[k as int].0@, "&"@ + debug_list(strings_view(entries@[k as int].1@)))));
            assert(table_items(entries_view(entries@.take(k + 1))) =~= table_items(entries_view(entries@.take(k as int))).push(
                (entries@[k as int].0@, "&"@ + debug_list(strings_view(entries@[k as int].1@))),
            ));
        }
        k = k + 1;
    }
    assert(entries@.take(entries@.len() as int) =~= entries@);
    let ghost items = views(data@);
    let table = DictGen::new().name("WORD_DICTIONARY").value_type("&[&str]").table().write(data);
    let ghost tv = texts(table@);
    assert(tv == dict_table_lines("WORD_DICTIONARY"@, "&[&str]"@, arranged(items)));
    let mut out: Vec<String> = Vec::new();
    let mut head = String::from_str("// This file is code-genned by ");
    head.append(generator);
    out.push(head);
    out.push(String::from_str(""));
    let ghost h = texts(out@);
    assert(h =~= seq!["// This file is code-genned by "@ + generator@, ""@]);
    let mut rest = table;
    out.append(&mut rest);
    assert(texts(out@) =~= h + tv);
    assert(texts(out@) =~= generated(raw@, generator@));
    out
}

} // verus!
