//! Reading the misspell word list, a Go source file whose `DictMain`, `DictAmerican` and
//! `DictBritish` sections hold lines `"typo", "correction",`, and generating the tables of
//! its three sections.

use vstd::prelude::*;

use vstd::string::StringExecFns;

use crate::dictgen::write::{arranged, debug_quoted, item_view, quoted, sort_items, texts, views, Item, ItemView};
use crate::tokens::chars_of;
use crate::wordlist::{find_char_at, lines_from, strip_cr, trim, trimmed};

verus! {

// ---------------------------------------------------------------------------------------
// Lines
// ---------------------------------------------------------------------------------------

/// Where the first `//` at or after `p` starts, or the end.
pub open spec fn comment_from(t: Seq<char>, p: int) -> int
    decreases t.len() - p,
{
    if p < 0 || p + 1 >= t.len() {
        t.len() as int
    } else if t[p] == '/' && t[p + 1] == '/' {
        p
    } else {
        comment_from(t, p + 1)
    }
}

/// The code of a line: what comes before its first `//`, trimmed.
pub open spec fn code_of(line: Seq<char>) -> Seq<char> {
    trim(line.subrange(0, comment_from(line, 0)))
}

/// `t` holds `p` somewhere.
pub open spec fn has_sub(t: Seq<char>, p: Seq<char>) -> bool {
    exists|i: int| 0 <= i && i + p.len() <= t.len() && #[trigger] t.subrange(i, i + p.len()) == p
}

/// `t` starts with `p`.
pub open spec fn starts(t: Seq<char>, p: Seq<char>) -> bool {
    p.len() <= t.len() && t.subrange(0, p.len() as int) == p
}

/// The text between an entry's two quoted strings.
pub open spec fn separator() -> Seq<char> {
    seq!['"', ',', ' ', '"']
}

/// The last separator starting in `1..=n`, or 0 when there is none.
pub open spec fn separator_before(t: Seq<char>, n: int) -> int
    decreases n,
{
    if n < 1 {
        0
    } else if n + 4 <= t.len() && t.subrange(n, n + 4) == separator() {
        n
    } else {
        separator_before(t, n - 1)
    }
}

/// The typo and correction of a line `"typo", "correction",` (the pattern
/// `^"(.*)", "(.*)",$`, whose first group takes as much as it can).
pub open spec fn mapping(t: Seq<char>) -> Option<(Seq<char>, Seq<char>)> {
    if t.len() >= 7 && t[0] == '"' && t[t.len() - 2] == '"' && t[t.len() - 1] == ',' {
        let p = separator_before(t, t.len() - 6);
        if p >= 1 {
            Some((t.subrange(1, p), t.subrange(p + 4, t.len() - 2)))
        } else {
            None
        }
    } else {
        None
    }
}

/// Where the lines being read go.
#[derive(Debug, Clone, Copy, PartialEq, Eq, Structural)]
pub enum Section {
    Outside,
    Main,
    American,
    British,
}

/// What reading lines gives: the section of the next line, the entries of each section
/// in order, and how many entries came outside any section.
pub struct ListView {
    pub section: Section,
    pub main: Seq<(Seq<char>, Seq<char>)>,
    pub american: Seq<(Seq<char>, Seq<char>)>,
    pub british: Seq<(Seq<char>, Seq<char>)>,
    pub outside: nat,
}

pub open spec fn empty_list() -> ListView {
    ListView { section: Section::Outside, main: seq![], american: seq![], british: seq![], outside: 0 }
}

/// Reading one more line: blank lines and the `package` line are skipped, a line naming a
/// section opens it, a `}` closes it, and an entry goes to the open section (lines that
/// are none of these are skipped).
pub open spec fn step(st: ListView, line: Seq<char>) -> ListView {
    let t = code_of(line);
    if t.len() == 0 || starts(t, "package"@) {
        st
    } else if has_sub(t, "DictMain"@) {
        ListView { section: Section::Main, ..st }
    } else if has_sub(t, "DictAmerican"@) {
        ListView { section: Section::American, ..st }
    } else if has_sub(t, "DictBritish"@) {
        ListView { section: Section::British, ..st }
    } else if t.contains('}') {
        ListView { section: Section::Outside, ..st }
    } else {
        match mapping(t) {
            None => st,
            Some(e) => match st.section {
                Section::Main => ListView { main: st.main.push(e), ..st },
                Section::American => ListView { american: st.american.push(e), ..st },
                Section::British => ListView { british: st.british.push(e), ..st },
                Section::Outside => ListView { outside: st.outside + 1, ..st },
            },
        }
    }
}

/// What reading the lines gives.
pub open spec fn read_lines(lines: Seq<Seq<char>>) -> ListView
    decreases lines.len(),
{
    if lines.len() == 0 {
        empty_list()
    } else {
        step(read_lines(lines.drop_last()), lines.last())
    }
}

proof fn lemma_comment_from(t: Seq<char>, p: int)
    requires
        0 <= p <= t.len(),
    ensures
        p <= comment_from(t, p) <= t.len(),
    decreases t.len() - p,
{
    if p + 1 < t.len() && !(t[p] == '/' && t[p + 1] == '/') {
        lemma_comment_from(t, p + 1);
    }
}

fn comment_at(t: &Vec<char>) -> (r: usize)
    ensures
        r == comment_from(t@, 0),
        r <= t@.len(),
{
    proof {
        lemma_comment_from(t@, 0);
    }
    let mut p: usize = 0;
    while t.len() > 0 && p < t.len() - 1
        invariant
            p <= t@.len(),
            comment_from(t@, p as int) == comment_from(t@, 0),
        decreases t@.len() - p,
    {
        if t[p] == '/' && t[p + 1] == '/' {
            return p;
        }
        p = p + 1;
    }
    t.len()
}

/// Whether `t` holds `p`.
fn has_sub_of(t: &Vec<char>, p: &str) -> (r: bool)
    ensures
        r == has_sub(t@, p@),
{
    let pc = chars_of(p);
    let n = t.len();
    let m = pc.len();
    if m > n {
        return false;
    }
    let mut i: usize = 0;
    while i <= n - m
        invariant
            n == t@.len(),
            m == pc@.len(),
            pc@ == p@,
            m <= n,
            i <= n - m + 1,
            forall|k: int| 0 <= k < i ==> #[trigger] t@.subrange(k, k + m) != p@,
        decreases n - i,
    {
        let mut j: usize = 0;
        while j < m && t[i + j] == pc[j]
            invariant
                n == t@.len(),
                m == pc@.len(),
                i + m <= n,
                j <= m,
                forall|k: int| 0 <= k < j ==> t@[i + k] == pc@[k],
            decreases m - j,
        {
            j = j + 1;
        }
        if j == m {
            assert(t@.subrange(i as int, i + m) =~= p@);
            return true;
        }
        assert(t@.subrange(i as int, i + m)[j as int] != p@[j as int]);
        i = i + 1;
    }
    proof {
        assert forall|k: int| 0 <= k && k + p@.len() <= t@.len() implies #[trigger] t@.subrange(k, k + p@.len()) != p@ by {
            assert(k < i);
        }
    }
    false
}

/// Whether `t` starts with `p`.
fn starts_of(t: &Vec<char>, p: &str) -> (r: bool)
    ensures
        r == starts(t@, p@),
{
    let pc = chars_of(p);
    let m = pc.len();
    if m > t.len() {
        return false;
    }
    let mut j: usize = 0;
    while j < m
        invariant
            m == pc@.len(),
            pc@ == p@,
            m <= t@.len(),
            j <= m,
            forall|k: int| 0 <= k < j ==> t@[k] == pc@[k],
        decreases m - j,
    {
        if t[j] != pc[j] {
            assert(t@.subrange(0, m as int)[j as int] != p@[j as int]);
            return false;
        }
        j = j + 1;
    }
    assert(t@.subrange(0, m as int) =~= p@);
    true
}

fn contains_char(t: &Vec<char>, c: char) -> (r: bool)
    ensures
        r == t@.contains(c),
{
    let mut i: usize = 0;
    while i < t.len()
        invariant
            i <= t@.len(),
            forall|k: int| 0 <= k < i ==> t@[k] != c,
        decreases t@.len() - i,
    {
        if t[i] == c {
            assert(t@[i as int] == c);
            return true;
        }
        i = i + 1;
    }
    false
}

proof fn lemma_separator_before(t: Seq<char>, n: int)
    ensures
        separator_before(t, n) <= n || separator_before(t, n) == 0,
        separator_before(t, n) >= 1 ==> separator_before(t, n) + 4 <= t.len() && t.subrange(
            separator_before(t, n),
            separator_before(t, n) + 4,
        ) == separator(),
    decreases n,
{
    if n >= 1 && !(n + 4 <= t.len() && t.subrange(n, n + 4) == separator()) {
        lemma_separator_before(t, n - 1);
    }
}

/// The typo and correction of an entry line.
fn mapping_of(t: &Vec<char>) -> (r: Option<(String, String)>)
    ensures
        match mapping(t@) {
            None => r is None,
            Some(e) => r matches Some(x) && x.0@ == e.0 && x.1@ == e.1,
        },
{
    let n = t.len();
    if !(n >= 7 && t[0] == '"' && t[n - 2] == '"' && t[n - 1] == ',') {
        return None;
    }
    proof {
        lemma_separator_before(t@, n - 6);
    }
    let mut p: usize = n - 6;
    while p >= 1
        invariant
            n == t@.len(),
            n >= 7,
            t@[0] == '"' && t@[n - 2] == '"' && t@[n - 1] == ',',
            p <= n - 6,
            separator_before(t@, p as int) == separator_before(t@, n - 6),
        decreases p,
    {
        if t[p] == '"' && t[p + 1] == ',' && t[p + 2] == ' ' && t[p + 3] == '"' {
            assert(t@.subrange(p as int, p + 4) =~= separator());
            assert(separator_before(t@, p as int) == p as int);
            let a = crate::tokens::string_from_range(t, 1, p);
            let b = crate::tokens::string_from_range(t, p + 4, n - 2);
            return Some((a, b));
        }
        assert(t@.subrange(p as int, p + 4) != separator()) by {
            if t@.subrange(p as int, p + 4) == separator() {
                assert(t@.subrange(p as int, p + 4)[0] == t@[p as int]);
                assert(t@.subrange(p as int, p + 4)[1] == t@[p + 1]);
                assert(t@.subrange(p as int, p + 4)[2] == t@[p + 2]);
                assert(t@.subrange(p as int, p + 4)[3] == t@[p + 3]);
            }
        }
        p = p - 1;
    }
    None
}

// ---------------------------------------------------------------------------------------
// The entries as maps
// ---------------------------------------------------------------------------------------

/// The entries without those of the word `k`.
pub open spec fn without_key(r: Seq<ItemView>, k: Seq<char>) -> Seq<ItemView>
    decreases r.len(),
{
    if r.len() == 0 {
        seq![]
    } else {
        let w = without_key(r.drop_last(), k);
        if r.last().0 == k {
            w
        } else {
            w.push(r.last())
        }
    }
}

/// The entries as a map from words keeps them: each word once, with its last correction,
/// in the order the words were last given.
pub open spec fn last_pairs(s: Seq<ItemView>) -> Seq<ItemView>
    decreases s.len(),
{
    if s.len() == 0 {
        seq![]
    } else {
        without_key(last_pairs(s.drop_last()), s.last().0).push(s.last())
    }
}

/// Each word at most once.
pub open spec fn keys_unique(r: Seq<ItemView>) -> bool {
    forall|i: int, j: int| 0 <= i < j < r.len() ==> (#[trigger] r[i]).0 != (#[trigger] r[j]).0
}

proof fn lemma_without_key_absent(r: Seq<ItemView>, k: Seq<char>)
    requires
        forall|i: int| 0 <= i < r.len() ==> (#[trigger] r[i]).0 != k,
    ensures
        without_key(r, k) == r,
    decreases r.len(),
{
    if r.len() > 0 {
        lemma_without_key_absent(r.drop_last(), k);
        assert(r =~= r.drop_last().push(r.last()));
    }
}

proof fn lemma_without_key_at(r: Seq<ItemView>, k: Seq<char>, i: int)
    requires
        keys_unique(r),
        0 <= i < r.len(),
        r[i].0 == k,
    ensures
        without_key(r, k) == r.remove(i),
    decreases r.len(),
{
    if i == r.len() - 1 {
        lemma_without_key_absent(r.drop_last(), k);
        assert(r.drop_last() =~= r.remove(i));
    } else {
        assert(r.last().0 != k);
        lemma_without_key_at(r.drop_last(), k, i);
        assert(r.drop_last().remove(i).push(r.last()) =~= r.remove(i));
    }
}

/// Gives the word of `e` the correction of `e`: its entry, if any, leaves, and `e` comes
/// last.
fn insert_last(out: &mut Vec<Item>, e: Item)
    requires
        keys_unique(views(old(out)@)),
    ensures
        keys_unique(views(final(out)@)),
        views(final(out)@) == without_key(views(old(out)@), e.0@).push(item_view(e)),
{
    let ghost r = views(out@);
    let ghost ev = item_view(e);
    let mut i: usize = 0;
    while i < out.len()
        invariant
            i <= out@.len(),
            r == views(out@),
            r == views(old(out)@),
            keys_unique(r),
            ev == item_view(e),
            forall|j: int| 0 <= j < i ==> (#[trigger] r[j]).0 != e.0@,
        decreases out@.len() - i,
    {
        if crate::builtin::str_eq(out[i].0.as_str(), e.0.as_str()) {
            assert(r[i as int].0 == e.0@);
            proof {
                lemma_without_key_at(r, e.0@, i as int);
            }
            out.remove(i);
            assert(views(out@) =~= r.remove(i as int));
            out.push(e);
            assert(views(out@) =~= r.remove(i as int).push(ev));
            proof {
                let nr = views(out@);
                assert forall|a: int, b: int| 0 <= a < b < nr.len() implies (#[trigger] nr[a]).0 != (#[trigger] nr[b]).0 by {
                    if b == nr.len() - 1 {
                        let ia = if a < i { a } else { a + 1 };
                        assert(nr[a] == r[ia]);
                    } else {
                        let ia = if a < i { a } else { a + 1 };
                        let ib = if b < i { b } else { b + 1 };
                        assert(nr[a] == r[ia] && nr[b] == r[ib]);
                    }
                }
            }
            return;
        }
        i = i + 1;
    }
    proof {
        lemma_without_key_absent(r, e.0@);
    }
    out.push(e);
    assert(views(out@) =~= r.push(ev));
}

// ---------------------------------------------------------------------------------------
// Reading the list
// ---------------------------------------------------------------------------------------

/// The three sections of the list, each a map from typos to corrections.
pub struct Words {
    pub main: Vec<Item>,
    pub american: Vec<Item>,
    pub british: Vec<Item>,
}

/// The sections of the list, each word with its last correction; the list may hold no
/// entry outside a section.
pub fn parse_dict(raw: &str) -> (r: Words)
    requires
        read_lines(lines_from(raw@, 0)).outside == 0,
    ensures
        views(r.main@) == last_pairs(read_lines(lines_from(raw@, 0)).main),
        views(r.american@) == last_pairs(read_lines(lines_from(raw@, 0)).american),
        views(r.british@) == last_pairs(read_lines(lines_from(raw@, 0)).british),
{
    let s = chars_of(raw);
    let mut section = Section::Outside;
    let mut main: Vec<Item> = Vec::new();
    let mut american: Vec<Item> = Vec::new();
    let mut british: Vec<Item> = Vec::new();
    let mut outside = false;
    let ghost mut done: Seq<Seq<char>> = seq![];
    let mut p: usize = 0;
    assert(done + lines_from(s@, 0) =~= lines_from(s@, 0));
    while p < s.len()
        invariant
            p <= s@.len(),
            s@ == raw@,
            done + lines_from(s@, p as int) == lines_from(s@, 0),
            section == read_lines(done).section,
            views(main@) == last_pairs(read_lines(done).main),
            views(american@) == last_pairs(read_lines(done).american),
            views(british@) == last_pairs(read_lines(done).british),
            keys_unique(views(main@)),
            keys_unique(views(american@)),
            keys_unique(views(british@)),
            outside == (read_lines(done).outside > 0),
        decreases s@.len() - p,
    {
        let e = find_char_at(&s, p, '\n');
        let mut end = e;
        if e < s.len() && e > p && s[e - 1] == '\r' {
            end = e - 1;
        }
        let line = vstd::slice::slice_to_vec(vstd::slice::slice_subrange(s.as_slice(), p, end));
        let ghost l = line@;
        proof {
            if e < s@.len() {
                assert(l =~= strip_cr(s@.subrange(p as int, e as int)));
            } else {
                assert(l =~= s@.subrange(p as int, s@.len() as int));
            }
            assert(lines_from(s@, p as int)[0] == l);
        }
        let c = comment_at(&line);
        let code = trimmed(&line, 0, c);
        let t = chars_of(code.as_str());
        assert(t@ == code_of(l));
        let ghost before = read_lines(done);
        if t.len() == 0 || starts_of(&t, "package") {
        } else if has_sub_of(&t, "DictMain") {
            section = Section::Main;
        } else if has_sub_of(&t, "DictAmerican") {
            section = Section::American;
        } else if has_sub_of(&t, "DictBritish") {
            section = Section::British;
        } else if contains_char(&t, '}') {
            section = Section::Outside;
        } else {
            match mapping_of(&t) {
                None => {},
                Some(entry) => {
                    let ghost ev = item_view(entry);
                    proof {
                        assert(before.main.push(ev).drop_last() =~= before.main);
                        assert(before.american.push(ev).drop_last() =~= before.american);
                        assert(before.british.push(ev).drop_last() =~= before.british);
                    }
                    match section {
                        Section::Main => insert_last(&mut main, entry),
                        Section::American => insert_last(&mut american, entry),
                        Section::British => insert_last(&mut british, entry),
                        Section::Outside => {
                            outside = true;
                        },
                    }
                },
            }
        }
        proof {
            let after = done.push(l);
            assert(after.drop_last() =~= done);
            assert(read_lines(after) == step(before, l));
            if e < s@.len() {
                assert(done + lines_from(s@, p as int) =~= after + lines_from(s@, e + 1));
            } else {
                assert(done + lines_from(s@, p as int) =~= after);
                assert(lines_from(s@, s@.len() as int) =~= Seq::<Seq<char>>::empty());
                assert(after + lines_from(s@, s@.len() as int) =~= after);
            }
            done = after;
        }
        p = if e < s.len() { e + 1 } else { s.len() };
    }
    assert(lines_from(s@, p as int) =~= Seq::<Seq<char>>::empty());
    assert(done =~= lines_from(s@, 0));
    Words { main, american, british }
}

// ---------------------------------------------------------------------------------------
// Generating the tables
// ---------------------------------------------------------------------------------------

/// A table entry: the typo, and the literal of a reference to its one correction.
pub open spec fn table_item(e: ItemView) -> ItemView {
    (e.0, "&["@ + debug_quoted(e.1) + "]"@)
}

pub open spec fn table_items(s: Seq<ItemView>) -> Seq<ItemView> {
    s.map_values(|e: ItemView| table_item(e))
}

pub open spec fn entry_line(it: ItemView) -> Seq<char> {
    "  ("@ + debug_quoted(it.0) + ", "@ + it.1 + "),"@
}

/// The lines of a static slice of the (sorted) entries.
pub open spec fn section_lines(name: Seq<char>, s: Seq<ItemView>) -> Seq<Seq<char>> {
    seq!["pub static "@ + name + ": &[(&str, &[&str])] = &["@] + s.map_values(|it: ItemView| entry_line(it)) + seq![
        "];"@,
    ]
}

/// The generated source: a line naming the generator, an attribute, a blank line, and
/// the tables `MAIN_DICTIONARY`, `AMERICAN_DICTIONARY` and `BRITISH_DICTIONARY` of the
/// three sections, each sorted by word ignoring case, with blank lines between them.
pub open spec fn generated(raw: Seq<char>, generator: Seq<char>) -> Seq<Seq<char>> {
    let st = read_lines(lines_from(raw, 0));
    seq!["// This file is code-genned by "@ + generator, "#![allow(clippy::unreadable_literal)]"@, ""@]
        + section_lines("MAIN_DICTIONARY"@, arranged(table_items(last_pairs(st.main)))) + seq![""@]
        + section_lines("AMERICAN_DICTIONARY"@, arranged(table_items(last_pairs(st.american)))) + seq![""@]
        + section_lines("BRITISH_DICTIONARY"@, arranged(table_items(last_pairs(st.british))))
}

fn push_text(out: &mut Vec<String>, line: String)
    ensures
        texts(final(out)@) == texts(old(out)@).push(line@),
{
    let ghost before = out@;
    let ghost l = line@;
    out.push(line);
    assert(texts(out@) =~= texts(before).push(l));
}

/// Appends the lines of a table of the entries.
fn push_section(out: &mut Vec<String>, name: &str, entries: &Vec<Item>)
    ensures
        texts(final(out)@) == texts(old(out)@) + section_lines(name@, arranged(table_items(views(entries@)))),
{
    let ghost start = texts(out@);
    let mut items: Vec<Item> = Vec::new();
    let mut k: usize = 0;
    assert(table_items(views(entries@.take(0))) =~= Seq::<ItemView>::empty());
    while k < entries.len()
        invariant
            k <= entries@.len(),
            views(items@) == table_items(views(entries@.take(k as int))),
        decreases entries@.len() - k,
    {
        let mut value = String::from_str("&[");
        let q = quoted(entries[k].1.as_str());
        value.append(q.as_str());
        value.append("]");
        let ghost before = items@;
        items.push((entries[k].0.clone(), value));
        proof {
            assert(views(entries@.take(k + 1)) =~= views(entries@.take(k as int)).push(item_view(entries@[k as int])));
            assert(views(items@) =~= views(before).push(table_item(item_view(entries@[k as int]))));
        }
        k = k + 1;
    }
    assert(entries@.take(entries@.len() as int) =~= entries@);
    let sorted = sort_items(items);
    let mut head = String::from_str("pub static ");
    head.append(name);
    head.append(": &[(&str, &[&str])] = &[");
    push_text(out, head);
    let ghost sv = views(sorted@);
    let mut j: usize = 0;
    while j < sorted.len()
        invariant
            j <= sorted@.len(),
            sv == views(sorted@),
            texts(out@) == start + seq!["pub static "@ + name@ + ": &[(&str, &[&str])] = &["@] + sv.take(j as int).map_values(
                |it: ItemView| entry_line(it),
            ),
        decreases sorted@.len() - j,
    {
        let mut line = String::from_str("  (");
        let q = quoted(sorted[j].0.as_str());
        line.append(q.as_str());
        line.append(", ");
        line.append(sorted[j].1.as_str());
        line.append("),");
        push_text(out, line);
        assert(sv.take(j + 1) =~= sv.take(j as int).push(sv[j as int]));
        j = j + 1;
    }
    assert(sv.take(sv.len() as int) =~= sv);
    push_text(out, String::from_str("];"));
    assert(texts(out@) =~= start + section_lines(name@, sv));
}

/// The source lines of the tables of the misspell list.
pub fn generate(raw: &str, generator: &str) -> (r: Vec<String>)
    requires
        read_lines(lines_from(raw@, 0)).outside == 0,
    ensures
        texts(r@) == generated(raw@, generator@),
{
    let words = parse_dict(raw);
    let mut out: Vec<String> = Vec::new();
    let mut head = String::from_str("// This file is code-genned by ");
    head.append(generator);
    push_text(&mut out, head);
    push_text(&mut out, String::from_str("#![allow(clippy::unreadable_literal)]"));
    push_text(&mut out, String::from_str(""));
    push_section(&mut out, "MAIN_DICTIONARY", &words.main);
    push_text(&mut out, String::from_str(""));
    push_section(&mut out, "AMERICAN_DICTIONARY", &words.american);
    push_text(&mut out, String::from_str(""));
    push_section(&mut out, "BRITISH_DICTIONARY", &words.british);
    assert(texts(out@) =~= generated(raw@, generator@));
    out
}

} // verus!
