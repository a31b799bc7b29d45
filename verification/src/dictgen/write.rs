//! The Rust source text of generated tables, line by line, and the sorting of their
//! entries by word ignoring case.
//!
//! An entry is a word and the source text of its value.

use vstd::prelude::*;

use vstd::utf8::is_ascii_chars;
use crate::decimal::{decimal, to_decimal};
use crate::dictgen::{key_type_of, spec_key_type, AhoCorasickGen, DictTableGen, MapGen, MatchGen, OrderedMapGen};
use crate::tokens::{byte_len, lemma_byte_len_is_encoding_len};
use vstd::relations::{sorted_by, total_ordering};
use crate::casefold::{
    lemma_lex_chain_strict, lemma_lex_sign_antisymmetric, lemma_lex_sign_transitive,
    lemma_lex_sign_zero, lemma_lex_strict_chain, lex_sign, unicase_folded, unicase_sign,
};
use crate::tokens::chars_of;
use crate::file_type::lex_chars;

verus! {

broadcast use {vstd::multiset::group_multiset_axioms, vstd::seq_lib::group_to_multiset_ensures};

/// A word and the source text of its value.
pub type Item = (String, String);

/// An entry as plain text: `(word, value)`.
pub type ItemView = (Seq<char>, Seq<char>);

pub open spec fn item_view(p: Item) -> ItemView {
    (p.0@, p.1@)
}

pub open spec fn views(s: Seq<Item>) -> Seq<ItemView> {
    s.map_values(|p: Item| item_view(p))
}

/// The order of entries: by word ignoring case, then by word, then by value.
pub open spec fn item_sign(a: ItemView, b: ItemView) -> int {
    let f = lex_sign(unicase_folded(a.0), unicase_folded(b.0));
    if f != 0 {
        f
    } else {
        let k = lex_sign(a.0, b.0);
        if k != 0 {
            k
        } else {
            lex_sign(a.1, b.1)
        }
    }
}

pub open spec fn item_le(a: ItemView, b: ItemView) -> bool {
    item_sign(a, b) <= 0
}

proof fn lemma_item_sign_antisymmetric(a: ItemView, b: ItemView)
    ensures
        item_sign(a, b) == -item_sign(b, a),
{
    lemma_lex_sign_antisymmetric(unicase_folded(a.0), unicase_folded(b.0));
    lemma_lex_sign_antisymmetric(a.0, b.0);
    lemma_lex_sign_antisymmetric(a.1, b.1);
}

/// Entries equal in the order are the same entry.
proof fn lemma_item_sign_zero(a: ItemView, b: ItemView)
    ensures
        item_sign(a, b) == 0 <==> a == b,
{
    lemma_lex_sign_zero(unicase_folded(a.0), unicase_folded(b.0));
    lemma_lex_sign_zero(a.0, b.0);
    lemma_lex_sign_zero(a.1, b.1);
}

proof fn lemma_item_le_transitive(a: ItemView, b: ItemView, c: ItemView)
    requires
        item_le(a, b),
        item_le(b, c),
    ensures
        item_le(a, c),
{
    let (fa, fb, fc) = (unicase_folded(a.0), unicase_folded(b.0), unicase_folded(c.0));
    lemma_lex_sign_zero(fa, fb);
    lemma_lex_sign_zero(fb, fc);
    lemma_lex_sign_zero(fa, fc);
    lemma_lex_sign_zero(a.0, b.0);
    lemma_lex_sign_zero(b.0, c.0);
    lemma_lex_sign_zero(a.0, c.0);
    if lex_sign(fa, fb) < 0 {
        lemma_lex_strict_chain(fa, fb, fc);
    } else if lex_sign(fb, fc) < 0 {
        lemma_lex_chain_strict(fa, fb, fc);
    } else if lex_sign(a.0, b.0) < 0 {
        lemma_lex_strict_chain(a.0, b.0, c.0);
    } else if lex_sign(b.0, c.0) < 0 {
        lemma_lex_chain_strict(a.0, b.0, c.0);
    } else {
        lemma_lex_sign_transitive(a.1, b.1, c.1);
    }
}

proof fn lemma_item_le_total_ordering()
    ensures
        total_ordering(|a: ItemView, b: ItemView| item_le(a, b)),
{
    let leq = |a: ItemView, b: ItemView| item_le(a, b);
    assert forall|a: ItemView| #[trigger] leq(a, a) by {
        lemma_item_sign_antisymmetric(a, a);
    }
    assert forall|a: ItemView, b: ItemView| #[trigger] leq(a, b) && #[trigger] leq(b, a) implies a == b by {
        lemma_item_sign_antisymmetric(a, b);
        lemma_item_sign_zero(a, b);
    }
    assert forall|a: ItemView, b: ItemView, c: ItemView| #[trigger] leq(a, b) && #[trigger] leq(b, c) implies leq(a, c) by {
        lemma_item_le_transitive(a, b, c);
    }
    assert forall|a: ItemView, b: ItemView| #[trigger] leq(a, b) || #[trigger] leq(b, a) by {
        lemma_item_sign_antisymmetric(a, b);
    }
}

// ---------------------------------------------------------------------------------------
// Sorting
// ---------------------------------------------------------------------------------------

fn item_order(a: &Item, b: &Item) -> (r: i8)
    ensures
        r == item_sign(item_view(*a), item_view(*b)),
{
    let f = unicase_sign(a.0.as_str(), b.0.as_str());
    if f != 0 {
        return f;
    }
    let k = lex_chars(&chars_of(a.0.as_str()), &chars_of(b.0.as_str()));
    if k != 0 {
        return k;
    }
    lex_chars(&chars_of(a.1.as_str()), &chars_of(b.1.as_str()))
}

/// A copy of an entry.
pub(crate) fn clone_item(p: &Item) -> (r: Item)
    ensures
        item_view(r) == item_view(*p),
{
    (p.0.clone(), p.1.clone())
}

fn merge_items(a: &Vec<Item>, b: &Vec<Item>) -> (r: Vec<Item>)
    requires
        sorted_by(views(a@), |x: ItemView, y: ItemView| item_le(x, y)),
        sorted_by(views(b@), |x: ItemView, y: ItemView| item_le(x, y)),
    ensures
        sorted_by(views(r@), |x: ItemView, y: ItemView| item_le(x, y)),
        views(r@).to_multiset() == views(a@).to_multiset().add(views(b@).to_multiset()),
{
    let ghost leq = |x: ItemView, y: ItemView| item_le(x, y);
    let mut out: Vec<Item> = Vec::new();
    let mut i: usize = 0;
    let mut j: usize = 0;
    assert(views(a@.take(0)) =~= Seq::<ItemView>::empty());
    assert(views(b@.take(0)) =~= Seq::<ItemView>::empty());
    assert(views(out@) =~= Seq::<ItemView>::empty());
    assert(views(out@).to_multiset() =~= views(a@.take(0)).to_multiset().add(views(b@.take(0)).to_multiset()));
    while i < a.len() || j < b.len()
        invariant
            i <= a@.len(),
            j <= b@.len(),
            leq == |x: ItemView, y: ItemView| item_le(x, y),
            sorted_by(views(a@), leq),
            sorted_by(views(b@), leq),
            sorted_by(views(out@), leq),
            views(out@).to_multiset() == views(a@.take(i as int)).to_multiset().add(
                views(b@.take(j as int)).to_multiset(),
            ),
            out@.len() > 0 && i < a@.len() ==> item_le(item_view(out@.last()), item_view(a@[i as int])),
            out@.len() > 0 && j < b@.len() ==> item_le(item_view(out@.last()), item_view(b@[j as int])),
        decreases a@.len() + b@.len() - i - j,
    {
        let take_a = if i == a.len() {
            false
        } else if j == b.len() {
            true
        } else {
            item_order(&a[i], &b[j]) <= 0
        };
        let ghost before = out@;
        if take_a {
            let e = clone_item(&a[i]);
            proof {
                assert(views(a@.take(i + 1)) =~= views(a@.take(i as int)).push(item_view(a@[i as int])));
                if i + 1 < a@.len() {
                    assert(leq(views(a@)[i as int], views(a@)[i + 1]));
                }
            }
            out.push(e);
            i = i + 1;
        } else {
            let e = clone_item(&b[j]);
            proof {
                if i < a@.len() {
                    lemma_item_sign_antisymmetric(item_view(a@[i as int]), item_view(b@[j as int]));
                }
                assert(views(b@.take(j + 1)) =~= views(b@.take(j as int)).push(item_view(b@[j as int])));
                if j + 1 < b@.len() {
                    assert(leq(views(b@)[j as int], views(b@)[j + 1]));
                }
            }
            out.push(e);
            j = j + 1;
        }
        proof {
            let e = item_view(out@.last());
            assert(views(out@) =~= views(before).push(e));
            assert forall|k1: int, k2: int| 0 <= k1 < k2 < views(out@).len() implies #[trigger] leq(
                views(out@)[k1],
                views(out@)[k2],
            ) by {
                if k2 == out@.len() - 1 && k1 < k2 - 1 {
                    assert(leq(views(before)[k1], views(before)[k2 - 1]));
                    lemma_item_le_transitive(views(out@)[k1], views(out@)[k2 - 1], e);
                } else if k2 < out@.len() - 1 {
                    assert(leq(views(before)[k1], views(before)[k2]));
                }
            }
            assert(views(out@).to_multiset() =~= views(a@.take(i as int)).to_multiset().add(
                views(b@.take(j as int)).to_multiset(),
            ));
        }
    }
    assert(a@.take(a@.len() as int) =~= a@);
    assert(b@.take(b@.len() as int) =~= b@);
    out
}

fn sort_item_runs(data: Vec<Item>) -> (r: Vec<Item>)
    ensures
        sorted_by(views(r@), |x: ItemView, y: ItemView| item_le(x, y)),
        views(r@).to_multiset() == views(data@).to_multiset(),
    decreases data@.len(),
{
    if data.len() <= 1 {
        return data;
    }
    let ghost all = data@;
    let mut left = data;
    let mid = left.len() / 2;
    let right = left.split_off(mid);
    assert(views(all) =~= views(left@) + views(right@));
    proof {
        vstd::seq_lib::lemma_multiset_commutative(views(left@), views(right@));
    }
    let l = sort_item_runs(left);
    let r = sort_item_runs(right);
    merge_items(&l, &r)
}

/// The entries in order (the one arrangement of them that the order sorts).
pub open spec fn arranged(s: Seq<ItemView>) -> Seq<ItemView> {
    choose|t: Seq<ItemView>| sorted_by(t, |a: ItemView, b: ItemView| item_le(a, b)) && t.to_multiset() == s.to_multiset()
}

/// The entries sorted by word ignoring case, then by word, then by value.
pub fn sort_items(data: Vec<Item>) -> (r: Vec<Item>)
    ensures
        views(r@) == arranged(views(data@)),
        views(r@).to_multiset() == views(data@).to_multiset(),
{
    let ghost leq = |x: ItemView, y: ItemView| item_le(x, y);
    let r = sort_item_runs(data);
    proof {
        lemma_item_le_total_ordering();
        let t = arranged(views(data@));
        assert(sorted_by(views(r@), leq) && views(r@).to_multiset() == views(data@).to_multiset());
        vstd::seq_lib::lemma_sorted_unique(views(r@), t, leq);
    }
    r
}

/// The arrangement of entries holds the same entries, sorted; entries that arrange alike
/// are the same entries.
pub proof fn lemma_arranged(s: Seq<ItemView>, t: Seq<ItemView>)
    ensures
        sorted_by(arranged(s), |a: ItemView, b: ItemView| item_le(a, b)),
        arranged(s).to_multiset() == s.to_multiset(),
        s.to_multiset() == t.to_multiset() ==> arranged(s) == arranged(t),
{
    let leq = |a: ItemView, b: ItemView| item_le(a, b);
    lemma_item_le_total_ordering();
    let w = s.sort_by(leq);
    s.lemma_sort_by_ensures(leq);
    assert(sorted_by(w, leq) && w.to_multiset() == s.to_multiset());
}

// ---------------------------------------------------------------------------------------
// Lines
// ---------------------------------------------------------------------------------------

/// The texts of lines.
pub open spec fn texts(v: Seq<String>) -> Seq<Seq<char>> {
    v.map_values(|s: String| s@)
}

pub(crate) fn push_str(out: &mut Vec<String>, line: &str)
    ensures
        texts(final(out)@) == texts(old(out)@).push(line@),
{
    let ghost before = out@;
    out.push(String::from_str(line));
    assert(texts(out@) =~= texts(before).push(line@));
}

pub(crate) fn push_line(out: &mut Vec<String>, line: String)
    ensures
        texts(final(out)@) == texts(old(out)@).push(line@),
{
    let ghost before = out@;
    let ghost l = line@;
    out.push(line);
    assert(texts(out@) =~= texts(before).push(l));
}

/// The Rust literal of a string, as `Debug` writes it.
pub uninterp spec fn debug_quoted(s: Seq<char>) -> Seq<char>;

/// `<str as Debug>::fmt`: the string's literal, named `debug_quoted`.
#[verifier::external_body]
pub(crate) fn quoted(s: &str) -> (r: String)
    ensures
        r@ == debug_quoted(s@),
{
    format!("{s:?}")
}

/// How an entry is written on a line.
#[derive(Clone, Copy)]
pub enum LineKind {
    /// The key, in the form of the key type.
    Key { unicase: bool, unicode: bool },
    /// The value, in a table.
    Value,
    /// A `match` arm from the word to its value.
    MatchArm,
    /// The word as a byte string.
    Needle,
    /// The value, in a nested table.
    NestedValue,
}

/// A key in the form of the key type: a case-insensitive string (ASCII or Unicode), an
/// ASCII case-insensitive string, or a plain string.
pub open spec fn key_literal(unicase: bool, unicode: bool, k: Seq<char>) -> Seq<char> {
    if unicase && unicode {
        if is_ascii_chars(k) {
            "dictgen::InsensitiveStr::Ascii("@ + debug_quoted(k) + ")"@
        } else {
            "dictgen::InsensitiveStr::Unicode("@ + debug_quoted(k) + ")"@
        }
    } else if unicase {
        "dictgen::InsensitiveAscii("@ + debug_quoted(k) + ")"@
    } else {
        debug_quoted(k)
    }
}

pub open spec fn item_line(kind: LineKind, it: ItemView) -> Seq<char> {
    match kind {
        LineKind::Key { unicase, unicode } => "      "@ + key_literal(unicase, unicode, it.0) + ","@,
        LineKind::Value => "      "@ + it.1 + ","@,
        LineKind::MatchArm => "            "@ + debug_quoted(it.0) + " => Some(&"@ + it.1 + ".as_slice()),"@,
        LineKind::Needle => "            b"@ + debug_quoted(it.0) + ","@,
        LineKind::NestedValue => "            "@ + it.1 + ","@,
    }
}

pub open spec fn item_lines(kind: LineKind, s: Seq<ItemView>) -> Seq<Seq<char>> {
    s.map_values(|it: ItemView| item_line(kind, it))
}

/// The entries whose words are ASCII (or not).
pub open spec fn keep(s: Seq<ItemView>, ascii: bool) -> Seq<ItemView>
    decreases s.len(),
{
    if s.len() == 0 {
        seq![]
    } else if is_ascii_chars(s.last().0) == ascii {
        keep(s.drop_last(), ascii).push(s.last())
    } else {
        keep(s.drop_last(), ascii)
    }
}

/// All entries, or those whose words are ASCII (or not).
pub open spec fn selected(s: Seq<ItemView>, filter: Option<bool>) -> Seq<ItemView> {
    match filter {
        None => s,
        Some(ascii) => keep(s, ascii),
    }
}

fn key_literal_of(unicase: bool, unicode: bool, k: &str) -> (r: String)
    ensures
        r@ == key_literal(unicase, unicode, k@),
{
    let q = quoted(k);
    if unicase && unicode {
        let mut l = if k.is_ascii() {
            String::from_str("dictgen::InsensitiveStr::Ascii(")
        } else {
            String::from_str("dictgen::InsensitiveStr::Unicode(")
        };
        l.append(q.as_str());
        l.append(")");
        l
    } else if unicase {
        let mut l = String::from_str("dictgen::InsensitiveAscii(");
        l.append(q.as_str());
        l.append(")");
        l
    } else {
        q
    }
}

fn item_line_of(kind: LineKind, p: &Item) -> (r: String)
    ensures
        r@ == item_line(kind, item_view(*p)),
{
    match kind {
        LineKind::Key { unicase, unicode } => {
            let mut l = String::from_str("      ");
            let k = key_literal_of(unicase, unicode, p.0.as_str());
            l.append(k.as_str());
            l.append(",");
            l
        },
        LineKind::Value => {
            let mut l = String::from_str("      ");
            l.append(p.1.as_str());
            l.append(",");
            l
        },
        LineKind::MatchArm => {
            let mut l = String::from_str("            ");
            let q = quoted(p.0.as_str());
            l.append(q.as_str());
            l.append(" => Some(&");
            l.append(p.1.as_str());
            l.append(".as_slice()),");
            l
        },
        LineKind::Needle => {
            let mut l = String::from_str("            b");
            let q = quoted(p.0.as_str());
            l.append(q.as_str());
            l.append(",");
            l
        },
        LineKind::NestedValue => {
            let mut l = String::from_str("            ");
            l.append(p.1.as_str());
            l.append(",");
            l
        },
    }
}

/// Writes a line per entry (per selected entry), in order.
fn push_item_lines(out: &mut Vec<String>, items: &Vec<Item>, kind: LineKind, filter: Option<bool>)
    ensures
        texts(final(out)@) == texts(old(out)@) + item_lines(kind, selected(views(items@), filter)),
{
    let ghost start = texts(out@);
    let mut k: usize = 0;
    assert(views(items@.take(0)) =~= Seq::<ItemView>::empty());
    assert(item_lines(kind, selected(views(items@.take(0)), filter)) =~= Seq::<Seq<char>>::empty());
    assert(texts(out@) =~= start + item_lines(kind, selected(views(items@.take(0)), filter)));
    while k < items.len()
        invariant
            k <= items@.len(),
            texts(out@) == start + item_lines(kind, selected(views(items@.take(k as int)), filter)),
        decreases items@.len() - k,
    {
        let p = &items[k];
        let ghost before = texts(out@);
        let ghost prev = selected(views(items@.take(k as int)), filter);
        assert(views(items@.take(k + 1)) =~= views(items@.take(k as int)).push(item_view(*p)));
        assert(views(items@.take(k + 1)).drop_last() =~= views(items@.take(k as int)));
        let take = match filter {
            None => true,
            Some(ascii) => p.0.as_str().is_ascii() == ascii,
        };
        if take {
            let line = item_line_of(kind, p);
            push_line(out, line);
            assert(selected(views(items@.take(k + 1)), filter) =~= prev.push(item_view(*p)));
            assert(item_lines(kind, prev.push(item_view(*p))) =~= item_lines(kind, prev).push(item_line(kind, item_view(*p))));
        } else {
            assert(selected(views(items@.take(k + 1)), filter) =~= prev);
        }
        k = k + 1;
    }
    assert(items@.take(items@.len() as int) =~= items@);
}

/// The shortest key's length in bytes (`usize::MAX` for none).
pub open spec fn min_len(s: Seq<ItemView>) -> nat
    decreases s.len(),
{
    if s.len() == 0 {
        usize::MAX as nat
    } else {
        let m = min_len(s.drop_last());
        let l = byte_len(s.last().0);
        if l < m {
            l
        } else {
            m
        }
    }
}

/// The longest key's length in bytes (0 for none).
pub open spec fn max_len(s: Seq<ItemView>) -> nat
    decreases s.len(),
{
    if s.len() == 0 {
        0
    } else {
        let m = max_len(s.drop_last());
        let l = byte_len(s.last().0);
        if l > m {
            l
        } else {
            m
        }
    }
}

/// The range of key lengths: `0..=0` when every key is empty (or there are none).
pub open spec fn key_range(s: Seq<ItemView>) -> (nat, nat) {
    if max_len(s) == 0 {
        (0, 0)
    } else {
        (min_len(s), max_len(s))
    }
}

fn key_range_of(items: &Vec<Item>) -> (r: (usize, usize))
    ensures
        r.0 == key_range(views(items@)).0,
        r.1 == key_range(views(items@)).1,
{
    let mut smallest: usize = usize::MAX;
    let mut largest: usize = 0;
    let mut k: usize = 0;
    assert(views(items@.take(0)) =~= Seq::<ItemView>::empty());
    while k < items.len()
        invariant
            k <= items@.len(),
            smallest == min_len(views(items@.take(k as int))),
            largest == max_len(views(items@.take(k as int))),
        decreases items@.len() - k,
    {
        let key = items[k].0.as_str();
        proof {
            lemma_byte_len_is_encoding_len(key@);
            assert(views(items@.take(k + 1)).drop_last() =~= views(items@.take(k as int)));
            assert(views(items@.take(k + 1)).last() == item_view(items@[k as int]));
        }
        let l = key.as_bytes().len();
        if l < smallest {
            smallest = l;
        }
        if l > largest {
            largest = l;
        }
        k = k + 1;
    }
    assert(items@.take(items@.len() as int) =~= items@);
    if largest == 0 {
        smallest = 0;
    }
    (smallest, largest)
}

pub open spec fn range_line(r: (nat, nat)) -> Seq<char> {
    "    range: "@ + decimal(r.0) + "..="@ + decimal(r.1) + ","@
}

/// A sorted table's lines after its first: its keys, its values and its range.
pub open spec fn table_body(key: LineKind, s: Seq<ItemView>) -> Seq<Seq<char>> {
    seq!["    keys: &["@] + item_lines(key, s) + seq!["    ],"@, "    values: &["@] + item_lines(
        LineKind::Value,
        s,
    ) + seq!["    ],"@, range_line(key_range(s)), "};"@]
}

pub open spec fn ordered_map_header(name: Seq<char>, value_type: Seq<char>, unicase: bool, unicode: bool) -> Seq<char> {
    "pub static "@ + name + ": dictgen::OrderedMap<"@ + spec_key_type(unicase, unicode) + ", "@ + value_type
        + "> = dictgen::OrderedMap {"@
}

/// The lines of an ordered map of the (sorted) entries.
pub open spec fn ordered_map_lines(
    name: Seq<char>,
    value_type: Seq<char>,
    unicase: bool,
    unicode: bool,
    s: Seq<ItemView>,
) -> Seq<Seq<char>> {
    seq![ordered_map_header(name, value_type, unicase, unicode)] + table_body(
        LineKind::Key { unicase, unicode },
        s,
    )
}

/// The lines of a table of the (sorted) entries, keyed by case-insensitive strings.
pub open spec fn dict_table_lines(name: Seq<char>, value_type: Seq<char>, s: Seq<ItemView>) -> Seq<Seq<char>> {
    seq!["pub static "@ + name + ": dictgen::DictTable<"@ + value_type + "> = dictgen::DictTable {"@] + table_body(
        LineKind::Key { unicase: true, unicode: true },
        s,
    )
}

fn push_table_body(out: &mut Vec<String>, key: LineKind, items: &Vec<Item>)
    ensures
        texts(final(out)@) == texts(old(out)@) + table_body(key, views(items@)),
{
    let ghost start = texts(out@);
    push_str(out, "    keys: &[");
    push_item_lines(out, items, key, None);
    push_str(out, "    ],");
    push_str(out, "    values: &[");
    push_item_lines(out, items, LineKind::Value, None);
    push_str(out, "    ],");
    let (smallest, largest) = key_range_of(items);
    let mut line = String::from_str("    range: ");
    let a = to_decimal(smallest);
    line.append(a.as_str());
    line.append("..=");
    let b = to_decimal(largest);
    line.append(b.as_str());
    line.append(",");
    push_line(out, line);
    push_str(out, "};");
    assert(texts(out@) =~= start + table_body(key, views(items@)));
}

pub(crate) fn push_ordered_map(out: &mut Vec<String>, name: &str, value_type: &str, unicase: bool, unicode: bool, items: &Vec<Item>)
    ensures
        texts(final(out)@) == texts(old(out)@) + ordered_map_lines(name@, value_type@, unicase, unicode, views(items@)),
{
    let ghost start = texts(out@);
    let mut header = String::from_str("pub static ");
    header.append(name);
    header.append(": dictgen::OrderedMap<");
    header.append(key_type_of(unicase, unicode));
    header.append(", ");
    header.append(value_type);
    header.append("> = dictgen::OrderedMap {");
    push_line(out, header);
    push_table_body(out, LineKind::Key { unicase, unicode }, items);
    assert(texts(out@) =~= start + ordered_map_lines(name@, value_type@, unicase, unicode, views(items@)));
}

impl<'g> OrderedMapGen<'g> {
    /// The lines of the generated table: the entries sorted by word ignoring case, each
    /// key in the form of the table's key type, each value as given, and the range of
    /// key lengths.
    pub fn write(&self, data: Vec<Item>) -> (r: Vec<String>)
        ensures
            texts(r@) == ordered_map_lines(self@.0.0, self@.0.1, self@.1, self@.2, arranged(views(data@))),
    {
        let items = sort_items(data);
        let mut out: Vec<String> = Vec::new();
        assert(texts(out@) =~= Seq::<Seq<char>>::empty());
        push_ordered_map(&mut out, self.gen.name, self.gen.value_type, self.unicase, self.unicode, &items);
        assert(texts(out@) =~= ordered_map_lines(self@.0.0, self@.0.1, self@.1, self@.2, views(items@)));
        out
    }
}

/// The lines of a hash map of the entries, given the source text of its `phf` map.
pub open spec fn map_lines(
    name: Seq<char>,
    value_type: Seq<char>,
    unicase: bool,
    unicode: bool,
    s: Seq<ItemView>,
    map: Seq<char>,
) -> Seq<Seq<char>> {
    seq![
        "pub static "@ + name + ": dictgen::Map<"@ + spec_key_type(unicase, unicode) + ", "@ + value_type
            + "> = dictgen::Map {"@,
        "    map: "@ + map + ","@,
        range_line(key_range(s)),
        "};"@,
    ]
}

impl<'g> MapGen<'g> {
    /// The lines of the generated hash map, given the source text of its `phf` map (built
    /// from the entries sorted by word ignoring case, see `sort_items`): the map and the
    /// range of key lengths.
    pub fn write(&self, data: &Vec<Item>, map: &str) -> (r: Vec<String>)
        ensures
            texts(r@) == map_lines(self@.0.0, self@.0.1, self@.1, self@.2, views(data@), map@),
    {
        let mut out: Vec<String> = Vec::new();
        let mut header = String::from_str("pub static ");
        header.append(self.gen.name);
        header.append(": dictgen::Map<");
        header.append(key_type_of(self.unicase, self.unicode));
        header.append(", ");
        header.append(self.gen.value_type);
        header.append("> = dictgen::Map {");
        push_line(&mut out, header);
        let mut line = String::from_str("    map: ");
        line.append(map);
        line.append(",");
        push_line(&mut out, line);
        let (smallest, largest) = key_range_of(data);
        let mut range = String::from_str("    range: ");
        let a = to_decimal(smallest);
        range.append(a.as_str());
        range.append("..=");
        let b = to_decimal(largest);
        range.append(b.as_str());
        range.append(",");
        push_line(&mut out, range);
        push_str(&mut out, "};");
        assert(texts(out@) =~= map_lines(self@.0.0, self@.0.1, self@.1, self@.2, views(data@), map@));
        out
    }
}

impl<'g> DictTableGen<'g> {
    /// The lines of the generated table: the entries sorted by word ignoring case, the
    /// keys as case-insensitive strings, the values as given, and the range of key
    /// lengths.
    pub fn write(&self, data: Vec<Item>) -> (r: Vec<String>)
        ensures
            texts(r@) == dict_table_lines(self@.0, self@.1, arranged(views(data@))),
    {
        let items = sort_items(data);
        let mut out: Vec<String> = Vec::new();
        let mut header = String::from_str("pub static ");
        header.append(self.gen.name);
        header.append(": dictgen::DictTable<");
        header.append(self.gen.value_type);
        header.append("> = dictgen::DictTable {");
        push_line(&mut out, header);
        push_table_body(&mut out, LineKind::Key { unicase: true, unicode: true }, &items);
        assert(texts(out@) =~= dict_table_lines(self@.0, self@.1, views(items@)));
        out
    }
}

/// The lines of a `match` from the (sorted) words to their values.
pub open spec fn match_lines(name: Seq<char>, value_type: Seq<char>, s: Seq<ItemView>) -> Seq<Seq<char>> {
    seq![
        "pub struct "@ + name + ";"@,
        "impl "@ + name + " {"@,
        "    pub fn find(&self, word: &&str) -> Option<&'static "@ + value_type + "> {"@,
        "        match *word {"@,
    ] + item_lines(LineKind::MatchArm, s) + seq![
        "            _ => None,"@,
        "        }"@,
        "    }"@,
        "}"@,
    ]
}

impl<'g> MatchGen<'g> {
    /// The lines of the generated `match`: an arm per entry, sorted by word ignoring
    /// case.
    pub fn write(&self, data: Vec<Item>) -> (r: Vec<String>)
        ensures
            texts(r@) == match_lines(self@.0, self@.1, arranged(views(data@))),
    {
        let items = sort_items(data);
        let mut out: Vec<String> = Vec::new();
        let ghost start = texts(out@);
        let mut l1 = String::from_str("pub struct ");
        l1.append(self.gen.name);
        l1.append(";");
        push_line(&mut out, l1);
        let mut l2 = String::from_str("impl ");
        l2.append(self.gen.name);
        l2.append(" {");
        push_line(&mut out, l2);
        let mut l3 = String::from_str("    pub fn find(&self, word: &&str) -> Option<&'static ");
        l3.append(self.gen.value_type);
        l3.append("> {");
        push_line(&mut out, l3);
        push_str(&mut out, "        match *word {");
        push_item_lines(&mut out, &items, LineKind::MatchArm, None);
        push_str(&mut out, "            _ => None,");
        push_str(&mut out, "        }");
        push_str(&mut out, "    }");
        push_str(&mut out, "}");
        assert(texts(out@) =~= start + match_lines(self@.0, self@.1, views(items@)));
        out
    }
}

pub open spec fn aho_head(name: Seq<char>, value_type: Seq<char>) -> Seq<Seq<char>> {
    seq![
        "pub struct "@ + name + " {"@,
        "    dfa: dictgen::aho_corasick::DFA,"@,
        "    unicode: &'static dictgen::OrderedMap<dictgen::InsensitiveStr<'static>, "@ + value_type + ">,"@,
        "}"@,
        ""@,
        "impl "@ + name + " {"@,
        "    pub fn new() -> Self {"@,
        "        static NEEDLES: &'static [&'static [u8]] = &["@,
    ]
}

pub open spec fn aho_build() -> Seq<Seq<char>> {
    seq![
        "        ];"@,
        "        let dfa = dictgen::aho_corasick::Builder::new()"@,
        "            .match_kind(dictgen::aho_corasick::MatchKind::LeftmostLongest)"@,
        "            .start_kind(dictgen::aho_corasick::StartKind::Anchored)"@,
        "            .ascii_case_insensitive(true)"@,
        "            .build(NEEDLES)"@,
        "            .unwrap();"@,
    ]
}

pub open spec fn aho_new_end(value_type: Seq<char>) -> Seq<Seq<char>> {
    seq![
        ""@,
        "        Self {"@,
        "            dfa,"@,
        "            unicode: &UNICODE_TABLE,"@,
        "        }"@,
        "    }"@,
        ""@,
        "    pub fn find(&self, word: &'_ unicase::UniCase<&str>) -> Option<&'static "@ + value_type + "> {"@,
        "        static PATTERNID_MAP: &'static ["@ + value_type + "] = &["@,
    ]
}

pub open spec fn aho_find_end() -> Seq<Seq<char>> {
    seq![
        "        ];"@,
        "        if word.is_ascii() {"@,
        "            use dictgen::aho_corasick::Automaton as _;"@,
        "            let input = dictgen::aho_corasick::Input::new(word.into_inner().as_bytes()).anchored(dictgen::aho_corasick::Anchored::Yes);"@,
        "            let mat = self.dfa.try_find(&input).unwrap()?;"@,
        "            if mat.end() != word.into_inner().len() {"@,
        "                return None;"@,
        "            }"@,
        "            Some(&PATTERNID_MAP[mat.pattern()])"@,
        "        } else {"@,
        "            self.unicode.find(word)"@,
        "        }"@,
        "    }"@,
        "}"@,
    ]
}

/// The lines of an Aho-Corasick searcher of the (sorted) entries: an automaton over the
/// ASCII words, whose pattern numbers index their values, and an ordered map of the
/// others.  Its `find` looks up whole words: an ASCII word is found only when the longest
/// anchored match ends where the word ends, ignoring ASCII case.
pub open spec fn aho_corasick_lines(name: Seq<char>, value_type: Seq<char>, s: Seq<ItemView>) -> Seq<Seq<char>> {
    aho_head(name, value_type) + item_lines(LineKind::Needle, keep(s, true)) + aho_build()
        + ordered_map_lines("UNICODE_TABLE"@, value_type, true, true, keep(s, false)) + aho_new_end(value_type)
        + item_lines(LineKind::NestedValue, keep(s, true)) + aho_find_end()
}

fn push_aho_head(out: &mut Vec<String>, name: &str, value_type: &str)
    ensures
        texts(final(out)@) == texts(old(out)@) + aho_head(name@, value_type@),
{
    let ghost start = texts(out@);
    let mut l = String::from_str("pub struct ");
    l.append(name);
    l.append(" {");
    push_line(out, l);
    push_str(out, "    dfa: dictgen::aho_corasick::DFA,");
    let mut l = String::from_str("    unicode: &'static dictgen::OrderedMap<dictgen::InsensitiveStr<'static>, ");
    l.append(value_type);
    l.append(">,");
    push_line(out, l);
    push_str(out, "}");
    push_str(out, "");
    let mut l = String::from_str("impl ");
    l.append(name);
    l.append(" {");
    push_line(out, l);
    push_str(out, "    pub fn new() -> Self {");
    push_str(out, "        static NEEDLES: &'static [&'static [u8]] = &[");
    assert(texts(out@) =~= start + aho_head(name@, value_type@));
}

fn push_aho_build(out: &mut Vec<String>)
    ensures
        texts(final(out)@) == texts(old(out)@) + aho_build(),
{
    let ghost start = texts(out@);
    push_str(out, "        ];");
    push_str(out, "        let dfa = dictgen::aho_corasick::Builder::new()");
    push_str(out, "            .match_kind(dictgen::aho_corasick::MatchKind::LeftmostLongest)");
    push_str(out, "            .start_kind(dictgen::aho_corasick::StartKind::Anchored)");
    push_str(out, "            .ascii_case_insensitive(true)");
    push_str(out, "            .build(NEEDLES)");
    push_str(out, "            .unwrap();");
    assert(texts(out@) =~= start + aho_build());
}

fn push_aho_new_end(out: &mut Vec<String>, value_type: &str)
    ensures
        texts(final(out)@) == texts(old(out)@) + aho_new_end(value_type@),
{
    let ghost start = texts(out@);
    push_str(out, "");
    push_str(out, "        Self {");
    push_str(out, "            dfa,");
    push_str(out, "            unicode: &UNICODE_TABLE,");
    push_str(out, "        }");
    push_str(out, "    }");
    push_str(out, "");
    let mut l = String::from_str("    pub fn find(&self, word: &'_ unicase::UniCase<&str>) -> Option<&'static ");
    l.append(value_type);
    l.append("> {");
    push_line(out, l);
    let mut l = String::from_str("        static PATTERNID_MAP: &'static [");
    l.append(value_type);
    l.append("] = &[");
    push_line(out, l);
    assert(texts(out@) =~= start + aho_new_end(value_type@));
}

fn push_aho_find_end(out: &mut Vec<String>)
    ensures
        texts(final(out)@) == texts(old(out)@) + aho_find_end(),
{
    let ghost start = texts(out@);
    push_str(out, "        ];");
    push_str(out, "        if word.is_ascii() {");
    push_str(out, "            use dictgen::aho_corasick::Automaton as _;");
    push_str(out, "            let input = dictgen::aho_corasick::Input::new(word.into_inner().as_bytes()).anchored(dictgen::aho_corasick::Anchored::Yes);");
    push_str(out, "            let mat = self.dfa.try_find(&input).unwrap()?;");
    push_str(out, "            if mat.end() != word.into_inner().len() {");
    push_str(out, "                return None;");
    push_str(out, "            }");
    push_str(out, "            Some(&PATTERNID_MAP[mat.pattern()])");
    push_str(out, "        } else {");
    push_str(out, "            self.unicode.find(word)");
    push_str(out, "        }");
    push_str(out, "    }");
    push_str(out, "}");
    assert(texts(out@) =~= start + aho_find_end());
}

fn filtered(items: &Vec<Item>, ascii: bool) -> (r: Vec<Item>)
    ensures
        views(r@) == keep(views(items@), ascii),
{
    let mut out: Vec<Item> = Vec::new();
    let mut k: usize = 0;
    assert(views(items@.take(0)) =~= Seq::<ItemView>::empty());
    assert(views(out@) =~= Seq::<ItemView>::empty());
    while k < items.len()
        invariant
            k <= items@.len(),
            views(out@) == keep(views(items@.take(k as int)), ascii),
        decreases items@.len() - k,
    {
        assert(views(items@.take(k + 1)).drop_last() =~= views(items@.take(k as int)));
        assert(views(items@.take(k + 1)).last() == item_view(items@[k as int]));
        if items[k].0.as_str().is_ascii() == ascii {
            let e = clone_item(&items[k]);
            let ghost before = out@;
            out.push(e);
            assert(views(out@) =~= views(before).push(item_view(e)));
        }
        k = k + 1;
    }
    assert(items@.take(items@.len() as int) =~= items@);
    out
}

impl<'g> AhoCorasickGen<'g> {
    /// The lines of the generated searcher, the entries in order; the searcher finds whole
    /// words only (a word that merely starts with an entry is not found).
    pub fn write(&self, data: Vec<Item>) -> (r: Vec<String>)
        ensures
            texts(r@) == aho_corasick_lines(self@.0, self@.1, arranged(views(data@))),
    {
        let items = sort_items(data);
        let name = self.gen.name;
        let value_type = self.gen.value_type;
        let mut out: Vec<String> = Vec::new();
        assert(texts(out@) =~= Seq::<Seq<char>>::empty());
        push_aho_head(&mut out, name, value_type);
        let ghost t1 = texts(out@);
        push_item_lines(&mut out, &items, LineKind::Needle, Some(true));
        let ghost t2 = texts(out@);
        push_aho_build(&mut out);
        let ghost t3 = texts(out@);
        let unicode = filtered(&items, false);
        push_ordered_map(&mut out, "UNICODE_TABLE", value_type, true, true, &unicode);
        let ghost t4 = texts(out@);
        push_aho_new_end(&mut out, value_type);
        let ghost t5 = texts(out@);
        push_item_lines(&mut out, &items, LineKind::NestedValue, Some(true));
        let ghost t6 = texts(out@);
        push_aho_find_end(&mut out);
        assert(texts(out@) =~= aho_corasick_lines(self@.0, self@.1, views(items@)));
        out
    }
}

} // verus!
