//! Generating the source of the main typo table from its CSV word list: a `phf` map from
//! each typo (ignoring case) to the literal of its corrections, and the range of typo
//! lengths.

use vstd::prelude::*;

use vstd::string::StringExecFns;

use crate::casefold::{lemma_lex_strict_chain, lex_sign, unicase_folded, unicase_sign};
use crate::decimal::{decimal, to_decimal};
use crate::dictgen::write::{item_le, max_len, min_len, sort_items, texts, views, Item, ItemView};
use crate::messages::strings_view;
use crate::print::join;
use crate::tokens::lemma_byte_len_is_encoding_len;
use vstd::relations::sorted_by;

verus! {

broadcast use {vstd::multiset::group_multiset_axioms, vstd::seq_lib::group_to_multiset_ensures};

// ---------------------------------------------------------------------------------------
// Outside calls
// ---------------------------------------------------------------------------------------

/// The rows of CSV data read without a header row, rows of any length, or the text of the
/// first error.
pub uninterp spec fn csv_rows(data: Seq<u8>) -> Result<Seq<Seq<Seq<char>>>, Seq<char>>;

pub open spec fn rows_view(v: Seq<Vec<String>>) -> Seq<Seq<Seq<char>>> {
    v.map_values(|r: Vec<String>| strings_view(r@))
}

/// `csv::ReaderBuilder::new().has_headers(false).flexible(true)` and its `records`: the
/// fields of each row, or the text of the first error (named `csv_rows`).
#[verifier::external_body]
fn read_csv(data: &[u8]) -> (r: Result<Vec<Vec<String>>, String>)
    ensures
        match csv_rows(data@) {
            Ok(rows) => r matches Ok(v) && rows_view(v@) == rows,
            Err(e) => r matches Err(x) && x@ == e,
        },
{
    let mut reader = csv::ReaderBuilder::new().has_headers(false).flexible(true).from_reader(data);
    reader
        .records()
        .map(|r| r.map(|rec| rec.iter().map(|f| f.to_owned()).collect()).map_err(|e| e.to_string()))
        .collect()
}

/// The source text of the `phf` map from the keys, taken as `unicase::UniCase` strings,
/// to the values, given in this order.
pub uninterp spec fn phf_unicase_map(keys: Seq<Seq<char>>, values: Seq<Seq<char>>) -> Seq<char>;

/// No two keys are equal ignoring case.
pub open spec fn folds_distinct(keys: Seq<Seq<char>>) -> bool {
    forall|i: int, j: int| 0 <= i < j < keys.len() ==> unicase_folded(#[trigger] keys[i]) != unicase_folded(#[trigger] keys[j])
}

/// `phf_codegen::Map` of `unicase::UniCase` keys: each entry added in order, then the
/// map's source text (named `phf_unicase_map`).  Building it panics on keys equal
/// ignoring case, which `requires` leaves out.
#[verifier::external_body]
fn unicase_map_text(keys: &Vec<String>, values: &Vec<String>) -> (r: String)
    requires
        keys@.len() == values@.len(),
        folds_distinct(strings_view(keys@)),
    ensures
        r@ == phf_unicase_map(strings_view(keys@), strings_view(values@)),
{
    let mut builder = phf_codegen::Map::new();
    for (k, v) in keys.iter().zip(values.iter()) {
        builder.entry(unicase::UniCase::new(k.as_str()), v.as_str());
    }
    builder.build().to_string()
}

// ---------------------------------------------------------------------------------------
// The table
// ---------------------------------------------------------------------------------------

/// Every row has a typo.
pub open spec fn rows_have_keys(rows: Seq<Seq<Seq<char>>>) -> bool {
    forall|i: int| 0 <= i < rows.len() ==> (#[trigger] rows[i]).len() > 0
}

/// The typo of each row.
pub open spec fn keys_of(rows: Seq<Seq<Seq<char>>>) -> Seq<Seq<char>> {
    rows.map_values(|r: Seq<Seq<char>>| r[0])
}

/// The literal of a row's corrections: `&["a", "b"]`, each in plain quotes.
pub open spec fn value_literal(corrections: Seq<Seq<char>>) -> Seq<char> {
    "&["@ + join(corrections.map_values(|f: Seq<char>| "\""@ + f + "\""@), ", "@) + "]"@
}

/// The literal of each row's corrections.
pub open spec fn values_of(rows: Seq<Seq<Seq<char>>>) -> Seq<Seq<char>> {
    rows.map_values(|r: Seq<Seq<char>>| value_literal(r.drop_first()))
}

/// The rows as entries `(typo, value)`.
pub open spec fn row_items(rows: Seq<Seq<Seq<char>>>) -> Seq<ItemView> {
    rows.map_values(|r: Seq<Seq<char>>| (r[0], value_literal(r.drop_first())))
}

/// The generated source, given the source text of the map: a line naming the generator,
/// an attribute, a blank line, an import, the map `WORD_DICTIONARY`, and the range of typo
/// lengths in bytes (from `usize::MAX` to 0 when there are no rows).
pub open spec fn table_lines(rows: Seq<Seq<Seq<char>>>, map: Seq<char>, generator: Seq<char>) -> Seq<Seq<char>> {
    seq![
        "// This file is code-genned by "@ + generator,
        "#![allow(clippy::unreadable_literal)]"@,
        ""@,
        "use unicase::UniCase;"@,
        "pub static WORD_DICTIONARY: phf::Map<unicase::UniCase<&'static str>, &'static [&'static str]> = "@,
        map,
        ";"@,
        ""@,
        "pub const WORD_RANGE: std::ops::RangeInclusive<usize> = "@ + decimal(min_len(row_items(rows))) + "..="@
            + decimal(max_len(row_items(rows))) + ";"@,
    ]
}

fn push_text(out: &mut Vec<String>, line: String)
    ensures
        texts(final(out)@) == texts(old(out)@).push(line@),
{
    let ghost before = out@;
    let ghost l = line@;
    out.push(line);
    assert(texts(out@) =~= texts(before).push(l));
}

/// The literal of the fields after the first.
fn value_of(row: &Vec<String>) -> (r: String)
    requires
        row@.len() > 0,
    ensures
        r@ == value_literal(strings_view(row@).drop_first()),
{
    let ghost rest = strings_view(row@).drop_first();
    let mut quoted: Vec<String> = Vec::new();
    let mut k: usize = 1;
    assert(strings_view(quoted@) =~= rest.take(0).map_values(|f: Seq<char>| "\""@ + f + "\""@));
    while k < row.len()
        invariant
            1 <= k <= row@.len(),
            rest == strings_view(row@).drop_first(),
            strings_view(quoted@) == rest.take(k - 1).map_values(|f: Seq<char>| "\""@ + f + "\""@),
        decreases row@.len() - k,
    {
        let mut q = String::from_str("\"");
        q.append(row[k].as_str());
        q.append("\"");
        let ghost before = quoted@;
        quoted.push(q);
        proof {
            assert(rest[k - 1] == row@[k as int]@);
            assert(rest.take(k as int) =~= rest.take(k - 1).push(rest[k - 1]));
            assert(strings_view(quoted@) =~= strings_view(before).push("\""@ + rest[k - 1] + "\""@));
        }
        k = k + 1;
    }
    assert(rest.take(rest.len() as int) =~= rest);
    let joined = crate::print::join_strings(&quoted, ", ");
    let mut r = String::from_str("&[");
    r.append(joined.as_str());
    r.append("]");
    r
}

/// The typos and the literals of their corrections, row by row.
pub fn entries_of(rows: &Vec<Vec<String>>) -> (r: (Vec<String>, Vec<String>))
    requires
        rows_have_keys(rows_view(rows@)),
    ensures
        strings_view(r.0@) == keys_of(rows_view(rows@)),
        strings_view(r.1@) == values_of(rows_view(rows@)),
{
    let ghost rv = rows_view(rows@);
    let mut keys: Vec<String> = Vec::new();
    let mut values: Vec<String> = Vec::new();
    let mut k: usize = 0;
    while k < rows.len()
        invariant
            k <= rows@.len(),
            rv == rows_view(rows@),
            rows_have_keys(rv),
            strings_view(keys@) == keys_of(rv.take(k as int)),
            strings_view(values@) == values_of(rv.take(k as int)),
        decreases rows@.len() - k,
    {
        assert(rv[k as int].len() > 0);
        assert(rv[k as int] == strings_view(rows@[k as int]@));
        let ghost (bk, bv) = (keys@, values@);
        keys.push(rows[k][0].clone());
        let v = value_of(&rows[k]);
        values.push(v);
        proof {
            assert(rv.take(k + 1) =~= rv.take(k as int).push(rv[k as int]));
            assert(strings_view(keys@) =~= strings_view(bk).push(rv[k as int][0]));
            assert(strings_view(values@) =~= strings_view(bv).push(value_literal(rv[k as int].drop_first())));
        }
        k = k + 1;
    }
    assert(rv.take(rv.len() as int) =~= rv);
    (keys, values)
}

/// The source lines of the table of the rows, given the source text of its map.
pub fn table_lines_of(rows: &Vec<Vec<String>>, map: &str, generator: &str) -> (r: Vec<String>)
    requires
        rows_have_keys(rows_view(rows@)),
    ensures
        texts(r@) == table_lines(rows_view(rows@), map@, generator@),
{
    let ghost rv = rows_view(rows@);
    let mut smallest: usize = usize::MAX;
    let mut largest: usize = 0;
    let mut k: usize = 0;
    assert(row_items(rv.take(0)) =~= Seq::<ItemView>::empty());
    while k < rows.len()
        invariant
            k <= rows@.len(),
            rv == rows_view(rows@),
            rows_have_keys(rv),
            smallest == min_len(row_items(rv.take(k as int))),
            largest == max_len(row_items(rv.take(k as int))),
        decreases rows@.len() - k,
    {
        assert(rv[k as int].len() > 0);
        assert(rv[k as int] == strings_view(rows@[k as int]@));
        let key = rows[k][0].as_str();
        proof {
            lemma_byte_len_is_encoding_len(key@);
            assert(row_items(rv.take(k + 1)) =~= row_items(rv.take(k as int)).push(
                (rv[k as int][0], value_literal(rv[k as int].drop_first())),
            ));
            assert(row_items(rv.take(k + 1)).drop_last() =~= row_items(rv.take(k as int)));
        }
        let l = key.as_bytes().len();
        if l < smallest {
            smallest = l;
        }
        if l > largest {
            largest = l;
        }
        k = k + 1;
    }
    assert(rv.take(rv.len() as int) =~= rv);
    let mut out: Vec<String> = Vec::new();
    let mut head = String::from_str("// This file is code-genned by ");
    head.append(generator);
    push_text(&mut out, head);
    push_text(&mut out, String::from_str("#![allow(clippy::unreadable_literal)]"));
    push_text(&mut out, String::from_str(""));
    push_text(&mut out, String::from_str("use unicase::UniCase;"));
    push_text(
        &mut out,
        String::from_str("pub static WORD_DICTIONARY: phf::Map<unicase::UniCase<&'static str>, &'static [&'static str]> = "),
    );
    push_text(&mut out, String::from_str(map));
    push_text(&mut out, String::from_str(";"));
    push_text(&mut out, String::from_str(""));
    let mut range = String::from_str("pub const WORD_RANGE: std::ops::RangeInclusive<usize> = ");
    let a = to_decimal(smallest);
    range.append(a.as_str());
    range.append("..=");
    let b = to_decimal(largest);
    range.append(b.as_str());
    range.append(";");
    push_text(&mut out, range);
    assert(texts(out@) =~= table_lines(rv, map@, generator@));
    out
}

// ---------------------------------------------------------------------------------------
// Typos equal ignoring case
// ---------------------------------------------------------------------------------------

/// Along `t`, each word comes strictly later ignoring case than the one before it.
pub open spec fn strictly_rising(t: Seq<ItemView>) -> bool {
    forall|a: int| 0 <= a < t.len() - 1 ==> lex_sign(unicase_folded(#[trigger] t[a].0), unicase_folded(t[a + 1].0)) < 0
}

proof fn lemma_rising(t: Seq<ItemView>, a: int, b: int)
    requires
        strictly_rising(t),
        0 <= a < b < t.len(),
    ensures
        lex_sign(unicase_folded(t[a].0), unicase_folded(t[b].0)) < 0,
    decreases b - a,
{
    if b > a + 1 {
        lemma_rising(t, a + 1, b);
        lemma_lex_strict_chain(unicase_folded(t[a].0), unicase_folded(t[a + 1].0), unicase_folded(t[b].0));
    }
}

/// What holds the same entries as a sequence of distinct words (ignoring case) has
/// distinct words too.
proof fn lemma_permuted_distinct(s: Seq<ItemView>, t: Seq<ItemView>)
    requires
        strictly_rising(t),
        s.to_multiset() == t.to_multiset(),
    ensures
        forall|i: int, j: int| 0 <= i < j < s.len() ==> unicase_folded(#[trigger] s[i].0) != unicase_folded(#[trigger] s[j].0),
{
    assert forall|i: int, j: int| 0 <= i < j < s.len() implies unicase_folded(#[trigger] s[i].0) != unicase_folded(#[trigger] s[j].0) by {
        if unicase_folded(s[i].0) == unicase_folded(s[j].0) {
            assert(s.contains(s[i]) && s.contains(s[j]));
            assert(t.to_multiset().count(s[i]) > 0 && t.to_multiset().count(s[j]) > 0);
            let a = choose|a: int| 0 <= a < t.len() && t[a] == s[i];
            if s[i] != s[j] {
                let b = choose|b: int| 0 <= b < t.len() && t[b] == s[j];
                if a < b {
                    lemma_rising(t, a, b);
                } else {
                    lemma_rising(t, b, a);
                }
                crate::casefold::lemma_lex_sign_zero(unicase_folded(t[a].0), unicase_folded(t[b].0));
                crate::casefold::lemma_lex_sign_zero(unicase_folded(t[b].0), unicase_folded(t[a].0));
            } else {
                let x = s[i];
                assert(s.remove(j)[i] == x);
                assert(s.remove(j).contains(x));
                assert(s.remove(j).to_multiset().count(x) > 0);
                assert(s.to_multiset().count(x) >= 2);
                assert(t.remove(a).to_multiset().count(x) > 0);
                let b1 = choose|b1: int| 0 <= b1 < t.remove(a).len() && t.remove(a)[b1] == x;
                let b = if b1 < a { b1 } else { b1 + 1 };
                assert(t[b] == x && b != a);
                if a < b {
                    lemma_rising(t, a, b);
                } else {
                    lemma_rising(t, b, a);
                }
                crate::casefold::lemma_lex_sign_zero(unicase_folded(t[a].0), unicase_folded(t[b].0));
                crate::casefold::lemma_lex_sign_zero(unicase_folded(t[b].0), unicase_folded(t[a].0));
            }
        }
    }
}

/// Two neighbours of a sorted arrangement equal ignoring case come from two places of
/// what was arranged.
proof fn lemma_neighbours_equal(s: Seq<ItemView>, t: Seq<ItemView>, a: int) -> (ij: (int, int))
    requires
        sorted_by(t, |x: ItemView, y: ItemView| item_le(x, y)),
        s.to_multiset() == t.to_multiset(),
        0 <= a < t.len() - 1,
        lex_sign(unicase_folded(t[a].0), unicase_folded(t[a + 1].0)) >= 0,
    ensures
        0 <= ij.0 < ij.1 < s.len(),
        unicase_folded(s[ij.0].0) == unicase_folded(s[ij.1].0),
{
    let leq = |x: ItemView, y: ItemView| item_le(x, y);
    assert(leq(t[a], t[a + 1]));
    crate::casefold::lemma_lex_sign_zero(unicase_folded(t[a].0), unicase_folded(t[a + 1].0));
    let x = t[a];
    let y = t[a + 1];
    assert(t.contains(x) && t.contains(y));
    assert(s.to_multiset().count(x) > 0);
    let i = choose|i: int| 0 <= i < s.len() && s[i] == x;
    let j = if x != y {
        assert(s.to_multiset().count(y) > 0);
        choose|j: int| 0 <= j < s.len() && s[j] == y
    } else {
        assert(t.remove(a)[a] == y);
        assert(t.remove(a).to_multiset().count(x) > 0);
        assert(s.to_multiset().count(x) >= 2);
        assert(s.remove(i).to_multiset().count(x) > 0);
        let j1 = choose|j1: int| 0 <= j1 < s.remove(i).len() && s.remove(i)[j1] == x;
        if j1 < i { j1 } else { j1 + 1 }
    };
    assert(s[j] == y && j != i);
    if i < j { (i, j) } else { (j, i) }
}

/// Whether no two typos are equal ignoring case.
fn keys_distinct(keys: &Vec<String>) -> (r: bool)
    ensures
        r == folds_distinct(strings_view(keys@)),
{
    let ghost kv = strings_view(keys@);
    let mut items: Vec<Item> = Vec::new();
    let mut k: usize = 0;
    while k < keys.len()
        invariant
            k <= keys@.len(),
            kv == strings_view(keys@),
            views(items@) == kv.take(k as int).map_values(|w: Seq<char>| (w, Seq::<char>::empty())),
        decreases keys@.len() - k,
    {
        let ghost before = items@;
        items.push((keys[k].clone(), String::new()));
        proof {
            assert(kv.take(k + 1) =~= kv.take(k as int).push(kv[k as int]));
            assert(views(items@) =~= views(before).push((kv[k as int], Seq::<char>::empty())));
        }
        k = k + 1;
    }
    assert(kv.take(kv.len() as int) =~= kv);
    let ghost s = views(items@);
    let sorted = sort_items(items);
    let ghost t = views(sorted@);
    proof {
        crate::dictgen::write::lemma_arranged(s, s);
    }
    let mut a: usize = 0;
    while sorted.len() > 0 && a < sorted.len() - 1
        invariant
            t == views(sorted@),
            t == crate::dictgen::write::arranged(s),
            sorted_by(t, |x: ItemView, y: ItemView| item_le(x, y)),
            s.to_multiset() == t.to_multiset(),
            s == kv.map_values(|w: Seq<char>| (w, Seq::<char>::empty())),
            kv == strings_view(keys@),
            a <= t.len(),
            forall|c: int| 0 <= c < a ==> lex_sign(unicase_folded(#[trigger] t[c].0), unicase_folded(t[c + 1].0)) < 0,
        decreases sorted@.len() - a,
    {
        let c = unicase_sign(sorted[a].0.as_str(), sorted[a + 1].0.as_str());
        if c >= 0 {
            proof {
                let (i, j) = lemma_neighbours_equal(s, t, a as int);
                assert(s.len() == kv.len());
                assert(s[i].0 == kv[i] && s[j].0 == kv[j]);
                assert(unicase_folded(kv[i]) == unicase_folded(kv[j]));
                assert(!folds_distinct(kv));
            }
            return false;
        }
        a = a + 1;
    }
    proof {
        assert(strictly_rising(t));
        lemma_permuted_distinct(s, t);
        assert forall|i: int, j: int| 0 <= i < j < kv.len() implies unicase_folded(#[trigger] kv[i]) != unicase_folded(#[trigger] kv[j]) by {
            assert(s[i].0 == kv[i] && s[j].0 == kv[j]);
        }
    }
    true
}

/// The source lines of the table of the CSV word list: `None` where the list cannot be
/// read, a row has no typo, or two typos are equal ignoring case.
pub fn generate(data: &[u8], generator: &str) -> (r: Option<Vec<String>>)
    ensures
        match csv_rows(data@) {
            Err(_) => r is None,
            Ok(rows) => if rows_have_keys(rows) && folds_distinct(keys_of(rows)) {
                r matches Some(v) && texts(v@) == table_lines(
                    rows,
                    phf_unicase_map(keys_of(rows), values_of(rows)),
                    generator@,
                )
            } else {
                r is None
            },
        },
{
    let rows = match read_csv(data) {
        Ok(rows) => rows,
        Err(_) => {
            return None;
        },
    };
    let ghost rv = rows_view(rows@);
    let mut k: usize = 0;
    while k < rows.len()
        invariant
            k <= rows@.len(),
            rv == rows_view(rows@),
            csv_rows(data@) == Ok::<Seq<Seq<Seq<char>>>, Seq<char>>(rv),
            forall|i: int| 0 <= i < k ==> (#[trigger] rv[i]).len() > 0,
        decreases rows@.len() - k,
    {
        if rows[k].len() == 0 {
            assert(rv[k as int].len() == 0);
            return None;
        }
        assert(rv[k as int] == strings_view(rows@[k as int]@));
        k = k + 1;
    }
    let (keys, values) = entries_of(&rows);
    assert(strings_view(keys@).len() == keys@.len() && strings_view(values@).len() == values@.len());
    if !keys_distinct(&keys) {
        return None;
    }
    let map = unicase_map_text(&keys, &values);
    Some(table_lines_of(&rows, map.as_str(), generator))
}

} // verus!
