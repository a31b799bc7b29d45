//! The Rust source text of a generated trie.
//!
//! Words of ASCII letters go into the trie, the others into a Unicode table.  A node
//! holds a flat table of the rest of its words; one of `limit` or more words is split by
//! first letter (ignoring case) into child nodes, each holding the value of the word that
//! ends there and the rests of the longer ones, and so on down.  The nodes are written
//! depth first, the children of a node from `z` back to `a`.

use vstd::prelude::*;

use crate::decimal::{decimal, to_decimal};
use crate::dictgen::write::{
    arranged, clone_item, item_view, ordered_map_lines, push_line, push_ordered_map, push_str,
    sort_items, texts, views, Item, ItemView,
};
use crate::builtin::{ascii_lower, ascii_upper, upper};
use crate::dictgen::TrieGen;
use crate::tokens::{byte_len, chars_of, lemma_byte_len_is_encoding_len, string_from_chars, string_from_range};

verus! {

pub open spec fn is_ascii_letter(c: char) -> bool {
    ('a' <= c && c <= 'z') || ('A' <= c && c <= 'Z')
}

pub open spec fn letters_word(k: Seq<char>) -> bool {
    forall|i: int| 0 <= i < k.len() ==> is_ascii_letter(#[trigger] k[i])
}

// ---------------------------------------------------------------------------------------
// The root: the empty word, the words of letters and the others
// ---------------------------------------------------------------------------------------

/// The value of the empty word, if there is one.
pub open spec fn root_value(s: Seq<ItemView>) -> Option<Seq<char>>
    decreases s.len(),
{
    if s.len() == 0 {
        None
    } else if s.last().0.len() == 0 {
        Some(s.last().1)
    } else {
        root_value(s.drop_last())
    }
}

/// The entries whose words are non-empty and of ASCII letters (`letters`), or
/// non-empty and not.
pub open spec fn root_split(s: Seq<ItemView>, letters: bool) -> Seq<ItemView>
    decreases s.len(),
{
    if s.len() == 0 {
        seq![]
    } else {
        let r = root_split(s.drop_last(), letters);
        if s.last().0.len() > 0 && letters_word(s.last().0) == letters {
            r.push(s.last())
        } else {
            r
        }
    }
}

/// The shortest and longest non-empty word, in bytes (`usize::MAX` and 0 for none).
pub open spec fn word_range(s: Seq<ItemView>) -> (nat, nat)
    decreases s.len(),
{
    if s.len() == 0 {
        (usize::MAX as nat, 0)
    } else {
        let r = word_range(s.drop_last());
        let l = byte_len(s.last().0);
        if l == 0 {
            r
        } else {
            (if l < r.0 {
                l
            } else {
                r.0
            }, if l > r.1 {
                l
            } else {
                r.1
            })
        }
    }
}

/// No word occurs twice.
pub open spec fn distinct_words(s: Seq<ItemView>) -> bool {
    forall|i: int, j: int| 0 <= i < j < s.len() ==> #[trigger] s[i].0 != #[trigger] s[j].0
}

// ---------------------------------------------------------------------------------------
// Splitting by first letter
// ---------------------------------------------------------------------------------------

/// The entries whose word starts with letter `c` (ignoring case), as the rest of the word
/// after it and the value, for words longer than one letter.
pub open spec fn group_rests(s: Seq<ItemView>, c: char) -> Seq<ItemView>
    decreases s.len(),
{
    if s.len() == 0 {
        seq![]
    } else {
        let r = group_rests(s.drop_last(), c);
        let w = s.last().0;
        if w.len() > 1 && ascii_lower(w[0]) == c {
            r.push((w.drop_first(), s.last().1))
        } else {
            r
        }
    }
}

/// The value of the one-letter word `c` (either case), if there is one.
pub open spec fn group_value(s: Seq<ItemView>, c: char) -> Option<Seq<char>>
    decreases s.len(),
{
    if s.len() == 0 {
        None
    } else {
        let w = s.last().0;
        if w.len() == 1 && ascii_lower(w[0]) == c {
            Some(s.last().1)
        } else {
            group_value(s.drop_last(), c)
        }
    }
}

/// Some word starts with letter `c` (ignoring case).
pub open spec fn has_group(s: Seq<ItemView>, c: char) -> bool {
    exists|i: int| 0 <= i < s.len() && s[i].0.len() > 0 && ascii_lower(#[trigger] s[i].0[0]) == c
}

/// Two one-letter words are the same letter `c` ignoring case.
pub open spec fn group_clash(s: Seq<ItemView>, c: char) -> bool {
    exists|i: int, j: int|
        0 <= i < j < s.len() && s[i].0.len() == 1 && s[j].0.len() == 1 && ascii_lower(#[trigger] s[i].0[0]) == c
            && ascii_lower(#[trigger] s[j].0[0]) == c
}

/// The `i`th lowercase letter.
pub open spec fn letter(i: int) -> char {
    ('a' as u32 + i) as char
}

/// The letters, from `a`, of the first `n` that some word starts with.
pub open spec fn present(s: Seq<ItemView>, n: int) -> Seq<char>
    decreases n,
{
    if n <= 0 {
        seq![]
    } else if has_group(s, letter(n - 1)) {
        present(s, n - 1).push(letter(n - 1))
    } else {
        present(s, n - 1)
    }
}

// ---------------------------------------------------------------------------------------
// Lines
// ---------------------------------------------------------------------------------------

/// The name of the static of a node (`start` is the lowercase path to it).
pub open spec fn node_name(prefix: Seq<char>, start: Seq<char>) -> Seq<char> {
    if start.len() == 0 {
        prefix + "_NODE"@
    } else {
        prefix + "_"@ + start.map_values(|c: char| ascii_upper(c)) + "_NODE"@
    }
}

/// The name of the static of a node's children.
pub open spec fn children_name(prefix: Seq<char>, start: Seq<char>) -> Seq<char> {
    if start.len() == 0 {
        prefix + "_CHILDREN"@
    } else {
        prefix + "_"@ + start.map_values(|c: char| ascii_upper(c)) + "_CHILDREN"@
    }
}

/// A node is split when it holds `limit` or more words.
pub open spec fn splits(s: Seq<ItemView>, limit: nat) -> bool {
    s.len() >= limit
}

/// The static of a node.
pub open spec fn node_block(name: Seq<char>, value_type: Seq<char>, start: Seq<char>, value: Option<Seq<char>>, nested: bool) -> Seq<Seq<char>> {
    seq![
        "static "@ + node_name(name, start) + ": dictgen::TrieNode<"@ + value_type + "> = dictgen::TrieNode {"@,
        "    children: "@ + (if nested {
            "dictgen::TrieChild::Nested"@
        } else {
            "dictgen::TrieChild::Flat"@
        }) + "(&"@ + children_name(name, start) + "),"@,
        match value {
            Some(v) => "    value: Some("@ + v + "),"@,
            None => "    value: None,"@,
        },
        "};"@,
        ""@,
    ]
}

/// The slot of letter `i` in a node's children array.
pub open spec fn child_slot(name: Seq<char>, start: Seq<char>, s: Seq<ItemView>, i: int) -> Seq<char> {
    if has_group(s, letter(i)) {
        "    Some(&"@ + node_name(name, start.push(letter(i))) + "),"@
    } else {
        "    None,"@
    }
}

/// The slots of the first `n` letters.
pub open spec fn child_slots(name: Seq<char>, start: Seq<char>, s: Seq<ItemView>, n: int) -> Seq<Seq<char>>
    decreases n,
{
    if n <= 0 {
        seq![]
    } else {
        child_slots(name, start, s, n - 1).push(child_slot(name, start, s, n - 1))
    }
}

/// The lines of a node and of all nodes below it, for its words `s`, all of at most
/// `depth` letters.
pub open spec fn node_lines(
    name: Seq<char>,
    value_type: Seq<char>,
    start: Seq<char>,
    value: Option<Seq<char>>,
    s: Seq<ItemView>,
    limit: nat,
    depth: nat,
) -> Seq<Seq<char>>
    decreases depth + 1, 0nat,
{
    if splits(s, limit) {
        node_block(name, value_type, start, value, true) + seq![
            "static "@ + children_name(name, start) + ": [Option<&dictgen::TrieNode<"@ + value_type
                + ">>; 26] = ["@,
        ] + child_slots(name, start, s, 26) + seq!["];"@, ""@, ""@] + subtrees(
            name,
            value_type,
            start,
            s,
            present(s, 26),
            limit,
            depth,
        )
    } else {
        node_block(name, value_type, start, value, false) + ordered_map_lines(
            children_name(name, start),
            value_type,
            true,
            false,
            arranged(s),
        ) + seq![""@, ""@]
    }
}

/// The lines of the children of a node for the given letters, the last letter first.
pub open spec fn subtrees(
    name: Seq<char>,
    value_type: Seq<char>,
    start: Seq<char>,
    s: Seq<ItemView>,
    letters: Seq<char>,
    limit: nat,
    depth: nat,
) -> Seq<Seq<char>>
    decreases depth, letters.len(),
{
    if letters.len() == 0 || depth == 0 {
        seq![]
    } else {
        let c = letters.last();
        node_lines(name, value_type, start.push(c), group_value(s, c), group_rests(s, c), limit, (depth - 1) as nat)
            + subtrees(name, value_type, start, s, letters.drop_last(), limit, depth)
    }
}

/// Splitting a node would find two one-letter words the same ignoring case, at some
/// depth.
pub open spec fn split_clash(s: Seq<ItemView>, limit: nat, depth: nat) -> bool
    decreases depth,
{
    splits(s, limit) && exists|i: int|
        #![trigger letter(i)]
        0 <= i < 26 && (group_clash(s, letter(i)) || (depth > 0 && split_clash(
            group_rests(s, letter(i)),
            limit,
            (depth - 1) as nat,
        )))
}

/// The longest word, in characters.
pub open spec fn longest(s: Seq<ItemView>) -> nat
    decreases s.len(),
{
    if s.len() == 0 {
        0
    } else {
        let r = longest(s.drop_last());
        if s.last().0.len() > r {
            s.last().0.len()
        } else {
            r
        }
    }
}

/// The lines of a trie of the entries.
pub open spec fn trie_lines(name: Seq<char>, value_type: Seq<char>, s: Seq<ItemView>, limit: nat) -> Seq<Seq<char>> {
    let unicode_name = name + "_UNICODE_TABLE"@;
    let range = word_range(s);
    let letters = root_split(s, true);
    seq![
        "pub static "@ + name + ": dictgen::Trie<"@ + value_type + "> = dictgen::Trie {"@,
        "    root: &"@ + node_name(name, seq![]) + ","@,
        "    unicode: &"@ + unicode_name + ","@,
        "    range: "@ + decimal(range.0) + "..="@ + decimal(range.1) + ","@,
        "};"@,
        ""@,
    ] + ordered_map_lines(unicode_name, value_type, true, true, arranged(root_split(s, false))) + seq![""@]
        + node_lines(name, value_type, seq![], root_value(s), letters, limit, longest(letters))
}

// ---------------------------------------------------------------------------------------
// Writing
// ---------------------------------------------------------------------------------------

fn lower_char(c: char) -> (r: char)
    ensures
        r == ascii_lower(c),
{
    if 'A' <= c && c <= 'Z' {
        let u: u32 = (c as u32) + 32;
        let b: u8 = u as u8;
        b as char
    } else {
        c
    }
}

fn is_letter_char(c: char) -> (r: bool)
    ensures
        r == is_ascii_letter(c),
{
    ('a' <= c && c <= 'z') || ('A' <= c && c <= 'Z')
}

fn letters_only(w: &Vec<char>) -> (r: bool)
    ensures
        r == letters_word(w@),
{
    let mut i: usize = 0;
    while i < w.len()
        invariant
            i <= w@.len(),
            forall|j: int| 0 <= j < i ==> is_ascii_letter(#[trigger] w@[j]),
        decreases w@.len() - i,
    {
        if !is_letter_char(w[i]) {
            return false;
        }
        i = i + 1;
    }
    true
}

/// The empty word's value, the words of letters, the other words, and the range of word
/// lengths.
fn root_parts(items: &Vec<Item>) -> (r: (Option<String>, Vec<Item>, Vec<Item>, (usize, usize)))
    ensures
        opt_text(r.0) == root_value(views(items@)),
        views(r.1@) == root_split(views(items@), true),
        views(r.2@) == root_split(views(items@), false),
        r.3.0 == word_range(views(items@)).0,
        r.3.1 == word_range(views(items@)).1,
{
    let mut value: Option<String> = None;
    let mut letters: Vec<Item> = Vec::new();
    let mut others: Vec<Item> = Vec::new();
    let mut smallest: usize = usize::MAX;
    let mut largest: usize = 0;
    let mut k: usize = 0;
    assert(views(items@.take(0)) =~= Seq::<ItemView>::empty());
    assert(views(letters@) =~= Seq::<ItemView>::empty());
    assert(views(others@) =~= Seq::<ItemView>::empty());
    while k < items.len()
        invariant
            k <= items@.len(),
            opt_text(value) == root_value(views(items@.take(k as int))),
            views(letters@) == root_split(views(items@.take(k as int)), true),
            views(others@) == root_split(views(items@.take(k as int)), false),
            smallest == word_range(views(items@.take(k as int))).0,
            largest == word_range(views(items@.take(k as int))).1,
        decreases items@.len() - k,
    {
        let p = &items[k];
        proof {
            assert(views(items@.take(k + 1)).drop_last() =~= views(items@.take(k as int)));
            assert(views(items@.take(k + 1)).last() == item_view(*p));
            lemma_byte_len_is_encoding_len(p.0@);
        }
        let w = chars_of(p.0.as_str());
        let l = p.0.as_str().as_bytes().len();
        if w.len() == 0 {
            value = Some(p.1.clone());
            assert(l == 0);
        } else {
            assert(byte_len(p.0@) > 0) by {
                assert(p.0@.len() > 0);
                lemma_byte_len_positive(p.0@);
            }
            let ghost before = (letters@, others@);
            if letters_only(&w) {
                letters.push(clone_item(p));
                assert(views(letters@) =~= views(before.0).push(item_view(*p)));
            } else {
                others.push(clone_item(p));
                assert(views(others@) =~= views(before.1).push(item_view(*p)));
            }
            if l < smallest {
                smallest = l;
            }
            if l > largest {
                largest = l;
            }
        }
        k = k + 1;
    }
    assert(items@.take(items@.len() as int) =~= items@);
    (value, letters, others, (smallest, largest))
}

proof fn lemma_byte_len_positive(s: Seq<char>)
    requires
        s.len() > 0,
    ensures
        byte_len(s) > 0,
{
}

pub open spec fn opt_text(s: Option<String>) -> Option<Seq<char>> {
    match s {
        Some(t) => Some(t@),
        None => None,
    }
}

/// `prefix`, then `_` and the path in capitals if there is one, then `suffix`.
fn static_name(prefix: &str, start: &Vec<char>, suffix: &str) -> (r: String)
    ensures
        r@ == (if start@.len() == 0 {
            prefix@ + suffix@
        } else {
            prefix@ + "_"@ + start@.map_values(|c: char| ascii_upper(c)) + suffix@
        }),
{
    let mut r = String::from_str(prefix);
    if start.len() > 0 {
        r.append("_");
        let mut caps: Vec<char> = Vec::new();
        let mut i: usize = 0;
        while i < start.len()
            invariant
                i <= start@.len(),
                caps@ == start@.take(i as int).map_values(|c: char| ascii_upper(c)),
            decreases start@.len() - i,
        {
            caps.push(upper(start[i]));
            i = i + 1;
            assert(caps@ =~= start@.take(i as int).map_values(|c: char| ascii_upper(c)));
        }
        assert(start@.take(start@.len() as int) =~= start@);
        let c = string_from_chars(caps.as_slice());
        r.append(c.as_str());
    }
    r.append(suffix);
    r
}

/// Whether some word starts with letter `c` (ignoring case).
fn group_present(s: &Vec<Item>, c: char) -> (r: bool)
    ensures
        r == has_group(views(s@), c),
{
    let mut i: usize = 0;
    while i < s.len()
        invariant
            i <= s@.len(),
            forall|j: int| 0 <= j < i ==> !(views(s@)[j].0.len() > 0 && ascii_lower(#[trigger] views(s@)[j].0[0]) == c),
        decreases s@.len() - i,
    {
        let w = chars_of(s[i].0.as_str());
        assert(views(s@)[i as int] == item_view(s@[i as int]));
        if w.len() > 0 && lower_char(w[0]) == c {
            assert(views(s@)[i as int].0[0] == w@[0]);
            assert(ascii_lower(views(s@)[i as int].0[0]) == c);
            return true;
        }
        i = i + 1;
    }
    false
}

/// The value of the one-letter word `c` and the rests of the longer words starting with
/// it.
fn split_group(s: &Vec<Item>, c: char) -> (r: (Option<String>, Vec<Item>))
    ensures
        opt_text(r.0) == group_value(views(s@), c),
        views(r.1@) == group_rests(views(s@), c),
{
    let mut value: Option<String> = None;
    let mut rests: Vec<Item> = Vec::new();
    let mut k: usize = 0;
    assert(views(s@.take(0)) =~= Seq::<ItemView>::empty());
    assert(views(rests@) =~= Seq::<ItemView>::empty());
    while k < s.len()
        invariant
            k <= s@.len(),
            opt_text(value) == group_value(views(s@.take(k as int)), c),
            views(rests@) == group_rests(views(s@.take(k as int)), c),
        decreases s@.len() - k,
    {
        let p = &s[k];
        proof {
            assert(views(s@.take(k + 1)).drop_last() =~= views(s@.take(k as int)));
            assert(views(s@.take(k + 1)).last() == item_view(*p));
        }
        let w = chars_of(p.0.as_str());
        if w.len() > 0 && lower_char(w[0]) == c {
            if w.len() == 1 {
                value = Some(p.1.clone());
            } else {
                let rest = string_from_range(&w, 1, w.len());
                assert(rest@ =~= p.0@.drop_first());
                let ghost before = rests@;
                rests.push((rest, p.1.clone()));
                assert(views(rests@) =~= views(before).push((p.0@.drop_first(), p.1@)));
            }
        }
        k = k + 1;
    }
    assert(s@.take(s@.len() as int) =~= s@);
    (value, rests)
}

/// Every word has at most `depth` characters.
pub open spec fn short_words(s: Seq<ItemView>, depth: nat) -> bool {
    forall|i: int| 0 <= i < s.len() ==> (#[trigger] s[i]).0.len() <= depth
}

proof fn lemma_longest(s: Seq<ItemView>)
    ensures
        short_words(s, longest(s)),
    decreases s.len(),
{
    if s.len() > 0 {
        lemma_longest(s.drop_last());
        assert forall|i: int| 0 <= i < s.len() implies (#[trigger] s[i]).0.len() <= longest(s) by {
            if i < s.len() - 1 {
                assert(s[i] == s.drop_last()[i]);
            }
        }
    }
}

proof fn lemma_rests_short(s: Seq<ItemView>, c: char, depth: nat)
    requires
        short_words(s, depth),
        depth > 0,
    ensures
        short_words(group_rests(s, c), (depth - 1) as nat),
    decreases s.len(),
{
    if s.len() > 0 {
        assert(short_words(s.drop_last(), depth)) by {
            assert forall|i: int| 0 <= i < s.drop_last().len() implies (#[trigger] s.drop_last()[i]).0.len() <= depth by {
                assert(s.drop_last()[i] == s[i]);
            }
        }
        lemma_rests_short(s.drop_last(), c, depth);
        assert(s.last() == s[s.len() - 1]);
    }
}

fn letter_at(i: usize) -> (c: char)
    requires
        i < 26,
    ensures
        c == letter(i as int),
{
    let b: u8 = 97 + i as u8;
    b as char
}

fn push_node_block(
    out: &mut Vec<String>,
    name: &str,
    value_type: &str,
    start: &Vec<char>,
    value: &Option<String>,
    nested: bool,
)
    ensures
        texts(final(out)@) == texts(old(out)@) + node_block(name@, value_type@, start@, opt_text(*value), nested),
{
    let ghost t0 = texts(out@);
    let node = static_name(name, start, "_NODE");
    let children = static_name(name, start, "_CHILDREN");
    let mut l = String::from_str("static ");
    l.append(node.as_str());
    l.append(": dictgen::TrieNode<");
    l.append(value_type);
    l.append("> = dictgen::TrieNode {");
    push_line(out, l);
    let mut l = String::from_str("    children: ");
    if nested {
        l.append("dictgen::TrieChild::Nested");
    } else {
        l.append("dictgen::TrieChild::Flat");
    }
    l.append("(&");
    l.append(children.as_str());
    l.append("),");
    push_line(out, l);
    match value {
        Some(v) => {
            let mut l = String::from_str("    value: Some(");
            l.append(v.as_str());
            l.append("),");
            push_line(out, l);
        },
        None => push_str(out, "    value: None,"),
    }
    push_str(out, "};");
    push_str(out, "");
    assert(texts(out@) =~= t0 + node_block(name@, value_type@, start@, opt_text(*value), nested));
}

fn push_child_slots(out: &mut Vec<String>, name: &str, start: &Vec<char>, s: &Vec<Item>)
    ensures
        texts(final(out)@) == texts(old(out)@) + child_slots(name@, start@, views(s@), 26),
{
    let ghost t0 = texts(out@);
    let mut i: usize = 0;
    assert(child_slots(name@, start@, views(s@), 0) =~= Seq::<Seq<char>>::empty());
    assert(texts(out@) =~= t0 + child_slots(name@, start@, views(s@), 0));
    while i < 26
        invariant
            i <= 26,
            texts(out@) == t0 + child_slots(name@, start@, views(s@), i as int),
        decreases 26 - i,
    {
        let c = letter_at(i);
        let ghost before = texts(out@);
        if group_present(s, c) {
            let mut next: Vec<char> = start.clone();
            assert(next@ =~= start@);
            next.push(c);
            let node = static_name(name, &next, "_NODE");
            let mut l = String::from_str("    Some(&");
            l.append(node.as_str());
            l.append("),");
            push_line(out, l);
        } else {
            push_str(out, "    None,");
        }
        assert(texts(out@) =~= t0 + child_slots(name@, start@, views(s@), i + 1));
        i = i + 1;
    }
}

fn push_node(
    out: &mut Vec<String>,
    name: &str,
    value_type: &str,
    start: Vec<char>,
    value: Option<String>,
    s: Vec<Item>,
    limit: usize,
    Ghost(depth): Ghost<nat>,
)
    requires
        short_words(views(s@), depth),
        !split_clash(views(s@), limit as nat, depth),
    ensures
        texts(final(out)@) == texts(old(out)@) + node_lines(
            name@,
            value_type@,
            start@,
            opt_text(value),
            views(s@),
            limit as nat,
            depth,
        ),
    decreases depth,
{
    let ghost t0 = texts(out@);
    let ghost sv = views(s@);
    if s.len() >= limit {
        push_node_block(out, name, value_type, &start, &value, true);
        let children = static_name(name, &start, "_CHILDREN");
        let mut l = String::from_str("static ");
        l.append(children.as_str());
        l.append(": [Option<&dictgen::TrieNode<");
        l.append(value_type);
        l.append(">>; 26] = [");
        push_line(out, l);
        push_child_slots(out, name, &start, &s);
        push_str(out, "];");
        push_str(out, "");
        push_str(out, "");
        let ghost t1 = texts(out@);
        let ghost all = subtrees(name@, value_type@, start@, sv, present(sv, 26), limit as nat, depth);
        let mut i: usize = 26;
        assert(t1 + all =~= texts(out@) + all);
        while i > 0
            invariant
                i <= 26,
                sv == views(s@),
                short_words(sv, depth),
                !split_clash(sv, limit as nat, depth),
                splits(sv, limit as nat),
                t1 + all == texts(out@) + subtrees(name@, value_type@, start@, sv, present(sv, i as int), limit as nat, depth),
            decreases i,
        {
            i = i - 1;
            let c = letter_at(i);
            let ghost before = texts(out@);
            if group_present(&s, c) {
                let ghost w = choose|j: int| 0 <= j < sv.len() && sv[j].0.len() > 0 && ascii_lower(#[trigger] sv[j].0[0]) == c;
                assert(sv[w].0.len() <= depth);
                assert(!(group_clash(sv, letter(i as int)) || (depth > 0 && split_clash(group_rests(sv, letter(i as int)), limit as nat, (depth - 1) as nat))));
                let (v, rests) = split_group(&s, c);
                let mut next: Vec<char> = start.clone();
                assert(next@ =~= start@);
                next.push(c);
                proof {
                    lemma_rests_short(sv, c, depth);
                }
                push_node(out, name, value_type, next, v, rests, limit, Ghost((depth - 1) as nat));
                proof {
                    let l1 = present(sv, i + 1);
                    assert(l1.drop_last() =~= present(sv, i as int));
                    assert(l1.last() == c);
                }
            } else {
                assert(present(sv, i + 1) == present(sv, i as int));
            }
        }
        assert(present(sv, 0) =~= Seq::<char>::empty());
        assert(texts(out@) =~= t0 + node_lines(name@, value_type@, start@, opt_text(value), sv, limit as nat, depth));
    } else {
        push_node_block(out, name, value_type, &start, &value, false);
        let children = static_name(name, &start, "_CHILDREN");
        let sorted = sort_items(s);
        push_ordered_map(out, children.as_str(), value_type, true, false, &sorted);
        push_str(out, "");
        push_str(out, "");
        assert(texts(out@) =~= t0 + node_lines(name@, value_type@, start@, opt_text(value), sv, limit as nat, depth));
    }
}

impl<'g> TrieGen<'g> {
    /// The lines of the generated trie: its root and range, the table of the words not
    /// made of ASCII letters, and the nodes.  (Duplicate words, or one-letter words equal
    /// ignoring case that a split would put into one node, cannot be written.)
    pub fn write(&self, data: Vec<Item>) -> (r: Vec<String>)
        requires
            distinct_words(views(data@)),
            !split_clash(root_split(views(data@), true), self@.1 as nat, longest(root_split(views(data@), true))),
        ensures
            texts(r@) == trie_lines(self@.0.0, self@.0.1, views(data@), self@.1 as nat),
    {
        let name = self.gen.name;
        let value_type = self.gen.value_type;
        let (value, letters, others, range) = root_parts(&data);
        let mut out: Vec<String> = Vec::new();
        assert(texts(out@) =~= Seq::<Seq<char>>::empty());
        let mut l = String::from_str("pub static ");
        l.append(name);
        l.append(": dictgen::Trie<");
        l.append(value_type);
        l.append("> = dictgen::Trie {");
        push_line(&mut out, l);
        let root = static_name(name, &Vec::new(), "_NODE");
        let mut l = String::from_str("    root: &");
        l.append(root.as_str());
        l.append(",");
        push_line(&mut out, l);
        let mut unicode_name = String::from_str(name);
        unicode_name.append("_UNICODE_TABLE");
        let mut l = String::from_str("    unicode: &");
        l.append(unicode_name.as_str());
        l.append(",");
        push_line(&mut out, l);
        let mut l = String::from_str("    range: ");
        let a = to_decimal(range.0);
        l.append(a.as_str());
        l.append("..=");
        let b = to_decimal(range.1);
        l.append(b.as_str());
        l.append(",");
        push_line(&mut out, l);
        push_str(&mut out, "};");
        push_str(&mut out, "");
        let sorted = sort_items(others);
        push_ordered_map(&mut out, unicode_name.as_str(), value_type, true, true, &sorted);
        push_str(&mut out, "");
        let ghost depth = longest(views(letters@));
        proof {
            lemma_longest(views(letters@));
        }
        push_node(&mut out, name, value_type, Vec::new(), value, letters, self.limit, Ghost(depth));
        assert(Seq::<char>::empty() =~= seq![]);
        assert(texts(out@) =~= trie_lines(self@.0.0, self@.0.1, views(data@), self@.1 as nat));
        out
    }
}

} // verus!
