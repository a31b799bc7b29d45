use typos::dictgen::{DictGen, InsensitiveStr};
use typos::table::DictTable;

fn items(pairs: &[(&str, &str)]) -> Vec<(String, String)> {
    pairs
        .iter()
        .map(|(k, v)| (k.to_string(), v.to_string()))
        .collect()
}

fn lines(text: &[&str]) -> Vec<String> {
    text.iter().map(|s| s.to_string()).collect()
}

#[test]
fn ordered_map_sorted_ignoring_case() {
    let out = DictGen::new()
        .name("WORDS")
        .value_type("&str")
        .ordered_map()
        .write(items(&[("b", "\"B\""), ("A", "\"a\""), ("ccc", "\"c\"")]));
    let expected = lines(&[
        "pub static WORDS: dictgen::OrderedMap<dictgen::InsensitiveStr<'static>, &str> = dictgen::OrderedMap {",
        "    keys: &[",
        "      dictgen::InsensitiveStr::Ascii(\"A\"),",
        "      dictgen::InsensitiveStr::Ascii(\"b\"),",
        "      dictgen::InsensitiveStr::Ascii(\"ccc\"),",
        "    ],",
        "    values: &[",
        "      \"a\",",
        "      \"B\",",
        "      \"c\",",
        "    ],",
        "    range: 1..=3,",
        "};",
    ]);
    assert_eq!(out, expected);
}

#[test]
fn ordered_map_key_kinds() {
    let out = DictGen::new()
        .ordered_map()
        .unicase(false)
        .write(items(&[("x", "1")]));
    assert_eq!(out[0], "pub static DICT: dictgen::OrderedMap<&'static str, &'static str> = dictgen::OrderedMap {");
    assert_eq!(out[2], "      \"x\",");
    let out = DictGen::new()
        .ordered_map()
        .unicode(false)
        .write(items(&[("x", "1")]));
    assert_eq!(out[2], "      dictgen::InsensitiveAscii(\"x\"),");
    let out = DictGen::new().ordered_map().write(items(&[("é", "1"), ("", "2")]));
    // The empty key sorts first; the range counts bytes.
    assert_eq!(out[2], "      dictgen::InsensitiveStr::Ascii(\"\"),");
    assert_eq!(out[3], "      dictgen::InsensitiveStr::Unicode(\"é\"),");
    assert_eq!(out[9], "    range: 0..=2,");
    // No keys, or only empty ones: the range is 0..=0.
    let out = DictGen::new().ordered_map().write(Vec::new());
    assert_eq!(out[5], "    range: 0..=0,");
}

#[test]
fn dict_table_lines() {
    let out = DictGen::new()
        .name("T")
        .value_type("u8")
        .table()
        .write(items(&[("Zed", "2"), ("apple", "1")]));
    let expected = lines(&[
        "pub static T: dictgen::DictTable<u8> = dictgen::DictTable {",
        "    keys: &[",
        "      dictgen::InsensitiveStr::Ascii(\"apple\"),",
        "      dictgen::InsensitiveStr::Ascii(\"Zed\"),",
        "    ],",
        "    values: &[",
        "      1,",
        "      2,",
        "    ],",
        "    range: 3..=5,",
        "};",
    ]);
    assert_eq!(out, expected);
}

#[test]
fn match_lines() {
    let out = DictGen::new()
        .name("M")
        .value_type("[&str]")
        .match_gen()
        .write(items(&[("b", "[\"y\"]"), ("a", "[\"x\"]")]));
    let expected = lines(&[
        "pub struct M;",
        "impl M {",
        "    pub fn find(&self, word: &&str) -> Option<&'static [&str]> {",
        "        match *word {",
        "            \"a\" => Some(&[\"x\"].as_slice()),",
        "            \"b\" => Some(&[\"y\"].as_slice()),",
        "            _ => None,",
        "        }",
        "    }",
        "}",
    ]);
    assert_eq!(out, expected);
}

#[test]
fn aho_corasick_splits_ascii_words() {
    let out = DictGen::new()
        .name("A")
        .value_type("u8")
        .aho_corasick()
        .write(items(&[("öl", "3"), ("b", "2"), ("a", "1")]));
    assert_eq!(out[0], "pub struct A {");
    assert_eq!(out[8], "            b\"a\",");
    assert_eq!(out[9], "            b\"b\",");
    assert_eq!(out[10], "        ];");
    assert_eq!(
        out[17],
        "pub static UNICODE_TABLE: dictgen::OrderedMap<dictgen::InsensitiveStr<'static>, u8> = dictgen::OrderedMap {"
    );
    assert_eq!(out[19], "      dictgen::InsensitiveStr::Unicode(\"öl\"),");
    assert_eq!(out[24], "    range: 3..=3,");
    assert_eq!(out[34], "        static PATTERNID_MAP: &'static [u8] = &[");
    assert_eq!(out[35], "            1,");
    assert_eq!(out[36], "            2,");
    assert_eq!(out[37], "        ];");
    // Only a match that covers the whole word is a hit.
    assert!(out
        .iter()
        .any(|l| l == "            if mat.end() != word.into_inner().len() {"));
    assert!(!out.iter().any(|l| l.contains("mat.end() == word")));
    assert_eq!(out.last().unwrap(), "}");
    assert_eq!(out.len(), 51);
}

#[test]
fn trie_of_one_word() {
    let out = DictGen::new()
        .name("T")
        .value_type("u8")
        .trie()
        .limit(1)
        .write(items(&[("a", "1")]));
    let mut expected = lines(&[
        "pub static T: dictgen::Trie<u8> = dictgen::Trie {",
        "    root: &T_NODE,",
        "    unicode: &T_UNICODE_TABLE,",
        "    range: 1..=1,",
        "};",
        "",
        "pub static T_UNICODE_TABLE: dictgen::OrderedMap<dictgen::InsensitiveStr<'static>, u8> = dictgen::OrderedMap {",
        "    keys: &[",
        "    ],",
        "    values: &[",
        "    ],",
        "    range: 0..=0,",
        "};",
        "",
        "static T_NODE: dictgen::TrieNode<u8> = dictgen::TrieNode {",
        "    children: dictgen::TrieChild::Nested(&T_CHILDREN),",
        "    value: None,",
        "};",
        "",
        "static T_CHILDREN: [Option<&dictgen::TrieNode<u8>>; 26] = [",
        "    Some(&T_A_NODE),",
    ]);
    for _ in 0..25 {
        expected.push("    None,".to_string());
    }
    expected.extend(lines(&[
        "];",
        "",
        "",
        "static T_A_NODE: dictgen::TrieNode<u8> = dictgen::TrieNode {",
        "    children: dictgen::TrieChild::Flat(&T_A_CHILDREN),",
        "    value: Some(1),",
        "};",
        "",
        "pub static T_A_CHILDREN: dictgen::OrderedMap<dictgen::InsensitiveAscii<'static>, u8> = dictgen::OrderedMap {",
        "    keys: &[",
        "    ],",
        "    values: &[",
        "    ],",
        "    range: 0..=0,",
        "};",
        "",
        "",
    ]));
    assert_eq!(out, expected);
}

#[test]
fn trie_nodes_depth_first_from_z() {
    let out = DictGen::new()
        .name("W")
        .value_type("u8")
        .trie()
        .limit(2)
        .write(items(&[("Ab", "1"), ("b", "2"), ("ac", "3"), ("", "0"), ("x-y", "9")]));
    assert_eq!(out[3], "    range: 1..=3,");
    // The word that is not all letters goes into the Unicode table.
    assert_eq!(out[8], "      dictgen::InsensitiveStr::Ascii(\"x-y\"),");
    let names: Vec<&String> = out.iter().filter(|l| l.starts_with("static ")).collect();
    let names: Vec<&str> = names.iter().map(|l| l.split(':').next().unwrap()).collect();
    assert_eq!(
        names,
        vec![
            "static W_NODE",
            "static W_CHILDREN",
            "static W_B_NODE",
            "static W_A_NODE",
            "static W_A_CHILDREN",
            "static W_AC_NODE",
            "static W_AB_NODE",
        ]
    );
    assert!(out.contains(&"    value: Some(0),".to_string()));
    assert!(out.contains(&"    Some(&W_AB_NODE),".to_string()));
}

#[test]
fn dict_table_needs_sorted_keys() {
    assert!(DictTable::new(vec!["b".to_owned(), "A".to_owned()], vec![1, 2], (1, 1)).is_none());
    assert!(DictTable::new(vec!["a".to_owned(), "A".to_owned()], vec![1, 2], (1, 1)).is_none());
    let t = DictTable::new(vec!["A".to_owned(), "b".to_owned()], vec![1, 2], (1, 1)).unwrap();
    assert_eq!(t.find("a"), Some(&1));
    assert_eq!(t.find("B"), Some(&2));
    assert_eq!(t.find("c"), None);
}

#[test]
fn map_lines_around_the_phf_map() {
    let gen = DictGen::new().name("WORDS").value_type("&str").map();
    let out = gen.write(&items(&[("bb", "\"B\""), ("A", "\"a\""), ("ccc", "\"c\"")]), "PHF");
    let expected = lines(&[
        "pub static WORDS: dictgen::Map<dictgen::InsensitiveStr<'static>, &str> = dictgen::Map {",
        "    map: PHF,",
        "    range: 1..=3,",
        "};",
    ]);
    assert_eq!(out, expected);
}

#[test]
fn map_of_nothing_has_an_empty_range() {
    let gen = DictGen::new().name("EMPTY").value_type("u8").map().unicase(false);
    let out = gen.write(&Vec::new(), "M");
    let expected = lines(&[
        "pub static EMPTY: dictgen::Map<&'static str, u8> = dictgen::Map {",
        "    map: M,",
        "    range: 0..=0,",
        "};",
    ]);
    assert_eq!(out, expected);
    assert_eq!(gen.key_settings(), (false, true));
}

#[test]
fn insensitive_key_of_a_word() {
    assert!(matches!(InsensitiveStr::from_text("abc"), InsensitiveStr::Ascii("abc")));
    assert!(matches!(InsensitiveStr::from_text("äb"), InsensitiveStr::Unicode("äb")));
}
