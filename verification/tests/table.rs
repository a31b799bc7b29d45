use typos::checkers::read_file;
use typos::content::{massage_data, ContentType};
use typos::decimal::to_decimal;
use typos::error::ErrorKind;
use typos::table::{DictTable, OrderedMap, Trie, TrieChild, TrieNode};

fn map(keys: &[&str], caseless: bool) -> OrderedMap<u32> {
    let values: Vec<u32> = (0..keys.len() as u32).collect();
    OrderedMap::new(keys.iter().map(|k| k.to_string()).collect(), values, (1, 10), caseless).unwrap()
}

#[test]
fn ordered_map_find_exact() {
    let m = map(&["apple", "banana", "cherry"], false);
    assert_eq!(m.find("banana"), Some(&1));
    assert_eq!(m.find("apple"), Some(&0));
    assert_eq!(m.find("cherry"), Some(&2));
    assert_eq!(m.find("Banana"), None);
    assert_eq!(m.find("date"), None);
    assert_eq!(m.find(""), None);
}

#[test]
fn ordered_map_find_caseless() {
    let m = map(&["Apple", "banana", "CHERRY"], true);
    assert_eq!(m.find("apple"), Some(&0));
    assert_eq!(m.find("BANANA"), Some(&1));
    assert_eq!(m.find("cherry"), Some(&2));
    assert_eq!(m.find("cherr"), None);
}

#[test]
fn ordered_map_respects_range() {
    let m = OrderedMap::new(vec!["a".to_owned(), "abcdef".to_owned()], vec![1, 2], (2, 5), false).unwrap();
    assert_eq!(m.find("a"), None);
    assert_eq!(m.find("abcdef"), None);
}

#[test]
fn ordered_map_rejects_unsorted() {
    assert!(OrderedMap::new(vec!["b".to_owned(), "a".to_owned()], vec![1, 2], (1, 1), false).is_none());
    assert!(OrderedMap::new(vec!["a".to_owned(), "A".to_owned()], vec![1, 2], (1, 1), true).is_none());
    assert!(OrderedMap::new(vec!["a".to_owned()], vec![1, 2], (1, 1), false).is_none());
}

fn leaf(value: Option<u32>) -> TrieNode<u32> {
    TrieNode { children: TrieChild::Flat(map(&[], true)), value }
}

#[test]
fn trie_find_ascii_and_unicode() {
    let mut children: [Option<Box<TrieNode<u32>>>; 26] = Default::default();
    let flat = OrderedMap::new(vec!["at".to_owned(), "og".to_owned()], vec![10, 11], (1, 5), true).unwrap();
    children[2] = Some(Box::new(TrieNode { children: TrieChild::Flat(flat), value: Some(7) }));
    children[0] = Some(Box::new(leaf(Some(1))));
    let root = TrieNode { children: TrieChild::Nested(children), value: None };
    let unicode = DictTable::new(vec!["café".to_owned()], vec![99], (1, 10)).unwrap();
    let trie = Trie { root, unicode, range: (1, 6) };
    assert_eq!(trie.find("cat"), Some(&10));
    assert_eq!(trie.find("COG"), Some(&11));
    assert_eq!(trie.find("c"), Some(&7));
    assert_eq!(trie.find("a"), Some(&1));
    assert_eq!(trie.find("b"), None);
    assert_eq!(trie.find("cow"), None);
    assert_eq!(trie.find("catcatcat"), None);
    assert_eq!(trie.find("CAFÉ"), Some(&99));
    assert_eq!(trie.find("tea-pot"), None);
}

#[test]
fn decimal_rendering() {
    assert_eq!(to_decimal(0), "0");
    assert_eq!(to_decimal(7), "7");
    assert_eq!(to_decimal(1234509), "1234509");
}

#[test]
fn error_text() {
    let e = ErrorKind::InvalidWord.into_error();
    assert_eq!(e.text(), "Invalid word");
    let e = ErrorKind::IoError.into_error().with_source("disk".to_owned());
    assert_eq!(e.text(), "IO Error: disk");
    let e = e.with_message("read".to_owned());
    assert_eq!(e.text(), "IO Error: read");
    assert_eq!(e.kind(), ErrorKind::IoError);
}

#[test]
fn content_types() {
    let kind = |b: &[u8]| read_file("f", Ok(b.to_vec())).content_type();
    assert_eq!(kind(b""), ContentType::Utf8);
    assert_eq!(kind(b"Hello"), ContentType::Utf8);
    assert_eq!(kind(b"\xEF\xBB\xBFx"), ContentType::Utf8Bom);
    // UTF-32 is not checked: it counts as binary
    assert_eq!(kind(b"\xFF\xFE\x00\x00"), ContentType::Binary);
    assert_eq!(kind(b"\xFF\xFEa\x00"), ContentType::Utf16Le);
    assert_eq!(kind(b"%PDF-1.4"), ContentType::Binary);
    assert_eq!(kind(b"a\x00"), ContentType::Binary);
    let (_, t) = massage_data(b"\xFE\xFF\x00a".to_vec());
    assert_eq!(t, ContentType::Binary);
    let (_, t) = massage_data(b"\xEF\xBB\xBFx".to_vec());
    assert_eq!(t, ContentType::Utf8Bom);
}
