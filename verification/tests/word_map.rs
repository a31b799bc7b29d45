use typos::word_map::{entries_of, generate, table_lines_of};

fn rows(r: &[&[&str]]) -> Vec<Vec<String>> {
    r.iter().map(|row| row.iter().map(|f| f.to_string()).collect()).collect()
}

#[test]
fn entries_are_typos_and_correction_literals() {
    let (keys, values) = entries_of(&rows(&[&["teh", "the"], &["abandonned", "abandoned", "abandon"], &["x"]]));
    assert_eq!(keys, vec!["teh", "abandonned", "x"]);
    assert_eq!(values, vec!["&[\"the\"]", "&[\"abandoned\", \"abandon\"]", "&[]"]);
}

#[test]
fn table_lines_around_the_map() {
    let out = table_lines_of(&rows(&[&["teh", "the"], &["abandonned", "abandoned"]]), "MAP", "g");
    let expected: Vec<String> = [
        "// This file is code-genned by g",
        "#![allow(clippy::unreadable_literal)]",
        "",
        "use unicase::UniCase;",
        "pub static WORD_DICTIONARY: phf::Map<unicase::UniCase<&'static str>, &'static [&'static str]> = ",
        "MAP",
        ";",
        "",
        "pub const WORD_RANGE: std::ops::RangeInclusive<usize> = 3..=10;",
    ]
    .iter()
    .map(|s| s.to_string())
    .collect();
    assert_eq!(out, expected);
}

#[test]
fn no_rows_give_the_empty_range_as_is() {
    let out = table_lines_of(&Vec::new(), "M", "g");
    assert_eq!(out[8], format!("pub const WORD_RANGE: std::ops::RangeInclusive<usize> = {}..=0;", usize::MAX));
}

#[test]
fn generated_from_csv() {
    let out = generate(b"teh,the\nabandonned,abandoned,abandon\n", "g").unwrap();
    assert_eq!(out.len(), 9);
    assert_eq!(out[3], "use unicase::UniCase;");
    assert!(out[5].contains("\"teh\""));
    assert!(out[5].contains("&[\"abandoned\", \"abandon\"]"));
    assert_eq!(out[8], "pub const WORD_RANGE: std::ops::RangeInclusive<usize> = 3..=10;");
}

#[test]
fn typos_equal_ignoring_case_cannot_be_generated() {
    assert_eq!(generate(b"teh,the\nTEH,the\n", "g"), None);
}

#[test]
fn unreadable_csv_cannot_be_generated() {
    assert_eq!(generate(b"\xff,x\n", "g"), None);
}
