use typos::misspell::{generate, parse_dict};

const LIST: &str = "package misspell

// DictMain is the main rule set, not including locales
var DictMain = []string{
\t\"abandenment\", \"abandonment\",
\t\"Teh\", \"The\", // a comment
\t\"abandenment\", \"abandonment2\",
\tnot an entry
}

// DictAmerican converts UK spellings to US spellings
var DictAmerican = []string{
\t\"colour\", \"color\",
}

// DictBritish converts US spellings to UK spellings
var DictBritish = []string{
\t\"color\", \"colour\",
}
";

fn pairs(p: &[(&str, &str)]) -> Vec<(String, String)> {
    p.iter().map(|(a, b)| (a.to_string(), b.to_string())).collect()
}

#[test]
fn sections_keep_the_last_correction_of_each_word() {
    let words = parse_dict(LIST);
    assert_eq!(words.main, pairs(&[("Teh", "The"), ("abandenment", "abandonment2")]));
    assert_eq!(words.american, pairs(&[("colour", "color")]));
    assert_eq!(words.british, pairs(&[("color", "colour")]));
}

#[test]
fn entry_lines_split_at_the_last_separator() {
    let words = parse_dict("var DictMain = []string{\n\"a\", \"b\", \"c\",\n}\n");
    assert_eq!(words.main, pairs(&[("a\", \"b", "c")]));
}

#[test]
fn generated_tables() {
    let out = generate(LIST, "misspell-dict-codegen");
    let expected: Vec<String> = [
        "// This file is code-genned by misspell-dict-codegen",
        "#![allow(clippy::unreadable_literal)]",
        "",
        "pub static MAIN_DICTIONARY: &[(&str, &[&str])] = &[",
        "  (\"abandenment\", &[\"abandonment2\"]),",
        "  (\"Teh\", &[\"The\"]),",
        "];",
        "",
        "pub static AMERICAN_DICTIONARY: &[(&str, &[&str])] = &[",
        "  (\"colour\", &[\"color\"]),",
        "];",
        "",
        "pub static BRITISH_DICTIONARY: &[(&str, &[&str])] = &[",
        "  (\"color\", &[\"colour\"]),",
        "];",
    ]
    .iter()
    .map(|s| s.to_string())
    .collect();
    assert_eq!(out, expected);
}

#[test]
fn empty_list_gives_empty_tables() {
    let out = generate("package misspell\n", "g");
    assert_eq!(out.len(), 3 + 2 + 1 + 2 + 1 + 2);
    assert_eq!(out[3], "pub static MAIN_DICTIONARY: &[(&str, &[&str])] = &[");
    assert_eq!(out[4], "];");
}
