use typos::wordlist::{generate, parse_dict};

fn entry(typo: &str, corrections: &[&str]) -> (String, Vec<String>) {
    (
        typo.to_owned(),
        corrections.iter().map(|c| c.to_string()).collect(),
    )
}

#[test]
fn parse_dict_lines() {
    let raw = "abandonned->abandoned\n  teh -> the, ten ,\r\nx->\n";
    assert_eq!(
        parse_dict(raw),
        vec![
            entry("abandonned", &["abandoned"]),
            entry("teh", &["the", "ten"]),
            entry("x", &[]),
        ]
    );
}

#[test]
fn parse_dict_last_line_and_arrows() {
    // No line after a final newline; the last line needs no newline; only the first
    // arrow splits.
    assert_eq!(parse_dict(""), vec![]);
    assert_eq!(parse_dict("a->b->c"), vec![entry("a", &["b->c"])]);
    assert_eq!(parse_dict("a->b\rc"), vec![entry("a", &["b\rc"])]);
}

#[test]
fn generate_table_source() {
    let out = generate("teh->the,ten\nabout->about\n", "codespell-codegen");
    assert_eq!(out[0], "// This file is code-genned by codespell-codegen");
    assert_eq!(out[1], "");
    assert_eq!(
        out[2],
        "pub static WORD_DICTIONARY: dictgen::DictTable<&[&str]> = dictgen::DictTable {"
    );
    assert_eq!(out[4], "      dictgen::InsensitiveStr::Ascii(\"about\"),");
    assert_eq!(out[5], "      dictgen::InsensitiveStr::Ascii(\"teh\"),");
    assert_eq!(out[8], "      &[\"about\"],");
    assert_eq!(out[9], "      &[\"the\", \"ten\"],");
    assert_eq!(out[11], "    range: 3..=5,");
}
