use typos::refine::{find_best_match, is_valid_spelling, refine, refine_correction, related_words};
use typos::varcon::{Category, Cluster, Entry, Tag, Type, Variant};

fn variant(word: &str, category: Category, tag: Option<Tag>) -> Variant {
    Variant { types: vec![Type { category, tag, num: None }], word: word.to_owned() }
}

fn entry(variants: Vec<Variant>) -> Entry {
    Entry { variants, pos: None, archaic: false, description: None, note: None, comment: None }
}

fn clusters() -> Vec<Cluster> {
    vec![Cluster {
        header: "color".to_owned(),
        verified: true,
        level: 50,
        entries: vec![
            entry(vec![
                variant("color", Category::American, None),
                variant("colour", Category::BritishIse, None),
            ]),
            entry(vec![
                variant("analyze", Category::American, None),
                variant("analyse", Category::BritishIse, Some(Tag::Improper)),
            ]),
        ],
        notes: vec![],
    }]
}

fn strings(words: &[&str]) -> Vec<String> {
    words.iter().map(|w| w.to_string()).collect()
}

#[test]
fn best_match_is_the_nearest_then_first_by_text() {
    let r = find_best_match("kitten", "sitting", &strings(&["mitten", "bitten"]));
    assert_eq!(r.as_deref(), Some("bitten"));
}

#[test]
fn best_match_must_be_nearer_than_the_correction() {
    assert_eq!(find_best_match("abc", "abd", &strings(&["xyz"])), None);
    assert_eq!(find_best_match("abc", "abd", &strings(&[])), None);
}

#[test]
fn best_match_counts_edits() {
    // kitten -> sitting takes three edits, kitten -> sittin two
    let r = find_best_match("kitten", "sitting", &strings(&["sittin"]));
    assert_eq!(r.as_deref(), Some("sittin"));
    let r = find_best_match("kitten", "sittin", &strings(&["sitting"]));
    assert_eq!(r, None);
}

#[test]
fn spellings_ignore_case() {
    let c = clusters();
    assert!(is_valid_spelling(&c, "colour"));
    assert!(is_valid_spelling(&c, "COLOR"));
    assert!(is_valid_spelling(&c, "analyse"));
    assert!(!is_valid_spelling(&c, "colr"));
}

#[test]
fn related_words_leave_out_improper_spellings() {
    let c = clusters();
    let (known, words) = related_words(&c, "color");
    assert!(known);
    assert_eq!(words, strings(&["colour"]));
    let (known, words) = related_words(&c, "analyze");
    assert!(known);
    assert!(words.is_empty());
    let (known, _) = related_words(&c, "analyse");
    assert!(!known);
    let (known, _) = related_words(&c, "teh");
    assert!(!known);
}

#[test]
fn correction_replaced_by_nearer_spelling() {
    let c = clusters();
    assert_eq!(refine_correction(&c, "colr", "colour").as_deref(), Some("color"));
    assert_eq!(refine_correction(&c, "colourr", "colour").as_deref(), Some("colour"));
    assert_eq!(refine_correction(&c, "colour", "color"), None);
    assert_eq!(refine_correction(&c, "teh", "the").as_deref(), Some("the"));
}

#[test]
fn records_refined_in_order() {
    let c = clusters();
    let records = vec![
        ("colour".to_owned(), "color".to_owned()),
        ("colr".to_owned(), "colour".to_owned()),
        ("teh".to_owned(), "the".to_owned()),
        ("COLOR".to_owned(), "x".to_owned()),
    ];
    let out = refine(&c, &records);
    assert_eq!(
        out,
        vec![("colr".to_owned(), "color".to_owned()), ("teh".to_owned(), "the".to_owned())]
    );
}
