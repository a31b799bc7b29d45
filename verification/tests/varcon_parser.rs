use typos::varcon::parser::{ClusterIter, ParseError, PeekError};
use typos::varcon::{Category, Cluster, Entry, Pos, Tag, Type, Variant};

fn ty(category: Category, tag: Option<Tag>) -> Type {
    Type { category, tag, num: None }
}

fn var(types: Vec<Type>, word: &str) -> Variant {
    Variant { types, word: word.to_owned() }
}

fn plain(variants: Vec<Variant>) -> Entry {
    Entry {
        variants,
        pos: None,
        archaic: false,
        description: None,
        note: None,
        comment: None,
    }
}

fn acknowledgment_entries() -> Vec<Entry> {
    let mut entries = Vec::new();
    for (a, b) in [
        ("acknowledgment", "acknowledgement"),
        ("acknowledgments", "acknowledgements"),
        ("acknowledgment's", "acknowledgement's"),
    ] {
        entries.push(plain(vec![
            var(
                vec![
                    ty(Category::American, None),
                    ty(Category::Canadian, Some(Tag::Variant)),
                ],
                a,
            ),
            var(
                vec![
                    ty(Category::American, Some(Tag::Variant)),
                    ty(Category::BritishIse, None),
                    ty(Category::Canadian, None),
                ],
                b,
            ),
        ]));
    }
    entries
}

fn acknowledgment_cluster() -> Cluster {
    Cluster {
        header: "acknowledgment ".to_owned(),
        verified: true,
        level: 35,
        entries: acknowledgment_entries(),
        notes: vec![],
    }
}

fn collect(mut iter: ClusterIter) -> Vec<Cluster> {
    let mut out = Vec::new();
    while let Some(c) = iter.next() {
        out.push(c);
    }
    out
}

const ACK: &str = "# acknowledgment <verified> (level 35)
A Cv: acknowledgment / Av B C: acknowledgement
A Cv: acknowledgments / Av B C: acknowledgements
A Cv: acknowledgment's / Av B C: acknowledgement's

";

#[test]
fn test_single() {
    let actual = collect(ClusterIter::new(ACK));
    assert_eq!(actual, vec![acknowledgment_cluster()]);
}

#[test]
fn test_multiple() {
    let input = format!("{ACK}{ACK}");
    let actual = collect(ClusterIter::new(&input));
    assert_eq!(actual, vec![acknowledgment_cluster(), acknowledgment_cluster()]);
}

#[test]
fn test_basic() {
    let (input, actual) = Cluster::parse_peek(ACK).unwrap();
    assert_eq!(input, "\n");
    assert_eq!(actual, acknowledgment_cluster());
}

#[test]
fn test_notes() {
    let (input, actual) = Cluster::parse_peek(
        "# coloration <verified> (level 50)
A B C: coloration / B. Cv: colouration
A B C: colorations / B. Cv: colourations
A B C: coloration's / B. Cv: colouration's
## OED has coloration as the preferred spelling and discolouration as a
## variant for British Engl or some reason

",
    )
    .unwrap();
    assert_eq!(input, "\n");
    let mut entries = Vec::new();
    for (a, b) in [
        ("coloration", "colouration"),
        ("colorations", "colourations"),
        ("coloration's", "colouration's"),
    ] {
        entries.push(plain(vec![
            var(
                vec![
                    ty(Category::American, None),
                    ty(Category::BritishIse, None),
                    ty(Category::Canadian, None),
                ],
                a,
            ),
            var(
                vec![
                    ty(Category::BritishIse, Some(Tag::Eq)),
                    ty(Category::Canadian, Some(Tag::Variant)),
                ],
                b,
            ),
        ]));
    }
    let expected = Cluster {
        header: "coloration ".to_owned(),
        verified: true,
        level: 50,
        entries,
        notes: vec![
            "OED has coloration as the preferred spelling and discolouration as a".to_owned(),
            "variant for British Engl or some reason".to_owned(),
        ],
    };
    assert_eq!(actual, expected);
}

#[test]
fn test_variant_only() {
    let (input, actual) =
        Entry::parse_peek("A Cv: acknowledgment's / Av B C: acknowledgement's\n").unwrap();
    assert_eq!(input, "\n");
    assert_eq!(actual, acknowledgment_entries().remove(2));
}

#[test]
fn test_description() {
    let (input, actual) = Entry::parse_peek("A C: prize / B: prise | otherwise\n").unwrap();
    assert_eq!(input, "\n");
    let mut expected = plain(vec![
        var(
            vec![ty(Category::American, None), ty(Category::Canadian, None)],
            "prize",
        ),
        var(vec![ty(Category::BritishIse, None)], "prise"),
    ]);
    expected.description = Some("otherwise".to_owned());
    assert_eq!(actual, expected);
}

fn practice_variants() -> Vec<Variant> {
    vec![
        var(
            vec![
                ty(Category::American, None),
                ty(Category::BritishIse, None),
                ty(Category::Canadian, None),
            ],
            "practice",
        ),
        var(
            vec![
                ty(Category::American, Some(Tag::Seldom)),
                ty(Category::Canadian, Some(Tag::Variant)),
            ],
            "practise",
        ),
    ]
}

#[test]
fn test_pos() {
    let (input, actual) =
        Entry::parse_peek("A B C: practice / AV Cv: practise | <N>\n").unwrap();
    assert_eq!(input, "\n");
    let mut expected = plain(practice_variants());
    expected.pos = Some(Pos::Noun);
    assert_eq!(actual, expected);
}

#[test]
fn test_pos_bad() {
    let err = Entry::parse_peek("A B C: practice / AV Cv: practise | <Bad>\n").unwrap_err();
    assert_eq!(err, PeekError::Cut);
    assert_eq!(err.to_string(), "Parsing Failure: ()");
}

#[test]
fn test_plural() {
    let (input, actual) = Entry::parse_peek("_ _-: dogies | <pl>\n").unwrap();
    assert_eq!(input, "\n");
    let expected = plain(vec![var(
        vec![
            ty(Category::Other, None),
            ty(Category::Other, Some(Tag::Possible)),
        ],
        "dogies",
    )]);
    assert_eq!(actual, expected);
}

#[test]
fn test_abbr() {
    let (input, actual) = Entry::parse_peek("A B: ha | <abbr>\n").unwrap();
    assert_eq!(input, "\n");
    let expected = plain(vec![var(
        vec![ty(Category::American, None), ty(Category::BritishIse, None)],
        "ha",
    )]);
    assert_eq!(actual, expected);
}

#[test]
fn test_archaic() {
    let (input, actual) = Entry::parse_peek("A: bark / Av B: barque | (-) ship\n").unwrap();
    assert_eq!(input, "\n");
    let mut expected = plain(vec![
        var(vec![ty(Category::American, None)], "bark"),
        var(
            vec![
                ty(Category::American, Some(Tag::Variant)),
                ty(Category::BritishIse, None),
            ],
            "barque",
        ),
    ]);
    expected.archaic = true;
    expected.description = Some("ship".to_owned());
    assert_eq!(actual, expected);
}

#[test]
fn test_note() {
    let (input, actual) = Entry::parse_peek("_: cabbies | -- plural\n").unwrap();
    assert_eq!(input, "\n");
    let mut expected = plain(vec![var(vec![ty(Category::Other, None)], "cabbies")]);
    expected.note = Some("plural".to_owned());
    assert_eq!(actual, expected);
}

#[test]
fn test_description_and_note() {
    let (input, actual) = Entry::parse_peek(
        "A B: wizz | as in \"gee whiz\" | -- Ox: informal, chiefly N. Amer.\n",
    )
    .unwrap();
    assert_eq!(input, "\n");
    let mut expected = plain(vec![var(
        vec![ty(Category::American, None), ty(Category::BritishIse, None)],
        "wizz",
    )]);
    expected.description = Some("as in \"gee whiz\" ".to_owned());
    expected.note = Some("Ox: informal, chiefly N. Amer.".to_owned());
    assert_eq!(actual, expected);
}

#[test]
fn test_trailing_comment() {
    let (input, actual) = Entry::parse_peek(
        "A B: accursed / AV B-: accurst # ODE: archaic, M-W: 'or' but can find little evidence of use\n",
    )
    .unwrap();
    assert_eq!(input, "\n");
    let mut expected = plain(vec![
        var(
            vec![ty(Category::American, None), ty(Category::BritishIse, None)],
            "accursed",
        ),
        var(
            vec![
                ty(Category::American, Some(Tag::Seldom)),
                ty(Category::BritishIse, Some(Tag::Possible)),
            ],
            "accurst",
        ),
    ]);
    expected.comment =
        Some("ODE: archaic, M-W: 'or' but can find little evidence of use".to_owned());
    assert_eq!(actual, expected);
}

#[test]
fn parser_test_valid() {
    let (input, actual) = Variant::parse_peek("A Cv: acknowledgment ").unwrap();
    assert_eq!(input, " ");
    let expected = var(
        vec![
            ty(Category::American, None),
            ty(Category::Canadian, Some(Tag::Variant)),
        ],
        "acknowledgment",
    );
    assert_eq!(actual, expected);
}

#[test]
fn parser_test_extra() {
    let (input, actual) =
        Variant::parse_peek("A Cv: acknowledgment's / Av B C: acknowledgement's").unwrap();
    assert_eq!(input, " / Av B C: acknowledgement's");
    let expected = var(
        vec![
            ty(Category::American, None),
            ty(Category::Canadian, Some(Tag::Variant)),
        ],
        "acknowledgment's",
    );
    assert_eq!(actual, expected);
}

#[test]
fn test_underscore() {
    let (input, actual) = Variant::parse_peek("_: air_gun\n").unwrap();
    assert_eq!(input, "\n");
    assert_eq!(actual, var(vec![ty(Category::Other, None)], "air gun"));
}

#[test]
fn test_columns() {
    let (input, actual) = Variant::parse_peek("A B 1 2: aeries").unwrap();
    assert_eq!(input, "");
    let expected = var(
        vec![ty(Category::American, None), ty(Category::BritishIse, None)],
        "aeries",
    );
    assert_eq!(actual, expected);
}

#[test]
fn type_test_valid() {
    let (input, actual) = Type::parse_peek("A ").unwrap();
    assert_eq!(input, " ");
    assert_eq!(actual, ty(Category::American, None));

    let (input, actual) = Type::parse_peek("Bv ").unwrap();
    assert_eq!(input, " ");
    assert_eq!(actual, ty(Category::BritishIse, Some(Tag::Variant)));
}

#[test]
fn type_test_extra() {
    let (input, actual) = Type::parse_peek("Z foobar").unwrap();
    assert_eq!(input, " foobar");
    assert_eq!(actual, ty(Category::BritishIze, None));

    let (input, actual) = Type::parse_peek("C- foobar").unwrap();
    assert_eq!(input, " foobar");
    assert_eq!(actual, ty(Category::Canadian, Some(Tag::Possible)));
}

#[test]
fn test_num() {
    let (input, actual) = Type::parse_peek("Av1 ").unwrap();
    assert_eq!(input, " ");
    let expected = Type {
        category: Category::American,
        tag: Some(Tag::Variant),
        num: Some(1),
    };
    assert_eq!(actual, expected);
}

#[test]
fn category_test_valid() {
    let (input, actual) = Category::parse_peek("A").unwrap();
    assert_eq!(input, "");
    assert_eq!(actual, Category::American);
}

#[test]
fn category_test_extra() {
    let (input, actual) = Category::parse_peek("_ foobar").unwrap();
    assert_eq!(input, " foobar");
    assert_eq!(actual, Category::Other);
}

#[test]
fn tag_test_valid() {
    let (input, actual) = Tag::parse_peek(".").unwrap();
    assert_eq!(input, "");
    assert_eq!(actual, Tag::Eq);
}

#[test]
fn tag_test_extra() {
    let (input, actual) = Tag::parse_peek("x foobar").unwrap();
    assert_eq!(input, " foobar");
    assert_eq!(actual, Tag::Improper);
}

#[test]
fn pos_test_valid() {
    let (input, actual) = Pos::parse_peek("N>").unwrap();
    assert_eq!(input, ">");
    assert_eq!(actual, Pos::Noun);
}

#[test]
fn pos_test_extra() {
    let (input, actual) = Pos::parse_peek("Adj> foobar").unwrap();
    assert_eq!(input, "> foobar");
    assert_eq!(actual, Pos::Adjective);
}

#[test]
fn whole_text_parse() {
    assert_eq!(Category::parse("B").unwrap(), Category::BritishIse);
    assert!(Category::parse("B ").is_err());
    assert!(Tag::parse("q").is_err());
    assert_eq!(Pos::parse("Prep").unwrap(), Pos::Preposition);
    assert_eq!(Pos::parse("A").unwrap(), Pos::AdjectiveOrAdverb);
    assert!(Pos::parse("Adjx").is_err());
    let t = Type::parse("Cx12").unwrap();
    assert_eq!(t.num, Some(12));
    assert_eq!(t.tag, Some(Tag::Improper));
    assert!(Variant::parse("A: a b").is_err());
    assert!(Entry::parse("A: a\n").is_err());
    assert_eq!(Entry::parse("A: a  ").unwrap(), plain(vec![var(vec![ty(Category::American, None)], "a")]));
    assert_eq!(ParseError.to_string(), "invalid");
}

#[test]
fn cluster_edges() {
    // A level that does not fit in a usize makes the header no header.
    assert!(Cluster::parse("# a (level 99999999999999999999999)\nA: a\n").is_err());
    // A cluster needs at least one entry.
    assert!(Cluster::parse("# a (level 1)\n").is_err());
    let c = Cluster::parse("#  a b (level 007)\r\nA: a\r\n##  n\r\n").unwrap();
    assert_eq!(c.header, "a b ");
    assert!(!c.verified);
    assert_eq!(c.level, 7);
    assert_eq!(c.notes, vec!["n".to_owned()]);
    // A malformed part of speech fails the whole cluster.
    assert!(Cluster::parse("# a (level 1)\nA: a | <X>\n").is_err());
    // A lone carriage return ends no comment.
    let (rest, e) = Entry::parse_peek("A: a # c\rd").unwrap();
    assert_eq!(e.comment, None);
    assert_eq!(rest, "# c\rd");
    assert_eq!(Entry::parse_peek("# x").unwrap_err(), PeekError::Backtrack);
    assert_eq!(PeekError::Backtrack.to_string(), "Parsing Error: ()");
}

#[test]
fn cluster_iter_stops() {
    let mut iter = ClusterIter::new("\u{3000}\n# a (level 1)\nA: a\nnot a cluster");
    let first = iter.next().unwrap();
    assert_eq!(first.level, 1);
    assert!(iter.next().is_none());
}

#[test]
fn entry_infer_twice_infers_nothing_more() {
    let mut entry = plain(vec![
        var(vec![ty(Category::BritishIse, Some(Tag::Eq))], "finalise"),
        var(vec![ty(Category::American, None)], "finalize"),
    ]);
    entry.infer();
    let expected = plain(vec![
        var(
            vec![
                ty(Category::BritishIse, Some(Tag::Eq)),
                ty(Category::BritishIze, Some(Tag::Eq)),
                ty(Category::Canadian, Some(Tag::Eq)),
                ty(Category::Australian, Some(Tag::Eq)),
            ],
            "finalise",
        ),
        var(vec![ty(Category::American, None)], "finalize"),
    ]);
    assert_eq!(entry, expected);
    entry.infer();
    assert_eq!(entry, expected);
}

#[test]
fn cluster_infer_infers_each_entry_alone() {
    let entries = || {
        vec![
            plain(vec![var(vec![ty(Category::BritishIse, None)], "colourise")]),
            plain(vec![var(vec![ty(Category::American, None), ty(Category::BritishIze, Some(Tag::Variant))], "colorize")]),
        ]
    };
    let mut cluster = Cluster {
        header: "colorize".to_owned(),
        verified: true,
        level: 50,
        entries: entries(),
        notes: vec!["a note".to_owned()],
    };
    cluster.infer();
    let mut alone = entries();
    for e in alone.iter_mut() {
        e.infer();
    }
    assert_eq!(cluster.entries, alone);
    assert_eq!(cluster.header, "colorize");
    assert_eq!(cluster.notes, vec!["a note".to_owned()]);
}
