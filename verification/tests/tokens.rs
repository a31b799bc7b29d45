use typos::tokens::{Case, Identifier, TokenizerBuilder, Tokenizer, Word, WordError};

#[test]
fn tokenize_empty_is_empty() {
    let parser = Tokenizer::new();

    let input = "";
    let expected: Vec<Identifier> = vec![];
    let actual: Vec<_> = parser.parse_bytes(input.as_bytes());
    assert_eq!(expected, actual);
    let actual: Vec<_> = parser.parse_str(input);
    assert_eq!(expected, actual);
}

#[test]
fn tokenize_word_is_word() {
    let parser = Tokenizer::new();

    let input = "word";
    let expected: Vec<Identifier> = vec![Identifier::new_unchecked("word", Case::NoCase, 0)];
    let actual: Vec<_> = parser.parse_bytes(input.as_bytes());
    assert_eq!(expected, actual);
    let actual: Vec<_> = parser.parse_str(input);
    assert_eq!(expected, actual);
}

#[test]
fn tokenize_space_separated_words() {
    let parser = Tokenizer::new();

    let input = "A B";
    let expected: Vec<Identifier> = vec![
        Identifier::new_unchecked("A", Case::NoCase, 0),
        Identifier::new_unchecked("B", Case::NoCase, 2),
    ];
    let actual: Vec<_> = parser.parse_bytes(input.as_bytes());
    assert_eq!(expected, actual);
    let actual: Vec<_> = parser.parse_str(input);
    assert_eq!(expected, actual);
}

#[test]
fn tokenize_dot_separated_words() {
    let parser = Tokenizer::new();

    let input = "A.B";
    let expected: Vec<Identifier> = vec![
        Identifier::new_unchecked("A", Case::NoCase, 0),
        Identifier::new_unchecked("B", Case::NoCase, 2),
    ];
    let actual: Vec<_> = parser.parse_bytes(input.as_bytes());
    assert_eq!(expected, actual);
    let actual: Vec<_> = parser.parse_str(input);
    assert_eq!(expected, actual);
}

#[test]
fn tokenize_namespace_separated_words() {
    let parser = Tokenizer::new();

    let input = "A::B";
    let expected: Vec<Identifier> = vec![
        Identifier::new_unchecked("A", Case::NoCase, 0),
        Identifier::new_unchecked("B", Case::NoCase, 3),
    ];
    let actual: Vec<_> = parser.parse_bytes(input.as_bytes());
    assert_eq!(expected, actual);
    let actual: Vec<_> = parser.parse_str(input);
    assert_eq!(expected, actual);
}

#[test]
fn tokenize_underscore_doesnt_separate() {
    let parser = Tokenizer::new();

    let input = "A_B";
    let expected: Vec<Identifier> = vec![Identifier::new_unchecked("A_B", Case::NoCase, 0)];
    let actual: Vec<_> = parser.parse_bytes(input.as_bytes());
    assert_eq!(expected, actual);
    let actual: Vec<_> = parser.parse_str(input);
    assert_eq!(expected, actual);
}

#[test]
fn tokenize_ignore_hex_enabled() {
    let parser = TokenizerBuilder::new()
        .ignore_hex(true)
        .leading_digits(true)
        .build();

    let input = "Hello 0xDEADBEEF World";
    let expected: Vec<Identifier> = vec![
        Identifier::new_unchecked("Hello", Case::NoCase, 0),
        Identifier::new_unchecked("World", Case::NoCase, 17),
    ];
    let actual: Vec<_> = parser.parse_bytes(input.as_bytes());
    assert_eq!(expected, actual);
    let actual: Vec<_> = parser.parse_str(input);
    assert_eq!(expected, actual);
}

#[test]
fn tokenize_ignore_hex_disabled() {
    let parser = TokenizerBuilder::new()
        .ignore_hex(false)
        .leading_digits(true)
        .build();

    let input = "Hello 0xDEADBEEF World";
    let expected: Vec<Identifier> = vec![
        Identifier::new_unchecked("Hello", Case::NoCase, 0),
        Identifier::new_unchecked("0xDEADBEEF", Case::NoCase, 6),
        Identifier::new_unchecked("World", Case::NoCase, 17),
    ];
    let actual: Vec<_> = parser.parse_bytes(input.as_bytes());
    assert_eq!(expected, actual);
    let actual: Vec<_> = parser.parse_str(input);
    assert_eq!(expected, actual);
}

#[test]
fn tokenize_leading_digits_enabled() {
    let parser = TokenizerBuilder::new()
        .ignore_hex(false)
        .leading_digits(true)
        .build();

    let input = "Hello 0Hello 124 0xDEADBEEF World";
    let expected: Vec<Identifier> = vec![
        Identifier::new_unchecked("Hello", Case::NoCase, 0),
        Identifier::new_unchecked("0Hello", Case::NoCase, 6),
        Identifier::new_unchecked("0xDEADBEEF", Case::NoCase, 17),
        Identifier::new_unchecked("World", Case::NoCase, 28),
    ];
    let actual: Vec<_> = parser.parse_bytes(input.as_bytes());
    assert_eq!(expected, actual);
    let actual: Vec<_> = parser.parse_str(input);
    assert_eq!(expected, actual);
}

#[test]
fn tokenize_leading_digits_disabled() {
    let parser = TokenizerBuilder::new()
        .ignore_hex(false)
        .leading_digits(false)
        .build();

    let input = "Hello 0Hello 124 0xDEADBEEF World";
    let expected: Vec<Identifier> = vec![
        Identifier::new_unchecked("Hello", Case::NoCase, 0),
        Identifier::new_unchecked("World", Case::NoCase, 28),
    ];
    let actual: Vec<_> = parser.parse_bytes(input.as_bytes());
    assert_eq!(expected, actual);
    let actual: Vec<_> = parser.parse_str(input);
    assert_eq!(expected, actual);
}

#[test]
fn split_ident() {
    let cases = [
        (
            "lowercase",
            &[("lowercase", Case::Lower, 0usize)] as &[(&str, Case, usize)],
        ),
        ("Class", &[("Class", Case::Title, 0)]),
        (
            "MyClass",
            &[("My", Case::Title, 0), ("Class", Case::Title, 2)],
        ),
        ("MyC", &[("My", Case::Title, 0), ("C", Case::Upper, 2)]),
        ("HTML", &[("HTML", Case::Upper, 0)]),
        (
            "PDFLoader",
            &[("PDF", Case::Upper, 0), ("Loader", Case::Title, 3)],
        ),
        (
            "AString",
            &[("A", Case::Upper, 0), ("String", Case::Title, 1)],
        ),
        (
            "SimpleXMLTokenizer",
            &[
                ("Simple", Case::Title, 0),
                ("XML", Case::Upper, 6),
                ("Tokenizer", Case::Title, 9),
            ],
        ),
        (
            "vimRPCPlugin",
            &[
                ("vim", Case::Lower, 0),
                ("RPC", Case::Upper, 3),
                ("Plugin", Case::Title, 6),
            ],
        ),
        (
            "GL11Version",
            &[
                ("GL", Case::Upper, 0),
                ("11", Case::NoCase, 2),
                ("Version", Case::Title, 4),
            ],
        ),
        (
            "99Bottles",
            &[("99", Case::NoCase, 0), ("Bottles", Case::Title, 2)],
        ),
        ("May5", &[("May", Case::Title, 0), ("5", Case::NoCase, 3)]),
        (
            "BFG9000",
            &[("BFG", Case::Upper, 0), ("9000", Case::NoCase, 3)],
        ),
    ];
    for (input, expected) in cases.iter() {
        let ident = Identifier::new_unchecked(input, Case::NoCase, 0);
        let result: Vec<_> = ident
            .split()
            .iter()
            .map(|w| (w.token().to_owned(), w.case(), w.offset()))
            .collect();
        let expected: Vec<_> = expected
            .iter()
            .map(|(t, c, o)| (t.to_string(), *c, *o))
            .collect();
        assert_eq!(result, expected);
    }
}

#[test]
fn tokenize_non_ascii_offsets_are_bytes() {
    let parser = Tokenizer::new();
    let input = "é foo";
    let actual = parser.parse_str(input);
    assert_eq!(actual.len(), 2);
    assert_eq!(actual[0].token(), "é");
    assert_eq!(actual[1].offset(), 3);
}

#[test]
fn tokenize_invalid_utf8_separates() {
    let parser = Tokenizer::new();
    let input = b"foo\xffbar";
    let actual = parser.parse_bytes(input);
    let expected = vec![
        Identifier::new_unchecked("foo", Case::NoCase, 0),
        Identifier::new_unchecked("bar", Case::NoCase, 4),
    ];
    assert_eq!(actual, expected);
}

#[test]
fn word_new_single_word() {
    let word = Word::new("hello", 7).unwrap();
    assert_eq!(word.token(), "hello");
    assert_eq!(word.case(), Case::Lower);
    assert_eq!(word.offset(), 7);
}

#[test]
fn word_new_errors() {
    assert_eq!(Word::new("", 0), Err(WordError::Empty));
    assert_eq!(Word::new(" hello", 0), Err(WordError::Padding));
    assert_eq!(Word::new("helloWorld", 0), Err(WordError::MultipleWords));
}
