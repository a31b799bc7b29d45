use typos::check::Typo;
use typos::dict::Status;
use typos::file::{extract_line, fix_buffer, is_fixable, AccumulateLineNum};

fn fix_simple(line: &str, corrections: Vec<(usize, &'static str, &'static str)>) -> String {
    let line = line.as_bytes().to_vec();
    let corrections = corrections
        .into_iter()
        .map(|(byte_offset, typo, correction)| Typo {
            byte_offset,
            typo: typo.into(),
            corrections: Status::Corrections(vec![correction.into()]),
        })
        .collect();
    let actual = fix_buffer(line, corrections);
    String::from_utf8(actual).unwrap()
}

#[test]
fn test_fix_buffer_single() {
    let actual = fix_simple("foo foo foo", vec![(4, "foo", "bar")]);
    assert_eq!(actual, "foo bar foo");
}

#[test]
fn test_fix_buffer_single_grow() {
    let actual = fix_simple("foo foo foo", vec![(4, "foo", "happy")]);
    assert_eq!(actual, "foo happy foo");
}

#[test]
fn test_fix_buffer_single_shrink() {
    let actual = fix_simple("foo foo foo", vec![(4, "foo", "if")]);
    assert_eq!(actual, "foo if foo");
}

#[test]
fn test_fix_buffer_start() {
    let actual = fix_simple("foo foo foo", vec![(0, "foo", "bar")]);
    assert_eq!(actual, "bar foo foo");
}

#[test]
fn test_fix_buffer_end() {
    let actual = fix_simple("foo foo foo", vec![(8, "foo", "bar")]);
    assert_eq!(actual, "foo foo bar");
}

#[test]
fn test_fix_buffer_end_grow() {
    let actual = fix_simple("foo foo foo", vec![(8, "foo", "happy")]);
    assert_eq!(actual, "foo foo happy");
}

#[test]
fn test_fix_buffer_multiple() {
    let actual = fix_simple(
        "foo foo foo",
        vec![(4, "foo", "happy"), (8, "foo", "world")],
    );
    assert_eq!(actual, "foo happy world");
}

#[test]
fn test_fix_buffer_empty_keeps_buffer() {
    let actual = fix_simple("foo foo foo", vec![]);
    assert_eq!(actual, "foo foo foo");
}

#[test]
fn test_fix_buffer_multibyte() {
    let actual = fix_simple("é teh é", vec![(3, "teh", "the")]);
    assert_eq!(actual, "é the é");
}

#[test]
fn test_is_fixable() {
    let one = Typo {
        byte_offset: 0,
        typo: "teh".into(),
        corrections: Status::Corrections(vec!["the".into()]),
    };
    let two = Typo {
        byte_offset: 0,
        typo: "teh".into(),
        corrections: Status::Corrections(vec!["the".into(), "ten".into()]),
    };
    let invalid = Typo { byte_offset: 0, typo: "teh".into(), corrections: Status::Invalid };
    assert!(is_fixable(&one));
    assert!(!is_fixable(&two));
    assert!(!is_fixable(&invalid));
}

#[test]
fn test_line_count_first() {
    let mut accum_line_num = AccumulateLineNum::new();
    let line_num = accum_line_num.line_num(b"hello world", 6);
    assert_eq!(line_num, 1);
}

#[test]
fn test_line_count_second() {
    let mut accum_line_num = AccumulateLineNum::new();
    let line_num = accum_line_num.line_num(b"1\n2\n3", 2);
    assert_eq!(line_num, 2);
}

#[test]
fn test_line_count_multiple() {
    let mut accum_line_num = AccumulateLineNum::new();
    let line_num = accum_line_num.line_num(b"1\n2\n3", 0);
    assert_eq!(line_num, 1);
    let line_num = accum_line_num.line_num(b"1\n2\n3", 2);
    assert_eq!(line_num, 2);
    let line_num = accum_line_num.line_num(b"1\n2\n3", 4);
    assert_eq!(line_num, 3);
}

#[test]
fn test_line_count_skips_ahead() {
    let mut accum_line_num = AccumulateLineNum::new();
    let line_num = accum_line_num.line_num(b"1\n2\n3\n4", 6);
    assert_eq!(line_num, 4);
}

#[test]
fn test_extract_line_single_line() {
    let buffer = b"hello world";
    let buffer_offset = 6;
    let expected_line = b"hello world";
    let (line, offset) = extract_line(buffer, buffer_offset);
    assert_eq!(line, expected_line);
    assert_eq!(offset, 6);
    assert_eq!(line[offset], buffer[buffer_offset]);
}

#[test]
fn test_extract_line_first() {
    let buffer = b"1\n2\n3";
    let buffer_offset = 0;
    let expected_line = b"1";
    let (line, offset) = extract_line(buffer, buffer_offset);
    assert_eq!(line, expected_line);
    assert_eq!(offset, 0);
    assert_eq!(line[offset], buffer[buffer_offset]);
}

#[test]
fn test_extract_line_middle() {
    let buffer = b"1\n2\n3";
    let buffer_offset = 2;
    let expected_line = b"2";
    let (line, offset) = extract_line(buffer, buffer_offset);
    assert_eq!(line, expected_line);
    assert_eq!(offset, 0);
    assert_eq!(line[offset], buffer[buffer_offset]);
}

#[test]
fn test_extract_line_end() {
    let buffer = b"1\n2\n3";
    let buffer_offset = 4;
    let expected_line = b"3";
    let (line, offset) = extract_line(buffer, buffer_offset);
    assert_eq!(line, expected_line);
    assert_eq!(offset, 0);
    assert_eq!(line[offset], buffer[buffer_offset]);
}

#[test]
fn test_extract_line_offset_change() {
    let buffer = b"1\nhello world\n2";
    let buffer_offset = 8;
    let expected_line = b"hello world";
    let (line, offset) = extract_line(buffer, buffer_offset);
    assert_eq!(line, expected_line);
    assert_eq!(offset, 6);
    assert_eq!(line[offset], buffer[buffer_offset]);
}

#[test]
fn test_extract_line_windows() {
    let buffer = b"1\r\nhello world\r\n2";
    let buffer_offset = 9;
    let expected_line = b"hello world";
    let (line, offset) = extract_line(buffer, buffer_offset);
    assert_eq!(line, expected_line);
    assert_eq!(offset, 6);
    assert_eq!(line[offset], buffer[buffer_offset]);
}

#[test]
fn test_extract_line_slovak() {
    let buffer = b"LastErrorMessage=%1.%n%nChyba %2: %3\r\nSetupFileMissing=In\x9Atala\xE8n\xFD adres\xE1r neobsahuje s\xFAbor %1. Opravte, pros\xEDm, t\xFAto chybu alebo si zaobstarajte nov\xFA k\xF3piu tohto produktu.\r\nSetupFileCorrupt=S\xFAbory sprievodcu in\x9Atal\xE1ciou s\xFA po\x9Akoden\xE9. Zaobstarajte si, pros\xEDm, nov\xFA k\xF3piu tohto produktu.";
    let buffer_offset = 66;
    let expected_line = b"SetupFileMissing=In\x9Atala\xE8n\xFD adres\xE1r neobsahuje s\xFAbor %1. Opravte, pros\xEDm, t\xFAto chybu alebo si zaobstarajte nov\xFA k\xF3piu tohto produktu.";
    let (line, offset) = extract_line(buffer, buffer_offset);
    assert_eq!(line, expected_line);
    assert_eq!(offset, 28);
    assert_eq!(line[offset], buffer[buffer_offset]);
}

#[test]
fn fix_buffer_replaces_each_typo_at_its_original_offset() {
    // Offsets are in the original buffer; fixes of other lengths do not move later ones.
    let line = "teh cat adn teh dog";
    let actual = fix_simple(line, vec![(0, "teh", "the"), (8, "adn", "and"), (12, "teh", "thee")]);
    assert_eq!(actual, "the cat and thee dog");
    assert_eq!(actual.len(), line.len() + 1);
    let actual = fix_simple(line, vec![(0, "teh", "a"), (12, "teh", "")]);
    assert_eq!(actual, "a cat adn  dog");
    assert_eq!(actual.len(), line.len() - 5);
}
