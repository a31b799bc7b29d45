use typos::diff::{diff_text, lines_with_terminator};

#[test]
fn lines_keep_their_terminator() {
    assert_eq!(lines_with_terminator(b"a\nb"), vec!["a\n".to_owned(), "b".to_owned()]);
    assert_eq!(lines_with_terminator(b"a\r\n\n"), vec!["a\r\n".to_owned(), "\n".to_owned()]);
    assert!(lines_with_terminator(b"").is_empty());
    assert_eq!(lines_with_terminator(b"\xFFx\n"), vec!["\u{FFFD}x\n".to_owned()]);
}

#[test]
fn diff_of_a_fixed_line() {
    let diff = diff_text("a.txt", "a.txt", b"teh\nok\n", b"the\nok\n");
    assert_eq!(
        diff,
        vec![
            "--- a.txt\toriginal\n".to_owned(),
            "+++ a.txt\tfixed\n".to_owned(),
            "@@ -1 +1 @@\n".to_owned(),
            "-teh\n".to_owned(),
            "+the\n".to_owned(),
        ]
    );
}

#[test]
fn diff_of_nothing_changed_is_empty() {
    assert!(diff_text("a", "a", b"same\n", b"same\n").is_empty());
    assert!(diff_text("a", "b", b"", b"").is_empty());
}
