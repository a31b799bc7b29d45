use typos::builtin::Override;
use typos::checkers::{
    read_file, write_actions, Action, DiffTypos, FileChecker, FileTypes, FixTypos, FoundFiles,
    Identifiers, Policy, Typos, Words,
};
use typos::content::ContentType;
use typos::dict::{NullDictionary, Status};
use typos::pattern::Pattern;
use typos::report::{
    BinaryFile, Context, Error, File, FileContext, FileType, Message, Parse, ParseKind,
    PathContext, Typo,
};
use typos::tokens::Tokenizer;

fn teh_dict() -> Override<NullDictionary> {
    let mut dict = Override::new(NullDictionary);
    dict.words(&vec![
        ("teh".to_owned(), "the".to_owned()),
        ("wrod".to_owned(), "".to_owned()),
    ]);
    dict
}

fn policy<'p>(
    tokenizer: &'p Tokenizer,
    dict: &'p Override<NullDictionary>,
    ignore: &'p [Pattern],
) -> Policy<'p, Override<NullDictionary>> {
    Policy {
        check_filenames: true,
        check_files: true,
        binary: false,
        tokenizer,
        dict,
        ignore,
        file_type: Some("txt"),
    }
}

fn line_typo(path: &str, line_num: usize, line: &[u8], off: usize, typo: &str, c: Status) -> Action {
    Action::Report(Message::Typo(Typo {
        context: Some(Context::File(FileContext { path: path.to_owned(), line_num })),
        buffer: line.to_vec(),
        byte_offset: off,
        typo: typo.to_owned(),
        corrections: c,
    }))
}

fn the() -> Status {
    Status::Corrections(vec!["the".to_owned()])
}

#[test]
fn read_file_keeps_utf8() {
    let r = read_file("f", Ok(b"hello".to_vec()));
    assert_eq!(r.buffer(), b"hello");
    assert_eq!(r.content_type(), ContentType::Utf8);
}

#[test]
fn read_file_marks_binary_and_utf32() {
    let r = read_file("f", Ok(b"a\0b".to_vec()));
    assert_eq!(r.content_type(), ContentType::Binary);
    let r = read_file("f", Ok(vec![0xFF, 0xFE, 0x00, 0x00, 0x41, 0, 0, 0]));
    assert_eq!(r.content_type(), ContentType::Binary);
}

#[test]
fn read_file_decodes_utf16le() {
    let r = read_file("f", Ok(vec![0xFF, 0xFE, b't', 0, b'e', 0, b'h', 0]));
    assert_eq!(r.content_type(), ContentType::Utf16Le);
    assert_eq!(r.buffer(), b"teh");
}

#[test]
fn read_file_decodes_utf16be_surrogate_pairs() {
    let r = read_file("f", Ok(vec![0xFE, 0xFF, 0x00, b'h', 0xD8, 0x3D, 0xDE, 0x00, 0x00, b'i']));
    assert_eq!(r.content_type(), ContentType::Utf16Be);
    assert_eq!(r.buffer(), "h\u{1F600}i".as_bytes());
}

#[test]
fn read_file_reports_bad_utf16() {
    let r = read_file("f", Ok(vec![0xFE, 0xFF, 0xD8, 0x00]));
    assert_eq!(r.content_type(), ContentType::Utf16Be);
    let (actions, buffer, _) = r.into_parts();
    assert!(buffer.is_empty());
    assert_eq!(actions.len(), 1);
    match &actions[0] {
        Action::Report(Message::Error(e)) => {
            assert!(e.msg.starts_with("invalid UTF-16BE encoding at byte "));
            assert!(e.msg.ends_with(" in f"));
        }
        other => panic!("unexpected {:?}", other),
    }
}

#[test]
fn read_file_reports_read_error() {
    let r = read_file("f", Err("denied".to_owned()));
    let (actions, buffer, t) = r.into_parts();
    assert!(buffer.is_empty());
    assert_eq!(t, ContentType::Utf8);
    assert_eq!(
        actions,
        vec![Action::Report(Message::Error(Error {
            context: Some(Context::Path(PathContext { path: "f".to_owned() })),
            msg: "denied".to_owned(),
        }))]
    );
}

#[test]
fn write_actions_by_content_type() {
    assert_eq!(write_actions("f", ContentType::Utf8, b"x".to_vec()), vec![Action::Write(b"x".to_vec())]);
    assert_eq!(write_actions("f", ContentType::Utf16Le, b"x".to_vec()), vec![Action::Write(b"x".to_vec())]);
    assert!(write_actions("f", ContentType::Utf16Be, Vec::new()).is_empty());
    let bad = write_actions("f", ContentType::Utf16Le, vec![0xFF]);
    assert_eq!(bad.len(), 1);
    assert!(matches!(bad[0], Action::Report(Message::Error(_))));
}

#[test]
fn typos_checker_reports_name_then_lines() {
    let tok = Tokenizer::new();
    let dict = teh_dict();
    let p = policy(&tok, &dict, &[]);
    let read = read_file("d/teh.txt", Ok(b"one\nsay teh\n".to_vec()));
    let actions = Typos.check_file("d/teh.txt", false, Some("teh.txt"), Some(read), &p);
    assert_eq!(
        actions,
        vec![
            Action::Report(Message::Typo(Typo {
                context: Some(Context::Path(PathContext { path: "d/teh.txt".to_owned() })),
                buffer: b"teh.txt".to_vec(),
                byte_offset: 0,
                typo: "teh".to_owned(),
                corrections: the(),
            })),
            line_typo("d/teh.txt", 2, b"say teh", 4, "teh", the()),
        ]
    );
}

#[test]
fn typos_checker_skips_ignored_regions() {
    let tok = Tokenizer::new();
    let dict = teh_dict();
    let ignore = vec![Pattern::new("skip.*".to_owned()).unwrap()];
    let p = policy(&tok, &dict, &ignore);
    let read = read_file("f", Ok(b"teh skip teh\nteh".to_vec()));
    let actions = Typos.check_file("f", false, None, Some(read), &p);
    assert_eq!(
        actions,
        vec![line_typo("f", 1, b"teh skip teh", 0, "teh", the()), line_typo("f", 2, b"teh", 0, "teh", the())]
    );
}

#[test]
fn typos_checker_skips_binary() {
    let tok = Tokenizer::new();
    let dict = teh_dict();
    let p = policy(&tok, &dict, &[]);
    let read = read_file("b", Ok(b"teh\0".to_vec()));
    let actions = Typos.check_file("b", false, None, Some(read), &p);
    assert_eq!(actions, vec![Action::Report(Message::BinaryFile(BinaryFile { path: "b".to_owned() }))]);
}

#[test]
fn fix_typos_writes_fixes_and_reports_the_rest() {
    let tok = Tokenizer::new();
    let dict = teh_dict();
    let p = policy(&tok, &dict, &[]);
    let read = read_file("d/teh.txt", Ok(b"teh wrod\nteh\n".to_vec()));
    let actions = FixTypos.check_file("d/teh.txt", false, Some("teh.txt"), Some(read), &p);
    assert_eq!(
        actions,
        vec![
            line_typo("d/teh.txt", 1, b"teh wrod", 4, "wrod", Status::Invalid),
            Action::Write(b"the wrod\nthe\n".to_vec()),
            Action::Rename(b"the.txt".to_vec()),
        ]
    );
}

#[test]
fn fix_typos_writes_stdin_back_without_fixes() {
    let tok = Tokenizer::new();
    let dict = teh_dict();
    let p = policy(&tok, &dict, &[]);
    let read = read_file("-", Ok(b"fine\n".to_vec()));
    let actions = FixTypos.check_file("-", true, None, Some(read), &p);
    assert_eq!(actions, vec![Action::Write(b"fine\n".to_vec())]);
}

#[test]
fn diff_typos_shows_difference() {
    let tok = Tokenizer::new();
    let dict = teh_dict();
    let p = policy(&tok, &dict, &[]);
    let read = read_file("teh.txt", Ok(b"teh\n".to_vec()));
    let actions = DiffTypos.check_file("teh.txt", false, Some("teh.txt"), Some(read), &p);
    assert_eq!(
        actions,
        vec![Action::Diff {
            original: b"teh\n".to_vec(),
            fixed: b"the\n".to_vec(),
            new_name: Some(b"the.txt".to_vec()),
        }]
    );
}

#[test]
fn diff_typos_nothing_to_show() {
    let tok = Tokenizer::new();
    let dict = teh_dict();
    let p = policy(&tok, &dict, &[]);
    let read = read_file("ok.txt", Ok(b"fine\n".to_vec()));
    let actions = DiffTypos.check_file("ok.txt", false, Some("ok.txt"), Some(read), &p);
    assert!(actions.is_empty());
}

#[test]
fn identifiers_and_words_report_terms() {
    let tok = Tokenizer::new();
    let dict = teh_dict();
    let p = policy(&tok, &dict, &[]);
    let parse = |ctx: Context, kind, data: &str| {
        Action::Report(Message::Parse(Parse { context: Some(ctx), kind, data: data.to_owned() }))
    };
    let path = || Context::Path(PathContext { path: "aB".to_owned() });
    let file = || Context::File(FileContext { path: "aB".to_owned(), line_num: 0 });
    let read = read_file("aB", Ok(b"fooBar".to_vec()));
    let actions = Identifiers.check_file("aB", false, Some("aB"), Some(read), &p);
    assert_eq!(
        actions,
        vec![parse(path(), ParseKind::Identifier, "aB"), parse(file(), ParseKind::Identifier, "fooBar")]
    );
    let read = read_file("aB", Ok(b"fooBar".to_vec()));
    let actions = Words.check_file("aB", false, Some("aB"), Some(read), &p);
    assert_eq!(
        actions,
        vec![
            parse(path(), ParseKind::Word, "a"),
            parse(path(), ParseKind::Word, "B"),
            parse(file(), ParseKind::Word, "foo"),
            parse(file(), ParseKind::Word, "Bar"),
        ]
    );
}

#[test]
fn listing_checks() {
    let tok = Tokenizer::new();
    let dict = teh_dict();
    let mut p = policy(&tok, &dict, &[]);
    assert!(FileChecker::reads_content(&FoundFiles, &p));
    let read = read_file("b", Ok(b"\0".to_vec()));
    let actions = FoundFiles.check_file("b", false, None, Some(read), &p);
    assert_eq!(actions, vec![Action::Report(Message::BinaryFile(BinaryFile { path: "b".to_owned() }))]);
    let read = read_file("b", Ok(b"\0".to_vec()));
    let actions = FoundFiles.check_file("b", true, None, Some(read), &p);
    assert_eq!(actions, vec![Action::Report(Message::File(File { path: "b".to_owned() }))]);
    p.binary = true;
    assert!(!FileChecker::reads_content(&FileTypes, &p));
    let actions = FileTypes.check_file("b", false, None, None, &p);
    assert_eq!(
        actions,
        vec![Action::Report(Message::FileType(FileType {
            path: "b".to_owned(),
            file_type: Some("txt".to_owned()),
        }))]
    );
}
