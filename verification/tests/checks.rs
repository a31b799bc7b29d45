use typos::builtin::Override;
use typos::checks::{Check, TyposSettings};
use typos::dict::{NullDictionary, Status};
use typos::messages::{Message, Parse};
use typos::report::{BinaryFile, Context, FileContext, File, ParseKind, PathContext, Typo};
use typos::tokens::Tokenizer;

fn teh_dict() -> Override<NullDictionary> {
    let mut dict = Override::new(NullDictionary);
    dict.words(&vec![("teh".to_owned(), "the".to_owned())]);
    dict
}

fn typo(context: Option<Context>, buffer: &[u8], byte_offset: usize, typo: &str, fix: &str) -> Message {
    Message::Typo(Typo {
        context,
        buffer: buffer.to_vec(),
        byte_offset,
        typo: typo.to_owned(),
        corrections: Status::Corrections(vec![fix.to_owned()]),
    })
}

fn word(context: Option<Context>, data: &str) -> Message {
    Message::Parse(Parse { context, kind: ParseKind::Word, data: vec![data.to_owned()] })
}

#[test]
fn settings_default_checks_names_and_files_but_not_binary() {
    let settings = TyposSettings::new();
    let typos = settings.build_typos();
    assert!(Check::<NullDictionary>::check_filenames(&typos));
    assert!(Check::<NullDictionary>::check_files(&typos));
    assert!(!Check::<NullDictionary>::binary(&typos));
}

#[test]
fn settings_builders_set_flags() {
    let mut settings = TyposSettings::new();
    settings.check_filenames(false).binary(true);
    let parser = settings.build_word_parser();
    assert!(!Check::<NullDictionary>::check_filenames(&parser));
    assert!(Check::<NullDictionary>::check_files(&parser));
    assert!(Check::<NullDictionary>::binary(&parser));
}

#[test]
fn typos_check_str_reports_typo_with_buffer() {
    let dict = teh_dict();
    let typos = TyposSettings::new().build_typos();
    let msgs = typos.check_str("hello teh world", &Tokenizer::new(), &dict);
    assert_eq!(msgs, vec![typo(None, b"hello teh world", 6, "teh", "the")]);
}

#[test]
fn typos_check_str_ignores_case_of_word_override() {
    let dict = teh_dict();
    let typos = TyposSettings::new().build_typos();
    let msgs = typos.check_str("Teh", &Tokenizer::new(), &dict);
    assert_eq!(msgs, vec![typo(None, b"Teh", 0, "Teh", "the")]);
}

#[test]
fn typos_null_dictionary_reports_nothing() {
    let typos = TyposSettings::new().build_typos();
    let msgs = typos.check_bytes(b"hello teh world", &Tokenizer::new(), &NullDictionary);
    assert!(msgs.is_empty());
}

#[test]
fn identifiers_check_str_reports_each_identifier() {
    let parser = TyposSettings::new().build_identifier_parser();
    let msgs = parser.check_str("Hello fooBar", &Tokenizer::new(), &NullDictionary);
    assert_eq!(msgs, vec![word(None, "Hello"), word(None, "fooBar")]);
}

#[test]
fn words_check_str_splits_identifiers() {
    let parser = TyposSettings::new().build_word_parser();
    let msgs = parser.check_str("fooBar", &Tokenizer::new(), &NullDictionary);
    assert_eq!(msgs, vec![word(None, "foo"), word(None, "Bar")]);
}

#[test]
fn typos_check_filename_adds_path_context() {
    let dict = teh_dict();
    let typos = TyposSettings::new().build_typos();
    let msgs = typos.check_filename("dir/teh.txt", Some("teh.txt"), &Tokenizer::new(), &dict);
    let ctx = Some(Context::Path(PathContext { path: "dir/teh.txt".to_owned() }));
    assert_eq!(msgs, vec![typo(ctx, b"teh.txt", 0, "teh", "the")]);
}

#[test]
fn typos_check_filename_skipped_when_disabled() {
    let dict = teh_dict();
    let typos = TyposSettings::new().check_filenames(false).build_typos();
    let msgs = typos.check_filename("teh.txt", Some("teh.txt"), &Tokenizer::new(), &dict);
    assert!(msgs.is_empty());
}

#[test]
fn typos_check_file_reports_by_line() {
    let dict = teh_dict();
    let typos = TyposSettings::new().build_typos();
    let content = b"a teh\nteh b\r\nok\n".to_vec();
    let msgs = typos.check_file("f.txt", false, Ok(content), &Tokenizer::new(), &dict);
    let line = |n| Some(Context::File(FileContext { path: "f.txt".to_owned(), line_num: n }));
    assert_eq!(
        msgs,
        vec![typo(line(1), b"a teh", 2, "teh", "the"), typo(line(2), b"teh b", 0, "teh", "the")]
    );
}

#[test]
fn typos_check_file_read_error_is_reported() {
    let typos = TyposSettings::new().build_typos();
    let msgs = typos.check_file("f.txt", false, Err("gone".to_owned()), &Tokenizer::new(), &NullDictionary);
    assert_eq!(
        msgs,
        vec![Message::Error(typos::report::Error { context: None, msg: "gone".to_owned() })]
    );
}

#[test]
fn typos_check_file_skips_binary_unless_explicit() {
    let dict = teh_dict();
    let typos = TyposSettings::new().build_typos();
    let content = b"teh\0".to_vec();
    let msgs = typos.check_file("bin", false, Ok(content.clone()), &Tokenizer::new(), &dict);
    assert_eq!(msgs, vec![Message::BinaryFile(BinaryFile { path: "bin".to_owned() })]);
    let msgs = typos.check_file("bin", true, Ok(content), &Tokenizer::new(), &dict);
    assert_eq!(msgs.len(), 1);
    assert!(matches!(msgs[0], Message::Typo(_)));
}

#[test]
fn typos_check_file_skipped_when_disabled() {
    let dict = teh_dict();
    let typos = TyposSettings::new().check_files(false).build_typos();
    let msgs = typos.check_file("f.txt", false, Ok(b"teh".to_vec()), &Tokenizer::new(), &dict);
    assert!(msgs.is_empty());
    assert!(!Check::<NullDictionary>::reads_content(&typos));
}

#[test]
fn files_reports_each_file_unread() {
    let files = TyposSettings::new().build_files();
    let msgs = files.check_file("f.txt", false, Ok(Vec::new()), &Tokenizer::new(), &NullDictionary);
    assert_eq!(msgs, vec![Message::File(File { path: "f.txt".to_owned() })]);
    let msgs = files.check_filename("f.txt", Some("f.txt"), &Tokenizer::new(), &NullDictionary);
    assert!(msgs.is_empty());
    assert!(!Check::<NullDictionary>::reads_content(&files));
}

#[test]
fn message_context_and_kinds() {
    let m = typo(None, b"teh", 0, "teh", "the");
    assert!(m.is_correction());
    assert!(!m.is_error());
    let ctx = Some(Context::Path(PathContext { path: "p".to_owned() }));
    let m = m.context(ctx.clone());
    assert_eq!(m, typo(ctx, b"teh", 0, "teh", "the"));
    let e = Message::Error(typos::report::Error { context: None, msg: "x".to_owned() });
    assert!(e.is_error());
    assert!(!e.is_correction());
}
