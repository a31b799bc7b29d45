use typos::dict::Status;
use typos::messages::{Message, Parse};
use typos::print::{
    brief_correction_lines, brief_lines, log_line, long_correction_lines, long_lines, title_of,
    to_string,
};
use typos::report::{BinaryFile, Context, Error, File, FileContext, ParseKind, PathContext, Typo};

fn typo(context: Option<Context>, corrections: Status) -> Typo {
    Typo {
        context,
        buffer: b"let x = \tteh;  ".to_vec(),
        byte_offset: 9,
        typo: "teh".to_owned(),
        corrections,
    }
}

fn in_file() -> Option<Context> {
    Some(Context::File(FileContext {
        path: "src/a.rs".to_owned(),
        line_num: 12,
    }))
}

#[test]
fn brief_typo_lines() {
    let t = typo(in_file(), Status::Corrections(vec!["the".to_owned(), "ten".to_owned()]));
    assert_eq!(brief_correction_lines(&t), vec!["src/a.rs:12:9: teh -> the, ten".to_owned()]);
    let t = typo(None, Status::Invalid);
    assert_eq!(brief_correction_lines(&t), vec![":9: teh is disallowed".to_owned()]);
    let t = typo(None, Status::Valid);
    assert!(brief_correction_lines(&t).is_empty());
}

#[test]
fn long_typo_lines() {
    let t = typo(in_file(), Status::Corrections(vec!["the".to_owned()]));
    assert_eq!(
        long_correction_lines(&t),
        vec![
            "error: `teh` should be the".to_owned(),
            "  --> src/a.rs:12:9".to_owned(),
            "   |".to_owned(),
            "12 | let x =  teh;".to_owned(),
            "   |          ^^^".to_owned(),
            "   |".to_owned(),
        ]
    );
    let path = Some(Context::Path(PathContext {
        path: "teh.rs".to_owned(),
    }));
    let t = typo(path, Status::Invalid);
    assert_eq!(
        long_correction_lines(&t),
        vec![
            "teh.rs:9: teh is disallowed".to_owned(),
            "  --> teh.rs:9".to_owned(),
        ]
    );
}

#[test]
fn report_lines_by_message() {
    let file = Message::File(File { path: "a/b".to_owned() });
    assert_eq!(brief_lines(&file), vec!["a/b".to_owned()]);
    assert_eq!(long_lines(&file), vec!["a/b".to_owned()]);
    let parse = Message::Parse(Parse {
        context: None,
        kind: ParseKind::Word,
        data: vec!["hello".to_owned(), "world".to_owned()],
    });
    assert_eq!(brief_lines(&parse), vec!["hello world".to_owned()]);
    let bin = Message::BinaryFile(BinaryFile { path: "x.png".to_owned() });
    assert!(brief_lines(&bin).is_empty());
    assert_eq!(log_line(&bin), Some("Skipping binary file x.png".to_owned()));
    let err = Message::Error(Error {
        context: in_file(),
        msg: "bad".to_owned(),
    });
    assert_eq!(log_line(&err), Some("src/a.rs:12: bad".to_owned()));
    assert_eq!(log_line(&file), None);
    let t = Message::Typo(typo(None, Status::Invalid));
    assert_eq!(long_lines(&t).len(), 2);
}

#[test]
fn annotated_titles() {
    let t = typo(None, Status::Corrections(vec!["the".to_owned(), "ten".to_owned()]));
    assert_eq!(title_of(&t), Some("`teh` should be `the`, `ten`".to_owned()));
    let t = typo(None, Status::Invalid);
    assert_eq!(title_of(&t), Some("`teh` is disallowed".to_owned()));
    assert_eq!(title_of(&typo(None, Status::Valid)), None);
}

#[test]
fn source_line_spans() {
    let (text, s, e) = to_string(b"a teh b", 2, 3);
    assert_eq!((text.as_str(), s, e), ("a teh b", 2, 5));
    // Invalid bytes before the typo widen the span by the replacement's length.
    let (text, s, e) = to_string(b"\xff teh", 2, 3);
    assert_eq!((text.as_str(), s, e), ("\u{FFFD} teh", 4, 7));
}
