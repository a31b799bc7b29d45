use typos::builtin::Override;
use typos::check::Typo;
use typos::dict::{NullDictionary, Status};
use typos::lsp::{check_text, diagnostics, Diagnostic, Position};
use typos::tokens::Tokenizer;

fn teh_dict() -> Override<NullDictionary> {
    let mut dict = Override::new(NullDictionary);
    dict.words(&vec![("teh".to_owned(), "the".to_owned())]);
    dict
}

fn diag(line: u32, start: u32, end: u32, message: &str) -> Diagnostic {
    Diagnostic {
        start: Position { line, character: start },
        end: Position { line, character: end },
        source: "typos-lsp".to_owned(),
        message: message.to_owned(),
    }
}

#[test]
fn check_text_positions() {
    let tokenizer = Tokenizer::new();
    let dict = teh_dict();
    let text = "teh cat\nsaw teh dog";
    let found = check_text(text, &tokenizer, &dict, "typos-lsp").unwrap();
    assert_eq!(
        found,
        vec![
            diag(0, 0, 3, "`teh` should be `the`"),
            diag(1, 4, 7, "`teh` should be `the`"),
        ]
    );
}

#[test]
fn diagnostics_of_disallowed_words() {
    let typos = vec![Typo {
        byte_offset: 2,
        typo: "bad".to_owned(),
        corrections: Status::Invalid,
    }];
    let found = diagnostics("\n\nbad", &typos, "src");
    assert_eq!(
        found,
        vec![Diagnostic {
            start: Position { line: 2, character: 0 },
            end: Position { line: 2, character: 3 },
            source: "src".to_owned(),
            message: "`bad` is disallowed".to_owned(),
        }]
    );
}
