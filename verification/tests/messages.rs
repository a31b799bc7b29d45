use typos::dict::Status;
use typos::messages::{Message, MessageStatus, PrintSilent};
use typos::report::{Error, Typo};

fn typo(corrections: Status) -> Message {
    Message::Typo(Typo {
        context: None,
        buffer: b"teh".to_vec(),
        byte_offset: 0,
        typo: "teh".to_owned(),
        corrections,
    })
}

fn error() -> Message {
    Message::Error(Error { context: None, msg: "bad".to_owned() })
}

#[test]
fn message_status_flags_over_a_run_of_reports() {
    let mut status = MessageStatus::new(PrintSilent);
    assert!(!status.typos_found());
    assert!(!status.errors_found());
    status.report(typo(Status::Invalid)).unwrap();
    assert!(!status.typos_found());
    assert!(!status.errors_found());
    status.report(typo(Status::Corrections(vec!["the".to_owned()]))).unwrap();
    assert!(status.typos_found());
    assert!(!status.errors_found());
    status.report(error()).unwrap();
    assert!(status.typos_found());
    assert!(status.errors_found());
    // Later messages do not clear a flag.
    status.report(typo(Status::Valid)).unwrap();
    assert!(status.typos_found());
    assert!(status.errors_found());
}
