use typos::dict::Status;

#[test]
fn corrections_change_in_place() {
    let mut s = Status::Corrections(vec!["a".to_owned()]);
    if let Some(c) = s.corrections_mut() {
        c.push("b".to_owned());
    }
    assert_eq!(s, Status::Corrections(vec!["a".to_owned(), "b".to_owned()]));
}

#[test]
fn no_corrections_to_change_for_valid_or_invalid() {
    let mut v = Status::Valid;
    assert!(v.corrections_mut().is_none());
    let mut i = Status::Invalid;
    assert!(i.corrections_mut().is_none());
    assert_eq!(i, Status::Invalid);
}
