use ipcheck::result::{Error, ErrorCode};

#[test]
fn test_new_keeps_note() {
    let e = Error::new("something broke", ErrorCode::Tech);
    assert_eq!(e.kind(), ErrorCode::Tech);
    assert_eq!(e.note_text(), String::from("something broke"));
    assert!(!e.has_meta());
}

#[test]
fn test_new_default_notes() {
    let t = Error::new("", ErrorCode::Tech);
    assert_eq!(
        t.note_text(),
        String::from("A technical issue occured. Please try again later.")
    );
    let u = Error::new("", ErrorCode::User);
    assert_eq!(u.note_text(), String::from("An issue occured due to your input."));
    let n = Error::new("", ErrorCode::NotFound);
    assert_eq!(n.note_text(), String::from("The information you seek was not found."));
}

#[test]
fn test_shorthand_constructors() {
    assert_eq!(Error::user("bad field").kind(), ErrorCode::User);
    assert_eq!(Error::tech("").kind(), ErrorCode::Tech);
    assert_eq!(Error::notfound("no such record").kind(), ErrorCode::NotFound);
}

#[test]
fn test_add_meta() {
    let mut e = Error::tech("");
    assert!(!e.has_meta());
    e.add_meta("from", "lookup");
    assert!(e.has_meta());
    e.add_meta("attempt", "2");
    assert!(e.has_meta());
}

#[test]
fn test_add_meta_x_chains() {
    let e = Error::user("rejected").add_meta_x("field", "address").add_meta_x("reason", "syntax");
    assert!(e.has_meta());
    assert_eq!(e.kind(), ErrorCode::User);
    assert_eq!(e.note_text(), String::from("rejected"));
}
