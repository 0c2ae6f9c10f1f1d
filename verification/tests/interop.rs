use soft_ascii_string::{FromSourceError, SoftAsciiChar, SoftAsciiStr, SoftAsciiString};
use std::borrow::Cow;

#[test]
fn equality_matrix() {
    let s = SoftAsciiStr::from_unchecked("abc");
    let t = SoftAsciiStr::from_unchecked("abc");
    let u = SoftAsciiStr::from_unchecked("abd");
    assert!(s == t);
    assert!(s != u);

    let owned: SoftAsciiString = s.to_soft_ascii_string();
    assert!(s == owned);
    assert!(owned == s);
    assert!(owned == SoftAsciiStr::from_unchecked("abc").to_soft_ascii_string());

    let native: String = String::from("abc");
    assert!(s == native);
    assert!(native == s);
    assert!(owned == native);
    assert!(native == owned);

    let slice: &str = "abc";
    assert!(*slice == s);
    assert!(s == *slice);
}

#[test]
fn equality_is_by_content_not_by_constraint() {
    let s = SoftAsciiStr::from_unchecked("héllo");
    let t = SoftAsciiStr::from_unchecked("héllo");
    assert!(s == t);
    assert!(s == String::from("héllo"));
}

#[test]
fn equality_with_copy_on_write_text() {
    let s = SoftAsciiStr::from_unchecked("abc");
    let borrowed: Cow<'_, str> = Cow::Borrowed("abc");
    let owned: Cow<'_, str> = Cow::Owned(String::from("abc"));
    assert!(s == borrowed);
    assert!(borrowed == s);
    assert!(s == owned);
    assert!(owned == s);
    let other: Cow<'_, str> = Cow::Borrowed("abd");
    assert!(s != other);

    let soft_borrowed: Cow<'_, SoftAsciiStr> = Cow::Borrowed(&s);
    let soft_owned: Cow<'_, SoftAsciiStr> = Cow::Owned(SoftAsciiStr::from_unchecked("abc"));
    assert!(s == soft_borrowed);
    assert!(soft_borrowed == s);
    assert!(s == soft_owned);
    assert!(soft_owned == s);
}

#[test]
fn soft_char_reports() {
    let c = SoftAsciiChar::from_unchecked('x');
    assert!(c.is_ascii());
    assert_eq!(c.to_char(), 'x');
    let nc = SoftAsciiChar::from_unchecked('ß');
    assert!(!nc.is_ascii());
    assert_eq!(nc.to_char(), 'ß');
    assert!(c == SoftAsciiChar::from_unchecked('x'));
}

#[test]
fn error_carries_the_source() {
    let err = FromSourceError::new(String::from("nö"));
    assert_eq!(err.source(), "nö");
    assert_eq!(err.into_source(), "nö");
}

#[test]
fn soft_string_reports() {
    let s = SoftAsciiString::from_unchecked(String::from("ok"));
    assert_eq!(s.len(), 2);
    assert!(!s.is_empty());
    assert!(s.is_ascii());
    let t = SoftAsciiString::from_unchecked(String::from("nö"));
    assert!(!t.is_ascii());
    assert_eq!(t.len(), 3);
}
