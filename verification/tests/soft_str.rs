use soft_ascii_string::SoftAsciiStr;
use std::ops::{Range, RangeFrom, RangeFull, RangeInclusive, RangeTo, RangeToInclusive};

const UTF8_STR: &str = "❤ == <3";

#[test]
fn from_str() {
    assert_eq!(
        &SoftAsciiStr::from_str("hy ho\x00\x01\x02\x03").unwrap(),
        "hy ho\x00\x01\x02\x03"
    );
    assert!(SoftAsciiStr::from_str("↓").is_err());
}

#[test]
fn from_unchecked() {
    assert_eq!(&SoftAsciiStr::from_unchecked(UTF8_STR), UTF8_STR);
}

#[test]
fn revalidate_soft_constraint() {
    let wrapped = SoftAsciiStr::from_unchecked(UTF8_STR);
    let res = wrapped.revalidate_soft_constraint();
    assert_eq!(UTF8_STR, res.unwrap_err().into_source());

    let wrapped = SoftAsciiStr::from_unchecked("hy");
    let res = wrapped.revalidate_soft_constraint();
    let res: &SoftAsciiStr = res.unwrap();
    assert_eq!(res, "hy");
}

#[test]
fn compile_bounds__get_unchecked() {
    let _ = SoftAsciiStr::get_unchecked::<Range<usize>>;
    let _ = SoftAsciiStr::get_unchecked::<RangeInclusive<usize>>;
    let _ = SoftAsciiStr::get_unchecked::<RangeFrom<usize>>;
    let _ = SoftAsciiStr::get_unchecked::<RangeTo<usize>>;
    let _ = SoftAsciiStr::get_unchecked::<RangeToInclusive<usize>>;
    let _ = SoftAsciiStr::get_unchecked::<RangeFull>;
}

#[test]
fn checked_construction_accepts_ascii() {
    let res = SoftAsciiStr::from_str("Hello, World! 123").unwrap();
    assert_eq!(res.as_str(), "Hello, World! 123");
    assert_eq!(res.as_bytes(), "Hello, World! 123".as_bytes());
}

#[test]
fn checked_construction_rejects_non_ascii() {
    let err = SoftAsciiStr::from_str("café").unwrap_err();
    assert_eq!(err.into_source(), "café");
}

#[test]
fn unchecked_construction_skips_the_check() {
    let s = SoftAsciiStr::from_unchecked("héllo");
    assert!(!s.is_ascii());
    let err = s.revalidate_soft_constraint().unwrap_err();
    assert_eq!(err.source(), "héllo");
}

#[test]
fn revalidate_after_inner_mutation() {
    let mut s = SoftAsciiStr::from_unchecked("abc");
    assert!(s.revalidate_soft_constraint().is_ok());
    *s.inner_str_mut() = String::from("h❤y");
    assert!(!s.is_ascii());
    let err = s.revalidate_soft_constraint().unwrap_err();
    assert_eq!(err.into_source(), "h❤y");
    *s.inner_str_mut() = String::from("hey");
    assert!(s.revalidate_soft_constraint().is_ok());
}

#[test]
fn split_at_concatenation_restores_the_text() {
    let s = SoftAsciiStr::from_unchecked("hello world");
    let (left, right) = s.split_at(5);
    assert_eq!(left.as_str(), "hello");
    assert_eq!(right.as_str(), " world");
    let mut joined = String::new();
    joined.push_str(left.as_str());
    joined.push_str(right.as_str());
    assert_eq!(joined, s.as_str());
}

#[test]
fn split_at_the_ends() {
    let s = SoftAsciiStr::from_unchecked("abc");
    let (l, r) = s.split_at(0);
    assert_eq!(l.as_str(), "");
    assert_eq!(r.as_str(), "abc");
    let (l, r) = s.split_at(3);
    assert_eq!(l.as_str(), "abc");
    assert_eq!(r.as_str(), "");
}

#[test]
fn get_unchecked_range_forms() {
    let s = SoftAsciiStr::from_unchecked("hello");
    assert_eq!(s.get_unchecked(1..3).as_str(), "el");
    assert_eq!(s.get_unchecked(1..=3).as_str(), "ell");
    assert_eq!(s.get_unchecked(2..).as_str(), "llo");
    assert_eq!(s.get_unchecked(..2).as_str(), "he");
    assert_eq!(s.get_unchecked(..=2).as_str(), "hel");
    assert_eq!(s.get_unchecked(..).as_str(), "hello");
}

#[test]
fn trim_family() {
    let s = SoftAsciiStr::from_unchecked("  hi there\t\n");
    assert_eq!(s.trim().as_str(), "hi there");
    assert_eq!(s.trim_start().as_str(), "hi there\t\n");
    assert_eq!(s.trim_end().as_str(), "  hi there");
    let all_ws = SoftAsciiStr::from_unchecked(" \t ");
    assert_eq!(all_ws.trim().as_str(), "");
}

#[test]
fn case_conversion_stays_ascii() {
    let s = SoftAsciiStr::from_unchecked("AbC 123!");
    let lower = s.to_lowercase();
    assert_eq!(lower.as_str(), "abc 123!");
    assert!(lower.is_ascii());
    assert!(lower.as_str().bytes().all(|b| b < 0x80));
    let upper = s.to_uppercase();
    assert_eq!(upper.as_str(), "ABC 123!");
    assert!(upper.is_ascii());
    assert!(upper.as_str().bytes().all(|b| b < 0x80));
}

#[test]
fn repeat_concatenates_copies() {
    let s = SoftAsciiStr::from_unchecked("ab");
    assert_eq!(s.repeat(3).as_str(), "ababab");
    assert_eq!(s.repeat(0).as_str(), "");
}

#[test]
fn simple_forwarding_operations() {
    let s = SoftAsciiStr::from_unchecked("hé");
    assert_eq!(s.len(), 3);
    assert!(!s.is_empty());
    assert!(s.is_char_boundary(0));
    assert!(s.is_char_boundary(1));
    assert!(!s.is_char_boundary(2));
    assert!(s.is_char_boundary(3));
    assert_eq!(s.as_bytes(), "hé".as_bytes());
    let empty: &SoftAsciiStr = &SoftAsciiStr::default();
    assert!(empty.is_empty());
    assert_eq!(empty.len(), 0);
}

#[test]
fn encode_utf16_units() {
    let s = SoftAsciiStr::from_unchecked("aé");
    assert_eq!(s.encode_utf16(), vec![0x61, 0xe9]);
    let g = SoftAsciiStr::from_unchecked("𝄞");
    assert_eq!(g.encode_utf16(), vec![0xd834, 0xdd1e]);
    let empty = SoftAsciiStr::from_unchecked("");
    assert_eq!(empty.encode_utf16(), Vec::<u16>::new());
}

#[test]
fn owned_conversions() {
    let s = SoftAsciiStr::from_str_unchecked("abc");
    let owned = s.to_soft_ascii_string();
    assert_eq!(owned.as_str(), "abc");
    let owned2 = s.into_soft_ascii_string();
    assert_eq!(owned2.into_string(), "abc");
}
