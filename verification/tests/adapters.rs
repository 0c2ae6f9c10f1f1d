use soft_ascii_string::SoftAsciiStr;

#[test]
fn chars_walks_forward() {
    let s = SoftAsciiStr::from_unchecked("abc");
    let mut it = s.chars();
    assert_eq!(it.next().unwrap().to_char(), 'a');
    assert_eq!(it.next().unwrap().to_char(), 'b');
    assert_eq!(it.next().unwrap().to_char(), 'c');
    assert!(it.next().is_none());
}

#[test]
fn chars_walks_backward_and_counts() {
    let s = SoftAsciiStr::from_unchecked("xyz");
    let mut it = s.chars();
    assert_eq!(it.next_back().unwrap().to_char(), 'z');
    assert_eq!(it.next().unwrap().to_char(), 'x');
    assert_eq!(it.size_hint(), (1, Some(1)));
    assert_eq!(it.clone().count(), 1);
    assert_eq!(it.last().unwrap().to_char(), 'y');
    let empty = SoftAsciiStr::from_unchecked("");
    assert!(empty.chars().last().is_none());
    assert_eq!(empty.chars().count(), 0);
}

#[test]
fn chars_retags_non_ascii_items() {
    let s = SoftAsciiStr::from_unchecked("é");
    let mut it = s.chars();
    let c = it.next().unwrap();
    assert!(!c.is_ascii());
    assert_eq!(c.to_char(), 'é');
}

#[test]
fn char_indices_yields_byte_offsets() {
    let s = SoftAsciiStr::from_unchecked("aé b");
    let mut it = s.char_indices();
    let (o, c) = it.next().unwrap();
    assert_eq!((o, c.to_char()), (0, 'a'));
    let (o, c) = it.next().unwrap();
    assert_eq!((o, c.to_char()), (1, 'é'));
    let (o, c) = it.next().unwrap();
    assert_eq!((o, c.to_char()), (3, ' '));
    let (o, c) = it.next().unwrap();
    assert_eq!((o, c.to_char()), (4, 'b'));
    assert!(it.next().is_none());
}

#[test]
fn char_indices_walks_backward() {
    let s = SoftAsciiStr::from_unchecked("aé b");
    let mut it = s.char_indices();
    let (o, c) = it.next_back().unwrap();
    assert_eq!((o, c.to_char()), (4, 'b'));
    let (o, c) = it.next_back().unwrap();
    assert_eq!((o, c.to_char()), (3, ' '));
    assert_eq!(it.size_hint(), (1, Some(3)));
    let (o, c) = it.last().unwrap();
    assert_eq!((o, c.to_char()), (1, 'é'));
}

#[test]
fn size_hints_follow_the_byte_count() {
    let s = SoftAsciiStr::from_unchecked("abc");
    assert_eq!(s.chars().size_hint(), (1, Some(3)));
    assert_eq!(s.char_indices().size_hint(), (1, Some(3)));
    let t = SoftAsciiStr::from_unchecked("é");
    assert_eq!(t.chars().size_hint(), (1, Some(2)));
    let empty = SoftAsciiStr::from_unchecked("");
    assert_eq!(empty.chars().size_hint(), (0, Some(0)));
    assert_eq!(s.lines().size_hint(), (0, None));
}

#[test]
fn lines_yields_rewrapped_views() {
    let s = SoftAsciiStr::from_unchecked("a\nb\nc");
    let mut it = s.lines();
    assert_eq!(it.next().unwrap().as_str(), "a");
    assert_eq!(it.next().unwrap().as_str(), "b");
    assert_eq!(it.next().unwrap().as_str(), "c");
    assert!(it.next().is_none());
}

#[test]
fn lines_handles_terminators() {
    let s = SoftAsciiStr::from_unchecked("a\r\nb\r");
    let mut it = s.lines();
    assert_eq!(it.next().unwrap().as_str(), "a");
    assert_eq!(it.next().unwrap().as_str(), "b\r");
    assert!(it.next().is_none());

    let s = SoftAsciiStr::from_unchecked("a\nb\n");
    let mut it = s.lines();
    assert_eq!(it.next().unwrap().as_str(), "a");
    assert_eq!(it.next().unwrap().as_str(), "b");
    assert!(it.next().is_none());

    let s = SoftAsciiStr::from_unchecked("a\n\nb");
    let mut it = s.lines();
    assert_eq!(it.next().unwrap().as_str(), "a");
    assert_eq!(it.next().unwrap().as_str(), "");
    assert_eq!(it.next().unwrap().as_str(), "b");
    assert!(it.next().is_none());

    let empty = SoftAsciiStr::from_unchecked("");
    assert!(empty.lines().next().is_none());
}

#[test]
fn split_whitespace_yields_words() {
    let s = SoftAsciiStr::from_unchecked(" a  bb\t c ");
    let mut it = s.split_whitespace();
    assert_eq!(it.next().unwrap().as_str(), "a");
    assert_eq!(it.next().unwrap().as_str(), "bb");
    assert_eq!(it.next().unwrap().as_str(), "c");
    assert!(it.next().is_none());
}

#[test]
fn lines_walks_backward() {
    let s = SoftAsciiStr::from_unchecked("a\nb\nc");
    let mut it = s.lines();
    assert_eq!(it.next_back().unwrap().as_str(), "c");
    assert_eq!(it.next_back().unwrap().as_str(), "b");
    assert_eq!(it.next_back().unwrap().as_str(), "a");
    assert!(it.next_back().is_none());

    let s = SoftAsciiStr::from_unchecked("a\r\nb\n");
    let mut it = s.lines();
    assert_eq!(it.next_back().unwrap().as_str(), "b");
    assert_eq!(it.next_back().unwrap().as_str(), "a");
    assert!(it.next_back().is_none());

    let s = SoftAsciiStr::from_unchecked("a\nb\nc");
    let mut it = s.lines();
    assert_eq!(it.next().unwrap().as_str(), "a");
    assert_eq!(it.next_back().unwrap().as_str(), "c");
    assert_eq!(it.next().unwrap().as_str(), "b");
    assert!(it.next().is_none());
    assert!(it.next_back().is_none());
}

#[test]
fn split_whitespace_walks_backward() {
    let s = SoftAsciiStr::from_unchecked(" a  bb\t c ");
    let mut it = s.split_whitespace();
    assert_eq!(it.next_back().unwrap().as_str(), "c");
    assert_eq!(it.next().unwrap().as_str(), "a");
    assert_eq!(it.next_back().unwrap().as_str(), "bb");
    assert!(it.next().is_none());
    assert!(it.next_back().is_none());
}

#[test]
fn split_whitespace_on_blank_text() {
    let s = SoftAsciiStr::from_unchecked(" \t\n ");
    assert!(s.split_whitespace().next().is_none());
    let empty = SoftAsciiStr::from_unchecked("");
    assert!(empty.split_whitespace().next().is_none());
}
