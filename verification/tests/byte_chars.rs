use tinycalc::byte_chars::ByteChars;

#[test]
fn empty_str_gives_empty_iter() {
    let mut ch = ByteChars::new("");
    assert_eq!(ch.next(), None);
}

#[test]
fn iterating_over_byte_chars_gives_all_chars() {
    let mut ch = ByteChars::new("abc");
    assert_eq!(ch.next(), Some('a'));
    assert_eq!(ch.next(), Some('b'));
    assert_eq!(ch.next(), Some('c'));
    assert_eq!(ch.next(), None);
}

#[test]
fn counting_one_byte_chars_gives_correct_answer() {
    let mut ch = ByteChars::new("abc");
    assert_eq!(ch.bytes(), 0);
    ch.next();
    assert_eq!(ch.bytes(), 1);
    ch.next();
    assert_eq!(ch.bytes(), 2);
    ch.next();
    assert_eq!(ch.bytes(), 3);
    assert!(ch.next().is_none());
    assert_eq!(ch.bytes(), 3);
}

#[test]
fn counting_multi_byte_chars_gives_correct_answer() {
    let mut ch = ByteChars::new("a\u{1f4a6}c");
    assert_eq!(ch.bytes(), 0);
    ch.next();
    assert_eq!(ch.bytes(), 1);
    ch.next();
    assert_eq!(ch.bytes(), 5, "Pile of poo is 4");
    ch.next();
    assert_eq!(ch.bytes(), 6);
}

#[test]
fn peeking_does_not_consume() {
    let mut ch = ByteChars::new("hi");
    assert_eq!(ch.peek(), Some('h'));
    assert_eq!(ch.bytes(), 0);
    assert_eq!(ch.next(), Some('h'));
    assert_eq!(ch.peek(), Some('i'));
    assert_eq!(ch.index(), 1);
}
