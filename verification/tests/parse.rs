use crypt3_rs::parse::{HashIterator, HashSlice};

#[test]
fn drain_string() {
    let mut hs = HashSlice::new("$2y$05$bvIG6Nmid91Mu9RcmmWZfO5HJIMCT8riNW0hEp8f6/FuA2/mHZFpe");
    assert_eq!(hs.take_until(b'$').unwrap(), "");
    assert_eq!(hs.take_until(b'$').unwrap(), "2y");
    assert_eq!(hs.take_until(b'$').unwrap(), "05");
    assert_eq!(hs.take(22).unwrap(), "bvIG6Nmid91Mu9RcmmWZfO");
    let mut hs1 = hs.clone();
    assert_eq!(
        hs.take_until(b'$').unwrap(),
        "5HJIMCT8riNW0hEp8f6/FuA2/mHZFpe"
    );
    assert_eq!(hs.at_end(), true);
    assert_eq!(hs1.take(31).unwrap(), "5HJIMCT8riNW0hEp8f6/FuA2/mHZFpe");
    assert_eq!(hs1.at_end(), true);
}

#[test]
fn empty_string() {
    let mut hs = HashSlice::new("");
    assert_eq!(hs.take_until(b'$').unwrap(), "");
    assert_eq!(hs.at_end(), true);
    let mut hs = HashSlice::new("");
    assert_eq!(hs.at_end(), true);
}

#[test]
fn empty_elements() {
    let mut hs = HashSlice::new("$");
    assert_eq!(hs.take_until(b'$').unwrap(), "");
    assert_eq!(hs.take_until(b'$').unwrap(), "");
    assert_eq!(hs.at_end(), true);
}

#[test]
fn combined_take() {
    let mut hs = HashSlice::new("$");
    let _ = hs.take_until(b'$').unwrap();
    assert_eq!(hs.take_until(b'$').unwrap(), "");
    assert_eq!(hs.at_end(), true);
}

#[test]
fn take_more_than_is_left_drains() {
    let mut hs = HashSlice::new("abc");
    assert_eq!(hs.take(4), None);
    assert_eq!(hs.take(0), None);
    assert_eq!(hs.take_until(b'c'), None);
    assert_eq!(hs.at_end(), true);
}

#[test]
fn take_all_drains() {
    let mut hs = HashSlice::new("abc");
    assert_eq!(hs.take(3), Some("abc"));
    assert_eq!(hs.take(0), None);
    assert_eq!(hs.at_end(), true);
}

#[test]
fn take_zero_in_the_middle_keeps_the_place() {
    let mut hs = HashSlice::new("abc");
    assert_eq!(hs.take(1), Some("a"));
    assert_eq!(hs.take(0), Some(""));
    assert_eq!(hs.take(0), Some(""));
    assert_eq!(hs.take(2), Some("bc"));
    assert_eq!(hs.take(0), None);
}

#[test]
fn at_end_tells_whether_bytes_are_left_and_takes_nothing() {
    let mut hs = HashSlice::new("");
    assert_eq!(hs.at_end(), true);
    assert_eq!(hs.at_end(), true);
    assert_eq!(hs.take(0), Some(""));
    assert_eq!(hs.at_end(), true);
    assert_eq!(hs.take(0), None);
    let mut hs = HashSlice::new("a");
    assert_eq!(hs.at_end(), false);
    assert_eq!(hs.at_end(), false);
    assert_eq!(hs.take(1), Some("a"));
    assert_eq!(hs.at_end(), true);
    assert_eq!(hs.at_end(), true);
    let mut hs = HashSlice::new("ab");
    assert_eq!(hs.take(1), Some("a"));
    assert_eq!(hs.at_end(), false);
    assert_eq!(hs.take(1), Some("b"));
    assert_eq!(hs.at_end(), true);
}

#[test]
fn take_until_without_delimiter_takes_the_rest() {
    let mut hs = HashSlice::new("abc$def");
    assert_eq!(hs.take_until(b'$'), Some("abc"));
    assert_eq!(hs.take_until(b'$'), Some("def"));
    assert_eq!(hs.take_until(b'$'), None);
}

#[test]
fn take_until_delimiter_at_the_end_leaves_an_empty_field() {
    let mut hs = HashSlice::new("abc$");
    assert_eq!(hs.take_until(b'$'), Some("abc"));
    assert_eq!(hs.at_end(), true);
    assert_eq!(hs.take_until(b'$'), Some(""));
    assert_eq!(hs.at_end(), true);
    assert_eq!(hs.take_until(b'$'), None);
}

#[test]
fn take_inside_a_character_hands_out_nothing_but_moves_on() {
    // U+00E9 is two bytes long.
    let mut hs = HashSlice::new("a\u{e9}b");
    assert_eq!(hs.take(2), None);
    assert_eq!(hs.take(1), None);
    assert_eq!(hs.take(1), Some("b"));
    assert_eq!(hs.at_end(), true);
}
