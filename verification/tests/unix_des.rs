use crypt3_rs::crypt::unix;
use crypt3_rs::error::Error;

#[test]
fn unix_custom() {
    assert_eq!("aZGJuE6EXrjEE", unix::hash_with("aZ", b"test").unwrap());
    assert_eq!(unix::verify(b"test", "aZGJuE6EXrjEE"), true);
    assert_eq!(unix::verify(b"test", "aZFJuE6EXrjEE"), false);
    assert_eq!(unix::verify(b"test", "!!"), false);
}

#[test]
#[should_panic(expected = "value: EncodingError")]
fn bad_salt_chars() {
    let _ = unix::hash_with("!!", b"test").unwrap();
}

#[test]
#[should_panic(expected = "value: InsufficientLength")]
fn short_salt() {
    let _ = unix::hash_with("Z", b"test").unwrap();
}

#[test]
fn unix_known_vector() {
    assert_eq!(unix::hash_with("xO", b"password").unwrap(), "xOAFZqRz5RduI");
    assert_eq!(unix::verify(b"password", "xOAFZqRz5RduI"), true);
    assert_eq!(unix::hash_with("ab", b"password").unwrap(), "abJnggxhB/yWI");
    assert_eq!(unix::hash_with("..", b"").unwrap(), "..X8NBuQ4l6uQ");
}

#[test]
fn unix_errors() {
    assert_eq!(unix::hash_with("!!", b"test").err(), Some(Error::EncodingError));
    assert_eq!(unix::hash_with("Z", b"test").err(), Some(Error::InsufficientLength));
    assert_eq!(unix::hash_with("", b"test").err(), Some(Error::InsufficientLength));
    assert_eq!(unix::hash_with("!", b"test").err(), Some(Error::EncodingError));
    assert_eq!(unix::hash_with("a$", b"test").err(), Some(Error::EncodingError));
}

#[test]
fn unix_takes_eight_bytes_of_the_password() {
    let a = unix::hash_with("ab", b"password").unwrap();
    let b = unix::hash_with("ab", b"password and more").unwrap();
    let c = unix::hash_with("ab", b"passwor").unwrap();
    assert_eq!(a, b);
    assert!(a != c);
}

#[test]
fn unix_cuts_the_password_at_nul() {
    let a = unix::hash_with("ab", b"pass").unwrap();
    let b = unix::hash_with("ab", b"pass\0word").unwrap();
    assert_eq!(a, b);
}

#[test]
fn unix_salt_is_the_start_of_the_setting() {
    let h = unix::hash_with("aZGJuE6EXrjEE", b"test").unwrap();
    assert_eq!(h, "aZGJuE6EXrjEE");
    assert_eq!(h.kind_of(), crypt3_rs::hash::HashKind::Unix);
}

#[test]
fn unix_random_salt() {
    let h = unix::hash(b"password").unwrap();
    assert_eq!(h.as_str().len(), 13);
    assert_eq!(unix::verify(b"password", h.as_str()), true);
    assert_eq!(unix::verify(b"passwore", h.as_str()), false);
    assert_eq!(unix::hash_with(h.as_str(), b"password").unwrap(), h);
}

#[test]
fn unix_mutated_checksum_fails() {
    let good = "xOAFZqRz5RduI";
    for i in 2..13 {
        let mut bytes = good.as_bytes().to_vec();
        bytes[i] = if bytes[i] == b'.' { b'/' } else { b'.' };
        let bad = String::from_utf8(bytes).unwrap();
        assert_eq!(unix::verify(b"password", &bad), false);
    }
}
