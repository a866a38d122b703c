use crypt3_rs::crypt::{apr1, bcrypt, bsdi, md5, sha1, sha256, sha512, unix};
use crypt3_rs::error::Error;
use crypt3_rs::{HashSetup, IntoHashSetup};

fn parse_salt_only(text: &str) -> Result<HashSetup<'_>, Error> {
    if text.is_empty() {
        Err(Error::InvalidHashString)
    } else {
        Ok(HashSetup { salt: Some(text), rounds: Some(7) })
    }
}

#[test]
fn setup_builder() {
    let s = HashSetup::default();
    assert_eq!(s.salt, None);
    assert_eq!(s.rounds, None);
    let s = HashSetup::default().salt("abcd");
    assert_eq!(s.salt, Some("abcd"));
    assert_eq!(s.rounds, None);
    let s = HashSetup::default().rounds(5).salt("abcd").rounds(6);
    assert_eq!(s.salt, Some("abcd"));
    assert_eq!(s.rounds, Some(6));
}

#[test]
fn text_is_read_and_setup_is_kept() {
    let s = "abc".into_hash_setup(parse_salt_only).unwrap();
    assert_eq!(s.salt, Some("abc"));
    assert_eq!(s.rounds, Some(7));
    assert_eq!("".into_hash_setup(parse_salt_only).err(), Some(Error::InvalidHashString));
    let s = HashSetup { salt: None, rounds: Some(3) }.into_hash_setup(parse_salt_only).unwrap();
    assert_eq!(s.salt, None);
    assert_eq!(s.rounds, Some(3));
}

#[test]
fn verify_takes_any_text() {
    let texts = [
        "",
        "$",
        "$$",
        "$$$",
        "_",
        "__",
        "!!",
        "\u{e9}",
        "$1$\u{e9}\u{e9}\u{e9}\u{e9}\u{e9}$",
        "_\u{e9}\u{e9}\u{e9}\u{e9}",
        "$2b$\u{e9}$",
        "$5$rounds=\u{e9}$",
        "$sha1$\u{e9}$",
        "$6$rounds=1000$$",
        "$apr1$$",
        "$2y$05$",
        "\0\0\0\0\0\0\0\0\0\0\0\0\0",
        "aZGJuE6EXrjE\u{7f}",
    ];
    for t in texts {
        assert_eq!(apr1::verify(b"password", t), false);
        assert_eq!(md5::verify(b"password", t), false);
        assert_eq!(bsdi::verify(b"password", t), false);
        assert_eq!(unix::verify(b"password", t), false);
        assert_eq!(sha1::verify(b"password", t), false);
        assert_eq!(sha256::verify(b"password", t), false);
        assert_eq!(sha512::verify(b"password", t), false);
        assert_eq!(bcrypt::verify(b"password", t), false);
        assert_eq!(crypt3_rs::unix::verify(b"password", t), false);
        assert_eq!(crypt3_rs::apr1_crypt::verify(b"password", t), false);
    }
}

#[test]
fn passwords_are_bytes() {
    let a = md5::hash_with("$1$salt$", &[0xff, 0xfe, 0x00, 0x01]).unwrap();
    let b = md5::hash_with("$1$salt$", &[0xff, 0xfe, 0x00, 0x02]).unwrap();
    assert!(a != b);
    assert_eq!(md5::verify(&[0xff, 0xfe, 0x00, 0x01], a.as_str()), true);
    let c = sha256::hash_with("$5$salt$", &[0xff, 0xfe]).unwrap();
    assert_eq!(sha256::verify(&[0xff, 0xfe], c.as_str()), true);
    let d = unix::hash_with("ab", &[0xff, 0xfe]).unwrap();
    assert_eq!(unix::verify(&[0xff, 0xfe], d.as_str()), true);
    assert_eq!(unix::verify(&[0x7f, 0x7e], d.as_str()), true);
}
