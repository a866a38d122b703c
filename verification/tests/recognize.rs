use crypt3_rs::error::Error;
use crypt3_rs::hash::HashKind;
use crypt3_rs::HashSetup;

#[test]
fn fromstr() {
    assert!(matches!(
        crypt3_rs::hash::Hash::try_from("$apr1$63JlJ2NH$smE0mnB5h3tDri0zkpWXt1").unwrap(),
        crypt3_rs::hash::Hash::Apr1(_)
    ));
    assert!(matches!(
        crypt3_rs::hash::Hash::try_from(
            "$2y$05$bvIG6Nmid91Mu9RcmmWZfO5HJIMCT8riNW0hEp8f6/FuA2/mHZFpe"
        )
        .unwrap(),
        crypt3_rs::hash::Hash::Bcrypt(_)
    ));
    assert!(matches!(
        crypt3_rs::hash::Hash::try_from("_Gl/.K0Ay.aosctsbJ1k").unwrap(),
        crypt3_rs::hash::Hash::Bsdi(_)
    ));
    assert!(matches!(
        crypt3_rs::hash::Hash::try_from("$1$5pZSV9va$azfrPr6af3Fc7dLblQXVa0").unwrap(),
        crypt3_rs::hash::Hash::Md5(_)
    ));
    assert!(matches!(
        crypt3_rs::hash::Hash::try_from("$sha1$19703$iVdJqfSE$v4qYKl1zqYThwpjJAoKX6UvlHq/a")
            .unwrap(),
        crypt3_rs::hash::Hash::Sha1(_)
    ));
    assert!(matches!(
        crypt3_rs::hash::Hash::try_from(
            "$5$rounds=11858$WH1ABM5sKhxbkgCK$aTQsjPkz0rBsH3lQlJxw9HDTDXPKBxC0LlVeV69P.t1"
        )
        .unwrap(),
        crypt3_rs::hash::Hash::Sha256(_)
    ));
    assert!(matches!(
        crypt3_rs::hash::Hash::try_from(
            "$6$rounds=11531$G/gkPn17kHYo0gTF$Kq.uZBHlSBXyzsOJXtxJruOOH4yc0Is13\
		            uY7yK0PvAvXxbvc1w8DO1RzREMhKsc82K/Jh8OquV8FZUlreYPJk1"
        )
        .unwrap(),
        crypt3_rs::hash::Hash::Sha512(_)
    ));
    assert!(matches!(
        crypt3_rs::hash::Hash::try_from("aZGJuE6EXrjEE").unwrap(),
        crypt3_rs::hash::Hash::Unix(_)
    ));
}

#[test]
fn recognition_keeps_the_text() {
    let h = crypt3_rs::hash::Hash::try_from("$apr1$63JlJ2NH$smE0mnB5h3tDri0zkpWXt1").unwrap();
    assert_eq!(h.as_str(), "$apr1$63JlJ2NH$smE0mnB5h3tDri0zkpWXt1");
    assert_eq!(h.kind_of(), crypt3_rs::hash::HashKind::Apr1);
    let s: String = h.into();
    assert_eq!(s, "$apr1$63JlJ2NH$smE0mnB5h3tDri0zkpWXt1");
}

#[test]
fn two_bangs_are_no_hash() {
    assert_eq!(
        crypt3_rs::hash::Hash::try_from("!!").err(),
        Some(Error::InvalidHashString)
    );
}

#[test]
fn the_empty_text_is_no_hash() {
    assert_eq!(
        crypt3_rs::hash::Hash::try_from("").err(),
        Some(Error::InvalidHashString)
    );
}

#[test]
fn an_unknown_token_is_no_hash() {
    assert_eq!(
        crypt3_rs::hash::Hash::try_from("$7$63JlJ2NH$smE0mnB5h3tDri0zkpWXt1").err(),
        Some(Error::InvalidHashString)
    );
    assert_eq!(
        crypt3_rs::hash::Hash::try_from("$").err(),
        Some(Error::InvalidHashString)
    );
    assert_eq!(
        crypt3_rs::hash::Hash::try_from("$2x$05$bvIG6Nmid91Mu9RcmmWZfO5HJIMCT8riNW0hEp8f6/FuA2/mHZFpe")
            .err(),
        Some(Error::InvalidHashString)
    );
}

#[test]
fn a_known_shape_of_the_wrong_length_is_too_short() {
    assert_eq!(
        crypt3_rs::hash::Hash::try_from("_Gl/.K0Ay.aosctsbJ1").err(),
        Some(Error::InsufficientLength)
    );
    assert_eq!(
        crypt3_rs::hash::Hash::try_from("_Gl/.K0Ay.aosctsbJ1kk").err(),
        Some(Error::InsufficientLength)
    );
    assert_eq!(
        crypt3_rs::hash::Hash::try_from("$1$5pZSV9va$azfrPr6af3Fc7").err(),
        Some(Error::InsufficientLength)
    );
    assert_eq!(
        crypt3_rs::hash::Hash::try_from("$apr1$63JlJ2NH$smE0mnB5h3tDri0zkpWXt1XX").err(),
        Some(Error::InsufficientLength)
    );
    assert_eq!(
        crypt3_rs::hash::Hash::try_from("$2y$05$bvIG6Nmid91Mu9RcmmWZfO").err(),
        Some(Error::InsufficientLength)
    );
}

#[test]
fn thirteen_bytes_without_prefix_are_traditional() {
    assert!(matches!(
        crypt3_rs::hash::Hash::try_from("!!!!!!!!!!!!!").unwrap(),
        crypt3_rs::hash::Hash::Unix(_)
    ));
    assert_eq!(
        crypt3_rs::hash::Hash::try_from("aZGJuE6EXrjE").err(),
        Some(Error::InvalidHashString)
    );
    assert_eq!(
        crypt3_rs::hash::Hash::try_from("aZGJuE6EXrjEEE").err(),
        Some(Error::InvalidHashString)
    );
}

#[test]
fn from_str_recognises_too() {
    let h: crypt3_rs::hash::Hash = "aZGJuE6EXrjEE".parse().unwrap();
    assert_eq!(h.kind_of(), crypt3_rs::hash::HashKind::Unix);
    let e: Result<crypt3_rs::hash::Hash, Error> = "!!".parse();
    assert_eq!(e.err(), Some(Error::InvalidHashString));
}

#[test]
fn hashes_compare_by_their_text() {
    let a = crypt3_rs::hash::Hash::try_from("aZGJuE6EXrjEE").unwrap();
    let b = crypt3_rs::hash::Hash::try_from("aZGJuE6EXrjEE").unwrap();
    let c = crypt3_rs::hash::Hash::try_from("aZFJuE6EXrjEE").unwrap();
    assert!(a == b);
    assert!(a != c);
    assert!(a == "aZGJuE6EXrjEE");
    assert!("aZGJuE6EXrjEE" == a);
    assert!(a == String::from("aZGJuE6EXrjEE"));
    assert!(String::from("aZGJuE6EXrjEE") == a);
    assert!(a != "aZGJuE6EXrjE");
    assert_eq!(&*a, "aZGJuE6EXrjEE");
}

#[test]
fn hash_verifies_its_password() {
    let h = crypt3_rs::hash::Hash::try_from("$1$5pZSV9va$azfrPr6af3Fc7dLblQXVa0").unwrap();
    assert_eq!(h.verify(b"password"), true);
    assert_eq!(h.verify(b"Password"), false);
    let again = h.hash_with(b"password").unwrap();
    assert_eq!(again, h);
    let other = h.hash_with(b"another").unwrap();
    assert!(other != h);
    assert!(other.as_str().starts_with("$1$5pZSV9va$"));
}

#[test]
fn hash_of_every_format_verifies_its_password() {
    let all = [
        ("password", "$apr1$63JlJ2NH$smE0mnB5h3tDri0zkpWXt1"),
        ("password", "$2y$05$bvIG6Nmid91Mu9RcmmWZfO5HJIMCT8riNW0hEp8f6/FuA2/mHZFpe"),
        ("password", "_Gl/.K0Ay.aosctsbJ1k"),
        ("password", "$1$5pZSV9va$azfrPr6af3Fc7dLblQXVa0"),
        ("password", "$sha1$19703$iVdJqfSE$v4qYKl1zqYThwpjJAoKX6UvlHq/a"),
        ("test", "$5$rounds=11858$WH1ABM5sKhxbkgCK$aTQsjPkz0rBsH3lQlJxw9HDTDXPKBxC0LlVeV69P.t1"),
        ("test", "$6$rounds=11531$G/gkPn17kHYo0gTF$Kq.uZBHlSBXyzsOJXtxJruOOH4yc0Is13uY7yK0PvAvXxbvc1w8DO1RzREMhKsc82K/Jh8OquV8FZUlreYPJk1"),
        ("test", "aZGJuE6EXrjEE"),
    ];
    for (pass, text) in all {
        let h = crypt3_rs::hash::Hash::try_from(text).unwrap();
        assert_eq!(h.verify(pass.as_bytes()), true);
        assert_eq!(h.verify(b"wrong"), false);
        assert_eq!(h.hash_with(pass.as_bytes()).unwrap(), text);
    }
}

#[test]
fn error_messages_are_not_empty() {
    for e in [
        Error::InvalidHashString,
        Error::InsufficientLength,
        Error::EncodingError,
        Error::InvalidRounds,
        Error::RandomError,
    ] {
        assert!(!e.message().is_empty());
    }
}

#[test]
fn length_gates() {
    assert_eq!(&*crypt3_rs::hash::gatel("abc", 3).unwrap(), "abc");
    assert_eq!(crypt3_rs::hash::gatel("abc", 4).err(), Some(Error::InsufficientLength));
    assert_eq!(crypt3_rs::hash::gatel("abc", 2).err(), Some(Error::InsufficientLength));
    assert_eq!(&*crypt3_rs::hash::gater("abc", 1, 3).unwrap(), "abc");
    assert_eq!(&*crypt3_rs::hash::gater("abc", 3, 5).unwrap(), "abc");
    assert_eq!(crypt3_rs::hash::gater("abc", 4, 5).err(), Some(Error::InsufficientLength));
    assert_eq!(crypt3_rs::hash::gater("abc", 0, 2).err(), Some(Error::InsufficientLength));
    assert_eq!(crypt3_rs::hash::gater("abc", 5, 1).err(), Some(Error::InsufficientLength));
    assert_eq!(crypt3_rs::hash::is_text(Some("ab"), b"ab"), true);
    assert_eq!(crypt3_rs::hash::is_text(Some("ab"), b"abc"), false);
    assert_eq!(crypt3_rs::hash::is_text(None, b""), false);
}

#[test]
fn the_same_input_gives_the_same_hash() {
    let a = crypt3_rs::crypt::bsdi::hash_with(HashSetup { salt: Some("K0Ay"), rounds: Some(99) }, b"pw");
    let b = crypt3_rs::crypt::bsdi::hash_with(HashSetup { salt: Some("K0Ay"), rounds: Some(99) }, b"pw");
    assert_eq!(a.unwrap(), b.unwrap());
    let a = crypt3_rs::crypt::sha256::hash_with(HashSetup { salt: Some("salt"), rounds: Some(1000) }, b"pw");
    let b = crypt3_rs::crypt::sha256::hash_with(HashSetup { salt: Some("salt"), rounds: Some(1000) }, b"pw");
    assert_eq!(a.unwrap(), b.unwrap());
    let a = crypt3_rs::crypt::sha512::hash_with(HashSetup { salt: Some("salt"), rounds: Some(1000) }, b"pw");
    let b = crypt3_rs::crypt::sha512::hash_with(HashSetup { salt: Some("salt"), rounds: Some(1000) }, b"pw");
    assert_eq!(a.unwrap(), b.unwrap());
    let a = crypt3_rs::crypt::sha1::hash_with(HashSetup { salt: Some("salt"), rounds: Some(10) }, b"pw");
    let b = crypt3_rs::crypt::sha1::hash_with(HashSetup { salt: Some("salt"), rounds: Some(10) }, b"pw");
    assert_eq!(a.unwrap(), b.unwrap());
    let a = crypt3_rs::crypt::unix::hash_with("ab", b"pw");
    let b = crypt3_rs::crypt::unix::hash_with("ab", b"pw");
    assert_eq!(a.unwrap(), b.unwrap());
    let a = crypt3_rs::crypt::bcrypt::hash_with("$2b$04$abcdefghijklmnopqrstuu", b"pw");
    let b = crypt3_rs::crypt::bcrypt::hash_with("$2b$04$abcdefghijklmnopqrstuu", b"pw");
    assert_eq!(a.unwrap(), b.unwrap());
    let a = crypt3_rs::unix::crypt(b"pw", "$apr1$63JlJ2NH$");
    let b = crypt3_rs::unix::crypt(b"pw", "$apr1$63JlJ2NH$");
    assert_eq!(a.err(), b.err());
}

#[test]
fn a_made_hash_is_recognised_as_its_format() {
    let made = [
        (crypt3_rs::crypt::apr1::hash(b"pw").unwrap(), HashKind::Apr1),
        (crypt3_rs::crypt::md5::hash(b"pw").unwrap(), HashKind::Md5),
        (crypt3_rs::crypt::bsdi::hash(b"pw").unwrap(), HashKind::Bsdi),
        (crypt3_rs::crypt::unix::hash(b"pw").unwrap(), HashKind::Unix),
        (crypt3_rs::crypt::sha256::hash(b"pw").unwrap(), HashKind::Sha256),
        (crypt3_rs::crypt::sha512::hash(b"pw").unwrap(), HashKind::Sha512),
        (crypt3_rs::crypt::sha1::hash(b"pw").unwrap(), HashKind::Sha1),
        (crypt3_rs::crypt::bcrypt::hash_with(crypt3_rs::HashSetup::default().rounds(4), b"pw").unwrap(), HashKind::Bcrypt),
    ];
    for (h, kind) in made {
        let again = crypt3_rs::hash::Hash::try_from(h.as_str()).unwrap();
        assert_eq!(again.kind_of(), kind);
        assert_eq!(h.kind_of(), kind);
        assert_eq!(again, h);
        assert_eq!(crypt3_rs::unix::verify(b"pw", h.as_str()), true);
        assert_eq!(crypt3_rs::unix::verify(b"pW", h.as_str()), false);
        assert_eq!(crypt3_rs::unix::crypt(b"pw", h.as_str()).unwrap(), h);
        assert_eq!(h.clone(), h);
    }
}
