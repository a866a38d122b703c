use crypt3_rs::crypt::{sha256, sha512};
use crypt3_rs::error::Error;
use crypt3_rs::HashSetup;

#[test]
fn sha256_known_vectors() {
    assert_eq!(
        sha256::hash_with("$5$rounds=11858$WH1ABM5sKhxbkgCK$", b"test").unwrap(),
        "$5$rounds=11858$WH1ABM5sKhxbkgCK$aTQsjPkz0rBsH3lQlJxw9HDTDXPKBxC0LlVeV69P.t1"
    );
    assert_eq!(
        sha256::hash_with(HashSetup { salt: Some("saltsalt"), rounds: None }, b"password").unwrap(),
        "$5$saltsalt$gOjOtoMpVhru2uyjeJSEc/JaLQWOXMNmlOnj6T4AtC."
    );
    assert_eq!(
        sha256::hash_with(HashSetup { salt: Some("saltsalt"), rounds: Some(5000) }, b"password")
            .unwrap(),
        "$5$rounds=5000$saltsalt$gOjOtoMpVhru2uyjeJSEc/JaLQWOXMNmlOnj6T4AtC."
    );
    assert_eq!(
        sha256::hash_with(
            HashSetup { salt: Some("x"), rounds: Some(1000) },
            b"a much longer password that goes on for more than sixty-four bytes in total, to be sure"
        )
        .unwrap(),
        "$5$rounds=1000$x$MQqf3buAqVeoD42o/rK3BQJz4xHbYo5MisK01QRqkZ5"
    );
}

#[test]
fn sha512_known_vectors() {
    assert_eq!(
        sha512::hash_with("$6$rounds=11531$G/gkPn17kHYo0gTF$", b"test").unwrap(),
        "$6$rounds=11531$G/gkPn17kHYo0gTF$Kq.uZBHlSBXyzsOJXtxJruOOH4yc0Is13uY7yK0PvAvXxbvc1w8DO1RzREMhKsc82K/Jh8OquV8FZUlreYPJk1"
    );
    assert_eq!(
        sha512::hash_with(HashSetup { salt: Some("saltsalt"), rounds: None }, b"password").unwrap(),
        "$6$saltsalt$qFmFH.bQmmtXzyBY0s9v7Oicd2z4XSIecDzlB5KiA2/jctKu9YterLp8wwnSq.qc.eoxqOmSuNp2xS0ktL3nh/"
    );
    assert_eq!(
        sha512::hash_with(
            HashSetup { salt: Some("0123456789abcdef"), rounds: Some(1000) },
            b"password"
        )
        .unwrap(),
        "$6$rounds=1000$0123456789abcdef$NrcnzC1Cw31yiSjRZbYLUDHpNvPA2ZSdS38GKwAQzTm125mJjPzlJsqf1cksiGQ5TF/ub5.IhMMBB8LyJ1ip60"
    );
    assert_eq!(
        sha512::hash_with(
            HashSetup { salt: Some(""), rounds: Some(1000) },
            b"a much longer password that goes on for more than sixty-four bytes in total, to be sure"
        )
        .unwrap(),
        "$6$rounds=1000$$Q7FPsShMA4LaYN0Q4ibeOaDoj2vaa0EJJKugO5TnWiF9CzD35VFuFJY9zmTNXnk4A0y7e0IT5LNa.a9k8xPAE."
    );
}

#[test]
fn sha2_verify() {
    assert_eq!(
        sha256::verify(
            b"test",
            "$5$rounds=11858$WH1ABM5sKhxbkgCK$aTQsjPkz0rBsH3lQlJxw9HDTDXPKBxC0LlVeV69P.t1"
        ),
        true
    );
    assert_eq!(
        sha256::verify(
            b"test",
            "$5$rounds=11858$WH1ABM5sKhxbkgCK$aTQsjPkz0rBsH3lQlJxw9HDTDXPKBxC0LlVeV69P.t2"
        ),
        false
    );
    assert_eq!(
        sha256::verify(
            b"Test",
            "$5$rounds=11858$WH1ABM5sKhxbkgCK$aTQsjPkz0rBsH3lQlJxw9HDTDXPKBxC0LlVeV69P.t1"
        ),
        false
    );
    assert_eq!(
        sha512::verify(
            b"password",
            "$6$saltsalt$qFmFH.bQmmtXzyBY0s9v7Oicd2z4XSIecDzlB5KiA2/jctKu9YterLp8wwnSq.qc.eoxqOmSuNp2xS0ktL3nh/"
        ),
        true
    );
    assert_eq!(sha512::verify(b"password", "$5$saltsalt$gOjOtoMpVhru2uyjeJSEc/JaLQWOXMNmlOnj6T4AtC."), false);
    assert_eq!(sha256::verify(b"password", "!!"), false);
}

#[test]
fn sha2_rounds_are_held_to_their_range() {
    assert_eq!(
        sha256::hash_with(HashSetup { salt: Some("saltsalt"), rounds: Some(999) }, b"password").err(),
        Some(Error::InvalidRounds)
    );
    assert_eq!(
        sha256::hash_with(HashSetup { salt: None, rounds: Some(999) }, b"password").err(),
        Some(Error::InvalidRounds)
    );
    assert_eq!(
        sha512::hash_with(HashSetup { salt: Some("saltsalt"), rounds: Some(1_000_000_000) }, b"password")
            .err(),
        Some(Error::InvalidRounds)
    );
    assert_eq!(sha256::hash_with("$5$rounds=10$saltsalt$", b"password").err(), Some(Error::InvalidRounds));
    assert_eq!(sha256::hash_with("$5$rounds=$saltsalt$", b"password").err(), Some(Error::InvalidRounds));
    assert_eq!(sha256::hash_with("$5$rounds=12x4$saltsalt$", b"password").err(), Some(Error::InvalidRounds));
    assert_eq!(
        sha256::hash_with("$5$rounds=99999999999$saltsalt$", b"password").err(),
        Some(Error::InvalidRounds)
    );
    assert!(sha256::hash_with(HashSetup { salt: Some("saltsalt"), rounds: Some(1000) }, b"password").is_ok());
}

#[test]
fn sha2_salt_errors() {
    assert_eq!(
        sha256::hash_with(HashSetup { salt: Some("0123456789abcdefg"), rounds: None }, b"password").err(),
        Some(Error::InvalidHashString)
    );
    assert_eq!(
        sha256::hash_with(HashSetup { salt: Some("salt!"), rounds: None }, b"password").err(),
        Some(Error::EncodingError)
    );
    assert_eq!(sha256::hash_with("$6$saltsalt$", b"password").err(), Some(Error::InvalidHashString));
    assert_eq!(sha512::hash_with("$5$saltsalt$", b"password").err(), Some(Error::InvalidHashString));
    assert_eq!(sha256::hash_with("$5$", b"password").err(), Some(Error::InvalidHashString));
    assert_eq!(sha256::hash_with("$5$rounds=5000", b"password").err(), Some(Error::InvalidHashString));
    assert_eq!(sha256::hash_with("", b"password").err(), Some(Error::InvalidHashString));
}

#[test]
fn sha2_parse() {
    let s = sha256::parse_sha256_hash("$5$rounds=11858$WH1ABM5sKhxbkgCK$aTQsjPkz0rBs").unwrap();
    assert_eq!(s.salt, Some("WH1ABM5sKhxbkgCK"));
    assert_eq!(s.rounds, Some(11858));
    let s = sha512::parse_sha512_hash("$6$saltsalt$qFmFH").unwrap();
    assert_eq!(s.salt, Some("saltsalt"));
    assert_eq!(s.rounds, None);
    let s = sha512::parse_sha512_hash("$6$round=1$qFmFH").unwrap();
    assert_eq!(s.salt, Some("round=1"));
    assert_eq!(s.rounds, None);
}

#[test]
fn sha2_random_salt() {
    let h = sha256::hash(b"password").unwrap();
    assert_eq!(h.as_str().len(), 3 + 16 + 1 + 43);
    assert_eq!(h.kind_of(), crypt3_rs::hash::HashKind::Sha256);
    assert_eq!(sha256::verify(b"password", h.as_str()), true);
    assert_eq!(sha256::hash_with(h.as_str(), b"password").unwrap(), h);
    let g = sha512::hash(b"password").unwrap();
    assert_eq!(g.as_str().len(), 3 + 16 + 1 + 86);
    assert_eq!(g.kind_of(), crypt3_rs::hash::HashKind::Sha512);
    assert_eq!(sha512::verify(b"password", g.as_str()), true);
    let k = sha512::hash_with(HashSetup::default().rounds(1234), b"password").unwrap();
    assert!(k.as_str().starts_with("$6$rounds=1234$"));
    assert_eq!(sha512::verify(b"password", k.as_str()), true);
    assert_eq!(sha512::hash_with(k.as_str(), b"password").unwrap(), k);
}

#[test]
fn sha256_mutated_checksum_fails() {
    let good = "$5$saltsalt$gOjOtoMpVhru2uyjeJSEc/JaLQWOXMNmlOnj6T4AtC.";
    for i in (good.len() - 43)..good.len() {
        let mut bytes = good.as_bytes().to_vec();
        bytes[i] = if bytes[i] == b'.' { b'/' } else { b'.' };
        let bad = String::from_utf8(bytes).unwrap();
        assert_eq!(sha256::verify(b"password", &bad), false);
    }
}
