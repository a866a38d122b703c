use crypt3_rs::crypt::bsdi;
use crypt3_rs::error::Error;
use crypt3_rs::HashSetup;

#[test]
fn bsdi_custom() {
    assert_eq!(
        bsdi::hash_with(
            HashSetup {
                salt: Some("K0Ay"),
                rounds: None
            },
            b"password"
        )
        .unwrap(),
        "_Gl/.K0Ay.aosctsbJ1k"
    );
    assert_eq!(
        bsdi::hash_with("_Gl/.K0Ay.aosctsbJ1k", b"password").unwrap(),
        "_Gl/.K0Ay.aosctsbJ1k"
    );
}

#[test]
#[should_panic(expected = "value: InvalidRounds")]
fn bad_rounds() {
    let _ = bsdi::hash_with(
        HashSetup {
            salt: Some("K0Ay"),
            rounds: Some(0),
        },
        b"password",
    )
    .unwrap();
}

#[test]
fn bsdi_known_vector_with_builder() {
    assert_eq!(
        bsdi::hash_with(HashSetup::default().salt("K0Ay").rounds(7250), b"password").unwrap(),
        "_Gl/.K0Ay.aosctsbJ1k"
    );
}

#[test]
fn bsdi_rounds_zero_are_refused() {
    assert_eq!(
        bsdi::hash_with(HashSetup { salt: Some("K0Ay"), rounds: Some(0) }, b"password").err(),
        Some(Error::InvalidRounds)
    );
    assert_eq!(
        bsdi::hash_with(HashSetup { salt: None, rounds: Some(0) }, b"password").err(),
        Some(Error::InvalidRounds)
    );
    assert_eq!(
        bsdi::hash_with(HashSetup { salt: Some("K0Ay"), rounds: Some(1 << 24) }, b"password").err(),
        Some(Error::InvalidRounds)
    );
    assert_eq!(bsdi::hash_with("_....K0Ay", b"password").err(), Some(Error::InvalidRounds));
}

#[test]
fn bsdi_one_round() {
    assert_eq!(
        bsdi::hash_with(HashSetup { salt: Some("K0Ay"), rounds: Some(1) }, b"password").unwrap(),
        "_/...K0Ayd4d.TyFrAgA"
    );
}

#[test]
fn bsdi_most_rounds() {
    assert_eq!(
        bsdi::hash_with(
            HashSetup { salt: Some("K0Ay"), rounds: Some((1 << 24) - 1) },
            b"password"
        )
        .unwrap(),
        "_zzzzK0AyK7LZixmNUUE"
    );
}

#[test]
fn bsdi_long_password() {
    assert_eq!(
        bsdi::hash_with("_Gl/.K0Ay", b"a password of more than eight bytes").unwrap(),
        "_Gl/.K0AyJKhaI/16ChM"
    );
    assert_eq!(bsdi::verify(b"a password of more than eight bytes", "_Gl/.K0AyJKhaI/16ChM"), true);
    assert_eq!(bsdi::verify(b"a password of more than eight byteS", "_Gl/.K0AyJKhaI/16ChM"), false);
}

#[test]
fn bsdi_salt_errors() {
    assert_eq!(
        bsdi::hash_with(HashSetup { salt: Some("K0A"), rounds: None }, b"password").err(),
        Some(Error::InsufficientLength)
    );
    assert_eq!(
        bsdi::hash_with(HashSetup { salt: Some("K0A!"), rounds: None }, b"password").err(),
        Some(Error::EncodingError)
    );
    assert_eq!(
        bsdi::hash_with(HashSetup { salt: Some("K0AyXYZ"), rounds: None }, b"password").unwrap(),
        "_Gl/.K0Ay.aosctsbJ1k"
    );
}

#[test]
fn bsdi_text_errors() {
    assert_eq!(bsdi::hash_with("Gl/.K0Ay.aosctsbJ1k", b"password").err(), Some(Error::InvalidHashString));
    assert_eq!(bsdi::hash_with("", b"password").err(), Some(Error::InvalidHashString));
    assert_eq!(bsdi::hash_with("_Gl/", b"password").err(), Some(Error::InvalidHashString));
    assert_eq!(bsdi::hash_with("_Gl/.K0A", b"password").err(), Some(Error::InvalidHashString));
    assert_eq!(bsdi::hash_with("_Gl!.K0Ay", b"password").err(), Some(Error::EncodingError));
    assert_eq!(bsdi::hash_with("_Gl/.K0!y", b"password").err(), Some(Error::EncodingError));
    assert_eq!(bsdi::verify(b"password", "_Gl/.K0A"), false);
    assert_eq!(bsdi::verify(b"password", "!!"), false);
}

#[test]
fn bsdi_parse() {
    let s = bsdi::parse_bsdi_hash("_Gl/.K0Ay.aosctsbJ1k").unwrap();
    assert_eq!(s.salt, Some("K0Ay"));
    assert_eq!(s.rounds, Some(7250));
}

#[test]
fn bsdi_random_salt() {
    let h = bsdi::hash(b"password").unwrap();
    assert_eq!(h.as_str().len(), 20);
    assert!(h.as_str().starts_with("_Gl/."));
    assert_eq!(bsdi::verify(b"password", h.as_str()), true);
    assert_eq!(bsdi::verify(b"Password", h.as_str()), false);
    assert_eq!(bsdi::hash_with(h.as_str(), b"password").unwrap(), h);
    let g = bsdi::hash_with(HashSetup { salt: None, rounds: Some(3) }, b"password").unwrap();
    assert!(g.as_str().starts_with("_1..."));
    assert_eq!(bsdi::verify(b"password", g.as_str()), true);
}

#[test]
fn bsdi_mutated_checksum_fails() {
    let good = "_Gl/.K0Ay.aosctsbJ1k";
    for i in 9..20 {
        let mut bytes = good.as_bytes().to_vec();
        bytes[i] = if bytes[i] == b'.' { b'/' } else { b'.' };
        let bad = String::from_utf8(bytes).unwrap();
        assert_eq!(bsdi::verify(b"password", &bad), false);
    }
}
