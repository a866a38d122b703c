use crypt3_rs::crypt::sha1;
use crypt3_rs::error::Error;
use crypt3_rs::HashSetup;

#[test]
fn sha1_known_vectors() {
    assert_eq!(
        sha1::hash_with("$sha1$19703$iVdJqfSE$v4qYKl1zqYThwpjJAoKX6UvlHq/a", b"password").unwrap(),
        "$sha1$19703$iVdJqfSE$v4qYKl1zqYThwpjJAoKX6UvlHq/a"
    );
    assert_eq!(
        sha1::hash_with(HashSetup { salt: Some("abc"), rounds: Some(1) }, b"password").unwrap(),
        "$sha1$1$abc$8GM5i5Jm9uBPhbv5S2Gh3aSkRAre"
    );
    assert_eq!(
        sha1::hash_with(
            HashSetup { salt: Some("salt"), rounds: Some(100) },
            b"a much longer password that goes on for more than sixty-four bytes in total, to be sure"
        )
        .unwrap(),
        "$sha1$100$salt$eWXOLWOUEbsX99wKjsdhlZIaeFDS"
    );
}

#[test]
fn sha1_verify() {
    assert_eq!(sha1::verify(b"password", "$sha1$19703$iVdJqfSE$v4qYKl1zqYThwpjJAoKX6UvlHq/a"), true);
    assert_eq!(sha1::verify(b"password", "$sha1$19703$iVdJqfSE$v4qYKl1zqYThwpjJAoKX6UvlHq/b"), false);
    assert_eq!(sha1::verify(b"passwore", "$sha1$19703$iVdJqfSE$v4qYKl1zqYThwpjJAoKX6UvlHq/a"), false);
    assert_eq!(sha1::verify(b"password", "$sha1$19703$iVdJqfSE"), false);
}

#[test]
fn sha1_errors() {
    assert_eq!(
        sha1::hash_with(HashSetup { salt: Some("abc"), rounds: Some(0) }, b"password").err(),
        Some(Error::InvalidRounds)
    );
    assert_eq!(
        sha1::hash_with(HashSetup { salt: Some("a!c"), rounds: Some(10) }, b"password").err(),
        Some(Error::EncodingError)
    );
    let long = "0123456789012345678901234567890123456789012345678901234567890123x";
    assert_eq!(
        sha1::hash_with(HashSetup { salt: Some(long), rounds: Some(10) }, b"password").err(),
        Some(Error::InvalidHashString)
    );
    assert!(sha1::hash_with(HashSetup { salt: Some(&long[..64]), rounds: Some(10) }, b"password").is_ok());
    assert_eq!(sha1::hash_with("$sha1$x$abc$", b"password").err(), Some(Error::InvalidRounds));
    assert_eq!(sha1::hash_with("$sha1$$abc$", b"password").err(), Some(Error::InvalidRounds));
    assert_eq!(sha1::hash_with("$sha1$10", b"password").err(), Some(Error::InvalidHashString));
    assert_eq!(sha1::hash_with("$sha2$10$abc$", b"password").err(), Some(Error::InvalidHashString));
    assert_eq!(sha1::hash_with("$sha1$", b"password").err(), Some(Error::InvalidHashString));
}

#[test]
fn sha1_parse() {
    let s = sha1::parse_sha1_hash("$sha1$19703$iVdJqfSE$v4qYKl1zqYThwpjJAoKX6UvlHq/a").unwrap();
    assert_eq!(s.salt, Some("iVdJqfSE"));
    assert_eq!(s.rounds, Some(19703));
}

#[test]
fn sha1_random_parameters() {
    let h = sha1::hash(b"password").unwrap();
    let s = sha1::parse_sha1_hash(h.as_str()).unwrap();
    assert_eq!(s.salt.unwrap().len(), 8);
    let n = s.rounds.unwrap();
    assert!(n <= 24680 && n > 24680 - 24680 / 4);
    assert_eq!(h.kind_of(), crypt3_rs::hash::HashKind::Sha1);
    assert_eq!(sha1::verify(b"password", h.as_str()), true);
    assert_eq!(sha1::hash_with(h.as_str(), b"password").unwrap(), h);
    let g = sha1::hash_with(HashSetup::default().salt("abcd"), b"password").unwrap();
    let s = sha1::parse_sha1_hash(g.as_str()).unwrap();
    assert_eq!(s.salt, Some("abcd"));
    let k = sha1::hash_with(HashSetup::default().rounds(77), b"password").unwrap();
    assert!(k.as_str().starts_with("$sha1$77$"));
}

#[test]
fn sha1_mutated_checksum_fails() {
    let good = "$sha1$19703$iVdJqfSE$v4qYKl1zqYThwpjJAoKX6UvlHq/a";
    for i in (good.len() - 28)..good.len() {
        let mut bytes = good.as_bytes().to_vec();
        bytes[i] = if bytes[i] == b'.' { b'/' } else { b'.' };
        let bad = String::from_utf8(bytes).unwrap();
        assert_eq!(sha1::verify(b"password", &bad), false);
    }
}
