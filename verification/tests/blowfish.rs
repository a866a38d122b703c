use crypt3_rs::crypt::bcrypt;
use crypt3_rs::crypt::bcrypt::BcryptSetup;
use crypt3_rs::error::Error;
use crypt3_rs::internal::blowfish::BcryptVariant;
use crypt3_rs::HashSetup;

#[test]
fn bcrypt_known_vectors() {
    assert_eq!(
        bcrypt::hash_with("$2y$05$bvIG6Nmid91Mu9RcmmWZfO5HJIMCT8riNW0hEp8f6/FuA2/mHZFpe", b"password")
            .unwrap(),
        "$2y$05$bvIG6Nmid91Mu9RcmmWZfO5HJIMCT8riNW0hEp8f6/FuA2/mHZFpe"
    );
    assert_eq!(
        bcrypt::hash_with("$2a$04$......................", b"").unwrap(),
        "$2a$04$......................w74bL5gU7LSJClZClCa.Pkz14aTv/XO"
    );
    assert_eq!(
        bcrypt::hash_with(
            BcryptSetup { salt: Some("abcdefghijklmnopqrstuu"), cost: Some(4), variant: Some(BcryptVariant::V2b) },
            b"password"
        )
        .unwrap(),
        "$2b$04$abcdefghijklmnopqrstuughE8Ev8uGFaUgY2cNEySvxngrb/Jzdm"
    );
    assert_eq!(
        bcrypt::hash_with(HashSetup { salt: Some("abcdefghijklmnopqrstuu"), rounds: Some(4) }, b"password")
            .unwrap(),
        "$2b$04$abcdefghijklmnopqrstuughE8Ev8uGFaUgY2cNEySvxngrb/Jzdm"
    );
}

#[test]
fn bcrypt_spells_the_salt_anew() {
    assert_eq!(
        bcrypt::hash_with("$2b$04$abcdefghijklmnopqrstuv", b"password").unwrap(),
        "$2b$04$abcdefghijklmnopqrstuughE8Ev8uGFaUgY2cNEySvxngrb/Jzdm"
    );
}

#[test]
fn bcrypt_password_counts_up_to_71_bytes() {
    let p80 = [b'x'; 80];
    let p72 = [b'x'; 72];
    let p71 = [b'x'; 71];
    let a = bcrypt::hash_with("$2b$04$abcdefghijklmnopqrstuu", &p80).unwrap();
    let b = bcrypt::hash_with("$2b$04$abcdefghijklmnopqrstuu", &p72).unwrap();
    let c = bcrypt::hash_with("$2b$04$abcdefghijklmnopqrstuu", &p71).unwrap();
    assert_eq!(a, "$2b$04$abcdefghijklmnopqrstuubzadhGtS2zEF.gu0yd0opP6cVzb.e0i");
    assert_eq!(b, "$2b$04$abcdefghijklmnopqrstuubzadhGtS2zEF.gu0yd0opP6cVzb.e0i");
    assert_eq!(c, "$2b$04$abcdefghijklmnopqrstuu.gc7UY/21CSNJGJg21jJzx9QiOpJ9bO");
}

#[test]
fn bcrypt_cuts_the_password_at_nul() {
    let a = bcrypt::hash_with("$2b$04$abcdefghijklmnopqrstuu", b"password").unwrap();
    let b = bcrypt::hash_with("$2b$04$abcdefghijklmnopqrstuu", b"password\0more").unwrap();
    assert_eq!(a, b);
}

#[test]
fn bcrypt_verify() {
    assert_eq!(
        bcrypt::verify(b"password", "$2y$05$bvIG6Nmid91Mu9RcmmWZfO5HJIMCT8riNW0hEp8f6/FuA2/mHZFpe"),
        true
    );
    assert_eq!(
        bcrypt::verify(b"password", "$2y$05$bvIG6Nmid91Mu9RcmmWZfO5HJIMCT8riNW0hEp8f6/FuA2/mHZFpf"),
        false
    );
    assert_eq!(
        bcrypt::verify(b"password", "$2b$05$bvIG6Nmid91Mu9RcmmWZfO5HJIMCT8riNW0hEp8f6/FuA2/mHZFpe"),
        true
    );
    assert_eq!(
        bcrypt::verify(b"password", "$2y$06$bvIG6Nmid91Mu9RcmmWZfO5HJIMCT8riNW0hEp8f6/FuA2/mHZFpe"),
        false
    );
    assert_eq!(
        bcrypt::verify(b"Password", "$2y$05$bvIG6Nmid91Mu9RcmmWZfO5HJIMCT8riNW0hEp8f6/FuA2/mHZFpe"),
        false
    );
    assert_eq!(bcrypt::verify(b"password", "!!"), false);
}

#[test]
fn bcrypt_cost_is_held_to_its_range() {
    assert_eq!(
        bcrypt::hash_with("$2b$03$abcdefghijklmnopqrstuu", b"password").err(),
        Some(Error::InvalidRounds)
    );
    assert_eq!(
        bcrypt::hash_with("$2b$32$abcdefghijklmnopqrstuu", b"password").err(),
        Some(Error::InvalidRounds)
    );
    assert_eq!(
        bcrypt::hash_with("$2b$xx$abcdefghijklmnopqrstuu", b"password").err(),
        Some(Error::InvalidRounds)
    );
    assert_eq!(
        bcrypt::hash_with(BcryptSetup { salt: None, cost: Some(3), variant: None }, b"password").err(),
        Some(Error::InvalidRounds)
    );
    assert!(bcrypt::hash_with("$2b$04$abcdefghijklmnopqrstuu", b"password").is_ok());
}

#[test]
fn bcrypt_text_and_salt_errors() {
    assert_eq!(
        bcrypt::hash_with("$2x$05$abcdefghijklmnopqrstuu", b"password").err(),
        Some(Error::InvalidHashString)
    );
    assert_eq!(bcrypt::hash_with("$2b$05$abcdefghijklmnopqrstu", b"password").err(), Some(Error::InvalidHashString));
    assert_eq!(bcrypt::hash_with("$2b$05", b"password").err(), Some(Error::InvalidHashString));
    assert_eq!(bcrypt::hash_with("$2b", b"password").err(), Some(Error::InvalidHashString));
    assert_eq!(
        bcrypt::hash_with("$2b$05$abcdefghijklmnopqrst!u", b"password").err(),
        Some(Error::EncodingError)
    );
    assert_eq!(
        bcrypt::hash_with(BcryptSetup { salt: Some("abc"), cost: None, variant: None }, b"password").err(),
        Some(Error::InsufficientLength)
    );
    assert_eq!(
        bcrypt::hash_with(
            BcryptSetup { salt: Some("abcdefghijklmnopqrstuuu"), cost: Some(4), variant: None },
            b"password"
        )
        .err(),
        Some(Error::InvalidHashString)
    );
}

#[test]
fn bcrypt_parse() {
    let s = bcrypt::parse_bcrypt_hash("$2y$05$bvIG6Nmid91Mu9RcmmWZfO5HJIMCT8riNW0hEp8f6/FuA2/mHZFpe")
        .unwrap();
    assert_eq!(s.salt, Some("bvIG6Nmid91Mu9RcmmWZfO"));
    assert_eq!(s.cost, Some(5));
    assert_eq!(s.variant, Some(BcryptVariant::V2y));
}

#[test]
fn bcrypt_random_salt() {
    let h = bcrypt::hash_with(BcryptSetup { salt: None, cost: Some(4), variant: Some(BcryptVariant::V2a) }, b"password")
        .unwrap();
    assert_eq!(h.as_str().len(), 60);
    assert!(h.as_str().starts_with("$2a$04$"));
    assert_eq!(h.kind_of(), crypt3_rs::hash::HashKind::Bcrypt);
    assert_eq!(bcrypt::verify(b"password", h.as_str()), true);
    assert_eq!(bcrypt::hash_with(h.as_str(), b"password").unwrap(), h);
    let g = bcrypt::hash_with(HashSetup { salt: None, rounds: Some(4) }, b"password").unwrap();
    assert!(g.as_str().starts_with("$2b$04$"));
}

#[test]
fn bcrypt_default_cost() {
    let h = bcrypt::hash(b"password").unwrap();
    assert!(h.as_str().starts_with("$2b$12$"));
    assert_eq!(h.as_str().len(), 60);
}

#[test]
fn bcrypt_mutated_checksum_fails() {
    let good = "$2y$05$bvIG6Nmid91Mu9RcmmWZfO5HJIMCT8riNW0hEp8f6/FuA2/mHZFpe";
    for i in 29..60 {
        let mut bytes = good.as_bytes().to_vec();
        bytes[i] = if bytes[i] == b'.' { b'/' } else { b'.' };
        let bad = String::from_utf8(bytes).unwrap();
        assert_eq!(bcrypt::verify(b"password", &bad), false);
    }
}
