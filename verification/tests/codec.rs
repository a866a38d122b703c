use crypt3_rs::encode;
use crypt3_rs::error::Error;
use crypt3_rs::random;
use crypt3_rs::traits::FindNul;

#[test]
fn encode_val_writes_the_least_digit_first() {
    assert_eq!(encode::encode_val(7250, 4), b"Gl/.".to_vec());
    assert_eq!(encode::encode_val(0, 4), b"....".to_vec());
    assert_eq!(encode::encode_val((1 << 24) - 1, 4), b"zzzz".to_vec());
    assert_eq!(encode::encode_val(1, 4), b"/...".to_vec());
    assert_eq!(encode::encode_val(64, 2), b"./".to_vec());
    assert_eq!(encode::encode_val(65, 1), b"/".to_vec());
    assert_eq!(encode::encode_val(5, 0), Vec::<u8>::new());
    assert_eq!(encode::encode_val(u32::MAX, 7), b"zzzzz1.".to_vec());
}

#[test]
fn decode_val_reads_what_encode_val_writes() {
    for v in [0u32, 1, 63, 64, 4095, 7250, 123456, (1 << 24) - 1] {
        assert_eq!(encode::decode_val(&encode::encode_val(v, 4), 4), Ok(v));
    }
    assert_eq!(encode::decode_val(&encode::encode_val(u32::MAX, 6), 6), Ok(u32::MAX));
}

#[test]
fn decode_val_errors() {
    assert_eq!(encode::decode_val(b"Gl/.", 4), Ok(7250));
    assert_eq!(encode::decode_val(b"Gl/.", 2), Ok(7250));
    assert_eq!(encode::decode_val(b"Gl/", 4), Err(Error::InsufficientLength));
    assert_eq!(encode::decode_val(b"", 1), Err(Error::InsufficientLength));
    assert_eq!(encode::decode_val(b"", 0), Ok(0));
    assert_eq!(encode::decode_val(b"Gl!.", 4), Err(Error::EncodingError));
    assert_eq!(encode::decode_val(b"G!", 4), Err(Error::EncodingError));
    assert_eq!(encode::decode_val(b"zzzzz1", 6), Ok(u32::MAX));
    assert_eq!(encode::decode_val(b".....0", 6), Ok(1 << 31));
    assert_eq!(encode::decode_val(b".....2", 6), Err(Error::EncodingError));
    assert_eq!(encode::decode_val(b"zzzzzz", 6), Err(Error::EncodingError));
    assert_eq!(encode::decode_val(b"zzzzz1........", 6), Ok(u32::MAX));
}

#[test]
fn alphabets() {
    let crypt = b"./0123456789ABCDEFGHIJKLMNOPQRSTUVWXYZabcdefghijklmnopqrstuvwxyz";
    let bcrypt = b"./ABCDEFGHIJKLMNOPQRSTUVWXYZabcdefghijklmnopqrstuvwxyz0123456789";
    for v in 0..64u8 {
        assert_eq!(encode::crypt_char_of(v), crypt[v as usize]);
        assert_eq!(encode::bcrypt_char_of(v), bcrypt[v as usize]);
        assert_eq!(encode::crypt_value_of(crypt[v as usize]), Some(v));
        assert_eq!(encode::bcrypt_value_of(bcrypt[v as usize]), Some(v));
    }
    for c in 0..=255u8 {
        let inside = crypt.contains(&c);
        assert_eq!(encode::crypt_value_of(c).is_some(), inside);
        assert_eq!(encode::bcrypt_value_of(c).is_some(), inside);
        assert_eq!(encode::check_alphabet(&[b'a', c]), inside);
    }
    assert_eq!(encode::check_alphabet(b""), true);
}

#[test]
fn hash64_is_base64_in_the_bcrypt_alphabet() {
    assert_eq!(encode::hash64_encode(b""), b"".to_vec());
    assert_eq!(encode::hash64_encode(&[0]), b"..".to_vec());
    assert_eq!(encode::hash64_encode(&[0xff]), b"9u".to_vec());
    assert_eq!(encode::hash64_encode(&[0xff, 0xff]), b"996".to_vec());
    assert_eq!(encode::hash64_encode(&[0xff, 0xff, 0xff]), b"9999".to_vec());
    assert_eq!(encode::hash64_encode(&[0x14, 0xfb, 0x9c, 0x03]), b"DNsa.u".to_vec());
    assert_eq!(encode::hash64_encode(&[0u8; 16]), b"......................".to_vec());
}

#[test]
fn hash64_decode_reads_what_hash64_encode_writes() {
    assert_eq!(encode::hash64_decode(b""), Ok(vec![]));
    assert_eq!(encode::hash64_decode(b"."), Ok(vec![]));
    assert_eq!(encode::hash64_decode(b"9u"), Ok(vec![0xff]));
    assert_eq!(encode::hash64_decode(b"99"), Ok(vec![0xff]));
    assert_eq!(encode::hash64_decode(b"996"), Ok(vec![0xff, 0xff]));
    assert_eq!(encode::hash64_decode(b"9999"), Ok(vec![0xff, 0xff, 0xff]));
    assert_eq!(encode::hash64_decode(b"DNsa.u"), Ok(vec![0x14, 0xfb, 0x9c, 0x03]));
    assert_eq!(encode::hash64_decode(b"DNsa."), Ok(vec![0x14, 0xfb, 0x9c]));
    assert_eq!(encode::hash64_decode(b"DN!a"), Err(Error::EncodingError));
    assert_eq!(encode::hash64_decode(b"DNsa="), Err(Error::EncodingError));
    assert_eq!(encode::hash64_decode(b"\xff"), Err(Error::EncodingError));
    for n in 0..40usize {
        let bytes: Vec<u8> = (0..n).map(|i| (i * 37 + n * 11) as u8).collect();
        let text = encode::hash64_encode(&bytes);
        assert_eq!(text.len(), n / 3 * 4 + if n % 3 == 0 { 0 } else { n % 3 + 1 });
        assert_eq!(encode::hash64_decode(&text), Ok(bytes));
    }
}

#[test]
fn decimal_numbers() {
    let mut v = Vec::new();
    encode::write_decimal(&mut v, 0);
    assert_eq!(v, b"0".to_vec());
    encode::write_decimal(&mut v, 4294967295);
    assert_eq!(v, b"04294967295".to_vec());
    let mut v = Vec::new();
    encode::write_decimal(&mut v, 19703);
    assert_eq!(v, b"19703".to_vec());
    assert_eq!(encode::parse_decimal(b"19703"), Some(19703));
    assert_eq!(encode::parse_decimal(b"0"), Some(0));
    assert_eq!(encode::parse_decimal(b"007"), Some(7));
    assert_eq!(encode::parse_decimal(b"4294967295"), Some(u32::MAX));
    assert_eq!(encode::parse_decimal(b"4294967296"), None);
    assert_eq!(encode::parse_decimal(b"00000000004294967295"), Some(u32::MAX));
    assert_eq!(encode::parse_decimal(b""), None);
    assert_eq!(encode::parse_decimal(b"+5"), None);
    assert_eq!(encode::parse_decimal(b"5 "), None);
    assert_eq!(encode::parse_decimal(b"12a"), None);
}

#[test]
fn salt_from_bytes_cuts_the_encoding() {
    assert_eq!(random::salt_from_bytes(&[0x14, 0xfb, 0x9c], 2), b"DN".to_vec());
    assert_eq!(random::salt_from_bytes(&[0x14, 0xfb, 0x9c], 4), b"DNsa".to_vec());
    assert_eq!(random::salt_from_bytes(&[0x14, 0xfb, 0x9c, 0x03, 0, 0], 5), b"DNsa.".to_vec());
    assert_eq!(random::salt_from_bytes(&[0x14, 0xfb, 0x9c], 9), b"DNsa".to_vec());
    assert_eq!(random::salt_from_bytes(&[], 0), b"".to_vec());
}

#[test]
fn random_salts_have_the_length_asked_for() {
    for n in [0usize, 1, 2, 3, 4, 5, 8, 16, 22, 64] {
        let s = random::gen_salt_str(n).unwrap();
        assert_eq!(s.len(), n);
        assert!(encode::check_alphabet(s.as_bytes()));
        let v = random::gen_salt(n).unwrap();
        assert_eq!(v.len(), n);
        assert!(encode::check_alphabet(&v));
    }
}

#[test]
fn random_salts_differ() {
    let a = random::gen_salt_str(16).unwrap();
    let b = random::gen_salt_str(16).unwrap();
    let c = random::gen_salt_str(16).unwrap();
    assert!(a != b || b != c);
}

#[test]
fn random_bytes_fill_the_buffer() {
    let mut buf = [0u8; 64];
    random::gen_salt_bytes(&mut buf).unwrap();
    assert!(buf.iter().any(|b| *b != 0));
    let mut none: [u8; 0] = [];
    assert_eq!(random::gen_salt_bytes(&mut none), Ok(()));
}

#[test]
fn varied_rounds_stay_in_range() {
    assert_eq!(random::vary_rounds_by(24680, 0), 24680);
    assert_eq!(random::vary_rounds_by(24680, 6169), 24680 - 6169);
    assert_eq!(random::vary_rounds_by(24680, 6170), 24680);
    assert_eq!(random::vary_rounds_by(4, 7), 4);
    assert_eq!(random::vary_rounds_by(8, 3), 7);
    assert_eq!(random::vary_rounds_by(u32::MAX, u32::MAX), u32::MAX - (u32::MAX % (u32::MAX / 4)));
    for _ in 0..20 {
        let n = random::vary_rounds(24680).unwrap();
        assert!(n <= 24680 && n > 24680 - 6170);
    }
}

#[test]
fn find_nul() {
    assert_eq!("pass\0word".nul_terminated_subslice(), b"pass");
    assert_eq!("password".nul_terminated_subslice(), b"password");
    assert_eq!("\0".nul_terminated_subslice(), b"");
    assert_eq!("".nul_terminated_subslice(), b"");
    let bytes: &[u8] = &[1, 2, 0, 3, 0];
    assert_eq!(bytes.nul_terminated_subslice(), &[1, 2]);
    let bytes: &[u8] = &[0xff, 0xfe];
    assert_eq!(bytes.nul_terminated_subslice(), &[0xff, 0xfe]);
}

#[test]
fn text_helpers() {
    assert_eq!(crypt3_rs::text::bytes_eq(b"abc", b"abc"), true);
    assert_eq!(crypt3_rs::text::bytes_eq(b"abc", b"abd"), false);
    assert_eq!(crypt3_rs::text::bytes_eq(b"abc", b"ab"), false);
    assert_eq!(crypt3_rs::text::bytes_eq(b"", b""), true);
    assert_eq!(crypt3_rs::text::ascii_string(b"abc".to_vec()), "abc");
    let mut v = b"ab".to_vec();
    crypt3_rs::text::append_bytes(&mut v, b"cd");
    assert_eq!(v, b"abcd".to_vec());
    assert_eq!(crypt3_rs::text::to_vec(b"xyz"), b"xyz".to_vec());
    assert_eq!(crypt3_rs::text::prefix_of(b"abc", 2), b"ab");
    assert_eq!(crypt3_rs::text::prefix_of(b"abc", 3), b"abc");
    assert_eq!(crypt3_rs::text::prefix_of(b"abc", 5), b"abc");
    assert_eq!(crypt3_rs::text::prefix_of(b"abc", 0), b"");
}
