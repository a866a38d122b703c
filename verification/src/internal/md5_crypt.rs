//! The MD5-based transform of the `$1$` and `$apr1$` hashes.
use vstd::prelude::*;
use crate::encode::{
    all_in_alphabet, check_alphabet, encode_val, lemma_alphabet_is_ascii, lemma_val_digits,
    val_digits,
};
use crate::error::{Error, Result};
use crate::internal::digest::{md5_digest, md5_of};
use crate::text::{append_bytes, append_cycled, cycled, is_ascii_bytes, lemma_ascii_concat};

verus! {

/// How often the digest is applied after the first time.
pub const MD5_ROUNDS: u32 = 1000;

/// One byte for every binary digit of `i`, from the lowest digit: a zero
/// byte for a one, the first byte of the password for a zero.
pub open spec fn bits_fill(pw: Seq<u8>, i: nat) -> Seq<u8>
    decreases i,
{
    if i == 0 {
        Seq::empty()
    } else {
        seq![
            if i % 2 == 1 {
                0u8
            } else {
                pw[0]
            },
        ] + bits_fill(pw, i / 2)
    }
}

/// The message of the first digest.
pub open spec fn first_message(pw: Seq<u8>, salt: Seq<u8>, magic: Seq<u8>) -> Seq<u8> {
    let alt = md5_of(pw + salt + pw);
    pw + magic + salt + cycled(alt, pw.len() as int) + bits_fill(pw, pw.len())
}

/// The message of round `i` of the rounds after the first digest, made of
/// the password, the salt and the digest `prev` of the round before.
pub open spec fn round_message(i: nat, pw: Seq<u8>, salt: Seq<u8>, prev: Seq<u8>) -> Seq<u8> {
    (if i % 2 == 1 {
        pw
    } else {
        prev
    }) + (if i % 3 != 0 {
        salt
    } else {
        Seq::empty()
    }) + (if i % 7 != 0 {
        pw
    } else {
        Seq::empty()
    }) + (if i % 2 == 1 {
        prev
    } else {
        pw
    })
}

/// The digest after `n` rounds.
#[verifier::opaque]
pub open spec fn md5_rounds(pw: Seq<u8>, salt: Seq<u8>, magic: Seq<u8>, n: nat) -> Seq<u8>
    decreases n,
{
    if n == 0 {
        md5_of(first_message(pw, salt, magic))
    } else {
        md5_of(
            round_message((n - 1) as nat, pw, salt, md5_rounds(pw, salt, magic, (n - 1) as nat)),
        )
    }
}

/// The number made of three bytes of the digest, the first the most
/// significant.
pub open spec fn triple(d: Seq<u8>, a: int, b: int, c: int) -> nat {
    (d[a] as nat) * 65536 + (d[b] as nat) * 256 + d[c] as nat
}

/// The 22 characters of the checksum of the sixteen bytes `d`.
pub open spec fn md5_checksum(d: Seq<u8>) -> Seq<u8> {
    val_digits(triple(d, 0, 6, 12), 4) + val_digits(triple(d, 1, 7, 13), 4) + val_digits(
        triple(d, 2, 8, 14),
        4,
    ) + val_digits(triple(d, 3, 9, 15), 4) + val_digits(triple(d, 4, 10, 5), 4) + val_digits(
        d[11] as nat,
        2,
    )
}

/// The checksum of a password under a salt: the 22 characters of the
/// digest after all the rounds.
#[verifier::opaque]
pub open spec fn md5_sum(pw: Seq<u8>, salt: Seq<u8>, magic: Seq<u8>) -> Seq<u8> {
    md5_checksum(md5_rounds(pw, salt, magic, MD5_ROUNDS as nat))
}

/// The checksum of a password has 22 characters of the alphabet.
pub proof fn lemma_md5_sum(pw: Seq<u8>, salt: Seq<u8>, magic: Seq<u8>)
    ensures
        md5_sum(pw, salt, magic).len() == 22,
        all_in_alphabet(md5_sum(pw, salt, magic)),
{
    reveal(md5_sum);
    lemma_md5_checksum(md5_rounds(pw, salt, magic, MD5_ROUNDS as nat));
}

/// The hash of a password under a salt over the alphabet: the magic
/// prefix, the salt, a `$` and the checksum.
pub open spec fn md5_hash(pw: Seq<u8>, salt: Seq<u8>, magic: Seq<u8>) -> Seq<u8> {
    magic + salt + seq![36u8] + md5_sum(pw, salt, magic)
}

/// What `md5_crypt` returns: the hash, or an encoding error where the salt
/// holds a byte outside the alphabet.
pub open spec fn md5_crypt_spec(pw: Seq<u8>, salt: Seq<u8>, magic: Seq<u8>) -> Result<Seq<u8>> {
    if all_in_alphabet(salt) {
        Ok(md5_hash(pw, salt, magic))
    } else {
        Err(Error::EncodingError)
    }
}

/// Builds the message of the first digest.
pub fn first_message_of(pw: &[u8], salt: &[u8], magic: &[u8], alt: &[u8; 16]) -> (m: Vec<u8>)
    ensures
        m@ == pw@ + magic@ + salt@ + cycled(alt@, pw@.len() as int) + bits_fill(pw@, pw@.len()),
{
    let mut m: Vec<u8> = Vec::new();
    append_bytes(&mut m, pw);
    append_bytes(&mut m, magic);
    append_bytes(&mut m, salt);
    append_cycled(&mut m, alt.as_slice(), pw.len());
    assert(m@ =~= pw@ + magic@ + salt@ + cycled(alt@, pw@.len() as int));
    let ghost head2 = m@;
    let mut i: usize = pw.len();
    proof {
        assert(m@ + bits_fill(pw@, i as nat) =~= head2 + bits_fill(pw@, pw@.len()));
    }
    while i > 0
        invariant
            i <= pw@.len(),
            m@ + bits_fill(pw@, i as nat) == head2 + bits_fill(pw@, pw@.len()),
        decreases i,
    {
        let ghost before = m@;
        if i % 2 == 1 {
            m.push(0u8);
        } else {
            m.push(pw[0]);
        }
        proof {
            assert(before + bits_fill(pw@, i as nat) =~= m@ + bits_fill(pw@, (i / 2) as nat));
        }
        i = i / 2;
    }
    proof {
        assert(m@ + Seq::<u8>::empty() =~= m@);
    }
    m
}

/// Builds the message of round `i`.
pub fn round_message_of(i: u32, pw: &[u8], salt: &[u8], prev: &[u8; 16]) -> (m: Vec<u8>)
    ensures
        m@ == round_message(i as nat, pw@, salt@, prev@),
{
    let mut m: Vec<u8> = Vec::new();
    if i % 2 == 1 {
        append_bytes(&mut m, pw);
    } else {
        append_bytes(&mut m, prev.as_slice());
    }
    if i % 3 != 0 {
        append_bytes(&mut m, salt);
    }
    if i % 7 != 0 {
        append_bytes(&mut m, pw);
    }
    if i % 2 == 1 {
        append_bytes(&mut m, prev.as_slice());
    } else {
        append_bytes(&mut m, pw);
    }
    assert(m@ =~= round_message(i as nat, pw@, salt@, prev@));
    m
}

/// Writes the four digits of three bytes of the digest.
fn push_triple(out: &mut Vec<u8>, d: &[u8; 16], a: usize, b: usize, c: usize)
    requires
        a < 16,
        b < 16,
        c < 16,
    ensures
        final(out)@ == old(out)@ + val_digits(triple(d@, a as int, b as int, c as int), 4),
{
    let v: u32 = (d[a] as u32) * 65536 + (d[b] as u32) * 256 + d[c] as u32;
    let digits = encode_val(v, 4);
    append_bytes(out, digits.as_slice());
}

/// Writes the 22 characters of the checksum of a digest.
pub fn md5_checksum_of(d: &[u8; 16]) -> (out: Vec<u8>)
    ensures
        out@ == md5_checksum(d@),
        out@.len() == 22,
        all_in_alphabet(out@),
{
    let mut out: Vec<u8> = Vec::new();
    push_triple(&mut out, d, 0, 6, 12);
    push_triple(&mut out, d, 1, 7, 13);
    push_triple(&mut out, d, 2, 8, 14);
    push_triple(&mut out, d, 3, 9, 15);
    push_triple(&mut out, d, 4, 10, 5);
    let last = encode_val(d[11] as u32, 2);
    append_bytes(&mut out, last.as_slice());
    proof {
        lemma_md5_checksum(d@);
        assert(out@ =~= md5_checksum(d@));
    }
    out
}

/// The checksum has 22 characters of the alphabet.
pub proof fn lemma_md5_checksum(d: Seq<u8>)
    ensures
        md5_checksum(d).len() == 22,
        all_in_alphabet(md5_checksum(d)),
{
    lemma_val_digits(triple(d, 0, 6, 12), 4);
    lemma_val_digits(triple(d, 1, 7, 13), 4);
    lemma_val_digits(triple(d, 2, 8, 14), 4);
    lemma_val_digits(triple(d, 3, 9, 15), 4);
    lemma_val_digits(triple(d, 4, 10, 5), 4);
    lemma_val_digits(d[11] as nat, 2);
    crate::encode::lemma_all_in_alphabet_concat(
        val_digits(triple(d, 0, 6, 12), 4),
        val_digits(triple(d, 1, 7, 13), 4),
    );
    let s2 = val_digits(triple(d, 0, 6, 12), 4) + val_digits(triple(d, 1, 7, 13), 4);
    crate::encode::lemma_all_in_alphabet_concat(s2, val_digits(triple(d, 2, 8, 14), 4));
    let s3 = s2 + val_digits(triple(d, 2, 8, 14), 4);
    crate::encode::lemma_all_in_alphabet_concat(s3, val_digits(triple(d, 3, 9, 15), 4));
    let s4 = s3 + val_digits(triple(d, 3, 9, 15), 4);
    crate::encode::lemma_all_in_alphabet_concat(s4, val_digits(triple(d, 4, 10, 5), 4));
    let s5 = s4 + val_digits(triple(d, 4, 10, 5), 4);
    crate::encode::lemma_all_in_alphabet_concat(s5, val_digits(d[11] as nat, 2));
}

/// Hashes a password under a salt; `magic` is the prefix of the format.
/// The salt is taken as it is, whatever its length.
pub fn md5_crypt(pass: &[u8], salt: &[u8], magic: &[u8]) -> (r: Result<Vec<u8>>)
    ensures
        match md5_crypt_spec(pass@, salt@, magic@) {
            Ok(h) => r is Ok && r.unwrap()@ == h,
            Err(e) => r == Err::<Vec<u8>, Error>(e),
        },
        r is Ok && is_ascii_bytes(magic@) ==> is_ascii_bytes(r.unwrap()@),
{
    if !check_alphabet(salt) {
        return Err(Error::EncodingError);
    }
    let mut buf: Vec<u8> = Vec::new();
    append_bytes(&mut buf, pass);
    append_bytes(&mut buf, salt);
    append_bytes(&mut buf, pass);
    assert(buf@ =~= pass@ + salt@ + pass@);
    let alt = md5_digest(buf.as_slice());
    let first = first_message_of(pass, salt, magic, &alt);
    let mut d = md5_digest(first.as_slice());
    let mut i: u32 = 0;
    proof {
        reveal_with_fuel(md5_rounds, 2);
    }
    while i < MD5_ROUNDS
        invariant
            i <= MD5_ROUNDS,
            d@ == md5_rounds(pass@, salt@, magic@, i as nat),
        decreases MD5_ROUNDS - i,
    {
        let m = round_message_of(i, pass, salt, &d);
        d = md5_digest(m.as_slice());
        proof {
            reveal_with_fuel(md5_rounds, 2);
        }
        i += 1;
    }
    let sum = md5_checksum_of(&d);
    let mut out: Vec<u8> = Vec::new();
    append_bytes(&mut out, magic);
    append_bytes(&mut out, salt);
    out.push(36u8);
    append_bytes(&mut out, sum.as_slice());
    proof {
        reveal(md5_sum);
        assert(out@ =~= md5_hash(pass@, salt@, magic@));
        lemma_alphabet_is_ascii(salt@);
        lemma_alphabet_is_ascii(sum@);
        if is_ascii_bytes(magic@) {
            lemma_ascii_concat(magic@, salt@);
            lemma_ascii_concat(magic@ + salt@, seq![36u8]);
            lemma_ascii_concat(magic@ + salt@ + seq![36u8], sum@);
        }
    }
    Ok(out)
}

} // verus!
