//! The SHA-2 based transform of the `$5$` and `$6$` hashes.
use vstd::prelude::*;
use crate::encode::{
    all_in_alphabet, check_alphabet, encode_val, lemma_all_in_alphabet_concat,
    lemma_alphabet_is_ascii, lemma_decimal, lemma_val_digits, val_digits, write_decimal, decimal,
};
use crate::error::{Error, Result};
use crate::internal::digest::{sha256_digest, sha256_of, sha512_digest, sha512_of};
use crate::text::{
    append_bytes, append_cycled, cycled, is_ascii_bytes, lemma_ascii_concat, to_vec,
};

verus! {

/// The two digests of the family.
#[derive(Debug, Clone, Copy, PartialEq, Eq, Structural)]
pub enum Sha2 {
    /// SHA-256, of the `$5$` hash.
    Sha256,
    /// SHA-512, of the `$6$` hash.
    Sha512,
}

/// The number of rounds that is taken where none is given.
pub const SHA2_DEFAULT_ROUNDS: u32 = 5000;

/// The least number of rounds.
pub const SHA2_MIN_ROUNDS: u32 = 1000;

/// The greatest number of rounds.
pub const SHA2_MAX_ROUNDS: u32 = 999_999_999;

/// The greatest length of the salt.
pub const SHA2_MAX_SALT_LEN: usize = 16;

/// In which order the bytes of a SHA-256 digest are written, three at a
/// time; the last two bytes follow on their own.
pub const SHA256_ORDER: [u8; 30] = [
    0, 10, 20, 21, 1, 11, 12, 22, 2, 3, 13, 23, 24, 4, 14, 15, 25, 5, 6, 16, 26, 27, 7, 17, 18, 28,
    8, 9, 19, 29,
];

/// In which order the bytes of a SHA-512 digest are written, three at a
/// time; the last byte follows on its own.
pub const SHA512_ORDER: [u8; 63] = [
    0, 21, 42, 22, 43, 1, 44, 2, 23, 3, 24, 45, 25, 46, 4, 47, 5, 26, 6, 27, 48, 28, 49, 7, 50, 8,
    29, 9, 30, 51, 31, 52, 10, 53, 11, 32, 12, 33, 54, 34, 55, 13, 56, 14, 35, 15, 36, 57, 37, 58,
    16, 59, 17, 38, 18, 39, 60, 40, 61, 19, 62, 20, 41,
];

/// The digest of a message.
pub open spec fn sha2_of(v: Sha2, data: Seq<u8>) -> Seq<u8> {
    match v {
        Sha2::Sha256 => sha256_of(data),
        Sha2::Sha512 => sha512_of(data),
    }
}

/// The prefix of the format.
pub open spec fn sha2_magic(v: Sha2) -> Seq<u8> {
    match v {
        Sha2::Sha256 => seq![36u8, 53u8, 36u8],
        Sha2::Sha512 => seq![36u8, 54u8, 36u8],
    }
}

/// The length of the checksum.
pub open spec fn sha2_checksum_len(v: Sha2) -> nat {
    match v {
        Sha2::Sha256 => 43,
        Sha2::Sha512 => 86,
    }
}

/// Computes the digest of a message.
pub fn sha2_digest(v: Sha2, data: &[u8]) -> (out: Vec<u8>)
    ensures
        out@ == sha2_of(v, data@),
        out@.len() == (match v {
            Sha2::Sha256 => 32nat,
            Sha2::Sha512 => 64nat,
        }),
{
    match v {
        Sha2::Sha256 => {
            let d = sha256_digest(data);
            to_vec(d.as_slice())
        },
        Sha2::Sha512 => {
            let d = sha512_digest(data);
            to_vec(d.as_slice())
        },
    }
}

/// `s` written `n` times in a row.
pub open spec fn repeat_n(s: Seq<u8>, n: nat) -> Seq<u8>
    decreases n,
{
    if n == 0 {
        Seq::empty()
    } else {
        repeat_n(s, (n - 1) as nat) + s
    }
}

/// One piece for every binary digit of `i`, from the lowest digit: the
/// digest `b` for a one, the password for a zero.
pub open spec fn bits_mix(pw: Seq<u8>, b: Seq<u8>, i: nat) -> Seq<u8>
    decreases i,
{
    if i == 0 {
        Seq::empty()
    } else {
        (if i % 2 == 1 {
            b
        } else {
            pw
        }) + bits_mix(pw, b, i / 2)
    }
}

/// The first digest, of the password, the salt and a digest of both.
pub open spec fn sha2_first(v: Sha2, pw: Seq<u8>, salt: Seq<u8>) -> Seq<u8> {
    let b = sha2_of(v, pw + salt + pw);
    sha2_of(v, pw + salt + cycled(b, pw.len() as int) + bits_mix(pw, b, pw.len()))
}

/// The password piece of the rounds: as long as the password, made of the
/// digest of the password written as often as it is long.
pub open spec fn sha2_p(v: Sha2, pw: Seq<u8>) -> Seq<u8> {
    cycled(sha2_of(v, repeat_n(pw, pw.len())), pw.len() as int)
}

/// The salt piece of the rounds: as long as the salt, made of the digest of
/// the salt written sixteen times and once more for each unit of the first
/// byte of the first digest.
pub open spec fn sha2_s(v: Sha2, salt: Seq<u8>, first: Seq<u8>) -> Seq<u8> {
    cycled(sha2_of(v, repeat_n(salt, (16 + first[0]) as nat)), salt.len() as int)
}

/// The message of round `i`, made of the two pieces and the digest `prev`
/// of the round before.
pub open spec fn sha2_round_message(i: nat, p: Seq<u8>, s: Seq<u8>, prev: Seq<u8>) -> Seq<u8> {
    (if i % 2 == 1 {
        p
    } else {
        prev
    }) + (if i % 3 != 0 {
        s
    } else {
        Seq::empty()
    }) + (if i % 7 != 0 {
        p
    } else {
        Seq::empty()
    }) + (if i % 2 == 1 {
        prev
    } else {
        p
    })
}

/// The digest after `n` rounds.
#[verifier::opaque]
pub open spec fn sha2_rounds(v: Sha2, pw: Seq<u8>, salt: Seq<u8>, n: nat) -> Seq<u8>
    decreases n,
{
    if n == 0 {
        sha2_first(v, pw, salt)
    } else {
        sha2_of(
            v,
            sha2_round_message(
                (n - 1) as nat,
                sha2_p(v, pw),
                sha2_s(v, salt, sha2_first(v, pw, salt)),
                sha2_rounds(v, pw, salt, (n - 1) as nat),
            ),
        )
    }
}

/// The digits of the bytes of `d` that `order` names, three bytes to four
/// digits, the first byte of three the most significant.
pub open spec fn triples_text(d: Seq<u8>, order: Seq<u8>) -> Seq<u8>
    decreases order.len(),
{
    if order.len() < 3 {
        Seq::empty()
    } else {
        val_digits(
            (d[order[0] as int] as nat) * 65536 + (d[order[1] as int] as nat) * 256
                + d[order[2] as int] as nat,
            4,
        ) + triples_text(d, order.subrange(3, order.len() as int))
    }
}

/// The characters of the checksum of a digest.
pub open spec fn sha2_checksum(v: Sha2, d: Seq<u8>) -> Seq<u8> {
    match v {
        Sha2::Sha256 => triples_text(d, SHA256_ORDER@) + val_digits(
            (d[31] as nat) * 256 + d[30] as nat,
            3,
        ),
        Sha2::Sha512 => triples_text(d, SHA512_ORDER@) + val_digits(d[63] as nat, 2),
    }
}

/// The rounds field of the hash: `rounds=`, the number and a `$` where the
/// rounds were given, nothing where they were not.
pub open spec fn rounds_field(rounds: Option<u32>) -> Seq<u8> {
    match rounds {
        Some(n) => seq![114u8, 111u8, 117u8, 110u8, 100u8, 115u8, 61u8] + decimal(n as nat)
            + seq![36u8],
        None => Seq::empty(),
    }
}

/// The number of rounds that is run.
pub open spec fn sha2_rounds_of(rounds: Option<u32>) -> u32 {
    match rounds {
        Some(n) => n,
        None => SHA2_DEFAULT_ROUNDS,
    }
}

/// The checksum of a password under a salt: the characters of the digest
/// after `rounds` rounds.
#[verifier::opaque]
pub open spec fn sha2_sum(v: Sha2, pw: Seq<u8>, salt: Seq<u8>, rounds: u32) -> Seq<u8> {
    sha2_checksum(v, sha2_rounds(v, pw, salt, rounds as nat))
}

/// The hash of a password under a salt: the prefix, the rounds where they
/// were given, the salt, a `$` and the checksum.
pub open spec fn sha2_hash(v: Sha2, pw: Seq<u8>, salt: Seq<u8>, rounds: Option<u32>) -> Seq<u8> {
    sha2_magic(v) + rounds_field(rounds) + salt + seq![36u8] + sha2_sum(
        v,
        pw,
        salt,
        sha2_rounds_of(rounds),
    )
}

/// What `sha2_crypt` returns: the hash; or the error of rounds outside
/// their range, of a salt of more than sixteen bytes, or of a salt with a
/// byte outside the alphabet.
pub open spec fn sha2_crypt_spec(v: Sha2, pw: Seq<u8>, salt: Seq<u8>, rounds: Option<u32>) -> Result<
    Seq<u8>,
> {
    if sha2_rounds_of(rounds) < SHA2_MIN_ROUNDS || sha2_rounds_of(rounds) > SHA2_MAX_ROUNDS {
        Err(Error::InvalidRounds)
    } else if salt.len() > SHA2_MAX_SALT_LEN {
        Err(Error::InvalidHashString)
    } else if !all_in_alphabet(salt) {
        Err(Error::EncodingError)
    } else {
        Ok(sha2_hash(v, pw, salt, rounds))
    }
}

/// Writes `s` `n` times in a row.
pub fn repeat_of(s: &[u8], n: usize) -> (out: Vec<u8>)
    ensures
        out@ == repeat_n(s@, n as nat),
{
    let mut out: Vec<u8> = Vec::new();
    let mut i: usize = 0;
    while i < n
        invariant
            i <= n,
            out@ == repeat_n(s@, i as nat),
        decreases n - i,
    {
        append_bytes(&mut out, s);
        i += 1;
    }
    out
}

/// Builds the message of the first digest.
pub fn first_message_of(pw: &[u8], salt: &[u8], b: &[u8]) -> (m: Vec<u8>)
    requires
        b@.len() > 0,
    ensures
        m@ == pw@ + salt@ + cycled(b@, pw@.len() as int) + bits_mix(pw@, b@, pw@.len()),
{
    let mut m: Vec<u8> = Vec::new();
    append_bytes(&mut m, pw);
    append_bytes(&mut m, salt);
    append_cycled(&mut m, b, pw.len());
    let ghost head = m@;
    assert(head =~= pw@ + salt@ + cycled(b@, pw@.len() as int));
    let mut i: usize = pw.len();
    proof {
        assert(m@ + bits_mix(pw@, b@, i as nat) =~= head + bits_mix(pw@, b@, pw@.len()));
    }
    while i > 0
        invariant
            i <= pw@.len(),
            m@ + bits_mix(pw@, b@, i as nat) == head + bits_mix(pw@, b@, pw@.len()),
        decreases i,
    {
        let ghost before = m@;
        if i % 2 == 1 {
            append_bytes(&mut m, b);
        } else {
            append_bytes(&mut m, pw);
        }
        proof {
            assert(before + bits_mix(pw@, b@, i as nat) =~= m@ + bits_mix(pw@, b@, (i / 2) as nat));
        }
        i = i / 2;
    }
    proof {
        assert(m@ + Seq::<u8>::empty() =~= m@);
    }
    m
}

/// Builds the message of round `i`.
pub fn sha2_round_message_of(i: u32, p: &[u8], s: &[u8], prev: &[u8]) -> (m: Vec<u8>)
    ensures
        m@ == sha2_round_message(i as nat, p@, s@, prev@),
{
    let mut m: Vec<u8> = Vec::new();
    if i % 2 == 1 {
        append_bytes(&mut m, p);
    } else {
        append_bytes(&mut m, prev);
    }
    if i % 3 != 0 {
        append_bytes(&mut m, s);
    }
    if i % 7 != 0 {
        append_bytes(&mut m, p);
    }
    if i % 2 == 1 {
        append_bytes(&mut m, prev);
    } else {
        append_bytes(&mut m, p);
    }
    assert(m@ =~= sha2_round_message(i as nat, p@, s@, prev@));
    m
}

/// The digits of three bytes at a time are over the alphabet, four for
/// every three bytes named.
pub proof fn lemma_triples_text(d: Seq<u8>, order: Seq<u8>)
    ensures
        triples_text(d, order).len() == order.len() / 3 * 4,
        all_in_alphabet(triples_text(d, order)),
    decreases order.len(),
{
    if order.len() >= 3 {
        let rest = order.subrange(3, order.len() as int);
        lemma_triples_text(d, rest);
        let w = (d[order[0] as int] as nat) * 65536 + (d[order[1] as int] as nat) * 256
            + d[order[2] as int] as nat;
        lemma_val_digits(w, 4);
        lemma_all_in_alphabet_concat(val_digits(w, 4), triples_text(d, rest));
    }
}

/// Writes the digits of the bytes of `d` that `order` names.
pub fn triples_text_of<const N: usize>(d: &[u8], order: &[u8; N]) -> (out: Vec<u8>)
    requires
        forall|i: int| 0 <= i < N ==> (#[trigger] order@[i]) < d@.len(),
    ensures
        out@ == triples_text(d@, order@),
{
    let mut out: Vec<u8> = Vec::new();
    let mut i: usize = 0;
    proof {
        assert(order@.subrange(0, N as int) =~= order@);
    }
    while N - i >= 3
        invariant
            i <= N,
            N == order@.len(),
            forall|k: int| 0 <= k < N ==> (#[trigger] order@[k]) < d@.len(),
            out@ + triples_text(d@, order@.subrange(i as int, N as int)) == triples_text(
                d@,
                order@,
            ),
        decreases N - i,
    {
        let ghost rest = order@.subrange(i as int, N as int);
        let ghost before = out@;
        let a = d[order[i] as usize];
        let b = d[order[i + 1] as usize];
        let c = d[order[i + 2] as usize];
        let w: u32 = (a as u32) * 65536 + (b as u32) * 256 + c as u32;
        let digits = encode_val(w, 4);
        append_bytes(&mut out, digits.as_slice());
        proof {
            assert(rest.subrange(3, rest.len() as int) =~= order@.subrange(i + 3, N as int));
            assert(rest[0] == order@[i as int]);
            assert(rest[1] == order@[i + 1]);
            assert(rest[2] == order@[i + 2]);
            assert(out@ + triples_text(d@, order@.subrange(i + 3, N as int)) =~= before
                + triples_text(d@, rest));
        }
        i += 3;
    }
    proof {
        assert(out@ + Seq::<u8>::empty() =~= out@);
    }
    out
}

/// The checksum is over the alphabet and has the length of the format.
pub proof fn lemma_sha2_checksum(v: Sha2, d: Seq<u8>)
    ensures
        sha2_checksum(v, d).len() == sha2_checksum_len(v),
        all_in_alphabet(sha2_checksum(v, d)),
{
    match v {
        Sha2::Sha256 => {
            lemma_triples_text(d, SHA256_ORDER@);
            lemma_val_digits((d[31] as nat) * 256 + d[30] as nat, 3);
            lemma_all_in_alphabet_concat(
                triples_text(d, SHA256_ORDER@),
                val_digits((d[31] as nat) * 256 + d[30] as nat, 3),
            );
        },
        Sha2::Sha512 => {
            lemma_triples_text(d, SHA512_ORDER@);
            lemma_val_digits(d[63] as nat, 2);
            lemma_all_in_alphabet_concat(
                triples_text(d, SHA512_ORDER@),
                val_digits(d[63] as nat, 2),
            );
        },
    }
}

/// The checksum of a password is over the alphabet and has the length of
/// the format.
pub proof fn lemma_sha2_sum(v: Sha2, pw: Seq<u8>, salt: Seq<u8>, rounds: u32)
    ensures
        sha2_sum(v, pw, salt, rounds).len() == sha2_checksum_len(v),
        all_in_alphabet(sha2_sum(v, pw, salt, rounds)),
{
    reveal(sha2_sum);
    lemma_sha2_checksum(v, sha2_rounds(v, pw, salt, rounds as nat));
}

/// Writes the characters of the checksum of a digest.
pub fn sha2_checksum_of(v: Sha2, d: &[u8]) -> (out: Vec<u8>)
    requires
        d@.len() == (match v {
            Sha2::Sha256 => 32nat,
            Sha2::Sha512 => 64nat,
        }),
    ensures
        out@ == sha2_checksum(v, d@),
        all_in_alphabet(out@),
{
    proof {
        lemma_sha2_checksum(v, d@);
    }
    match v {
        Sha2::Sha256 => {
            assert(forall|i: int| 0 <= i < 30 ==> (#[trigger] SHA256_ORDER@[i]) < 32);
            let mut out = triples_text_of(d, &SHA256_ORDER);
            let last = encode_val((d[31] as u32) * 256 + d[30] as u32, 3);
            append_bytes(&mut out, last.as_slice());
            out
        },
        Sha2::Sha512 => {
            assert(forall|i: int| 0 <= i < 63 ==> (#[trigger] SHA512_ORDER@[i]) < 64);
            let mut out = triples_text_of(d, &SHA512_ORDER);
            let last = encode_val(d[63] as u32, 2);
            append_bytes(&mut out, last.as_slice());
            out
        },
    }
}

/// The prefix of the format.
pub fn sha2_magic_of(v: Sha2) -> (m: Vec<u8>)
    ensures
        m@ == sha2_magic(v),
        is_ascii_bytes(m@),
{
    let mut m: Vec<u8> = Vec::new();
    m.push(36u8);
    match v {
        Sha2::Sha256 => m.push(53u8),
        Sha2::Sha512 => m.push(54u8),
    }
    m.push(36u8);
    assert(m@ =~= sha2_magic(v));
    m
}

/// Appends the rounds field.
pub fn append_rounds_field(out: &mut Vec<u8>, rounds: Option<u32>)
    ensures
        final(out)@ == old(out)@ + rounds_field(rounds),
        is_ascii_bytes(rounds_field(rounds)),
{
    match rounds {
        Some(n) => {
            let word = [114u8, 111u8, 117u8, 110u8, 100u8, 115u8, 61u8];
            append_bytes(out, word.as_slice());
            write_decimal(out, n);
            out.push(36u8);
            proof {
                lemma_decimal(n as nat);
                assert(word@ =~= seq![114u8, 111u8, 117u8, 110u8, 100u8, 115u8, 61u8]);
                assert(out@ =~= old(out)@ + rounds_field(rounds));
                lemma_ascii_concat(word@, decimal(n as nat));
                lemma_ascii_concat(word@ + decimal(n as nat), seq![36u8]);
            }
        },
        None => {
            proof {
                assert(out@ =~= old(out)@ + rounds_field(rounds));
            }
        },
    }
}

/// Hashes a password under a salt of at most sixteen characters of the
/// alphabet. Rounds that are given are written into the hash; where none
/// are given, 5000 are run and the hash does not name them.
pub fn sha2_crypt(v: Sha2, pass: &[u8], salt: &[u8], rounds: Option<u32>) -> (r: Result<Vec<u8>>)
    ensures
        match sha2_crypt_spec(v, pass@, salt@, rounds) {
            Ok(h) => r is Ok && r.unwrap()@ == h,
            Err(e) => r == Err::<Vec<u8>, Error>(e),
        },
        r is Ok ==> is_ascii_bytes(r.unwrap()@),
{
    let n: u32 = match rounds {
        Some(n) => n,
        None => SHA2_DEFAULT_ROUNDS,
    };
    if n < SHA2_MIN_ROUNDS || n > SHA2_MAX_ROUNDS {
        return Err(Error::InvalidRounds);
    }
    if salt.len() > SHA2_MAX_SALT_LEN {
        return Err(Error::InvalidHashString);
    }
    if !check_alphabet(salt) {
        return Err(Error::EncodingError);
    }
    let mut buf: Vec<u8> = Vec::new();
    append_bytes(&mut buf, pass);
    append_bytes(&mut buf, salt);
    append_bytes(&mut buf, pass);
    assert(buf@ =~= pass@ + salt@ + pass@);
    let b = sha2_digest(v, buf.as_slice());
    let first_msg = first_message_of(pass, salt, b.as_slice());
    let first = sha2_digest(v, first_msg.as_slice());
    let dp = sha2_digest(v, repeat_of(pass, pass.len()).as_slice());
    let mut p: Vec<u8> = Vec::new();
    append_cycled(&mut p, dp.as_slice(), pass.len());
    assert(p@ =~= sha2_p(v, pass@));
    let ds = sha2_digest(v, repeat_of(salt, 16 + first[0] as usize).as_slice());
    let mut s: Vec<u8> = Vec::new();
    append_cycled(&mut s, ds.as_slice(), salt.len());
    assert(s@ =~= sha2_s(v, salt@, first@));
    let mut c = first;
    let mut i: u32 = 0;
    proof {
        reveal_with_fuel(sha2_rounds, 2);
    }
    while i < n
        invariant
            i <= n,
            p@ == sha2_p(v, pass@),
            s@ == sha2_s(v, salt@, sha2_first(v, pass@, salt@)),
            c@ == sha2_rounds(v, pass@, salt@, i as nat),
            c@.len() == (match v {
                Sha2::Sha256 => 32nat,
                Sha2::Sha512 => 64nat,
            }),
        decreases n - i,
    {
        let m = sha2_round_message_of(i, p.as_slice(), s.as_slice(), c.as_slice());
        c = sha2_digest(v, m.as_slice());
        proof {
            reveal_with_fuel(sha2_rounds, 2);
        }
        i += 1;
    }
    let sum = sha2_checksum_of(v, c.as_slice());
    let mut out = sha2_magic_of(v);
    append_rounds_field(&mut out, rounds);
    append_bytes(&mut out, salt);
    out.push(36u8);
    append_bytes(&mut out, sum.as_slice());
    proof {
        reveal(sha2_sum);
        assert(out@ =~= sha2_hash(v, pass@, salt@, rounds));
        lemma_alphabet_is_ascii(salt@);
        lemma_alphabet_is_ascii(sum@);
        lemma_ascii_concat(sha2_magic(v), rounds_field(rounds));
        lemma_ascii_concat(sha2_magic(v) + rounds_field(rounds), salt@);
        lemma_ascii_concat(sha2_magic(v) + rounds_field(rounds) + salt@, seq![36u8]);
        lemma_ascii_concat(sha2_magic(v) + rounds_field(rounds) + salt@ + seq![36u8], sum@);
    }
    Ok(out)
}

} // verus!
