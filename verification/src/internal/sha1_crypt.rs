//! The HMAC-SHA1 based transform of the `$sha1$` hash.
use vstd::prelude::*;
use crate::encode::{
    all_in_alphabet, check_alphabet, decimal, lemma_alphabet_is_ascii, lemma_decimal,
    write_decimal,
};
use crate::error::{Error, Result};
use crate::internal::digest::{sha1_digest, sha1_of};
use crate::internal::sha2_crypt::{lemma_triples_text, triples_text, triples_text_of};
use crate::text::{append_bytes, is_ascii_bytes, lemma_ascii_concat, to_vec};

verus! {

/// The prefix of the format, `$sha1$`.
pub const SHA1_MAGIC: [u8; 6] = [36, 115, 104, 97, 49, 36];

/// The number of rounds below which, and not far, the rounds are drawn
/// where none are given.
pub const SHA1_DEFAULT_ROUNDS: u32 = 24680;

/// The greatest length of the salt.
pub const SHA1_MAX_SALT_LEN: usize = 64;

/// The length of the salt that is drawn where none is given.
pub const SHA1_SALT_LEN: usize = 8;

/// In which order the bytes of the digest are written, three at a time; the
/// first byte closes the last three.
pub const SHA1_ORDER: [u8; 21] = [
    0, 1, 2, 3, 4, 5, 6, 7, 8, 9, 10, 11, 12, 13, 14, 15, 16, 17, 18, 19, 0,
];

/// The key of the code as a block of 64 bytes: the key, or its digest where
/// it is longer than a block, with zero bytes behind.
pub open spec fn hmac_block(key: Seq<u8>) -> Seq<u8> {
    let k = if key.len() > 64 {
        sha1_of(key)
    } else {
        key
    };
    Seq::new(
        64,
        |i: int|
            if i < k.len() {
                k[i]
            } else {
                0u8
            },
    )
}

/// Every byte of the block combined with `pad` by exclusive or.
pub open spec fn xor_pad(block: Seq<u8>, pad: u8) -> Seq<u8> {
    Seq::new(block.len(), |i: int| block[i] ^ pad)
}

/// The message authentication code HMAC-SHA1 of `msg` under `key`.
pub open spec fn hmac_sha1(key: Seq<u8>, msg: Seq<u8>) -> Seq<u8> {
    sha1_of(xor_pad(hmac_block(key), 0x5c) + sha1_of(xor_pad(hmac_block(key), 0x36) + msg))
}

/// The message of the first code: the salt, the prefix and the rounds.
pub open spec fn sha1_first_message(salt: Seq<u8>, rounds: u32) -> Seq<u8> {
    salt + SHA1_MAGIC@ + decimal(rounds as nat)
}

/// The code after `n` further rounds: each is the code of the one before.
#[verifier::opaque]
pub open spec fn sha1_rounds(pw: Seq<u8>, salt: Seq<u8>, rounds: u32, n: nat) -> Seq<u8>
    decreases n,
{
    if n == 0 {
        hmac_sha1(pw, sha1_first_message(salt, rounds))
    } else {
        hmac_sha1(pw, sha1_rounds(pw, salt, rounds, (n - 1) as nat))
    }
}

/// The 28 characters of the checksum of a code.
pub open spec fn sha1_checksum(d: Seq<u8>) -> Seq<u8> {
    triples_text(d, SHA1_ORDER@)
}

/// The checksum of a password under a salt: the 28 characters of the code
/// after all the rounds.
#[verifier::opaque]
pub open spec fn sha1_sum(pw: Seq<u8>, salt: Seq<u8>, rounds: u32) -> Seq<u8> {
    sha1_checksum(sha1_rounds(pw, salt, rounds, (rounds - 1) as nat))
}

/// The hash of a password: the prefix, the rounds, a `$`, the salt, a `$`
/// and the checksum.
pub open spec fn sha1_hash(pw: Seq<u8>, salt: Seq<u8>, rounds: u32) -> Seq<u8> {
    SHA1_MAGIC@ + decimal(rounds as nat) + seq![36u8] + salt + seq![36u8] + sha1_sum(
        pw,
        salt,
        rounds,
    )
}

/// What `sha1_crypt` returns: the hash; or the error of no rounds at all,
/// of a salt of more than 64 bytes, or of a salt with a byte outside the
/// alphabet.
pub open spec fn sha1_crypt_spec(pw: Seq<u8>, salt: Seq<u8>, rounds: u32) -> Result<Seq<u8>> {
    if rounds == 0 {
        Err(Error::InvalidRounds)
    } else if salt.len() > SHA1_MAX_SALT_LEN {
        Err(Error::InvalidHashString)
    } else if !all_in_alphabet(salt) {
        Err(Error::EncodingError)
    } else {
        Ok(sha1_hash(pw, salt, rounds))
    }
}

/// Makes the block of the key.
pub fn hmac_block_of(key: &[u8]) -> (block: Vec<u8>)
    ensures
        block@ == hmac_block(key@),
{
    let k: Vec<u8> = if key.len() > 64 {
        let d = sha1_digest(key);
        to_vec(d.as_slice())
    } else {
        to_vec(key)
    };
    let mut block: Vec<u8> = Vec::new();
    let mut i: usize = 0;
    while i < 64
        invariant
            i <= 64,
            block@.len() == i,
            k@ == (if key@.len() > 64 {
                sha1_of(key@)
            } else {
                key@
            }),
            forall|j: int| 0 <= j < i ==> block@[j] == hmac_block(key@)[j],
        decreases 64 - i,
    {
        if i < k.len() {
            block.push(k[i]);
        } else {
            block.push(0u8);
        }
        i += 1;
    }
    assert(block@ =~= hmac_block(key@));
    block
}

/// Combines every byte of the block with `pad`.
pub fn xor_pad_of(block: &[u8], pad: u8) -> (out: Vec<u8>)
    ensures
        out@ == xor_pad(block@, pad),
{
    let mut out: Vec<u8> = Vec::new();
    let mut i: usize = 0;
    while i < block.len()
        invariant
            i <= block.len(),
            out@.len() == i,
            forall|j: int| 0 <= j < i ==> out@[j] == block@[j] ^ pad,
        decreases block.len() - i,
    {
        out.push(block[i] ^ pad);
        i += 1;
    }
    assert(out@ =~= xor_pad(block@, pad));
    out
}

/// Computes the code of `msg` under the key whose two padded blocks are
/// given.
pub fn hmac_with(inner_pad: &[u8], outer_pad: &[u8], msg: &[u8]) -> (out: [u8; 20])
    ensures
        out@ == sha1_of(outer_pad@ + sha1_of(inner_pad@ + msg@)),
{
    let mut inner: Vec<u8> = Vec::new();
    append_bytes(&mut inner, inner_pad);
    append_bytes(&mut inner, msg);
    assert(inner@ =~= inner_pad@ + msg@);
    let d = sha1_digest(inner.as_slice());
    let mut outer: Vec<u8> = Vec::new();
    append_bytes(&mut outer, outer_pad);
    append_bytes(&mut outer, d.as_slice());
    assert(outer@ =~= outer_pad@ + d@);
    sha1_digest(outer.as_slice())
}

/// The checksum has 28 characters of the alphabet.
pub proof fn lemma_sha1_checksum(d: Seq<u8>)
    ensures
        sha1_checksum(d).len() == 28,
        all_in_alphabet(sha1_checksum(d)),
{
    lemma_triples_text(d, SHA1_ORDER@);
}

/// The checksum of a password has 28 characters of the alphabet.
pub proof fn lemma_sha1_sum(pw: Seq<u8>, salt: Seq<u8>, rounds: u32)
    ensures
        sha1_sum(pw, salt, rounds).len() == 28,
        all_in_alphabet(sha1_sum(pw, salt, rounds)),
{
    reveal(sha1_sum);
    lemma_sha1_checksum(sha1_rounds(pw, salt, rounds, (rounds - 1) as nat));
}

/// Hashes a password with `rounds` rounds under a salt of at most 64
/// characters of the alphabet.
pub fn sha1_crypt(pass: &[u8], salt: &[u8], rounds: u32) -> (r: Result<Vec<u8>>)
    ensures
        match sha1_crypt_spec(pass@, salt@, rounds) {
            Ok(h) => r is Ok && r.unwrap()@ == h,
            Err(e) => r == Err::<Vec<u8>, Error>(e),
        },
        r is Ok ==> is_ascii_bytes(r.unwrap()@),
{
    if rounds == 0 {
        return Err(Error::InvalidRounds);
    }
    if salt.len() > SHA1_MAX_SALT_LEN {
        return Err(Error::InvalidHashString);
    }
    if !check_alphabet(salt) {
        return Err(Error::EncodingError);
    }
    let block = hmac_block_of(pass);
    let inner_pad = xor_pad_of(block.as_slice(), 0x36);
    let outer_pad = xor_pad_of(block.as_slice(), 0x5c);
    let mut msg: Vec<u8> = Vec::new();
    append_bytes(&mut msg, salt);
    append_bytes(&mut msg, SHA1_MAGIC.as_slice());
    write_decimal(&mut msg, rounds);
    assert(msg@ =~= sha1_first_message(salt@, rounds));
    let mut d = hmac_with(inner_pad.as_slice(), outer_pad.as_slice(), msg.as_slice());
    let mut i: u32 = 1;
    proof {
        reveal_with_fuel(sha1_rounds, 2);
    }
    while i < rounds
        invariant
            1 <= i <= rounds,
            inner_pad@ == xor_pad(hmac_block(pass@), 0x36),
            outer_pad@ == xor_pad(hmac_block(pass@), 0x5c),
            d@ == sha1_rounds(pass@, salt@, rounds, (i - 1) as nat),
        decreases rounds - i,
    {
        d = hmac_with(inner_pad.as_slice(), outer_pad.as_slice(), d.as_slice());
        proof {
            reveal_with_fuel(sha1_rounds, 2);
        }
        i += 1;
    }
    assert(forall|k: int| 0 <= k < 21 ==> (#[trigger] SHA1_ORDER@[k]) < 20);
    let sum = triples_text_of(d.as_slice(), &SHA1_ORDER);
    let mut out: Vec<u8> = Vec::new();
    append_bytes(&mut out, SHA1_MAGIC.as_slice());
    write_decimal(&mut out, rounds);
    out.push(36u8);
    append_bytes(&mut out, salt);
    out.push(36u8);
    append_bytes(&mut out, sum.as_slice());
    proof {
        reveal(sha1_sum);
        assert(out@ =~= sha1_hash(pass@, salt@, rounds));
        lemma_sha1_checksum(d@);
        lemma_decimal(rounds as nat);
        lemma_alphabet_is_ascii(salt@);
        lemma_alphabet_is_ascii(sum@);
        let a = SHA1_MAGIC@;
        let b = decimal(rounds as nat);
        let c = seq![36u8];
        assert(is_ascii_bytes(a));
        lemma_ascii_concat(a, b);
        lemma_ascii_concat(a + b, c);
        lemma_ascii_concat(a + b + c, salt@);
        lemma_ascii_concat(a + b + c + salt@, c);
        lemma_ascii_concat(a + b + c + salt@ + c, sum@);
    }
    Ok(out)
}

} // verus!
