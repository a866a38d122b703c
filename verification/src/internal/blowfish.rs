//! The Blowfish-based transform of the bcrypt hashes.
use vstd::prelude::*;
use vstd::slice::*;
use crate::encode::{
    hash64, hash64_decode, hash64_decode_spec, hash64_encode, lemma_alphabet_is_ascii,
    lemma_hash64,
};
use crate::error::{Error, Result};
use crate::text::{append_bytes, is_ascii_bytes, lemma_ascii_concat};
use crate::traits::{before_nul, FindNul};

verus! {

/// The least cost.
pub const BCRYPT_MIN_COST: u32 = 4;

/// The greatest cost.
pub const BCRYPT_MAX_COST: u32 = 31;

/// The cost that is taken where none is given.
pub const BCRYPT_DEFAULT_COST: u32 = 12;

/// The length of the salt in characters.
pub const BCRYPT_SALT_LEN: usize = 22;

/// The greatest length of the key.
pub const BCRYPT_MAX_KEY_LEN: usize = 72;

/// The 24 bytes that bcrypt makes of a cost, a salt of sixteen bytes and a
/// key.
pub uninterp spec fn bcrypt_of(cost: u32, salt: Seq<u8>, key: Seq<u8>) -> Seq<u8>;

/// `bcrypt::bcrypt`: the 24 bytes that the key setup of `2^cost` rounds and
/// the 64 encryptions of the fixed text give. They depend on the cost, the
/// salt and the key alone. The function refuses a cost of 32 or more, an
/// empty key and one of more than 72 bytes.
#[verifier::external_body]
pub(crate) fn bcrypt_raw(cost: u32, salt: &[u8; 16], key: &[u8]) -> (out: [u8; 24])
    requires
        cost < 32,
        1 <= key@.len() <= 72,
    ensures
        out@ == bcrypt_of(cost, salt@, key@),
{
    bcrypt::bcrypt(cost, *salt, key)
}

/// The three versions of the format, which differ in the prefix alone.
#[derive(Debug, Clone, Copy, PartialEq, Eq, Structural)]
pub enum BcryptVariant {
    /// `$2a$`.
    V2a,
    /// `$2b$`.
    V2b,
    /// `$2y$`.
    V2y,
}

/// The letter of the version.
pub open spec fn variant_letter(v: BcryptVariant) -> u8 {
    match v {
        BcryptVariant::V2a => 97,
        BcryptVariant::V2b => 98,
        BcryptVariant::V2y => 121,
    }
}

/// The key of a password: the password up to its first NUL byte and a NUL
/// byte behind it, of all this the first 72 bytes.
pub open spec fn bcrypt_key(pass: Seq<u8>) -> Seq<u8> {
    crate::text::prefix(before_nul(pass) + seq![0u8], 72)
}

/// The sixteen bytes of the salt that the 22 characters of `salt` spell; or
/// the error of a salt that is shorter or longer, or of a character outside
/// the alphabet.
pub open spec fn bcrypt_salt_spec(salt: Seq<u8>) -> Result<Seq<u8>> {
    if salt.len() < BCRYPT_SALT_LEN {
        Err(Error::InsufficientLength)
    } else if salt.len() > BCRYPT_SALT_LEN {
        Err(Error::InvalidHashString)
    } else {
        hash64_decode_spec(salt)
    }
}

/// The first 23 of the bytes that bcrypt gives: the last one is not
/// written into the hash.
pub open spec fn bcrypt_sum(cost: u32, salt: Seq<u8>, key: Seq<u8>) -> Seq<u8> {
    Seq::new(23, |i: int| bcrypt_of(cost, salt, key)[i])
}

/// The checksum of a password at a cost under a salt of sixteen bytes:
/// the 31 characters that spell the first 23 bytes that bcrypt gives.
#[verifier::opaque]
pub open spec fn bcrypt_text(cost: u32, salt: Seq<u8>, pass: Seq<u8>) -> Seq<u8> {
    hash64(bcrypt_sum(cost, salt, bcrypt_key(pass)))
}

/// The checksum of a password has 31 characters of the alphabet.
pub proof fn lemma_bcrypt_text(cost: u32, salt: Seq<u8>, pass: Seq<u8>)
    ensures
        bcrypt_text(cost, salt, pass).len() == 31,
        crate::encode::all_in_alphabet(bcrypt_text(cost, salt, pass)),
{
    reveal(bcrypt_text);
    lemma_hash64(bcrypt_sum(cost, salt, bcrypt_key(pass)));
}

/// The hash: `$2`, the letter of the version, `$`, the two digits of the
/// cost, `$`, the 22 characters of the salt and the 31 characters of the
/// checksum.
pub open spec fn bcrypt_hash(v: BcryptVariant, cost: u32, salt: Seq<u8>, pass: Seq<u8>) -> Seq<u8> {
    seq![36u8, 50u8, variant_letter(v), 36u8, (48 + cost / 10) as u8, (48 + cost % 10) as u8, 36u8]
        + hash64(salt) + bcrypt_text(cost, salt, pass)
}

/// What `bcrypt_crypt` returns: the hash; or the error of a cost outside 4
/// to 31, or of reading the salt.
pub open spec fn bcrypt_crypt_spec(v: BcryptVariant, cost: u32, salt: Seq<u8>, pass: Seq<u8>) -> Result<
    Seq<u8>,
> {
    if cost < BCRYPT_MIN_COST || cost > BCRYPT_MAX_COST {
        Err(Error::InvalidRounds)
    } else {
        match bcrypt_salt_spec(salt) {
            Err(e) => Err(e),
            Ok(bytes) => Ok(bcrypt_hash(v, cost, bytes, pass)),
        }
    }
}

/// Reads the sixteen bytes of the salt out of its 22 characters.
pub fn bcrypt_salt_of(salt: &[u8]) -> (r: Result<[u8; 16]>)
    ensures
        match bcrypt_salt_spec(salt@) {
            Ok(bytes) => r is Ok && r.unwrap()@ == bytes,
            Err(e) => r == Err::<[u8; 16], Error>(e),
        },
{
    if salt.len() < BCRYPT_SALT_LEN {
        return Err(Error::InsufficientLength);
    }
    if salt.len() > BCRYPT_SALT_LEN {
        return Err(Error::InvalidHashString);
    }
    let bytes = match hash64_decode(salt) {
        Ok(b) => b,
        Err(e) => {
            return Err(e);
        },
    };
    proof {
        lemma_salt_len(salt@);
    }
    let mut out: [u8; 16] = [0u8; 16];
    let mut i: usize = 0;
    while i < 16
        invariant
            i <= 16,
            bytes@.len() == 16,
            forall|j: int| 0 <= j < i ==> out@[j] == bytes@[j],
        decreases 16 - i,
    {
        out[i] = bytes[i];
        i += 1;
    }
    assert(out@ =~= bytes@);
    Ok(out)
}

/// Makes the key of a password.
pub fn bcrypt_key_of(pass: &[u8]) -> (key: Vec<u8>)
    ensures
        key@ == bcrypt_key(pass@),
        1 <= key@.len() <= 72,
{
    let p = pass.nul_terminated_subslice();
    let mut key: Vec<u8> = Vec::new();
    append_bytes(&mut key, p);
    key.push(0u8);
    assert(key@ =~= before_nul(pass@) + seq![0u8]);
    if key.len() > BCRYPT_MAX_KEY_LEN {
        key.truncate(BCRYPT_MAX_KEY_LEN);
    }
    key
}

/// Hashes a password at the cost given under the salt that the 22
/// characters of `salt` spell. The password counts up to its first NUL
/// byte and up to 71 bytes.
pub fn bcrypt_crypt(v: BcryptVariant, cost: u32, salt: &[u8], pass: &[u8]) -> (r: Result<Vec<u8>>)
    ensures
        match bcrypt_crypt_spec(v, cost, salt@, pass@) {
            Ok(h) => r is Ok && r.unwrap()@ == h,
            Err(e) => r == Err::<Vec<u8>, Error>(e),
        },
        r is Ok ==> is_ascii_bytes(r.unwrap()@) && r.unwrap()@.len() == 60,
{
    if cost < BCRYPT_MIN_COST || cost > BCRYPT_MAX_COST {
        return Err(Error::InvalidRounds);
    }
    let bytes = match bcrypt_salt_of(salt) {
        Ok(b) => b,
        Err(e) => {
            return Err(e);
        },
    };
    let key = bcrypt_key_of(pass);
    let raw = bcrypt_raw(cost, &bytes, key.as_slice());
    let letter: u8 = match v {
        BcryptVariant::V2a => 97,
        BcryptVariant::V2b => 98,
        BcryptVariant::V2y => 121,
    };
    let mut out: Vec<u8> = Vec::new();
    out.push(36u8);
    out.push(50u8);
    out.push(letter);
    out.push(36u8);
    out.push(48 + (cost / 10) as u8);
    out.push(48 + (cost % 10) as u8);
    out.push(36u8);
    let ghost head = out@;
    let salt_text = hash64_encode(bytes.as_slice());
    let sum = hash64_encode(slice_subrange(raw.as_slice(), 0, 23));
    append_bytes(&mut out, salt_text.as_slice());
    append_bytes(&mut out, sum.as_slice());
    proof {
        assert(head =~= seq![
            36u8,
            50u8,
            variant_letter(v),
            36u8,
            (48 + cost / 10) as u8,
            (48 + cost % 10) as u8,
            36u8,
        ]);
        lemma_hash64(bytes@);
        reveal(bcrypt_text);
        lemma_hash64(raw@.subrange(0, 23));
        assert(raw@.subrange(0, 23) =~= bcrypt_sum(cost, bytes@, key@));
        lemma_alphabet_is_ascii(salt_text@);
        lemma_alphabet_is_ascii(sum@);
        assert(is_ascii_bytes(head));
        lemma_ascii_concat(head, salt_text@);
        lemma_ascii_concat(head + salt_text@, sum@);
    }
    Ok(out)
}


/// The salt that the text of sixteen bytes spells is those bytes.
pub proof fn lemma_salt_of_hash64(bytes: Seq<u8>)
    requires
        bytes.len() == 16,
    ensures
        bcrypt_salt_spec(hash64(bytes)) == Ok::<Seq<u8>, Error>(bytes),
        hash64(bytes).len() == 22,
{
    lemma_hash64(bytes);
    crate::encode::lemma_hash64_round_trip(bytes);
}

/// The salt that a text spells has sixteen bytes.
pub proof fn lemma_salt_len(salt: Seq<u8>)
    requires
        bcrypt_salt_spec(salt) is Ok,
    ensures
        bcrypt_salt_spec(salt).unwrap().len() == 16,
{
    let v = crate::encode::bcrypt_digits(salt);
    assert(v.len() == 22);
    crate::encode::lemma_hash64_bytes_len(v);
}

} // verus!
