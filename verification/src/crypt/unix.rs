//! Traditional DES `crypt`: two characters of salt and eleven of checksum.
//! Only the first eight bytes of the password count.
use vstd::prelude::*;
use vstd::string::*;
use crate::encode::{all_in_alphabet, decode_val_spec};
use crate::error::{Error, Result};
use crate::hash::{finish, is_outcome, HashKind};
use crate::internal::des::{unix_crypt, unix_crypt_spec};
use crate::random::gen_salt;
use crate::text::{bytes_eq, prefix};

verus! {

/// The length of the salt.
pub const SALT_LEN: usize = 2;

/// The length of a hash: the salt and the checksum.
pub const HASH_LENGTH: usize = 13;

/// Whether `hash` is the hash of `pass` under the salt that `hash` begins
/// with.
pub open spec fn verify_spec(pass: Seq<u8>, hash: Seq<u8>) -> bool {
    unix_crypt_spec(pass, hash) == Ok::<Seq<u8>, Error>(hash)
}

/// True when `r` is what `hash` may return for `pass`: the failure of the
/// random source, or the hash of `pass` under some salt of two characters
/// of the alphabet.
pub open spec fn random_post(pass: Seq<u8>, r: Result<crate::hash::Hash>) -> bool {
    match r {
        Err(e) => e == Error::RandomError,
        Ok(h) => h.kind() == HashKind::Unix && exists|salt: Seq<u8>|
            salt.len() == 2 && all_in_alphabet(salt) && #[trigger] unix_crypt_spec(pass, salt)
                == Ok::<Seq<u8>, Error>(h.bytes()),
    }
}

/// A hash has thirteen characters.
pub proof fn lemma_hash_length(pass: Seq<u8>, salt: Seq<u8>)
    ensures
        unix_crypt_spec(pass, salt) is Ok ==> unix_crypt_spec(pass, salt).unwrap().len() == 13,
{
    if unix_crypt_spec(pass, salt) is Ok {
        crate::internal::des::lemma_unix_checksum(
            pass,
            decode_val_spec(prefix(salt, 2), 2).unwrap(),
        );
    }
}

/// Hashes a password under a random salt.
pub fn hash(pass: &[u8]) -> (r: Result<crate::hash::Hash>)
    ensures
        random_post(pass@, r),
        r is Ok ==> r.unwrap().well_formed(),
        r is Ok ==> r.unwrap().is_hash_of(pass@),
{
    let salt = match gen_salt(SALT_LEN) {
        Ok(s) => s,
        Err(e) => {
            return Err(e);
        },
    };
    let r = finish(HashKind::Unix, unix_crypt(pass, salt.as_slice()));
    proof {
        lemma_salt_reads(salt@, 2);
        lemma_round_trip(pass@, salt@);
        assert(unix_crypt_spec(pass@, salt@) == Ok::<Seq<u8>, Error>(r.unwrap().bytes()));
    }
    r
}

/// A salt of `n` characters of the alphabet, `n` at most five, spells a
/// number.
pub proof fn lemma_salt_reads(salt: Seq<u8>, n: nat)
    requires
        salt.len() == n,
        n <= 5,
        all_in_alphabet(salt),
    ensures
        decode_val_spec(prefix(salt, n as int), n) is Ok,
{
    crate::encode::lemma_digits_value_bound(salt);
    assert(crate::encode::pow64(5) == 64 * 64 * 64 * 64 * 64) by {
        reveal_with_fuel(crate::encode::pow64, 6);
    }
    crate::encode::lemma_pow64_monotone(n, 5);
}

/// Hashes a password under the salt that the first two characters of `salt`
/// spell. A salt of fewer characters is too short; a character outside the
/// alphabet is an encoding error.
pub fn hash_with(salt: &str, pass: &[u8]) -> (r: Result<crate::hash::Hash>)
    ensures
        is_outcome(r, HashKind::Unix, unix_crypt_spec(pass@, salt.spec_bytes())),
        r is Ok ==> r.unwrap().well_formed(),
        r is Ok ==> r.unwrap().is_hash_of(pass@),
{
    let r = finish(HashKind::Unix, unix_crypt(pass, salt.as_bytes()));
    proof {
        if unix_crypt_spec(pass@, salt.spec_bytes()) is Ok {
            lemma_round_trip(pass@, salt.spec_bytes());
        }
    }
    r
}

/// Whether `hash` is the hash of `pass`. A text that is no hash is not.
pub fn verify(pass: &[u8], hash: &str) -> (r: bool)
    ensures
        r == verify_spec(pass@, hash.spec_bytes()),
        r == crate::hash::verifies(HashKind::Unix, pass@, hash.spec_bytes()),
{
    match unix_crypt(pass, hash.as_bytes()) {
        Ok(h) => bytes_eq(hash.as_bytes(), h.as_slice()),
        Err(_) => false,
    }
}


/// The text from which the salt of a hash is read: the first two bytes.
pub open spec fn header(hash: Seq<u8>) -> Seq<u8> {
    prefix(hash, 2)
}

/// A hash opens with the two characters of its salt.
pub proof fn lemma_header_of_hash(pass: Seq<u8>, salt: Seq<u8>)
    requires
        unix_crypt_spec(pass, salt) is Ok,
    ensures
        header(unix_crypt_spec(pass, salt).unwrap()) == header(salt),
{
    let h = unix_crypt_spec(pass, salt).unwrap();
    assert(prefix(salt, 2).len() == 2);
    assert(h.subrange(0, 2) =~= prefix(salt, 2));
}

/// What a text asks for depends on its first two bytes alone.
pub proof fn lemma_rehash_by_header(pass: Seq<u8>, a: Seq<u8>, b: Seq<u8>)
    requires
        header(a) == header(b),
    ensures
        unix_crypt_spec(pass, a) == unix_crypt_spec(pass, b),
{
}

/// Hashing a password again under the parameters of its hash gives the same
/// hash: a hash verifies the password that it was made of.
pub proof fn lemma_round_trip(pass: Seq<u8>, salt: Seq<u8>)
    requires
        unix_crypt_spec(pass, salt) is Ok,
    ensures
        verify_spec(pass, unix_crypt_spec(pass, salt).unwrap()),
        crate::hash::recognize(unix_crypt_spec(pass, salt).unwrap()) == Ok::<HashKind, Error>(
            HashKind::Unix,
        ),
{
    let h = unix_crypt_spec(pass, salt).unwrap();
    lemma_header_of_hash(pass, salt);
    lemma_rehash_by_header(pass, salt, h);
    lemma_hash_length(pass, salt);
    let s2 = prefix(salt, 2);
    assert(h[0] == s2[0]);
    assert(crate::encode::in_alphabet(s2[0]));
    assert(h.subrange(0, 1) =~= seq![h[0]]);
    assert(seq![h[0]][0] == h[0]);
    assert(seq![95u8][0] == 95u8);
    assert(seq![36u8][0] == 36u8);
}

/// A text that differs from the hash of a password in the checksum alone
/// does not verify the password.
pub proof fn lemma_mutation(pass: Seq<u8>, salt: Seq<u8>, other: Seq<u8>)
    requires
        unix_crypt_spec(pass, salt) is Ok,
        crate::hash::differs_in_checksum(unix_crypt_spec(pass, salt).unwrap(), other, 11),
    ensures
        !verify_spec(pass, other),
{
    let h = unix_crypt_spec(pass, salt).unwrap();
    lemma_hash_length(pass, salt);
    lemma_header_of_hash(pass, salt);
    lemma_rehash_by_header(pass, salt, h);
    assert(other.subrange(0, 2) =~= prefix(other, 2));
    assert(h.subrange(0, 2) =~= prefix(h, 2));
    lemma_rehash_by_header(pass, h, other);
}

/// Two results of `hash_with` for the same salt and password are the same:
/// both the same hash or both the same error.
pub proof fn lemma_deterministic(
    salt: Seq<u8>,
    pass: Seq<u8>,
    r1: Result<crate::hash::Hash>,
    r2: Result<crate::hash::Hash>,
)
    requires
        is_outcome(r1, HashKind::Unix, unix_crypt_spec(pass, salt)),
        is_outcome(r2, HashKind::Unix, unix_crypt_spec(pass, salt)),
    ensures
        crate::hash::same_outcome(r1, r2),
{
}


/// A hash that `hash` or `hash_with` has made of a password verifies the
/// password.
pub proof fn lemma_made_hash_verifies(pass: Seq<u8>, salt: Seq<u8>, r: Result<crate::hash::Hash>)
    requires
        r is Ok,
        random_post(pass, r) || is_outcome(r, HashKind::Unix, unix_crypt_spec(pass, salt)),
    ensures
        verify_spec(pass, r.unwrap().bytes()),
{
    if is_outcome(r, HashKind::Unix, unix_crypt_spec(pass, salt)) {
        lemma_round_trip(pass, salt);
    } else {
        let s = choose|s: Seq<u8>|
            s.len() == 2 && all_in_alphabet(s) && #[trigger] unix_crypt_spec(pass, s) == Ok::<
                Seq<u8>,
                Error,
            >(r.unwrap().bytes());
        lemma_round_trip(pass, s);
    }
}

} // verus!
