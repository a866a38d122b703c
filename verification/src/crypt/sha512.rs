//! The SHA-512 hash, `$6$`: an optional `rounds=` field, up to sixteen
//! characters of salt and 86 of checksum.
use vstd::prelude::*;
use vstd::string::*;
use crate::crypt::sha256::{
    hash_with_post, hash_with_setup, parse_sha2, parse_spec, random_post, verify_spec,
};
use crate::error::{Error, Result};
use crate::hash::HashKind;
use crate::internal::sha2_crypt::Sha2;
use crate::traits::{params_of, IntoHashSetup};
use crate::{consteq, HashSetup};

verus! {

/// The number of rounds that is run where none is given.
pub const DEFAULT_ROUNDS: u32 = crate::crypt::sha256::DEFAULT_ROUNDS;

/// The least number of rounds.
pub const MIN_ROUNDS: u32 = crate::crypt::sha256::MIN_ROUNDS;

/// The greatest number of rounds.
pub const MAX_ROUNDS: u32 = crate::crypt::sha256::MAX_ROUNDS;

/// The greatest length of the salt.
pub const MAX_SALT_LEN: usize = crate::crypt::sha256::MAX_SALT_LEN;

/// The least length of a hash.
pub const HASH_LENGTH_MIN: usize = 90;

/// The greatest length of a hash.
pub const HASH_LENGTH_MAX: usize = 123;

/// Hashes a password under a random salt with the default rounds.
pub fn hash(pass: &[u8]) -> (r: Result<crate::hash::Hash>)
    ensures
        random_post(Sha2::Sha512, pass@, None, r),
        r is Ok ==> r.unwrap().well_formed(),
        r is Ok ==> r.unwrap().is_hash_of(pass@),
{
    hash_with_setup(HashSetup { salt: None, rounds: None }, pass, Sha2::Sha512)
}

/// Reads the rounds and the salt out of the text of a hash.
pub fn parse_sha512_hash<'a>(hash: &'a str) -> (r: Result<HashSetup<'a>>)
    ensures
        match parse_spec(hash.spec_bytes(), Sha2::Sha512) {
            Ok(setup) => r is Ok && r.unwrap()@ == setup,
            Err(e) => r == Err::<HashSetup<'a>, Error>(e),
        },
{
    parse_sha2(hash, Sha2::Sha512)
}

/// Hashes a password with the parameters given: the text of a hash, whose
/// rounds and salt are taken, or the parameters themselves. Rounds outside
/// 1000 to 999,999,999 are refused, and so is a salt of more than sixteen
/// characters; a character outside the alphabet is an encoding error. Where
/// the salt is left out a random one is drawn.
pub fn hash_with<'a, IHS: IntoHashSetup<'a>>(param: IHS, pass: &[u8]) -> (r: Result<
    crate::hash::Hash,
>)
    ensures
        hash_with_post(params_of(param), pass@, Sha2::Sha512, r),
        param.hash_text() is Some ==> crate::hash::is_outcome(
            r,
            HashKind::Sha512,
            crate::hash::rehash(HashKind::Sha512, pass@, param.hash_text().unwrap().spec_bytes()),
        ),
        r is Ok ==> r.unwrap().well_formed(),
        r is Ok ==> r.unwrap().is_hash_of(pass@),
{
    match param.into_hash_setup(parse_sha512_hash) {
        Ok(hs) => hash_with_setup(hs, pass, Sha2::Sha512),
        Err(e) => Err(e),
    }
}

/// Whether `hash` is the hash of `pass`. A text that is no hash is not.
pub fn verify(pass: &[u8], hash: &str) -> (r: bool)
    ensures
        r == verify_spec(pass@, hash.spec_bytes(), Sha2::Sha512),
        r == crate::hash::verifies(HashKind::Sha512, pass@, hash.spec_bytes()),
{
    consteq(hash, hash_with(hash, pass))
}

} // verus!
