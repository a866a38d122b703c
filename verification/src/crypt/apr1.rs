//! The Apache variant of the MD5 hash, `$apr1$`: up to eight characters of
//! salt and 22 of checksum.
use vstd::prelude::*;
use vstd::string::*;
use crate::crypt::md5::{
    hash_with_magic, hash_with_post, lemma_made_hash_verifies, parse_spec, parse_with_magic,
    random_post, verify_spec,
};
use crate::error::{Error, Result};
use crate::hash::HashKind;
use crate::traits::{params_of, IntoHashSetup, Params};
use crate::{consteq, HashSetup, SetupView};

verus! {

/// The greatest length of the salt.
pub const MAX_SALT_LEN: usize = crate::crypt::md5::MAX_SALT_LEN;

/// The prefix of the format, `$apr1$`.
pub const APR1_MAGIC: [u8; 6] = [36, 97, 112, 114, 49, 36];

/// The least length of a hash: the prefix, an empty salt, a `$` and the
/// checksum.
pub const HASH_LENGTH_MIN: usize = 29;

/// The greatest length of a hash.
pub const HASH_LENGTH_MAX: usize = 37;

/// Hashes a password under a random salt.
pub fn hash(pass: &[u8]) -> (r: Result<crate::hash::Hash>)
    ensures
        random_post(pass@, APR1_MAGIC@, HashKind::Apr1, r),
        r is Ok ==> r.unwrap().well_formed(),
        r is Ok ==> r.unwrap().is_hash_of(pass@),
{
    let r = hash_with_magic(
        HashSetup { salt: None, rounds: None },
        pass,
        &APR1_MAGIC,
        HashKind::Apr1,
    );
    proof {
        if r is Ok {
            lemma_made_hash_verifies(
                Params::Setup(SetupView { salt: None, rounds: None }),
                pass@,
                APR1_MAGIC@,
                HashKind::Apr1,
                r,
            );
        }
    }
    r
}

/// Reads the salt out of the text of a hash.
pub fn parse_md5_hash<'a>(hash: &'a str) -> (r: Result<HashSetup<'a>>)
    ensures
        match parse_spec(hash.spec_bytes(), APR1_MAGIC@) {
            Ok(setup) => r is Ok && r.unwrap()@ == setup,
            Err(e) => r == Err::<HashSetup<'a>, Error>(e),
        },
{
    parse_with_magic(hash, &APR1_MAGIC)
}

/// Hashes a password with the parameters given: the text of a hash, whose
/// salt is taken, or the parameters themselves. A salt of more than eight
/// characters is cut to eight; a character outside the alphabet is an
/// encoding error. Where the salt is left out a random one is drawn.
pub fn hash_with<'a, IHS: IntoHashSetup<'a>>(param: IHS, pass: &[u8]) -> (r: Result<
    crate::hash::Hash,
>)
    ensures
        hash_with_post(params_of(param), pass@, APR1_MAGIC@, HashKind::Apr1, r),
        param.hash_text() is Some ==> crate::hash::is_outcome(
            r,
            HashKind::Apr1,
            crate::hash::rehash(HashKind::Apr1, pass@, param.hash_text().unwrap().spec_bytes()),
        ),
        r is Ok ==> r.unwrap().well_formed(),
        r is Ok ==> r.unwrap().is_hash_of(pass@),
{
    let ghost params = params_of(param);
    let r = match param.into_hash_setup(parse_md5_hash) {
        Ok(hs) => hash_with_magic(hs, pass, &APR1_MAGIC, HashKind::Apr1),
        Err(e) => Err(e),
    };
    proof {
        if r is Ok {
            lemma_made_hash_verifies(params, pass@, APR1_MAGIC@, HashKind::Apr1, r);
        }
    }
    r
}

/// Whether `hash` is the hash of `pass`. A text that is no hash is not.
pub fn verify(pass: &[u8], hash: &str) -> (r: bool)
    ensures
        r == verify_spec(pass@, hash.spec_bytes(), APR1_MAGIC@),
        r == crate::hash::verifies(HashKind::Apr1, pass@, hash.spec_bytes()),
{
    consteq(hash, hash_with(hash, pass))
}

} // verus!
