//! The Apache variant of the MD5 hash with hashes handed out as plain
//! text.
use vstd::prelude::*;
use vstd::string::*;
use vstd::utf8::*;
use crate::crypt::apr1::APR1_MAGIC;
use crate::crypt::md5::{hash_with_post, parse_spec, random_post, verify_spec};
use crate::error::{Error, Result};
use crate::hash::HashKind;
use crate::traits::{params_of, IntoHashSetup};
use crate::HashSetup;

verus! {

/// The greatest length of the salt.
pub const MAX_SALT_LEN: usize = crate::crypt::md5::MAX_SALT_LEN;

/// True when the text `r` is the text of the hash `h`, or both are the same
/// error.
pub open spec fn same_text(r: Result<String>, h: Result<crate::hash::Hash>) -> bool {
    match (r, h) {
        (Ok(s), Ok(hash)) => encode_utf8(s@) == hash.bytes(),
        (Err(a), Err(b)) => a == b,
        _ => false,
    }
}

/// The text of a hash, or the error in its place.
fn text_of(h: Result<crate::hash::Hash>) -> (r: Result<String>)
    ensures
        same_text(r, h),
{
    match h {
        Ok(hash) => Ok(hash.into_string()),
        Err(e) => Err(e),
    }
}

/// Hashes a password under a random salt.
pub fn hash(pass: &[u8]) -> (r: Result<String>)
    ensures
        exists|h: Result<crate::hash::Hash>| #[trigger]
            same_text(r, h) && random_post(pass@, APR1_MAGIC@, HashKind::Apr1, h),
{
    text_of(crate::crypt::apr1::hash(pass))
}

/// Reads the salt out of the text of a hash.
pub fn parse_md5_hash<'a>(hash: &'a str) -> (r: Result<HashSetup<'a>>)
    ensures
        match parse_spec(hash.spec_bytes(), APR1_MAGIC@) {
            Ok(setup) => r is Ok && r.unwrap()@ == setup,
            Err(e) => r == Err::<HashSetup<'a>, Error>(e),
        },
{
    crate::crypt::apr1::parse_md5_hash(hash)
}

/// Hashes a password with the parameters given: the text of a hash, whose
/// salt is taken, or the parameters themselves. A salt of more than eight
/// characters is cut to eight; a character outside the alphabet is an
/// encoding error. Where the salt is left out a random one is drawn.
pub fn hash_with<'a, IHS: IntoHashSetup<'a>>(param: IHS, pass: &[u8]) -> (r: Result<String>)
    ensures
        exists|h: Result<crate::hash::Hash>| #[trigger]
            same_text(r, h) && hash_with_post(
                params_of(param),
                pass@,
                APR1_MAGIC@,
                HashKind::Apr1,
                h,
            ),
{
    text_of(crate::crypt::apr1::hash_with(param, pass))
}

/// Whether `hash` is the hash of `pass`. A text that is no hash is not.
pub fn verify(pass: &[u8], hash: &str) -> (r: bool)
    ensures
        r == verify_spec(pass@, hash.spec_bytes(), APR1_MAGIC@),
{
    crate::crypt::apr1::verify(pass, hash)
}

} // verus!
