//! Random salts and rounds, drawn from the operating system's generator.
use vstd::prelude::*;
use vstd::utf8::*;
use crate::encode::{all_in_alphabet, hash64, hash64_encode, lemma_hash64};
use crate::error::{Error, Result};
use crate::text::ascii_string;

verus! {

/// The error of the operating system's random generator.
#[verifier::external_type_specification]
#[verifier::external_body]
pub struct ExOsError(rand::rand_core::OsError);

/// `rand::rngs::OsRng`, `try_fill_bytes`: fills the buffer with random bytes
/// of the operating system, or reports that it has none to give. The
/// buffer keeps its length; nothing is known of what it holds after.
#[verifier::external_body]
fn os_fill(buf: &mut [u8]) -> (r: core::result::Result<(), rand::rand_core::OsError>)
    ensures
        final(buf)@.len() == old(buf)@.len(),
{
    rand::TryRngCore::try_fill_bytes(&mut rand::rngs::OsRng, buf)
}

/// `rand::rngs::OsRng`, `try_next_u32`: a random number of the operating
/// system, or the report that it has none to give.
#[verifier::external_body]
fn os_next_u32() -> (r: core::result::Result<u32, rand::rand_core::OsError>)
{
    rand::TryRngCore::try_next_u32(&mut rand::rngs::OsRng)
}

/// How many random bytes a salt of `chars` characters is made of: three for
/// every four characters or part of four.
pub open spec fn salt_bytes_needed(chars: nat) -> nat {
    ((chars + 3) / 4 * 3) as nat
}

/// The salt of `chars` characters that the random bytes `rv` spell: their
/// encoding in the bcrypt alphabet, cut to `chars` characters.
pub open spec fn salt_of_bytes(rv: Seq<u8>, chars: nat) -> Seq<u8> {
    crate::text::prefix(hash64(rv), chars as int)
}

/// Spells the salt of `chars` characters out of random bytes.
pub fn salt_from_bytes(rv: &[u8], chars: usize) -> (salt: Vec<u8>)
    ensures
        salt@ == salt_of_bytes(rv@, chars as nat),
        all_in_alphabet(salt@),
        rv@.len() == salt_bytes_needed(chars as nat) ==> salt@.len() == chars,
{
    let mut salt = hash64_encode(rv);
    proof {
        lemma_hash64(rv@);
        assert(salt@.subrange(0, salt@.len() as int) =~= salt@);
    }
    if salt.len() > chars {
        salt.truncate(chars);
    }
    salt
}

/// Fills `bytes` with random bytes.
pub fn gen_salt_bytes(bytes: &mut [u8]) -> (r: Result<()>)
    ensures
        final(bytes)@.len() == old(bytes)@.len(),
        r is Err ==> r == Err::<(), Error>(Error::RandomError),
{
    match os_fill(bytes) {
        Ok(_) => Ok(()),
        Err(_) => Err(Error::RandomError),
    }
}

/// A random salt of `chars` characters of the alphabet, as bytes: the salt
/// that as many random bytes as are needed spell.
pub fn gen_salt(chars: usize) -> (r: Result<Vec<u8>>)
    ensures
        r is Err ==> r == Err::<Vec<u8>, Error>(Error::RandomError),
        r is Ok ==> r.unwrap()@.len() == chars && all_in_alphabet(r.unwrap()@),
        r is Ok ==> exists|rv: Seq<u8>|
            rv.len() == salt_bytes_needed(chars as nat) && r.unwrap()@ == #[trigger] salt_of_bytes(
                rv,
                chars as nat,
            ),
{
    let rest: usize = if chars % 4 == 0 {
        0
    } else {
        1
    };
    let n = (chars / 4 + rest) * 3;
    let mut rv: Vec<u8> = vec![0u8; n];
    match gen_salt_bytes(rv.as_mut_slice()) {
        Ok(_) => {
            let salt = salt_from_bytes(rv.as_slice(), chars);
            assert(salt@ == salt_of_bytes(rv@, chars as nat));
            Ok(salt)
        },
        Err(e) => Err(e),
    }
}

/// A random salt of `chars` characters of the alphabet: the salt that as
/// many random bytes as are needed spell.
pub fn gen_salt_str(chars: usize) -> (r: Result<String>)
    ensures
        r is Err ==> r == Err::<String, Error>(Error::RandomError),
        r is Ok ==> encode_utf8(r.unwrap()@).len() == chars && all_in_alphabet(
            encode_utf8(r.unwrap()@),
        ),
        r is Ok ==> exists|rv: Seq<u8>|
            rv.len() == salt_bytes_needed(chars as nat) && encode_utf8(r.unwrap()@)
                == #[trigger] salt_of_bytes(rv, chars as nat),
{
    match gen_salt(chars) {
        Ok(v) => {
            proof {
                crate::encode::lemma_alphabet_is_ascii(v@);
            }
            Ok(ascii_string(v))
        },
        Err(e) => Err(e),
    }
}

/// The number of rounds that the random number `r` picks below `ceil`: at
/// most `ceil`, and less than a quarter of it below.
pub open spec fn varied_rounds(ceil: u32, r: u32) -> int {
    ceil - r % (ceil / 4)
}

/// Picks the number of rounds below `ceil` by the random number `r`.
pub fn vary_rounds_by(ceil: u32, r: u32) -> (v: u32)
    requires
        ceil >= 4,
    ensures
        v == varied_rounds(ceil, r),
        ceil - ceil / 4 < v <= ceil,
{
    ceil - r % (ceil / 4)
}

/// A random number of rounds: at most `ceil`, and less than a quarter of
/// it below.
pub fn vary_rounds(ceil: u32) -> (r: Result<u32>)
    requires
        ceil >= 4,
    ensures
        r is Err ==> r == Err::<u32, Error>(Error::RandomError),
        r is Ok ==> exists|x: u32| r.unwrap() == varied_rounds(ceil, x),
        r is Ok ==> ceil - ceil / 4 < r.unwrap() <= ceil,
{
    match os_next_u32() {
        Ok(x) => Ok(vary_rounds_by(ceil, x)),
        Err(_) => Err(Error::RandomError),
    }
}

} // verus!
