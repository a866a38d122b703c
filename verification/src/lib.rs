//! Password hashing and verification in the Unix `crypt(3)` hash formats:
//! traditional and extended DES, MD5 and its Apache variant, bcrypt, SHA-256,
//! SHA-512 and HMAC-SHA1.
//!
//! Every hash is a short ASCII text that names its algorithm by its shape and
//! carries the salt, the number of rounds where the algorithm has one, and the
//! checksum. Each format has a module under [`crypt`] with three functions:
//! `hash` hashes a password under a random salt, `hash_with` under the
//! parameters given or those of an existing hash, and `verify` tells whether
//! a hash is the hash of a password. The module [`unix`] does the same for a
//! hash of any format, which [`hash`] recognises by its shape.
//!
//! # What is proved
//!
//! The contracts speak of texts as sequences of bytes. For every format a
//! spec function says what the hash of a password under a salt and a number
//! of rounds is, and another what is read out of the text of a hash; the
//! functions are proved to return exactly that, or the error that the same
//! spec functions name. On top of these stand the laws of each module: a
//! hash that was made of a password verifies it, a text that differs from
//! it in the checksum does not, and the same parameters give the same hash.
//! No arithmetic of the crate overflows and no index leaves its bounds.
//!
//! # What is believed
//!
//! The message digests MD5, SHA-1, SHA-256 and SHA-512 and the bcrypt key
//! setup are computed by the crates `md-5`, `sha1`, `sha2` and `bcrypt`;
//! [`internal::digest`] and [`internal::blowfish`] give each a name, and the
//! contracts say how the hashes are built out of them. Random bytes come
//! from the operating system through `rand`; of them nothing is claimed but
//! their number. The passage from bytes to `str` and `String` rests on the
//! standard library's check of UTF-8. The DES cipher is part of the crate
//! and proved against its definition.
use vstd::prelude::*;
use vstd::string::*;

pub mod error;
pub mod text;
pub mod parse;
pub mod encode;
pub mod traits;
pub mod random;
pub mod internal;
pub mod hash;
pub mod crypt;
pub mod unix;
pub mod apr1_crypt;

pub use crate::traits::{FindNul, IntoHashSetup};

verus! {

/// The parameters of a hash: the salt and the number of rounds. A parameter
/// that is left out is chosen by the hash function: a random salt, the
/// algorithm's usual number of rounds.
pub struct HashSetup<'a> {
    /// The salt, as text.
    pub salt: Option<&'a str>,
    /// The number of rounds.
    pub rounds: Option<u32>,
}

/// The parameters of a hash, the salt as bytes.
pub struct SetupView {
    /// The bytes of the salt.
    pub salt: Option<Seq<u8>>,
    /// The number of rounds.
    pub rounds: Option<u32>,
}

impl<'a> View for HashSetup<'a> {
    type V = SetupView;

    open spec fn view(&self) -> SetupView {
        SetupView { salt: crate::text::opt_bytes(self.salt), rounds: self.rounds }
    }
}

impl<'a> Default for HashSetup<'a> {
    fn default() -> (r: HashSetup<'a>)
        ensures
            r.salt is None,
            r.rounds is None,
    {
        HashSetup { salt: None, rounds: None }
    }
}

impl<'a> HashSetup<'a> {
    /// The same parameters with the salt `salt`.
    pub fn salt(self, salt: &'a str) -> (r: HashSetup<'a>)
        ensures
            r.salt == Some(salt),
            r.rounds == self.rounds,
    {
        HashSetup { salt: Some(salt), rounds: self.rounds }
    }

    /// The same parameters with `rounds` rounds.
    pub fn rounds(self, rounds: u32) -> (r: HashSetup<'a>)
        ensures
            r.salt == self.salt,
            r.rounds == Some(rounds),
    {
        HashSetup { salt: self.salt, rounds: Some(rounds) }
    }
}

/// Whether a computed hash is the text `hash`. A hash that could not be
/// computed is none.
pub fn consteq(hash: &str, calchash: crate::error::Result<crate::hash::Hash>) -> (r: bool)
    ensures
        r == match calchash {
            Ok(h) => h.bytes() == hash.spec_bytes(),
            Err(_) => false,
        },
{
    match calchash {
        Ok(h) => crate::text::bytes_eq(hash.as_bytes(), h.as_str().as_bytes()),
        Err(_) => false,
    }
}

} // verus!
