//! Traits of the inputs that the hash functions accept.
use vstd::prelude::*;
use vstd::slice::*;
use vstd::string::*;
use crate::error::{Error, Result};
use crate::parse::{find_from, lemma_find_from_is};
use crate::{HashSetup, SetupView};

verus! {

/// The bytes before the first NUL byte, or all of them where there is none.
pub open spec fn before_nul(b: Seq<u8>) -> Seq<u8> {
    b.subrange(0, find_from(b, 0, 0))
}

/// Cuts a password off at its first NUL byte, as a C string ends there.
pub trait FindNul {
    /// The bytes of the value.
    spec fn byte_seq(&self) -> Seq<u8>;

    /// The bytes before the first NUL byte, or all of them where there is
    /// none.
    fn nul_terminated_subslice(&self) -> (r: &[u8])
        ensures
            r@ == before_nul(self.byte_seq()),
    ;
}

impl FindNul for [u8] {
    open spec fn byte_seq(&self) -> Seq<u8> {
        self@
    }

    fn nul_terminated_subslice(&self) -> (r: &[u8]) {
        let mut i: usize = 0;
        while i < self.len() && self[i] != 0
            invariant
                i <= self.len(),
                forall|j: int| 0 <= j < i ==> self@[j] != 0,
            decreases self.len() - i,
        {
            i += 1;
        }
        proof {
            lemma_find_from_is(self@, 0, 0, i as int);
        }
        slice_subrange(self, 0, i)
    }
}

impl FindNul for str {
    open spec fn byte_seq(&self) -> Seq<u8> {
        self.spec_bytes()
    }

    fn nul_terminated_subslice(&self) -> (r: &[u8]) {
        self.as_bytes().nul_terminated_subslice()
    }
}


/// What a hash function takes its parameters from: the text of a hash, out
/// of which they are read, or the parameters themselves.
pub trait IntoHashSetup<'a>: Sized {
    /// The text of the hash, where the value is one.
    spec fn hash_text(&self) -> Option<&'a str>;

    /// The parameters, where the value holds them itself.
    spec fn setup(&self) -> HashSetup<'a>;

    /// The parameters: read out of the text by `f`, or the value itself.
    fn into_hash_setup<F: FnOnce(&'a str) -> Result<HashSetup<'a>>>(self, f: F) -> (r: Result<
        HashSetup<'a>,
    >)
        requires
            self.hash_text() is Some ==> call_requires(f, (self.hash_text().unwrap(),)),
        ensures
            match self.hash_text() {
                Some(s) => call_ensures(f, (s,), r),
                None => r == Ok::<HashSetup<'a>, Error>(self.setup()),
            },
    ;
}

impl<'a> IntoHashSetup<'a> for &'a str {
    open spec fn hash_text(&self) -> Option<&'a str> {
        Some(*self)
    }

    open spec fn setup(&self) -> HashSetup<'a> {
        HashSetup { salt: None, rounds: None }
    }

    fn into_hash_setup<F: FnOnce(&'a str) -> Result<HashSetup<'a>>>(self, f: F) -> (r: Result<
        HashSetup<'a>,
    >) {
        f(self)
    }
}

impl<'a> IntoHashSetup<'a> for HashSetup<'a> {
    open spec fn hash_text(&self) -> Option<&'a str> {
        None
    }

    open spec fn setup(&self) -> HashSetup<'a> {
        *self
    }

    fn into_hash_setup<F: FnOnce(&'a str) -> Result<HashSetup<'a>>>(self, f: F) -> (r: Result<
        HashSetup<'a>,
    >) {
        Ok(self)
    }
}

/// Where the parameters of a hash come from, as bytes.
pub enum Params {
    /// The text of a hash.
    Text(Seq<u8>),
    /// The parameters themselves.
    Setup(SetupView),
}

/// Where the parameters that `p` stands for come from.
pub open spec fn params_of<'a, T: IntoHashSetup<'a>>(p: T) -> Params {
    match p.hash_text() {
        Some(s) => Params::Text(s.spec_bytes()),
        None => Params::Setup(p.setup()@),
    }
}

} // verus!
