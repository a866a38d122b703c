//! The errors of the crate.
use vstd::prelude::*;

verus! {

/// What can go wrong when a hash is computed or read.
#[derive(Debug, Clone, Copy, PartialEq, Eq, Structural)]
pub enum Error {
    /// The text does not have the form of a hash: a wrong prefix, a missing
    /// field, or an algorithm that is not known.
    InvalidHashString,
    /// The text, or a field of it, is shorter than the algorithm asks.
    InsufficientLength,
    /// A field holds a character outside the alphabet of the encoding, or a
    /// number that does not fit.
    EncodingError,
    /// The number of rounds is outside the range of the algorithm.
    InvalidRounds,
    /// The system's source of random bytes could not be read.
    RandomError,
}

/// The result of a fallible operation of this crate.
pub type Result<T> = core::result::Result<T, Error>;

/// The description of an error.
pub open spec fn message_of(e: Error) -> Seq<char> {
    match e {
        Error::InvalidHashString => "invalid hash string"@,
        Error::InsufficientLength => "insufficient length"@,
        Error::EncodingError => "invalid character in an encoded field"@,
        Error::InvalidRounds => "number of rounds out of range"@,
        Error::RandomError => "random source unavailable"@,
    }
}

impl Error {
    /// A short description of the error.
    pub fn message(&self) -> (r: &'static str)
        ensures
            r@ == message_of(*self),
    {
        match self {
            Error::InvalidHashString => "invalid hash string",
            Error::InsufficientLength => "insufficient length",
            Error::EncodingError => "invalid character in an encoded field",
            Error::InvalidRounds => "number of rounds out of range",
            Error::RandomError => "random source unavailable",
        }
    }
}

} // verus!
