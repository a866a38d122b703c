//! The transforms that turn a password, a salt and a number of rounds into
//! the text of a hash.
pub mod digest;
pub mod des;
pub mod md5_crypt;
pub mod sha2_crypt;
pub mod sha1_crypt;
pub mod blowfish;
