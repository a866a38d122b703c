//! The hash functions, one module for each format.
pub mod unix;
pub mod bsdi;
pub mod md5;
pub mod apr1;
pub mod sha256;
pub mod sha512;
pub mod sha1;
pub mod bcrypt;
