//! The message digests that the hash functions are built on. They are
//! computed by the RustCrypto crates; here each has a name, by which the
//! contracts of the hash functions speak of it.
use vstd::prelude::*;

verus! {

/// The MD5 digest of a message.
pub uninterp spec fn md5_of(data: Seq<u8>) -> Seq<u8>;

/// The SHA-1 digest of a message.
pub uninterp spec fn sha1_of(data: Seq<u8>) -> Seq<u8>;

/// The SHA-256 digest of a message.
pub uninterp spec fn sha256_of(data: Seq<u8>) -> Seq<u8>;

/// The SHA-512 digest of a message.
pub uninterp spec fn sha512_of(data: Seq<u8>) -> Seq<u8>;

/// `md5::Md5`, `Digest::digest`: the MD5 digest of `data`, sixteen bytes
/// that depend on the bytes of `data` alone.
#[verifier::external_body]
pub(crate) fn md5_digest(data: &[u8]) -> (out: [u8; 16])
    ensures
        out@ == md5_of(data@),
{
    <md5::Md5 as md5::Digest>::digest(data).into()
}

/// `sha1::Sha1`, `Digest::digest`: the SHA-1 digest of `data`, twenty bytes
/// that depend on the bytes of `data` alone.
#[verifier::external_body]
pub(crate) fn sha1_digest(data: &[u8]) -> (out: [u8; 20])
    ensures
        out@ == sha1_of(data@),
{
    <sha1::Sha1 as sha1::Digest>::digest(data).into()
}

/// `sha2::Sha256`, `Digest::digest`: the SHA-256 digest of `data`,
/// thirty-two bytes that depend on the bytes of `data` alone.
#[verifier::external_body]
pub(crate) fn sha256_digest(data: &[u8]) -> (out: [u8; 32])
    ensures
        out@ == sha256_of(data@),
{
    <sha2::Sha256 as sha2::Digest>::digest(data).into()
}

/// `sha2::Sha512`, `Digest::digest`: the SHA-512 digest of `data`,
/// sixty-four bytes that depend on the bytes of `data` alone.
#[verifier::external_body]
pub(crate) fn sha512_digest(data: &[u8]) -> (out: [u8; 64])
    ensures
        out@ == sha512_of(data@),
{
    <sha2::Sha512 as sha2::Digest>::digest(data).into()
}

} // verus!
