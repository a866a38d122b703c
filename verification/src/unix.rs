//! Hashing and verification for a hash of any of the formats: the format is
//! recognised from the text of the hash.
use vstd::prelude::*;
use vstd::string::*;
use crate::error::{Error, Result};
use crate::hash::{is_outcome, recognize, rehash, verifies};

verus! {

/// What `crypt` returns for the text `hash`: the error of recognising its
/// format, or the hash of `pass` in that format under the salt and the
/// rounds of `hash`.
pub open spec fn crypt_post(pass: Seq<u8>, hash: Seq<u8>, r: Result<crate::hash::Hash>) -> bool {
    match recognize(hash) {
        Err(e) => r == Err::<crate::hash::Hash, Error>(e),
        Ok(kind) => is_outcome(r, kind, rehash(kind, pass, hash)),
    }
}

/// Whether the text `hash` is recognised and is the hash of `pass`.
pub open spec fn verify_spec(pass: Seq<u8>, hash: Seq<u8>) -> bool {
    match recognize(hash) {
        Err(_) => false,
        Ok(kind) => verifies(kind, pass, hash),
    }
}

/// Hashes a password as `crypt(3)` does: in the format of `hash`, under its
/// salt and with its rounds.
pub fn crypt(pass: &[u8], hash: &str) -> (r: Result<crate::hash::Hash>)
    ensures
        crypt_post(pass@, hash.spec_bytes(), r),
        r is Ok ==> r.unwrap().well_formed(),
        r is Ok ==> r.unwrap().is_hash_of(pass@),
{
    match crate::hash::Hash::recognized(hash) {
        Ok(h) => h.hash_with(pass),
        Err(e) => Err(e),
    }
}

/// Whether `hash`, in whatever format it is, is the hash of `pass`. A text
/// that is no hash is not.
pub fn verify(pass: &[u8], hash: &str) -> (r: bool)
    ensures
        r == verify_spec(pass@, hash.spec_bytes()),
{
    crate::consteq(hash, crypt(pass, hash))
}


/// True when `crypt` recognises the hash `h` as one of format `kind` and
/// makes it again of `pass` and `h` itself.
pub open spec fn is_made_again(kind: crate::hash::HashKind, pass: Seq<u8>, h: Seq<u8>) -> bool {
    &&& recognize(h) == Ok::<crate::hash::HashKind, Error>(kind)
    &&& rehash(kind, pass, h) == Ok::<Seq<u8>, Error>(h)
}

proof fn lemma_again_apr1(pass: Seq<u8>, text: Seq<u8>)
    requires
        rehash(crate::hash::HashKind::Apr1, pass, text) is Ok,
    ensures
        is_made_again(
            crate::hash::HashKind::Apr1,
            pass,
            rehash(crate::hash::HashKind::Apr1, pass, text).unwrap(),
        ),
{
    let magic = crate::crypt::apr1::APR1_MAGIC@;
    let setup = crate::crypt::md5::parse_spec(text, magic).unwrap();
    assert(crate::text::is_ascii_bytes(magic));
    crate::crypt::md5::lemma_round_trip(pass, setup.salt.unwrap(), magic);
    crate::crypt::md5::lemma_recognized(pass, setup.salt.unwrap());
}

proof fn lemma_again_md5(pass: Seq<u8>, text: Seq<u8>)
    requires
        rehash(crate::hash::HashKind::Md5, pass, text) is Ok,
    ensures
        is_made_again(
            crate::hash::HashKind::Md5,
            pass,
            rehash(crate::hash::HashKind::Md5, pass, text).unwrap(),
        ),
{
    let magic = crate::crypt::md5::MD5_MAGIC@;
    let setup = crate::crypt::md5::parse_spec(text, magic).unwrap();
    assert(crate::text::is_ascii_bytes(magic));
    crate::crypt::md5::lemma_round_trip(pass, setup.salt.unwrap(), magic);
    crate::crypt::md5::lemma_recognized(pass, setup.salt.unwrap());
}

proof fn lemma_again_bcrypt(pass: Seq<u8>, text: Seq<u8>)
    requires
        rehash(crate::hash::HashKind::Bcrypt, pass, text) is Ok,
    ensures
        is_made_again(
            crate::hash::HashKind::Bcrypt,
            pass,
            rehash(crate::hash::HashKind::Bcrypt, pass, text).unwrap(),
        ),
{
    let setup = crate::crypt::bcrypt::parse_spec(text).unwrap();
    let v = crate::crypt::bcrypt::version_of(setup);
    let cost = crate::crypt::bcrypt::cost_of(setup);
    crate::crypt::bcrypt::lemma_round_trip(v, cost, setup.salt.unwrap(), pass);
    crate::crypt::bcrypt::lemma_recognized(v, cost, setup.salt.unwrap(), pass);
}

proof fn lemma_again_bsdi(pass: Seq<u8>, text: Seq<u8>)
    requires
        rehash(crate::hash::HashKind::Bsdi, pass, text) is Ok,
    ensures
        is_made_again(
            crate::hash::HashKind::Bsdi,
            pass,
            rehash(crate::hash::HashKind::Bsdi, pass, text).unwrap(),
        ),
{
    let setup = crate::crypt::bsdi::parse_spec(text).unwrap();
    let rounds = crate::crypt::bsdi::rounds_of(setup);
    crate::crypt::bsdi::lemma_round_trip(pass, setup.salt.unwrap(), rounds);
}

proof fn lemma_again_sha1(pass: Seq<u8>, text: Seq<u8>)
    requires
        rehash(crate::hash::HashKind::Sha1, pass, text) is Ok,
    ensures
        is_made_again(
            crate::hash::HashKind::Sha1,
            pass,
            rehash(crate::hash::HashKind::Sha1, pass, text).unwrap(),
        ),
{
    let setup = crate::crypt::sha1::parse_spec(text).unwrap();
    crate::crypt::sha1::lemma_round_trip(pass, setup.salt.unwrap(), setup.rounds.unwrap());
    crate::crypt::sha1::lemma_recognized(pass, setup.salt.unwrap(), setup.rounds.unwrap());
}

proof fn lemma_again_sha256(pass: Seq<u8>, text: Seq<u8>)
    requires
        rehash(crate::hash::HashKind::Sha256, pass, text) is Ok,
    ensures
        is_made_again(
            crate::hash::HashKind::Sha256,
            pass,
            rehash(crate::hash::HashKind::Sha256, pass, text).unwrap(),
        ),
{
    let v = crate::internal::sha2_crypt::Sha2::Sha256;
    let setup = crate::crypt::sha256::parse_spec(text, v).unwrap();
    crate::crypt::sha256::lemma_round_trip(v, pass, setup.salt.unwrap(), setup.rounds);
    crate::crypt::sha256::lemma_recognized(v, pass, setup.salt.unwrap(), setup.rounds);
}

proof fn lemma_again_sha512(pass: Seq<u8>, text: Seq<u8>)
    requires
        rehash(crate::hash::HashKind::Sha512, pass, text) is Ok,
    ensures
        is_made_again(
            crate::hash::HashKind::Sha512,
            pass,
            rehash(crate::hash::HashKind::Sha512, pass, text).unwrap(),
        ),
{
    let v = crate::internal::sha2_crypt::Sha2::Sha512;
    let setup = crate::crypt::sha256::parse_spec(text, v).unwrap();
    crate::crypt::sha256::lemma_round_trip(v, pass, setup.salt.unwrap(), setup.rounds);
    crate::crypt::sha256::lemma_recognized(v, pass, setup.salt.unwrap(), setup.rounds);
}

proof fn lemma_again_unix(pass: Seq<u8>, text: Seq<u8>)
    requires
        rehash(crate::hash::HashKind::Unix, pass, text) is Ok,
    ensures
        is_made_again(
            crate::hash::HashKind::Unix,
            pass,
            rehash(crate::hash::HashKind::Unix, pass, text).unwrap(),
        ),
{
    crate::crypt::unix::lemma_round_trip(pass, text);
}

/// What `crypt` makes of a password and a text, `crypt` makes again of the
/// same password and its own result, whose format it recognises: the
/// result verifies the password.
pub proof fn lemma_crypt_again(pass: Seq<u8>, text: Seq<u8>, kind: crate::hash::HashKind)
    requires
        rehash(kind, pass, text) is Ok,
    ensures
        is_made_again(kind, pass, rehash(kind, pass, text).unwrap()),
        verify_spec(pass, rehash(kind, pass, text).unwrap()),
{
    match kind {
        crate::hash::HashKind::Apr1 => lemma_again_apr1(pass, text),
        crate::hash::HashKind::Md5 => lemma_again_md5(pass, text),
        crate::hash::HashKind::Bcrypt => lemma_again_bcrypt(pass, text),
        crate::hash::HashKind::Bsdi => lemma_again_bsdi(pass, text),
        crate::hash::HashKind::Sha1 => lemma_again_sha1(pass, text),
        crate::hash::HashKind::Sha256 => lemma_again_sha256(pass, text),
        crate::hash::HashKind::Sha512 => lemma_again_sha512(pass, text),
        crate::hash::HashKind::Unix => lemma_again_unix(pass, text),
    }
}

/// Two results of `crypt` for the same password and text are the same:
/// both the same hash or both the same error.
pub proof fn lemma_deterministic(
    pass: Seq<u8>,
    text: Seq<u8>,
    r1: Result<crate::hash::Hash>,
    r2: Result<crate::hash::Hash>,
)
    requires
        crypt_post(pass, text, r1),
        crypt_post(pass, text, r2),
    ensures
        crate::hash::same_outcome(r1, r2),
{
}

proof fn lemma_changed_apr1(pass: Seq<u8>, text: Seq<u8>, other: Seq<u8>)
    requires
        verifies(crate::hash::HashKind::Apr1, pass, text),
        crate::hash::differs_in_checksum(
            text,
            other,
            crate::hash::checksum_length(crate::hash::HashKind::Apr1),
        ),
    ensures
        !verifies(crate::hash::HashKind::Apr1, pass, other),
{
    let magic = crate::crypt::apr1::APR1_MAGIC@;
    let setup = crate::crypt::md5::parse_spec(text, magic).unwrap();
    assert(crate::text::is_ascii_bytes(magic));
    crate::crypt::md5::lemma_mutation(pass, setup.salt.unwrap(), magic, other);
}

proof fn lemma_changed_md5(pass: Seq<u8>, text: Seq<u8>, other: Seq<u8>)
    requires
        verifies(crate::hash::HashKind::Md5, pass, text),
        crate::hash::differs_in_checksum(
            text,
            other,
            crate::hash::checksum_length(crate::hash::HashKind::Md5),
        ),
    ensures
        !verifies(crate::hash::HashKind::Md5, pass, other),
{
    let magic = crate::crypt::md5::MD5_MAGIC@;
    let setup = crate::crypt::md5::parse_spec(text, magic).unwrap();
    assert(crate::text::is_ascii_bytes(magic));
    crate::crypt::md5::lemma_mutation(pass, setup.salt.unwrap(), magic, other);
}

proof fn lemma_changed_bcrypt(pass: Seq<u8>, text: Seq<u8>, other: Seq<u8>)
    requires
        verifies(crate::hash::HashKind::Bcrypt, pass, text),
        crate::hash::differs_in_checksum(
            text,
            other,
            crate::hash::checksum_length(crate::hash::HashKind::Bcrypt),
        ),
    ensures
        !verifies(crate::hash::HashKind::Bcrypt, pass, other),
{
    let setup = crate::crypt::bcrypt::parse_spec(text).unwrap();
    crate::crypt::bcrypt::lemma_mutation(
        crate::crypt::bcrypt::version_of(setup),
        crate::crypt::bcrypt::cost_of(setup),
        setup.salt.unwrap(),
        pass,
        other,
    );
}

proof fn lemma_changed_bsdi(pass: Seq<u8>, text: Seq<u8>, other: Seq<u8>)
    requires
        verifies(crate::hash::HashKind::Bsdi, pass, text),
        crate::hash::differs_in_checksum(
            text,
            other,
            crate::hash::checksum_length(crate::hash::HashKind::Bsdi),
        ),
    ensures
        !verifies(crate::hash::HashKind::Bsdi, pass, other),
{
    let setup = crate::crypt::bsdi::parse_spec(text).unwrap();
    crate::crypt::bsdi::lemma_mutation(
        pass,
        setup.salt.unwrap(),
        crate::crypt::bsdi::rounds_of(setup),
        other,
    );
}

proof fn lemma_changed_sha1(pass: Seq<u8>, text: Seq<u8>, other: Seq<u8>)
    requires
        verifies(crate::hash::HashKind::Sha1, pass, text),
        crate::hash::differs_in_checksum(
            text,
            other,
            crate::hash::checksum_length(crate::hash::HashKind::Sha1),
        ),
    ensures
        !verifies(crate::hash::HashKind::Sha1, pass, other),
{
    let setup = crate::crypt::sha1::parse_spec(text).unwrap();
    crate::crypt::sha1::lemma_mutation(pass, setup.salt.unwrap(), setup.rounds.unwrap(), other);
}

proof fn lemma_changed_sha256(pass: Seq<u8>, text: Seq<u8>, other: Seq<u8>)
    requires
        verifies(crate::hash::HashKind::Sha256, pass, text),
        crate::hash::differs_in_checksum(
            text,
            other,
            crate::hash::checksum_length(crate::hash::HashKind::Sha256),
        ),
    ensures
        !verifies(crate::hash::HashKind::Sha256, pass, other),
{
    let v = crate::internal::sha2_crypt::Sha2::Sha256;
    let setup = crate::crypt::sha256::parse_spec(text, v).unwrap();
    crate::crypt::sha256::lemma_mutation(v, pass, setup.salt.unwrap(), setup.rounds, other);
}

proof fn lemma_changed_sha512(pass: Seq<u8>, text: Seq<u8>, other: Seq<u8>)
    requires
        verifies(crate::hash::HashKind::Sha512, pass, text),
        crate::hash::differs_in_checksum(
            text,
            other,
            crate::hash::checksum_length(crate::hash::HashKind::Sha512),
        ),
    ensures
        !verifies(crate::hash::HashKind::Sha512, pass, other),
{
    let v = crate::internal::sha2_crypt::Sha2::Sha512;
    let setup = crate::crypt::sha256::parse_spec(text, v).unwrap();
    crate::crypt::sha256::lemma_mutation(v, pass, setup.salt.unwrap(), setup.rounds, other);
}

proof fn lemma_changed_unix(pass: Seq<u8>, text: Seq<u8>, other: Seq<u8>)
    requires
        verifies(crate::hash::HashKind::Unix, pass, text),
        crate::hash::differs_in_checksum(
            text,
            other,
            crate::hash::checksum_length(crate::hash::HashKind::Unix),
        ),
    ensures
        !verifies(crate::hash::HashKind::Unix, pass, other),
{
    crate::crypt::unix::lemma_mutation(pass, text, other);
}

/// A text that differs in the checksum alone from a hash that verifies a
/// password does not verify the password, whatever the format.
pub proof fn lemma_changed_checksum(
    kind: crate::hash::HashKind,
    pass: Seq<u8>,
    text: Seq<u8>,
    other: Seq<u8>,
)
    requires
        verifies(kind, pass, text),
        crate::hash::differs_in_checksum(text, other, crate::hash::checksum_length(kind)),
    ensures
        !verifies(kind, pass, other),
{
    match kind {
        crate::hash::HashKind::Apr1 => lemma_changed_apr1(pass, text, other),
        crate::hash::HashKind::Md5 => lemma_changed_md5(pass, text, other),
        crate::hash::HashKind::Bcrypt => lemma_changed_bcrypt(pass, text, other),
        crate::hash::HashKind::Bsdi => lemma_changed_bsdi(pass, text, other),
        crate::hash::HashKind::Sha1 => lemma_changed_sha1(pass, text, other),
        crate::hash::HashKind::Sha256 => lemma_changed_sha256(pass, text, other),
        crate::hash::HashKind::Sha512 => lemma_changed_sha512(pass, text, other),
        crate::hash::HashKind::Unix => lemma_changed_unix(pass, text, other),
    }
}

} // verus!
