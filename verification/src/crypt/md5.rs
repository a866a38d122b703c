//! The MD5 hash, `$1$`: up to eight characters of salt and 22 of checksum.
//!
//! The Apache variant, `$apr1$`, differs in the prefix alone; what the two
//! share stands here, with the prefix as a parameter.
use vstd::prelude::*;
use vstd::string::*;
use crate::encode::all_in_alphabet;
use crate::error::{Error, Result};
use crate::hash::{finish, is_outcome, is_text, HashKind};
use crate::internal::md5_crypt::{lemma_md5_sum, md5_crypt, md5_crypt_spec};
use crate::parse::{as_field, take_spec, take_until_spec, HashIterator, HashSlice};
use crate::random::gen_salt;
use crate::text::is_ascii_bytes;
use crate::traits::{params_of, IntoHashSetup, Params};
use crate::{consteq, HashSetup, SetupView};

verus! {

/// The greatest length of the salt.
pub const MAX_SALT_LEN: usize = 8;

/// The prefix of the format, `$1$`.
pub const MD5_MAGIC: [u8; 3] = [36, 49, 36];

/// The least length of a hash: the prefix, an empty salt, a `$` and the
/// checksum.
pub const HASH_LENGTH_MIN: usize = 26;

/// The greatest length of a hash.
pub const HASH_LENGTH_MAX: usize = 34;

/// What is read out of the text of a hash with the prefix `magic`: the
/// salt, which goes from the prefix to the next `$`. The checksum is not
/// looked at and need not be there.
pub open spec fn parse_spec(hash: Seq<u8>, magic: Seq<u8>) -> Result<SetupView> {
    let first = take_spec(hash, 0, magic.len());
    if first.0 != Some(magic) {
        Err(Error::InvalidHashString)
    } else {
        match take_until_spec(hash, first.1, 36u8).0 {
            None => Err(Error::InvalidHashString),
            Some(salt) => Ok(SetupView { salt: Some(salt), rounds: None }),
        }
    }
}

/// The salt that is used for the salt given: the salt itself, or its first
/// eight bytes where it is longer, if they are a text.
pub open spec fn usable_salt(salt: Seq<u8>) -> Result<Seq<u8>> {
    if salt.len() <= 8 {
        Ok(salt)
    } else {
        match as_field(salt.subrange(0, 8)) {
            Some(s) => Ok(s),
            None => Err(Error::InvalidHashString),
        }
    }
}

/// The hash of `pass` under the salt given, with the prefix `magic`.
pub open spec fn salted_hash(pass: Seq<u8>, salt: Seq<u8>, magic: Seq<u8>) -> Result<Seq<u8>> {
    match usable_salt(salt) {
        Err(e) => Err(e),
        Ok(s) => md5_crypt_spec(pass, s, magic),
    }
}

/// True when `r` is what a hash function may return that draws the salt
/// itself: the failure of the random source, or the hash of `pass` under
/// some salt of eight characters of the alphabet.
pub open spec fn random_post(
    pass: Seq<u8>,
    magic: Seq<u8>,
    kind: HashKind,
    r: Result<crate::hash::Hash>,
) -> bool {
    match r {
        Err(e) => e == Error::RandomError,
        Ok(h) => h.kind() == kind && exists|salt: Seq<u8>|
            salt.len() == 8 && all_in_alphabet(salt) && #[trigger] md5_crypt_spec(pass, salt, magic)
                == Ok::<Seq<u8>, Error>(h.bytes()),
    }
}

/// True when `r` is what `hash_with` returns for the parameters `setup`.
/// With a salt it is the one hash of the password under that salt. The
/// rounds are fixed and those of the parameters are not looked at.
pub open spec fn setup_post(
    setup: SetupView,
    pass: Seq<u8>,
    magic: Seq<u8>,
    kind: HashKind,
    r: Result<crate::hash::Hash>,
) -> bool {
    match setup.salt {
        Some(salt) => is_outcome(r, kind, salted_hash(pass, salt, magic)),
        None => random_post(pass, magic, kind, r),
    }
}

/// True when `r` is what `hash_with` returns for `params` and `pass`.
pub open spec fn hash_with_post(
    params: Params,
    pass: Seq<u8>,
    magic: Seq<u8>,
    kind: HashKind,
    r: Result<crate::hash::Hash>,
) -> bool {
    match params {
        Params::Text(text) => match parse_spec(text, magic) {
            Err(e) => r == Err::<crate::hash::Hash, Error>(e),
            Ok(setup) => setup_post(setup, pass, magic, kind, r),
        },
        Params::Setup(setup) => setup_post(setup, pass, magic, kind, r),
    }
}

/// The hash that the text `hash` asks for, for the password `pass`.
pub open spec fn rehash(pass: Seq<u8>, hash: Seq<u8>, magic: Seq<u8>) -> Result<Seq<u8>> {
    match parse_spec(hash, magic) {
        Err(e) => Err(e),
        Ok(setup) => salted_hash(pass, setup.salt.unwrap(), magic),
    }
}

/// Whether `hash` is the hash of `pass` under its own salt.
pub open spec fn verify_spec(pass: Seq<u8>, hash: Seq<u8>, magic: Seq<u8>) -> bool {
    rehash(pass, hash, magic) == Ok::<Seq<u8>, Error>(hash)
}

/// A hash is as long as its prefix, its salt of at most eight characters,
/// a `$` and 22 characters of checksum.
pub proof fn lemma_hash_length(pass: Seq<u8>, salt: Seq<u8>, magic: Seq<u8>)
    ensures
        salted_hash(pass, salt, magic) is Ok ==> magic.len() + 23 <= salted_hash(
            pass,
            salt,
            magic,
        ).unwrap().len() <= magic.len() + 31,
{
    if salted_hash(pass, salt, magic) is Ok {
        let s = usable_salt(salt).unwrap();
        lemma_md5_sum(pass, s, magic);
    }
}

/// Reads the salt out of the text of a hash with the prefix `magic`.
pub fn parse_with_magic<'a, const N: usize>(hash: &'a str, magic: &[u8; N]) -> (r: Result<
    HashSetup<'a>,
>)
    ensures
        match parse_spec(hash.spec_bytes(), magic@) {
            Ok(setup) => r is Ok && r.unwrap()@ == setup,
            Err(e) => r == Err::<HashSetup<'a>, Error>(e),
        },
{
    let mut hs = HashSlice::new(hash);
    if !is_text(hs.take(N), magic) {
        return Err(Error::InvalidHashString);
    }
    match hs.take_until(36u8) {
        None => Err(Error::InvalidHashString),
        Some(salt) => Ok(HashSetup { salt: Some(salt), rounds: None }),
    }
}

/// Hashes a password with the parameters `setup` and the prefix `magic`.
pub fn hash_with_magic<'a, const N: usize>(
    setup: HashSetup<'a>,
    pass: &[u8],
    magic: &[u8; N],
    kind: HashKind,
) -> (r: Result<crate::hash::Hash>)
    requires
        is_ascii_bytes(magic@),
    ensures
        setup_post(setup@, pass@, magic@, kind, r),
        r is Ok ==> magic@.len() + 23 <= r.unwrap().bytes().len() <= magic@.len() + 31,
{
    match setup.salt {
        Some(salt) => {
            let bytes = salt.as_bytes();
            let used: &[u8] = if bytes.len() <= MAX_SALT_LEN {
                bytes
            } else {
                match HashSlice::new(salt).take(MAX_SALT_LEN) {
                    Some(s) => s.as_bytes(),
                    None => {
                        return Err(Error::InvalidHashString);
                    },
                }
            };
            let r = finish(kind, md5_crypt(pass, used, magic.as_slice()));
            proof {
                lemma_hash_length(pass@, salt.spec_bytes(), magic@);
            }
            r
        },
        None => {
            let salt = match gen_salt(MAX_SALT_LEN) {
                Ok(s) => s,
                Err(e) => {
                    return Err(e);
                },
            };
            let r = finish(kind, md5_crypt(pass, salt.as_slice(), magic.as_slice()));
            proof {
                lemma_hash_length(pass@, salt@, magic@);
                assert(md5_crypt_spec(pass@, salt@, magic@) == Ok::<Seq<u8>, Error>(
                    r.unwrap().bytes(),
                ));
            }
            r
        },
    }
}

/// Hashes a password under a random salt.
pub fn hash(pass: &[u8]) -> (r: Result<crate::hash::Hash>)
    ensures
        random_post(pass@, MD5_MAGIC@, HashKind::Md5, r),
        r is Ok ==> r.unwrap().well_formed(),
        r is Ok ==> r.unwrap().is_hash_of(pass@),
{
    let r = hash_with_magic(HashSetup { salt: None, rounds: None }, pass, &MD5_MAGIC, HashKind::Md5);
    proof {
        if r is Ok {
            lemma_made_hash_verifies(
                Params::Setup(SetupView { salt: None, rounds: None }),
                pass@,
                MD5_MAGIC@,
                HashKind::Md5,
                r,
            );
        }
    }
    r
}

/// Reads the salt out of the text of a hash.
pub fn parse_md5_hash<'a>(hash: &'a str) -> (r: Result<HashSetup<'a>>)
    ensures
        match parse_spec(hash.spec_bytes(), MD5_MAGIC@) {
            Ok(setup) => r is Ok && r.unwrap()@ == setup,
            Err(e) => r == Err::<HashSetup<'a>, Error>(e),
        },
{
    parse_with_magic(hash, &MD5_MAGIC)
}

/// Hashes a password with the parameters given: the text of a hash, whose
/// salt is taken, or the parameters themselves. A salt of more than eight
/// characters is cut to eight; a character outside the alphabet is an
/// encoding error. Where the salt is left out a random one is drawn.
pub fn hash_with<'a, IHS: IntoHashSetup<'a>>(param: IHS, pass: &[u8]) -> (r: Result<
    crate::hash::Hash,
>)
    ensures
        hash_with_post(params_of(param), pass@, MD5_MAGIC@, HashKind::Md5, r),
        param.hash_text() is Some ==> crate::hash::is_outcome(
            r,
            HashKind::Md5,
            crate::hash::rehash(HashKind::Md5, pass@, param.hash_text().unwrap().spec_bytes()),
        ),
        r is Ok ==> r.unwrap().well_formed(),
        r is Ok ==> r.unwrap().is_hash_of(pass@),
{
    let ghost params = params_of(param);
    let r = match param.into_hash_setup(parse_md5_hash) {
        Ok(hs) => hash_with_magic(hs, pass, &MD5_MAGIC, HashKind::Md5),
        Err(e) => Err(e),
    };
    proof {
        if r is Ok {
            lemma_made_hash_verifies(params, pass@, MD5_MAGIC@, HashKind::Md5, r);
        }
    }
    r
}

/// Whether `hash` is the hash of `pass`. A text that is no hash is not.
pub fn verify(pass: &[u8], hash: &str) -> (r: bool)
    ensures
        r == verify_spec(pass@, hash.spec_bytes(), MD5_MAGIC@),
        r == crate::hash::verifies(HashKind::Md5, pass@, hash.spec_bytes()),
{
    consteq(hash, hash_with(hash, pass))
}


/// A text that opens with the prefix, a salt over the alphabet and a `$`
/// reads as that salt.
pub proof fn lemma_parse_header(text: Seq<u8>, salt: Seq<u8>, magic: Seq<u8>)
    requires
        is_ascii_bytes(magic),
        all_in_alphabet(salt),
        text.len() >= magic.len() + salt.len() + 1,
        text.subrange(0, (magic.len() + salt.len() + 1) as int) == magic + salt + seq![36u8],
    ensures
        parse_spec(text, magic) == Ok::<SetupView, Error>(
            SetupView { salt: Some(salt), rounds: None },
        ),
{
    let n = magic.len() as int;
    let m = salt.len() as int;
    let head = text.subrange(0, n + m + 1);
    crate::encode::lemma_alphabet_is_ascii(salt);
    assert(text.subrange(0, n) =~= magic) by {
        assert forall|i: int| 0 <= i < n implies text.subrange(0, n)[i] == magic[i] by {
            assert(text.subrange(0, n)[i] == head[i]);
        }
    }
    assert(text.subrange(n, n + m) =~= salt) by {
        assert forall|i: int| 0 <= i < salt.len() implies text.subrange(n, n + m)[i]
            == salt[i] by {
            assert(text.subrange(n, n + m)[i] == head[i + n]);
        }
    }
    assert(text[n + m] == 36u8) by {
        assert(text[n + m] == head[n + m]);
    }
    assert forall|i: int| 0 <= i < salt.len() implies salt[i] != 36u8 by {
        assert(crate::encode::in_alphabet(salt[i]));
    }
    crate::parse::lemma_take_field(text, 0, magic);
    crate::parse::lemma_take_until_field(text, magic.len(), salt, 36u8);
}

/// A hash opens with the prefix, the salt that was used and a `$`.
pub proof fn lemma_header_of_hash(pass: Seq<u8>, salt: Seq<u8>, magic: Seq<u8>)
    requires
        md5_crypt_spec(pass, salt, magic) is Ok,
    ensures
        md5_crypt_spec(pass, salt, magic).unwrap().len() == magic.len() + salt.len() + 23,
        md5_crypt_spec(pass, salt, magic).unwrap().subrange(0, (magic.len() + salt.len() + 1) as int)
            == magic + salt + seq![36u8],
{
    let h = md5_crypt_spec(pass, salt, magic).unwrap();
    lemma_md5_sum(pass, salt, magic);
    assert(h.subrange(0, (magic.len() + salt.len() + 1) as int) =~= magic + salt + seq![36u8]);
}

/// Hashing a password again under the parameters of its hash gives the same
/// hash: a hash verifies the password that it was made of.
pub proof fn lemma_round_trip(pass: Seq<u8>, salt: Seq<u8>, magic: Seq<u8>)
    requires
        is_ascii_bytes(magic),
        salted_hash(pass, salt, magic) is Ok,
    ensures
        verify_spec(pass, salted_hash(pass, salt, magic).unwrap(), magic),
{
    let used = usable_salt(salt).unwrap();
    let h = md5_crypt_spec(pass, used, magic).unwrap();
    lemma_header_of_hash(pass, used, magic);
    lemma_parse_header(h, used, magic);
}

/// A text that differs from the hash of a password in the checksum alone
/// does not verify the password.
pub proof fn lemma_mutation(pass: Seq<u8>, salt: Seq<u8>, magic: Seq<u8>, other: Seq<u8>)
    requires
        is_ascii_bytes(magic),
        salted_hash(pass, salt, magic) is Ok,
        crate::hash::differs_in_checksum(salted_hash(pass, salt, magic).unwrap(), other, 22),
    ensures
        !verify_spec(pass, other, magic),
{
    let used = usable_salt(salt).unwrap();
    lemma_header_of_hash(pass, used, magic);
    lemma_parse_header(other, used, magic);
}

/// A salt of more than eight characters counts with its first eight only:
/// where those eight are a text, the outcome is that of the eight alone,
/// and where they are over the alphabet it is a hash, out of which a salt
/// of eight characters is read.
pub proof fn lemma_salt_truncation(pass: Seq<u8>, salt: Seq<u8>, magic: Seq<u8>)
    requires
        is_ascii_bytes(magic),
        salt.len() > 8,
    ensures
        salt.subrange(0, 8).len() == 8,
        vstd::utf8::valid_utf8(salt.subrange(0, 8)) ==> salted_hash(pass, salt, magic)
            == salted_hash(pass, salt.subrange(0, 8), magic),
        all_in_alphabet(salt.subrange(0, 8)) ==> salted_hash(pass, salt, magic)
            == salted_hash(pass, salt.subrange(0, 8), magic) && salted_hash(pass, salt, magic)
            is Ok && parse_spec(salted_hash(pass, salt, magic).unwrap(), magic) == Ok::<
            SetupView,
            Error,
        >(SetupView { salt: Some(salt.subrange(0, 8)), rounds: None }),
{
    let used = salt.subrange(0, 8);
    if all_in_alphabet(used) {
        crate::encode::lemma_alphabet_is_ascii(used);
        crate::text::lemma_ascii_is_utf8(used);
        let h = md5_crypt_spec(pass, used, magic).unwrap();
        lemma_header_of_hash(pass, used, magic);
        lemma_parse_header(h, used, magic);
    }
}

/// True when the parameters name the salt, so that nothing is drawn.
pub open spec fn is_explicit(params: Params) -> bool {
    match params {
        Params::Text(_) => true,
        Params::Setup(setup) => setup.salt is Some,
    }
}

/// Two results of `hash_with` for the same parameters and password are the
/// same where the parameters name the salt: both the same hash or both the
/// same error.
pub proof fn lemma_deterministic(
    params: Params,
    pass: Seq<u8>,
    magic: Seq<u8>,
    kind: HashKind,
    r1: Result<crate::hash::Hash>,
    r2: Result<crate::hash::Hash>,
)
    requires
        is_explicit(params),
        hash_with_post(params, pass, magic, kind, r1),
        hash_with_post(params, pass, magic, kind, r2),
    ensures
        crate::hash::same_outcome(r1, r2),
{
}

/// A hash of `$1$` or `$apr1$` is recognised as one of its format.
pub proof fn lemma_recognized(pass: Seq<u8>, salt: Seq<u8>)
    ensures
        salted_hash(pass, salt, MD5_MAGIC@) is Ok ==> crate::hash::recognize(
            salted_hash(pass, salt, MD5_MAGIC@).unwrap(),
        ) == Ok::<HashKind, Error>(HashKind::Md5),
        salted_hash(pass, salt, crate::crypt::apr1::APR1_MAGIC@) is Ok ==> crate::hash::recognize(
            salted_hash(pass, salt, crate::crypt::apr1::APR1_MAGIC@).unwrap(),
        ) == Ok::<HashKind, Error>(HashKind::Apr1),
{
    if salted_hash(pass, salt, MD5_MAGIC@) is Ok {
        let magic = MD5_MAGIC@;
        let used = usable_salt(salt).unwrap();
        let h = md5_crypt_spec(pass, used, magic).unwrap();
        lemma_header_of_hash(pass, used, magic);
        let head = h.subrange(0, (magic.len() + used.len() + 1) as int);
        assert(h.subrange(0, 1) =~= seq![36u8]) by {
            assert(h.subrange(0, 1)[0] == head[0]);
        }
        assert(h.subrange(1, 2) =~= seq![49u8]) by {
            assert(h.subrange(1, 2)[0] == head[1]);
        }
        assert(h[2] == 36u8) by {
            assert(h[2] == head[2]);
        }
        assert(is_ascii_bytes(seq![36u8]));
        assert(is_ascii_bytes(seq![49u8]));
        crate::parse::lemma_take_field(h, 0, seq![36u8]);
        crate::parse::lemma_take_until_field(h, 1, seq![49u8], 36u8);
    }
    if salted_hash(pass, salt, crate::crypt::apr1::APR1_MAGIC@) is Ok {
        let magic = crate::crypt::apr1::APR1_MAGIC@;
        let used = usable_salt(salt).unwrap();
        let h = md5_crypt_spec(pass, used, magic).unwrap();
        lemma_header_of_hash(pass, used, magic);
        let head = h.subrange(0, (magic.len() + used.len() + 1) as int);
        let token = seq![97u8, 112u8, 114u8, 49u8];
        assert(h.subrange(0, 1) =~= seq![36u8]) by {
            assert(h.subrange(0, 1)[0] == head[0]);
        }
        assert(h.subrange(1, 5) =~= token) by {
            assert forall|i: int| 0 <= i < 4 implies h.subrange(1, 5)[i] == token[i] by {
                assert(h.subrange(1, 5)[i] == head[i + 1]);
            }
        }
        assert(h[5] == 36u8) by {
            assert(h[5] == head[5]);
        }
        assert(is_ascii_bytes(seq![36u8]));
        assert(is_ascii_bytes(token));
        crate::parse::lemma_take_field(h, 0, seq![36u8]);
        crate::parse::lemma_take_until_field(h, 1, token, 36u8);
        assert(token != seq![49u8]) by {
            assert(token.len() != seq![49u8].len());
        }
    }
}


/// A hash that `hash` or `hash_with` has made of a password verifies the
/// password: hashing the password again under the hash gives the hash.
pub proof fn lemma_made_hash_verifies(
    params: Params,
    pass: Seq<u8>,
    magic: Seq<u8>,
    kind: HashKind,
    r: Result<crate::hash::Hash>,
)
    requires
        is_ascii_bytes(magic),
        r is Ok,
        hash_with_post(params, pass, magic, kind, r),
    ensures
        verify_spec(pass, r.unwrap().bytes(), magic),
        magic == MD5_MAGIC@ && kind == HashKind::Md5 ==> r.unwrap().well_formed(),
        magic == crate::crypt::apr1::APR1_MAGIC@ && kind == HashKind::Apr1
            ==> r.unwrap().well_formed(),
{
    let setup = match params {
        Params::Text(text) => parse_spec(text, magic).unwrap(),
        Params::Setup(setup) => setup,
    };
    match setup.salt {
        Some(salt) => {
            lemma_round_trip(pass, salt, magic);
            lemma_recognized(pass, salt);
        },
        None => {
            let s = choose|s: Seq<u8>|
                s.len() == 8 && all_in_alphabet(s) && #[trigger] md5_crypt_spec(pass, s, magic)
                    == Ok::<Seq<u8>, Error>(r.unwrap().bytes());
            lemma_round_trip(pass, s, magic);
            lemma_recognized(pass, s);
        },
    }
}

} // verus!
