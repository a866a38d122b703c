//! The SHA-256 hash, `$5$`: an optional `rounds=` field, up to sixteen
//! characters of salt and 43 of checksum.
//!
//! The SHA-512 hash, `$6$`, is built the same way on the other digest; what
//! the two share stands here, with the digest as a parameter.
use vstd::prelude::*;
use vstd::slice::*;
use vstd::string::*;
use crate::encode::{all_in_alphabet, parse_decimal, parse_decimal_spec};
use crate::error::{Error, Result};
use crate::hash::{finish, is_outcome, HashKind};
use crate::internal::sha2_crypt::{
    lemma_sha2_sum, rounds_field, sha2_crypt, sha2_crypt_spec, sha2_magic, sha2_magic_of,
    sha2_rounds_of, Sha2, SHA2_MAX_ROUNDS, SHA2_MAX_SALT_LEN, SHA2_MIN_ROUNDS,
};
use crate::parse::{take_spec, take_until_spec, HashIterator, HashSlice};
use crate::random::gen_salt;
use crate::text::bytes_eq;
use crate::traits::{params_of, IntoHashSetup, Params};
use crate::{consteq, HashSetup, SetupView};

verus! {

/// The number of rounds that is run where none is given.
pub const DEFAULT_ROUNDS: u32 = crate::internal::sha2_crypt::SHA2_DEFAULT_ROUNDS;

/// The least number of rounds.
pub const MIN_ROUNDS: u32 = SHA2_MIN_ROUNDS;

/// The greatest number of rounds.
pub const MAX_ROUNDS: u32 = SHA2_MAX_ROUNDS;

/// The greatest length of the salt.
pub const MAX_SALT_LEN: usize = SHA2_MAX_SALT_LEN;

/// The least length of a hash.
pub const HASH_LENGTH_MIN: usize = 47;

/// The greatest length of a hash.
pub const HASH_LENGTH_MAX: usize = 80;

/// The format of the digest.
pub open spec fn kind_of(v: Sha2) -> HashKind {
    match v {
        Sha2::Sha256 => HashKind::Sha256,
        Sha2::Sha512 => HashKind::Sha512,
    }
}

/// The word that opens the rounds field, `rounds=`.
pub open spec fn rounds_word() -> Seq<u8> {
    seq![114u8, 111u8, 117u8, 110u8, 100u8, 115u8, 61u8]
}

/// True when the field opens with `rounds=`.
pub open spec fn is_rounds_field(field: Seq<u8>) -> bool {
    field.len() >= 7 && field.subrange(0, 7) == rounds_word()
}

/// What is read out of the text of a hash: the rounds, where the field
/// behind the prefix opens with `rounds=`, and the salt, which is the next
/// field. A rounds field that spells no number is an error of the rounds.
/// The checksum is not looked at and need not be there.
pub open spec fn parse_spec(hash: Seq<u8>, v: Sha2) -> Result<SetupView> {
    let first = take_spec(hash, 0, 3);
    if first.0 != Some(sha2_magic(v)) {
        Err(Error::InvalidHashString)
    } else {
        let second = take_until_spec(hash, first.1, 36u8);
        match second.0 {
            None => Err(Error::InvalidHashString),
            Some(field) => if is_rounds_field(field) {
                match parse_decimal_spec(field.subrange(7, field.len() as int)) {
                    None => Err(Error::InvalidRounds),
                    Some(n) => match take_until_spec(hash, second.1, 36u8).0 {
                        None => Err(Error::InvalidHashString),
                        Some(salt) => Ok(SetupView { salt: Some(salt), rounds: Some(n) }),
                    },
                }
            } else {
                Ok(SetupView { salt: Some(field), rounds: None })
            },
        }
    }
}

/// True when `r` is what a hash function may return that draws the salt
/// itself: the failure of the random source, or the hash of `pass` under
/// some salt of sixteen characters of the alphabet.
pub open spec fn random_post(
    v: Sha2,
    pass: Seq<u8>,
    rounds: Option<u32>,
    r: Result<crate::hash::Hash>,
) -> bool {
    match r {
        Err(e) => e == Error::RandomError,
        Ok(h) => h.kind() == kind_of(v) && exists|salt: Seq<u8>|
            salt.len() == 16 && all_in_alphabet(salt) && #[trigger] sha2_crypt_spec(
                v,
                pass,
                salt,
                rounds,
            ) == Ok::<Seq<u8>, Error>(h.bytes()),
    }
}

/// True when `r` is what `hash_with` returns for the parameters `setup`.
/// With a salt it is the one hash of the password under that salt and the
/// rounds. Without one, the rounds are still held to their range.
pub open spec fn setup_post(
    setup: SetupView,
    pass: Seq<u8>,
    v: Sha2,
    r: Result<crate::hash::Hash>,
) -> bool {
    match setup.salt {
        Some(salt) => is_outcome(r, kind_of(v), sha2_crypt_spec(v, pass, salt, setup.rounds)),
        None => if sha2_rounds_of(setup.rounds) < SHA2_MIN_ROUNDS || sha2_rounds_of(setup.rounds)
            > SHA2_MAX_ROUNDS {
            r == Err::<crate::hash::Hash, Error>(Error::InvalidRounds)
        } else {
            random_post(v, pass, setup.rounds, r)
        },
    }
}

/// True when `r` is what `hash_with` returns for `params` and `pass`.
pub open spec fn hash_with_post(
    params: Params,
    pass: Seq<u8>,
    v: Sha2,
    r: Result<crate::hash::Hash>,
) -> bool {
    match params {
        Params::Text(text) => match parse_spec(text, v) {
            Err(e) => r == Err::<crate::hash::Hash, Error>(e),
            Ok(setup) => setup_post(setup, pass, v, r),
        },
        Params::Setup(setup) => setup_post(setup, pass, v, r),
    }
}

/// The hash that the text `hash` asks for, for the password `pass`.
pub open spec fn rehash(pass: Seq<u8>, hash: Seq<u8>, v: Sha2) -> Result<Seq<u8>> {
    match parse_spec(hash, v) {
        Err(e) => Err(e),
        Ok(setup) => sha2_crypt_spec(v, pass, setup.salt.unwrap(), setup.rounds),
    }
}

/// Whether `hash` is the hash of `pass` under its own rounds and salt.
pub open spec fn verify_spec(pass: Seq<u8>, hash: Seq<u8>, v: Sha2) -> bool {
    rehash(pass, hash, v) == Ok::<Seq<u8>, Error>(hash)
}

/// The length of a hash is one of its format.
pub proof fn lemma_hash_length(v: Sha2, pass: Seq<u8>, salt: Seq<u8>, rounds: Option<u32>)
    ensures
        sha2_crypt_spec(v, pass, salt, rounds) is Ok ==> crate::hash::min_length(kind_of(v))
            <= sha2_crypt_spec(v, pass, salt, rounds).unwrap().len() <= crate::hash::max_length(
            kind_of(v),
        ),
{
    if sha2_crypt_spec(v, pass, salt, rounds) is Ok {
        lemma_sha2_sum(v, pass, salt, sha2_rounds_of(rounds));
        match rounds {
            Some(n) => {
                crate::encode::lemma_decimal(n as nat);
                lemma_decimal_nine(n as nat);
            },
            None => {},
        }
    }
}

proof fn lemma_decimal_nine(n: nat)
    requires
        n <= 999_999_999,
    ensures
        crate::encode::decimal(n).len() <= 9,
{
    reveal_with_fuel(crate::encode::decimal, 10);
}

/// Reads the rounds and the salt out of the text of a hash.
pub fn parse_sha2<'a>(hash: &'a str, v: Sha2) -> (r: Result<HashSetup<'a>>)
    ensures
        match parse_spec(hash.spec_bytes(), v) {
            Ok(setup) => r is Ok && r.unwrap()@ == setup,
            Err(e) => r == Err::<HashSetup<'a>, Error>(e),
        },
{
    let mut hs = HashSlice::new(hash);
    let magic = sha2_magic_of(v);
    let opened = match hs.take(3) {
        Some(s) => bytes_eq(s.as_bytes(), magic.as_slice()),
        None => false,
    };
    if !opened {
        return Err(Error::InvalidHashString);
    }
    let field = match hs.take_until(36u8) {
        Some(f) => f,
        None => {
            return Err(Error::InvalidHashString);
        },
    };
    let bytes = field.as_bytes();
    let word = [114u8, 111u8, 117u8, 110u8, 100u8, 115u8, 61u8];
    proof {
        assert(word@ =~= rounds_word());
    }
    if bytes.len() >= 7 && bytes_eq(slice_subrange(bytes, 0, 7), word.as_slice()) {
        let n = match parse_decimal(slice_subrange(bytes, 7, bytes.len())) {
            Some(n) => n,
            None => {
                return Err(Error::InvalidRounds);
            },
        };
        match hs.take_until(36u8) {
            Some(salt) => Ok(HashSetup { salt: Some(salt), rounds: Some(n) }),
            None => Err(Error::InvalidHashString),
        }
    } else {
        Ok(HashSetup { salt: Some(field), rounds: None })
    }
}

/// Hashes a password with the parameters `setup` on the digest `v`.
pub fn hash_with_setup<'a>(setup: HashSetup<'a>, pass: &[u8], v: Sha2) -> (r: Result<
    crate::hash::Hash,
>)
    ensures
        setup_post(setup@, pass@, v, r),
        r is Ok ==> r.unwrap().well_formed(),
        r is Ok ==> r.unwrap().is_hash_of(pass@),
{
    let kind = match v {
        Sha2::Sha256 => HashKind::Sha256,
        Sha2::Sha512 => HashKind::Sha512,
    };
    match setup.salt {
        Some(salt) => {
            let r = finish(kind, sha2_crypt(v, pass, salt.as_bytes(), setup.rounds));
            proof {
                if sha2_crypt_spec(v, pass@, salt.spec_bytes(), setup.rounds) is Ok {
                    lemma_recognized(v, pass@, salt.spec_bytes(), setup.rounds);
                    lemma_round_trip(v, pass@, salt.spec_bytes(), setup.rounds);
                }
            }
            r
        },
        None => {
            let n = match setup.rounds {
                Some(n) => n,
                None => DEFAULT_ROUNDS,
            };
            if n < MIN_ROUNDS || n > MAX_ROUNDS {
                return Err(Error::InvalidRounds);
            }
            let salt = match gen_salt(MAX_SALT_LEN) {
                Ok(s) => s,
                Err(e) => {
                    return Err(e);
                },
            };
            let r = finish(kind, sha2_crypt(v, pass, salt.as_slice(), setup.rounds));
            proof {
                lemma_recognized(v, pass@, salt@, setup.rounds);
                lemma_round_trip(v, pass@, salt@, setup.rounds);
                assert(sha2_crypt_spec(v, pass@, salt@, setup.rounds) == Ok::<Seq<u8>, Error>(
                    r.unwrap().bytes(),
                ));
            }
            r
        },
    }
}

/// Hashes a password under a random salt with the default rounds.
pub fn hash(pass: &[u8]) -> (r: Result<crate::hash::Hash>)
    ensures
        random_post(Sha2::Sha256, pass@, None, r),
        r is Ok ==> r.unwrap().well_formed(),
        r is Ok ==> r.unwrap().is_hash_of(pass@),
{
    hash_with_setup(HashSetup { salt: None, rounds: None }, pass, Sha2::Sha256)
}

/// Reads the rounds and the salt out of the text of a hash.
pub fn parse_sha256_hash<'a>(hash: &'a str) -> (r: Result<HashSetup<'a>>)
    ensures
        match parse_spec(hash.spec_bytes(), Sha2::Sha256) {
            Ok(setup) => r is Ok && r.unwrap()@ == setup,
            Err(e) => r == Err::<HashSetup<'a>, Error>(e),
        },
{
    parse_sha2(hash, Sha2::Sha256)
}

/// Hashes a password with the parameters given: the text of a hash, whose
/// rounds and salt are taken, or the parameters themselves. Rounds outside
/// 1000 to 999,999,999 are refused, and so is a salt of more than sixteen
/// characters; a character outside the alphabet is an encoding error. Where
/// the salt is left out a random one is drawn.
pub fn hash_with<'a, IHS: IntoHashSetup<'a>>(param: IHS, pass: &[u8]) -> (r: Result<
    crate::hash::Hash,
>)
    ensures
        hash_with_post(params_of(param), pass@, Sha2::Sha256, r),
        param.hash_text() is Some ==> crate::hash::is_outcome(
            r,
            HashKind::Sha256,
            crate::hash::rehash(HashKind::Sha256, pass@, param.hash_text().unwrap().spec_bytes()),
        ),
        r is Ok ==> r.unwrap().well_formed(),
        r is Ok ==> r.unwrap().is_hash_of(pass@),
{
    match param.into_hash_setup(parse_sha256_hash) {
        Ok(hs) => hash_with_setup(hs, pass, Sha2::Sha256),
        Err(e) => Err(e),
    }
}

/// Whether `hash` is the hash of `pass`. A text that is no hash is not.
pub fn verify(pass: &[u8], hash: &str) -> (r: bool)
    ensures
        r == verify_spec(pass@, hash.spec_bytes(), Sha2::Sha256),
        r == crate::hash::verifies(HashKind::Sha256, pass@, hash.spec_bytes()),
{
    consteq(hash, hash_with(hash, pass))
}


/// The text from which rounds and salt are read: the prefix, the rounds
/// field, the salt and a `$`.
pub open spec fn header(v: Sha2, salt: Seq<u8>, rounds: Option<u32>) -> Seq<u8> {
    sha2_magic(v) + rounds_field(rounds) + salt + seq![36u8]
}

/// A text that opens with the prefix, the rounds field, a salt over the
/// alphabet and a `$` reads as those rounds and that salt.
pub proof fn lemma_parse_header(text: Seq<u8>, v: Sha2, salt: Seq<u8>, rounds: Option<u32>)
    requires
        all_in_alphabet(salt),
        text.len() >= header(v, salt, rounds).len(),
        text.subrange(0, header(v, salt, rounds).len() as int) == header(v, salt, rounds),
    ensures
        parse_spec(text, v) == Ok::<SetupView, Error>(SetupView { salt: Some(salt), rounds: rounds }),
{
    let magic = sha2_magic(v);
    let head = header(v, salt, rounds);
    let m = salt.len() as int;
    crate::encode::lemma_alphabet_is_ascii(salt);
    assert(magic.len() == 3);
    assert(crate::text::is_ascii_bytes(magic));
    assert forall|i: int| 0 <= i < head.len() implies text[i] == head[i] by {
        assert(text.subrange(0, head.len() as int)[i] == text[i]);
    }
    assert(text.subrange(0, 3) =~= magic) by {
        assert forall|i: int| 0 <= i < 3 implies text.subrange(0, 3)[i] == magic[i] by {
            assert(head[i] == magic[i]);
        }
    }
    crate::parse::lemma_take_field(text, 0, magic);
    assert forall|i: int| 0 <= i < salt.len() implies salt[i] != 36u8 && salt[i] != 61u8 by {
        assert(crate::encode::in_alphabet(salt[i]));
    }
    match rounds {
        Some(n) => {
            let digits = crate::encode::decimal(n as nat);
            let d = digits.len() as int;
            crate::encode::lemma_decimal(n as nat);
            crate::encode::lemma_parse_decimal(n);
            let field = rounds_word() + digits;
            assert(rounds_field(rounds) =~= field + seq![36u8]);
            assert(head.len() == 3 + 7 + d + 1 + m + 1);
            assert forall|i: int| 0 <= i < field.len() implies field[i] != 36u8 && field[i]
                < 128 by {
                if i >= 7 {
                    assert(field[i] == digits[i - 7]);
                }
            }
            assert(text.subrange(3, 3 + 7 + d) =~= field) by {
                assert forall|i: int| 0 <= i < 7 + d implies text.subrange(3, 3 + 7 + d)[i]
                    == field[i] by {
                    assert(head[i + 3] == field[i]);
                }
            }
            assert(text[3 + 7 + d] == 36u8) by {
                assert(head[3 + 7 + d] == 36u8);
            }
            crate::parse::lemma_take_until_field(text, 3, field, 36u8);
            assert(field.subrange(0, 7) =~= rounds_word());
            assert(field.subrange(7, field.len() as int) =~= digits);
            let p = 3 + 7 + d + 1;
            assert(text.subrange(p, p + m) =~= salt) by {
                assert forall|i: int| 0 <= i < m implies text.subrange(p, p + m)[i] == salt[i] by {
                    assert(head[i + p] == salt[i]);
                }
            }
            assert(text[p + m] == 36u8) by {
                assert(head[p + m] == 36u8);
            }
            crate::parse::lemma_take_until_field(text, p as nat, salt, 36u8);
        },
        None => {
            assert(rounds_field(rounds) =~= Seq::<u8>::empty());
            assert(head.len() == 3 + m + 1);
            assert(text.subrange(3, 3 + m) =~= salt) by {
                assert forall|i: int| 0 <= i < m implies text.subrange(3, 3 + m)[i] == salt[i] by {
                    assert(head[i + 3] == salt[i]);
                }
            }
            assert(text[3 + m] == 36u8) by {
                assert(head[3 + m] == 36u8);
            }
            crate::parse::lemma_take_until_field(text, 3, salt, 36u8);
            if is_rounds_field(salt) {
                assert(salt.subrange(0, 7)[6] == rounds_word()[6]);
                assert(salt[6] == 61u8);
            }
        },
    }
}

/// A hash opens with its header and closes with its checksum.
pub proof fn lemma_header_of_hash(v: Sha2, pass: Seq<u8>, salt: Seq<u8>, rounds: Option<u32>)
    requires
        sha2_crypt_spec(v, pass, salt, rounds) is Ok,
    ensures
        sha2_crypt_spec(v, pass, salt, rounds).unwrap().len() == header(v, salt, rounds).len()
            + crate::internal::sha2_crypt::sha2_checksum_len(v),
        sha2_crypt_spec(v, pass, salt, rounds).unwrap().subrange(
            0,
            header(v, salt, rounds).len() as int,
        ) == header(v, salt, rounds),
{
    let h = sha2_crypt_spec(v, pass, salt, rounds).unwrap();
    lemma_sha2_sum(v, pass, salt, sha2_rounds_of(rounds));
    assert(h.subrange(0, header(v, salt, rounds).len() as int) =~= header(v, salt, rounds));
}

/// Hashing a password again under the parameters of its hash gives the same
/// hash: a hash verifies the password that it was made of.
pub proof fn lemma_round_trip(v: Sha2, pass: Seq<u8>, salt: Seq<u8>, rounds: Option<u32>)
    requires
        sha2_crypt_spec(v, pass, salt, rounds) is Ok,
    ensures
        verify_spec(pass, sha2_crypt_spec(v, pass, salt, rounds).unwrap(), v),
{
    let h = sha2_crypt_spec(v, pass, salt, rounds).unwrap();
    lemma_header_of_hash(v, pass, salt, rounds);
    lemma_parse_header(h, v, salt, rounds);
}

/// A text that differs from the hash of a password in the checksum alone
/// does not verify the password.
pub proof fn lemma_mutation(
    v: Sha2,
    pass: Seq<u8>,
    salt: Seq<u8>,
    rounds: Option<u32>,
    other: Seq<u8>,
)
    requires
        sha2_crypt_spec(v, pass, salt, rounds) is Ok,
        crate::hash::differs_in_checksum(
            sha2_crypt_spec(v, pass, salt, rounds).unwrap(),
            other,
            crate::internal::sha2_crypt::sha2_checksum_len(v),
        ),
    ensures
        !verify_spec(pass, other, v),
{
    lemma_header_of_hash(v, pass, salt, rounds);
    lemma_parse_header(other, v, salt, rounds);
}

/// True when the parameters name the salt, so that nothing is drawn.
pub open spec fn is_explicit(params: Params) -> bool {
    match params {
        Params::Text(_) => true,
        Params::Setup(setup) => setup.salt is Some,
    }
}

/// Two results of `hash_with` for the same parameters and password are the
/// same where the parameters name the salt: both the same hash or both the
/// same error.
pub proof fn lemma_deterministic(
    params: Params,
    pass: Seq<u8>,
    v: Sha2,
    r1: Result<crate::hash::Hash>,
    r2: Result<crate::hash::Hash>,
)
    requires
        is_explicit(params),
        hash_with_post(params, pass, v, r1),
        hash_with_post(params, pass, v, r2),
    ensures
        crate::hash::same_outcome(r1, r2),
{
}

/// A hash is recognised as one of its format.
pub proof fn lemma_recognized(v: Sha2, pass: Seq<u8>, salt: Seq<u8>, rounds: Option<u32>)
    requires
        sha2_crypt_spec(v, pass, salt, rounds) is Ok,
    ensures
        crate::hash::recognize(sha2_crypt_spec(v, pass, salt, rounds).unwrap()) == Ok::<
            HashKind,
            Error,
        >(kind_of(v)),
{
    let h = sha2_crypt_spec(v, pass, salt, rounds).unwrap();
    lemma_hash_length(v, pass, salt, rounds);
    lemma_header_of_hash(v, pass, salt, rounds);
    let head = header(v, salt, rounds);
    let magic = sha2_magic(v);
    assert forall|i: int| 0 <= i < 3 implies h[i] == magic[i] by {
        assert(h.subrange(0, head.len() as int)[i] == h[i]);
        assert(head[i] == magic[i]);
    }
    let token = seq![magic[1]];
    assert(h.subrange(0, 1) =~= seq![36u8]);
    assert(h.subrange(1, 2) =~= token);
    assert(crate::text::is_ascii_bytes(seq![36u8]));
    assert(crate::text::is_ascii_bytes(token));
    crate::parse::lemma_take_field(h, 0, seq![36u8]);
    crate::parse::lemma_take_until_field(h, 1, token, 36u8);
    assert(token =~= seq![53u8] || token =~= seq![54u8]);
    assert(seq![53u8][0] != seq![49u8][0]);
    assert(seq![54u8][0] != seq![49u8][0]);
    assert(seq![54u8][0] != seq![53u8][0]);
}


/// A hash that `hash` or `hash_with` has made of a password verifies the
/// password: hashing the password again under the hash gives the hash.
pub proof fn lemma_made_hash_verifies(
    params: Params,
    pass: Seq<u8>,
    v: Sha2,
    r: Result<crate::hash::Hash>,
)
    requires
        r is Ok,
        hash_with_post(params, pass, v, r),
    ensures
        verify_spec(pass, r.unwrap().bytes(), v),
{
    let setup = match params {
        Params::Text(text) => parse_spec(text, v).unwrap(),
        Params::Setup(setup) => setup,
    };
    match setup.salt {
        Some(salt) => {
            lemma_round_trip(v, pass, salt, setup.rounds);
        },
        None => {
            let s = choose|s: Seq<u8>|
                s.len() == 16 && all_in_alphabet(s) && #[trigger] sha2_crypt_spec(
                    v,
                    pass,
                    s,
                    setup.rounds,
                ) == Ok::<Seq<u8>, Error>(r.unwrap().bytes());
            lemma_round_trip(v, pass, s, setup.rounds);
        },
    }
}

} // verus!
