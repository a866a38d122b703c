//! The HMAC-SHA1 hash, `$sha1$`: the rounds in decimal, up to 64 characters
//! of salt and 28 of checksum.
use vstd::prelude::*;
use vstd::string::*;
use crate::encode::{all_in_alphabet, check_alphabet, parse_decimal, parse_decimal_spec};
use crate::error::{Error, Result};
use crate::hash::{finish, is_outcome, is_text, HashKind};
use crate::internal::sha1_crypt::{
    lemma_sha1_sum, sha1_crypt, sha1_crypt_spec, SHA1_DEFAULT_ROUNDS, SHA1_MAGIC,
    SHA1_MAX_SALT_LEN, SHA1_SALT_LEN,
};
use crate::parse::{take_spec, take_until_spec, HashIterator, HashSlice};
use crate::random::{gen_salt, vary_rounds};
use crate::text::to_vec;
use crate::traits::{params_of, IntoHashSetup, Params};
use crate::{consteq, HashSetup, SetupView};

verus! {

/// The number of rounds at which, or not far below, the rounds are drawn
/// where none are given.
pub const DEFAULT_ROUNDS: u32 = SHA1_DEFAULT_ROUNDS;

/// The greatest length of the salt.
pub const MAX_SALT_LEN: usize = SHA1_MAX_SALT_LEN;

/// The length of the salt that is drawn where none is given.
pub const DEFAULT_SALT_LEN: usize = SHA1_SALT_LEN;

/// The least length of a hash.
pub const HASH_LENGTH_MIN: usize = 37;

/// The greatest length of a hash.
pub const HASH_LENGTH_MAX: usize = 110;

/// What is read out of the text of a hash: the rounds, which stand behind
/// the prefix, and the salt, which is the next field. A rounds field that
/// spells no number is an error of the rounds. The checksum is not looked
/// at and need not be there.
pub open spec fn parse_spec(hash: Seq<u8>) -> Result<SetupView> {
    let first = take_spec(hash, 0, 6);
    if first.0 != Some(SHA1_MAGIC@) {
        Err(Error::InvalidHashString)
    } else {
        let second = take_until_spec(hash, first.1, 36u8);
        match second.0 {
            None => Err(Error::InvalidHashString),
            Some(digits) => match parse_decimal_spec(digits) {
                None => Err(Error::InvalidRounds),
                Some(n) => match take_until_spec(hash, second.1, 36u8).0 {
                    None => Err(Error::InvalidHashString),
                    Some(salt) => Ok(SetupView { salt: Some(salt), rounds: Some(n) }),
                },
            },
        }
    }
}

/// True when `salt` may be the salt of a hash made for `given`: the salt
/// given, or any salt of eight characters of the alphabet where none is.
pub open spec fn salt_fits(given: Option<Seq<u8>>, salt: Seq<u8>) -> bool {
    match given {
        Some(s) => salt == s,
        None => salt.len() == 8 && all_in_alphabet(salt),
    }
}

/// True when `rounds` may be the rounds of a hash made for `given`: the
/// rounds given, or where none are, any number from the default down to
/// less than a quarter below it.
pub open spec fn rounds_fit(given: Option<u32>, rounds: u32) -> bool {
    match given {
        Some(n) => rounds == n,
        None => DEFAULT_ROUNDS - DEFAULT_ROUNDS / 4 < rounds <= DEFAULT_ROUNDS,
    }
}

/// The error of the parameters that are given, if they have one: no rounds
/// at all, a salt of more than 64 bytes, or a salt with a byte outside the
/// alphabet.
pub open spec fn setup_error(setup: SetupView) -> Option<Error> {
    if setup.rounds == Some(0u32) {
        Some(Error::InvalidRounds)
    } else if setup.salt is Some && setup.salt.unwrap().len() > MAX_SALT_LEN {
        Some(Error::InvalidHashString)
    } else if setup.salt is Some && !all_in_alphabet(setup.salt.unwrap()) {
        Some(Error::EncodingError)
    } else {
        None
    }
}

/// True when `r` is what `hash_with` returns for the parameters `setup`.
/// With rounds and salt it is the one hash of the password under them.
/// Without one of them, that one is drawn: `r` is the failure of the random
/// source, or a hash under rounds and salt that fit.
pub open spec fn setup_post(setup: SetupView, pass: Seq<u8>, r: Result<crate::hash::Hash>) -> bool {
    match setup_error(setup) {
        Some(e) => r == Err::<crate::hash::Hash, Error>(e),
        None => if setup.salt is Some && setup.rounds is Some {
            is_outcome(
                r,
                HashKind::Sha1,
                sha1_crypt_spec(pass, setup.salt.unwrap(), setup.rounds.unwrap()),
            )
        } else {
            match r {
                Err(e) => e == Error::RandomError,
                Ok(h) => h.kind() == HashKind::Sha1 && exists|salt: Seq<u8>, rounds: u32|
                    salt_fits(setup.salt, salt) && rounds_fit(setup.rounds, rounds)
                        && #[trigger] sha1_crypt_spec(pass, salt, rounds) == Ok::<Seq<u8>, Error>(
                        h.bytes(),
                    ),
            }
        },
    }
}

/// True when `r` is what `hash_with` returns for `params` and `pass`.
pub open spec fn hash_with_post(params: Params, pass: Seq<u8>, r: Result<crate::hash::Hash>) -> bool {
    match params {
        Params::Text(text) => match parse_spec(text) {
            Err(e) => r == Err::<crate::hash::Hash, Error>(e),
            Ok(setup) => setup_post(setup, pass, r),
        },
        Params::Setup(setup) => setup_post(setup, pass, r),
    }
}

/// The hash that the text `hash` asks for, for the password `pass`.
pub open spec fn rehash(pass: Seq<u8>, hash: Seq<u8>) -> Result<Seq<u8>> {
    match parse_spec(hash) {
        Err(e) => Err(e),
        Ok(setup) => sha1_crypt_spec(pass, setup.salt.unwrap(), setup.rounds.unwrap()),
    }
}

/// Whether `hash` is the hash of `pass` under its own rounds and salt.
pub open spec fn verify_spec(pass: Seq<u8>, hash: Seq<u8>) -> bool {
    rehash(pass, hash) == Ok::<Seq<u8>, Error>(hash)
}

/// The length of a hash is one of the format.
pub proof fn lemma_hash_length(pass: Seq<u8>, salt: Seq<u8>, rounds: u32)
    ensures
        sha1_crypt_spec(pass, salt, rounds) is Ok ==> 37 <= sha1_crypt_spec(
            pass,
            salt,
            rounds,
        ).unwrap().len() <= 110,
{
    if sha1_crypt_spec(pass, salt, rounds) is Ok {
        lemma_sha1_sum(pass, salt, rounds);
        crate::encode::lemma_decimal(rounds as nat);
    }
}

/// Reads the rounds and the salt out of the text of a hash.
pub fn parse_sha1_hash<'a>(hash: &'a str) -> (r: Result<HashSetup<'a>>)
    ensures
        match parse_spec(hash.spec_bytes()) {
            Ok(setup) => r is Ok && r.unwrap()@ == setup,
            Err(e) => r == Err::<HashSetup<'a>, Error>(e),
        },
{
    let mut hs = HashSlice::new(hash);
    if !is_text(hs.take(6), &SHA1_MAGIC) {
        return Err(Error::InvalidHashString);
    }
    let n = match hs.take_until(36u8) {
        None => {
            return Err(Error::InvalidHashString);
        },
        Some(digits) => match parse_decimal(digits.as_bytes()) {
            Some(n) => n,
            None => {
                return Err(Error::InvalidRounds);
            },
        },
    };
    match hs.take_until(36u8) {
        Some(salt) => Ok(HashSetup { salt: Some(salt), rounds: Some(n) }),
        None => Err(Error::InvalidHashString),
    }
}

/// Hashes a password with the parameters `setup`.
pub fn hash_with_setup<'a>(setup: HashSetup<'a>, pass: &[u8]) -> (r: Result<crate::hash::Hash>)
    ensures
        setup_post(setup@, pass@, r),
        r is Ok ==> r.unwrap().well_formed(),
        r is Ok ==> r.unwrap().is_hash_of(pass@),
{
    match setup.rounds {
        Some(n) => {
            if n == 0 {
                return Err(Error::InvalidRounds);
            }
        },
        None => {},
    }
    match setup.salt {
        Some(s) => {
            if s.as_bytes().len() > MAX_SALT_LEN {
                return Err(Error::InvalidHashString);
            }
            if !check_alphabet(s.as_bytes()) {
                return Err(Error::EncodingError);
            }
        },
        None => {},
    }
    let rounds: u32 = match setup.rounds {
        Some(n) => n,
        None => match vary_rounds(DEFAULT_ROUNDS) {
            Ok(n) => n,
            Err(e) => {
                return Err(e);
            },
        },
    };
    let salt: Vec<u8> = match setup.salt {
        Some(s) => to_vec(s.as_bytes()),
        None => match gen_salt(DEFAULT_SALT_LEN) {
            Ok(s) => s,
            Err(e) => {
                return Err(e);
            },
        },
    };
    let r = finish(HashKind::Sha1, sha1_crypt(pass, salt.as_slice(), rounds));
    proof {
        lemma_recognized(pass@, salt@, rounds);
        lemma_round_trip(pass@, salt@, rounds);
        assert(salt_fits(setup@.salt, salt@));
        assert(rounds_fit(setup@.rounds, rounds));
        assert(sha1_crypt_spec(pass@, salt@, rounds) == Ok::<Seq<u8>, Error>(r.unwrap().bytes()));
    }
    r
}

/// Hashes a password under a random salt with rounds drawn at or not far
/// below the default.
pub fn hash(pass: &[u8]) -> (r: Result<crate::hash::Hash>)
    ensures
        setup_post(SetupView { salt: None, rounds: None }, pass@, r),
        r is Ok ==> r.unwrap().well_formed(),
        r is Ok ==> r.unwrap().is_hash_of(pass@),
{
    hash_with_setup(HashSetup { salt: None, rounds: None }, pass)
}

/// Hashes a password with the parameters given: the text of a hash, whose
/// rounds and salt are taken, or the parameters themselves. No rounds at
/// all are refused, and so is a salt of more than 64 characters; a
/// character outside the alphabet is an encoding error. Where the salt or
/// the rounds are left out they are drawn.
pub fn hash_with<'a, IHS: IntoHashSetup<'a>>(param: IHS, pass: &[u8]) -> (r: Result<
    crate::hash::Hash,
>)
    ensures
        hash_with_post(params_of(param), pass@, r),
        param.hash_text() is Some ==> crate::hash::is_outcome(
            r,
            HashKind::Sha1,
            crate::hash::rehash(HashKind::Sha1, pass@, param.hash_text().unwrap().spec_bytes()),
        ),
        r is Ok ==> r.unwrap().well_formed(),
        r is Ok ==> r.unwrap().is_hash_of(pass@),
{
    match param.into_hash_setup(parse_sha1_hash) {
        Ok(hs) => hash_with_setup(hs, pass),
        Err(e) => Err(e),
    }
}

/// Whether `hash` is the hash of `pass`. A text that is no hash is not.
pub fn verify(pass: &[u8], hash: &str) -> (r: bool)
    ensures
        r == verify_spec(pass@, hash.spec_bytes()),
        r == crate::hash::verifies(HashKind::Sha1, pass@, hash.spec_bytes()),
{
    consteq(hash, hash_with(hash, pass))
}


/// The text from which rounds and salt are read: the prefix, the rounds,
/// a `$`, the salt and a `$`.
pub open spec fn header(salt: Seq<u8>, rounds: u32) -> Seq<u8> {
    SHA1_MAGIC@ + crate::encode::decimal(rounds as nat) + seq![36u8] + salt + seq![36u8]
}

/// A text that opens with the prefix, a number of rounds, a `$`, a salt
/// over the alphabet and a `$` reads as those rounds and that salt.
pub proof fn lemma_parse_header(text: Seq<u8>, salt: Seq<u8>, rounds: u32)
    requires
        all_in_alphabet(salt),
        text.len() >= header(salt, rounds).len(),
        text.subrange(0, header(salt, rounds).len() as int) == header(salt, rounds),
    ensures
        parse_spec(text) == Ok::<SetupView, Error>(
            SetupView { salt: Some(salt), rounds: Some(rounds) },
        ),
{
    let magic = SHA1_MAGIC@;
    let head = header(salt, rounds);
    let digits = crate::encode::decimal(rounds as nat);
    let d = digits.len() as int;
    let m = salt.len() as int;
    crate::encode::lemma_alphabet_is_ascii(salt);
    crate::encode::lemma_decimal(rounds as nat);
    crate::encode::lemma_parse_decimal(rounds);
    assert(crate::text::is_ascii_bytes(magic));
    assert(head.len() == 6 + d + 1 + m + 1);
    assert forall|i: int| 0 <= i < head.len() implies text[i] == head[i] by {
        assert(text.subrange(0, head.len() as int)[i] == text[i]);
    }
    assert(text.subrange(0, 6) =~= magic) by {
        assert forall|i: int| 0 <= i < 6 implies text.subrange(0, 6)[i] == magic[i] by {
            assert(head[i] == magic[i]);
        }
    }
    crate::parse::lemma_take_field(text, 0, magic);
    assert forall|i: int| 0 <= i < salt.len() implies salt[i] != 36u8 by {
        assert(crate::encode::in_alphabet(salt[i]));
    }
    assert forall|i: int| 0 <= i < digits.len() implies digits[i] != 36u8 by {
        assert(48 <= digits[i] <= 57);
    }
    assert(text.subrange(6, 6 + d) =~= digits) by {
        assert forall|i: int| 0 <= i < d implies text.subrange(6, 6 + d)[i] == digits[i] by {
            assert(head[i + 6] == digits[i]);
        }
    }
    assert(text[6 + d] == 36u8) by {
        assert(head[6 + d] == 36u8);
    }
    crate::parse::lemma_take_until_field(text, 6, digits, 36u8);
    let p = 6 + d + 1;
    assert(text.subrange(p, p + m) =~= salt) by {
        assert forall|i: int| 0 <= i < m implies text.subrange(p, p + m)[i] == salt[i] by {
            assert(head[i + p] == salt[i]);
        }
    }
    assert(text[p + m] == 36u8) by {
        assert(head[p + m] == 36u8);
    }
    crate::parse::lemma_take_until_field(text, p as nat, salt, 36u8);
}

/// A hash opens with its header and closes with its checksum.
pub proof fn lemma_header_of_hash(pass: Seq<u8>, salt: Seq<u8>, rounds: u32)
    requires
        sha1_crypt_spec(pass, salt, rounds) is Ok,
    ensures
        sha1_crypt_spec(pass, salt, rounds).unwrap().len() == header(salt, rounds).len() + 28,
        sha1_crypt_spec(pass, salt, rounds).unwrap().subrange(
            0,
            header(salt, rounds).len() as int,
        ) == header(salt, rounds),
{
    let h = sha1_crypt_spec(pass, salt, rounds).unwrap();
    lemma_sha1_sum(pass, salt, rounds);
    assert(h.subrange(0, header(salt, rounds).len() as int) =~= header(salt, rounds));
}

/// Hashing a password again under the parameters of its hash gives the same
/// hash: a hash verifies the password that it was made of.
pub proof fn lemma_round_trip(pass: Seq<u8>, salt: Seq<u8>, rounds: u32)
    requires
        sha1_crypt_spec(pass, salt, rounds) is Ok,
    ensures
        verify_spec(pass, sha1_crypt_spec(pass, salt, rounds).unwrap()),
{
    let h = sha1_crypt_spec(pass, salt, rounds).unwrap();
    lemma_header_of_hash(pass, salt, rounds);
    lemma_parse_header(h, salt, rounds);
}

/// A text that differs from the hash of a password in the checksum alone
/// does not verify the password.
pub proof fn lemma_mutation(pass: Seq<u8>, salt: Seq<u8>, rounds: u32, other: Seq<u8>)
    requires
        sha1_crypt_spec(pass, salt, rounds) is Ok,
        crate::hash::differs_in_checksum(sha1_crypt_spec(pass, salt, rounds).unwrap(), other, 28),
    ensures
        !verify_spec(pass, other),
{
    lemma_header_of_hash(pass, salt, rounds);
    lemma_parse_header(other, salt, rounds);
}

/// True when the parameters name the rounds and the salt, so that nothing
/// is drawn.
pub open spec fn is_explicit(params: Params) -> bool {
    match params {
        Params::Text(_) => true,
        Params::Setup(setup) => setup.salt is Some && setup.rounds is Some,
    }
}

/// Two results of `hash_with` for the same parameters and password are the
/// same where the parameters name rounds and salt: both the same hash or
/// both the same error.
pub proof fn lemma_deterministic(
    params: Params,
    pass: Seq<u8>,
    r1: Result<crate::hash::Hash>,
    r2: Result<crate::hash::Hash>,
)
    requires
        is_explicit(params),
        hash_with_post(params, pass, r1),
        hash_with_post(params, pass, r2),
    ensures
        crate::hash::same_outcome(r1, r2),
{
}

/// A hash is recognised as one of this format.
pub proof fn lemma_recognized(pass: Seq<u8>, salt: Seq<u8>, rounds: u32)
    requires
        sha1_crypt_spec(pass, salt, rounds) is Ok,
    ensures
        crate::hash::recognize(sha1_crypt_spec(pass, salt, rounds).unwrap()) == Ok::<
            HashKind,
            Error,
        >(HashKind::Sha1),
{
    let h = sha1_crypt_spec(pass, salt, rounds).unwrap();
    lemma_hash_length(pass, salt, rounds);
    lemma_header_of_hash(pass, salt, rounds);
    let head = header(salt, rounds);
    let magic = SHA1_MAGIC@;
    assert forall|i: int| 0 <= i < 6 implies h[i] == magic[i] by {
        assert(h.subrange(0, head.len() as int)[i] == h[i]);
        assert(head[i] == magic[i]);
    }
    let token = seq![115u8, 104u8, 97u8, 49u8];
    assert(h.subrange(0, 1) =~= seq![36u8]);
    assert(h.subrange(1, 5) =~= token);
    assert(crate::text::is_ascii_bytes(seq![36u8]));
    assert(crate::text::is_ascii_bytes(token));
    crate::parse::lemma_take_field(h, 0, seq![36u8]);
    crate::parse::lemma_take_until_field(h, 1, token, 36u8);
    assert(token.len() != seq![49u8].len());
    assert(token[0] != seq![97u8, 112u8, 114u8, 49u8][0]);
    assert(token.len() != seq![50u8, 97u8].len());
}


/// A hash that `hash` or `hash_with` has made of a password verifies the
/// password: hashing the password again under the hash gives the hash.
pub proof fn lemma_made_hash_verifies(params: Params, pass: Seq<u8>, r: Result<crate::hash::Hash>)
    requires
        r is Ok,
        hash_with_post(params, pass, r),
    ensures
        verify_spec(pass, r.unwrap().bytes()),
{
    let setup = match params {
        Params::Text(text) => parse_spec(text).unwrap(),
        Params::Setup(setup) => setup,
    };
    if setup.salt is Some && setup.rounds is Some {
        lemma_round_trip(pass, setup.salt.unwrap(), setup.rounds.unwrap());
    } else {
        let (s, n) = choose|s: Seq<u8>, n: u32|
            salt_fits(setup.salt, s) && rounds_fit(setup.rounds, n) && #[trigger] sha1_crypt_spec(
                pass,
                s,
                n,
            ) == Ok::<Seq<u8>, Error>(r.unwrap().bytes());
        lemma_round_trip(pass, s, n);
    }
}

} // verus!
