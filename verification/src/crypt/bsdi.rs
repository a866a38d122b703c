//! Extended DES `crypt`: an underscore, four digits of rounds, four
//! characters of salt and eleven of checksum. The whole password counts.
use vstd::prelude::*;
use vstd::string::*;
use crate::encode::{all_in_alphabet, decode_val, decode_val_spec};
use crate::error::{Error, Result};
use crate::hash::{finish, is_outcome, is_text, HashKind};
use crate::internal::des::{bsdi_crypt, bsdi_crypt_spec, BSDI_MAX_ROUNDS, BSDI_MIN_ROUNDS};
use crate::parse::{take_spec, HashIterator, HashSlice};
use crate::random::gen_salt;
use crate::traits::{params_of, IntoHashSetup, Params};
use crate::{consteq, HashSetup, SetupView};

verus! {

/// The number of rounds that is taken where none is given.
pub const DEFAULT_ROUNDS: u32 = 7250;

/// The length of the salt.
pub const SALT_LEN: usize = 4;

/// The length of the rounds field.
pub const ROUNDS_LEN: usize = 4;

/// The length of a hash: the underscore, the rounds, the salt and the
/// checksum.
pub const HASH_LENGTH: usize = 20;

/// What `parse_bsdi_hash` reads out of the text of a hash: the rounds and
/// the salt. The checksum is not looked at and need not be there.
pub open spec fn parse_spec(hash: Seq<u8>) -> Result<SetupView> {
    let first = take_spec(hash, 0, 1);
    if first.0 != Some(seq![95u8]) {
        Err(Error::InvalidHashString)
    } else {
        let rounds = take_spec(hash, first.1, 4);
        match rounds.0 {
            None => Err(Error::InvalidHashString),
            Some(digits) => match decode_val_spec(digits, 4) {
                Err(e) => Err(e),
                Ok(n) => match take_spec(hash, rounds.1, 4).0 {
                    None => Err(Error::InvalidHashString),
                    Some(salt) => Ok(SetupView { salt: Some(salt), rounds: Some(n) }),
                },
            },
        }
    }
}

/// The number of rounds of the parameters.
pub open spec fn rounds_of(setup: SetupView) -> u32 {
    match setup.rounds {
        Some(n) => n,
        None => DEFAULT_ROUNDS,
    }
}

/// True when `r` is what a hash function may return that draws the salt
/// itself: the failure of the random source, or the hash of `pass` with
/// `rounds` rounds under some salt of four characters of the alphabet.
pub open spec fn random_post(pass: Seq<u8>, rounds: u32, r: Result<crate::hash::Hash>) -> bool {
    match r {
        Err(e) => e == Error::RandomError,
        Ok(h) => h.kind() == HashKind::Bsdi && exists|salt: Seq<u8>|
            salt.len() == 4 && all_in_alphabet(salt) && #[trigger] bsdi_crypt_spec(
                pass,
                salt,
                rounds,
            ) == Ok::<Seq<u8>, Error>(h.bytes()),
    }
}

/// True when `r` is what `hash_with` returns for the parameters `setup`.
/// With a salt it is the one hash of the password under that salt and the
/// rounds. Without one, the rounds are still held to their range.
pub open spec fn setup_post(setup: SetupView, pass: Seq<u8>, r: Result<crate::hash::Hash>) -> bool {
    match setup.salt {
        Some(salt) => is_outcome(r, HashKind::Bsdi, bsdi_crypt_spec(pass, salt, rounds_of(setup))),
        None => if rounds_of(setup) < BSDI_MIN_ROUNDS || rounds_of(setup) > BSDI_MAX_ROUNDS {
            r == Err::<crate::hash::Hash, Error>(Error::InvalidRounds)
        } else {
            random_post(pass, rounds_of(setup), r)
        },
    }
}

/// True when `r` is what `hash_with` returns for `params` and `pass`.
pub open spec fn hash_with_post(params: Params, pass: Seq<u8>, r: Result<crate::hash::Hash>) -> bool {
    match params {
        Params::Text(text) => match parse_spec(text) {
            Err(e) => r == Err::<crate::hash::Hash, Error>(e),
            Ok(setup) => setup_post(setup, pass, r),
        },
        Params::Setup(setup) => setup_post(setup, pass, r),
    }
}

/// The hash that the text `hash` asks for, for the password `pass`.
pub open spec fn rehash(pass: Seq<u8>, hash: Seq<u8>) -> Result<Seq<u8>> {
    match parse_spec(hash) {
        Err(e) => Err(e),
        Ok(setup) => bsdi_crypt_spec(pass, setup.salt.unwrap(), rounds_of(setup)),
    }
}

/// Whether `hash` is the hash of `pass` under its own rounds and salt.
pub open spec fn verify_spec(pass: Seq<u8>, hash: Seq<u8>) -> bool {
    rehash(pass, hash) == Ok::<Seq<u8>, Error>(hash)
}

/// A hash has twenty characters.
pub proof fn lemma_hash_length(pass: Seq<u8>, salt: Seq<u8>, rounds: u32)
    ensures
        bsdi_crypt_spec(pass, salt, rounds) is Ok ==> bsdi_crypt_spec(
            pass,
            salt,
            rounds,
        ).unwrap().len() == 20,
{
    crate::encode::lemma_val_digits(rounds as nat, 4);
    if bsdi_crypt_spec(pass, salt, rounds) is Ok {
        crate::internal::des::lemma_bsdi_checksum(
            pass,
            decode_val_spec(crate::text::prefix(salt, 4), 4).unwrap(),
            rounds,
        );
    }
}

/// Hashes a password under a random salt with the default rounds.
pub fn hash(pass: &[u8]) -> (r: Result<crate::hash::Hash>)
    ensures
        random_post(pass@, DEFAULT_ROUNDS, r),
        r is Ok ==> r.unwrap().well_formed(),
        r is Ok ==> r.unwrap().is_hash_of(pass@),
{
    let salt = match gen_salt(SALT_LEN) {
        Ok(s) => s,
        Err(e) => {
            return Err(e);
        },
    };
    let r = finish(HashKind::Bsdi, bsdi_crypt(pass, salt.as_slice(), DEFAULT_ROUNDS));
    proof {
        crate::crypt::unix::lemma_salt_reads(salt@, 4);
        lemma_round_trip(pass@, salt@, DEFAULT_ROUNDS);
        assert(bsdi_crypt_spec(pass@, salt@, DEFAULT_ROUNDS) == Ok::<Seq<u8>, Error>(
            r.unwrap().bytes(),
        ));
    }
    r
}

/// Reads the rounds and the salt out of the text of a hash.
pub fn parse_bsdi_hash<'a>(hash: &'a str) -> (r: Result<HashSetup<'a>>)
    ensures
        match parse_spec(hash.spec_bytes()) {
            Ok(setup) => r is Ok && r.unwrap()@ == setup,
            Err(e) => r == Err::<HashSetup<'a>, Error>(e),
        },
{
    let underscore = [95u8];
    proof {
        assert(underscore@ =~= seq![95u8]);
    }
    let mut hs = HashSlice::new(hash);
    if !is_text(hs.take(1), &underscore) {
        return Err(Error::InvalidHashString);
    }
    let rounds = match hs.take(ROUNDS_LEN) {
        None => {
            return Err(Error::InvalidHashString);
        },
        Some(digits) => match decode_val(digits.as_bytes(), SALT_LEN) {
            Err(e) => {
                return Err(e);
            },
            Ok(n) => n,
        },
    };
    match hs.take(SALT_LEN) {
        None => Err(Error::InvalidHashString),
        Some(salt) => Ok(HashSetup { salt: Some(salt), rounds: Some(rounds) }),
    }
}

/// Hashes a password with the parameters given: the text of a hash, whose
/// rounds and salt are taken, or the parameters themselves. Rounds outside
/// 1 to 2^24 - 1 are refused. Of the salt the first four characters count;
/// fewer are too short, and a character outside the alphabet is an encoding
/// error. Where the salt is left out a random one is drawn.
pub fn hash_with<'a, IHS: IntoHashSetup<'a>>(param: IHS, pass: &[u8]) -> (r: Result<
    crate::hash::Hash,
>)
    ensures
        hash_with_post(params_of(param), pass@, r),
        param.hash_text() is Some ==> crate::hash::is_outcome(
            r,
            HashKind::Bsdi,
            crate::hash::rehash(HashKind::Bsdi, pass@, param.hash_text().unwrap().spec_bytes()),
        ),
        r is Ok ==> r.unwrap().well_formed(),
        r is Ok ==> r.unwrap().is_hash_of(pass@),
{
    let hs = match param.into_hash_setup(parse_bsdi_hash) {
        Ok(hs) => hs,
        Err(e) => {
            return Err(e);
        },
    };
    let rounds = match hs.rounds {
        Some(n) => n,
        None => DEFAULT_ROUNDS,
    };
    match hs.salt {
        Some(salt) => {
            let r = finish(HashKind::Bsdi, bsdi_crypt(pass, salt.as_bytes(), rounds));
            proof {
                if bsdi_crypt_spec(pass@, salt.spec_bytes(), rounds) is Ok {
                    lemma_round_trip(pass@, salt.spec_bytes(), rounds);
                }
            }
            r
        },
        None => {
            if rounds < BSDI_MIN_ROUNDS || rounds > BSDI_MAX_ROUNDS {
                return Err(Error::InvalidRounds);
            }
            let salt = match gen_salt(SALT_LEN) {
                Ok(s) => s,
                Err(e) => {
                    return Err(e);
                },
            };
            let r = finish(HashKind::Bsdi, bsdi_crypt(pass, salt.as_slice(), rounds));
            proof {
                crate::crypt::unix::lemma_salt_reads(salt@, 4);
                lemma_round_trip(pass@, salt@, rounds);
                assert(bsdi_crypt_spec(pass@, salt@, rounds) == Ok::<Seq<u8>, Error>(
                    r.unwrap().bytes(),
                ));
            }
            r
        },
    }
}

/// Whether `hash` is the hash of `pass`. A text that is no hash is not.
pub fn verify(pass: &[u8], hash: &str) -> (r: bool)
    ensures
        r == verify_spec(pass@, hash.spec_bytes()),
        r == crate::hash::verifies(HashKind::Bsdi, pass@, hash.spec_bytes()),
{
    consteq(hash, hash_with(hash, pass))
}


/// A text that opens with an underscore, the four digits of a number of
/// rounds and four characters of salt reads as those rounds and that salt.
pub proof fn lemma_parse_header(text: Seq<u8>, salt: Seq<u8>, rounds: u32)
    requires
        rounds <= BSDI_MAX_ROUNDS,
        salt.len() == 4,
        all_in_alphabet(salt),
        text.len() >= 9,
        text.subrange(0, 9) == seq![95u8] + crate::encode::val_digits(rounds as nat, 4) + salt,
    ensures
        parse_spec(text) == Ok::<SetupView, Error>(
            SetupView { salt: Some(salt), rounds: Some(rounds) },
        ),
{
    let digits = crate::encode::val_digits(rounds as nat, 4);
    let head = text.subrange(0, 9);
    crate::encode::lemma_val_digits(rounds as nat, 4);
    crate::encode::lemma_alphabet_is_ascii(digits);
    crate::encode::lemma_alphabet_is_ascii(salt);
    assert(text.subrange(0, 1) =~= seq![95u8]) by {
        assert(text.subrange(0, 1)[0] == head[0]);
    }
    assert(text.subrange(1, 5) =~= digits) by {
        assert forall|i: int| 0 <= i < 4 implies text.subrange(1, 5)[i] == digits[i] by {
            assert(text.subrange(1, 5)[i] == head[i + 1]);
        }
    }
    assert(text.subrange(5, 9) =~= salt) by {
        assert forall|i: int| 0 <= i < 4 implies text.subrange(5, 9)[i] == salt[i] by {
            assert(text.subrange(5, 9)[i] == head[i + 5]);
        }
    }
    assert(crate::text::is_ascii_bytes(seq![95u8]));
    crate::parse::lemma_take_field(text, 0, seq![95u8]);
    crate::parse::lemma_take_field(text, 1, digits);
    crate::parse::lemma_take_field(text, 5, salt);
    crate::encode::lemma_digits_value_of_val_digits(rounds as nat, 4);
    assert(crate::encode::pow64(4) == 16777216) by {
        reveal_with_fuel(crate::encode::pow64, 5);
    }
}

/// The first nine bytes of a hash are the underscore, the digits of the
/// rounds and the first four characters of the salt.
pub proof fn lemma_header_of_hash(pass: Seq<u8>, salt: Seq<u8>, rounds: u32)
    requires
        bsdi_crypt_spec(pass, salt, rounds) is Ok,
    ensures
        bsdi_crypt_spec(pass, salt, rounds).unwrap().subrange(0, 9) == seq![95u8]
            + crate::encode::val_digits(rounds as nat, 4) + crate::text::prefix(salt, 4),
        crate::text::prefix(salt, 4).len() == 4,
        all_in_alphabet(crate::text::prefix(salt, 4)),
        bsdi_crypt_spec(pass, crate::text::prefix(salt, 4), rounds) == bsdi_crypt_spec(
            pass,
            salt,
            rounds,
        ),
{
    let h = bsdi_crypt_spec(pass, salt, rounds).unwrap();
    let s4 = crate::text::prefix(salt, 4);
    crate::encode::lemma_val_digits(rounds as nat, 4);
    assert(s4.len() == 4);
    assert(crate::text::prefix(s4, 4) == s4);
    assert(h.subrange(0, 9) =~= seq![95u8] + crate::encode::val_digits(rounds as nat, 4) + s4);
}

/// Hashing a password again under the parameters of its hash gives the same
/// hash: a hash verifies the password that it was made of, and is
/// recognised as a hash of this format.
pub proof fn lemma_round_trip(pass: Seq<u8>, salt: Seq<u8>, rounds: u32)
    requires
        bsdi_crypt_spec(pass, salt, rounds) is Ok,
    ensures
        verify_spec(pass, bsdi_crypt_spec(pass, salt, rounds).unwrap()),
        crate::hash::recognize(bsdi_crypt_spec(pass, salt, rounds).unwrap()) == Ok::<
            HashKind,
            Error,
        >(HashKind::Bsdi),
{
    let h = bsdi_crypt_spec(pass, salt, rounds).unwrap();
    lemma_hash_length(pass, salt, rounds);
    lemma_header_of_hash(pass, salt, rounds);
    lemma_parse_header(h, crate::text::prefix(salt, 4), rounds);
    assert(h.subrange(0, 1) =~= seq![95u8]) by {
        assert(h.subrange(0, 1)[0] == h.subrange(0, 9)[0]);
    }
    assert(crate::text::is_ascii_bytes(seq![95u8]));
    crate::parse::lemma_take_field(h, 0, seq![95u8]);
}

/// A text that differs from the hash of a password in the checksum alone
/// does not verify the password.
pub proof fn lemma_mutation(pass: Seq<u8>, salt: Seq<u8>, rounds: u32, other: Seq<u8>)
    requires
        bsdi_crypt_spec(pass, salt, rounds) is Ok,
        crate::hash::differs_in_checksum(bsdi_crypt_spec(pass, salt, rounds).unwrap(), other, 11),
    ensures
        !verify_spec(pass, other),
{
    let h = bsdi_crypt_spec(pass, salt, rounds).unwrap();
    lemma_hash_length(pass, salt, rounds);
    lemma_header_of_hash(pass, salt, rounds);
    lemma_parse_header(other, crate::text::prefix(salt, 4), rounds);
}

/// True when the parameters name the salt, so that nothing is drawn.
pub open spec fn is_explicit(params: Params) -> bool {
    match params {
        Params::Text(_) => true,
        Params::Setup(setup) => setup.salt is Some,
    }
}

/// Two results of `hash_with` for the same parameters and password are the
/// same where the parameters name the salt: both the same hash or both the
/// same error.
pub proof fn lemma_deterministic(
    params: Params,
    pass: Seq<u8>,
    r1: Result<crate::hash::Hash>,
    r2: Result<crate::hash::Hash>,
)
    requires
        is_explicit(params),
        hash_with_post(params, pass, r1),
        hash_with_post(params, pass, r2),
    ensures
        crate::hash::same_outcome(r1, r2),
{
}


/// A hash that `hash` or `hash_with` has made of a password verifies the
/// password: hashing the password again under the hash gives the hash.
pub proof fn lemma_made_hash_verifies(params: Params, pass: Seq<u8>, r: Result<crate::hash::Hash>)
    requires
        r is Ok,
        hash_with_post(params, pass, r),
    ensures
        verify_spec(pass, r.unwrap().bytes()),
{
    let setup = match params {
        Params::Text(text) => parse_spec(text).unwrap(),
        Params::Setup(setup) => setup,
    };
    match setup.salt {
        Some(salt) => {
            lemma_round_trip(pass, salt, rounds_of(setup));
        },
        None => {
            let s = choose|s: Seq<u8>|
                s.len() == 4 && all_in_alphabet(s) && #[trigger] bsdi_crypt_spec(
                    pass,
                    s,
                    rounds_of(setup),
                ) == Ok::<Seq<u8>, Error>(r.unwrap().bytes());
            lemma_round_trip(pass, s, rounds_of(setup));
        },
    }
}

} // verus!
