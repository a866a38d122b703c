//! The bcrypt hash, `$2a$`, `$2b$` or `$2y$`: two digits of cost, 22
//! characters of salt and 31 of checksum. The password counts up to its
//! first NUL byte and up to 71 bytes.
use vstd::prelude::*;
use vstd::string::*;
use crate::encode::{hash64, parse_decimal, parse_decimal_spec};
use crate::error::{Error, Result};
use crate::hash::{finish, is_outcome, is_text, HashKind};
use crate::internal::blowfish::{
    bcrypt_crypt, bcrypt_crypt_spec, BCRYPT_DEFAULT_COST, BCRYPT_MAX_COST, BCRYPT_MIN_COST,
};
use crate::parse::{take_spec, take_until_spec, HashIterator, HashSlice};
use crate::random::gen_salt_bytes;
use crate::text::opt_bytes;
use crate::{consteq, HashSetup};

pub use crate::internal::blowfish::BcryptVariant;

verus! {

/// The cost that is taken where none is given.
pub const DEFAULT_COST: u32 = BCRYPT_DEFAULT_COST;

/// The least cost.
pub const MIN_COST: u32 = BCRYPT_MIN_COST;

/// The greatest cost.
pub const MAX_COST: u32 = BCRYPT_MAX_COST;

/// The length of the salt in characters.
pub const SALT_LEN: usize = crate::internal::blowfish::BCRYPT_SALT_LEN;

/// The length of a hash.
pub const HASH_LENGTH: usize = 60;

/// The parameters of a bcrypt hash. A parameter that is left out is chosen
/// by the hash function: a random salt, the usual cost, the version `2b`.
pub struct BcryptSetup<'a> {
    /// The salt, as text of 22 characters.
    pub salt: Option<&'a str>,
    /// The cost: the key setup takes `2^cost` rounds.
    pub cost: Option<u32>,
    /// The version of the format.
    pub variant: Option<BcryptVariant>,
}

/// The parameters of a bcrypt hash, the salt as bytes.
pub struct BcryptSetupView {
    /// The bytes of the salt.
    pub salt: Option<Seq<u8>>,
    /// The cost.
    pub cost: Option<u32>,
    /// The version of the format.
    pub variant: Option<BcryptVariant>,
}

impl<'a> View for BcryptSetup<'a> {
    type V = BcryptSetupView;

    open spec fn view(&self) -> BcryptSetupView {
        BcryptSetupView { salt: opt_bytes(self.salt), cost: self.cost, variant: self.variant }
    }
}

/// The version that the first four bytes of a hash name.
pub open spec fn variant_of(magic: Option<Seq<u8>>) -> Option<BcryptVariant> {
    if magic == Some(seq![36u8, 50u8, 97u8, 36u8]) {
        Some(BcryptVariant::V2a)
    } else if magic == Some(seq![36u8, 50u8, 98u8, 36u8]) {
        Some(BcryptVariant::V2b)
    } else if magic == Some(seq![36u8, 50u8, 121u8, 36u8]) {
        Some(BcryptVariant::V2y)
    } else {
        None
    }
}

/// What is read out of the text of a hash: the version, the cost, which
/// goes up to the next `$`, and the 22 characters of the salt. A cost
/// field that spells no number is an error of the rounds. The checksum is
/// not looked at and need not be there.
pub open spec fn parse_spec(hash: Seq<u8>) -> Result<BcryptSetupView> {
    let first = take_spec(hash, 0, 4);
    match variant_of(first.0) {
        None => Err(Error::InvalidHashString),
        Some(v) => {
            let second = take_until_spec(hash, first.1, 36u8);
            match second.0 {
                None => Err(Error::InvalidHashString),
                Some(digits) => match parse_decimal_spec(digits) {
                    None => Err(Error::InvalidRounds),
                    Some(cost) => match take_spec(hash, second.1, 22).0 {
                        None => Err(Error::InvalidHashString),
                        Some(salt) => Ok(
                            BcryptSetupView { salt: Some(salt), cost: Some(cost), variant: Some(v) },
                        ),
                    },
                },
            }
        },
    }
}

/// Where the parameters of a bcrypt hash come from, as bytes.
pub enum BcryptParams {
    /// The text of a hash.
    Text(Seq<u8>),
    /// The parameters themselves.
    Setup(BcryptSetupView),
}

/// What a bcrypt hash function takes its parameters from: the text of a
/// hash, out of which they are read, or the parameters themselves.
pub trait IntoBcryptSetup<'a>: Sized {
    /// Where the parameters come from.
    spec fn bcrypt_params(&self) -> BcryptParams;

    /// The parameters: read out of the text, or the value itself.
    fn into_bcrypt_setup(self) -> (r: Result<BcryptSetup<'a>>)
        ensures
            match self.bcrypt_params() {
                BcryptParams::Text(text) => match parse_spec(text) {
                    Ok(setup) => r is Ok && r.unwrap()@ == setup,
                    Err(e) => r == Err::<BcryptSetup<'a>, Error>(e),
                },
                BcryptParams::Setup(setup) => r is Ok && r.unwrap()@ == setup,
            },
    ;
}

impl<'a> IntoBcryptSetup<'a> for &'a str {
    open spec fn bcrypt_params(&self) -> BcryptParams {
        BcryptParams::Text(self.spec_bytes())
    }

    fn into_bcrypt_setup(self) -> (r: Result<BcryptSetup<'a>>) {
        parse_bcrypt_hash(self)
    }
}

impl<'a> IntoBcryptSetup<'a> for HashSetup<'a> {
    open spec fn bcrypt_params(&self) -> BcryptParams {
        BcryptParams::Setup(
            BcryptSetupView { salt: opt_bytes(self.salt), cost: self.rounds, variant: None },
        )
    }

    fn into_bcrypt_setup(self) -> (r: Result<BcryptSetup<'a>>) {
        Ok(BcryptSetup { salt: self.salt, cost: self.rounds, variant: None })
    }
}

impl<'a> IntoBcryptSetup<'a> for BcryptSetup<'a> {
    open spec fn bcrypt_params(&self) -> BcryptParams {
        BcryptParams::Setup(self@)
    }

    fn into_bcrypt_setup(self) -> (r: Result<BcryptSetup<'a>>) {
        Ok(self)
    }
}

/// The cost of the parameters.
pub open spec fn cost_of(setup: BcryptSetupView) -> u32 {
    match setup.cost {
        Some(c) => c,
        None => DEFAULT_COST,
    }
}

/// The version of the parameters.
pub open spec fn version_of(setup: BcryptSetupView) -> BcryptVariant {
    match setup.variant {
        Some(v) => v,
        None => BcryptVariant::V2b,
    }
}

/// True when `r` is what `hash_with` returns for the parameters `setup`.
/// With a salt it is the one hash of the password under that salt and the
/// cost. Without one, the cost is still held to its range, and `r` is the
/// failure of the random source or the hash under the salt that some
/// sixteen bytes spell.
pub open spec fn setup_post(setup: BcryptSetupView, pass: Seq<u8>, r: Result<crate::hash::Hash>) -> bool {
    match setup.salt {
        Some(salt) => is_outcome(
            r,
            HashKind::Bcrypt,
            bcrypt_crypt_spec(version_of(setup), cost_of(setup), salt, pass),
        ),
        None => if cost_of(setup) < MIN_COST || cost_of(setup) > MAX_COST {
            r == Err::<crate::hash::Hash, Error>(Error::InvalidRounds)
        } else {
            match r {
                Err(e) => e == Error::RandomError,
                Ok(h) => h.kind() == HashKind::Bcrypt && exists|bytes: Seq<u8>|
                    bytes.len() == 16 && #[trigger] bcrypt_crypt_spec(
                        version_of(setup),
                        cost_of(setup),
                        hash64(bytes),
                        pass,
                    ) == Ok::<Seq<u8>, Error>(h.bytes()),
            }
        },
    }
}

/// True when `r` is what `hash_with` returns for `params` and `pass`.
pub open spec fn hash_with_post(params: BcryptParams, pass: Seq<u8>, r: Result<crate::hash::Hash>) -> bool {
    match params {
        BcryptParams::Text(text) => match parse_spec(text) {
            Err(e) => r == Err::<crate::hash::Hash, Error>(e),
            Ok(setup) => setup_post(setup, pass, r),
        },
        BcryptParams::Setup(setup) => setup_post(setup, pass, r),
    }
}

/// The hash that the text `hash` asks for, for the password `pass`.
pub open spec fn rehash(pass: Seq<u8>, hash: Seq<u8>) -> Result<Seq<u8>> {
    match parse_spec(hash) {
        Err(e) => Err(e),
        Ok(setup) => bcrypt_crypt_spec(
            version_of(setup),
            cost_of(setup),
            setup.salt.unwrap(),
            pass,
        ),
    }
}

/// Whether `hash` is the hash of `pass` under its own cost and salt.
pub open spec fn verify_spec(pass: Seq<u8>, hash: Seq<u8>) -> bool {
    rehash(pass, hash) == Ok::<Seq<u8>, Error>(hash)
}

/// Reads the version, the cost and the salt out of the text of a hash.
pub fn parse_bcrypt_hash<'a>(hash: &'a str) -> (r: Result<BcryptSetup<'a>>)
    ensures
        match parse_spec(hash.spec_bytes()) {
            Ok(setup) => r is Ok && r.unwrap()@ == setup,
            Err(e) => r == Err::<BcryptSetup<'a>, Error>(e),
        },
{
    let a = [36u8, 50u8, 97u8, 36u8];
    let b = [36u8, 50u8, 98u8, 36u8];
    let y = [36u8, 50u8, 121u8, 36u8];
    proof {
        assert(a@ =~= seq![36u8, 50u8, 97u8, 36u8]);
        assert(b@ =~= seq![36u8, 50u8, 98u8, 36u8]);
        assert(y@ =~= seq![36u8, 50u8, 121u8, 36u8]);
    }
    let mut hs = HashSlice::new(hash);
    let magic = hs.take(4);
    let variant = if is_text(magic, &a) {
        BcryptVariant::V2a
    } else if is_text(magic, &b) {
        BcryptVariant::V2b
    } else if is_text(magic, &y) {
        BcryptVariant::V2y
    } else {
        return Err(Error::InvalidHashString);
    };
    let cost = match hs.take_until(36u8) {
        None => {
            return Err(Error::InvalidHashString);
        },
        Some(digits) => match parse_decimal(digits.as_bytes()) {
            Some(n) => n,
            None => {
                return Err(Error::InvalidRounds);
            },
        },
    };
    match hs.take(SALT_LEN) {
        Some(salt) => Ok(BcryptSetup { salt: Some(salt), cost: Some(cost), variant: Some(variant) }),
        None => Err(Error::InvalidHashString),
    }
}

/// Hashes a password with the parameters `setup`.
pub fn hash_with_setup<'a>(setup: BcryptSetup<'a>, pass: &[u8]) -> (r: Result<crate::hash::Hash>)
    ensures
        setup_post(setup@, pass@, r),
        r is Ok ==> r.unwrap().well_formed(),
        r is Ok ==> r.unwrap().is_hash_of(pass@),
{
    let cost = match setup.cost {
        Some(c) => c,
        None => DEFAULT_COST,
    };
    let variant = match setup.variant {
        Some(v) => v,
        None => BcryptVariant::V2b,
    };
    match setup.salt {
        Some(salt) => {
            let r = finish(HashKind::Bcrypt, bcrypt_crypt(variant, cost, salt.as_bytes(), pass));
            proof {
                if bcrypt_crypt_spec(variant, cost, salt.spec_bytes(), pass@) is Ok {
                    lemma_recognized(variant, cost, salt.spec_bytes(), pass@);
                    lemma_round_trip(variant, cost, salt.spec_bytes(), pass@);
                }
            }
            r
        },
        None => {
            if cost < MIN_COST || cost > MAX_COST {
                return Err(Error::InvalidRounds);
            }
            let mut bytes: Vec<u8> = vec![0u8; 16];
            match gen_salt_bytes(bytes.as_mut_slice()) {
                Ok(_) => {},
                Err(e) => {
                    return Err(e);
                },
            }
            let salt = crate::encode::hash64_encode(bytes.as_slice());
            let r = finish(HashKind::Bcrypt, bcrypt_crypt(variant, cost, salt.as_slice(), pass));
            proof {
                crate::encode::lemma_hash64(bytes@);
                lemma_recognized(variant, cost, salt@, pass@);
                lemma_round_trip(variant, cost, salt@, pass@);
                assert(bcrypt_crypt_spec(variant, cost, hash64(bytes@), pass@) == Ok::<
                    Seq<u8>,
                    Error,
                >(r.unwrap().bytes()));
            }
            r
        },
    }
}

/// Hashes a password under a random salt at the default cost.
pub fn hash(pass: &[u8]) -> (r: Result<crate::hash::Hash>)
    ensures
        setup_post(BcryptSetupView { salt: None, cost: None, variant: None }, pass@, r),
        r is Ok ==> r.unwrap().well_formed(),
        r is Ok ==> r.unwrap().is_hash_of(pass@),
{
    hash_with_setup(BcryptSetup { salt: None, cost: None, variant: None }, pass)
}

/// Hashes a password with the parameters given: the text of a hash, whose
/// version, cost and salt are taken, or the parameters themselves. A cost
/// outside 4 to 31 is refused. The salt has 22 characters: fewer are too
/// short, more are no salt, and a character outside the alphabet is an
/// encoding error. Where the salt is left out a random one is drawn.
pub fn hash_with<'a, IBS: IntoBcryptSetup<'a>>(param: IBS, pass: &[u8]) -> (r: Result<
    crate::hash::Hash,
>)
    ensures
        hash_with_post(param.bcrypt_params(), pass@, r),
        param.bcrypt_params() is Text ==> crate::hash::is_outcome(
            r,
            HashKind::Bcrypt,
            crate::hash::rehash(HashKind::Bcrypt, pass@, param.bcrypt_params()->Text_0),
        ),
        r is Ok ==> r.unwrap().well_formed(),
        r is Ok ==> r.unwrap().is_hash_of(pass@),
{
    match param.into_bcrypt_setup() {
        Ok(setup) => hash_with_setup(setup, pass),
        Err(e) => Err(e),
    }
}

/// Whether `hash` is the hash of `pass`. A text that is no hash is not.
pub fn verify(pass: &[u8], hash: &str) -> (r: bool)
    ensures
        r == verify_spec(pass@, hash.spec_bytes()),
        r == crate::hash::verifies(HashKind::Bcrypt, pass@, hash.spec_bytes()),
{
    consteq(hash, hash_with(hash, pass))
}


/// The text from which version, cost and salt are read: the first 29 bytes
/// of a hash.
pub open spec fn header(v: BcryptVariant, cost: u32, bytes: Seq<u8>) -> Seq<u8> {
    seq![
        36u8,
        50u8,
        crate::internal::blowfish::variant_letter(v),
        36u8,
        (48 + cost / 10) as u8,
        (48 + cost % 10) as u8,
        36u8,
    ] + hash64(bytes)
}

/// A text that opens with the version, the two digits of a cost and the 22
/// characters that spell sixteen bytes of salt reads as that version, that
/// cost and that salt.
pub proof fn lemma_parse_header(
    text: Seq<u8>,
    v: BcryptVariant,
    cost: u32,
    bytes: Seq<u8>,
)
    requires
        cost <= 99,
        bytes.len() == 16,
        text.len() >= 29,
        text.subrange(0, 29) == header(v, cost, bytes),
    ensures
        parse_spec(text) == Ok::<BcryptSetupView, Error>(
            BcryptSetupView { salt: Some(hash64(bytes)), cost: Some(cost), variant: Some(v) },
        ),
{
    let head = header(v, cost, bytes);
    let salt = hash64(bytes);
    crate::encode::lemma_hash64(bytes);
    crate::encode::lemma_alphabet_is_ascii(salt);
    assert(head.len() == 29);
    assert forall|i: int| 0 <= i < 29 implies text[i] == head[i] by {
        assert(text.subrange(0, 29)[i] == text[i]);
    }
    let magic = seq![36u8, 50u8, crate::internal::blowfish::variant_letter(v), 36u8];
    let digits = seq![(48 + cost / 10) as u8, (48 + cost % 10) as u8];
    assert(text.subrange(0, 4) =~= magic) by {
        assert forall|i: int| 0 <= i < 4 implies text.subrange(0, 4)[i] == magic[i] by {
            assert(head[i] == magic[i]);
        }
    }
    assert(text.subrange(4, 6) =~= digits) by {
        assert forall|i: int| 0 <= i < 2 implies text.subrange(4, 6)[i] == digits[i] by {
            assert(head[i + 4] == digits[i]);
        }
    }
    assert(text[6] == 36u8) by {
        assert(head[6] == 36u8);
    }
    assert(text.subrange(7, 29) =~= salt) by {
        assert forall|i: int| 0 <= i < 22 implies text.subrange(7, 29)[i] == salt[i] by {
            assert(head[i + 7] == salt[i]);
        }
    }
    assert(crate::text::is_ascii_bytes(magic));
    assert(crate::text::is_ascii_bytes(digits));
    crate::parse::lemma_take_field(text, 0, magic);
    crate::parse::lemma_take_until_field(text, 4, digits, 36u8);
    crate::parse::lemma_take_field(text, 7, salt);
    assert(crate::encode::decimal_value(digits) == cost) by {
        reveal_with_fuel(crate::encode::decimal_value, 3);
        assert(digits.drop_last() =~= seq![(48 + cost / 10) as u8]);
        assert(digits.drop_last().drop_last() =~= Seq::<u8>::empty());
    }
    assert(magic[2] == crate::internal::blowfish::variant_letter(v));
    assert(seq![36u8, 50u8, 97u8, 36u8][2] == 97u8);
    assert(seq![36u8, 50u8, 98u8, 36u8][2] == 98u8);
    assert(seq![36u8, 50u8, 121u8, 36u8][2] == 121u8);
    match v {
        BcryptVariant::V2a => {
            assert(magic =~= seq![36u8, 50u8, 97u8, 36u8]);
        },
        BcryptVariant::V2b => {
            assert(magic =~= seq![36u8, 50u8, 98u8, 36u8]);
        },
        BcryptVariant::V2y => {
            assert(magic =~= seq![36u8, 50u8, 121u8, 36u8]);
        },
    }
}

/// A hash has sixty characters and opens with its header, in which the
/// salt is spelled anew from its sixteen bytes.
pub proof fn lemma_header_of_hash(
    v: BcryptVariant,
    cost: u32,
    salt: Seq<u8>,
    pass: Seq<u8>,
)
    requires
        bcrypt_crypt_spec(v, cost, salt, pass) is Ok,
    ensures
        bcrypt_crypt_spec(v, cost, salt, pass).unwrap().len() == 60,
        bcrypt_crypt_spec(v, cost, salt, pass).unwrap().subrange(0, 29) == header(
            v,
            cost,
            crate::internal::blowfish::bcrypt_salt_spec(salt).unwrap(),
        ),
        crate::internal::blowfish::bcrypt_salt_spec(salt).unwrap().len() == 16,
{
    let bytes = crate::internal::blowfish::bcrypt_salt_spec(salt).unwrap();
    let h = bcrypt_crypt_spec(v, cost, salt, pass).unwrap();
    crate::internal::blowfish::lemma_salt_len(salt);
    crate::encode::lemma_hash64(bytes);
    crate::internal::blowfish::lemma_bcrypt_text(cost, bytes, pass);
    assert(h.subrange(0, 29) =~= header(v, cost, bytes));
}

/// Hashing a password again under the parameters of its hash gives the same
/// hash: a hash verifies the password that it was made of.
pub proof fn lemma_round_trip(
    v: BcryptVariant,
    cost: u32,
    salt: Seq<u8>,
    pass: Seq<u8>,
)
    requires
        bcrypt_crypt_spec(v, cost, salt, pass) is Ok,
    ensures
        verify_spec(pass, bcrypt_crypt_spec(v, cost, salt, pass).unwrap()),
{
    let bytes = crate::internal::blowfish::bcrypt_salt_spec(salt).unwrap();
    let h = bcrypt_crypt_spec(v, cost, salt, pass).unwrap();
    lemma_header_of_hash(v, cost, salt, pass);
    lemma_parse_header(h, v, cost, bytes);
    crate::internal::blowfish::lemma_salt_of_hash64(bytes);
}

/// A text that differs from the hash of a password in the checksum alone
/// does not verify the password.
pub proof fn lemma_mutation(
    v: BcryptVariant,
    cost: u32,
    salt: Seq<u8>,
    pass: Seq<u8>,
    other: Seq<u8>,
)
    requires
        bcrypt_crypt_spec(v, cost, salt, pass) is Ok,
        crate::hash::differs_in_checksum(bcrypt_crypt_spec(v, cost, salt, pass).unwrap(), other, 31),
    ensures
        !verify_spec(pass, other),
{
    let bytes = crate::internal::blowfish::bcrypt_salt_spec(salt).unwrap();
    lemma_header_of_hash(v, cost, salt, pass);
    lemma_parse_header(other, v, cost, bytes);
    crate::internal::blowfish::lemma_salt_of_hash64(bytes);
}

/// True when the parameters name the salt, so that nothing is drawn.
pub open spec fn is_explicit(params: BcryptParams) -> bool {
    match params {
        BcryptParams::Text(_) => true,
        BcryptParams::Setup(setup) => setup.salt is Some,
    }
}

/// Two results of `hash_with` for the same parameters and password are the
/// same where the parameters name the salt: both the same hash or both the
/// same error.
pub proof fn lemma_deterministic(
    params: BcryptParams,
    pass: Seq<u8>,
    r1: Result<crate::hash::Hash>,
    r2: Result<crate::hash::Hash>,
)
    requires
        is_explicit(params),
        hash_with_post(params, pass, r1),
        hash_with_post(params, pass, r2),
    ensures
        crate::hash::same_outcome(r1, r2),
{
}

/// A hash is recognised as one of this format.
pub proof fn lemma_recognized(
    v: BcryptVariant,
    cost: u32,
    salt: Seq<u8>,
    pass: Seq<u8>,
)
    requires
        bcrypt_crypt_spec(v, cost, salt, pass) is Ok,
    ensures
        crate::hash::recognize(bcrypt_crypt_spec(v, cost, salt, pass).unwrap()) == Ok::<
            HashKind,
            Error,
        >(HashKind::Bcrypt),
{
    let bytes = crate::internal::blowfish::bcrypt_salt_spec(salt).unwrap();
    let h = bcrypt_crypt_spec(v, cost, salt, pass).unwrap();
    lemma_header_of_hash(v, cost, salt, pass);
    let head = header(v, cost, bytes);
    assert forall|i: int| 0 <= i < 4 implies h[i] == head[i] by {
        assert(h.subrange(0, 29)[i] == h[i]);
    }
    let token = seq![50u8, crate::internal::blowfish::variant_letter(v)];
    assert(h.subrange(0, 1) =~= seq![36u8]);
    assert(h.subrange(1, 3) =~= token);
    assert(crate::text::is_ascii_bytes(seq![36u8]));
    assert(crate::text::is_ascii_bytes(token));
    crate::parse::lemma_take_field(h, 0, seq![36u8]);
    crate::parse::lemma_take_until_field(h, 1, token, 36u8);
    assert(token.len() != seq![49u8].len());
    assert(token.len() != seq![97u8, 112u8, 114u8, 49u8].len());
    match v {
        BcryptVariant::V2a => {
            assert(token =~= seq![50u8, 97u8]);
        },
        BcryptVariant::V2b => {
            assert(token =~= seq![50u8, 98u8]);
        },
        BcryptVariant::V2y => {
            assert(token =~= seq![50u8, 121u8]);
        },
    }
}


/// A hash that `hash` or `hash_with` has made of a password verifies the
/// password: hashing the password again under the hash gives the hash.
pub proof fn lemma_made_hash_verifies(
    params: BcryptParams,
    pass: Seq<u8>,
    r: Result<crate::hash::Hash>,
)
    requires
        r is Ok,
        hash_with_post(params, pass, r),
    ensures
        verify_spec(pass, r.unwrap().bytes()),
{
    let setup = match params {
        BcryptParams::Text(text) => parse_spec(text).unwrap(),
        BcryptParams::Setup(setup) => setup,
    };
    match setup.salt {
        Some(salt) => {
            lemma_round_trip(version_of(setup), cost_of(setup), salt, pass);
        },
        None => {
            let bytes = choose|bytes: Seq<u8>|
                bytes.len() == 16 && #[trigger] bcrypt_crypt_spec(
                    version_of(setup),
                    cost_of(setup),
                    hash64(bytes),
                    pass,
                ) == Ok::<Seq<u8>, Error>(r.unwrap().bytes());
            lemma_round_trip(version_of(setup), cost_of(setup), hash64(bytes), pass);
        },
    }
}

} // verus!
