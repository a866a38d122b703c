//! The hash as a value: the text of a hash together with the algorithm that
//! it belongs to, and the recognition of the algorithm from a text.
use vstd::prelude::*;
use vstd::string::*;
use vstd::utf8::*;
use core::str::FromStr;
use vstd::std_specs::cmp::PartialEqSpecImpl;
use vstd::std_specs::convert::{FromSpecImpl, TryFromSpecImpl};
use crate::error::{Error, Result};
use crate::parse::{take_spec, take_until_spec, HashIterator, HashSlice};
use crate::text::{ascii_string, bytes_eq, is_ascii_bytes};

verus! {

/// The text of a hash.
#[derive(Debug, Clone)]
pub struct HashV(pub(crate) String);

impl View for HashV {
    type V = Seq<char>;

    closed spec fn view(&self) -> Seq<char> {
        self.0@
    }
}

impl core::ops::Deref for HashV {
    type Target = str;

    fn deref(&self) -> (r: &str)
        ensures
            r@ == self@,
    {
        self.0.as_str()
    }
}

/// A hash of one of the eight formats.
#[derive(Debug, Clone)]
pub enum Hash {
    /// An Apache MD5 hash, `$apr1$`.
    Apr1(HashV),
    /// A bcrypt hash, `$2a$`, `$2b$` or `$2y$`.
    Bcrypt(HashV),
    /// A hash of extended DES `crypt`, `_`.
    Bsdi(HashV),
    /// An MD5 hash, `$1$`.
    Md5(HashV),
    /// An HMAC-SHA1 hash, `$sha1$`.
    Sha1(HashV),
    /// A SHA-256 hash, `$5$`.
    Sha256(HashV),
    /// A SHA-512 hash, `$6$`.
    Sha512(HashV),
    /// A hash of traditional DES `crypt`.
    Unix(HashV),
}

/// The eight formats.
#[derive(Debug, Clone, Copy, PartialEq, Eq, Structural)]
pub enum HashKind {
    /// Apache MD5, `$apr1$`.
    Apr1,
    /// bcrypt, `$2a$`, `$2b$` or `$2y$`.
    Bcrypt,
    /// Extended DES `crypt`, `_`.
    Bsdi,
    /// MD5, `$1$`.
    Md5,
    /// HMAC-SHA1, `$sha1$`.
    Sha1,
    /// SHA-256, `$5$`.
    Sha256,
    /// SHA-512, `$6$`.
    Sha512,
    /// Traditional DES `crypt`.
    Unix,
}

/// The least length of a hash of the format.
pub open spec fn min_length(kind: HashKind) -> nat {
    match kind {
        HashKind::Apr1 => crate::crypt::apr1::HASH_LENGTH_MIN as nat,
        HashKind::Bcrypt => crate::crypt::bcrypt::HASH_LENGTH as nat,
        HashKind::Bsdi => crate::crypt::bsdi::HASH_LENGTH as nat,
        HashKind::Md5 => crate::crypt::md5::HASH_LENGTH_MIN as nat,
        HashKind::Sha1 => crate::crypt::sha1::HASH_LENGTH_MIN as nat,
        HashKind::Sha256 => crate::crypt::sha256::HASH_LENGTH_MIN as nat,
        HashKind::Sha512 => crate::crypt::sha512::HASH_LENGTH_MIN as nat,
        HashKind::Unix => crate::crypt::unix::HASH_LENGTH as nat,
    }
}

/// The greatest length of a hash of the format.
pub open spec fn max_length(kind: HashKind) -> nat {
    match kind {
        HashKind::Apr1 => crate::crypt::apr1::HASH_LENGTH_MAX as nat,
        HashKind::Bcrypt => crate::crypt::bcrypt::HASH_LENGTH as nat,
        HashKind::Bsdi => crate::crypt::bsdi::HASH_LENGTH as nat,
        HashKind::Md5 => crate::crypt::md5::HASH_LENGTH_MAX as nat,
        HashKind::Sha1 => crate::crypt::sha1::HASH_LENGTH_MAX as nat,
        HashKind::Sha256 => crate::crypt::sha256::HASH_LENGTH_MAX as nat,
        HashKind::Sha512 => crate::crypt::sha512::HASH_LENGTH_MAX as nat,
        HashKind::Unix => crate::crypt::unix::HASH_LENGTH as nat,
    }
}

/// The format that the token between the first two `$` names.
pub open spec fn kind_of_token(token: Seq<u8>) -> Option<HashKind> {
    if token == seq![49u8] {
        Some(HashKind::Md5)
    } else if token == seq![97u8, 112u8, 114u8, 49u8] {
        Some(HashKind::Apr1)
    } else if token == seq![50u8, 97u8] || token == seq![50u8, 98u8] || token == seq![50u8, 121u8] {
        Some(HashKind::Bcrypt)
    } else if token == seq![115u8, 104u8, 97u8, 49u8] {
        Some(HashKind::Sha1)
    } else if token == seq![53u8] {
        Some(HashKind::Sha256)
    } else if token == seq![54u8] {
        Some(HashKind::Sha512)
    } else {
        None
    }
}

/// The format that the shape of the text `s` shows, before its length is
/// looked at: an underscore in front is extended DES; a `$` in front is the
/// format that the token up to the next `$` names; anything else of thirteen
/// bytes is traditional DES.
pub open spec fn shape_of(s: Seq<u8>) -> Result<HashKind> {
    let first = take_spec(s, 0, 1);
    if first.0 == Some(seq![95u8]) {
        Ok(HashKind::Bsdi)
    } else if first.0 == Some(seq![36u8]) {
        match take_until_spec(s, first.1, 36u8).0 {
            Some(token) => match kind_of_token(token) {
                Some(kind) => Ok(kind),
                None => Err(Error::InvalidHashString),
            },
            None => Err(Error::InvalidHashString),
        }
    } else if s.len() == 13 {
        Ok(HashKind::Unix)
    } else {
        Err(Error::InvalidHashString)
    }
}

/// The format that the text `s` is recognised as: the one that its shape
/// shows, where its length is one of that format.
pub open spec fn recognize(s: Seq<u8>) -> Result<HashKind> {
    match shape_of(s) {
        Err(e) => Err(e),
        Ok(kind) => if min_length(kind) <= s.len() <= max_length(kind) {
            Ok(kind)
        } else {
            Err(Error::InsufficientLength)
        },
    }
}

impl Hash {
    /// The text of the hash.
    pub closed spec fn text(&self) -> Seq<char> {
        match self {
            Hash::Apr1(h) => h.0@,
            Hash::Bcrypt(h) => h.0@,
            Hash::Bsdi(h) => h.0@,
            Hash::Md5(h) => h.0@,
            Hash::Sha1(h) => h.0@,
            Hash::Sha256(h) => h.0@,
            Hash::Sha512(h) => h.0@,
            Hash::Unix(h) => h.0@,
        }
    }

    /// The text of the hash as bytes.
    pub open spec fn bytes(&self) -> Seq<u8> {
        encode_utf8(self.text())
    }

    /// The format of the hash.
    pub open spec fn kind(&self) -> HashKind {
        match self {
            Hash::Apr1(_) => HashKind::Apr1,
            Hash::Bcrypt(_) => HashKind::Bcrypt,
            Hash::Bsdi(_) => HashKind::Bsdi,
            Hash::Md5(_) => HashKind::Md5,
            Hash::Sha1(_) => HashKind::Sha1,
            Hash::Sha256(_) => HashKind::Sha256,
            Hash::Sha512(_) => HashKind::Sha512,
            Hash::Unix(_) => HashKind::Unix,
        }
    }

    /// True when this hash is the hash of `pass`: hashing `pass` in the
    /// format of this hash, under its salt and with its rounds, gives its
    /// text again. Every hash that a hash function of this crate returns for
    /// a password is the hash of that password.
    pub open spec fn is_hash_of(&self, pass: Seq<u8>) -> bool {
        verifies(self.kind(), pass, self.bytes())
    }

    /// True when the text has the shape and the length of the format: it is
    /// recognised as a hash of the format that it is held as.
    pub open spec fn well_formed(&self) -> bool {
        recognize(self.bytes()) == Ok::<HashKind, Error>(self.kind())
    }

    /// The hash of format `kind` with the text `text`.
    pub(crate) fn of_text(kind: HashKind, text: HashV) -> (h: Hash)
        ensures
            h.kind() == kind,
            h.text() == text@,
    {
        match kind {
            HashKind::Apr1 => Hash::Apr1(text),
            HashKind::Bcrypt => Hash::Bcrypt(text),
            HashKind::Bsdi => Hash::Bsdi(text),
            HashKind::Md5 => Hash::Md5(text),
            HashKind::Sha1 => Hash::Sha1(text),
            HashKind::Sha256 => Hash::Sha256(text),
            HashKind::Sha512 => Hash::Sha512(text),
            HashKind::Unix => Hash::Unix(text),
        }
    }

    /// The hash of format `kind` whose text the ASCII bytes `text` spell.
    pub(crate) fn of_ascii(kind: HashKind, text: Vec<u8>) -> (h: Hash)
        requires
            is_ascii_bytes(text@),
        ensures
            h.kind() == kind,
            h.bytes() == text@,
    {
        Hash::of_text(kind, HashV(ascii_string(text)))
    }

    /// The format of the hash.
    pub fn kind_of(&self) -> (k: HashKind)
        ensures
            k == self.kind(),
    {
        match self {
            Hash::Apr1(_) => HashKind::Apr1,
            Hash::Bcrypt(_) => HashKind::Bcrypt,
            Hash::Bsdi(_) => HashKind::Bsdi,
            Hash::Md5(_) => HashKind::Md5,
            Hash::Sha1(_) => HashKind::Sha1,
            Hash::Sha256(_) => HashKind::Sha256,
            Hash::Sha512(_) => HashKind::Sha512,
            Hash::Unix(_) => HashKind::Unix,
        }
    }

    /// The text of the hash.
    pub fn as_str(&self) -> (r: &str)
        ensures
            r@ == self.text(),
            r.spec_bytes() == self.bytes(),
    {
        match self {
            Hash::Apr1(h) => h.0.as_str(),
            Hash::Bcrypt(h) => h.0.as_str(),
            Hash::Bsdi(h) => h.0.as_str(),
            Hash::Md5(h) => h.0.as_str(),
            Hash::Sha1(h) => h.0.as_str(),
            Hash::Sha256(h) => h.0.as_str(),
            Hash::Sha512(h) => h.0.as_str(),
            Hash::Unix(h) => h.0.as_str(),
        }
    }

    /// The text of the hash, the hash given up for it.
    pub fn into_string(self) -> (r: String)
        ensures
            r@ == self.text(),
    {
        match self {
            Hash::Apr1(h) => h.0,
            Hash::Bcrypt(h) => h.0,
            Hash::Bsdi(h) => h.0,
            Hash::Md5(h) => h.0,
            Hash::Sha1(h) => h.0,
            Hash::Sha256(h) => h.0,
            Hash::Sha512(h) => h.0,
            Hash::Unix(h) => h.0,
        }
    }

    /// Recognises the format of the text `value` and makes the hash of it.
    /// Besides the shape, only the length of the text is looked at.
    pub fn recognized(value: &str) -> (r: Result<Hash>)
        ensures
            match recognize(value.spec_bytes()) {
                Ok(kind) => r is Ok && r.unwrap().kind() == kind && r.unwrap().text() == value@
                    && r.unwrap().well_formed(),
                Err(e) => r == Err::<Hash, Error>(e),
            },
    {
        let len = value.as_bytes().len();
        let underscore = [95u8];
        let dollar = [36u8];
        let md5 = [49u8];
        let apr1 = [97u8, 112u8, 114u8, 49u8];
        let bcrypt_a = [50u8, 97u8];
        let bcrypt_b = [50u8, 98u8];
        let bcrypt_y = [50u8, 121u8];
        let sha1 = [115u8, 104u8, 97u8, 49u8];
        let sha256 = [53u8];
        let sha512 = [54u8];
        proof {
            assert(underscore@ =~= seq![95u8]);
            assert(dollar@ =~= seq![36u8]);
            assert(md5@ =~= seq![49u8]);
            assert(apr1@ =~= seq![97u8, 112u8, 114u8, 49u8]);
            assert(bcrypt_a@ =~= seq![50u8, 97u8]);
            assert(bcrypt_b@ =~= seq![50u8, 98u8]);
            assert(bcrypt_y@ =~= seq![50u8, 121u8]);
            assert(sha1@ =~= seq![115u8, 104u8, 97u8, 49u8]);
            assert(sha256@ =~= seq![53u8]);
            assert(sha512@ =~= seq![54u8]);
        }
        let mut hs = HashSlice::new(value);
        let first = hs.take(1);
        let shape: Result<HashKind> = if is_text(first, &underscore) {
            Ok(HashKind::Bsdi)
        } else if is_text(first, &dollar) {
            let token = hs.take_until(36u8);
            if is_text(token, &md5) {
                Ok(HashKind::Md5)
            } else if is_text(token, &apr1) {
                Ok(HashKind::Apr1)
            } else if is_text(token, &bcrypt_a) || is_text(token, &bcrypt_b) || is_text(
                token,
                &bcrypt_y,
            ) {
                Ok(HashKind::Bcrypt)
            } else if is_text(token, &sha1) {
                Ok(HashKind::Sha1)
            } else if is_text(token, &sha256) {
                Ok(HashKind::Sha256)
            } else if is_text(token, &sha512) {
                Ok(HashKind::Sha512)
            } else {
                Err(Error::InvalidHashString)
            }
        } else if len == 13 {
            Ok(HashKind::Unix)
        } else {
            Err(Error::InvalidHashString)
        };
        assert(shape == shape_of(value.spec_bytes()));
        match shape {
            Err(e) => Err(e),
            Ok(kind) => {
                let gated = match kind {
                    HashKind::Apr1 => gater(
                        value,
                        crate::crypt::apr1::HASH_LENGTH_MIN,
                        crate::crypt::apr1::HASH_LENGTH_MAX,
                    ),
                    HashKind::Bcrypt => gatel(value, crate::crypt::bcrypt::HASH_LENGTH),
                    HashKind::Bsdi => gatel(value, crate::crypt::bsdi::HASH_LENGTH),
                    HashKind::Md5 => gater(
                        value,
                        crate::crypt::md5::HASH_LENGTH_MIN,
                        crate::crypt::md5::HASH_LENGTH_MAX,
                    ),
                    HashKind::Sha1 => gater(
                        value,
                        crate::crypt::sha1::HASH_LENGTH_MIN,
                        crate::crypt::sha1::HASH_LENGTH_MAX,
                    ),
                    HashKind::Sha256 => gater(
                        value,
                        crate::crypt::sha256::HASH_LENGTH_MIN,
                        crate::crypt::sha256::HASH_LENGTH_MAX,
                    ),
                    HashKind::Sha512 => gater(
                        value,
                        crate::crypt::sha512::HASH_LENGTH_MIN,
                        crate::crypt::sha512::HASH_LENGTH_MAX,
                    ),
                    HashKind::Unix => gatel(value, crate::crypt::unix::HASH_LENGTH),
                };
                match gated {
                    Ok(text) => Ok(Hash::of_text(kind, text)),
                    Err(e) => Err(e),
                }
            },
        }
    }
}

/// The text `s` as the text of a hash, if it has `size` bytes.
pub fn gatel(s: &str, size: usize) -> (r: Result<HashV>)
    ensures
        s.spec_bytes().len() == size ==> r is Ok && r.unwrap()@ == s@,
        s.spec_bytes().len() != size ==> r == Err::<HashV, Error>(Error::InsufficientLength),
{
    gater(s, size, size)
}

/// The text `s` as the text of a hash, if it has at least `min` and at most
/// `max` bytes.
pub fn gater(s: &str, min: usize, max: usize) -> (r: Result<HashV>)
    ensures
        min <= s.spec_bytes().len() <= max ==> r is Ok && r.unwrap()@ == s@,
        !(min <= s.spec_bytes().len() <= max) ==> r == Err::<HashV, Error>(
            Error::InsufficientLength,
        ),
{
    let len = s.as_bytes().len();
    if min <= len && len <= max {
        Ok(HashV(s.to_owned()))
    } else {
        Err(Error::InsufficientLength)
    }
}

/// Whether a field was handed out and spells `word`.
pub fn is_text<const N: usize>(field: Option<&str>, word: &[u8; N]) -> (r: bool)
    ensures
        r == (crate::text::opt_bytes(field) == Some(word@)),
{
    match field {
        Some(s) => bytes_eq(s.as_bytes(), word.as_slice()),
        None => false,
    }
}

impl<'a> TryFrom<&'a str> for Hash {
    type Error = Error;

    fn try_from(value: &'a str) -> (r: Result<Hash>)
        ensures
            match recognize(value.spec_bytes()) {
                Ok(kind) => r is Ok && r.unwrap().kind() == kind && r.unwrap().text() == value@
                    && r.unwrap().well_formed(),
                Err(e) => r == Err::<Hash, Error>(e),
            },
    {
        Hash::recognized(value)
    }
}

/// What `try_from` returns is stated on the function itself, over the text
/// of the hash: two owned texts that read alike need not be the same value,
/// so no value stands for the result here.
impl<'a> TryFromSpecImpl<&'a str> for Hash {
    open spec fn obeys_try_from_spec() -> bool {
        false
    }

    open spec fn try_from_spec(v: &'a str) -> core::result::Result<Hash, Error> {
        Err(Error::InvalidHashString)
    }
}

impl FromStr for Hash {
    type Err = Error;

    fn from_str(s: &str) -> (r: Result<Hash>)
        ensures
            match recognize(s.spec_bytes()) {
                Ok(kind) => r is Ok && r.unwrap().kind() == kind && r.unwrap().text() == s@
                    && r.unwrap().well_formed(),
                Err(e) => r == Err::<Hash, Error>(e),
            },
    {
        Hash::recognized(s)
    }
}

impl From<Hash> for String {
    fn from(h: Hash) -> (r: String)
        ensures
            r@ == h.text(),
    {
        h.into_string()
    }
}

/// What `from` returns is stated on the function itself, over the view of
/// the text.
impl FromSpecImpl<Hash> for String {
    open spec fn obeys_from_spec() -> bool {
        false
    }

    open spec fn from_spec(h: Hash) -> String {
        arbitrary()
    }
}

impl core::ops::Deref for Hash {
    type Target = str;

    fn deref(&self) -> (r: &str)
        ensures
            r@ == self.text(),
    {
        self.as_str()
    }
}

impl PartialEq for Hash {
    fn eq(&self, other: &Hash) -> (r: bool) {
        bytes_eq(self.as_str().as_bytes(), other.as_str().as_bytes())
    }
}

impl PartialEqSpecImpl for Hash {
    open spec fn obeys_eq_spec() -> bool {
        true
    }

    open spec fn eq_spec(&self, other: &Hash) -> bool {
        self.bytes() == other.bytes()
    }
}

impl<'a> PartialEq<&'a str> for Hash {
    fn eq(&self, other: &&'a str) -> (r: bool) {
        bytes_eq(self.as_str().as_bytes(), other.as_bytes())
    }
}

impl<'a> PartialEqSpecImpl<&'a str> for Hash {
    open spec fn obeys_eq_spec() -> bool {
        true
    }

    open spec fn eq_spec(&self, other: &&'a str) -> bool {
        self.bytes() == other.spec_bytes()
    }
}

impl<'a> PartialEq<Hash> for &'a str {
    fn eq(&self, other: &Hash) -> (r: bool) {
        bytes_eq(self.as_bytes(), other.as_str().as_bytes())
    }
}

impl<'a> PartialEqSpecImpl<Hash> for &'a str {
    open spec fn obeys_eq_spec() -> bool {
        true
    }

    open spec fn eq_spec(&self, other: &Hash) -> bool {
        self.spec_bytes() == other.bytes()
    }
}

impl PartialEq<String> for Hash {
    fn eq(&self, other: &String) -> (r: bool) {
        bytes_eq(self.as_str().as_bytes(), other.as_str().as_bytes())
    }
}

impl PartialEqSpecImpl<String> for Hash {
    open spec fn obeys_eq_spec() -> bool {
        true
    }

    open spec fn eq_spec(&self, other: &String) -> bool {
        self.bytes() == encode_utf8(other@)
    }
}

impl PartialEq<Hash> for String {
    fn eq(&self, other: &Hash) -> (r: bool) {
        bytes_eq(self.as_str().as_bytes(), other.as_str().as_bytes())
    }
}

impl PartialEqSpecImpl<Hash> for String {
    open spec fn obeys_eq_spec() -> bool {
        true
    }

    open spec fn eq_spec(&self, other: &Hash) -> bool {
        encode_utf8(self@) == other.bytes()
    }
}


/// True when `r` is the hash of format `kind` with the text `expected`, or
/// the error that stands in its place.
pub open spec fn is_outcome(r: Result<Hash>, kind: HashKind, expected: Result<Seq<u8>>) -> bool {
    match expected {
        Ok(h) => r is Ok && r.unwrap().kind() == kind && r.unwrap().bytes() == h,
        Err(e) => r == Err::<Hash, Error>(e),
    }
}

/// The hash of format `kind` of the text that a transform gave, or the
/// transform's error.
pub fn finish(kind: HashKind, text: Result<Vec<u8>>) -> (r: Result<Hash>)
    requires
        text is Ok ==> is_ascii_bytes(text.unwrap()@),
    ensures
        is_outcome(
            r,
            kind,
            match text {
                Ok(v) => Ok(v@),
                Err(e) => Err(e),
            },
        ),
{
    match text {
        Ok(v) => Ok(Hash::of_ascii(kind, v)),
        Err(e) => Err(e),
    }
}


/// The hash that the text `text`, taken as a hash of format `kind`, asks
/// for, for the password `pass`: the hash of `pass` under the salt and the
/// rounds that the text carries, or the error of reading them.
pub open spec fn rehash(kind: HashKind, pass: Seq<u8>, text: Seq<u8>) -> Result<Seq<u8>> {
    match kind {
        HashKind::Apr1 => crate::crypt::md5::rehash(pass, text, crate::crypt::apr1::APR1_MAGIC@),
        HashKind::Bcrypt => crate::crypt::bcrypt::rehash(pass, text),
        HashKind::Bsdi => crate::crypt::bsdi::rehash(pass, text),
        HashKind::Md5 => crate::crypt::md5::rehash(pass, text, crate::crypt::md5::MD5_MAGIC@),
        HashKind::Sha1 => crate::crypt::sha1::rehash(pass, text),
        HashKind::Sha256 => crate::crypt::sha256::rehash(
            pass,
            text,
            crate::internal::sha2_crypt::Sha2::Sha256,
        ),
        HashKind::Sha512 => crate::crypt::sha256::rehash(
            pass,
            text,
            crate::internal::sha2_crypt::Sha2::Sha512,
        ),
        HashKind::Unix => crate::internal::des::unix_crypt_spec(pass, text),
    }
}

/// Whether the text `text`, taken as a hash of format `kind`, is the hash
/// of `pass`.
pub open spec fn verifies(kind: HashKind, pass: Seq<u8>, text: Seq<u8>) -> bool {
    rehash(kind, pass, text) == Ok::<Seq<u8>, Error>(text)
}

impl Hash {
    /// Hashes a password in the format of this hash, under its salt and
    /// with its rounds. A hash that is the hash of `pass` is made again.
    pub fn hash_with(&self, pass: &[u8]) -> (r: Result<Hash>)
        ensures
            is_outcome(r, self.kind(), rehash(self.kind(), pass@, self.bytes())),
            self.is_hash_of(pass@) ==> r is Ok && r.unwrap().kind() == self.kind()
                && r.unwrap().bytes() == self.bytes(),
            r is Ok ==> r.unwrap().well_formed(),
            r is Ok ==> r.unwrap().is_hash_of(pass@),
    {
        match self {
            Hash::Apr1(h) => crate::crypt::apr1::hash_with(h.0.as_str(), pass),
            Hash::Bcrypt(h) => crate::crypt::bcrypt::hash_with(h.0.as_str(), pass),
            Hash::Bsdi(h) => crate::crypt::bsdi::hash_with(h.0.as_str(), pass),
            Hash::Md5(h) => crate::crypt::md5::hash_with(h.0.as_str(), pass),
            Hash::Sha1(h) => crate::crypt::sha1::hash_with(h.0.as_str(), pass),
            Hash::Sha256(h) => crate::crypt::sha256::hash_with(h.0.as_str(), pass),
            Hash::Sha512(h) => crate::crypt::sha512::hash_with(h.0.as_str(), pass),
            Hash::Unix(h) => crate::crypt::unix::hash_with(h.0.as_str(), pass),
        }
    }

    /// Whether this hash is the hash of `pass`.
    pub fn verify(&self, pass: &[u8]) -> (r: bool)
        ensures
            r == self.is_hash_of(pass@),
    {
        match self {
            Hash::Apr1(h) => crate::crypt::apr1::verify(pass, h.0.as_str()),
            Hash::Bcrypt(h) => crate::crypt::bcrypt::verify(pass, h.0.as_str()),
            Hash::Bsdi(h) => crate::crypt::bsdi::verify(pass, h.0.as_str()),
            Hash::Md5(h) => crate::crypt::md5::verify(pass, h.0.as_str()),
            Hash::Sha1(h) => crate::crypt::sha1::verify(pass, h.0.as_str()),
            Hash::Sha256(h) => crate::crypt::sha256::verify(pass, h.0.as_str()),
            Hash::Sha512(h) => crate::crypt::sha512::verify(pass, h.0.as_str()),
            Hash::Unix(h) => crate::crypt::unix::verify(pass, h.0.as_str()),
        }
    }
}


/// True when two results are the same: hashes of the same format and text,
/// or the same error.
pub open spec fn same_outcome(r1: Result<Hash>, r2: Result<Hash>) -> bool {
    match (r1, r2) {
        (Ok(a), Ok(b)) => a.kind() == b.kind() && a.bytes() == b.bytes(),
        (Err(a), Err(b)) => a == b,
        _ => false,
    }
}


/// True when `other` is not `hash` but opens as `hash` does up to its last
/// `checksum_len` bytes: at most the checksum is changed.
pub open spec fn differs_in_checksum(hash: Seq<u8>, other: Seq<u8>, checksum_len: nat) -> bool {
    &&& hash.len() >= checksum_len
    &&& other != hash
    &&& other.len() >= hash.len() - checksum_len
    &&& other.subrange(0, hash.len() - checksum_len) == hash.subrange(0, hash.len() - checksum_len)
}

/// The length of the checksum at the end of a hash of the format.
pub open spec fn checksum_length(kind: HashKind) -> nat {
    match kind {
        HashKind::Apr1 => 22,
        HashKind::Bcrypt => 31,
        HashKind::Bsdi => 11,
        HashKind::Md5 => 22,
        HashKind::Sha1 => 28,
        HashKind::Sha256 => 43,
        HashKind::Sha512 => 86,
        HashKind::Unix => 11,
    }
}

} // verus!
