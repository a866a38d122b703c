//! The radix-64 encodings of the hash formats.
//!
//! Two alphabets of the same 64 characters are in use, in different orders:
//! the one of traditional `crypt` (`./0-9A-Za-z`) and the one of bcrypt
//! (`./A-Za-z0-9`). Numbers are written with the least significant digit
//! first; byte strings are written six bits at a time from the most
//! significant bit of the first byte.
use vstd::prelude::*;
use crate::error::{Error, Result};
use crate::text::is_ascii_bytes;

verus! {

/// True when `c` is one of the 64 characters of the alphabets.
pub open spec fn in_alphabet(c: u8) -> bool {
    46 <= c <= 57 || 65 <= c <= 90 || 97 <= c <= 122
}

/// True when every byte of `s` is a character of the alphabets.
pub open spec fn all_in_alphabet(s: Seq<u8>) -> bool {
    forall|i: int| 0 <= i < s.len() ==> in_alphabet(#[trigger] s[i])
}

/// The character that stands for the digit `v` in the `crypt` alphabet.
pub open spec fn crypt_char(v: int) -> u8 {
    if v < 12 {
        (46 + v) as u8
    } else if v < 38 {
        (53 + v) as u8
    } else {
        (59 + v) as u8
    }
}

/// The digit that `c` stands for in the `crypt` alphabet.
pub open spec fn crypt_value(c: u8) -> int {
    if c <= 57 {
        c - 46
    } else if c <= 90 {
        c - 53
    } else {
        c - 59
    }
}

/// The character that stands for the digit `v` in the bcrypt alphabet.
pub open spec fn bcrypt_char(v: int) -> u8 {
    if v < 2 {
        (46 + v) as u8
    } else if v < 28 {
        (63 + v) as u8
    } else if v < 54 {
        (69 + v) as u8
    } else {
        (v - 6) as u8
    }
}

/// The digit that `c` stands for in the bcrypt alphabet.
pub open spec fn bcrypt_value(c: u8) -> int {
    if c <= 47 {
        c - 46
    } else if c <= 57 {
        c + 6
    } else if c <= 90 {
        c - 63
    } else {
        c - 69
    }
}

/// Each alphabet is a one-to-one map between the digits 0 to 63 and the 64
/// characters.
pub proof fn lemma_alphabets(v: int, c: u8)
    ensures
        0 <= v < 64 ==> in_alphabet(crypt_char(v)) && crypt_value(crypt_char(v)) == v,
        0 <= v < 64 ==> in_alphabet(bcrypt_char(v)) && bcrypt_value(bcrypt_char(v)) == v,
        in_alphabet(c) ==> 0 <= crypt_value(c) < 64 && crypt_char(crypt_value(c)) == c,
        in_alphabet(c) ==> 0 <= bcrypt_value(c) < 64 && bcrypt_char(bcrypt_value(c)) == c,
        in_alphabet(c) ==> c < 128,
{
}

/// A text over the alphabet is ASCII.
pub proof fn lemma_alphabet_is_ascii(s: Seq<u8>)
    requires
        all_in_alphabet(s),
    ensures
        is_ascii_bytes(s),
{
    assert forall|i: int| 0 <= i < s.len() implies #[trigger] s[i] < 128 by {
        assert(in_alphabet(s[i]));
    }
}

/// The concatenation of two texts over the alphabet is over the alphabet.
pub proof fn lemma_all_in_alphabet_concat(a: Seq<u8>, b: Seq<u8>)
    requires
        all_in_alphabet(a),
        all_in_alphabet(b),
    ensures
        all_in_alphabet(a + b),
        (a + b).len() == a.len() + b.len(),
{
    assert forall|i: int| 0 <= i < (a + b).len() implies in_alphabet(#[trigger] (a + b)[i]) by {
        if i < a.len() {
            assert((a + b)[i] == a[i]);
        } else {
            assert((a + b)[i] == b[i - a.len()]);
        }
    }
}

/// The character of digit `v` in the `crypt` alphabet.
pub fn crypt_char_of(v: u8) -> (c: u8)
    requires
        v < 64,
    ensures
        c == crypt_char(v as int),
        in_alphabet(c),
{
    if v < 12 {
        46 + v
    } else if v < 38 {
        53 + v
    } else {
        59 + v
    }
}

/// The digit of `c` in the `crypt` alphabet, if it has one.
pub fn crypt_value_of(c: u8) -> (r: Option<u8>)
    ensures
        r is Some <==> in_alphabet(c),
        r is Some ==> r.unwrap() == crypt_value(c) && r.unwrap() < 64,
{
    if 46 <= c && c <= 57 {
        Some(c - 46)
    } else if 65 <= c && c <= 90 {
        Some(c - 53)
    } else if 97 <= c && c <= 122 {
        Some(c - 59)
    } else {
        None
    }
}

/// The character of digit `v` in the bcrypt alphabet.
pub fn bcrypt_char_of(v: u8) -> (c: u8)
    requires
        v < 64,
    ensures
        c == bcrypt_char(v as int),
        in_alphabet(c),
{
    if v < 2 {
        46 + v
    } else if v < 28 {
        63 + v
    } else if v < 54 {
        69 + v
    } else {
        v - 6
    }
}

/// The digit of `c` in the bcrypt alphabet, if it has one.
pub fn bcrypt_value_of(c: u8) -> (r: Option<u8>)
    ensures
        r is Some <==> in_alphabet(c),
        r is Some ==> r.unwrap() == bcrypt_value(c) && r.unwrap() < 64,
{
    if 46 <= c && c <= 47 {
        Some(c - 46)
    } else if 48 <= c && c <= 57 {
        Some(c + 6)
    } else if 65 <= c && c <= 90 {
        Some(c - 63)
    } else if 97 <= c && c <= 122 {
        Some(c - 69)
    } else {
        None
    }
}

/// Whether every byte of `s` is a character of the alphabets.
pub fn check_alphabet(s: &[u8]) -> (r: bool)
    ensures
        r == all_in_alphabet(s@),
{
    let mut i: usize = 0;
    while i < s.len()
        invariant
            i <= s.len(),
            forall|j: int| 0 <= j < i ==> in_alphabet(#[trigger] s@[j]),
        decreases s.len() - i,
    {
        if crypt_value_of(s[i]).is_none() {
            return false;
        }
        i += 1;
    }
    true
}

// ---------------------------------------------------------------------------
// Numbers
// ---------------------------------------------------------------------------
/// The `n` low digits of `val` to base 64 in the `crypt` alphabet, the least
/// significant first.
pub open spec fn val_digits(val: nat, n: nat) -> Seq<u8>
    decreases n,
{
    if n == 0 {
        Seq::empty()
    } else {
        seq![crypt_char((val % 64) as int)] + val_digits(val / 64, (n - 1) as nat)
    }
}

/// The number that the digits `d` spell, the least significant first.
pub open spec fn digits_value(d: Seq<u8>) -> nat
    decreases d.len(),
{
    if d.len() == 0 {
        0
    } else {
        (crypt_value(d[0]) + 64 * digits_value(d.drop_first())) as nat
    }
}

/// 64 to the power `n`.
pub open spec fn pow64(n: nat) -> nat
    decreases n,
{
    if n == 0 {
        1
    } else {
        64 * pow64((n - 1) as nat)
    }
}

/// What `decode_val` returns for the digits `d`, of which at least `len` are
/// asked for.
pub open spec fn decode_val_spec(d: Seq<u8>, len: nat) -> Result<u32> {
    if !all_in_alphabet(d) || digits_value(d) > u32::MAX {
        Err(Error::EncodingError)
    } else if d.len() < len {
        Err(Error::InsufficientLength)
    } else {
        Ok(digits_value(d) as u32)
    }
}

/// The digits of a number have the length asked for and are characters of
/// the alphabet.
pub proof fn lemma_val_digits(val: nat, n: nat)
    ensures
        val_digits(val, n).len() == n,
        all_in_alphabet(val_digits(val, n)),
    decreases n,
{
    if n > 0 {
        lemma_val_digits(val / 64, (n - 1) as nat);
        lemma_alphabets((val % 64) as int, 0);
        let d = val_digits(val, n);
        let rest = val_digits(val / 64, (n - 1) as nat);
        assert forall|i: int| 0 <= i < d.len() implies in_alphabet(#[trigger] d[i]) by {
            if i > 0 {
                assert(d[i] == rest[i - 1]);
            }
        }
    }
}

/// Reading the `n` digits of a number gives the number back, up to what `n`
/// digits can hold.
pub proof fn lemma_digits_value_of_val_digits(val: nat, n: nat)
    ensures
        digits_value(val_digits(val, n)) == val % pow64(n),
    decreases n,
{
    if n == 0 {
        assert(val % 1 == 0);
    } else {
        let d = val_digits(val, n);
        let rest = val_digits(val / 64, (n - 1) as nat);
        lemma_digits_value_of_val_digits(val / 64, (n - 1) as nat);
        lemma_alphabets((val % 64) as int, 0);
        assert(d.drop_first() =~= rest);
        assert(d[0] == crypt_char((val % 64) as int));
        let p = pow64((n - 1) as nat);
        lemma_pow64_positive((n - 1) as nat);
        lemma_mod_split(val, p);
    }
}

/// Writing the number that digits of the alphabet spell, with as many
/// digits, gives the digits back: no two texts of one length spell the same
/// number.
pub proof fn lemma_val_digits_of_digits_value(d: Seq<u8>)
    requires
        all_in_alphabet(d),
    ensures
        val_digits(digits_value(d), d.len()) == d,
    decreases d.len(),
{
    if d.len() == 0 {
        assert(val_digits(digits_value(d), 0) =~= d);
    } else {
        let rest = d.drop_first();
        assert forall|i: int| 0 <= i < rest.len() implies in_alphabet(#[trigger] rest[i]) by {
            assert(rest[i] == d[i + 1]);
        }
        lemma_val_digits_of_digits_value(rest);
        assert(in_alphabet(d[0]));
        lemma_alphabets(0, d[0]);
        let v = digits_value(d);
        let c = crypt_value(d[0]);
        assert(v == c + 64 * digits_value(rest));
        assert(v % 64 == c && v / 64 == digits_value(rest));
        assert(val_digits(v, d.len()) =~= seq![d[0]] + rest);
        assert(seq![d[0]] + rest =~= d);
    }
}

/// The number that digits of the alphabet spell is less than 64 to the
/// power of their count.
pub proof fn lemma_digits_value_bound(d: Seq<u8>)
    requires
        all_in_alphabet(d),
    ensures
        digits_value(d) < pow64(d.len()),
    decreases d.len(),
{
    if d.len() > 0 {
        let rest = d.drop_first();
        assert forall|i: int| 0 <= i < rest.len() implies in_alphabet(#[trigger] rest[i]) by {
            assert(rest[i] == d[i + 1]);
        }
        lemma_digits_value_bound(rest);
        assert(in_alphabet(d[0]));
        lemma_alphabets(0, d[0]);
    }
}

/// The powers of 64 grow.
pub proof fn lemma_pow64_monotone(a: nat, b: nat)
    requires
        a <= b,
    ensures
        pow64(a) <= pow64(b),
    decreases b,
{
    if a < b {
        lemma_pow64_monotone(a, (b - 1) as nat);
    }
}

/// Every power of 64 is positive.
pub proof fn lemma_pow64_positive(n: nat)
    ensures
        pow64(n) > 0,
    decreases n,
{
    if n > 0 {
        lemma_pow64_positive((n - 1) as nat);
    }
}

proof fn lemma_mod_split(val: nat, p: nat)
    requires
        p > 0,
    ensures
        val % (64 * p) == val % 64 + 64 * ((val / 64) % p),
{
    let q = val / 64;
    let r = val % 64;
    let qq = q / p;
    let qr = q % p;
    assert(val == 64 * q + r);
    assert(q == p * qq + qr) by (nonlinear_arith)
        requires
            p > 0,
            qq == q / p,
            qr == q % p,
    ;
    assert(0 <= qr < p);
    let m = r + 64 * qr;
    assert(0 <= m < 64 * p) by (nonlinear_arith)
        requires
            0 <= r < 64,
            0 <= qr < p,
            m == r + 64 * qr,
    ;
    assert(val == (64 * p) * qq + m) by (nonlinear_arith)
        requires
            val == 64 * q + r,
            q == p * qq + qr,
            m == r + 64 * qr,
    ;
    vstd::arithmetic::div_mod::lemma_fundamental_div_mod_converse(
        val as int,
        (64 * p) as int,
        qq as int,
        m as int,
    );
}

/// Writes the `n` low digits of `val`, the least significant first.
pub fn encode_val(val: u32, n: usize) -> (out: Vec<u8>)
    ensures
        out@ == val_digits(val as nat, n as nat),
{
    let mut out: Vec<u8> = Vec::new();
    let mut v: u32 = val;
    let mut i: usize = 0;
    while i < n
        invariant
            i <= n,
            out@ + val_digits(v as nat, (n - i) as nat) == val_digits(val as nat, n as nat),
        decreases n - i,
    {
        let ghost before = out@;
        out.push(crypt_char_of((v % 64) as u8));
        proof {
            let rest = val_digits((v / 64) as nat, (n - i - 1) as nat);
            assert(val_digits(v as nat, (n - i) as nat) =~= seq![crypt_char((v % 64) as int)]
                + rest);
            assert(out@ + rest =~= before + val_digits(v as nat, (n - i) as nat));
        }
        v = v / 64;
        i += 1;
    }
    proof {
        assert(out@ + Seq::<u8>::empty() =~= out@);
    }
    out
}

/// Reads a number from its digits, the least significant first. Of the
/// digits at least `len` must be there. A byte outside the alphabet, or a
/// number too large for 32 bits, is an encoding error.
pub fn decode_val(val: &[u8], len: usize) -> (r: Result<u32>)
    ensures
        r == decode_val_spec(val@, len as nat),
{
    let n = val.len();
    let mut acc: u64 = 0;
    let mut i: usize = n;
    proof {
        assert(val@.subrange(n as int, n as int) =~= Seq::<u8>::empty());
    }
    while i > 0
        invariant
            i <= n,
            n == val@.len(),
            acc <= u32::MAX,
            acc == digits_value(val@.subrange(i as int, n as int)),
            forall|j: int| i <= j < n ==> in_alphabet(#[trigger] val@[j]),
        decreases i,
    {
        let ghost tail = val@.subrange(i as int, n as int);
        let ghost cur = val@.subrange(i - 1, n as int);
        proof {
            assert(cur.drop_first() =~= tail);
            assert(cur[0] == val@[i - 1]);
            lemma_digits_value_monotone(val@, i - 1);
        }
        match crypt_value_of(val[i - 1]) {
            None => {
                return Err(Error::EncodingError);
            },
            Some(d) => {
                let next: u64 = acc * 64 + d as u64;
                if next > u32::MAX as u64 {
                    return Err(Error::EncodingError);
                }
                acc = next;
            },
        }
        i -= 1;
    }
    proof {
        assert(val@.subrange(0, n as int) =~= val@);
    }
    if n < len {
        Err(Error::InsufficientLength)
    } else {
        Ok(acc as u32)
    }
}

/// The number spelled by all the digits is at least the number spelled by
/// the digits from `i` on.
pub proof fn lemma_digits_value_monotone(d: Seq<u8>, i: int)
    requires
        0 <= i <= d.len(),
    ensures
        digits_value(d) >= digits_value(d.subrange(i, d.len() as int)),
    decreases i,
{
    if i == 0 {
        assert(d.subrange(0, d.len() as int) =~= d);
    } else {
        assert(d.drop_first().subrange(i - 1, d.drop_first().len() as int) =~= d.subrange(
            i,
            d.len() as int,
        ));
        lemma_digits_value_monotone(d.drop_first(), i - 1);
        assert(digits_value(d) == (crypt_value(d[0]) + 64 * digits_value(d.drop_first())) as nat);
        if crypt_value(d[0]) + 64 * digits_value(d.drop_first()) < 0 {
            // a byte below the alphabet: the sum is cut off at zero
            assert(crypt_value(d[0]) >= -46);
        }
    }
}

// ---------------------------------------------------------------------------
// Decimal numbers
// ---------------------------------------------------------------------------
/// The decimal digits of `n`, without leading zeros.
pub open spec fn decimal(n: nat) -> Seq<u8>
    decreases n,
{
    if n < 10 {
        seq![(48 + n) as u8]
    } else {
        decimal(n / 10).push((48 + n % 10) as u8)
    }
}

/// True when every byte of `d` is a decimal digit.
pub open spec fn all_digits(d: Seq<u8>) -> bool {
    forall|i: int| 0 <= i < d.len() ==> 48 <= #[trigger] d[i] <= 57
}

/// The number that the decimal digits `d` spell.
pub open spec fn decimal_value(d: Seq<u8>) -> nat
    decreases d.len(),
{
    if d.len() == 0 {
        0
    } else {
        (10 * decimal_value(d.drop_last()) + (d.last() - 48)) as nat
    }
}

/// The number that `d` spells in decimal digits, where `d` is one or more
/// digits and the number fits 32 bits.
pub open spec fn parse_decimal_spec(d: Seq<u8>) -> Option<u32> {
    if d.len() > 0 && all_digits(d) && decimal_value(d) <= u32::MAX {
        Some(decimal_value(d) as u32)
    } else {
        None
    }
}

/// The decimal digits of a number are digits, at least one, the first no
/// zero unless it is the only one, and they spell the number.
pub proof fn lemma_decimal(n: nat)
    ensures
        decimal(n).len() >= 1,
        all_digits(decimal(n)),
        decimal_value(decimal(n)) == n,
        n <= u32::MAX ==> decimal(n).len() <= 10,
        is_ascii_bytes(decimal(n)),
    decreases n,
{
    reveal_with_fuel(decimal_value, 2);
    if n >= 10 {
        lemma_decimal(n / 10);
        let d = decimal(n);
        assert(d.drop_last() =~= decimal(n / 10));
        assert(d.last() == (48 + n % 10) as u8);
        assert forall|i: int| 0 <= i < d.len() implies 48 <= #[trigger] d[i] <= 57 by {
            if i < d.len() - 1 {
                assert(d[i] == decimal(n / 10)[i]);
            }
        }
        if n <= u32::MAX {
            lemma_decimal_len(n);
        }
    } else {
        assert(decimal(n).drop_last() =~= Seq::<u8>::empty());
    }
    assert forall|i: int| 0 <= i < decimal(n).len() implies #[trigger] decimal(n)[i] < 128 by {
        assert(48 <= decimal(n)[i] <= 57);
    }
}

proof fn lemma_decimal_len(n: nat)
    requires
        n <= u32::MAX,
    ensures
        decimal(n).len() <= 10,
{
    reveal_with_fuel(decimal, 11);
}

/// Reading the decimal digits of a number that fits 32 bits gives the
/// number back.
pub proof fn lemma_parse_decimal(n: u32)
    ensures
        parse_decimal_spec(decimal(n as nat)) == Some(n),
{
    lemma_decimal(n as nat);
}

/// Writes the decimal digits of `n` behind `out`.
pub fn write_decimal(out: &mut Vec<u8>, n: u32)
    ensures
        final(out)@ == old(out)@ + decimal(n as nat),
    decreases n,
{
    if n >= 10 {
        write_decimal(out, n / 10);
    }
    out.push(48 + (n % 10) as u8);
    proof {
        if n >= 10 {
            assert(out@ =~= old(out)@ + decimal((n / 10) as nat).push((48 + n % 10) as u8));
        } else {
            assert(out@ =~= old(out)@ + seq![(48 + n) as u8]);
        }
    }
}

/// Reads a number from its decimal digits.
pub fn parse_decimal(d: &[u8]) -> (r: Option<u32>)
    ensures
        r == parse_decimal_spec(d@),
{
    if d.len() == 0 {
        return None;
    }
    let mut acc: u64 = 0;
    let mut i: usize = 0;
    proof {
        assert(d@.subrange(0, 0) =~= Seq::<u8>::empty());
    }
    while i < d.len()
        invariant
            i <= d.len(),
            acc <= u32::MAX,
            acc == decimal_value(d@.subrange(0, i as int)),
            forall|j: int| 0 <= j < i ==> 48 <= #[trigger] d@[j] <= 57,
        decreases d.len() - i,
    {
        let c = d[i];
        proof {
            let next = d@.subrange(0, i + 1);
            assert(next.drop_last() =~= d@.subrange(0, i as int));
            assert(next.last() == c);
            lemma_decimal_value_monotone(d@, i + 1);
        }
        if c < 48 || c > 57 {
            return None;
        }
        let next: u64 = acc * 10 + (c - 48) as u64;
        if next > u32::MAX as u64 {
            return None;
        }
        acc = next;
        i += 1;
    }
    proof {
        assert(d@.subrange(0, d.len() as int) =~= d@);
    }
    Some(acc as u32)
}

/// The number that all the digits spell is at least the number that the
/// first `i` of them spell.
pub proof fn lemma_decimal_value_monotone(d: Seq<u8>, i: int)
    requires
        0 <= i <= d.len(),
    ensures
        all_digits(d) ==> decimal_value(d) >= decimal_value(d.subrange(0, i)),
    decreases d.len() - i,
{
    if i == d.len() {
        assert(d.subrange(0, i) =~= d);
    } else if all_digits(d) {
        let rest = d.drop_last();
        assert forall|j: int| 0 <= j < rest.len() implies 48 <= #[trigger] rest[j] <= 57 by {
            assert(rest[j] == d[j]);
        }
        assert(rest.subrange(0, i) =~= d.subrange(0, i));
        lemma_decimal_value_monotone(rest, i);
        assert(48 <= d.last() <= 57);
    }
}

// ---------------------------------------------------------------------------
// Byte strings
// ---------------------------------------------------------------------------
/// The digits that spell the bytes `b`, six bits at a time from the most
/// significant bit of the first byte; the last digit is filled up with zero
/// bits.
pub open spec fn hash64_digits(b: Seq<u8>) -> Seq<int>
    decreases b.len(),
{
    if b.len() == 0 {
        Seq::empty()
    } else if b.len() == 1 {
        seq![b[0] as int / 4, (b[0] as int % 4) * 16]
    } else if b.len() == 2 {
        seq![b[0] as int / 4, (b[0] as int % 4) * 16 + b[1] as int / 16, (b[1] as int % 16) * 4]
    } else {
        seq![
            b[0] as int / 4,
            (b[0] as int % 4) * 16 + b[1] as int / 16,
            (b[1] as int % 16) * 4 + b[2] as int / 64,
            b[2] as int % 64,
        ] + hash64_digits(b.subrange(3, b.len() as int))
    }
}

/// The text that spells the bytes `b` in the bcrypt alphabet.
pub open spec fn hash64(b: Seq<u8>) -> Seq<u8> {
    hash64_digits(b).map_values(|v: int| bcrypt_char(v))
}

/// How many characters spell `n` bytes.
pub open spec fn hash64_len(n: nat) -> nat {
    (n / 3 * 4 + (if n % 3 == 0 {
        0nat
    } else {
        (n % 3 + 1) as nat
    })) as nat
}

/// The digits that spell a byte string are digits, as many as the length of
/// the string asks for.
pub proof fn lemma_hash64_digits(b: Seq<u8>)
    ensures
        hash64_digits(b).len() == hash64_len(b.len()),
        forall|i: int| 0 <= i < hash64_digits(b).len() ==> 0 <= #[trigger] hash64_digits(b)[i] < 64,
    decreases b.len(),
{
    if b.len() >= 3 {
        lemma_hash64_digits(b.subrange(3, b.len() as int));
    }
}

/// The text that spells a byte string is over the alphabet and has the
/// length that the length of the string asks for.
pub proof fn lemma_hash64(b: Seq<u8>)
    ensures
        hash64(b).len() == hash64_len(b.len()),
        all_in_alphabet(hash64(b)),
{
    lemma_hash64_digits(b);
    assert forall|i: int| 0 <= i < hash64(b).len() implies in_alphabet(#[trigger] hash64(b)[i]) by {
        lemma_alphabets(hash64_digits(b)[i], 0);
    }
}

/// Spells the bytes `b` in the bcrypt alphabet.
pub fn hash64_encode(b: &[u8]) -> (out: Vec<u8>)
    ensures
        out@ == hash64(b@),
{
    let n = b.len();
    let mut out: Vec<u8> = Vec::new();
    let mut i: usize = 0;
    proof {
        assert(b@.subrange(0, n as int) =~= b@);
    }
    while n - i >= 3
        invariant
            i <= n,
            n == b@.len(),
            out@ + hash64(b@.subrange(i as int, n as int)) == hash64(b@),
        decreases n - i,
    {
        let ghost rest = b@.subrange(i as int, n as int);
        let ghost before = out@;
        let b0 = b[i];
        let b1 = b[i + 1];
        let b2 = b[i + 2];
        out.push(bcrypt_char_of(b0 / 4));
        out.push(bcrypt_char_of((b0 % 4) * 16 + b1 / 16));
        out.push(bcrypt_char_of((b1 % 16) * 4 + b2 / 64));
        out.push(bcrypt_char_of(b2 % 64));
        proof {
            assert(rest.subrange(3, rest.len() as int) =~= b@.subrange(i + 3, n as int));
            assert(out@ + hash64(b@.subrange(i + 3, n as int)) =~= before + hash64(rest));
        }
        i += 3;
    }
    let ghost rest = b@.subrange(i as int, n as int);
    let ghost before = out@;
    if n - i == 1 {
        let b0 = b[i];
        out.push(bcrypt_char_of(b0 / 4));
        out.push(bcrypt_char_of((b0 % 4) * 16));
    } else if n - i == 2 {
        let b0 = b[i];
        let b1 = b[i + 1];
        out.push(bcrypt_char_of(b0 / 4));
        out.push(bcrypt_char_of((b0 % 4) * 16 + b1 / 16));
        out.push(bcrypt_char_of((b1 % 16) * 4));
    }
    proof {
        assert(out@ =~= before + hash64(rest));
    }
    out
}

/// The bytes that the digits `v` spell, six bits a digit from the most
/// significant bit of the first byte; bits that do not fill a byte are let
/// go.
pub open spec fn hash64_bytes(v: Seq<int>) -> Seq<u8>
    decreases v.len(),
{
    if v.len() < 2 {
        Seq::empty()
    } else if v.len() == 2 {
        seq![((v[0] * 4 + v[1] / 16) % 256) as u8]
    } else if v.len() == 3 {
        seq![((v[0] * 4 + v[1] / 16) % 256) as u8, (((v[1] % 16) * 16 + v[2] / 4) % 256) as u8]
    } else {
        seq![
            ((v[0] * 4 + v[1] / 16) % 256) as u8,
            (((v[1] % 16) * 16 + v[2] / 4) % 256) as u8,
            (((v[2] % 4) * 64 + v[3]) % 256) as u8,
        ] + hash64_bytes(v.subrange(4, v.len() as int))
    }
}

/// The digits of a text in the bcrypt alphabet.
pub open spec fn bcrypt_digits(s: Seq<u8>) -> Seq<int> {
    s.map_values(|c: u8| bcrypt_value(c))
}

/// What `hash64_decode` returns: the bytes that a text in the bcrypt
/// alphabet spells, or an encoding error where the text holds a byte
/// outside the alphabet.
pub open spec fn hash64_decode_spec(s: Seq<u8>) -> Result<Seq<u8>> {
    if all_in_alphabet(s) {
        Ok(hash64_bytes(bcrypt_digits(s)))
    } else {
        Err(Error::EncodingError)
    }
}

/// How many bytes a run of digits spells.
pub proof fn lemma_hash64_bytes_len(v: Seq<int>)
    ensures
        hash64_bytes(v).len() == v.len() / 4 * 3 + (if v.len() % 4 >= 2 {
            v.len() % 4 - 1
        } else {
            0
        }),
    decreases v.len(),
{
    if v.len() >= 4 {
        lemma_hash64_bytes_len(v.subrange(4, v.len() as int));
    }
}

/// Reading the digits that spell a byte string gives the string back.
pub proof fn lemma_hash64_bytes_of_digits(b: Seq<u8>)
    ensures
        hash64_bytes(hash64_digits(b)) == b,
    decreases b.len(),
{
    let v = hash64_digits(b);
    if b.len() == 0 {
        assert(hash64_bytes(v) =~= b);
    } else if b.len() == 1 {
        assert(hash64_bytes(v) =~= b);
    } else if b.len() == 2 {
        assert(hash64_bytes(v) =~= b);
    } else {
        let rest = b.subrange(3, b.len() as int);
        let vr = hash64_digits(rest);
        lemma_hash64_bytes_of_digits(rest);
        lemma_hash64_digits(rest);
        assert(v.len() == 4 + vr.len());
        assert(v.subrange(4, v.len() as int) =~= vr);
        assert(hash64_bytes(v) =~= seq![b[0], b[1], b[2]] + rest);
        assert(seq![b[0], b[1], b[2]] + rest =~= b);
    }
}

/// The digits of the text that spells a byte string are the digits that
/// spell the string.
pub proof fn lemma_digits_of_hash64(b: Seq<u8>)
    ensures
        bcrypt_digits(hash64(b)) == hash64_digits(b),
{
    lemma_hash64_digits(b);
    let v = hash64_digits(b);
    assert forall|i: int| 0 <= i < v.len() implies bcrypt_digits(hash64(b))[i] == v[i] by {
        lemma_alphabets(v[i], 0);
    }
    assert(bcrypt_digits(hash64(b)) =~= v);
}

/// Reading the text that spells a byte string gives the string back: no two
/// byte strings are spelled alike.
pub proof fn lemma_hash64_round_trip(b: Seq<u8>)
    ensures
        hash64_decode_spec(hash64(b)) == Ok::<Seq<u8>, Error>(b),
{
    lemma_hash64(b);
    lemma_hash64_bytes_of_digits(b);
    lemma_digits_of_hash64(b);
}

/// The digits of a text in the bcrypt alphabet, where the text is over the
/// alphabet.
pub fn bcrypt_digits_of(s: &[u8]) -> (r: Option<Vec<u8>>)
    ensures
        r is Some <==> all_in_alphabet(s@),
        r is Some ==> widened(r.unwrap()@) == bcrypt_digits(s@),
        r is Some ==> forall|j: int| 0 <= j < r.unwrap()@.len() ==> (#[trigger] r.unwrap()@[j]) < 64,
{
    let n = s.len();
    let mut v: Vec<u8> = Vec::new();
    let mut i: usize = 0;
    while i < n
        invariant
            i <= n,
            n == s@.len(),
            v@.len() == i,
            forall|j: int| 0 <= j < i ==> in_alphabet(#[trigger] s@[j]),
            forall|j: int| 0 <= j < i ==> (#[trigger] v@[j]) == bcrypt_value(s@[j]) && v@[j] < 64,
        decreases n - i,
    {
        match bcrypt_value_of(s[i]) {
            Some(d) => {
                v.push(d);
            },
            None => {
                return None;
            },
        }
        i += 1;
    }
    assert(widened(v@) =~= bcrypt_digits(s@));
    Some(v)
}

/// The digits as numbers without bound.
pub open spec fn widened(v: Seq<u8>) -> Seq<int> {
    v.map_values(|d: u8| d as int)
}

/// Four digits spell three bytes, and the digits behind them the rest.
proof fn lemma_hash64_bytes_step(v: Seq<int>)
    requires
        v.len() >= 4,
        0 <= v[0] < 64,
        0 <= v[1] < 64,
        0 <= v[2] < 64,
        0 <= v[3] < 64,
    ensures
        hash64_bytes(v) == seq![
            (v[0] * 4 + v[1] / 16) as u8,
            ((v[1] % 16) * 16 + v[2] / 4) as u8,
            ((v[2] % 4) * 64 + v[3]) as u8,
        ] + hash64_bytes(v.subrange(4, v.len() as int)),
{
}

/// Two or three digits at the end spell one or two bytes.
proof fn lemma_hash64_bytes_end(v: Seq<int>)
    requires
        v.len() < 4,
        forall|j: int| 0 <= j < v.len() ==> 0 <= #[trigger] v[j] < 64,
    ensures
        v.len() < 2 ==> hash64_bytes(v) == Seq::<u8>::empty(),
        v.len() == 2 ==> hash64_bytes(v) == seq![(v[0] * 4 + v[1] / 16) as u8],
        v.len() == 3 ==> hash64_bytes(v) == seq![
            (v[0] * 4 + v[1] / 16) as u8,
            ((v[1] % 16) * 16 + v[2] / 4) as u8,
        ],
{
    if v.len() == 2 {
        assert(0 <= v[0] < 64 && 0 <= v[1] < 64);
    } else if v.len() == 3 {
        assert(0 <= v[0] < 64 && 0 <= v[1] < 64 && 0 <= v[2] < 64);
    }
}

/// Joins digits to the bytes that they spell.
pub fn hash64_join(v: &[u8]) -> (out: Vec<u8>)
    requires
        forall|j: int| 0 <= j < v@.len() ==> (#[trigger] v@[j]) < 64,
    ensures
        out@ == hash64_bytes(widened(v@)),
{
    let n = v.len();
    let ghost digits = widened(v@);
    let mut out: Vec<u8> = Vec::new();
    let mut g: usize = 0;
    proof {
        assert(digits.subrange(0, n as int) =~= digits);
    }
    while n - g >= 4
        invariant
            g <= n,
            v@.len() == n,
            digits == widened(v@),
            forall|j: int| 0 <= j < n ==> (#[trigger] v@[j]) < 64,
            out@ + hash64_bytes(digits.subrange(g as int, n as int)) == hash64_bytes(digits),
        decreases n - g,
    {
        let v0 = v[g];
        let v1 = v[g + 1];
        let v2 = v[g + 2];
        let v3 = v[g + 3];
        let ghost before = out@;
        let ghost rest = digits.subrange(g as int, n as int);
        proof {
            assert(rest[0] == v0 as int && rest[1] == v1 as int && rest[2] == v2 as int && rest[3]
                == v3 as int);
            lemma_hash64_bytes_step(rest);
            assert(rest.subrange(4, rest.len() as int) =~= digits.subrange(g + 4, n as int));
        }
        out.push(v0 * 4 + v1 / 16);
        out.push(v1 % 16 * 16 + v2 / 4);
        out.push(v2 % 4 * 64 + v3);
        proof {
            let three = seq![
                (rest[0] * 4 + rest[1] / 16) as u8,
                ((rest[1] % 16) * 16 + rest[2] / 4) as u8,
                ((rest[2] % 4) * 64 + rest[3]) as u8,
            ];
            assert(out@ =~= before + three);
            assert(out@ + hash64_bytes(digits.subrange(g + 4, n as int)) =~= before + (three
                + hash64_bytes(digits.subrange(g + 4, n as int))));
        }
        g += 4;
    }
    let ghost before = out@;
    let ghost rest = digits.subrange(g as int, n as int);
    proof {
        assert forall|j: int| 0 <= j < rest.len() implies 0 <= #[trigger] rest[j] < 64 by {
            assert(rest[j] == v@[g + j] as int);
        }
        lemma_hash64_bytes_end(rest);
    }
    if n - g == 2 {
        let v0 = v[g];
        let v1 = v[g + 1];
        proof {
            assert(rest[0] == v0 as int && rest[1] == v1 as int);
        }
        out.push(v0 * 4 + v1 / 16);
    } else if n - g == 3 {
        let v0 = v[g];
        let v1 = v[g + 1];
        let v2 = v[g + 2];
        proof {
            assert(rest[0] == v0 as int && rest[1] == v1 as int && rest[2] == v2 as int);
        }
        out.push(v0 * 4 + v1 / 16);
        out.push(v1 % 16 * 16 + v2 / 4);
    }
    proof {
        assert(out@ =~= before + hash64_bytes(rest));
    }
    out
}

/// Reads the bytes that a text in the bcrypt alphabet spells.
pub fn hash64_decode(s: &[u8]) -> (r: Result<Vec<u8>>)
    ensures
        match hash64_decode_spec(s@) {
            Ok(b) => r is Ok && r.unwrap()@ == b,
            Err(e) => r == Err::<Vec<u8>, Error>(e),
        },
{
    match bcrypt_digits_of(s) {
        Some(v) => Ok(hash64_join(v.as_slice())),
        None => Err(Error::EncodingError),
    }
}

} // verus!
