//! The DES-based transform of traditional `crypt` and of its extended form.
//!
//! Bits are numbered as in the standard: bit 1 is the most significant one.
//! A block, a key and the halves of a block are held in the low bits of a
//! `u64`.
use vstd::prelude::*;
use crate::encode::{
    crypt_char, crypt_char_of, decode_val, decode_val_spec, encode_val, in_alphabet, val_digits,
    all_in_alphabet, lemma_val_digits,
};
use crate::error::{Error, Result};
use crate::text::{append_bytes, is_ascii_bytes, prefix, prefix_of};
use crate::traits::{before_nul, FindNul};

verus! {

/// The initial permutation of a block.
pub const IP: [u8; 64] = [
    58, 50, 42, 34, 26, 18, 10, 2, 60, 52, 44, 36, 28, 20, 12, 4, 62, 54, 46, 38, 30, 22, 14, 6, 64,
    56, 48, 40, 32, 24, 16, 8, 57, 49, 41, 33, 25, 17, 9, 1, 59, 51, 43, 35, 27, 19, 11, 3, 61, 53,
    45, 37, 29, 21, 13, 5, 63, 55, 47, 39, 31, 23, 15, 7,
];

/// The final permutation of a block, the inverse of the initial one.
pub const FP: [u8; 64] = [
    40, 8, 48, 16, 56, 24, 64, 32, 39, 7, 47, 15, 55, 23, 63, 31, 38, 6, 46, 14, 54, 22, 62, 30, 37,
    5, 45, 13, 53, 21, 61, 29, 36, 4, 44, 12, 52, 20, 60, 28, 35, 3, 43, 11, 51, 19, 59, 27, 34, 2,
    42, 10, 50, 18, 58, 26, 33, 1, 41, 9, 49, 17, 57, 25,
];

/// The choice of 56 key bits out of 64.
pub const PC1: [u8; 56] = [
    57, 49, 41, 33, 25, 17, 9, 1, 58, 50, 42, 34, 26, 18, 10, 2, 59, 51, 43, 35, 27, 19, 11, 3, 60,
    52, 44, 36, 63, 55, 47, 39, 31, 23, 15, 7, 62, 54, 46, 38, 30, 22, 14, 6, 61, 53, 45, 37, 29,
    21, 13, 5, 28, 20, 12, 4,
];

/// The choice of the 48 bits of a round key out of 56.
pub const PC2: [u8; 48] = [
    14, 17, 11, 24, 1, 5, 3, 28, 15, 6, 21, 10, 23, 19, 12, 4, 26, 8, 16, 7, 27, 20, 13, 2, 41, 52,
    31, 37, 47, 55, 30, 40, 51, 45, 33, 48, 44, 49, 39, 56, 34, 53, 46, 42, 50, 36, 29, 32,
];

/// The permutation at the end of the round function.
pub const PBOX: [u8; 32] = [
    16, 7, 20, 21, 29, 12, 28, 17, 1, 15, 23, 26, 5, 18, 31, 10, 2, 8, 24, 14, 32, 27, 3, 9, 19, 13,
    30, 6, 22, 11, 4, 25,
];

/// By how many bits the halves of the key turn before each round.
pub const SHIFTS: [u8; 16] = [1, 1, 2, 2, 2, 2, 2, 2, 1, 2, 2, 2, 2, 2, 2, 1];

/// The eight substitution boxes, each of four rows of sixteen entries.
pub const SBOX: [u8; 512] = [
    14, 4, 13, 1, 2, 15, 11, 8, 3, 10, 6, 12, 5, 9, 0, 7, 0, 15, 7, 4, 14, 2, 13, 1, 10, 6, 12, 11,
    9, 5, 3, 8, 4, 1, 14, 8, 13, 6, 2, 11, 15, 12, 9, 7, 3, 10, 5, 0, 15, 12, 8, 2, 4, 9, 1, 7, 5,
    11, 3, 14, 10, 0, 6, 13, 15, 1, 8, 14, 6, 11, 3, 4, 9, 7, 2, 13, 12, 0, 5, 10, 3, 13, 4, 7, 15,
    2, 8, 14, 12, 0, 1, 10, 6, 9, 11, 5, 0, 14, 7, 11, 10, 4, 13, 1, 5, 8, 12, 6, 9, 3, 2, 15, 13,
    8, 10, 1, 3, 15, 4, 2, 11, 6, 7, 12, 0, 5, 14, 9, 10, 0, 9, 14, 6, 3, 15, 5, 1, 13, 12, 7, 11,
    4, 2, 8, 13, 7, 0, 9, 3, 4, 6, 10, 2, 8, 5, 14, 12, 11, 15, 1, 13, 6, 4, 9, 8, 15, 3, 0, 11, 1,
    2, 12, 5, 10, 14, 7, 1, 10, 13, 0, 6, 9, 8, 7, 4, 15, 14, 3, 11, 5, 2, 12, 7, 13, 14, 3, 0, 6,
    9, 10, 1, 2, 8, 5, 11, 12, 4, 15, 13, 8, 11, 5, 6, 15, 0, 3, 4, 7, 2, 12, 1, 10, 14, 9, 10, 6,
    9, 0, 12, 11, 7, 13, 15, 1, 3, 14, 5, 2, 8, 4, 3, 15, 0, 6, 10, 1, 13, 8, 9, 4, 5, 11, 12, 7,
    2, 14, 2, 12, 4, 1, 7, 10, 11, 6, 8, 5, 3, 15, 13, 0, 14, 9, 14, 11, 2, 12, 4, 7, 13, 1, 5, 0,
    15, 10, 3, 9, 8, 6, 4, 2, 1, 11, 10, 13, 7, 8, 15, 9, 12, 5, 6, 3, 0, 14, 11, 8, 12, 7, 1, 14,
    2, 13, 6, 15, 0, 9, 10, 4, 5, 3, 12, 1, 10, 15, 9, 2, 6, 8, 0, 13, 3, 4, 14, 7, 5, 11, 10, 15,
    4, 2, 7, 12, 9, 5, 6, 1, 13, 14, 0, 11, 3, 8, 9, 14, 15, 5, 2, 8, 12, 3, 7, 0, 4, 10, 1, 13, 11,
    6, 4, 3, 2, 12, 9, 5, 15, 10, 11, 14, 1, 7, 6, 0, 8, 13, 4, 11, 2, 14, 15, 0, 8, 13, 3, 12, 9,
    7, 5, 10, 6, 1, 13, 0, 11, 7, 4, 9, 1, 10, 14, 3, 5, 12, 2, 15, 8, 6, 1, 4, 11, 13, 12, 3, 7,
    14, 10, 15, 6, 8, 0, 5, 9, 2, 6, 11, 13, 8, 1, 4, 10, 7, 9, 5, 0, 15, 14, 2, 3, 12, 13, 2, 8,
    4, 6, 15, 11, 1, 10, 9, 3, 14, 5, 0, 12, 7, 1, 15, 13, 8, 10, 3, 7, 4, 12, 5, 6, 11, 0, 14, 9,
    2, 7, 11, 4, 1, 9, 12, 14, 2, 0, 6, 10, 13, 15, 3, 5, 8, 2, 1, 14, 7, 4, 10, 8, 13, 15, 12, 9,
    0, 3, 5, 6, 11,
];

/// How often traditional `crypt` applies the cipher.
pub const UNIX_ROUNDS: u32 = 25;

// ---------------------------------------------------------------------------
// Permutations
// ---------------------------------------------------------------------------
/// True when every entry of a table names a bit of a `width`-bit value.
pub open spec fn entries_within(t: Seq<u8>, width: int) -> bool {
    forall|i: int| 0 <= i < t.len() ==> 1 <= #[trigger] t[i] <= width
}

/// Bit `t` of the `width`-bit value `x`.
pub open spec fn bit_of(x: u64, width: u64, t: u8) -> u64 {
    (x >> ((width - t) as u64)) & 1
}

/// The value whose bits are, in order, the bits of `x` that `table` names.
pub open spec fn permute(x: u64, width: u64, table: Seq<u8>) -> u64
    decreases table.len(),
{
    if table.len() == 0 {
        0
    } else {
        (permute(x, width, table.drop_last()) << 1) | bit_of(x, width, table.last())
    }
}

/// Picks the bits of `x` that `table` names.
pub fn permute_bits<const N: usize>(x: u64, width: u64, table: &[u8; N]) -> (r: u64)
    requires
        width <= 64,
        entries_within(table@, width as int),
    ensures
        r == permute(x, width, table@),
{
    let mut out: u64 = 0;
    let mut i: usize = 0;
    proof {
        assert(table@.subrange(0, 0) =~= Seq::<u8>::empty());
    }
    while i < N
        invariant
            i <= N,
            N == table@.len(),
            width <= 64,
            entries_within(table@, width as int),
            out == permute(x, width, table@.subrange(0, i as int)),
        decreases N - i,
    {
        let t = table[i];
        proof {
            let next = table@.subrange(0, i + 1);
            assert(next.drop_last() =~= table@.subrange(0, i as int));
            assert(next.last() == t);
        }
        out = (out << 1) | ((x >> (width - t as u64)) & 1);
        i += 1;
    }
    proof {
        assert(table@.subrange(0, N as int) =~= table@);
    }
    out
}

// ---------------------------------------------------------------------------
// The key schedule
// ---------------------------------------------------------------------------
/// A 28-bit half of the key turned left by `s` bits.
pub open spec fn rotl28(x: u64, s: u64) -> u64 {
    ((x << s) | (x >> ((28 - s) as u64))) & 0xfffffff
}

/// The two halves of the key after the turns of the first `i` rounds.
pub open spec fn key_halves(key: u64, i: nat) -> (u64, u64)
    decreases i,
{
    if i == 0 {
        let cd = permute(key, 64, PC1@);
        ((cd >> 28) & 0xfffffff, cd & 0xfffffff)
    } else {
        let (c, d) = key_halves(key, (i - 1) as nat);
        let s = SHIFTS[i - 1] as u64;
        (rotl28(c, s), rotl28(d, s))
    }
}

/// The key of round `i`, counted from 0.
pub open spec fn round_key(key: u64, i: nat) -> u64 {
    let (c, d) = key_halves(key, i + 1);
    permute((c << 28) | d, 56, PC2@)
}

/// The keys of the sixteen rounds.
#[verifier::opaque]
pub open spec fn key_schedule(key: u64) -> Seq<u64> {
    Seq::new(16, |i: int| round_key(key, i as nat))
}

/// Computes the keys of the sixteen rounds.
pub fn key_schedule_of(key: u64) -> (ks: Vec<u64>)
    ensures
        ks@ == key_schedule(key),
        ks@.len() == 16,
{
    let cd = permute_bits(key, 64, &PC1);
    let mut c: u64 = (cd >> 28) & 0xfffffff;
    let mut d: u64 = cd & 0xfffffff;
    let mut ks: Vec<u64> = Vec::new();
    let mut i: usize = 0;
    while i < 16
        invariant
            i <= 16,
            ks@.len() == i,
            (c, d) == key_halves(key, i as nat),
            forall|k: int| 0 <= k < i ==> ks@[k] == round_key(key, k as nat),
        decreases 16 - i,
    {
        assert(entries_within(SHIFTS@, 2));
        let s = SHIFTS[i] as u64;
        c = ((c << s) | (c >> (28 - s))) & 0xfffffff;
        d = ((d << s) | (d >> (28 - s))) & 0xfffffff;
        ks.push(permute_bits((c << 28) | d, 56, &PC2));
        i += 1;
    }
    proof {
        reveal(key_schedule);
        assert(ks@ =~= key_schedule(key));
    }
    ks
}

// ---------------------------------------------------------------------------
// The salt
// ---------------------------------------------------------------------------
/// The mask of the salt bits below bit `k`: bit `j` of the salt, counted
/// from the least significant one, stands at bit `j + 1` of the 24-bit mask.
pub open spec fn salt_mask_upto(salt: u32, k: nat) -> u64
    decreases k,
{
    if k == 0 {
        0
    } else {
        let m = salt_mask_upto(salt, (k - 1) as nat);
        if (salt >> ((k - 1) as u32)) & 1 == 1 {
            m | (0x800000u64 >> ((k - 1) as u64))
        } else {
            m
        }
    }
}

/// The mask of the 24 salt bits: where it has a bit set, the round function
/// exchanges that bit of the first half of the expanded block with the same
/// bit of the second half.
pub open spec fn salt_mask(salt: u32) -> u64 {
    salt_mask_upto(salt, 24)
}

/// Computes the mask of the salt.
pub fn salt_mask_of(salt: u32) -> (m: u64)
    ensures
        m == salt_mask(salt),
{
    let mut m: u64 = 0;
    let mut k: u32 = 0;
    while k < 24
        invariant
            k <= 24,
            m == salt_mask_upto(salt, k as nat),
        decreases 24 - k,
    {
        if (salt >> k) & 1 == 1 {
            m = m | (0x800000u64 >> (k as u64));
        }
        k += 1;
    }
    m
}

// ---------------------------------------------------------------------------
// The round function
// ---------------------------------------------------------------------------
/// The 48 bits to which the 32-bit half `r` is expanded: eight groups of six
/// bits, each group the four bits of its place and one neighbour on each side.
pub open spec fn expand(r: u64) -> u64 {
    let w = ((r & 1) << 33) | ((r & 0xffffffff) << 1) | ((r >> 31) & 1);
    (((w >> 28) & 0x3f) << 42) | (((w >> 24) & 0x3f) << 36) | (((w >> 20) & 0x3f) << 30) | (((w
        >> 16) & 0x3f) << 24) | (((w >> 12) & 0x3f) << 18) | (((w >> 8) & 0x3f) << 12) | (((w >> 4)
        & 0x3f) << 6) | (w & 0x3f)
}

/// The expanded block with its halves exchanged where the mask has a bit set.
pub open spec fn salted(e: u64, mask: u64) -> u64 {
    let f = ((e >> 24) ^ e) & mask & 0xffffff;
    e ^ (f << 24) ^ f
}

/// Where the entry of box `j` for the six bits `v` stands in `SBOX`: the
/// outer two bits of `v` choose the row, the inner four the column.
pub open spec fn sbox_index(j: int, v: u64) -> int {
    j * 64 + (((v >> 4) & 2) | (v & 1)) * 16 + ((v >> 1) & 15)
}

/// The contribution of box `j` to the result of the round function for the
/// six bits `v`: the box's four bits at their place, permuted.
pub open spec fn sp_entry(j: int, v: u64) -> u64 {
    permute((SBOX[sbox_index(j, v)] as u64) << ((28 - 4 * j) as u64), 32, PBOX@)
}

/// The round function of the cipher on the half block `r` with the round key
/// `k`, the expansion salted by `mask`.
pub open spec fn feistel(r: u64, k: u64, mask: u64) -> u64 {
    let x = salted(expand(r), mask) ^ k;
    sp_entry(0, (x >> 42) & 0x3f) ^ sp_entry(1, (x >> 36) & 0x3f) ^ sp_entry(2, (x >> 30) & 0x3f)
        ^ sp_entry(3, (x >> 24) & 0x3f) ^ sp_entry(4, (x >> 18) & 0x3f) ^ sp_entry(
        5,
        (x >> 12) & 0x3f,
    ) ^ sp_entry(6, (x >> 6) & 0x3f) ^ sp_entry(7, x & 0x3f)
}

/// True when `sp` holds the contributions of all boxes for all inputs.
pub open spec fn is_sp_table(sp: Seq<u64>) -> bool {
    &&& sp.len() == 512
    &&& forall|t: int| 0 <= t < 512 ==> #[trigger] sp[t] == sp_entry(t / 64, (t % 64) as u64)
}

proof fn lemma_sbox_index(j: int, v: u64)
    requires
        0 <= j < 8,
    ensures
        0 <= sbox_index(j, v) < 512,
{
    assert((((v >> 4) & 2) | (v & 1)) <= 3 && ((v >> 1) & 15) <= 15) by (bit_vector);
}

/// Computes the contributions of all boxes for all inputs.
pub fn sp_table() -> (sp: Vec<u64>)
    ensures
        is_sp_table(sp@),
{
    let mut sp: Vec<u64> = Vec::new();
    let mut t: usize = 0;
    while t < 512
        invariant
            t <= 512,
            sp@.len() == t,
            forall|k: int| 0 <= k < t ==> #[trigger] sp@[k] == sp_entry(k / 64, (k % 64) as u64),
        decreases 512 - t,
    {
        let j = t / 64;
        let v = (t % 64) as u64;
        proof {
            lemma_sbox_index(j as int, v);
        }
        let idx = j * 64 + ((((v >> 4) & 2) | (v & 1)) as usize) * 16 + (((v >> 1) & 15) as usize);
        let s = SBOX[idx] as u64;
        assert(entries_within(PBOX@, 32));
        sp.push(permute_bits(s << ((28 - 4 * j) as u64), 32, &PBOX));
        t += 1;
    }
    sp
}

/// The six bits of `x` above bit `k`, as an index.
fn six_bits(x: u64, k: u64) -> (r: usize)
    requires
        k < 64,
    ensures
        r == (x >> k) & 0x3f,
        r < 64,
{
    assert((x >> k) & 0x3f < 64) by (bit_vector);
    ((x >> k) & 0x3f) as usize
}

/// Computes the round function.
pub fn feistel_of(r: u64, k: u64, mask: u64, sp: &Vec<u64>) -> (out: u64)
    requires
        is_sp_table(sp@),
    ensures
        out == feistel(r, k, mask),
{
    let w = ((r & 1) << 33) | ((r & 0xffffffff) << 1) | ((r >> 31) & 1);
    let e = (((w >> 28) & 0x3f) << 42) | (((w >> 24) & 0x3f) << 36) | (((w >> 20) & 0x3f) << 30)
        | (((w >> 16) & 0x3f) << 24) | (((w >> 12) & 0x3f) << 18) | (((w >> 8) & 0x3f) << 12) | (((w
        >> 4) & 0x3f) << 6) | (w & 0x3f);
    let f = ((e >> 24) ^ e) & mask & 0xffffff;
    let x = (e ^ (f << 24) ^ f) ^ k;
    let v0 = six_bits(x, 42);
    let v1 = six_bits(x, 36);
    let v2 = six_bits(x, 30);
    let v3 = six_bits(x, 24);
    let v4 = six_bits(x, 18);
    let v5 = six_bits(x, 12);
    let v6 = six_bits(x, 6);
    let v7 = six_bits(x, 0);
    assert(x >> 0 == x) by (bit_vector);
    sp[v0] ^ sp[64 + v1] ^ sp[128 + v2] ^ sp[192 + v3] ^ sp[256 + v4] ^ sp[320 + v5] ^ sp[384 + v6]
        ^ sp[448 + v7]
}

// ---------------------------------------------------------------------------
// The cipher
// ---------------------------------------------------------------------------
/// The halves of the block after `i` rounds.
pub open spec fn des_rounds(l: u64, r: u64, ks: Seq<u64>, mask: u64, i: nat) -> (u64, u64)
    decreases i,
{
    if i == 0 {
        (l, r)
    } else {
        let (pl, pr) = des_rounds(l, r, ks, mask, (i - 1) as nat);
        (pr, pl ^ feistel(pr, ks[i - 1], mask))
    }
}

/// The halves of the block after `count` applications of the sixteen
/// rounds, each followed by the exchange of the halves.
pub open spec fn des_iterate(l: u64, r: u64, ks: Seq<u64>, mask: u64, count: nat) -> (u64, u64)
    decreases count,
{
    if count == 0 {
        (l, r)
    } else {
        let (pl, pr) = des_iterate(l, r, ks, mask, (count - 1) as nat);
        let (a, b) = des_rounds(pl, pr, ks, mask, 16);
        (b, a)
    }
}

/// The cipher applied `count` times to `block` between one initial and one
/// final permutation.
#[verifier::opaque]
pub open spec fn des_cipher(block: u64, ks: Seq<u64>, mask: u64, count: nat) -> u64 {
    let b = permute(block, 64, IP@);
    let (l, r) = des_iterate((b >> 32) & 0xffffffff, b & 0xffffffff, ks, mask, count);
    permute(((l & 0xffffffff) << 32) | (r & 0xffffffff), 64, FP@)
}

/// Applies the cipher `count` times to `block`.
pub fn des_cipher_of(block: u64, ks: &Vec<u64>, mask: u64, count: u32, sp: &Vec<u64>) -> (out: u64)
    requires
        ks@.len() == 16,
        is_sp_table(sp@),
    ensures
        out == des_cipher(block, ks@, mask, count as nat),
{
    proof {
        reveal(des_cipher);
    }
    assert(entries_within(IP@, 64));
    assert(entries_within(FP@, 64));
    let b = permute_bits(block, 64, &IP);
    let l0: u64 = (b >> 32) & 0xffffffff;
    let r0: u64 = b & 0xffffffff;
    let mut l: u64 = l0;
    let mut r: u64 = r0;
    let mut n: u32 = 0;
    while n < count
        invariant
            n <= count,
            ks@.len() == 16,
            is_sp_table(sp@),
            (l, r) == des_iterate(l0, r0, ks@, mask, n as nat),
        decreases count - n,
    {
        let ghost sl = l;
        let ghost sr = r;
        let mut i: usize = 0;
        while i < 16
            invariant
                i <= 16,
                ks@.len() == 16,
                is_sp_table(sp@),
                (l, r) == des_rounds(sl, sr, ks@, mask, i as nat),
            decreases 16 - i,
        {
            let t = l ^ feistel_of(r, ks[i], mask, sp);
            l = r;
            r = t;
            i += 1;
        }
        let t = l;
        l = r;
        r = t;
        n += 1;
    }
    permute_bits(((l & 0xffffffff) << 32) | (r & 0xffffffff), 64, &FP)
}

// ---------------------------------------------------------------------------
// Keys from passwords
// ---------------------------------------------------------------------------
/// The key byte made of the password byte at `idx`: the byte moved up by one
/// bit, or zero past the end of the password.
pub open spec fn key_byte(p: Seq<u8>, idx: int) -> u64 {
    if 0 <= idx < p.len() {
        ((p[idx] as u64) << 1) & 0xff
    } else {
        0
    }
}

/// The key made of the `n` password bytes from `off` on.
pub open spec fn key_at(p: Seq<u8>, off: int, n: nat) -> u64
    decreases n,
{
    if n == 0 {
        0
    } else {
        (key_at(p, off, (n - 1) as nat) << 8) | key_byte(p, off + n - 1)
    }
}

/// Makes the key of the eight password bytes from `off` on.
pub fn key_of_chunk(p: &[u8], off: usize) -> (key: u64)
    requires
        off <= p.len(),
    ensures
        key == key_at(p@, off as int, 8),
{
    let mut key: u64 = 0;
    let mut i: usize = 0;
    while i < 8
        invariant
            i <= 8,
            off <= p.len(),
            key == key_at(p@, off as int, i as nat),
        decreases 8 - i,
    {
        let b: u64 = if i < p.len() - off {
            ((p[off + i] as u64) << 1) & 0xff
        } else {
            0
        };
        key = (key << 8) | b;
        i += 1;
    }
    key
}

/// The key of traditional `crypt`: the first eight bytes of the password.
pub open spec fn unix_key(p: Seq<u8>) -> u64 {
    key_at(p, 0, 8)
}

/// How many groups of eight bytes a password of `len` bytes has, at least one.
pub open spec fn key_chunks(len: nat) -> nat {
    if len <= 8 {
        1
    } else {
        ((len - 1) / 8 + 1) as nat
    }
}

/// The key of extended `crypt` after the first `k` groups of eight bytes:
/// each further group is combined with the key so far, enciphered under
/// itself.
pub open spec fn bsdi_key_upto(p: Seq<u8>, k: nat) -> u64
    decreases k,
{
    if k <= 1 {
        key_at(p, 0, 8)
    } else {
        let prev = bsdi_key_upto(p, (k - 1) as nat);
        des_cipher(prev, key_schedule(prev), 0, 1) ^ key_at(p, 8 * (k - 1), 8)
    }
}

/// The key of extended `crypt`, made of the whole password.
pub open spec fn bsdi_key(p: Seq<u8>) -> u64 {
    bsdi_key_upto(p, key_chunks(p.len()))
}

/// Makes the key of extended `crypt`.
pub fn bsdi_key_of(p: &[u8], sp: &Vec<u64>) -> (key: u64)
    requires
        is_sp_table(sp@),
    ensures
        key == bsdi_key(p@),
{
    let n = p.len();
    let chunks: usize = if n <= 8 {
        1
    } else {
        (n - 1) / 8 + 1
    };
    let mut key = key_of_chunk(p, 0);
    let mut k: usize = 1;
    while k < chunks
        invariant
            1 <= k <= chunks,
            chunks == key_chunks(p@.len()),
            n == p@.len(),
            is_sp_table(sp@),
            key == bsdi_key_upto(p@, k as nat),
        decreases chunks - k,
    {
        let ks = key_schedule_of(key);
        key = des_cipher_of(key, &ks, 0, 1, sp) ^ key_of_chunk(p, 8 * k);
        k += 1;
    }
    key
}

// ---------------------------------------------------------------------------
// The checksum
// ---------------------------------------------------------------------------
/// Digit `i` of the checksum: the 64 bits of the block and two zero bits
/// after them, six bits at a time from the most significant one.
pub open spec fn checksum_digit(block: u64, i: int) -> u64 {
    if i < 10 {
        (block >> ((58 - 6 * i) as u64)) & 0x3f
    } else {
        (block << 2) & 0x3f
    }
}

/// The eleven characters of the checksum.
pub open spec fn des_checksum(block: u64) -> Seq<u8> {
    Seq::new(11, |i: int| crypt_char(checksum_digit(block, i) as int))
}

/// Writes the eleven characters of the checksum.
pub fn des_checksum_of(block: u64) -> (out: Vec<u8>)
    ensures
        out@ == des_checksum(block),
        all_in_alphabet(out@),
{
    let mut out: Vec<u8> = Vec::new();
    let mut i: usize = 0;
    while i < 10
        invariant
            i <= 10,
            out@.len() == i,
            forall|k: int| 0 <= k < i ==> out@[k] == crypt_char(checksum_digit(block, k) as int),
            forall|k: int| 0 <= k < i ==> in_alphabet(#[trigger] out@[k]),
        decreases 10 - i,
    {
        let sh: u64 = (58 - 6 * i) as u64;
        let v = six_bits(block, sh);
        out.push(crypt_char_of(v as u8));
        i += 1;
    }
    let last = (block << 2) & 0x3f;
    assert((block << 2) & 0x3f < 64) by (bit_vector);
    out.push(crypt_char_of(last as u8));
    assert(out@ =~= des_checksum(block));
    out
}

// ---------------------------------------------------------------------------
// The two hash functions
// ---------------------------------------------------------------------------
/// The eleven characters of a checksum are characters of the alphabet.
pub proof fn lemma_des_checksum(block: u64)
    ensures
        des_checksum(block).len() == 11,
        all_in_alphabet(des_checksum(block)),
{
    assert forall|i: int| 0 <= i < 11 implies in_alphabet(#[trigger] des_checksum(block)[i]) by {
        let v = checksum_digit(block, i);
        if i < 10 {
            let k = (58 - 6 * i) as u64;
            assert((block >> k) & 0x3f < 64) by (bit_vector);
        } else {
            assert((block << 2) & 0x3f < 64) by (bit_vector);
        }
        crate::encode::lemma_alphabets(v as int, 0);
    }
}

/// The checksum of traditional `crypt` for a password and a salt value: the
/// zero block enciphered 25 times under the key of the password, the
/// cipher salted.
#[verifier::opaque]
pub open spec fn unix_checksum(pass: Seq<u8>, salt: u32) -> Seq<u8> {
    des_checksum(
        des_cipher(0, key_schedule(unix_key(before_nul(pass))), salt_mask(salt), UNIX_ROUNDS as nat),
    )
}

/// The checksum of traditional `crypt` has eleven characters of the
/// alphabet.
pub proof fn lemma_unix_checksum(pass: Seq<u8>, salt: u32)
    ensures
        unix_checksum(pass, salt).len() == 11,
        all_in_alphabet(unix_checksum(pass, salt)),
{
    reveal(unix_checksum);
    lemma_des_checksum(
        des_cipher(0, key_schedule(unix_key(before_nul(pass))), salt_mask(salt), UNIX_ROUNDS as nat),
    );
}

/// What `unix_crypt` returns: the two characters of the salt and the
/// checksum, or the error of reading the salt.
pub open spec fn unix_crypt_spec(pass: Seq<u8>, setting: Seq<u8>) -> Result<Seq<u8>> {
    match decode_val_spec(prefix(setting, 2), 2) {
        Err(e) => Err(e),
        Ok(salt) => Ok(prefix(setting, 2) + unix_checksum(pass, salt)),
    }
}

/// Traditional `crypt`: hashes the first eight bytes of the password, up to
/// its first NUL byte, under the salt that the first two characters of
/// `setting` spell.
pub fn unix_crypt(pass: &[u8], setting: &[u8]) -> (r: Result<Vec<u8>>)
    ensures
        match unix_crypt_spec(pass@, setting@) {
            Ok(h) => r is Ok && r.unwrap()@ == h,
            Err(e) => r == Err::<Vec<u8>, Error>(e),
        },
        r is Ok ==> is_ascii_bytes(r.unwrap()@),
{
    let salt_text = prefix_of(setting, 2);
    let salt = match decode_val(salt_text, 2) {
        Ok(v) => v,
        Err(e) => {
            return Err(e);
        },
    };
    let p = pass.nul_terminated_subslice();
    let sp = sp_table();
    let ks = key_schedule_of(key_of_chunk(p, 0));
    let block = des_cipher_of(0, &ks, salt_mask_of(salt), UNIX_ROUNDS, &sp);
    let mut out: Vec<u8> = Vec::new();
    append_bytes(&mut out, salt_text);
    let sum = des_checksum_of(block);
    append_bytes(&mut out, sum.as_slice());
    proof {
        reveal(unix_checksum);
        assert(Seq::<u8>::empty() + salt_text@ =~= salt_text@);
        crate::encode::lemma_alphabet_is_ascii(salt_text@);
        crate::encode::lemma_alphabet_is_ascii(sum@);
        crate::text::lemma_ascii_concat(salt_text@, sum@);
    }
    Ok(out)
}

/// The least number of rounds of extended `crypt`.
pub const BSDI_MIN_ROUNDS: u32 = 1;

/// The greatest number of rounds of extended `crypt`.
pub const BSDI_MAX_ROUNDS: u32 = 0xff_ffff;

/// The checksum of extended `crypt` for a password, a salt value and a
/// number of rounds: the zero block enciphered as often as there are
/// rounds under the key of the password, the cipher salted.
#[verifier::opaque]
pub open spec fn bsdi_checksum(pass: Seq<u8>, salt: u32, rounds: u32) -> Seq<u8> {
    let key = bsdi_key(before_nul(pass));
    des_checksum(des_cipher(0, key_schedule(key), salt_mask(salt), rounds as nat))
}

/// The checksum of extended `crypt` has eleven characters of the alphabet.
pub proof fn lemma_bsdi_checksum(pass: Seq<u8>, salt: u32, rounds: u32)
    ensures
        bsdi_checksum(pass, salt, rounds).len() == 11,
        all_in_alphabet(bsdi_checksum(pass, salt, rounds)),
{
    reveal(bsdi_checksum);
    lemma_des_checksum(
        des_cipher(0, key_schedule(bsdi_key(before_nul(pass))), salt_mask(salt), rounds as nat),
    );
}

/// What `bsdi_crypt` returns: an underscore, the four digits of the rounds,
/// the four characters of the salt and the checksum; or the error of the
/// rounds or of reading the salt.
pub open spec fn bsdi_crypt_spec(pass: Seq<u8>, salt: Seq<u8>, rounds: u32) -> Result<Seq<u8>> {
    if rounds < BSDI_MIN_ROUNDS || rounds > BSDI_MAX_ROUNDS {
        Err(Error::InvalidRounds)
    } else {
        match decode_val_spec(prefix(salt, 4), 4) {
            Err(e) => Err(e),
            Ok(v) => Ok(
                seq![95u8] + val_digits(rounds as nat, 4) + prefix(salt, 4) + bsdi_checksum(
                    pass,
                    v,
                    rounds,
                ),
            ),
        }
    }
}

/// Extended `crypt`: hashes the whole password, up to its first NUL byte,
/// with `rounds` applications of the cipher under the salt that the first
/// four characters of `salt` spell.
pub fn bsdi_crypt(pass: &[u8], salt: &[u8], rounds: u32) -> (r: Result<Vec<u8>>)
    ensures
        match bsdi_crypt_spec(pass@, salt@, rounds) {
            Ok(h) => r is Ok && r.unwrap()@ == h,
            Err(e) => r == Err::<Vec<u8>, Error>(e),
        },
        r is Ok ==> is_ascii_bytes(r.unwrap()@),
{
    if rounds < BSDI_MIN_ROUNDS || rounds > BSDI_MAX_ROUNDS {
        return Err(Error::InvalidRounds);
    }
    let salt_text = prefix_of(salt, 4);
    let v = match decode_val(salt_text, 4) {
        Ok(v) => v,
        Err(e) => {
            return Err(e);
        },
    };
    let p = pass.nul_terminated_subslice();
    let sp = sp_table();
    let ks = key_schedule_of(bsdi_key_of(p, &sp));
    let block = des_cipher_of(0, &ks, salt_mask_of(v), rounds, &sp);
    let mut out: Vec<u8> = Vec::new();
    out.push(95u8);
    let digits = encode_val(rounds, 4);
    append_bytes(&mut out, digits.as_slice());
    append_bytes(&mut out, salt_text);
    let sum = des_checksum_of(block);
    append_bytes(&mut out, sum.as_slice());
    proof {
        reveal(bsdi_checksum);
        lemma_val_digits(rounds as nat, 4);
        crate::encode::lemma_alphabet_is_ascii(digits@);
        crate::encode::lemma_alphabet_is_ascii(salt_text@);
        crate::encode::lemma_alphabet_is_ascii(sum@);
        crate::text::lemma_ascii_concat(seq![95u8], digits@);
        crate::text::lemma_ascii_concat(seq![95u8] + digits@, salt_text@);
        crate::text::lemma_ascii_concat(seq![95u8] + digits@ + salt_text@, sum@);
        assert(Seq::<u8>::empty().push(95u8) =~= seq![95u8]);
    }
    Ok(out)
}

} // verus!
