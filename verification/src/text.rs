//! Texts as bytes: the passage between `str`, `String` and byte sequences,
//! and the comparison of two texts.
use vstd::prelude::*;
use vstd::slice::*;
use vstd::string::*;
use vstd::utf8::*;

verus! {

/// True when every byte is an ASCII character.
pub open spec fn is_ascii_bytes(b: Seq<u8>) -> bool {
    forall|i: int| 0 <= i < b.len() ==> #[trigger] b[i] < 128
}

/// The bytes of an optional text.
pub open spec fn opt_bytes(o: Option<&str>) -> Option<Seq<u8>> {
    match o {
        Some(s) => Some(s.spec_bytes()),
        None => None,
    }
}

/// A sequence of ASCII bytes is valid UTF-8.
pub proof fn lemma_ascii_is_utf8(b: Seq<u8>)
    requires
        is_ascii_bytes(b),
    ensures
        valid_utf8(b),
{
    assert(b.subrange(0, 0) =~= Seq::<u8>::empty());
    assert(partial_valid_utf8(b, 0));
    assert forall|i: int| 0 <= 0 <= i < b.len() <= b.len() implies #[trigger] is_leading_byte_width_1(
        b[i],
    ) by {
        assert(b[i] < 128);
    }
    partial_valid_utf8_extend_ascii_block(b, 0, b.len() as int);
    assert(b.subrange(0, b.len() as int) =~= b);
}

/// The concatenation of two ASCII sequences is ASCII.
pub proof fn lemma_ascii_concat(a: Seq<u8>, b: Seq<u8>)
    requires
        is_ascii_bytes(a),
        is_ascii_bytes(b),
    ensures
        is_ascii_bytes(a + b),
{
    assert forall|i: int| 0 <= i < (a + b).len() implies #[trigger] (a + b)[i] < 128 by {
        if i < a.len() {
            assert((a + b)[i] == a[i]);
        } else {
            assert((a + b)[i] == b[i - a.len()]);
        }
    }
}

/// `core::str::from_utf8`: the text that the bytes spell, where they are valid
/// UTF-8, and nothing where they are not. The text's bytes are the given ones.
#[verifier::external_body]
pub(crate) fn str_from_utf8<'a>(b: &'a [u8]) -> (r: Option<&'a str>)
    ensures
        r is Some <==> valid_utf8(b@),
        r is Some ==> r.unwrap().spec_bytes() == b@,
{
    core::str::from_utf8(b).ok()
}

/// `String::from_utf8`: the owned text that the bytes spell, where they are
/// valid UTF-8, and nothing where they are not. The text's bytes are the
/// given ones.
#[verifier::external_body]
pub(crate) fn string_from_utf8(v: Vec<u8>) -> (r: Option<String>)
    ensures
        r is Some <==> valid_utf8(v@),
        r is Some ==> encode_utf8(r.unwrap()@) == v@,
{
    String::from_utf8(v).ok()
}

/// The text spelled by ASCII bytes.
pub fn ascii_string(v: Vec<u8>) -> (s: String)
    requires
        is_ascii_bytes(v@),
    ensures
        encode_utf8(s@) == v@,
{
    proof {
        lemma_ascii_is_utf8(v@);
    }
    match string_from_utf8(v) {
        Some(s) => s,
        // Not reached: ASCII is valid UTF-8.
        None => String::new(),
    }
}

/// Compares two byte strings in time that depends on their lengths only.
pub fn bytes_eq(a: &[u8], b: &[u8]) -> (r: bool)
    ensures
        r == (a@ == b@),
{
    if a.len() != b.len() {
        return false;
    }
    let mut diff: u8 = 0;
    let mut i: usize = 0;
    proof {
        assert(a@.subrange(0, 0) =~= b@.subrange(0, 0));
    }
    while i < a.len()
        invariant
            i <= a.len(),
            a.len() == b.len(),
            (diff == 0) == (a@.subrange(0, i as int) == b@.subrange(0, i as int)),
        decreases a.len() - i,
    {
        let x = a[i];
        let y = b[i];
        let ghost d0 = diff;
        diff = diff | (x ^ y);
        proof {
            assert(((d0 | (x ^ y)) == 0) == (d0 == 0 && x == y)) by (bit_vector);
            let a0 = a@.subrange(0, i as int);
            let b0 = b@.subrange(0, i as int);
            let a1 = a@.subrange(0, i + 1);
            let b1 = b@.subrange(0, i + 1);
            assert(a1 =~= a0.push(x));
            assert(b1 =~= b0.push(y));
            if a1 == b1 {
                assert(a1.drop_last() =~= a0);
                assert(b1.drop_last() =~= b0);
                assert(a1.last() == x);
                assert(b1.last() == y);
            }
        }
        i += 1;
    }
    proof {
        assert(a@.subrange(0, a.len() as int) =~= a@);
        assert(b@.subrange(0, b.len() as int) =~= b@);
    }
    diff == 0
}

/// A copy of the bytes.
pub fn to_vec(b: &[u8]) -> (v: Vec<u8>)
    ensures
        v@ == b@,
{
    slice_to_vec(b)
}

/// Appends the bytes of `b` to `v`.
pub fn append_bytes(v: &mut Vec<u8>, b: &[u8])
    ensures
        final(v)@ == old(v)@ + b@,
{
    let mut i: usize = 0;
    while i < b.len()
        invariant
            i <= b.len(),
            v@ == old(v)@ + b@.subrange(0, i as int),
        decreases b.len() - i,
    {
        v.push(b[i]);
        proof {
            assert(b@.subrange(0, i + 1) =~= b@.subrange(0, i as int).push(b@[i as int]));
            assert(old(v)@ + b@.subrange(0, i + 1) =~= (old(v)@ + b@.subrange(0, i as int)).push(
                b@[i as int],
            ));
        }
        i += 1;
    }
    proof {
        assert(b@.subrange(0, b.len() as int) =~= b@);
    }
}

/// The first `n` bytes of `s`, or all of `s` where it is shorter.
pub open spec fn prefix(s: Seq<u8>, n: int) -> Seq<u8> {
    if s.len() <= n {
        s
    } else {
        s.subrange(0, n)
    }
}

/// The first `n` bytes of `s`, or all of `s` where it is shorter.
pub fn prefix_of(s: &[u8], n: usize) -> (r: &[u8])
    ensures
        r@ == prefix(s@, n as int),
{
    if s.len() <= n {
        s
    } else {
        slice_subrange(s, 0, n)
    }
}

/// The first `n` bytes of `d` written over and over.
pub open spec fn cycled(d: Seq<u8>, n: int) -> Seq<u8>
    decreases n,
{
    if n <= 0 || d.len() == 0 {
        Seq::empty()
    } else if n > d.len() {
        d + cycled(d, n - d.len())
    } else {
        d.subrange(0, n)
    }
}

/// Appends the first `n` bytes of `d` written over and over.
pub fn append_cycled(out: &mut Vec<u8>, d: &[u8], n: usize)
    requires
        d@.len() > 0,
    ensures
        final(out)@ == old(out)@ + cycled(d@, n as int),
{
    let mut left: usize = n;
    proof {
        assert(out@ + cycled(d@, left as int) =~= old(out)@ + cycled(d@, n as int));
    }
    while left > d.len()
        invariant
            left <= n,
            d@.len() > 0,
            out@ + cycled(d@, left as int) == old(out)@ + cycled(d@, n as int),
        decreases left,
    {
        let ghost before = out@;
        append_bytes(out, d);
        proof {
            assert(before + cycled(d@, left as int) =~= out@ + cycled(d@, left - d@.len()));
        }
        left -= d.len();
    }
    let ghost before = out@;
    append_bytes(out, slice_subrange(d, 0, left));
    proof {
        assert(out@ =~= before + cycled(d@, left as int));
    }
}

} // verus!
