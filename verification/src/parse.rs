//! A forward-only cursor over the text of a hash.
//!
//! A hash is a run of fields, each of a fixed width or ended by a separator.
//! The cursor hands them out one by one. Its position is a byte offset into
//! the text; one past the length means that the cursor is drained, and a
//! drained cursor hands out nothing more.
use vstd::prelude::*;
use vstd::slice::*;
use vstd::string::*;
use vstd::utf8::*;
use crate::text::{opt_bytes, str_from_utf8};

verus! {

/// Where the first `delim` at or after `from` stands in `bytes`, or the
/// length of `bytes` where there is none.
pub open spec fn find_from(bytes: Seq<u8>, from: int, delim: u8) -> int
    decreases bytes.len() - from,
{
    if from < 0 || from >= bytes.len() {
        bytes.len() as int
    } else if bytes[from] == delim {
        from
    } else {
        find_from(bytes, from + 1, delim)
    }
}

/// The field as text: the bytes themselves where they are valid UTF-8.
pub open spec fn as_field(bytes: Seq<u8>) -> Option<Seq<u8>> {
    if valid_utf8(bytes) {
        Some(bytes)
    } else {
        None
    }
}

/// What `take` hands out at position `pos` of `bytes`, and the position after.
pub open spec fn take_spec(bytes: Seq<u8>, pos: nat, n: nat) -> (Option<Seq<u8>>, nat) {
    if pos > bytes.len() {
        (None, pos)
    } else if pos + n > bytes.len() {
        (None, bytes.len() + 1)
    } else {
        let end = pos + n;
        (
            as_field(bytes.subrange(pos as int, end as int)),
            if end == bytes.len() {
                end + 1
            } else {
                end
            },
        )
    }
}

/// What `take_until` hands out at position `pos` of `bytes`, and the position
/// after.
pub open spec fn take_until_spec(bytes: Seq<u8>, pos: nat, delim: u8) -> (Option<Seq<u8>>, nat) {
    if pos > bytes.len() {
        (None, pos)
    } else {
        let end = find_from(bytes, pos as int, delim);
        (as_field(bytes.subrange(pos as int, end)), (end + 1) as nat)
    }
}

/// A position with `delim` and none before it since `from` is the one found.
pub proof fn lemma_find_from_is(bytes: Seq<u8>, from: int, delim: u8, at: int)
    requires
        0 <= from <= at <= bytes.len(),
        at < bytes.len() ==> bytes[at] == delim,
        forall|i: int| from <= i < at ==> bytes[i] != delim,
    ensures
        find_from(bytes, from, delim) == at,
    decreases at - from,
{
    if from < at {
        lemma_find_from_is(bytes, from + 1, delim, at);
    }
}

/// Handing out the fields of a hash, one after the other.
pub trait HashIterator {
    /// What a field is handed out as.
    type Elem;

    /// Hands out a field of `n` bytes. Where fewer than `n` bytes are left,
    /// nothing is handed out and the text is drained. Taking the last bytes
    /// of the text drains it too.
    fn take(&mut self, n: usize) -> Option<Self::Elem>;

    /// Hands out the field that goes up to the next `ac`, or to the end of
    /// the text, and moves past that `ac`. Without an `ac` the text is
    /// drained.
    fn take_until(&mut self, ac: u8) -> Option<Self::Elem>;

    /// Whether no more bytes are left. Nothing is taken and the place is
    /// kept.
    fn at_end(&mut self) -> bool;
}

/// A cursor over the bytes of a text.
#[derive(Clone, Copy)]
pub struct HashSlice<'a> {
    bp: &'a [u8],
    pos: usize,
    drained: bool,
}

impl<'a> HashSlice<'a> {
    #[verifier::type_invariant]
    spec fn in_bounds(self) -> bool {
        self.pos <= self.bp@.len()
    }

    /// The bytes of the text.
    pub closed spec fn bytes(&self) -> Seq<u8> {
        self.bp@
    }

    /// The position of the cursor: an offset into the text, or one past its
    /// length once the cursor is drained.
    pub closed spec fn position(&self) -> nat {
        if self.drained {
            self.bp@.len() + 1
        } else {
            self.pos as nat
        }
    }

    /// True when nothing more can be handed out.
    pub open spec fn is_drained(&self) -> bool {
        self.position() > self.bytes().len()
    }

    /// True when no more bytes are left: the cursor stands at the end of the
    /// text or is drained.
    pub open spec fn is_at_end(&self) -> bool {
        self.position() >= self.bytes().len()
    }

    /// A cursor at the start of `hash`.
    pub fn new(hash: &'a str) -> (r: HashSlice<'a>)
        ensures
            r.bytes() == hash.spec_bytes(),
            r.position() == 0,
    {
        HashSlice { bp: hash.as_bytes(), pos: 0, drained: false }
    }
}

impl<'a> HashIterator for HashSlice<'a> {
    type Elem = &'a str;

    fn take(&mut self, n: usize) -> (r: Option<&'a str>)
        ensures
            final(self).bytes() == old(self).bytes(),
            (opt_bytes(r), final(self).position()) == take_spec(
                old(self).bytes(),
                old(self).position(),
                n as nat,
            ),
            old(self).is_drained() ==> r is None && final(self).is_drained(),
    {
        proof {
            use_type_invariant(&*self);
        }
        if self.drained {
            return None;
        }
        let len = self.bp.len();
        let sp = self.pos;
        if n > len - sp {
            self.drained = true;
            None
        } else {
            let endp = sp + n;
            self.pos = endp;
            if endp == len {
                self.drained = true;
            }
            str_from_utf8(slice_subrange(self.bp, sp, endp))
        }
    }

    fn take_until(&mut self, ac: u8) -> (r: Option<&'a str>)
        ensures
            final(self).bytes() == old(self).bytes(),
            (opt_bytes(r), final(self).position()) == take_until_spec(
                old(self).bytes(),
                old(self).position(),
                ac,
            ),
            old(self).is_drained() ==> r is None && final(self).is_drained(),
    {
        proof {
            use_type_invariant(&*self);
        }
        if self.drained {
            return None;
        }
        let len = self.bp.len();
        let oldp = self.pos;
        let mut sp = oldp;
        while sp < len && self.bp[sp] != ac
            invariant
                oldp <= sp <= len,
                len == self.bp@.len(),
                forall|i: int| oldp <= i < sp ==> self.bp@[i] != ac,
            decreases len - sp,
        {
            sp += 1;
        }
        proof {
            lemma_find_from_is(self.bp@, oldp as int, ac, sp as int);
        }
        if sp == len {
            self.drained = true;
        } else {
            self.pos = sp + 1;
        }
        str_from_utf8(slice_subrange(self.bp, oldp, sp))
    }

    fn at_end(&mut self) -> (r: bool)
        ensures
            r == old(self).is_at_end(),
            final(self).position() == old(self).position(),
            final(self).bytes() == old(self).bytes(),
    {
        proof {
            use_type_invariant(&*self);
        }
        self.drained || self.pos >= self.bp.len()
    }
}

/// Where an ASCII field stands in a text, `take` of its length hands it out
/// and moves behind it.
pub proof fn lemma_take_field(text: Seq<u8>, pos: nat, field: Seq<u8>)
    requires
        pos + field.len() <= text.len(),
        text.subrange(pos as int, (pos + field.len()) as int) == field,
        crate::text::is_ascii_bytes(field),
    ensures
        take_spec(text, pos, field.len()).0 == Some(field),
        take_spec(text, pos, field.len()).1 == (if pos + field.len() == text.len() {
            pos + field.len() + 1
        } else {
            pos + field.len()
        }),
{
    crate::text::lemma_ascii_is_utf8(field);
}

/// Where an ASCII field without `delim` stands in a text with a `delim`
/// behind it, `take_until` hands it out and moves behind the `delim`.
pub proof fn lemma_take_until_field(text: Seq<u8>, pos: nat, field: Seq<u8>, delim: u8)
    requires
        pos + field.len() < text.len(),
        text.subrange(pos as int, (pos + field.len()) as int) == field,
        crate::text::is_ascii_bytes(field),
        forall|i: int| 0 <= i < field.len() ==> field[i] != delim,
        text[(pos + field.len()) as int] == delim,
    ensures
        take_until_spec(text, pos, delim) == (Some(field), (pos + field.len() + 1) as nat),
{
    crate::text::lemma_ascii_is_utf8(field);
    assert forall|i: int| pos <= i < pos + field.len() implies text[i] != delim by {
        assert(text[i] == field[i - pos]);
    }
    lemma_find_from_is(text, pos as int, delim, (pos + field.len()) as int);
}

} // verus!
