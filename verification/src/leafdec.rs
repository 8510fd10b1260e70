//! Leaf decoding: consumes the bit-stuffed stream in fixed 32-byte windows
//! and validates each against the field modulus. Over a correctly stuffed
//! stream the check can never fire, and that is proved here; it is still
//! performed, as the integrity boundary between the two transforms.

use vstd::prelude::*;
use vstd::arithmetic::div_mod::lemma_fundamental_div_mod_converse;
use crate::domain::{lemma_top_byte_small_implies_valid, DomainElement};
use crate::errors::CommPError;
use crate::stuffreader::{lemma_stuffed_window_top, BitStuffingReader};

verus! {

/// The leaf elements of a stuffed stream: its consecutive 32-byte windows.
pub open spec fn leaf_windows(stuffed: Seq<u8>, parts: nat) -> Seq<Seq<u8>> {
    Seq::new(parts, |i: int| stuffed.subrange(32 * i, 32 * i + 32))
}

/// A vector of `n` zero bytes.
pub fn zero_buf(n: usize) -> (v: Vec<u8>)
    ensures
        v@.len() == n,
        forall|i: int| 0 <= i < n ==> v@[i] == 0u8,
{
    let mut v: Vec<u8> = Vec::new();
    let mut i: usize = 0;
    while i < n
        invariant
            i <= n,
            v@.len() == i,
            forall|j: int| 0 <= j < i ==> v@[j] == 0u8,
        decreases n - i,
    {
        v.push(0u8);
        i = i + 1;
    }
    v
}

/// A lazy, finite, non-restartable sequence of exactly `parts` domain
/// elements decoded from the bit-stuffed stream, consumed exactly once.
pub struct LeafDecoder {
    pub src: BitStuffingReader,
    pub parts: usize,
    pub consumed: usize,
}

impl LeafDecoder {
    pub open spec fn wf(&self) -> bool {
        &&& self.src.wf()
        &&& 32 * self.parts == self.src.piece
        &&& self.consumed <= self.parts
        &&& self.src.pos == 32 * self.consumed
    }

    /// The full leaf sequence this decoder serves.
    pub open spec fn leaves(&self) -> Seq<Seq<u8>> {
        leaf_windows(self.src.stuffed_stream(), self.parts as nat)
    }

    /// Starts decoding an element-aligned stuffed stream from its beginning.
    pub fn new(src: BitStuffingReader) -> (r: LeafDecoder)
        requires
            src.wf(),
            src.pos == 0,
            src.piece % 32 == 0,
        ensures
            r.wf(),
            r.consumed == 0,
            r.src == src,
            r.parts == src.piece / 32,
    {
        let parts = src.piece / 32;
        LeafDecoder { src, parts, consumed: 0 }
    }

    /// Decodes the next 32-byte window into a domain element. The window of a
    /// stuffed stream always passes the modulus check, so this never fails.
    pub fn next_leaf(&mut self) -> (r: Result<DomainElement, CommPError>)
        requires
            old(self).wf(),
            old(self).consumed < old(self).parts,
        ensures
            final(self).wf(),
            final(self).parts == old(self).parts,
            final(self).consumed == old(self).consumed + 1,
            final(self).leaves() == old(self).leaves(),
            match r {
                Ok(e) => e.wf() && e.bytes@ == old(self).leaves()[old(self).consumed as int],
                Err(_) => false,
            },
    {
        let ghost stream = self.src.stuffed_stream();
        let ghost pos0 = self.src.pos as int;
        let mut buf = zero_buf(32);
        let n = self.src.read(&mut buf);
        proof {
            assert(n == 32);
            assert(buf@ =~= stream.subrange(pos0, pos0 + 32));
            // the window's last byte is byte 31 of a 32-byte window, whose
            // two highest bits are the stuffed zeros
            let j = pos0 + 31;
            lemma_fundamental_div_mod_converse(j, 32, old(self).consumed as int, 31);
            assert(buf@[31] == stream[j]);
            lemma_stuffed_window_top(old(self).src.inner.padded_stream(), j as nat);
            assert(buf@[31] <= 0x3f);
            lemma_top_byte_small_implies_valid(buf@);
            assert(old(self).leaves()[old(self).consumed as int] =~= buf@);
        }
        let r = DomainElement::decode(buf);
        match r {
            Ok(e) => {
                self.consumed = self.consumed + 1;
                Ok(e)
            },
            Err(err) => Err(err),
        }
    }
}

} // verus!
