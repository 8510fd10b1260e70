//! Bit-stuffing stage: reinterprets the zero-padded stream as 254-bit groups
//! and inserts two zero bits after each group, so that every 32-byte window of
//! the output, read as a little-endian integer, has its two highest bits clear.

use vstd::prelude::*;
use vstd::arithmetic::div_mod::{lemma_fundamental_div_mod, lemma_fundamental_div_mod_converse};
use crate::padreader::ZeroPadReader;
use crate::size::spec_piece_len;

verus! {

/// Bit `k` (least significant first) of byte `b`.
pub open spec fn byte_bit(b: u8, k: nat) -> bool {
    (b >> (k as u8)) & 1 == 1
}

/// Bit `i` of a byte sequence: bytes in order, bits of each byte least
/// significant first. Bits past the end read as zero.
pub open spec fn stream_bit(s: Seq<u8>, i: nat) -> bool {
    i < 8 * s.len() && byte_bit(s[(i / 8) as int], i % 8)
}

/// Bit `i` of the stuffed stream over input `s`: every 256-bit output window
/// carries 254 consecutive input bits followed by two zero bits.
pub open spec fn stuffed_bit(s: Seq<u8>, i: nat) -> bool {
    i % 256 < 254 && stream_bit(s, 254 * (i / 256) + i % 256)
}

pub open spec fn bitval(b: bool) -> nat {
    if b {
        1
    } else {
        0
    }
}

/// Byte `j` of the stuffed stream, assembled from its eight bits.
pub open spec fn stuffed_byte(s: Seq<u8>, j: nat) -> u8 {
    (bitval(stuffed_bit(s, 8 * j)) + 2 * bitval(stuffed_bit(s, 8 * j + 1)) + 4 * bitval(
        stuffed_bit(s, 8 * j + 2),
    ) + 8 * bitval(stuffed_bit(s, 8 * j + 3)) + 16 * bitval(stuffed_bit(s, 8 * j + 4)) + 32
        * bitval(stuffed_bit(s, 8 * j + 5)) + 64 * bitval(stuffed_bit(s, 8 * j + 6)) + 128 * bitval(
        stuffed_bit(s, 8 * j + 7),
    )) as u8
}

/// The first `len` bytes of the stuffed stream over input `s`.
pub open spec fn stuffed_prefix(s: Seq<u8>, len: nat) -> Seq<u8> {
    Seq::new(len, |j: int| stuffed_byte(s, j as nat))
}

/// The last byte of every 32-byte stuffed window carries the two stuffed zero
/// bits on top, so it never exceeds `0x3f`.
pub proof fn lemma_stuffed_window_top(s: Seq<u8>, j: nat)
    requires
        j % 32 == 31,
    ensures
        stuffed_byte(s, j) <= 0x3f,
{
    lemma_fundamental_div_mod(j as int, 32);
    let q = j as int / 32;
    assert(8 * (j as int) + 6 == q * 256 + 254);
    assert(8 * (j as int) + 7 == q * 256 + 255);
    lemma_fundamental_div_mod_converse(8 * (j as int) + 6, 256, q, 254);
    lemma_fundamental_div_mod_converse(8 * (j as int) + 7, 256, q, 255);
    assert(!stuffed_bit(s, 8 * j + 6));
    assert(!stuffed_bit(s, 8 * j + 7));
}

/// Packs eight bits, least significant first, into one byte.
fn assemble_byte(t0: bool, t1: bool, t2: bool, t3: bool, t4: bool, t5: bool, t6: bool, t7: bool) -> (v: u8)
    ensures
        v as nat == bitval(t0) + 2 * bitval(t1) + 4 * bitval(t2) + 8 * bitval(t3) + 16 * bitval(t4)
            + 32 * bitval(t5) + 64 * bitval(t6) + 128 * bitval(t7),
{
    let mut v: u8 = 0;
    if t0 {
        v = v + 1;
    }
    if t1 {
        v = v + 2;
    }
    if t2 {
        v = v + 4;
    }
    if t3 {
        v = v + 8;
    }
    if t4 {
        v = v + 16;
    }
    if t5 {
        v = v + 32;
    }
    if t6 {
        v = v + 64;
    }
    if t7 {
        v = v + 128;
    }
    v
}

/// Streaming bit-stuffing reader over a zero-padded source. Its logical
/// output has `piece` bytes: the padded size inflated by one byte per 127.
pub struct BitStuffingReader {
    pub inner: ZeroPadReader,
    pub piece: usize,
    pub pos: usize,
}

impl BitStuffingReader {
    pub open spec fn wf(&self) -> bool {
        &&& self.inner.wf()
        &&& self.piece as nat == spec_piece_len(self.inner.padsize as nat)
        &&& self.pos <= self.piece
        &&& 8 * (self.piece as int) <= usize::MAX as int
    }

    /// The full stuffed stream this reader serves.
    pub open spec fn stuffed_stream(&self) -> Seq<u8> {
        stuffed_prefix(self.inner.padded_stream(), self.piece as nat)
    }

    /// Wraps a zero-padded source, fixing the stuffed output length.
    pub fn new(inner: ZeroPadReader) -> (r: BitStuffingReader)
        requires
            inner.wf(),
            8 * spec_piece_len(inner.padsize as nat) <= usize::MAX as int,
        ensures
            r.wf(),
            r.pos == 0,
            r.inner == inner,
            r.piece as nat == spec_piece_len(inner.padsize as nat),
    {
        let piece = inner.padsize + inner.padsize / 127;
        BitStuffingReader { inner, piece, pos: 0 }
    }

    /// Bit `i` of the zero-padded input stream.
    fn input_bit(&self, i: usize) -> (r: bool)
        requires
            self.wf(),
        ensures
            r == stream_bit(self.inner.padded_stream(), i as nat),
    {
        if i < 8 * self.inner.padsize {
            let bidx = i / 8;
            let byte = if bidx < self.inner.size {
                self.inner.data[bidx]
            } else {
                0u8
            };
            assert(byte == self.inner.padded_stream()[i as int / 8]);
            let k = (i % 8) as u8;
            ((byte >> k) & 1) == 1
        } else {
            false
        }
    }

    /// Byte `j` of the stuffed stream, computed bit by bit from the input.
    #[verifier::rlimit(100)]
    fn stuffed_byte_at(&self, j: usize) -> (b: u8)
        requires
            self.wf(),
            j < self.piece,
        ensures
            b == stuffed_byte(self.inner.padded_stream(), j as nat),
    {
        let ghost s = self.inner.padded_stream();
        let w = j / 32;
        let r = j % 32;
        proof {
            lemma_fundamental_div_mod(j as int, 32);
            let ji = j as int;
            let wi = w as int;
            let ri = r as int;
            assert(8 * ji == wi * 256 + 8 * ri);
            lemma_fundamental_div_mod_converse(8 * ji + 0, 256, wi, 8 * ri + 0);
            lemma_fundamental_div_mod_converse(8 * ji + 1, 256, wi, 8 * ri + 1);
            lemma_fundamental_div_mod_converse(8 * ji + 2, 256, wi, 8 * ri + 2);
            lemma_fundamental_div_mod_converse(8 * ji + 3, 256, wi, 8 * ri + 3);
            lemma_fundamental_div_mod_converse(8 * ji + 4, 256, wi, 8 * ri + 4);
            lemma_fundamental_div_mod_converse(8 * ji + 5, 256, wi, 8 * ri + 5);
            lemma_fundamental_div_mod_converse(8 * ji + 6, 256, wi, 8 * ri + 6);
            lemma_fundamental_div_mod_converse(8 * ji + 7, 256, wi, 8 * ri + 7);
        }
        let base = 254 * w + 8 * r;
        let t0 = 8 * r + 0 < 254 && self.input_bit(base + 0);
        let t1 = 8 * r + 1 < 254 && self.input_bit(base + 1);
        let t2 = 8 * r + 2 < 254 && self.input_bit(base + 2);
        let t3 = 8 * r + 3 < 254 && self.input_bit(base + 3);
        let t4 = 8 * r + 4 < 254 && self.input_bit(base + 4);
        let t5 = 8 * r + 5 < 254 && self.input_bit(base + 5);
        let t6 = 8 * r + 6 < 254 && self.input_bit(base + 6);
        let t7 = 8 * r + 7 < 254 && self.input_bit(base + 7);
        proof {
            assert(t0 == stuffed_bit(s, 8 * (j as nat) + 0));
            assert(t1 == stuffed_bit(s, 8 * (j as nat) + 1));
            assert(t2 == stuffed_bit(s, 8 * (j as nat) + 2));
            assert(t3 == stuffed_bit(s, 8 * (j as nat) + 3));
            assert(t4 == stuffed_bit(s, 8 * (j as nat) + 4));
            assert(t5 == stuffed_bit(s, 8 * (j as nat) + 5));
            assert(t6 == stuffed_bit(s, 8 * (j as nat) + 6));
            assert(t7 == stuffed_bit(s, 8 * (j as nat) + 7));
        }
        assemble_byte(t0, t1, t2, t3, t4, t5, t6, t7)
    }

    /// Serves the next bytes of the stuffed stream into the front of `buf`.
    /// Returns how many bytes were served; zero once the stream is exhausted.
    /// The caller's buffer may have any size and alignment.
    pub fn read(&mut self, buf: &mut Vec<u8>) -> (n: usize)
        requires
            old(self).wf(),
        ensures
            final(self).wf(),
            final(self).inner == old(self).inner,
            final(self).piece == old(self).piece,
            final(self).pos == old(self).pos + n,
            n == if old(buf)@.len() <= old(self).piece - old(self).pos {
                old(buf)@.len() as int
            } else {
                old(self).piece - old(self).pos
            },
            final(buf)@.len() == old(buf)@.len(),
            forall|i: int|
                0 <= i < n ==> final(buf)@[i] == old(self).stuffed_stream()[old(self).pos + i],
            forall|i: int| n <= i < final(buf)@.len() ==> final(buf)@[i] == old(buf)@[i],
    {
        let avail = self.piece - self.pos;
        let n = if buf.len() <= avail {
            buf.len()
        } else {
            avail
        };
        let mut i: usize = 0;
        while i < n
            invariant
                i <= n,
                n <= buf@.len(),
                self.wf(),
                self == old(self),
                self.pos + n <= self.piece,
                buf@.len() == old(buf)@.len(),
                forall|k: int| 0 <= k < i ==> buf@[k] == self.stuffed_stream()[self.pos + k],
                forall|k: int| i <= k < buf@.len() ==> buf@[k] == old(buf)@[k],
            decreases n - i,
        {
            let b = self.stuffed_byte_at(self.pos + i);
            buf.set(i, b);
            i = i + 1;
        }
        self.pos = self.pos + n;
        n
    }
}

} // verus!
