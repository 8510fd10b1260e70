//! Zero-padding stage: wraps an in-memory byte source of a declared length and
//! serves the logical stream that continues with zero bytes up to the padded
//! size, synthesizing the zeros one caller buffer at a time.

use vstd::prelude::*;
use crate::size::{padded_size, spec_padded_size, MAX_DECLARED_SIZE};

verus! {

/// The logical zero-padded stream for a source of `size` declared bytes:
/// the first `size` bytes of the source, then zeros up to the padded size.
pub open spec fn spec_padded_stream(data: Seq<u8>, size: nat) -> Seq<u8> {
    Seq::new(
        spec_padded_size(size),
        |i: int| if i < size { data[i] } else { 0u8 },
    )
}

/// A pull-based reader over a byte source of declared length `size` that
/// extends the stream with zeros up to `padsize` without materializing them.
pub struct ZeroPadReader {
    pub data: Vec<u8>,
    pub size: usize,
    pub padsize: usize,
    pub pos: usize,
}

impl ZeroPadReader {
    pub open spec fn wf(&self) -> bool {
        &&& self.size <= self.data@.len()
        &&& self.size <= self.padsize
        &&& self.pos <= self.padsize
    }

    /// The stream this reader serves, of length exactly `padsize`.
    pub open spec fn padded_stream(&self) -> Seq<u8> {
        Seq::new(
            self.padsize as nat,
            |i: int| if i < self.size { self.data@[i] } else { 0u8 },
        )
    }

    /// How many bytes the next read may serve at most: up to the declared
    /// size while inside the source, then up to the padded size.
    pub open spec fn read_bound(&self) -> int {
        if self.pos < self.size {
            self.size - self.pos
        } else {
            self.padsize - self.pos
        }
    }

    /// Serves the next bytes of the padded stream into the front of `buf`,
    /// delegating to the source while within the declared size and
    /// synthesizing zeros afterwards. Returns how many bytes were served;
    /// zero once the padded size is reached.
    pub fn read(&mut self, buf: &mut Vec<u8>) -> (n: usize)
        requires
            old(self).wf(),
        ensures
            final(self).wf(),
            final(self).data == old(self).data,
            final(self).size == old(self).size,
            final(self).padsize == old(self).padsize,
            final(self).pos == old(self).pos + n,
            n == if old(buf)@.len() <= old(self).read_bound() {
                old(buf)@.len() as int
            } else {
                old(self).read_bound()
            },
            final(buf)@.len() == old(buf)@.len(),
            forall|i: int|
                0 <= i < n ==> final(buf)@[i] == old(self).padded_stream()[old(self).pos + i],
            forall|i: int| n <= i < final(buf)@.len() ==> final(buf)@[i] == old(buf)@[i],
    {
        let avail = if self.pos < self.size {
            self.size - self.pos
        } else {
            self.padsize - self.pos
        };
        let n = if buf.len() <= avail {
            buf.len()
        } else {
            avail
        };
        let mut i: usize = 0;
        while i < n
            invariant
                i <= n,
                n <= buf@.len(),
                self.wf(),
                self == old(self),
                self.pos + n <= self.padsize,
                buf@.len() == old(buf)@.len(),
                forall|j: int|
                    0 <= j < i ==> buf@[j] == self.padded_stream()[self.pos + j],
                forall|j: int| i <= j < buf@.len() ==> buf@[j] == old(buf)@[j],
            decreases n - i,
        {
            let b = if self.pos + i < self.size {
                self.data[self.pos + i]
            } else {
                0u8
            };
            buf.set(i, b);
            i = i + 1;
        }
        self.pos = self.pos + n;
        n
    }
}

/// Builds the zero-padding reader for a source and its declared length,
/// classifying the declared length into its canonical padded size.
pub fn padded(inp: Vec<u8>, size: u64) -> (r: ZeroPadReader)
    requires
        1 <= size,
        size <= MAX_DECLARED_SIZE,
        size <= inp@.len(),
        spec_padded_size(size as nat) <= usize::MAX,
    ensures
        r.wf(),
        r.pos == 0,
        r.size == size,
        r.padsize as nat == spec_padded_size(size as nat),
        r.padded_stream() == spec_padded_stream(inp@, size as nat),
{
    let ps = padded_size(size);
    let r = ZeroPadReader {
        data: inp,
        size: size as usize,
        padsize: ps as usize,
        pos: 0,
    };
    proof {
        assert(r.padded_stream() =~= spec_padded_stream(r.data@, size as nat));
    }
    r
}

/// Same construction under the name the base-two padding route used.
pub fn base2_padded(inp: Vec<u8>, size: u64) -> (r: ZeroPadReader)
    requires
        1 <= size,
        size <= MAX_DECLARED_SIZE,
        size <= inp@.len(),
        spec_padded_size(size as nat) <= usize::MAX,
    ensures
        r.wf(),
        r.pos == 0,
        r.size == size,
        r.padsize as nat == spec_padded_size(size as nat),
        r.padded_stream() == spec_padded_stream(inp@, size as nat),
{
    padded(inp, size)
}

} // verus!
