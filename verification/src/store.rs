//! Indexed, append-only element stores backing the Merkle construction: a
//! plain in-memory store, and a hybrid store that partitions the index space
//! at a fixed threshold to bound how much one region may ever hold.

use vstd::prelude::*;
use crate::errors::CommPError;

verus! {

/// Default capacity of the hybrid store's bounded region: fixed, so the
/// other region's share of a very large tree stays bounded by it.
pub const DISK_MAX: usize = 262144 * 48;

/// An indexed, append-only store of byte elements, the interface the Merkle
/// builder works against. The choice of implementation never changes what is
/// stored, only where it resides.
pub trait IndexedStore: Sized {
    /// The elements held, in index order.
    spec fn contents(&self) -> Seq<Seq<u8>>;

    /// The store's internal invariant.
    spec fn inv(&self) -> bool;

    /// Appends an element at the end of the index space.
    fn push(&mut self, el: Vec<u8>)
        requires
            old(self).inv(),
            old(self).contents().len() < usize::MAX,
        ensures
            final(self).inv(),
            final(self).contents() == old(self).contents().push(el@),
    ;

    /// Reads the element at an existing index.
    fn read_at(&self, i: usize) -> (r: Vec<u8>)
        requires
            self.inv(),
            i < self.contents().len(),
        ensures
            r@ == self.contents()[i as int],
    ;

    /// Number of elements held.
    fn len(&self) -> (n: usize)
        requires
            self.inv(),
        ensures
            n == self.contents().len(),
    ;
}

/// Copies a byte vector.
fn copy_bytes(v: &Vec<u8>) -> (r: Vec<u8>)
    ensures
        r@ == v@,
{
    let mut r: Vec<u8> = Vec::new();
    let mut i: usize = 0;
    while i < v.len()
        invariant
            i <= v@.len(),
            r@ == v@.take(i as int),
        decreases v@.len() - i,
    {
        r.push(v[i]);
        proof {
            assert(r@ =~= v@.take(i + 1));
        }
        i = i + 1;
    }
    proof {
        assert(v@.take(v@.len() as int) =~= v@);
    }
    r
}

/// Reads `region[start..end]` as fresh vectors.
fn read_region_range(region: &Vec<Vec<u8>>, start: usize, end: usize) -> (r: Vec<Vec<u8>>)
    requires
        start <= end,
        end <= region@.len(),
    ensures
        r.deep_view() == region.deep_view().subrange(start as int, end as int),
{
    let mut r: Vec<Vec<u8>> = Vec::new();
    let mut i: usize = start;
    while i < end
        invariant
            start <= i <= end,
            end <= region@.len(),
            r@.len() == i - start,
            forall|k: int| 0 <= k < r@.len() ==> (#[trigger] r@[k])@ == region@[start + k]@,
        decreases end - i,
    {
        r.push(copy_bytes(&region[i]));
        i = i + 1;
    }
    proof {
        assert forall|k: int| 0 <= k < r@.len() implies r.deep_view()[k]
            =~= region.deep_view().subrange(start as int, end as int)[k] by {
            assert(r@[k]@ == region@[start + k]@);
        }
        assert(r.deep_view() =~~= region.deep_view().subrange(start as int, end as int));
    }
    r
}

/// The all-in-memory store: one region holding every index.
#[derive(Debug)]
pub struct MemStore {
    pub elements: Vec<Vec<u8>>,
}

impl MemStore {
    /// An empty in-memory store.
    pub fn new() -> (r: MemStore)
        ensures
            r.inv(),
            r.contents() == Seq::<Seq<u8>>::empty(),
    {
        let r = MemStore { elements: Vec::new() };
        proof {
            assert(r.contents() =~= Seq::<Seq<u8>>::empty());
        }
        r
    }
}

impl IndexedStore for MemStore {
    open spec fn contents(&self) -> Seq<Seq<u8>> {
        self.elements.deep_view()
    }

    open spec fn inv(&self) -> bool {
        true
    }

    fn push(&mut self, el: Vec<u8>) {
        self.elements.push(el);
        proof {
            assert(self.contents() =~~= old(self).contents().push(el@));
        }
    }

    fn read_at(&self, i: usize) -> (r: Vec<u8>) {
        copy_bytes(&self.elements[i])
    }

    fn len(&self) -> (n: usize) {
        self.elements.len()
    }
}

/// The hybrid store: the index space is partitioned at a fixed threshold.
/// Indices below the threshold resolve to the bounded base region at the same
/// offset; indices at or above it resolve to the overflow region, offset by
/// the threshold. Appends fill the base region first.
#[derive(Debug)]
pub struct MultiStore {
    /// The bounded region serving indices below the threshold: the region a
    /// deployment backs with slower storage to cap resident memory.
    pub base: Vec<Vec<u8>>,
    /// The region serving indices at or above the threshold.
    pub overflow: Vec<Vec<u8>>,
    /// The partition point of the index space.
    pub threshold: usize,
}

impl MultiStore {
    /// An empty hybrid store partitioned at the default threshold.
    pub fn new() -> (r: MultiStore)
        ensures
            r.inv(),
            r.contents() == Seq::<Seq<u8>>::empty(),
            r.threshold == DISK_MAX,
    {
        MultiStore::with_threshold(DISK_MAX)
    }

    /// An empty hybrid store partitioned at index `t`.
    pub fn with_threshold(t: usize) -> (r: MultiStore)
        ensures
            r.inv(),
            r.contents() == Seq::<Seq<u8>>::empty(),
            r.threshold == t,
    {
        let r = MultiStore { base: Vec::new(), overflow: Vec::new(), threshold: t };
        proof {
            assert(r.contents() =~= Seq::<Seq<u8>>::empty());
        }
        r
    }

    /// Overwrites the element at an existing index, in whichever region the
    /// partition rule assigns it to.
    pub fn write_at(&mut self, el: Vec<u8>, index: usize) -> (r: Result<(), CommPError>)
        requires
            old(self).inv(),
        ensures
            final(self).inv(),
            final(self).threshold == old(self).threshold,
            match r {
                Ok(()) => index < old(self).contents().len() && final(self).contents()
                    == old(self).contents().update(index as int, el@),
                Err(e) => e == CommPError::Storage && index >= old(self).contents().len()
                    && final(self).contents() == old(self).contents(),
            },
    {
        if index < self.base.len() {
            self.base.set(index, el);
            proof {
                assert(self.contents() =~~= old(self).contents().update(index as int, el@));
            }
            Ok(())
        } else if index - self.base.len() < self.overflow.len() {
            self.overflow.set(index - self.base.len(), el);
            proof {
                assert(self.contents() =~~= old(self).contents().update(index as int, el@));
            }
            Ok(())
        } else {
            Err(CommPError::Storage)
        }
    }

    /// Overwrites consecutive existing indices from a flat byte image, one
    /// whole 32-byte element per index starting at `start`. A buffer that is
    /// not element-aligned, or that runs past the end, is refused whole.
    pub fn copy_from_slice(&mut self, buf: &Vec<u8>, start: usize) -> (r: Result<(), CommPError>)
        requires
            old(self).inv(),
        ensures
            final(self).inv(),
            final(self).threshold == old(self).threshold,
            final(self).contents().len() == old(self).contents().len(),
            match r {
                Ok(()) => {
                    &&& buf@.len() % 32 == 0
                    &&& start + buf@.len() / 32 <= old(self).contents().len()
                    &&& forall|j: int|
                        0 <= j < old(self).contents().len() ==> #[trigger] final(self).contents()[j]
                            == if start <= j < start + buf@.len() / 32 {
                                buf@.subrange(32 * (j - start), 32 * (j - start) + 32)
                            } else {
                                old(self).contents()[j]
                            }
                },
                Err(e) => {
                    &&& e == CommPError::Storage
                    &&& !(buf@.len() % 32 == 0 && start + buf@.len() / 32 <= old(
                        self,
                    ).contents().len())
                    &&& final(self).contents() == old(self).contents()
                },
            },
    {
        if buf.len() % 32 != 0 {
            return Err(CommPError::Storage);
        }
        let n = buf.len() / 32;
        let total = self.base.len() + self.overflow.len();
        if start > total || n > total - start {
            return Err(CommPError::Storage);
        }
        let mut i: usize = 0;
        while i < n
            invariant
                self.inv(),
                self.threshold == old(self).threshold,
                i <= n,
                buf@.len() == 32 * n,
                32 * n <= usize::MAX,
                start + n <= self.contents().len(),
                self.contents().len() == old(self).contents().len(),
                forall|j: int|
                    0 <= j < old(self).contents().len() ==> #[trigger] self.contents()[j]
                        == if start <= j < start + i {
                            buf@.subrange(32 * (j - start), 32 * (j - start) + 32)
                        } else {
                            old(self).contents()[j]
                        },
            decreases n - i,
        {
            let mut el: Vec<u8> = Vec::new();
            let mut b: usize = 0;
            while b < 32
                invariant
                    b <= 32,
                    i < n,
                    buf@.len() == 32 * n,
                    32 * n <= usize::MAX,
                    el@ == buf@.subrange(32 * i as int, 32 * i + b),
                decreases 32 - b,
            {
                el.push(buf[32 * i + b]);
                proof {
                    assert(el@ =~= buf@.subrange(32 * i as int, 32 * i + b + 1));
                }
                b = b + 1;
            }
            let res = self.write_at(el, start + i);
            proof {
                assert(res.is_ok());
            }
            i = i + 1;
        }
        Ok(())
    }

    /// Reads `[start, end)` of the index space, splitting a request that spans
    /// the partition and concatenating the parts in index order.
    pub fn read_range(&self, start: usize, end: usize) -> (r: Result<Vec<Vec<u8>>, CommPError>)
        requires
            self.inv(),
        ensures
            match r {
                Ok(v) => start <= end <= self.contents().len() && v.deep_view()
                    == self.contents().subrange(start as int, end as int),
                Err(e) => e == CommPError::Storage && !(start <= end <= self.contents().len()),
            },
    {
        if start > end || end > self.len() {
            return Err(CommPError::Storage);
        }
        let cut = self.base.len();
        if start >= cut {
            // the whole range lies in the overflow region
            let r = read_region_range(&self.overflow, start - cut, end - cut);
            proof {
                assert(r.deep_view() =~~= self.contents().subrange(start as int, end as int));
            }
            Ok(r)
        } else if end > cut {
            // the range spans the partition: serve each part from its region
            let mut r = read_region_range(&self.base, start, cut);
            let mut tail = read_region_range(&self.overflow, 0, end - cut);
            let ghost head_dv = r.deep_view();
            let ghost tail_dv = tail.deep_view();
            r.append(&mut tail);
            proof {
                assert(r.deep_view() =~~= head_dv + tail_dv);
                assert(head_dv + tail_dv =~~= self.contents().subrange(start as int, end as int));
            }
            Ok(r)
        } else {
            // the whole range lies in the base region
            let r = read_region_range(&self.base, start, end);
            proof {
                assert(r.deep_view() =~~= self.contents().subrange(start as int, end as int));
            }
            Ok(r)
        }
    }

    /// Whether the store holds no element.
    pub fn is_empty(&self) -> (r: bool)
        requires
            self.inv(),
        ensures
            r == (self.contents().len() == 0),
    {
        self.base.is_empty() && self.overflow.is_empty()
    }

    /// Rebuilding a store from a flat byte image is deliberately unsupported.
    pub fn new_from_slice(_size: usize, _data: &Vec<u8>) -> (r: Result<MultiStore, CommPError>)
        ensures
            r == Err::<MultiStore, CommPError>(CommPError::UnsupportedOperation),
    {
        Err(CommPError::UnsupportedOperation)
    }

    /// Loading a store from previously persisted state is deliberately
    /// unsupported.
    pub fn new_from_disk(_size: usize) -> (r: Result<MultiStore, CommPError>)
        ensures
            r == Err::<MultiStore, CommPError>(CommPError::UnsupportedOperation),
    {
        Err(CommPError::UnsupportedOperation)
    }

    /// Partial-range raw-byte reads are deliberately unsupported; only whole
    /// elements can be read.
    pub fn read_range_into(&self, _start: usize, _end: usize) -> (r: Result<(), CommPError>)
        ensures
            r == Err::<(), CommPError>(CommPError::UnsupportedOperation),
    {
        Err(CommPError::UnsupportedOperation)
    }

    /// Reads the element at an existing index into the caller's buffer.
    pub fn read_into(&self, index: usize, buf: &mut Vec<u8>) -> (r: Result<(), CommPError>)
        requires
            self.inv(),
        ensures
            match r {
                Ok(()) => index < self.contents().len() && final(buf)@ == self.contents()[index as int],
                Err(e) => e == CommPError::Storage && index >= self.contents().len() && final(buf)@
                    == old(buf)@,
            },
    {
        if index < self.base.len() {
            let el = copy_bytes(&self.base[index]);
            *buf = el;
            Ok(())
        } else if index - self.base.len() < self.overflow.len() {
            let el = copy_bytes(&self.overflow[index - self.base.len()]);
            *buf = el;
            Ok(())
        } else {
            Err(CommPError::Storage)
        }
    }

    /// This store never starts from persisted state.
    pub fn loaded_from_disk(&self) -> (r: bool)
        ensures
            r == false,
    {
        false
    }
}

impl IndexedStore for MultiStore {
    open spec fn contents(&self) -> Seq<Seq<u8>> {
        self.base.deep_view() + self.overflow.deep_view()
    }

    open spec fn inv(&self) -> bool {
        &&& self.base@.len() <= self.threshold
        &&& self.overflow@.len() > 0 ==> self.base@.len() == self.threshold
        &&& self.base@.len() + self.overflow@.len() <= usize::MAX
    }

    fn push(&mut self, el: Vec<u8>) {
        if self.base.len() < self.threshold {
            self.base.push(el);
        } else {
            self.overflow.push(el);
        }
        proof {
            assert(self.contents() =~~= old(self).contents().push(el@));
        }
    }

    fn read_at(&self, i: usize) -> (r: Vec<u8>) {
        if i < self.base.len() {
            copy_bytes(&self.base[i])
        } else {
            copy_bytes(&self.overflow[i - self.base.len()])
        }
    }

    fn len(&self) -> (n: usize) {
        self.base.len() + self.overflow.len()
    }
}

} // verus!
