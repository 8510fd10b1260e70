//! Merkle construction: pairs of nodes are combined, in original order and
//! level by level, over an indexed store, until one root remains. The combine
//! function is the piece hash: a SHA-256 digest with the two highest bits of
//! the little-endian value cleared, so every node stays a domain element.

use vstd::prelude::*;
use vstd::arithmetic::power2::{pow2, lemma_pow2_pos, lemma_pow2_unfold, lemma2_to64};
use sha2::Digest;
use crate::domain::{lemma_top_byte_small_implies_valid, valid_element};
use crate::size::is_pow2;
use crate::store::IndexedStore;

verus! {

/// What SHA-256 returns for a byte string; a function of the bytes alone.
pub uninterp spec fn sha256_of(bytes: Seq<u8>) -> Seq<u8>;

/// Relies on sha2::Sha256 through the Digest trait: the 32-byte SHA-256
/// digest of the input bytes, a function of those bytes alone.
#[verifier::external_body]
fn sha256_digest(input: &Vec<u8>) -> (r: Vec<u8>)
    ensures
        r@ == sha256_of(input@),
        r@.len() == 32,
{
    sha2::Sha256::digest(input.as_slice()).to_vec()
}

/// Combining two nodes: the digest of their concatenation, with the two
/// highest bits of byte 31 cleared so the result is again below the modulus.
pub open spec fn spec_combine(l: Seq<u8>, r: Seq<u8>) -> Seq<u8> {
    let d = sha256_of(l + r);
    d.update(31, d[31] & 0x3f)
}

/// One level up the tree: adjacent pairs combined in left-to-right order.
pub open spec fn combine_level(level: Seq<Seq<u8>>) -> Seq<Seq<u8>> {
    Seq::new(level.len() / 2, |i: int| spec_combine(level[2 * i], level[2 * i + 1]))
}

/// The Merkle root of a level: repeated pairwise combination down to one
/// node; a single leaf is its own root, with no hashing performed.
pub open spec fn merkle_root_spec(level: Seq<Seq<u8>>) -> Seq<u8>
    decreases level.len(),
{
    if level.len() <= 1 {
        if level.len() == 1 {
            level[0]
        } else {
            Seq::empty()
        }
    } else {
        merkle_root_spec(combine_level(level))
    }
}

/// A power of two above one is even, and half of it is again a power of two.
proof fn lemma_pow2_halves(w: nat)
    requires
        is_pow2(w),
        w > 1,
    ensures
        w % 2 == 0,
        w / 2 >= 1,
        is_pow2(w / 2),
{
    lemma2_to64();
    let k = choose|k: nat| w == pow2(k);
    assert(k >= 1);
    lemma_pow2_unfold(k);
    lemma_pow2_pos((k - 1) as nat);
    assert(w == 2 * pow2((k - 1) as nat));
}

/// Combines two nodes with the piece hash. The cleared top bits keep the
/// result a valid domain element.
pub fn combine(l: &Vec<u8>, r: &Vec<u8>) -> (res: Vec<u8>)
    ensures
        res@ == spec_combine(l@, r@),
        valid_element(res@),
        res@.len() == 32,
{
    let mut cat: Vec<u8> = Vec::new();
    let mut i: usize = 0;
    while i < l.len()
        invariant
            i <= l@.len(),
            cat@ == l@.take(i as int),
        decreases l@.len() - i,
    {
        cat.push(l[i]);
        proof {
            assert(cat@ =~= l@.take(i + 1));
        }
        i = i + 1;
    }
    proof {
        assert(l@.take(l@.len() as int) =~= l@);
    }
    let mut j: usize = 0;
    while j < r.len()
        invariant
            j <= r@.len(),
            cat@ == l@ + r@.take(j as int),
        decreases r@.len() - j,
    {
        cat.push(r[j]);
        proof {
            assert(cat@ =~= l@ + r@.take(j + 1));
        }
        j = j + 1;
    }
    proof {
        assert(l@ + r@.take(r@.len() as int) =~= l@ + r@);
    }
    let mut d = sha256_digest(&cat);
    let m = d[31] & 0x3f;
    proof {
        let x = d@[31];
        assert(x & 0x3f <= 0x3f) by (bit_vector);
    }
    d.set(31, m);
    proof {
        assert(d@ =~= spec_combine(l@, r@));
        lemma_top_byte_small_implies_valid(d@);
    }
    d
}

/// Builds the Merkle tree bottom-up over the elements already in the store,
/// appending each level after the last, and returns the root. The store's
/// choice of backing never influences the root: it is determined by the
/// leaf sequence alone.
pub fn merkle_from_store<S: IndexedStore>(store: &mut S) -> (root: Vec<u8>)
    requires
        old(store).inv(),
        old(store).contents().len() >= 1,
        is_pow2(old(store).contents().len()),
        2 * old(store).contents().len() - 1 <= usize::MAX,
        forall|k: int|
            0 <= k < old(store).contents().len() ==> valid_element(
                #[trigger] old(store).contents()[k],
            ),
    ensures
        final(store).inv(),
        root@ == merkle_root_spec(old(store).contents()),
        valid_element(root@),
{
    let parts = store.len();
    let ghost leaves = store.contents();
    let mut width: usize = parts;
    let mut start: usize = 0;
    let ghost mut lvl: Seq<Seq<u8>> = leaves;
    while width > 1
        invariant
            store.inv(),
            width >= 1,
            is_pow2(width as nat),
            leaves.len() >= 1,
            store.contents().len() == start + width,
            start + 2 * width <= 2 * leaves.len(),
            2 * leaves.len() - 1 <= usize::MAX,
            lvl == store.contents().subrange(start as int, start + width),
            lvl.len() == width,
            merkle_root_spec(lvl) == merkle_root_spec(leaves),
            forall|k: int|
                0 <= k < store.contents().len() ==> valid_element(
                    #[trigger] store.contents()[k],
                ),
        decreases width,
    {
        proof {
            lemma_pow2_halves(width as nat);
        }
        let half = width / 2;
        let ghost base = store.contents();
        let mut i: usize = 0;
        while i < half
            invariant
                store.inv(),
                i <= half,
                2 * half == width,
                base.len() == start + width,
                start + 2 * width <= 2 * leaves.len(),
                2 * leaves.len() - 1 <= usize::MAX,
                lvl == base.subrange(start as int, start + width),
                lvl.len() == width,
                store.contents() == base + combine_level(lvl).take(i as int),
                forall|k: int|
                    0 <= k < store.contents().len() ==> valid_element(
                        #[trigger] store.contents()[k],
                    ),
            decreases half - i,
        {
            let l = store.read_at(start + 2 * i);
            let r = store.read_at(start + 2 * i + 1);
            proof {
                assert(base[start + 2 * i] == lvl[2 * i]);
                assert(base[start + 2 * i + 1] == lvl[2 * i + 1]);
            }
            let c = combine(&l, &r);
            store.push(c);
            proof {
                assert(c@ == combine_level(lvl)[i as int]);
                assert(store.contents() =~= base + combine_level(lvl).take(i + 1));
            }
            i = i + 1;
        }
        proof {
            assert(combine_level(lvl).take(half as int) =~= combine_level(lvl));
            assert(store.contents().subrange(
                start + width,
                start + width + half,
            ) =~= combine_level(lvl));
            assert(merkle_root_spec(combine_level(lvl)) == merkle_root_spec(lvl));
            lvl = combine_level(lvl);
        }
        start = start + width;
        width = half;
    }
    let root = store.read_at(start);
    proof {
        assert(root@ == lvl[0]);
    }
    root
}

} // verus!
