//! The commitment pipeline: classify the declared size, zero-pad, bit-stuff,
//! decode leaves, and build the Merkle tree over a chosen store. The result
//! is a function of the input bytes and declared length alone; the store
//! choice only affects resource usage, never the commitment.

use vstd::prelude::*;
use vstd::arithmetic::power2::{pow2, lemma2_to64, lemma2_to64_rest};
use vstd::arithmetic::div_mod::{lemma_fundamental_div_mod, lemma_fundamental_div_mod_converse};
use crate::domain::{lemma_top_byte_small_implies_valid, valid_element};
use crate::errors::CommPError;
use crate::leafdec::{leaf_windows, LeafDecoder};
use crate::merkle::{merkle_from_store, merkle_root_spec};
use crate::padreader::{padded, spec_padded_stream};
use crate::size::{
    bit_len, lemma_padded_size_at_bound, lemma_padded_size_covers, lemma_padded_size_monotonic,
    lemma_piece_len_pow2, lemma_pow2_parts, padded_size, spec_padded_size, spec_piece_len,
    MAX_DECLARED_SIZE,
};
use crate::store::{IndexedStore, MemStore, MultiStore};
use crate::stuffreader::{lemma_stuffed_window_top, stuffed_byte, stuffed_prefix, BitStuffingReader};

verus! {

/// A computed piece commitment: the padded size chosen for the input, the
/// length of its bit-stuffed stream, and the Merkle root over its elements.
#[derive(Debug)]
pub struct CommP {
    pub padded_size: u64,
    pub piece_size: u64,
    pub bytes: [u8; 32],
}

/// The bit-stuffed stream length for a declared size.
pub open spec fn spec_piece_of(size: nat) -> nat {
    spec_piece_len(spec_padded_size(size))
}

/// The full bit-stuffed stream for an input and its declared size.
pub open spec fn spec_stuffed_stream_of(data: Seq<u8>, size: nat) -> Seq<u8> {
    stuffed_prefix(spec_padded_stream(data, size), spec_piece_of(size))
}

/// The leaf elements the Merkle tree is built over.
pub open spec fn spec_leaves_of(data: Seq<u8>, size: nat) -> Seq<Seq<u8>> {
    leaf_windows(spec_stuffed_stream_of(data, size), spec_piece_of(size) / 32)
}

/// The commitment bytes for an input and its declared size.
pub open spec fn spec_commp_bytes(data: Seq<u8>, size: nat) -> Seq<u8> {
    merkle_root_spec(spec_leaves_of(data, size))
}

/// Whether a declared size is accepted: its stuffed stream must hold at least
/// one element, be element-aligned, and be indexable on this machine.
pub open spec fn spec_size_ok(size: nat) -> bool {
    &&& spec_piece_of(size) >= 32
    &&& spec_piece_of(size) % 32 == 0
    &&& 8 * spec_piece_of(size) <= usize::MAX
}

/// Whether a commitment value is the one owed for an input and declared size.
pub open spec fn commp_matches(data: Seq<u8>, size: nat, c: CommP) -> bool {
    &&& c.padded_size as nat == spec_padded_size(size)
    &&& c.piece_size as nat == spec_piece_of(size)
    &&& c.bytes@ == spec_commp_bytes(data, size)
}

/// A declared length of zero is rejected outright: its stuffed stream is
/// below one element, so the pipeline returns the size error instead of
/// inheriting the degenerate bit-length computation.
pub proof fn lemma_zero_size_rejected()
    ensures
        !spec_size_ok(0),
{
    lemma2_to64();
    assert(bit_len(0nat) == 0);
    assert(spec_padded_size(0) == 1);
    assert(spec_piece_of(0) == 1);
}

/// Determinism: any two commitments computed for the same byte content and
/// the same declared length agree in every field.
pub proof fn lemma_commp_deterministic(data: Seq<u8>, size: nat, c1: CommP, c2: CommP)
    requires
        commp_matches(data, size, c1),
        commp_matches(data, size, c2),
    ensures
        c1.padded_size == c2.padded_size,
        c1.piece_size == c2.piece_size,
        c1.bytes@ == c2.bytes@,
{
}

/// Store equivalence: two stores holding the same leaf sequence yield the
/// same Merkle root, whatever their backing; the Merkle builder's contract
/// fixes the root as a function of the contents alone.
pub proof fn lemma_store_equivalence<S1: IndexedStore, S2: IndexedStore>(
    s1: S1,
    s2: S2,
    r1: Seq<u8>,
    r2: Seq<u8>,
)
    requires
        s1.contents() == s2.contents(),
        r1 == merkle_root_spec(s1.contents()),
        r2 == merkle_root_spec(s2.contents()),
    ensures
        r1 == r2,
{
}

/// Copies the 32 bytes of a vector into a fixed array.
fn to_array32(v: &Vec<u8>) -> (a: [u8; 32])
    requires
        v@.len() == 32,
    ensures
        a@ == v@,
{
    let a: [u8; 32] = [v[0], v[1], v[2], v[3], v[4], v[5], v[6], v[7], v[8], v[9], v[10], v[11],
        v[12], v[13], v[14], v[15], v[16], v[17], v[18], v[19], v[20], v[21], v[22], v[23], v[24],
        v[25], v[26], v[27], v[28], v[29], v[30], v[31]];
    proof {
        assert(a@ =~= v@);
    }
    a
}

/// Streams every leaf of the decoder into the store, in order. Leaf `i` is
/// decoded and written before leaf `i + 1`; the first error would abort the
/// construction, and none can occur over a stuffed stream.
pub fn fill_leaves<S: IndexedStore>(dec: &mut LeafDecoder, store: &mut S) -> (r: Result<
    (),
    CommPError,
>)
    requires
        old(dec).wf(),
        old(dec).consumed == 0,
        old(store).inv(),
        old(store).contents().len() == 0,
        old(dec).parts < usize::MAX,
    ensures
        final(store).inv(),
        final(dec).wf(),
        match r {
            Ok(()) => final(store).contents() == old(dec).leaves(),
            Err(_) => false,
        },
{
    let parts = dec.parts;
    let mut k: usize = 0;
    while k < parts
        invariant
            dec.wf(),
            dec.parts == parts,
            dec.consumed == k,
            k <= parts,
            parts < usize::MAX,
            dec.leaves() == old(dec).leaves(),
            store.inv(),
            store.contents() == old(dec).leaves().take(k as int),
        decreases parts - k,
    {
        let e = match dec.next_leaf() {
            Ok(e) => e,
            Err(err) => {
                return Err(err);
            },
        };
        store.push(e.bytes);
        proof {
            assert(store.contents() =~= old(dec).leaves().take(k + 1));
        }
        k = k + 1;
    }
    proof {
        assert(old(dec).leaves().take(parts as int) =~= old(dec).leaves());
    }
    Ok(())
}

/// Runs the whole pipeline over the given store: decides the padded and piece
/// sizes for the declared length, streams the zero-padded, bit-stuffed input
/// into leaves, and returns the Merkle root with both sizes.
///
/// A source holding fewer bytes than the declared length is a short-input
/// error. A declared length of zero, or one whose stuffed stream would be
/// smaller than one element, not element-aligned or not indexable, is a size
/// error. A stream of exactly one element is valid: its root is that leaf.
pub fn compute_commp<S: IndexedStore>(inp: Vec<u8>, size: u64, store: &mut S) -> (r: Result<
    CommP,
    CommPError,
>)
    requires
        old(store).inv(),
        old(store).contents().len() == 0,
    ensures
        final(store).inv(),
        match r {
            Ok(c) => size <= inp@.len() && spec_size_ok(size as nat) && commp_matches(
                inp@,
                size as nat,
                c,
            ) && valid_element(c.bytes@),
            Err(e) => {
                ||| (e == CommPError::ShortInput && inp@.len() < size)
                ||| (e == CommPError::Size && size <= inp@.len() && !spec_size_ok(size as nat))
            },
        },
{
    if size > inp.len() as u64 {
        return Err(CommPError::ShortInput);
    }
    proof {
        lemma2_to64();
        lemma2_to64_rest();
    }
    if size == 0 {
        proof {
            assert(bit_len(0nat) == 0);
            assert(spec_padded_size(0) == 1);
            assert(spec_piece_of(0) == 1);
        }
        return Err(CommPError::Size);
    }
    if size > MAX_DECLARED_SIZE {
        proof {
            // the stuffed stream would outgrow what any machine can index
            lemma_padded_size_covers(size as nat);
            assert(spec_piece_of(size as nat) >= spec_padded_size(size as nat));
            assert(8 * spec_piece_of(size as nat) > usize::MAX);
        }
        return Err(CommPError::Size);
    }
    let padsz = padded_size(size);
    proof {
        // the padded size never exceeds the capacity of the largest sector
        lemma_padded_size_monotonic(size as nat, MAX_DECLARED_SIZE as nat);
        lemma_padded_size_at_bound(56);
        assert(127 * pow2(56) == MAX_DECLARED_SIZE as nat);
    }
    let piece = padsz + padsz / 127;
    assert(piece as nat == spec_piece_of(size as nat));
    if piece < 32 || piece % 32 != 0 {
        return Err(CommPError::Size);
    }
    if piece > (usize::MAX / 8) as u64 {
        proof {
            lemma_fundamental_div_mod(usize::MAX as int, 8);
        }
        return Err(CommPError::Size);
    }
    proof {
        lemma_fundamental_div_mod(usize::MAX as int, 8);
        assert(spec_size_ok(size as nat));
    }
    let ghost data = inp@;
    let reader = BitStuffingReader::new(padded(inp, size));
    let mut dec = LeafDecoder::new(reader);
    proof {
        assert(dec.leaves() == spec_leaves_of(data, size as nat));
    }
    match fill_leaves(&mut dec, store) {
        Ok(()) => {},
        Err(e) => {
            return Err(e);
        },
    }
    proof {
        // the stuffed stream splits into a power of two of 32-byte windows,
        // each of which is a valid domain element
        lemma_piece_len_pow2(size as nat);
        lemma_pow2_parts(spec_piece_of(size as nat));
        let stream = spec_stuffed_stream_of(data, size as nat);
        let padded_stream = spec_padded_stream(data, size as nat);
        assert forall|k: int|
            0 <= k < store.contents().len() implies valid_element(
            #[trigger] store.contents()[k],
        ) by {
            let w = store.contents()[k];
            assert(w == stream.subrange(32 * k, 32 * k + 32));
            lemma_fundamental_div_mod_converse(32 * k + 31, 32, k, 31);
            lemma_stuffed_window_top(padded_stream, (32 * k + 31) as nat);
            assert(w[31] == stuffed_byte(padded_stream, (32 * k + 31) as nat));
            lemma_top_byte_small_implies_valid(w);
        }
    }
    let root = merkle_from_store(store);
    let bytes = to_array32(&root);
    Ok(CommP { padded_size: padsz, piece_size: piece, bytes })
}

/// Computes the commitment entirely in memory.
pub fn generate_commp_storage_proofs_mem(inp: Vec<u8>, size: u64) -> (r: Result<
    CommP,
    CommPError,
>)
    ensures
        match r {
            Ok(c) => size <= inp@.len() && spec_size_ok(size as nat) && commp_matches(
                inp@,
                size as nat,
                c,
            ) && valid_element(c.bytes@),
            Err(e) => {
                ||| (e == CommPError::ShortInput && inp@.len() < size)
                ||| (e == CommPError::Size && size <= inp@.len() && !spec_size_ok(size as nat))
            },
        },
{
    let mut store = MemStore::new();
    compute_commp(inp, size, &mut store)
}

/// Computes the commitment over the hybrid store, bounding how much any one
/// region holds. The result is identical to the in-memory route.
pub fn generate_commp_storage_proofs(inp: Vec<u8>, size: u64) -> (r: Result<CommP, CommPError>)
    ensures
        match r {
            Ok(c) => size <= inp@.len() && spec_size_ok(size as nat) && commp_matches(
                inp@,
                size as nat,
                c,
            ) && valid_element(c.bytes@),
            Err(e) => {
                ||| (e == CommPError::ShortInput && inp@.len() < size)
                ||| (e == CommPError::Size && size <= inp@.len() && !spec_size_ok(size as nat))
            },
        },
{
    let mut store = MultiStore::new();
    compute_commp(inp, size, &mut store)
}

/// Computes the commitment entirely in memory, exactly as
/// [`generate_commp_storage_proofs_mem`] does; callers select a route by name.
pub fn generate_commp_filecoin_proofs(inp: Vec<u8>, size: u64) -> (r: Result<CommP, CommPError>)
    ensures
        match r {
            Ok(c) => size <= inp@.len() && spec_size_ok(size as nat) && commp_matches(
                inp@,
                size as nat,
                c,
            ) && valid_element(c.bytes@),
            Err(e) => {
                ||| (e == CommPError::ShortInput && inp@.len() < size)
                ||| (e == CommPError::Size && size <= inp@.len() && !spec_size_ok(size as nat))
            },
        },
{
    let mut store = MemStore::new();
    compute_commp(inp, size, &mut store)
}

} // verus!
