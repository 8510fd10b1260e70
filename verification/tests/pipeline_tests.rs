use sha2::Digest;

use commp::{
    compute_commp, generate_commp_filecoin_proofs, generate_commp_storage_proofs,
    generate_commp_storage_proofs_mem, CommPError, MemStore, MultiStore,
};

/// The piece hash, computed independently: SHA-256 of the concatenation with
/// the two highest bits of the last byte cleared.
fn hash_pair(l: &[u8], r: &[u8]) -> [u8; 32] {
    let mut cat: Vec<u8> = Vec::new();
    cat.extend_from_slice(l);
    cat.extend_from_slice(r);
    let out = sha2::Sha256::digest(&cat);
    let mut d = [0u8; 32];
    d.copy_from_slice(out.as_slice());
    d[31] &= 0x3f;
    d
}

fn patterned(n: usize) -> Vec<u8> {
    let mut data: Vec<u8> = Vec::new();
    let mut i: usize = 0;
    while data.len() < n {
        data.push((i * 37 % 251) as u8);
        i += 1;
    }
    data
}

#[test]
fn zero_bytes_four_leaf_root() {
    // 65 zero bytes pad to 127 and stuff to 128: four all-zero leaves
    let c = generate_commp_storage_proofs_mem(vec![0u8; 65], 65).unwrap();
    assert_eq!(c.padded_size, 127);
    assert_eq!(c.piece_size, 128);
    let z = [0u8; 32];
    let mid = hash_pair(&z, &z);
    assert_eq!(c.bytes, hash_pair(&mid, &mid));
}

#[test]
fn ones_input_known_leaves() {
    // 127 bytes of ones stuff into four windows of 31 full bytes and a 0x3f
    let c = generate_commp_storage_proofs_mem(vec![0xffu8; 127], 127).unwrap();
    assert_eq!(c.padded_size, 127);
    assert_eq!(c.piece_size, 128);
    let mut leaf = [0xffu8; 32];
    leaf[31] = 0x3f;
    let mid = hash_pair(&leaf, &leaf);
    assert_eq!(c.bytes, hash_pair(&mid, &mid));
}

#[test]
fn two_leaf_piece() {
    let c = generate_commp_storage_proofs_mem(vec![0u8; 33], 33).unwrap();
    assert_eq!(c.padded_size, 64);
    assert_eq!(c.piece_size, 64);
    let z = [0u8; 32];
    assert_eq!(c.bytes, hash_pair(&z, &z));
}

#[test]
fn deterministic_across_runs_and_routes() {
    let data = patterned(200);
    let a = generate_commp_storage_proofs_mem(data.clone(), 200).unwrap();
    let b = generate_commp_storage_proofs_mem(data.clone(), 200).unwrap();
    let c = generate_commp_storage_proofs(data.clone(), 200).unwrap();
    let d = generate_commp_filecoin_proofs(data, 200).unwrap();
    assert_eq!(a.padded_size, 254);
    assert_eq!(a.piece_size, 256);
    assert_eq!(a.bytes, b.bytes);
    assert_eq!(a.bytes, c.bytes);
    assert_eq!(a.bytes, d.bytes);
    assert_eq!(a.padded_size, c.padded_size);
    assert_eq!(a.piece_size, c.piece_size);
}

#[test]
fn store_choice_never_changes_the_root() {
    // thresholds that put the split at the leaves, mid-tree, and nowhere
    let data = patterned(300);
    let mut mem = MemStore::new();
    let a = compute_commp(data.clone(), 300, &mut mem).unwrap();
    let mut hybrid = MultiStore::with_threshold(5);
    let b = compute_commp(data.clone(), 300, &mut hybrid).unwrap();
    let mut all_overflow = MultiStore::with_threshold(0);
    let c = compute_commp(data.clone(), 300, &mut all_overflow).unwrap();
    let mut all_base = MultiStore::with_threshold(1000);
    let d = compute_commp(data, 300, &mut all_base).unwrap();
    assert_eq!(a.bytes, b.bytes);
    assert_eq!(a.bytes, c.bytes);
    assert_eq!(a.bytes, d.bytes);
}

#[test]
fn avalanche_single_byte_flip_changes_root() {
    let mut base: Vec<u8> = Vec::new();
    let mut i: usize = 0;
    while i < 65 {
        base.push(i as u8);
        i += 1;
    }
    let r0 = generate_commp_storage_proofs_mem(base.clone(), 65).unwrap().bytes;
    let mut k: usize = 0;
    while k < 65 {
        let mut flipped = base.clone();
        flipped[k] ^= 0x01;
        let r = generate_commp_storage_proofs_mem(flipped, 65).unwrap().bytes;
        assert_ne!(r, r0);
        k += 1;
    }
}

/// Bit stuffing written the other way round: walk the input bits in order and
/// append two zero bits after every 254th, then pack.
fn stuff_sequentially(padded: &[u8]) -> Vec<u8> {
    let mut bits: Vec<bool> = Vec::new();
    let mut count: usize = 0;
    for byte in padded {
        for t in 0..8 {
            bits.push((byte >> t) & 1 == 1);
            count += 1;
            if count % 254 == 0 {
                bits.push(false);
                bits.push(false);
            }
        }
    }
    let mut out = vec![0u8; (bits.len() + 7) / 8];
    for (i, b) in bits.iter().enumerate() {
        if *b {
            out[i / 8] |= 1 << (i % 8);
        }
    }
    out
}

fn fold_root(leaves: &[Vec<u8>]) -> Vec<u8> {
    if leaves.len() == 1 {
        return leaves[0].clone();
    }
    let mut next: Vec<Vec<u8>> = Vec::new();
    let mut i = 0;
    while i < leaves.len() {
        next.push(hash_pair(&leaves[i], &leaves[i + 1]).to_vec());
        i += 2;
    }
    fold_root(&next)
}

#[test]
fn root_matches_sequential_stuffing_reference() {
    // 254 declared bytes pad to 254 and stuff to 256: eight leaves
    let data = patterned(254);
    let c = generate_commp_storage_proofs_mem(data.clone(), 254).unwrap();
    assert_eq!(c.padded_size, 254);
    assert_eq!(c.piece_size, 256);
    let stuffed = stuff_sequentially(&data);
    assert_eq!(stuffed.len(), 256);
    let leaves: Vec<Vec<u8>> = stuffed.chunks(32).map(|w| w.to_vec()).collect();
    let expected = fold_root(&leaves);
    assert_eq!(c.bytes.as_slice(), expected.as_slice());
}

#[test]
fn zero_length_input_is_rejected() {
    assert_eq!(
        generate_commp_storage_proofs_mem(Vec::new(), 0).unwrap_err(),
        CommPError::Size
    );
}

#[test]
fn short_input_is_rejected() {
    assert_eq!(
        generate_commp_storage_proofs_mem(vec![1u8; 10], 11).unwrap_err(),
        CommPError::ShortInput
    );
}

#[test]
fn tiny_pieces_are_rejected() {
    // up to 15 declared bytes the stuffed stream is below one element
    assert_eq!(
        generate_commp_storage_proofs_mem(vec![7u8; 1], 1).unwrap_err(),
        CommPError::Size
    );
    assert_eq!(
        generate_commp_storage_proofs_mem(vec![7u8; 15], 15).unwrap_err(),
        CommPError::Size
    );
}

#[test]
fn one_element_piece_root_is_the_leaf() {
    // declared sizes 16 through 31 stuff to exactly one element: the root is
    // that single leaf, with no hashing performed
    let data = vec![0xabu8; 16];
    let c = generate_commp_storage_proofs_mem(data.clone(), 16).unwrap();
    assert_eq!(c.padded_size, 32);
    assert_eq!(c.piece_size, 32);
    let mut expected = [0u8; 32];
    expected[..16].copy_from_slice(&data);
    assert_eq!(c.bytes, expected);

    let c2 = generate_commp_storage_proofs_mem(vec![0u8; 31], 31).unwrap();
    assert_eq!(c2.padded_size, 32);
    assert_eq!(c2.piece_size, 32);
    assert_eq!(c2.bytes, [0u8; 32]);
}

#[test]
fn extra_source_bytes_beyond_declared_size_are_ignored() {
    let mut data = vec![0u8; 65];
    let r0 = generate_commp_storage_proofs_mem(data.clone(), 65).unwrap().bytes;
    data.push(0xaa);
    data.push(0xbb);
    let r1 = generate_commp_storage_proofs_mem(data, 65).unwrap().bytes;
    assert_eq!(r0, r1);
}
