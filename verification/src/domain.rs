//! Domain elements: 32-byte values read as little-endian integers that must
//! lie strictly below the field modulus. Decoding a window enforces that
//! bound; it is the data-integrity boundary behind the bit-stuffing stage.

use vstd::prelude::*;
use vstd::arithmetic::power2::{pow2, lemma_pow2_adds, lemma2_to64};
use vstd::arithmetic::mul::lemma_mul_inequality;
use crate::errors::CommPError;

verus! {

/// A byte sequence read as a little-endian unsigned integer.
pub open spec fn le_val(s: Seq<u8>) -> nat
    decreases s.len(),
{
    if s.len() == 0 {
        0
    } else {
        le_val(s.drop_last()) + (s.last() as nat) * pow2(8 * (s.len() - 1) as nat)
    }
}

/// The field modulus, little-endian: the order of the scalar field of
/// BLS12-381, `0x73eda753299d7d483339d80809a1d80553bda402fffe5bfeffffffff00000001`.
pub open spec fn spec_fr_modulus() -> Seq<u8> {
    seq![
        0x01u8, 0x00u8, 0x00u8, 0x00u8, 0xffu8, 0xffu8, 0xffu8, 0xffu8,
        0xfeu8, 0x5bu8, 0xfeu8, 0xffu8, 0x02u8, 0xa4u8, 0xbdu8, 0x53u8,
        0x05u8, 0xd8u8, 0xa1u8, 0x09u8, 0x08u8, 0xd8u8, 0x39u8, 0x33u8,
        0x48u8, 0x7du8, 0x9du8, 0x29u8, 0x53u8, 0xa7u8, 0xedu8, 0x73u8,
    ]
}

/// A 32-byte string that, read little-endian, lies strictly below the field
/// modulus: what a domain element holds.
pub open spec fn valid_element(s: Seq<u8>) -> bool {
    &&& s.len() == 32
    &&& le_val(s) < le_val(spec_fr_modulus())
}

/// A little-endian value is bounded by one past its highest byte position.
pub proof fn lemma_le_val_bound(s: Seq<u8>)
    ensures
        le_val(s) < pow2(8 * s.len()),
    decreases s.len(),
{
    lemma2_to64();
    if s.len() == 0 {
    } else {
        let l = s.len();
        let p = pow2((8 * (l - 1)) as nat);
        lemma_le_val_bound(s.drop_last());
        lemma_mul_inequality(s.last() as int, 255, p as int);
        lemma_pow2_adds((8 * (l - 1)) as nat, 8);
        assert(pow2((8 * (l - 1)) as nat) * pow2(8) == pow2((8 * l) as nat));
    }
}

/// Little-endian comparison is decided by the highest differing byte.
pub proof fn lemma_le_val_lt(a: Seq<u8>, b: Seq<u8>, i: int)
    requires
        a.len() == b.len(),
        0 <= i < a.len(),
        a[i] < b[i],
        forall|j: int| i < j < a.len() ==> a[j] == b[j],
    ensures
        le_val(a) < le_val(b),
    decreases a.len(),
{
    let l = a.len();
    let p = pow2((8 * (l - 1)) as nat);
    if i == l - 1 {
        lemma_le_val_bound(a.drop_last());
        lemma_mul_inequality(a.last() as int + 1, b.last() as int, p as int);
        assert((a.last() as nat + 1) * p == (a.last() as nat) * p + p) by (nonlinear_arith);
        assert(le_val(a) < (a.last() as nat + 1) * p);
        assert((a.last() as nat + 1) * p <= (b.last() as nat) * p);
    } else {
        assert(a.last() == b.last());
        assert(forall|j: int| i < j < l - 1 ==> a.drop_last()[j] == b.drop_last()[j]);
        lemma_le_val_lt(a.drop_last(), b.drop_last(), i);
    }
}

/// A 32-byte window whose top byte has its two highest bits clear lies below
/// the field modulus; the bit-stuffing stage produces only such windows.
pub proof fn lemma_top_byte_small_implies_valid(s: Seq<u8>)
    requires
        s.len() == 32,
        s[31] <= 0x3f,
    ensures
        valid_element(s),
{
    assert(spec_fr_modulus()[31] == 0x73u8);
    assert(spec_fr_modulus().len() == 32);
    lemma_le_val_lt(s, spec_fr_modulus(), 31);
}

/// The field modulus as bytes.
pub fn fr_modulus() -> (v: Vec<u8>)
    ensures
        v@ == spec_fr_modulus(),
{
    let mut v: Vec<u8> = Vec::new();
    v.push(0x01);
    v.push(0x00);
    v.push(0x00);
    v.push(0x00);
    v.push(0xff);
    v.push(0xff);
    v.push(0xff);
    v.push(0xff);
    v.push(0xfe);
    v.push(0x5b);
    v.push(0xfe);
    v.push(0xff);
    v.push(0x02);
    v.push(0xa4);
    v.push(0xbd);
    v.push(0x53);
    v.push(0x05);
    v.push(0xd8);
    v.push(0xa1);
    v.push(0x09);
    v.push(0x08);
    v.push(0xd8);
    v.push(0x39);
    v.push(0x33);
    v.push(0x48);
    v.push(0x7d);
    v.push(0x9d);
    v.push(0x29);
    v.push(0x53);
    v.push(0xa7);
    v.push(0xed);
    v.push(0x73);
    proof {
        assert(v@ =~= spec_fr_modulus());
    }
    v
}

/// Compares two equally long byte strings as little-endian integers.
pub fn lt_le_bytes(a: &Vec<u8>, b: &Vec<u8>) -> (r: bool)
    requires
        a@.len() == b@.len(),
    ensures
        r == (le_val(a@) < le_val(b@)),
{
    let mut i = a.len();
    while i > 0
        invariant
            i <= a@.len(),
            a@.len() == b@.len(),
            forall|j: int| i <= j < a@.len() ==> a@[j] == b@[j],
        decreases i,
    {
        i = i - 1;
        if a[i] < b[i] {
            proof {
                lemma_le_val_lt(a@, b@, i as int);
            }
            return true;
        }
        if b[i] < a[i] {
            proof {
                lemma_le_val_lt(b@, a@, i as int);
            }
            return false;
        }
    }
    proof {
        assert(a@ =~= b@);
    }
    false
}

/// A 32-byte value strictly below the field modulus: the atomic unit the
/// Merkle tree is built over.
#[derive(Debug)]
pub struct DomainElement {
    pub bytes: Vec<u8>,
}

impl DomainElement {
    pub open spec fn wf(&self) -> bool {
        valid_element(self.bytes@)
    }

    /// Validates and decodes a 32-byte window. Fails with a decode error
    /// exactly when the window, read little-endian, reaches the modulus.
    pub fn decode(bytes: Vec<u8>) -> (r: Result<DomainElement, CommPError>)
        requires
            bytes@.len() == 32,
        ensures
            match r {
                Ok(e) => le_val(bytes@) < le_val(spec_fr_modulus()) && e.wf() && e.bytes@
                    == bytes@,
                Err(err) => le_val(bytes@) >= le_val(spec_fr_modulus()) && err
                    == CommPError::Decode,
            },
    {
        let m = fr_modulus();
        if lt_le_bytes(&bytes, &m) {
            Ok(DomainElement { bytes })
        } else {
            Err(CommPError::Decode)
        }
    }
}

} // verus!
