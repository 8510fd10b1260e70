//! Size classification: maps a declared input length to the canonical padded
//! size (the unpadded capacity of the smallest sector that can hold it), and
//! to the length of the bit-stuffed stream derived from it.

use vstd::prelude::*;
use vstd::arithmetic::power2::{
    pow2, lemma_pow2_adds, lemma_pow2_pos, lemma_pow2_strictly_increases, lemma_pow2_unfold,
    lemma2_to64, lemma2_to64_rest,
};
use vstd::arithmetic::div_mod::{
    lemma_div_is_ordered, lemma_div_multiples_vanish, lemma_fundamental_div_mod,
};

verus! {

/// Largest declared size the classifier accepts: the unpadded capacity
/// (`2^63 - 2^56` bytes) of the largest sector size representable in a `u64`.
pub const MAX_DECLARED_SIZE: u64 = 0x7F00_0000_0000_0000;

/// Number of binary digits of `n`: 0 for 0, otherwise one more than the
/// position of the highest set bit.
pub open spec fn bit_len(n: nat) -> nat
    decreases n,
{
    if n == 0 {
        0
    } else {
        1 + bit_len(n / 2)
    }
}

/// The sector size chosen for a declared size: the smallest power of two
/// strictly greater than it.
pub open spec fn spec_sector_size(size: nat) -> nat {
    pow2(bit_len(size))
}

/// Unpadded capacity of a sector: what remains once one byte in every 128 is
/// set aside for the two zero bits stuffed after each 254 data bits.
pub open spec fn spec_unpadded(sect: nat) -> nat {
    (sect - sect / 128) as nat
}

/// Canonical padded size for a declared input length: the capacity of the
/// chosen sector, or of the next one up if the input does not fit.
pub open spec fn spec_padded_size(size: nat) -> nat {
    let bound = spec_unpadded(spec_sector_size(size));
    if size <= bound {
        bound
    } else {
        spec_unpadded(2 * spec_sector_size(size))
    }
}

/// Length of the bit-stuffed stream obtained from a zero-padded input of
/// `padded` bytes: one extra byte for every 127 input bytes.
pub open spec fn spec_piece_len(padded: nat) -> nat {
    padded + padded / 127
}

pub open spec fn is_pow2(n: nat) -> bool {
    exists|k: nat| n == pow2(k)
}

/// `pow2` is monotone.
pub proof fn lemma_pow2_le(e1: nat, e2: nat)
    requires
        e1 <= e2,
    ensures
        pow2(e1) <= pow2(e2),
{
    if e1 < e2 {
        lemma_pow2_strictly_increases(e1, e2);
    }
}

/// A value of bit length `b` lies between `2^(b-1)` and `2^b`.
pub proof fn lemma_bit_len_bounds(n: nat)
    requires
        n >= 1,
    ensures
        pow2((bit_len(n) - 1) as nat) <= n < pow2(bit_len(n)),
    decreases n,
{
    lemma2_to64();
    if n == 1 {
        assert(bit_len(0nat) == 0);
        assert(bit_len(1nat) == 1);
    } else {
        lemma_bit_len_bounds(n / 2);
        let b = bit_len(n / 2);
        assert(bit_len(n) == b + 1);
        lemma_fundamental_div_mod(n as int, 2);
        lemma_pow2_unfold(b);
        if b >= 1 {
            lemma_pow2_unfold((b) as nat);
        }
        // n >= 2 * (n / 2) >= 2 * pow2(b - 1) == pow2(b)
        // n <= 2 * (n / 2) + 1 <= 2 * pow2(b) - 1 < pow2(b + 1)
        lemma_pow2_adds(b, 1);
    }
}

/// The bit length is the unique `k` with `2^(k-1) <= n < 2^k`.
pub proof fn lemma_bit_len_of_range(n: nat, k: nat)
    requires
        k >= 1,
        pow2((k - 1) as nat) <= n,
        n < pow2(k),
    ensures
        bit_len(n) == k,
{
    lemma_pow2_pos((k - 1) as nat);
    lemma_bit_len_bounds(n);
    let b = bit_len(n);
    if b < k {
        lemma_pow2_le(b, (k - 1) as nat);
        assert(n < pow2(b));
    }
    if b > k {
        lemma_pow2_le(k, (b - 1) as nat);
        assert(pow2((b - 1) as nat) <= n);
    }
}

/// Bit length is monotone.
pub proof fn lemma_bit_len_mono(a: nat, b: nat)
    requires
        a <= b,
    ensures
        bit_len(a) <= bit_len(b),
{
    if a >= 1 {
        lemma_bit_len_bounds(a);
        lemma_bit_len_bounds(b);
        if bit_len(a) > bit_len(b) {
            lemma_pow2_le(bit_len(b), (bit_len(a) - 1) as nat);
            assert(pow2((bit_len(a) - 1) as nat) <= a);
            assert(b < pow2(bit_len(b)));
        }
    }
}

/// Unpadded capacity is monotone in the sector size.
pub proof fn lemma_unpadded_mono(a: nat, b: nat)
    requires
        a <= b,
    ensures
        spec_unpadded(a) <= spec_unpadded(b),
{
    lemma_fundamental_div_mod(a as int, 128);
    lemma_fundamental_div_mod(b as int, 128);
    lemma_div_is_ordered(a as int, b as int, 128);
    let qa = a as int / 128;
    let qb = b as int / 128;
    if qa == qb {
        assert(a - qa <= b - qb);
    } else {
        // qb >= qa + 1, and a - qa <= 127 * qa + 127 <= 127 * qb <= b - qb
        assert(a - qa == 127 * qa + (a as int % 128));
        assert(b - qb == 127 * qb + (b as int % 128));
    }
}

/// Unpadded capacity of a power-of-two sector, in closed form.
pub proof fn lemma_unpadded_pow2(e: nat)
    ensures
        e >= 7 ==> spec_unpadded(pow2(e)) == 127 * pow2((e - 7) as nat),
        e < 7 ==> spec_unpadded(pow2(e)) == pow2(e),
{
    lemma2_to64();
    if e >= 7 {
        lemma_pow2_adds((e - 7) as nat, 7);
        assert(pow2(e) == pow2((e - 7) as nat) * 128);
        lemma_div_multiples_vanish(pow2((e - 7) as nat) as int, 128);
        assert(pow2(e) / 128 == pow2((e - 7) as nat));
    } else {
        lemma_pow2_le(e, 6);
        assert(pow2(e) <= 64);
        assert(pow2(e) / 128 == 0);
    }
}

/// The bit-stuffed length of a padded size produced by the classifier is the
/// corresponding sector size (or the one above), hence a power of two.
pub proof fn lemma_piece_len_pow2(size: nat)
    requires
        size >= 1,
    ensures
        size <= spec_unpadded(spec_sector_size(size)) ==> spec_piece_len(spec_padded_size(size))
            == spec_sector_size(size),
        size > spec_unpadded(spec_sector_size(size)) ==> spec_piece_len(spec_padded_size(size))
            == 2 * spec_sector_size(size),
        is_pow2(spec_piece_len(spec_padded_size(size))),
{
    lemma2_to64();
    let l = bit_len(size);
    let sect = spec_sector_size(size);
    lemma_bit_len_bounds(size);
    assert(l >= 1);
    lemma_unpadded_pow2(l);
    lemma_pow2_adds(l, 1);
    assert(2 * sect == pow2(l + 1));
    lemma_unpadded_pow2(l + 1);
    if size <= spec_unpadded(sect) {
        lemma_piece_of_unpadded(l);
        assert(spec_piece_len(spec_padded_size(size)) == pow2(l));
    } else {
        // a sector below 128 bytes keeps its full capacity, so the input,
        // being strictly below the sector size, always fits there
        if l < 7 {
            assert(spec_unpadded(sect) == sect);
            assert(size < pow2(l));
        }
        assert(l >= 7);
        lemma_piece_of_unpadded(l + 1);
        assert(spec_piece_len(spec_padded_size(size)) == pow2(l + 1));
    }
}

/// Stuffing the unpadded capacity of a sector fills the sector exactly.
proof fn lemma_piece_of_unpadded(e: nat)
    ensures
        spec_piece_len(spec_unpadded(pow2(e))) == pow2(e),
{
    lemma2_to64();
    lemma_unpadded_pow2(e);
    if e >= 7 {
        let p = pow2((e - 7) as nat);
        lemma_div_multiples_vanish(p as int, 127);
        assert((127 * p) as int / 127 == (p * 127) as int / 127);
        assert(spec_piece_len(127 * p) == 127 * p + p);
        lemma_pow2_adds((e - 7) as nat, 7);
        assert(128 * p == pow2(e));
    } else {
        lemma_pow2_le(e, 6);
        assert(pow2(e) <= 64);
        assert(pow2(e) / 127 == 0);
    }
}

/// A power of two of at least 32 splits into 32-byte elements whose count is
/// again a power of two.
pub proof fn lemma_pow2_parts(n: nat)
    requires
        is_pow2(n),
        n >= 32,
        n % 32 == 0,
    ensures
        is_pow2(n / 32),
        n / 32 >= 1,
{
    lemma2_to64();
    let k = choose|k: nat| n == pow2(k);
    if k < 5 {
        lemma_pow2_le(k, 4);
        assert(n <= 16);
    }
    assert(k >= 5);
    lemma_pow2_adds((k - 5) as nat, 5);
    assert(n == pow2((k - 5) as nat) * 32);
    lemma_div_multiples_vanish(pow2((k - 5) as nat) as int, 32);
    assert(n / 32 == pow2((k - 5) as nat));
    lemma_pow2_pos((k - 5) as nat);
}

/// The padded size covers the declared size, and the stuffed stream it
/// yields is a power of two.
pub proof fn lemma_padded_size_covers(size: nat)
    requires
        size >= 1,
    ensures
        spec_padded_size(size) >= size,
        is_pow2(spec_piece_len(spec_padded_size(size))),
{
    lemma2_to64();
    lemma_piece_len_pow2(size);
    let l = bit_len(size);
    let sect = spec_sector_size(size);
    lemma_bit_len_bounds(size);
    if size > spec_unpadded(sect) {
        lemma_unpadded_pow2(l);
        lemma_pow2_adds(l, 1);
        lemma_unpadded_pow2(l + 1);
        if l < 7 {
            assert(spec_unpadded(sect) == sect);
        }
        assert(l >= 7);
        // capacity of the next sector is 254/128 of this sector, above it
        assert(spec_padded_size(size) == spec_unpadded(2 * sect));
        assert(2 * sect == pow2(l + 1));
        assert(spec_unpadded(pow2(l + 1)) == 127 * pow2(((l + 1) - 7) as nat));
        assert(((l + 1) - 7) as nat == (l - 6) as nat);
        assert(spec_padded_size(size) == 127 * pow2((l - 6) as nat));
        lemma_pow2_adds((l - 7) as nat, 1);
        lemma_pow2_unfold((l - 6) as nat);
        assert(127 * pow2((l - 6) as nat) >= 64 * (2 * pow2((l - 7) as nat)));
        lemma_pow2_adds((l - 7) as nat, 7);
        assert(128 * pow2((l - 7) as nat) == pow2(l));
        assert(size < pow2(l));
    }
}

/// Monotonicity: a larger declared size never receives a smaller padded size.
pub proof fn lemma_padded_size_monotonic(size1: nat, size2: nat)
    requires
        size1 <= size2,
    ensures
        spec_padded_size(size1) <= spec_padded_size(size2),
{
    lemma2_to64();
    let l1 = bit_len(size1);
    let l2 = bit_len(size2);
    lemma_bit_len_mono(size1, size2);
    let s1 = spec_sector_size(size1);
    let s2 = spec_sector_size(size2);
    lemma_pow2_le(l1, l2);
    if l1 == l2 {
        if size1 <= spec_unpadded(s1) && size2 > spec_unpadded(s2) {
            lemma_unpadded_mono(s1, 2 * s2);
        }
    } else {
        // the larger input's sector is at least the smaller one's next sector
        lemma_pow2_adds(l1, 1);
        lemma_pow2_le(l1 + 1, l2);
        lemma_unpadded_mono(2 * s1, s2);
        lemma_unpadded_mono(s1, 2 * s1);
        lemma_unpadded_mono(s2, 2 * s2);
    }
}

/// An input exactly at a sector's capacity is not escalated. Capacities
/// have the form `127 * 2^j`.
pub proof fn lemma_padded_size_at_bound(j: nat)
    requires
        j <= 56,
    ensures
        spec_padded_size(127 * pow2(j)) == 127 * pow2(j),
{
    lemma2_to64();
    let size: nat = 127 * pow2(j);
    lemma_pow2_pos(j);
    // 2^(j+6) <= 127 * 2^j < 2^(j+7)
    lemma_pow2_adds(j, 6);
    lemma_pow2_adds(j, 7);
    assert(pow2(j + 6) == 64 * pow2(j));
    assert(pow2(j + 7) == 128 * pow2(j));
    lemma_bit_len_of_range(size, j + 7);
    lemma_unpadded_pow2(j + 7);
}

/// An input one past a sector's capacity escalates to the next sector.
pub proof fn lemma_padded_size_above_bound(j: nat)
    requires
        j <= 55,
    ensures
        spec_padded_size(127 * pow2(j) + 1) == 127 * pow2(j + 1),
{
    lemma2_to64();
    let size: nat = 127 * pow2(j) + 1;
    lemma_pow2_pos(j);
    lemma_pow2_adds(j, 6);
    lemma_pow2_adds(j, 7);
    lemma_pow2_adds(j, 8);
    assert(pow2(j + 6) == 64 * pow2(j));
    assert(pow2(j + 7) == 128 * pow2(j));
    assert(pow2(j + 8) == 256 * pow2(j));
    if j == 0 {
        // 128 is itself a power of two, so its bit length is one higher
        assert(size == 128);
        assert(pow2(8) == 256);
        lemma_bit_len_of_range(size, 8);
        lemma_unpadded_pow2(8);
        assert(spec_unpadded(pow2(8)) == 127 * pow2(1));
        assert(size <= 127 * pow2(1));
    } else {
        lemma_pow2_unfold(j);
        assert(pow2(j) >= 2);
        lemma_bit_len_of_range(size, j + 7);
        lemma_unpadded_pow2(j + 7);
        assert(spec_unpadded(pow2(j + 7)) == 127 * pow2(j));
        assert(size > spec_unpadded(spec_sector_size(size)));
        lemma_unpadded_pow2(j + 8);
        assert(2 * spec_sector_size(size) == pow2(j + 8));
        assert(spec_padded_size(size) == spec_unpadded(pow2(j + 8)));
    }
}

/// The sector size for a declared length, as a byte count: the smallest power
/// of two strictly above it, or the next one up when `next` is set.
pub fn piece_size(size: u64, next: bool) -> (r: u64)
    requires
        size < 0x8000_0000_0000_0000,
        next ==> size < 0x4000_0000_0000_0000,
    ensures
        !next ==> r as nat == spec_sector_size(size as nat),
        next ==> r as nat == 2 * spec_sector_size(size as nat),
        r >= 1,
{
    let mut sect: u64 = 1;
    let ghost mut k: nat = 0;
    proof {
        lemma2_to64();
        lemma2_to64_rest();
    }
    while sect <= size
        invariant
            sect as nat == pow2(k),
            k >= 1 ==> pow2((k - 1) as nat) <= size as nat,
            size < 0x8000_0000_0000_0000,
            sect <= 0x8000_0000_0000_0000,
        decreases 2 * size - sect,
    {
        proof {
            lemma_pow2_adds(k, 1);
            lemma2_to64();
            lemma2_to64_rest();
            // sect = 2^k <= size < 2^63 bounds k by 62, so doubling stays in range
            if k >= 63 {
                lemma_pow2_le(63, k);
                assert(pow2(63) <= sect as nat);
            }
            assert(k <= 62);
            lemma_pow2_le(k + 1, 63);
        }
        sect = sect * 2;
        proof {
            k = k + 1;
        }
    }
    proof {
        if size == 0 {
            if k >= 1 {
                lemma_pow2_pos((k - 1) as nat);
            }
            assert(k == 0);
        } else {
            assert(k >= 1) by {
                if k == 0 {
                    assert(sect == 1);
                }
            }
            lemma_bit_len_of_range(size as nat, k);
        }
        assert(k == bit_len(size as nat));
    }
    if next {
        proof {
            // the result must fit: size < 2^62 bounds the bit length by 62
            lemma2_to64_rest();
            if k >= 63 {
                lemma_pow2_le(62, (k - 1) as nat);
                assert(pow2((k - 1) as nat) <= size as nat);
            }
            assert(k <= 62);
            lemma_pow2_le(k, 62);
            lemma_pow2_adds(k, 1);
        }
        sect * 2
    } else {
        sect
    }
}

/// Canonical padded size for a declared input length.
pub fn padded_size(size: u64) -> (r: u64)
    requires
        1 <= size,
        size <= MAX_DECLARED_SIZE,
    ensures
        r as nat == spec_padded_size(size as nat),
        r >= size,
{
    proof {
        lemma_padded_size_covers(size as nat);
    }
    let sect = piece_size(size, false);
    let bound = sect - sect / 128;
    assert(bound as nat == spec_unpadded(sect as nat));
    if size <= bound {
        bound
    } else {
        proof {
            // escalation never happens at the top sector, whose capacity is
            // the largest accepted size
            lemma2_to64();
            lemma2_to64_rest();
            let l = bit_len(size as nat);
            lemma_bit_len_bounds(size as nat);
            if l >= 63 {
                lemma_pow2_le(63, l);
                lemma_unpadded_pow2(63);
                lemma_unpadded_mono(pow2(63), pow2(l));
                assert(spec_unpadded(pow2(63)) == 127 * pow2(56));
                assert(127 * pow2(56) == MAX_DECLARED_SIZE);
            }
            assert(l <= 62);
            lemma_pow2_le(l, 62);
        }
        let sect2 = sect * 2;
        let bound2 = sect2 - sect2 / 128;
        assert(bound2 as nat == spec_unpadded((2 * sect) as nat));
        bound2
    }
}

} // verus!
