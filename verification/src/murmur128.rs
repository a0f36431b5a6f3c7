//! 128-bit MurmurHash3 (x64 variant), reduced to a signed 32-bit result.
//!
//! The bloom filter derives its bit indexes from this hash, seeded per hash
//! function. The input is consumed as 16-byte little-endian blocks, the
//! remainder as a tail, and the two 64-bit lanes are mixed and folded into
//! one value whose low 32 bits are the result.

use vstd::arithmetic::power2::pow2;
use vstd::prelude::*;
use vstd::wrapping::u64_specs;

use crate::float_bits::pow2_u64;

verus! {

/// First lane multiplier.
pub const MM_C1: u64 = 0x87c3_7b91_1142_53d5;

/// Second lane multiplier.
pub const MM_C2: u64 = 0x4cf5_ab83_2836_aafc;

/// Left rotation of a 64-bit word.
pub open spec fn sp_rotl64(v: u64, n: u64) -> u64
    recommends
        0 < n < 64,
{
    (v << n) | (v >> ((64 - n) as u64))
}

/// The mixing applied to every first-lane block.
pub open spec fn sp_mix_k1(k1: u64) -> u64 {
    u64_specs::wrapping_mul(sp_rotl64(u64_specs::wrapping_mul(k1, MM_C1), 31), MM_C2)
}

/// The mixing applied to every second-lane block.
pub open spec fn sp_mix_k2(k2: u64) -> u64 {
    u64_specs::wrapping_mul(sp_rotl64(u64_specs::wrapping_mul(k2, MM_C2), 33), MM_C1)
}

/// One body round over a 16-byte block already split into two lanes.
pub open spec fn sp_round(h1: u64, h2: u64, k1: u64, k2: u64) -> (u64, u64) {
    let a1 = h1 ^ sp_mix_k1(k1);
    let b1 = u64_specs::wrapping_add(
        u64_specs::wrapping_mul(u64_specs::wrapping_add(sp_rotl64(a1, 27), h2), 5),
        0x52dc_e729,
    );
    let a2 = h2 ^ sp_mix_k2(k2);
    let b2 = u64_specs::wrapping_add(
        u64_specs::wrapping_mul(u64_specs::wrapping_add(sp_rotl64(a2, 31), b1), 5),
        0x3849_5ab5,
    );
    (b1, b2)
}

/// The little-endian 64-bit word at byte offset `off`.
pub open spec fn sp_le64_at(data: Seq<u8>, off: int) -> u64
    recommends
        0 <= off,
        off + 8 <= data.len(),
{
    (data[off] + data[off + 1] * 0x100 + data[off + 2] * 0x1_0000 + data[off + 3]
        * 0x100_0000 + data[off + 4] * 0x1_0000_0000 + data[off + 5] * 0x100_0000_0000
        + data[off + 6] * 0x1_0000_0000_0000 + data[off + 7] * 0x100_0000_0000_0000) as u64
}

/// Hash state after the first `i` body rounds.
pub open spec fn sp_body(data: Seq<u8>, i: int, h1: u64, h2: u64) -> (u64, u64)
    decreases i,
{
    if i <= 0 {
        (h1, h2)
    } else {
        let prev = sp_body(data, i - 1, h1, h2);
        sp_round(prev.0, prev.1, sp_le64_at(data, (i - 1) * 16), sp_le64_at(
            data,
            (i - 1) * 16 + 8,
        ))
    }
}

/// Little-endian accumulation of `count` tail bytes starting at `start`.
pub open spec fn sp_tail_sum(data: Seq<u8>, start: int, count: int) -> int
    decreases count,
{
    if count <= 0 {
        0
    } else {
        sp_tail_sum(data, start, count - 1) + data[start + count - 1] * pow2(
            (8 * (count - 1)) as nat,
        )
    }
}

/// The accumulated tail stays below 2^(8 count).
pub proof fn lemma_tail_sum_bound(data: Seq<u8>, start: int, count: int)
    requires
        0 <= start,
        start + count <= data.len(),
    ensures
        0 <= sp_tail_sum(data, start, count),
        count >= 0 ==> sp_tail_sum(data, start, count) < pow2((8 * count) as nat),
    decreases count,
{
    vstd::arithmetic::power2::lemma2_to64();
    if count > 0 {
        lemma_tail_sum_bound(data, start, count - 1);
        let p = pow2((8 * (count - 1)) as nat);
        assert(pow2((8 * count) as nat) == p * 256) by {
            vstd::arithmetic::power2::lemma_pow2_adds((8 * (count - 1)) as nat, 8);
        }
        assert(data[start + count - 1] * p <= 255 * p) by {
            vstd::arithmetic::mul::lemma_mul_inequality(
                data[start + count - 1] as int,
                255,
                p as int,
            );
        }
    }
}

/// The final avalanche of each lane.
pub open spec fn sp_fmix(k0: u64) -> u64 {
    let k1 = u64_specs::wrapping_mul(k0 ^ (k0 >> 33), 0xff51_afd7_ed55_8ccd);
    let k2 = u64_specs::wrapping_mul(k1 ^ (k1 >> 33), 0xc4ce_b9fe_1a85_ec53);
    k2 ^ (k2 >> 33)
}

/// The folded 64-bit hash of `data` under `seed`.
pub open spec fn sp_murmur128_fold(data: Seq<u8>, seed: u64) -> u64 {
    let len = data.len() as int;
    let nblocks = len / 16;
    let state = sp_body(data, nblocks, seed, seed);
    let t = len % 16;
    let k1 = sp_tail_sum(data, nblocks * 16, if t < 8 {
        t
    } else {
        8
    }) as u64;
    let k2 = sp_tail_sum(data, nblocks * 16 + 8, t - 8) as u64;
    let h2a = if t > 8 {
        state.1 ^ sp_mix_k2(k2)
    } else {
        state.1
    };
    let h1a = if t > 0 {
        state.0 ^ sp_mix_k1(k1)
    } else {
        state.0
    };
    let h1b = h1a ^ (len as u64);
    let h2b = h2a ^ (len as u64);
    let h1c = u64_specs::wrapping_add(h1b, h2b);
    let h2c = u64_specs::wrapping_add(h2b, h1c);
    let h1d = sp_fmix(h1c);
    let h2d = sp_fmix(h2c);
    let h1e = u64_specs::wrapping_add(h1d, h2d);
    let h2e = u64_specs::wrapping_add(h2d, h1e);
    u64_specs::wrapping_add(h1e, h2e)
}

/// The signed 32-bit reduction of the 128-bit hash: its low 32 bits.
#[verifier::opaque]
pub open spec fn sp_murmur128_i32(data: Seq<u8>, seed: i32) -> i32 {
    (sp_murmur128_fold(data, seed as u64) % 0x1_0000_0000) as u32 as i32
}

/// The 128-bit MurmurHash3 (x64 variant) reduced to a signed 32-bit value.
pub struct Murmur128 {}

impl Murmur128 {
    /// Hashes `value` under `seed`.
    pub fn hash(value: &[u8], seed: i32) -> (r: i32)
        ensures
            r == sp_murmur128_i32(value@, seed),
    {
        proof {
            reveal(sp_murmur128_i32);
        }
        let folded = Self::inner_hash(value, seed as u64);
        (folded % 0x1_0000_0000u64) as u32 as i32
    }

    /// The 64-bit fold of both hash lanes.
    fn inner_hash(data: &[u8], seed: u64) -> (r: u64)
        ensures
            r == sp_murmur128_fold(data@, seed),
    {
        let len: usize = data.len();
        let nblocks: usize = len / 16;
        let mut h1: u64 = seed;
        let mut h2: u64 = seed;
        let mut i: usize = 0;
        while i < nblocks
            invariant
                nblocks == data@.len() / 16,
                i <= nblocks,
                len == data@.len(),
                (h1, h2) == sp_body(data@, i as int, seed, seed),
            decreases nblocks - i,
        {
            proof {
                assert((i + 1) * 16 <= nblocks * 16) by {
                    vstd::arithmetic::mul::lemma_mul_inequality(
                        i as int + 1,
                        nblocks as int,
                        16,
                    );
                }
                assert(nblocks * 16 <= len) by {
                    vstd::arithmetic::div_mod::lemma_fundamental_div_mod(len as int, 16);
                }
            }
            let k1 = Self::le64_at(data, i * 16);
            let k2 = Self::le64_at(data, i * 16 + 8);
            let a1 = h1 ^ Self::mix_k1(k1);
            let b1 = Self::rotl64(a1, 27).wrapping_add(h2).wrapping_mul(5).wrapping_add(
                0x52dc_e729,
            );
            let a2 = h2 ^ Self::mix_k2(k2);
            let b2 = Self::rotl64(a2, 31).wrapping_add(b1).wrapping_mul(5).wrapping_add(
                0x3849_5ab5,
            );
            h1 = b1;
            h2 = b2;
            i = i + 1;
            proof {
                assert((h1, h2) == sp_body(data@, i as int, seed, seed));
            }
        }
        let t: usize = len % 16;
        let tail_start: usize = nblocks * 16;
        proof {
            vstd::arithmetic::div_mod::lemma_fundamental_div_mod(len as int, 16);
        }
        let n1: usize = if t < 8 {
            t
        } else {
            8
        };
        let k1: u64 = Self::tail_accum(data, tail_start, n1);
        let k2: u64 = if t > 8 {
            Self::tail_accum(data, tail_start + 8, t - 8)
        } else {
            0
        };
        if t > 8 {
            h2 = h2 ^ Self::mix_k2(k2);
        }
        if t > 0 {
            h1 = h1 ^ Self::mix_k1(k1);
        }
        h1 = h1 ^ (len as u64);
        h2 = h2 ^ (len as u64);
        h1 = h1.wrapping_add(h2);
        h2 = h2.wrapping_add(h1);
        h1 = Self::fmix(h1);
        h2 = Self::fmix(h2);
        h1 = h1.wrapping_add(h2);
        h2 = h2.wrapping_add(h1);
        h1.wrapping_add(h2)
    }

    /// Little-endian accumulation of `count` bytes starting at `start`.
    fn tail_accum(data: &[u8], start: usize, count: usize) -> (r: u64)
        requires
            start + count <= data@.len(),
            count <= 8,
        ensures
            r == sp_tail_sum(data@, start as int, count as int),
    {
        proof {
            vstd::arithmetic::power2::lemma2_to64();
        }
        let dlen: usize = data.len();
        let mut acc: u64 = 0;
        let mut j: usize = 0;
        while j < count
            invariant
                start + count <= dlen,
                dlen == data@.len(),
                count <= 8,
                j <= count,
                acc == sp_tail_sum(data@, start as int, j as int),
                acc < pow2((8 * j) as nat),
            decreases count - j,
        {
            proof {
                vstd::arithmetic::power2::lemma2_to64();
                vstd::arithmetic::power2::lemma2_to64_rest();
                let p = pow2((8 * j) as nat);
                assert(p <= pow2(56)) by {
                    if 8 * (j as int) < 56 {
                        vstd::arithmetic::power2::lemma_pow2_strictly_increases(
                            (8 * j) as nat,
                            56,
                        );
                    }
                }
                assert((data@[start + j] as int) * p <= 255 * p) by {
                    vstd::arithmetic::mul::lemma_mul_inequality(
                        data@[start + j] as int,
                        255,
                        p as int,
                    );
                }
            }
            acc = acc + (data[start + j] as u64) * pow2_u64((8 * j) as u64);
            j = j + 1;
        }
        acc
    }

    /// The little-endian 64-bit word at byte offset `off`.
    fn le64_at(data: &[u8], off: usize) -> (r: u64)
        requires
            off + 8 <= data@.len(),
        ensures
            r == sp_le64_at(data@, off as int),
    {
        (data[off] as u64) + (data[off + 1] as u64) * 0x100 + (data[off + 2] as u64)
            * 0x1_0000 + (data[off + 3] as u64) * 0x100_0000 + (data[off + 4] as u64)
            * 0x1_0000_0000 + (data[off + 5] as u64) * 0x100_0000_0000 + (data[off
            + 6] as u64) * 0x1_0000_0000_0000 + (data[off + 7] as u64)
            * 0x100_0000_0000_0000
    }

    /// Left rotation of a 64-bit word.
    fn rotl64(v: u64, n: u64) -> (r: u64)
        requires
            0 < n < 64,
        ensures
            r == sp_rotl64(v, n),
    {
        (v << n) | (v >> (64 - n))
    }

    /// The mixing applied to every first-lane block.
    fn mix_k1(k1: u64) -> (r: u64)
        ensures
            r == sp_mix_k1(k1),
    {
        Self::rotl64(k1.wrapping_mul(MM_C1), 31).wrapping_mul(MM_C2)
    }

    /// The mixing applied to every second-lane block.
    fn mix_k2(k2: u64) -> (r: u64)
        ensures
            r == sp_mix_k2(k2),
    {
        Self::rotl64(k2.wrapping_mul(MM_C2), 33).wrapping_mul(MM_C1)
    }

    /// The final avalanche of one lane.
    fn fmix(k0: u64) -> (r: u64)
        ensures
            r == sp_fmix(k0),
    {
        let k1 = (k0 ^ (k0 >> 33u64)).wrapping_mul(0xff51_afd7_ed55_8ccd);
        let k2 = (k1 ^ (k1 >> 33u64)).wrapping_mul(0xc4ce_b9fe_1a85_ec53);
        k2 ^ (k2 >> 33u64)
    }
}

} // verus!
