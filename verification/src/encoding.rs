//! Column encodings: the declared value encoding and the time-column
//! delta encoder.
//!
//! The time column is encoded in blocks of up to 128 deltas: each block
//! carries the delta count and bit width as big-endian 32-bit integers, the
//! minimum delta and the block's first value as big-endian 64-bit integers,
//! and then every delta, reduced by the minimum, packed most-significant-bit
//! first into the block's bit width.

use vstd::prelude::*;
use vstd::wrapping::i64_specs;

use crate::float_bits::bit_len;
use crate::float_bits::bit_len_u64;
use crate::utils::be_i32_bytes;
use crate::utils::be_i64_bytes;
use crate::utils::push_be_i32;
use crate::utils::push_be_i64;

verus! {

/// The declared value-column encoding. One byte on disk; only `PLAIN` is
/// produced by this writer.
#[derive(Copy, Clone, Eq, PartialEq, Structural, Debug)]
pub enum TSEncoding {
    PLAIN,
}

impl TSEncoding {
    /// The one-byte tag of the encoding kind.
    pub fn serialize(&self) -> (r: u8)
        ensures
            r == 0,
    {
        0
    }
}

/// The deltas of a block, each reduced by the block minimum, reinterpreted
/// as unsigned words.
pub open spec fn sp_diffs(deltas: Seq<i64>, min_delta: i64) -> Seq<u64> {
    Seq::new(deltas.len(), |i: int| i64_specs::wrapping_sub(deltas[i], min_delta) as u64)
}

/// The widest reduced delta's digit count: the block's bit width.
pub open spec fn sp_max_bit_len(s: Seq<u64>) -> nat
    decreases s.len(),
{
    if s.len() == 0 {
        0
    } else {
        let rest = sp_max_bit_len(s.drop_last());
        if bit_len(s.last() as nat) > rest {
            bit_len(s.last() as nat)
        } else {
            rest
        }
    }
}

/// The bit at stream position `p` of the packed block: bit `w-1-p%w`
/// (most significant first) of the reduced delta `p/w`; zero padding past
/// the end.
pub open spec fn sp_packed_bit(diffs: Seq<u64>, w: u64, p: int) -> u8
    recommends
        w > 0,
{
    if 0 <= p < diffs.len() * w {
        ((diffs[p / (w as int)] >> ((w - 1 - (p % (w as int)) as u64) as u64)) % 2) as u8
    } else {
        0
    }
}

/// The first `k` bits of packed byte `j`, accumulated most significant
/// first.
pub open spec fn sp_packed_byte_acc(diffs: Seq<u64>, w: u64, j: int, k: int) -> u8
    decreases k,
{
    if k <= 0 {
        0
    } else {
        (2 * sp_packed_byte_acc(diffs, w, j, k - 1) + sp_packed_bit(
            diffs,
            w,
            8 * j + (k - 1),
        )) as u8
    }
}

/// A packed-byte prefix stays below 2^k.
pub proof fn lemma_packed_byte_acc_bound(diffs: Seq<u64>, w: u64, j: int, k: int)
    requires
        0 <= k <= 8,
    ensures
        sp_packed_byte_acc(diffs, w, j, k) < pow2u8(k),
    decreases k,
{
    if k > 0 {
        lemma_packed_byte_acc_bound(diffs, w, j, k - 1);
    }
}

/// Small powers of two, for byte-width bounds.
pub open spec fn pow2u8(k: int) -> int
    decreases k,
{
    if k <= 0 {
        1
    } else {
        2 * pow2u8(k - 1)
    }
}

/// The packed form of the block's reduced deltas: `ceil(n*w/8)` bytes, bits
/// taken most significant first, zero-padded at the end.
pub open spec fn sp_packed_bytes(diffs: Seq<u64>, w: u64) -> Seq<u8> {
    Seq::new(
        ((diffs.len() * w + 7) / 8) as nat,
        |j: int| sp_packed_byte_acc(diffs, w, j, 8),
    )
}

/// The serialized form of one delta block.
pub open spec fn sp_block_bytes(first: i64, min_delta: i64, deltas: Seq<i64>) -> Seq<u8> {
    let diffs = sp_diffs(deltas, min_delta);
    let w = sp_max_bit_len(diffs) as u64;
    be_i32_bytes(deltas.len() as i32) + be_i32_bytes(w as i32) + be_i64_bytes(min_delta)
        + be_i64_bytes(first) + sp_packed_bytes(diffs, w)
}

/// The delta encoder's abstract state.
#[verifier::ext_equal]
pub struct TimeModel {
    /// Bytes of the blocks already flushed.
    pub out: Seq<u8>,
    /// True once the open block has its first value.
    pub have_first: bool,
    /// First value of the open block.
    pub first_value: i64,
    /// Previous value, the base of the next delta.
    pub previous_value: i64,
    /// Minimum delta of the open block.
    pub min_delta: i64,
    /// Deltas of the open block, fewer than 128.
    pub deltas: Seq<i64>,
}

/// The encoder state after accepting `v`: the first value of a block is
/// held back, every later value contributes its delta, and a block is
/// flushed once it holds 128 deltas.
pub open spec fn sp_time_step(m: TimeModel, v: i64) -> TimeModel {
    if !m.have_first {
        TimeModel { have_first: true, first_value: v, previous_value: v, ..m }
    } else {
        let delta = i64_specs::wrapping_sub(v, m.previous_value);
        let min2 = if delta < m.min_delta {
            delta
        } else {
            m.min_delta
        };
        let deltas2 = m.deltas.push(delta);
        if deltas2.len() == 128 {
            TimeModel {
                out: m.out + sp_block_bytes(m.first_value, min2, deltas2),
                have_first: false,
                first_value: 0,
                previous_value: 0,
                min_delta: i64::MAX,
                deltas: Seq::empty(),
            }
        } else {
            TimeModel { previous_value: v, min_delta: min2, deltas: deltas2, ..m }
        }
    }
}

/// The complete encoded time column for the encoder state `m`: the flushed
/// blocks, then the open block if one has begun.
pub open spec fn sp_time_bytes(m: TimeModel) -> Seq<u8> {
    if m.have_first {
        m.out + sp_block_bytes(m.first_value, m.min_delta, m.deltas)
    } else {
        m.out
    }
}

/// The time-column delta encoder.
pub struct TimeEncoder {
    pub out: Vec<u8>,
    pub have_first: bool,
    pub first_value: i64,
    pub previous_value: i64,
    pub min_delta: i64,
    pub deltas: Vec<i64>,
}

/// The abstract state of an encoder.
pub open spec fn time_model(e: TimeEncoder) -> TimeModel {
    TimeModel {
        out: e.out@,
        have_first: e.have_first,
        first_value: e.first_value,
        previous_value: e.previous_value,
        min_delta: e.min_delta,
        deltas: e.deltas@,
    }
}

impl View for TimeEncoder {
    type V = TimeModel;

    open spec fn view(&self) -> TimeModel {
        time_model(*self)
    }
}

/// The encoder invariant: the open block never reaches 128 deltas.
pub open spec fn time_enc_wf(m: TimeModel) -> bool {
    m.deltas.len() < 128
}

impl TimeEncoder {
    /// A fresh encoder with no values seen.
    pub fn new() -> (r: TimeEncoder)
        ensures
            r@ == (TimeModel {
                out: Seq::<u8>::empty(),
                have_first: false,
                first_value: 0,
                previous_value: 0,
                min_delta: i64::MAX,
                deltas: Seq::<i64>::empty(),
            }),
            time_enc_wf(r@),
    {
        let r = TimeEncoder {
            out: Vec::new(),
            have_first: false,
            first_value: 0,
            previous_value: 0,
            min_delta: i64::MAX,
            deltas: Vec::new(),
        };
        proof {
            assert(r@.out =~= Seq::<u8>::empty());
            assert(r@.deltas =~= Seq::<i64>::empty());
        }
        r
    }

    /// Accepts the next value of the time column.
    pub fn encode(&mut self, v: i64)
        requires
            time_enc_wf(old(self)@),
        ensures
            final(self)@ == sp_time_step(old(self)@, v),
            time_enc_wf(final(self)@),
    {
        if !self.have_first {
            self.have_first = true;
            self.first_value = v;
            self.previous_value = v;
        } else {
            let delta: i64 = v.wrapping_sub(self.previous_value);
            if delta < self.min_delta {
                self.min_delta = delta;
            }
            self.deltas.push(delta);
            self.previous_value = v;
            if self.deltas.len() == 128 {
                let ghost pre = self@;
                let first = self.first_value;
                let min_delta = self.min_delta;
                let mut block: Vec<u8> = Vec::new();
                Self::write_block(first, min_delta, &self.deltas, &mut block);
                self.out.append(&mut block);
                self.have_first = false;
                self.first_value = 0;
                self.previous_value = 0;
                self.min_delta = i64::MAX;
                self.deltas = Vec::new();
                proof {
                    assert(self@.out =~= pre.out + sp_block_bytes(
                        pre.first_value,
                        pre.min_delta,
                        pre.deltas,
                    ));
                    assert(self@.deltas =~= Seq::<i64>::empty());
                }
            }
        }
    }

    /// Appends the complete encoded time column to `buffer`, leaving the
    /// encoder itself untouched.
    pub fn write_to(&self, buffer: &mut Vec<u8>)
        requires
            time_enc_wf(self@),
        ensures
            final(buffer)@ == old(buffer)@ + sp_time_bytes(self@),
    {
        let n = self.out.len();
        let mut i: usize = 0;
        while i < n
            invariant
                n == self.out@.len(),
                i <= n,
                buffer@ == old(buffer)@ + self.out@.take(i as int),
            decreases n - i,
        {
            buffer.push(self.out[i]);
            i = i + 1;
            proof {
                assert(buffer@ =~= old(buffer)@ + self.out@.take(i as int));
            }
        }
        proof {
            assert(self.out@.take(n as int) =~= self.out@);
        }
        if self.have_first {
            Self::write_block(self.first_value, self.min_delta, &self.deltas, buffer);
            proof {
                assert(buffer@ =~= old(buffer)@ + sp_time_bytes(self@));
            }
        }
    }

    /// Appends one serialized delta block to `buffer`.
    fn write_block(first: i64, min_delta: i64, deltas: &Vec<i64>, buffer: &mut Vec<u8>)
        requires
            deltas@.len() <= 128,
        ensures
            final(buffer)@ == old(buffer)@ + sp_block_bytes(first, min_delta, deltas@),
    {
        let n = deltas.len();
        // Reduce each delta by the block minimum.
        let mut diffs: Vec<u64> = Vec::new();
        let mut i: usize = 0;
        while i < n
            invariant
                n == deltas@.len(),
                i <= n,
                diffs@ == sp_diffs(deltas@, min_delta).take(i as int),
            decreases n - i,
        {
            let d: u64 = #[verifier::truncate] (deltas[i].wrapping_sub(min_delta) as u64);
            diffs.push(d);
            i = i + 1;
            proof {
                assert(diffs@ =~= sp_diffs(deltas@, min_delta).take(i as int));
            }
        }
        proof {
            assert(diffs@ =~= sp_diffs(deltas@, min_delta));
        }
        // The block's bit width.
        let mut w: u64 = 0;
        let mut i: usize = 0;
        while i < n
            invariant
                n == diffs@.len(),
                i <= n,
                w == sp_max_bit_len(diffs@.take(i as int)),
            decreases n - i,
        {
            let b = bit_len_u64(diffs[i]);
            if b > w {
                w = b;
            }
            i = i + 1;
            proof {
                assert(diffs@.take(i as int).drop_last() =~= diffs@.take(i - 1));
                assert(diffs@.take(i as int).last() == diffs@[i - 1]);
            }
        }
        proof {
            assert(diffs@.take(n as int) =~= diffs@);
            lemma_max_bit_len_le_64(diffs@);
        }
        push_be_i32(buffer, n as i32);
        push_be_i32(buffer, w as i32);
        push_be_i64(buffer, min_delta);
        push_be_i64(buffer, first);
        Self::pack_bits(&diffs, w, buffer);
        proof {
            assert(buffer@ =~= old(buffer)@ + sp_block_bytes(first, min_delta, deltas@));
        }
    }

    /// Appends the packed reduced deltas to `buffer`: each in `w` bits, most
    /// significant first, the last byte zero-padded.
    fn pack_bits(diffs: &Vec<u64>, w: u64, buffer: &mut Vec<u8>)
        requires
            w <= 64,
            diffs@.len() <= 128,
        ensures
            final(buffer)@ == old(buffer)@ + sp_packed_bytes(diffs@, w),
    {
        let n = diffs.len();
        proof {
            vstd::arithmetic::mul::lemma_mul_upper_bound(n as int, 128, w as int, 64);
        }
        let total_bits: usize = n * (w as usize);
        let nbytes: usize = (total_bits + 7) / 8;
        let mut j: usize = 0;
        while j < nbytes
            invariant
                n == diffs@.len(),
                w <= 64,
                total_bits == n * w,
                nbytes == (total_bits + 7) / 8,
                total_bits + 7 <= usize::MAX,
                j <= nbytes,
                buffer@ == old(buffer)@ + sp_packed_bytes(diffs@, w).take(j as int),
            decreases nbytes - j,
        {
            let mut byte: u8 = 0;
            let mut k: usize = 0;
            while k < 8
                invariant
                    n == diffs@.len(),
                    w <= 64,
                    total_bits == n * w,
                    j < nbytes,
                    nbytes == (total_bits + 7) / 8,
                    total_bits + 7 <= usize::MAX,
                    k <= 8,
                    byte == sp_packed_byte_acc(diffs@, w, j as int, k as int),
                    byte < pow2u8(k as int),
                decreases 8 - k,
            {
                proof {
                    lemma_packed_byte_acc_bound(diffs@, w, j as int, k as int);
                }
                let p: usize = j * 8 + k;
                let bit: u8 = if p < total_bits {
                    proof {
                        lemma_pack_index(n as int, w, p as int);
                    }
                    let idx: usize = p / (w as usize);
                    let sh: u64 = w - 1 - (p as u64 % w);
                    ((diffs[idx] >> sh) % 2) as u8
                } else {
                    0
                };
                proof {
                    assert(pow2u8(k as int) <= 128) by {
                        reveal_with_fuel(pow2u8, 9);
                    }
                }
                byte = byte * 2 + bit;
                k = k + 1;
            }
            buffer.push(byte);
            j = j + 1;
            proof {
                assert(buffer@ =~= old(buffer)@ + sp_packed_bytes(diffs@, w).take(
                    j as int,
                ));
            }
        }
        proof {
            assert(sp_packed_bytes(diffs@, w).take(nbytes as int) =~= sp_packed_bytes(
                diffs@,
                w,
            ));
        }
    }
}

/// The encoded time column of a well-formed encoder adds at most 1048
/// bytes to the already flushed blocks.
pub proof fn lemma_time_bytes_len(m: TimeModel)
    requires
        time_enc_wf(m),
    ensures
        sp_time_bytes(m).len() <= m.out.len() + 1048,
{
    if m.have_first {
        lemma_block_bytes_len(m.first_value, m.min_delta, m.deltas);
    }
}

/// A block of at most 128 deltas serializes to at most 1048 bytes.
pub proof fn lemma_block_bytes_len(first: i64, min_delta: i64, deltas: Seq<i64>)
    requires
        deltas.len() <= 128,
    ensures
        sp_block_bytes(first, min_delta, deltas).len() <= 1048,
{
    let diffs = sp_diffs(deltas, min_delta);
    let w = sp_max_bit_len(diffs) as u64;
    lemma_max_bit_len_le_64(diffs);
    assert(diffs.len() * w <= 128 * 64) by {
        vstd::arithmetic::mul::lemma_mul_upper_bound(diffs.len() as int, 128, w as int, 64);
    }
    let t: int = diffs.len() * w + 7;
    assert(t / 8 <= 1024) by {
        vstd::arithmetic::div_mod::lemma_div_is_ordered(t, (128 * 64 + 7) as int, 8);
    }
}

/// One encoder step grows the flushed bytes by at most one block: 1048
/// bytes.
pub proof fn lemma_time_step_out_growth(m: TimeModel, v: i64)
    requires
        time_enc_wf(m),
    ensures
        sp_time_step(m, v).out.len() <= m.out.len() + 1048,
        time_enc_wf(sp_time_step(m, v)),
{
    if m.have_first {
        let delta = i64_specs::wrapping_sub(v, m.previous_value);
        let min2 = if delta < m.min_delta {
            delta
        } else {
            m.min_delta
        };
        let deltas2 = m.deltas.push(delta);
        if deltas2.len() == 128 {
            lemma_block_bytes_len(m.first_value, min2, deltas2);
        }
    }
}

/// A stream position below `n*w` indexes a real delta and a real bit.
pub proof fn lemma_pack_index(n: int, w: u64, p: int)
    requires
        0 <= p < n * w,
        w <= 64,
    ensures
        w > 0,
        0 <= p / (w as int) < n,
        0 <= p % (w as int) < w,
{
    if w == 0 {
        assert(n * 0 == 0) by {
            vstd::arithmetic::mul::lemma_mul_basics(n);
        }
    }
    assert(w * n == n * w) by {
        vstd::arithmetic::mul::lemma_mul_is_commutative(w as int, n as int);
    }
    assert(n > 0) by {
        if n <= 0 {
            vstd::arithmetic::mul::lemma_mul_inequality(n, 0, w as int);
            vstd::arithmetic::mul::lemma_mul_basics(w as int);
        }
    }
    crate::float_bits::lemma_div_bound(p as nat, w as nat, n as nat);
    assert(p / (w as int) == (p as nat) / (w as nat));
}

/// Every word has at most 64 binary digits, so a block's width fits.
pub proof fn lemma_max_bit_len_le_64(s: Seq<u64>)
    ensures
        sp_max_bit_len(s) <= 64,
    decreases s.len(),
{
    if s.len() > 0 {
        lemma_max_bit_len_le_64(s.drop_last());
        crate::float_bits::lemma_bit_len_64(s.last() as nat);
    }
}

} // verus!
