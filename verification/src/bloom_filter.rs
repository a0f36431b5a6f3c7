//! The bloom filter over fully qualified series paths.
//!
//! The filter is sized from the number of paths at the fixed target error
//! rate of five percent, holds at least 256 bits, and uses up to eight
//! hash functions seeded from a fixed table. Each path sets one bit per
//! hash function; the bitset is packed least-significant-bit first.

use vstd::prelude::*;

use crate::murmur128::sp_murmur128_i32;
use crate::murmur128::Murmur128;
use crate::schema::Path;
use crate::sink::PositionedWrite;
use crate::sink::Serializable;
use crate::utils::length_framed;
use crate::utils::varuint_bytes;
use crate::utils::write_var_u32;

verus! {

/// The seed table the hash functions draw from, in order.
pub open spec fn sp_seed(i: int) -> i32 {
    if i == 0 {
        5
    } else if i == 1 {
        7
    } else if i == 2 {
        11
    } else if i == 3 {
        19
    } else if i == 4 {
        31
    } else if i == 5 {
        37
    } else if i == 6 {
        43
    } else {
        59
    }
}

/// The seed table the hash functions draw from, in order.
pub fn seed_of(i: usize) -> (r: i32)
    ensures
        r == sp_seed(i as int),
{
    if i == 0 {
        5
    } else if i == 1 {
        7
    } else if i == 2 {
        11
    } else if i == 3 {
        19
    } else if i == 4 {
        31
    } else if i == 5 {
        37
    } else if i == 6 {
        43
    } else {
        59
    }
}

/// The fixed-point image of `-ln(0.05) / (ln 2)^2`, scaled by 2^40: the
/// bits-per-path factor at the five percent error rate.
pub const BLOOM_BITS_FACTOR: u128 = 6855701542205;

/// The number of hash functions at the five percent error rate, before the
/// cap of eight: `floor(-ln(0.05)/ln 2 + 1)`.
pub const BLOOM_HASH_COUNT: i32 = 5;

/// The bit index that seed `seed` maps `value` to in a filter of `cap`
/// bits: the hash's absolute value, reduced modulo the bit count.
pub open spec fn sp_hash_index(cap: i32, seed: i32, value: Seq<u8>) -> int
    recommends
        cap > 0,
{
    let h = sp_murmur128_i32(value, seed) as int;
    (if h >= 0 {
        h
    } else {
        -h
    }) % (cap as int)
}

/// One seeded hash function of the filter.
pub struct HashFunction {
    /// The filter's bit count.
    pub cap: i32,
    /// This function's seed.
    pub seed: i32,
}

impl HashFunction {
    /// A hash function over `cap` bits with seed `seed`.
    pub fn new(cap: i32, seed: i32) -> (r: HashFunction)
        ensures
            r.cap == cap,
            r.seed == seed,
    {
        HashFunction { cap, seed }
    }

    /// The raw signed hash of `s` under `seed`.
    pub fn _murmur_hash(&self, s: &[u8], seed: i32) -> (r: i32)
        ensures
            r == sp_murmur128_i32(s@, seed),
    {
        Murmur128::hash(s, seed)
    }

    /// The bit index this function maps `value` to.
    pub fn hash(&self, value: &[u8]) -> (r: usize)
        requires
            self.cap > 0,
        ensures
            r == sp_hash_index(self.cap, self.seed, value@),
            r < self.cap,
    {
        let h = self._murmur_hash(value, self.seed);
        let a: i64 = if h >= 0 {
            h as i64
        } else {
            -(h as i64)
        };
        (a % (self.cap as i64)) as usize
    }
}

/// The bits after setting, for each of the first `k` seeds, the bit that
/// seed maps `value` to.
pub open spec fn sp_set_bits(bits: Seq<bool>, cap: i32, k: int, value: Seq<u8>) -> Seq<
    bool,
>
    recommends
        cap > 0,
        bits.len() == cap,
        0 <= k <= 8,
    decreases k,
{
    if k <= 0 {
        bits
    } else {
        sp_set_bits(bits, cap, k - 1, value).update(
            sp_hash_index(cap, sp_seed(k - 1), value),
            true,
        )
    }
}

/// True when every hash function's bit for `value` is set.
pub open spec fn sp_contains(bits: Seq<bool>, cap: i32, k: int, value: Seq<u8>) -> bool
    recommends
        cap > 0,
        bits.len() == cap,
{
    forall|i: int| 0 <= i < k ==> bits[sp_hash_index(cap, sp_seed(i), value)]
}

/// The filter's bit count for `n` paths: the fixed-point sizing, floored at
/// 256 bits and saturated at the signed 32-bit maximum.
pub open spec fn sp_bloom_size(n: nat) -> i32 {
    let raw = ((n * BLOOM_BITS_FACTOR) / 0x100_0000_0000) + 1;
    let sized: i32 = if raw > i32::MAX {
        i32::MAX
    } else {
        raw as i32
    };
    if sized < 256 {
        256
    } else {
        sized
    }
}

/// The path bytes of a list of series paths.
pub open spec fn sp_path_views(paths: Seq<Path>) -> Seq<Seq<u8>> {
    Seq::new(paths.len(), |i: int| paths[i].path@)
}

/// The bitset after adding every path in order to an empty filter of
/// `size` bits with `k` hash functions.
pub open spec fn sp_build_bits(paths: Seq<Seq<u8>>, size: i32, k: int) -> Seq<bool>
    recommends
        size > 0,
        0 <= k <= 8,
    decreases paths.len(),
{
    if paths.len() == 0 {
        Seq::new(size as nat, |i: int| false)
    } else {
        sp_set_bits(sp_build_bits(paths.drop_last(), size, k), size, k, paths.last())
    }
}

/// Building preserves the bit count.
pub proof fn lemma_build_bits_len(paths: Seq<Seq<u8>>, size: i32, k: int)
    requires
        size > 0,
        0 <= k <= 8,
    ensures
        sp_build_bits(paths, size, k).len() == size,
    decreases paths.len(),
{
    if paths.len() > 0 {
        lemma_build_bits_len(paths.drop_last(), size, k);
        lemma_set_bits_len(sp_build_bits(paths.drop_last(), size, k), size, k, paths.last());
    }
}

/// Setting a path's bits preserves the bit count.
pub proof fn lemma_set_bits_len(bits: Seq<bool>, cap: i32, k: int, value: Seq<u8>)
    requires
        0 <= k <= 8,
        cap > 0,
        bits.len() == cap,
    ensures
        sp_set_bits(bits, cap, k, value).len() == bits.len(),
    decreases k,
{
    if k > 0 {
        lemma_set_bits_len(bits, cap, k - 1, value);
        let prev = sp_set_bits(bits, cap, k - 1, value);
        let h = sp_hash_index(cap, sp_seed(k - 1), value);
        assert(prev.update(h, true).len() == prev.len());
    }
}

/// The bloom filter over the file's series paths.
pub struct BloomFilter {
    /// The bit count.
    pub size: i32,
    /// The number of hash functions.
    pub hash_function_size: i32,
    /// The seeded hash functions.
    pub func: Vec<HashFunction>,
    /// The bitset.
    pub bit_set: Vec<bool>,
}

/// The filter invariant: the bitset matches the declared size, and each of
/// the hash functions carries the filter's bit count and its table seed.
pub open spec fn bloom_wf(b: BloomFilter) -> bool {
    &&& b.size > 0
    &&& b.bit_set@.len() == b.size
    &&& 0 <= b.hash_function_size <= 8
    &&& b.func@.len() == b.hash_function_size
    &&& forall|i: int|
        0 <= i < b.func@.len() ==> (#[trigger] b.func@[i]).cap == b.size && b.func@[i].seed
            == sp_seed(i)
}

impl BloomFilter {
    /// An empty filter of `size` bits with `hash_function_size` seeded
    /// functions.
    pub fn new(size: i32, hash_function_size: i32) -> (r: BloomFilter)
        requires
            size > 0,
            0 <= hash_function_size <= 8,
        ensures
            bloom_wf(r),
            r.size == size,
            r.hash_function_size == hash_function_size,
            r.bit_set@ == Seq::new(size as nat, |i: int| false),
    {
        let mut func: Vec<HashFunction> = Vec::new();
        let mut i: usize = 0;
        while i < hash_function_size as usize
            invariant
                hash_function_size <= 8,
                i <= hash_function_size as usize,
                func@.len() == i,
                forall|k: int|
                    0 <= k < i ==> (#[trigger] func@[k]).cap == size && func@[k].seed
                        == sp_seed(k),
            decreases hash_function_size as usize - i,
        {
            func.push(HashFunction::new(size, seed_of(i)));
            i = i + 1;
        }
        let mut bit_set: Vec<bool> = Vec::new();
        let mut j: usize = 0;
        while j < size as usize
            invariant
                j <= size as usize,
                bit_set@.len() == j,
                forall|k: int| 0 <= k < j ==> !(#[trigger] bit_set@[k]),
            decreases size as usize - j,
        {
            bit_set.push(false);
            j = j + 1;
        }
        let r = BloomFilter { size, hash_function_size, func, bit_set };
        proof {
            assert(r.bit_set@ =~= Seq::new(size as nat, |i: int| false));
        }
        r
    }

    /// Sets, for every hash function, the bit that `path` maps to.
    pub fn add(&mut self, path: &[u8])
        requires
            bloom_wf(*old(self)),
        ensures
            bloom_wf(*final(self)),
            final(self).size == old(self).size,
            final(self).hash_function_size == old(self).hash_function_size,
            final(self).func == old(self).func,
            final(self).bit_set@ == sp_set_bits(
                old(self).bit_set@,
                old(self).size,
                old(self).hash_function_size as int,
                path@,
            ),
    {
        let n = self.func.len();
        let mut i: usize = 0;
        while i < n
            invariant
                bloom_wf(*self),
                n == self.func@.len(),
                i <= n,
                self.size == old(self).size,
                self.hash_function_size == old(self).hash_function_size,
                self.func == old(self).func,
                self.bit_set@ == sp_set_bits(
                    old(self).bit_set@,
                    old(self).size,
                    i as int,
                    path@,
                ),
            decreases n - i,
        {
            let f = &self.func[i];
            let bit_id = f.hash(path);
            self.bit_set[bit_id] = true;
            i = i + 1;
        }
    }

    /// True when every hash function's bit for `path` is set: the filter
    /// may report paths that were never added, but never misses one that
    /// was.
    pub fn contains(&self, path: &[u8]) -> (r: bool)
        requires
            bloom_wf(*self),
        ensures
            r == sp_contains(
                self.bit_set@,
                self.size,
                self.hash_function_size as int,
                path@,
            ),
    {
        let n = self.func.len();
        let mut i: usize = 0;
        while i < n
            invariant
                bloom_wf(*self),
                n == self.func@.len(),
                i <= n,
                forall|k: int|
                    0 <= k < i ==> self.bit_set@[sp_hash_index(
                        self.size,
                        sp_seed(k),
                        path@,
                    )],
            decreases n - i,
        {
            let f = &self.func[i];
            let bit_id = f.hash(path);
            if !self.bit_set[bit_id] {
                return false;
            }
            i = i + 1;
        }
        true
    }

    /// Builds the filter over `paths`, sized for their count at the fixed
    /// five percent error rate: every given path is contained afterwards.
    pub fn build(paths: Vec<Path>) -> (r: BloomFilter)
        ensures
            bloom_wf(r),
            r.size == sp_bloom_size(paths@.len()),
            r.hash_function_size == if BLOOM_HASH_COUNT <= 8 {
                BLOOM_HASH_COUNT
            } else {
                8
            },
            r.bit_set@ == sp_build_bits(
                sp_path_views(paths@),
                r.size,
                r.hash_function_size as int,
            ),
            forall|p: int|
                0 <= p < paths@.len() ==> sp_contains(
                    r.bit_set@,
                    r.size,
                    r.hash_function_size as int,
                    (#[trigger] paths@[p]).path@,
                ),
    {
        let n = paths.len();
        let raw: u128 = ((n as u128) * BLOOM_BITS_FACTOR) / 0x100_0000_0000;
        let sized: i32 = if raw + 1 > i32::MAX as u128 {
            i32::MAX
        } else {
            (raw + 1) as i32
        };
        let size: i32 = if sized < 256 {
            256
        } else {
            sized
        };
        let k: i32 = if BLOOM_HASH_COUNT <= 8 {
            BLOOM_HASH_COUNT
        } else {
            8
        };
        let mut filter = BloomFilter::new(size, k);
        let mut i: usize = 0;
        proof {
            assert(sp_path_views(paths@).take(0) =~= Seq::<Seq<u8>>::empty());
        }
        while i < n
            invariant
                bloom_wf(filter),
                n == paths@.len(),
                i <= n,
                filter.size == size,
                filter.hash_function_size == k,
                filter.bit_set@ == sp_build_bits(
                    sp_path_views(paths@).take(i as int),
                    size,
                    k as int,
                ),
                forall|p: int|
                    0 <= p < i ==> sp_contains(
                        filter.bit_set@,
                        filter.size,
                        filter.hash_function_size as int,
                        (#[trigger] paths@[p]).path@,
                    ),
            decreases n - i,
        {
            let ghost pre = filter.bit_set@;
            filter.add(paths[i].path.as_slice());
            proof {
                assert(sp_path_views(paths@).take(i as int + 1).drop_last()
                    =~= sp_path_views(paths@).take(i as int));
                assert(sp_path_views(paths@).take(i as int + 1).last() == paths@[
                    i as int
                ].path@);
                lemma_set_bits_contains(
                    pre,
                    filter.size,
                    filter.hash_function_size as int,
                    paths@[i as int].path@,
                );
                assert forall|p: int|
                    0 <= p < i + 1 implies sp_contains(
                    filter.bit_set@,
                    filter.size,
                    filter.hash_function_size as int,
                    (#[trigger] paths@[p]).path@,
                ) by {
                    if p < i {
                        lemma_set_bits_monotone(
                            pre,
                            filter.size,
                            filter.hash_function_size as int,
                            paths@[i as int].path@,
                            paths@[p].path@,
                        );
                    }
                }
            }
            i = i + 1;
        }
        proof {
            assert(sp_path_views(paths@).take(n as int) =~= sp_path_views(paths@));
        }
        filter
    }

    /// Packs the bitset into bytes, least-significant-bit first.
    pub fn serialize_bits(&self) -> (r: Vec<u8>)
        requires
            self.bit_set@.len() <= 0x7FFF_FFFF,
        ensures
            r@ == sp_bloom_bytes(self.bit_set@),
    {
        let nbits = self.bit_set.len();
        let nbytes = (nbits + 7) / 8;
        let mut out: Vec<u8> = Vec::new();
        let mut j: usize = 0;
        while j < nbytes
            invariant
                nbits == self.bit_set@.len(),
                nbits + 7 <= usize::MAX,
                nbytes == (nbits + 7) / 8,
                j <= nbytes,
                out@ == sp_bloom_bytes(self.bit_set@).take(j as int),
            decreases nbytes - j,
        {
            let mut byte: u8 = 0;
            let mut t: usize = 8;
            while t > 0
                invariant
                    nbits == self.bit_set@.len(),
                    j < nbytes,
                    nbytes == (nbits + 7) / 8,
                    nbits + 7 <= usize::MAX,
                    t <= 8,
                    byte == sp_bloom_byte_acc(self.bit_set@, j as int, t as int),
                    byte < pow2d(8 - t),
                decreases t,
            {
                t = t - 1;
                let p = j * 8 + t;
                let bit: u8 = if p < nbits && self.bit_set[p] {
                    1
                } else {
                    0
                };
                proof {
                    assert(pow2d(7 - t) <= 128) by {
                        reveal_with_fuel(pow2d, 9);
                    }
                }
                byte = byte * 2 + bit;
            }
            out.push(byte);
            j = j + 1;
            proof {
                assert(out@ =~= sp_bloom_bytes(self.bit_set@).take(j as int));
            }
        }
        proof {
            assert(sp_bloom_bytes(self.bit_set@).take(nbytes as int) =~= sp_bloom_bytes(
                self.bit_set@,
            ));
        }
        out
    }

    /// Rebuilds a filter from its packed on-disk bits: bit `i` is byte
    /// `i/8`, position `i%8`, least significant first.
    #[verifier::rlimit(100)]
    #[verifier::spinoff_prover]
    pub fn from_bytes(bytes: &[u8], size: i32, hash_function_size: i32) -> (r:
        BloomFilter)
        requires
            size > 0,
            0 <= hash_function_size <= 8,
            bytes@.len() * 8 >= size,
        ensures
            bloom_wf(r),
            r.size == size,
            r.hash_function_size == hash_function_size,
            forall|i: int|
                0 <= i < size ==> r.bit_set@[i] == ((bytes@[i / 8] / pow2d(
                    (i % 8) as int,
                ) as u8) % 2 == 1),
    {
        let mut r = BloomFilter::new(size, hash_function_size);
        let n = size as usize;
        let mut i: usize = 0;
        while i < n
            invariant
                bloom_wf(r),
                n == size,
                size > 0,
                r.size == size,
                r.hash_function_size == hash_function_size,
                bytes@.len() * 8 >= size,
                i <= n,
                forall|x: int|
                    0 <= x < i ==> r.bit_set@[x] == ((bytes@[x / 8] / pow2d(
                        (x % 8) as int,
                    ) as u8) % 2 == 1),
            decreases n - i,
        {
            proof {
                assert(i / 8 < bytes@.len()) by {
                    crate::float_bits::lemma_div_bound(i as nat, 8, bytes@.len());
                }
                assert(pow2d((i % 8) as int) <= 128) by {
                    reveal_with_fuel(pow2d, 9);
                }
            }
            let byte = bytes[i / 8];
            let pw: u8 = pow2d_u8((i % 8) as u8);
            let bit = (byte / pw) % 2 == 1;
            r.bit_set[i] = bit;
            i = i + 1;
        }
        r
    }
}

/// Small powers of two for byte packing.
pub open spec fn pow2d(k: int) -> int
    decreases k,
{
    if k <= 0 {
        1
    } else {
        2 * pow2d(k - 1)
    }
}

/// Small powers of two for byte packing, as a machine byte.
pub fn pow2d_u8(k: u8) -> (r: u8)
    requires
        k < 8,
    ensures
        r == pow2d(k as int),
        1 <= r <= 128,
{
    proof {
        reveal_with_fuel(pow2d, 9);
    }
    let mut r: u8 = 1;
    let mut i: u8 = 0;
    while i < k
        invariant
            i <= k,
            k < 8,
            r == pow2d(i as int),
            r <= 128,
        decreases k - i,
    {
        proof {
            reveal_with_fuel(pow2d, 9);
        }
        r = r * 2;
        i = i + 1;
    }
    r
}

/// The bits of packed byte `j` above position `t`, accumulated from the
/// most significant end so that the byte reads least-significant-bit
/// first.
pub open spec fn sp_bloom_byte_acc(bits: Seq<bool>, j: int, t: int) -> u8
    decreases 8 - t,
{
    if t >= 8 {
        0
    } else {
        (2 * sp_bloom_byte_acc(bits, j, t + 1) + (if 0 <= 8 * j + t < bits.len() && bits[8
            * j + t] {
            1int
        } else {
            0int
        })) as u8
    }
}

/// The packed bitset: `ceil(len/8)` bytes, least-significant-bit first.
pub open spec fn sp_bloom_bytes(bits: Seq<bool>) -> Seq<u8> {
    Seq::new(((bits.len() + 7) / 8) as nat, |j: int| sp_bloom_byte_acc(bits, j, 0))
}

/// A packed-byte suffix stays below its bit budget.
pub proof fn lemma_bloom_byte_acc_bound(bits: Seq<bool>, j: int, t: int)
    requires
        0 <= t <= 8,
    ensures
        sp_bloom_byte_acc(bits, j, t) < pow2d(8 - t),
    decreases 8 - t,
{
    if t < 8 {
        lemma_bloom_byte_acc_bound(bits, j, t + 1);
    }
}

/// After adding a path, every one of its hash bits is set.
pub proof fn lemma_set_bits_contains(bits: Seq<bool>, cap: i32, k: int, value: Seq<u8>)
    requires
        cap > 0,
        bits.len() == cap,
        0 <= k <= 8,
    ensures
        sp_contains(sp_set_bits(bits, cap, k, value), cap, k, value),
        sp_set_bits(bits, cap, k, value).len() == cap,
    decreases k,
{
    if k > 0 {
        lemma_set_bits_contains(bits, cap, k - 1, value);
        assert forall|i: int|
            0 <= i < k implies sp_set_bits(bits, cap, k, value)[sp_hash_index(
            cap,
            sp_seed(i),
            value,
        )] by {
            if i < k - 1 {
                assert(sp_set_bits(bits, cap, k - 1, value)[sp_hash_index(
                    cap,
                    sp_seed(i),
                    value,
                )]);
            }
        }
    }
}

/// Adding a path never clears a bit: anything contained before is still
/// contained.
pub proof fn lemma_set_bits_monotone(
    bits: Seq<bool>,
    cap: i32,
    k: int,
    added: Seq<u8>,
    value: Seq<u8>,
)
    requires
        cap > 0,
        bits.len() == cap,
        0 <= k <= 8,
        sp_contains(bits, cap, k, value),
    ensures
        sp_contains(sp_set_bits(bits, cap, k, added), cap, k, value),
    decreases k,
{
    assert forall|i: int|
        0 <= i < k implies sp_set_bits(bits, cap, k, added)[sp_hash_index(
        cap,
        sp_seed(i),
        value,
    )] by {
        lemma_set_bits_preserves_true(bits, cap, k, added, sp_hash_index(
            cap,
            sp_seed(i),
            value,
        ));
    }
}

/// A bit that is set stays set through any number of additions.
pub proof fn lemma_set_bits_preserves_true(
    bits: Seq<bool>,
    cap: i32,
    k: int,
    added: Seq<u8>,
    idx: int,
)
    requires
        cap > 0,
        bits.len() == cap,
        0 <= k <= 8,
        0 <= idx < cap,
        bits[idx],
    ensures
        sp_set_bits(bits, cap, k, added)[idx],
        sp_set_bits(bits, cap, k, added).len() == cap,
    decreases k,
{
    if k > 0 {
        lemma_set_bits_preserves_true(bits, cap, k - 1, added, idx);
        let prev = sp_set_bits(bits, cap, k - 1, added);
        let h = sp_hash_index(cap, sp_seed(k - 1), added);
        assert(sp_set_bits(bits, cap, k, added) == prev.update(h, true));
        if idx == h {
            assert(prev.update(h, true)[idx]);
        } else {
            assert(prev.update(h, true)[idx] == prev[idx]);
        }
    }
}

impl Serializable for BloomFilter {
    open spec fn record_bytes(&self) -> Seq<u8> {
        length_framed(sp_bloom_bytes(self.bit_set@)) + varuint_bytes(self.size as nat)
            + varuint_bytes(self.hash_function_size as nat)
    }

    open spec fn serial_wf(&self) -> bool {
        bloom_wf(*self)
    }

    fn serialize<W: PositionedWrite>(&self, file: &mut W) {
        let bytes = self.serialize_bits();
        let mut buf: Vec<u8> = Vec::new();
        write_var_u32(bytes.len() as u32, &mut buf);
        crate::utils::push_bytes(&mut buf, bytes.as_slice());
        write_var_u32(self.size as u32, &mut buf);
        write_var_u32(self.hash_function_size as u32, &mut buf);
        file.write_all(buf.as_slice());
        proof {
            assert((self.size as u32) as nat == self.size as nat);
            assert((self.hash_function_size as u32) as nat == self.hash_function_size
                as nat);
            assert(file.sunk() =~= old(file).sunk() + self.record_bytes());
        }
    }
}

} // verus!
