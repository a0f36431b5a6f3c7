//! Variable-length integer codec (LEB128-style) and big-endian byte helpers.
//!
//! All length prefixes and string frames of the file format use the unsigned
//! form; signed values go through the zig-zag transform first.

use vstd::prelude::*;

verus! {

/// Byte sequence of the unsigned LEB128 encoding of `n`:
/// seven bits per byte, low-order group first, high bit set on every byte
/// but the last.
pub open spec fn varuint_bytes(n: nat) -> Seq<u8>
    decreases n,
{
    if n < 128 {
        seq![n as u8]
    } else {
        seq![(n % 128 + 128) as u8] + varuint_bytes(n / 128)
    }
}

/// Value read back from an unsigned LEB128 prefix of `s` (zero when `s` has
/// no terminating byte).
pub open spec fn varuint_value(s: Seq<u8>) -> nat
    decreases s.len(),
{
    if s.len() == 0 {
        0
    } else if s[0] < 128 {
        s[0] as nat
    } else {
        (s[0] - 128) as nat + 128 * varuint_value(s.skip(1))
    }
}

/// True when `s` starts with a complete LEB128 encoding: some byte with the
/// continuation bit clear is reached.
pub open spec fn varuint_terminates(s: Seq<u8>) -> bool
    decreases s.len(),
{
    if s.len() == 0 {
        false
    } else if s[0] < 128 {
        true
    } else {
        varuint_terminates(s.skip(1))
    }
}

/// The zig-zag image of `v`: non-negative values map to even numbers,
/// negative ones to odd numbers, so small magnitudes stay small.
pub open spec fn zigzag32(v: i32) -> u32 {
    if v >= 0 {
        (2 * v) as u32
    } else {
        (-2 * (v as int) - 1) as u32
    }
}

/// Byte sequence of the zig-zag signed LEB128 encoding of `v`.
pub open spec fn varint32_bytes(v: i32) -> Seq<u8> {
    varuint_bytes(zigzag32(v) as nat)
}

/// The 8-byte big-endian form of `v`.
pub open spec fn be_u64_bytes(v: u64) -> Seq<u8> {
    seq![
        (v >> 56) as u8,
        (v >> 48) as u8,
        (v >> 40) as u8,
        (v >> 32) as u8,
        (v >> 24) as u8,
        (v >> 16) as u8,
        (v >> 8) as u8,
        v as u8,
    ]
}

/// The 4-byte big-endian form of `v`.
pub open spec fn be_u32_bytes(v: u32) -> Seq<u8> {
    seq![(v >> 24) as u8, (v >> 16) as u8, (v >> 8) as u8, v as u8]
}

/// The 8-byte big-endian two's-complement form of `v`.
pub open spec fn be_i64_bytes(v: i64) -> Seq<u8> {
    be_u64_bytes(v as u64)
}

/// The 4-byte big-endian two's-complement form of `v`.
pub open spec fn be_i32_bytes(v: i32) -> Seq<u8> {
    be_u32_bytes(v as u32)
}

/// Appends the unsigned LEB128 encoding of `num` to `buffer` and returns the
/// number of bytes written.
pub fn write_var_u32(num: u32, buffer: &mut Vec<u8>) -> (n: usize)
    ensures
        final(buffer)@ == old(buffer)@ + varuint_bytes(num as nat),
        n == varuint_bytes(num as nat).len(),
        1 <= n <= 5,
{
    proof {
        lemma_varuint_bytes_len(num as nat);
    }
    let ghost orig = buffer@;
    let mut value: u32 = num;
    let mut n: usize = 0;
    while value >= 128
        invariant
            orig + varuint_bytes(num as nat) =~= buffer@ + varuint_bytes(value as nat),
            n + varuint_bytes(value as nat).len() == varuint_bytes(num as nat).len(),
            varuint_bytes(num as nat).len() <= 5,
        decreases value,
    {
        let ghost prev = buffer@;
        let ghost value0 = value;
        let b: u8 = (value % 128 + 128) as u8;
        buffer.push(b);
        value = value / 128;
        n = n + 1;
        proof {
            assert(varuint_bytes(value0 as nat) == seq![b] + varuint_bytes(value as nat));
            assert(prev + varuint_bytes(value0 as nat) =~= buffer@ + varuint_bytes(
                value as nat,
            ));
        }
    }
    let ghost prev = buffer@;
    buffer.push(value as u8);
    proof {
        assert(varuint_bytes(value as nat) == seq![value as u8]);
        assert(prev + varuint_bytes(value as nat) =~= buffer@);
        assert(buffer@ =~= orig + varuint_bytes(num as nat));
    }
    n + 1
}

/// Appends the zig-zag signed LEB128 encoding of `num` to `buffer` and
/// returns the number of bytes written.
pub fn write_var_i32(num: i32, buffer: &mut Vec<u8>) -> (n: usize)
    ensures
        final(buffer)@ == old(buffer)@ + varint32_bytes(num),
        n == varint32_bytes(num).len(),
        1 <= n <= 5,
{
    let z: u32 = if num >= 0 {
        (num as u32) * 2
    } else {
        let m: i64 = -(num as i64);
        (m * 2 - 1) as u32
    };
    assert(z == zigzag32(num));
    write_var_u32(z, buffer)
}

/// Reads the unsigned LEB128 value that starts at `bytes[pos]`.
pub fn read_var_u32_at(bytes: &[u8], pos: usize) -> (r: u32)
    requires
        pos < bytes@.len(),
        varuint_terminates(bytes@.skip(pos as int)),
        varuint_value(bytes@.skip(pos as int)) < 0x1_0000_0000,
    ensures
        r as nat == varuint_value(bytes@.skip(pos as int)),
    decreases bytes@.len() - pos,
{
    let b = bytes[pos];
    if b < 128 {
        b as u32
    } else {
        proof {
            assert(bytes@.skip(pos as int).skip(1) =~= bytes@.skip(pos as int + 1));
            assert(varuint_terminates(bytes@.skip(pos as int + 1)));
            assert(bytes@.skip(pos as int + 1).len() > 0);
        }
        let rest = read_var_u32_at(bytes, pos + 1);
        (b - 128) as u32 + 128 * rest
    }
}

/// Reads the unsigned LEB128 value at the start of `bytes`.
pub fn read_var_u32(bytes: &[u8]) -> (r: u32)
    requires
        varuint_terminates(bytes@),
        varuint_value(bytes@) < 0x1_0000_0000,
    ensures
        r as nat == varuint_value(bytes@),
{
    proof {
        assert(bytes@.skip(0) =~= bytes@);
    }
    read_var_u32_at(bytes, 0)
}

/// An unsigned LEB128 encoding takes one byte per started 7-bit group:
/// at most five bytes for any value below 2^35.
pub proof fn lemma_varuint_bytes_len(n: nat)
    ensures
        1 <= varuint_bytes(n).len(),
        n < 128 ==> varuint_bytes(n).len() == 1,
        n < 0x8_0000_0000 ==> varuint_bytes(n).len() <= 5,
{
    if n < 0x8_0000_0000 {
        assert(pow128(5) == 0x8_0000_0000) by {
            reveal_with_fuel(pow128, 6);
        }
        lemma_varuint_len_bound(n, 5);
    }
}

/// Values below 128^k encode in at most `k` bytes.
pub proof fn lemma_varuint_len_bound(n: nat, k: nat)
    requires
        k >= 1,
        n < pow128(k),
    ensures
        varuint_bytes(n).len() <= k,
    decreases k,
{
    if n >= 128 {
        assert(k != 1) by {
            reveal_with_fuel(pow128, 2);
        }
        lemma_varuint_len_bound(n / 128, (k - 1) as nat);
    }
}

/// 128 raised to `k`.
pub open spec fn pow128(k: nat) -> nat
    decreases k,
{
    if k == 0 {
        1
    } else {
        128 * pow128((k - 1) as nat)
    }
}

/// Decoding an encoding recovers the value, whatever follows it: the
/// terminating byte of the encoding stops the read.
pub proof fn lemma_varuint_parse(n: nat, rest: Seq<u8>)
    ensures
        varuint_terminates(varuint_bytes(n) + rest),
        varuint_value(varuint_bytes(n) + rest) == n,
    decreases n,
{
    let s = varuint_bytes(n) + rest;
    if n < 128 {
        assert(s[0] == n as u8);
    } else {
        lemma_varuint_parse(n / 128, rest);
        assert(s.skip(1) =~= varuint_bytes(n / 128) + rest);
        assert(s[0] == (n % 128 + 128) as u8);
        assert((s[0] - 128) as nat + 128 * varuint_value(s.skip(1)) == n % 128 + 128 * (n
            / 128));
    }
}

/// Round trip of the unsigned codec: reading back an encoded 32-bit value
/// yields the value again, and the encoding takes one to five bytes.
pub proof fn lemma_varuint_roundtrip(u: u32)
    ensures
        varuint_terminates(varuint_bytes(u as nat)),
        varuint_value(varuint_bytes(u as nat)) == u,
        1 <= varuint_bytes(u as nat).len() <= 5,
{
    lemma_varuint_parse(u as nat, Seq::<u8>::empty());
    assert(varuint_bytes(u as nat) + Seq::<u8>::empty() =~= varuint_bytes(u as nat));
    lemma_varuint_bytes_len(u as nat);
}

/// A length-framed chunk of bytes: the unsigned LEB128 length, then the bytes.
pub open spec fn length_framed(b: Seq<u8>) -> Seq<u8> {
    varuint_bytes(b.len()) + b
}

/// Every `varuint(length) | bytes` frame declares exactly the length of the
/// framed bytes: reading the length prefix back gives `bytes.len()`.
pub proof fn lemma_framed_length(b: Seq<u8>)
    ensures
        varuint_value(length_framed(b)) == b.len(),
        varuint_terminates(length_framed(b)),
{
    lemma_varuint_parse(b.len(), b);
}

/// Compares two byte strings for equality.
pub fn bytes_eq(a: &[u8], b: &[u8]) -> (r: bool)
    ensures
        r == (a@ == b@),
{
    if a.len() != b.len() {
        proof {
            assert(a@.len() != b@.len());
        }
        return false;
    }
    let n = a.len();
    let mut i: usize = 0;
    while i < n
        invariant
            n == a@.len(),
            n == b@.len(),
            i <= n,
            forall|k: int| 0 <= k < i ==> a@[k] == b@[k],
        decreases n - i,
    {
        if a[i] != b[i] {
            return false;
        }
        i = i + 1;
    }
    proof {
        assert(a@ =~= b@);
    }
    true
}

/// Appends all of `src` to `dst`.
pub fn push_bytes(dst: &mut Vec<u8>, src: &[u8])
    ensures
        final(dst)@ == old(dst)@ + src@,
{
    let n = src.len();
    let mut i: usize = 0;
    while i < n
        invariant
            n == src@.len(),
            i <= n,
            dst@ == old(dst)@ + src@.take(i as int),
        decreases n - i,
    {
        dst.push(src[i]);
        i = i + 1;
        proof {
            assert(dst@ =~= old(dst)@ + src@.take(i as int));
        }
    }
    proof {
        assert(src@.take(n as int) =~= src@);
    }
}

/// Appends the string frame of `id` to `dst`: the byte length as a zig-zag
/// varint, then the bytes.
pub fn push_str_frame(dst: &mut Vec<u8>, id: &[u8])
    requires
        id@.len() <= i32::MAX,
    ensures
        final(dst)@ == old(dst)@ + varint32_bytes(id@.len() as i32) + id@,
{
    write_var_i32(id.len() as i32, dst);
    push_bytes(dst, id);
}

/// Appends the 8-byte big-endian form of `v` to `buffer`.
pub fn push_be_u64(buffer: &mut Vec<u8>, v: u64)
    ensures
        final(buffer)@ == old(buffer)@ + be_u64_bytes(v),
{
    buffer.push((v >> 56) as u8);
    buffer.push((v >> 48) as u8);
    buffer.push((v >> 40) as u8);
    buffer.push((v >> 32) as u8);
    buffer.push((v >> 24) as u8);
    buffer.push((v >> 16) as u8);
    buffer.push((v >> 8) as u8);
    buffer.push(v as u8);
    proof {
        assert(buffer@ =~= old(buffer)@ + be_u64_bytes(v));
    }
}

/// Appends the 4-byte big-endian form of `v` to `buffer`.
pub fn push_be_u32(buffer: &mut Vec<u8>, v: u32)
    ensures
        final(buffer)@ == old(buffer)@ + be_u32_bytes(v),
{
    buffer.push((v >> 24) as u8);
    buffer.push((v >> 16) as u8);
    buffer.push((v >> 8) as u8);
    buffer.push(v as u8);
    proof {
        assert(buffer@ =~= old(buffer)@ + be_u32_bytes(v));
    }
}

/// Appends the 8-byte big-endian two's-complement form of `v` to `buffer`.
pub fn push_be_i64(buffer: &mut Vec<u8>, v: i64)
    ensures
        final(buffer)@ == old(buffer)@ + be_i64_bytes(v),
{
    push_be_u64(buffer, v as u64);
}

/// Appends the 4-byte big-endian two's-complement form of `v` to `buffer`.
pub fn push_be_i32(buffer: &mut Vec<u8>, v: i32)
    ensures
        final(buffer)@ == old(buffer)@ + be_i32_bytes(v),
{
    push_be_u32(buffer, v as u32);
}

} // verus!
