//! IEEE-754 arithmetic on raw bit patterns.
//!
//! Statistics carry their running sum as a 64-bit float, and the float value
//! column stores 32-bit floats. Inside the library both are handled as their
//! bit patterns (`u64` / `u32`), and the few operations the writer needs —
//! widening a 32-bit float, converting an integer, adding, comparing — are
//! carried out in integer arithmetic, rounding to nearest-even exactly as the
//! hardware would. Each operation has a specification function that pins the
//! resulting bit pattern down completely.

use vstd::arithmetic::power2::pow2;
use vstd::bits::lemma_u64_pow2_no_overflow;
use vstd::bits::lemma_u64_shl_is_mul;
use vstd::prelude::*;

verus! {

/// The canonical quiet NaN produced by every invalid operation.
pub const F64_QNAN: u64 = 0x7FF8_0000_0000_0000;

/// 2 raised to `k`, as a machine word.
pub fn pow2_u64(k: u64) -> (r: u64)
    requires
        k < 64,
    ensures
        r as nat == pow2(k as nat),
        r >= 1,
{
    proof {
        lemma_u64_pow2_no_overflow(k as nat);
        if k > 0 {
            lemma_u64_shl_is_mul(1u64, k);
        } else {
            assert(1u64 << 0u64 == 1) by (bit_vector);
            assert(pow2(0) == 1) by {
                vstd::arithmetic::power2::lemma2_to64();
            }
        }
    }
    1u64 << k
}

/// Number of binary digits of `n` (zero for zero).
pub open spec fn bit_len(n: nat) -> nat
    decreases n,
{
    if n == 0 {
        0
    } else {
        1 + bit_len(n / 2)
    }
}

/// `n` lies between the two powers of two that its digit count names.
pub proof fn lemma_bit_len_bounds(n: nat)
    ensures
        n < pow2(bit_len(n)),
        n > 0 ==> pow2((bit_len(n) - 1) as nat) <= n,
    decreases n,
{
    vstd::arithmetic::power2::lemma2_to64();
    if n > 0 {
        lemma_bit_len_bounds(n / 2);
        let k = bit_len(n / 2);
        assert(pow2(k + 1) == 2 * pow2(k)) by {
            vstd::arithmetic::power2::lemma_pow2_adds(k, 1);
        }
        if n / 2 > 0 {
            assert(pow2(k) == 2 * pow2((k - 1) as nat)) by {
                vstd::arithmetic::power2::lemma_pow2_adds((k - 1) as nat, 1);
            }
        }
    }
}

/// A 64-bit value has at most 64 binary digits.
pub proof fn lemma_bit_len_64(n: nat)
    ensures
        n < 0x1_0000_0000_0000_0000 ==> bit_len(n) <= 64,
        n >= 0x8000_0000_0000_0000 ==> bit_len(n) >= 64,
{
    lemma_bit_len_bounds(n);
    vstd::arithmetic::power2::lemma2_to64();
    vstd::arithmetic::power2::lemma2_to64_rest();
    if n < 0x1_0000_0000_0000_0000 && bit_len(n) > 64 {
        assert(pow2(64) <= pow2((bit_len(n) - 1) as nat)) by {
            if bit_len(n) - 1 > 64 {
                vstd::arithmetic::power2::lemma_pow2_strictly_increases(
                    64,
                    (bit_len(n) - 1) as nat,
                );
            }
        }
    }
    if n >= 0x8000_0000_0000_0000 && bit_len(n) < 64 {
        assert(pow2(bit_len(n)) <= pow2(63)) by {
            if bit_len(n) < 63 {
                vstd::arithmetic::power2::lemma_pow2_strictly_increases(bit_len(n), 63);
            }
        }
    }
}

/// Number of binary digits of `n`, as a machine word.
pub fn bit_len_u64(n: u64) -> (r: u64)
    ensures
        r == bit_len(n as nat),
        r <= 64,
{
    proof {
        lemma_bit_len_64(n as nat);
    }
    let mut t: u64 = n;
    let mut r: u64 = 0;
    while t > 0
        invariant
            r + bit_len(t as nat) == bit_len(n as nat),
            bit_len(n as nat) <= 64,
        decreases t,
    {
        t = t / 2;
        r = r + 1;
    }
    r
}

/// The sign field of a 64-bit float pattern: 0 or 1.
pub open spec fn f64_sign(b: u64) -> u64 {
    b / 0x8000_0000_0000_0000
}

/// The biased exponent field of a 64-bit float pattern: 0 .. 2047.
pub open spec fn f64_exp(b: u64) -> u64 {
    (b / 0x10_0000_0000_0000) % 0x800
}

/// The fraction field of a 64-bit float pattern: 52 bits.
pub open spec fn f64_frac(b: u64) -> u64 {
    b % 0x10_0000_0000_0000
}

/// True when the pattern is a NaN.
pub open spec fn f64_is_nan(b: u64) -> bool {
    f64_exp(b) == 0x7FF && f64_frac(b) != 0
}

/// Builds a 64-bit float pattern from its three fields.
pub open spec fn f64_make(sign: u64, exp: u64, frac: u64) -> u64
    recommends
        sign <= 1,
        exp <= 0x7FF,
        frac < 0x10_0000_0000_0000,
{
    (sign * 0x8000_0000_0000_0000 + exp * 0x10_0000_0000_0000 + frac) as u64
}

/// The 64-bit float pattern with the value of the 32-bit float pattern `b`
/// (widening is exact; NaNs collapse to the canonical quiet NaN).
#[verifier::opaque]
pub open spec fn spec_f64_from_f32_bits(b: u32) -> u64 {
    let sign = (b / 0x8000_0000) as u64;
    let exp = ((b / 0x80_0000) % 0x100) as u64;
    let frac = (b % 0x80_0000) as u64;
    if exp == 0xFF {
        if frac == 0 {
            f64_make(sign, 0x7FF, 0)
        } else {
            F64_QNAN
        }
    } else if exp == 0 {
        if frac == 0 {
            f64_make(sign, 0, 0)
        } else {
            let n = bit_len(frac as nat);
            f64_make(
                sign,
                (873 + n) as u64,
                ((frac * pow2((53 - n) as nat)) % 0x10_0000_0000_0000) as u64,
            )
        }
    } else {
        f64_make(sign, (exp + 896) as u64, (frac * 0x2000_0000) as u64)
    }
}

/// Widens a 32-bit float pattern to the 64-bit pattern of the same value.
pub fn f64_from_f32_bits(b: u32) -> (r: u64)
    ensures
        r == spec_f64_from_f32_bits(b),
{
    proof {
        reveal(spec_f64_from_f32_bits);
    }
    let sign: u64 = (b / 0x8000_0000) as u64;
    let exp: u64 = ((b / 0x80_0000) % 0x100) as u64;
    let frac: u64 = (b % 0x80_0000) as u64;
    if exp == 0xFF {
        if frac == 0 {
            sign * 0x8000_0000_0000_0000 + 0x7FF0_0000_0000_0000
        } else {
            F64_QNAN
        }
    } else if exp == 0 {
        if frac == 0 {
            sign * 0x8000_0000_0000_0000
        } else {
            let n = bit_len_u64(frac);
            proof {
                lemma_bit_len_bounds(frac as nat);
                assert(bit_len(frac as nat) <= 23) by {
                    if bit_len(frac as nat) > 23 {
                        assert(pow2(23) <= pow2((bit_len(frac as nat) - 1) as nat)) by {
                            if bit_len(frac as nat) - 1 > 23 {
                                vstd::arithmetic::power2::lemma_pow2_strictly_increases(
                                    23,
                                    (bit_len(frac as nat) - 1) as nat,
                                );
                            }
                        }
                        vstd::arithmetic::power2::lemma2_to64();
                    }
                }
                assert(frac * pow2((53 - bit_len(frac as nat)) as nat) < pow2(53)) by {
                    vstd::arithmetic::power2::lemma_pow2_pos(
                        (53 - bit_len(frac as nat)) as nat,
                    );
                    vstd::arithmetic::power2::lemma_pow2_adds(
                        bit_len(frac as nat),
                        (53 - bit_len(frac as nat)) as nat,
                    );
                    vstd::arithmetic::mul::lemma_mul_strict_inequality(
                        frac as int,
                        pow2(bit_len(frac as nat)) as int,
                        pow2((53 - bit_len(frac as nat)) as nat) as int,
                    );
                }
                vstd::arithmetic::power2::lemma2_to64();
                vstd::arithmetic::power2::lemma2_to64_rest();
            }
            let man: u64 = frac * pow2_u64(53 - n);
            sign * 0x8000_0000_0000_0000 + (873 + n) * 0x10_0000_0000_0000 + man
                % 0x10_0000_0000_0000
        }
    } else {
        sign * 0x8000_0000_0000_0000 + (exp + 896) * 0x10_0000_0000_0000 + frac
            * 0x2000_0000
    }
}

/// A quotient is below any bound whose multiple exceeds the dividend.
pub proof fn lemma_div_bound(x: nat, d: nat, b: nat)
    requires
        d > 0,
        x < d * b,
    ensures
        x / d < b,
{
    vstd::arithmetic::div_mod::lemma_fundamental_div_mod(x as int, d as int);
    assert(x as int == d * (x as int / d as int) + (x as int % d as int));
    if x / d >= b {
        vstd::arithmetic::mul::lemma_mul_inequality(b as int, (x / d) as int, d as int);
        assert(b * d <= (x / d) * d);
        assert(d * b <= d * (x as int / d as int)) by {
            vstd::arithmetic::mul::lemma_mul_is_commutative(b as int, d as int);
            vstd::arithmetic::mul::lemma_mul_is_commutative((x / d) as int, d as int);
        }
        assert(false);
    }
}

/// The 64-bit float pattern nearest to the integer `v`, ties to even.
#[verifier::opaque]
pub open spec fn spec_f64_from_i64(v: i64) -> u64 {
    if v == 0 {
        0u64
    } else {
        let sign: u64 = if v < 0 {
            1u64
        } else {
            0u64
        };
        let mag = if v < 0 {
            (-(v as int)) as nat
        } else {
            v as nat
        };
        let n = bit_len(mag);
        if n <= 53 {
            f64_make(
                sign,
                (1022 + n) as u64,
                ((mag * pow2((53 - n) as nat)) % 0x10_0000_0000_0000) as u64,
            )
        } else {
            let p = pow2((n - 53) as nat);
            let man = mag / p;
            let rem = mag % p;
            let half = p / 2;
            let man2 = if rem > half || (rem == half && man % 2 == 1) {
                man + 1
            } else {
                man
            };
            if man2 == 0x20_0000_0000_0000 {
                f64_make(sign, (1023 + n) as u64, 0)
            } else {
                f64_make(sign, (1022 + n) as u64, (man2 % 0x10_0000_0000_0000) as u64)
            }
        }
    }
}

/// Converts an integer to the nearest 64-bit float pattern, ties to even.
pub fn f64_from_i64(v: i64) -> (r: u64)
    ensures
        r == spec_f64_from_i64(v),
{
    proof {
        reveal(spec_f64_from_i64);
    }
    if v == 0 {
        return 0u64;
    }
    let sign: u64 = if v < 0 {
        1
    } else {
        0
    };
    let mag: u64 = if v == i64::MIN {
        0x8000_0000_0000_0000u64
    } else if v < 0 {
        (-v) as u64
    } else {
        v as u64
    };
    let n = bit_len_u64(mag);
    proof {
        lemma_bit_len_bounds(mag as nat);
        lemma_bit_len_64(mag as nat);
        vstd::arithmetic::power2::lemma2_to64();
        vstd::arithmetic::power2::lemma2_to64_rest();
    }
    if n <= 53 {
        proof {
            assert(mag * pow2((53 - n) as nat) < pow2(53)) by {
                vstd::arithmetic::power2::lemma_pow2_pos((53 - n as nat) as nat);
                vstd::arithmetic::power2::lemma_pow2_adds(n as nat, (53 - n) as nat);
                vstd::arithmetic::mul::lemma_mul_strict_inequality(
                    mag as int,
                    pow2(n as nat) as int,
                    pow2((53 - n) as nat) as int,
                );
            }
        }
        let man: u64 = mag * pow2_u64(53 - n);
        sign * 0x8000_0000_0000_0000 + (1022 + n) * 0x10_0000_0000_0000 + man
            % 0x10_0000_0000_0000
    } else {
        let p: u64 = pow2_u64(n - 53);
        proof {
            assert((mag as nat) < pow2((n - 53) as nat) * pow2(53)) by {
                vstd::arithmetic::power2::lemma_pow2_adds((n - 53) as nat, 53);
            }
            lemma_div_bound(mag as nat, pow2((n - 53) as nat), pow2(53));
        }
        let man: u64 = mag / p;
        let rem: u64 = mag % p;
        let half: u64 = p / 2;
        let man2: u64 = if rem > half || (rem == half && man % 2 == 1) {
            man + 1
        } else {
            man
        };
        if man2 == 0x20_0000_0000_0000 {
            sign * 0x8000_0000_0000_0000 + (1023 + n) * 0x10_0000_0000_0000
        } else {
            sign * 0x8000_0000_0000_0000 + (1022 + n) * 0x10_0000_0000_0000 + man2
                % 0x10_0000_0000_0000
        }
    }
}

/// True when the pattern is one of the two zeroes.
pub open spec fn f64_is_zero(b: u64) -> bool {
    f64_exp(b) == 0 && f64_frac(b) == 0
}

/// Mantissa of a finite addend: fraction with the implicit bit (for normal
/// numbers) and three guard bits appended.
pub open spec fn f64_dec_man(b: u64) -> int {
    if f64_exp(b) == 0 {
        f64_frac(b) * 8
    } else {
        (f64_frac(b) + 0x10_0000_0000_0000) * 8
    }
}

/// Effective exponent of a finite addend (subnormals share exponent 1).
pub open spec fn f64_dec_exp(b: u64) -> int {
    if f64_exp(b) == 0 {
        1
    } else {
        f64_exp(b) as int
    }
}

/// True when `a`'s magnitude is at least `b`'s.
pub open spec fn f64_mag_ge(a: u64, b: u64) -> bool {
    f64_dec_exp(a) > f64_dec_exp(b) || (f64_dec_exp(a) == f64_dec_exp(b) && f64_dec_man(a)
        >= f64_dec_man(b))
}

/// Sets the lowest bit: the sticky-bit merge of a shifted-out remainder.
pub open spec fn or1(q: int) -> int {
    if q % 2 == 0 {
        q + 1
    } else {
        q
    }
}

/// The smaller addend's mantissa after alignment by `d` exponent steps,
/// with everything shifted out folded into the sticky bit.
pub open spec fn aligned_low(lm: int, d: int) -> int {
    if d > 57 {
        if lm != 0 {
            1
        } else {
            0
        }
    } else if d > 0 {
        let p = pow2(d as nat) as int;
        if lm % p != 0 {
            or1(lm / p)
        } else {
            lm / p
        }
    } else {
        lm
    }
}

/// Shifts the mantissa up until its leading bit reaches position 55 or the
/// exponent bottoms out at the subnormal range.
pub open spec fn norm2(m: int, x: nat) -> (int, nat)
    decreases x,
{
    if m < 0x80_0000_0000_0000 && x > 1 {
        norm2(m * 2, (x - 1) as nat)
    } else {
        (m, x)
    }
}

/// Normalizes, rounds to nearest-even (three guard bits) and packs a finite
/// sum into a 64-bit float pattern.
pub open spec fn round_pack(s: int, x0: int, m0: int) -> u64 {
    let m1 = norm_fst(s, x0, m0);
    let x1 = norm_snd(s, x0, m0);
    let low = m1 % 8;
    let m2 = m1 / 8;
    let m3 = if low > 4 || (low == 4 && m2 % 2 == 1) {
        m2 + 1
    } else {
        m2
    };
    let (m4, x2): (int, int) = if m3 == 0x20_0000_0000_0000 {
        (m3 / 2, (x1 as int) + 1)
    } else {
        (m3, x1 as int)
    };
    if x2 >= 2047 {
        f64_make(s as u64, 0x7FF, 0)
    } else if m4 < 0x10_0000_0000_0000 {
        f64_make(s as u64, 0, m4 as u64)
    } else {
        f64_make(s as u64, x2 as u64, (m4 % 0x10_0000_0000_0000) as u64)
    }
}

/// The sum of two finite, nonzero 64-bit float patterns.
pub open spec fn add_finite(a: u64, b: u64) -> u64 {
    let h = if f64_mag_ge(a, b) {
        a
    } else {
        b
    };
    let l = if f64_mag_ge(a, b) {
        b
    } else {
        a
    };
    let hs = f64_sign(h) as int;
    let hx = f64_dec_exp(h);
    let hm = f64_dec_man(h);
    let ls = f64_sign(l) as int;
    let lx = f64_dec_exp(l);
    let lm = f64_dec_man(l);
    let lo = aligned_low(lm, hx - lx);
    if hs == ls {
        round_pack(hs, hx, hm + lo)
    } else {
        let m = hm - lo;
        if m == 0 {
            0u64
        } else {
            round_pack(hs, hx, m)
        }
    }
}

/// The IEEE sum of two 64-bit float patterns, rounded to nearest-even; every
/// invalid combination yields the canonical quiet NaN.
#[verifier::opaque]
pub open spec fn spec_f64_add(a: u64, b: u64) -> u64 {
    if f64_is_nan(a) || f64_is_nan(b) {
        F64_QNAN
    } else if f64_exp(a) == 0x7FF && f64_exp(b) == 0x7FF {
        if f64_sign(a) != f64_sign(b) {
            F64_QNAN
        } else {
            a
        }
    } else if f64_exp(a) == 0x7FF {
        a
    } else if f64_exp(b) == 0x7FF {
        b
    } else if f64_is_zero(a) && f64_is_zero(b) {
        if f64_sign(a) == 1 && f64_sign(b) == 1 {
            0x8000_0000_0000_0000u64
        } else {
            0u64
        }
    } else if f64_is_zero(b) {
        a
    } else if f64_is_zero(a) {
        b
    } else {
        add_finite(a, b)
    }
}

/// Adds two 64-bit float patterns with IEEE round-to-nearest-even semantics.
#[verifier::rlimit(100)]
#[verifier::spinoff_prover]
pub fn f64_add(a: u64, b: u64) -> (r: u64)
    ensures
        r == spec_f64_add(a, b),
{
    proof {
        reveal(spec_f64_add);
    }
    let ea: u64 = (a / 0x10_0000_0000_0000) % 0x800;
    let eb: u64 = (b / 0x10_0000_0000_0000) % 0x800;
    let fa: u64 = a % 0x10_0000_0000_0000;
    let fb: u64 = b % 0x10_0000_0000_0000;
    let sa: u64 = a / 0x8000_0000_0000_0000;
    let sb: u64 = b / 0x8000_0000_0000_0000;
    if (ea == 0x7FF && fa != 0) || (eb == 0x7FF && fb != 0) {
        return F64_QNAN;
    }
    if ea == 0x7FF && eb == 0x7FF {
        return if sa != sb {
            F64_QNAN
        } else {
            a
        };
    }
    if ea == 0x7FF {
        return a;
    }
    if eb == 0x7FF {
        return b;
    }
    if ea == 0 && fa == 0 && eb == 0 && fb == 0 {
        return if sa == 1 && sb == 1 {
            0x8000_0000_0000_0000u64
        } else {
            0u64
        };
    }
    if eb == 0 && fb == 0 {
        return a;
    }
    if ea == 0 && fa == 0 {
        return b;
    }
    // Decode both addends.
    let ma: u64 = if ea == 0 {
        fa * 8
    } else {
        (fa + 0x10_0000_0000_0000) * 8
    };
    let xa: u64 = if ea == 0 {
        1
    } else {
        ea
    };
    let mb: u64 = if eb == 0 {
        fb * 8
    } else {
        (fb + 0x10_0000_0000_0000) * 8
    };
    let xb: u64 = if eb == 0 {
        1
    } else {
        eb
    };
    let a_ge = xa > xb || (xa == xb && ma >= mb);
    let (hs, hx, hm): (u64, u64, u64) = if a_ge {
        (sa, xa, ma)
    } else {
        (sb, xb, mb)
    };
    let (ls, lx, lm): (u64, u64, u64) = if a_ge {
        (sb, xb, mb)
    } else {
        (sa, xa, ma)
    };
    proof {
        assert(a_ge == f64_mag_ge(a, b));
    }
    // Align the smaller mantissa, folding shifted-out bits into a sticky bit.
    let d: u64 = hx - lx;
    let lo: u64 = if d > 57 {
        if lm != 0 {
            1
        } else {
            0
        }
    } else if d > 0 {
        let p = pow2_u64(d);
        let q = lm / p;
        if lm % p != 0 {
            if q % 2 == 0 {
                q + 1
            } else {
                q
            }
        } else {
            q
        }
    } else {
        lm
    };
    proof {
        assert(lo == aligned_low(lm as int, hx - lx));
    }
    let s: u64 = hs;
    let m0: u64;
    if hs == ls {
        m0 = hm + lo;
    } else {
        proof {
            lemma_align_le(hx as int, hm as int, lx as int, lm as int);
        }
        m0 = hm - lo;
        if m0 == 0 {
            return 0u64;
        }
    }
    round_pack_exec(s, hx, m0)
}

/// Normalizes, rounds and packs a finite sum; the executable counterpart of
/// [`round_pack`].
fn round_pack_exec(s: u64, x0: u64, m0: u64) -> (r: u64)
    requires
        s <= 1,
        1 <= x0 <= 2046,
        1 <= m0 < 0x200_0000_0000_0000,
    ensures
        r == round_pack(s as int, x0 as int, m0 as int),
{
    let mut m: u64 = m0;
    let mut x: u64 = x0;
    if m >= 0x100_0000_0000_0000 {
        let q = m / 2;
        m = if m % 2 == 1 {
            if q % 2 == 0 {
                q + 1
            } else {
                q
            }
        } else {
            q
        };
        x = x + 1;
        proof {
            assert(norm_fst(s as int, x0 as int, m0 as int) == m as int);
            assert(norm_snd(s as int, x0 as int, m0 as int) == x as nat);
        }
    } else {
        while m < 0x80_0000_0000_0000 && x > 1
            invariant
                m >= 1,
                m < 0x100_0000_0000_0000,
                x >= 1,
                x <= 2046,
                norm2(m0 as int, x0 as nat) == norm2(m as int, x as nat),
            decreases x,
        {
            m = m * 2;
            x = x - 1;
        }
        proof {
            assert(norm2(m as int, x as nat) == (m as int, x as nat));
            assert(norm_fst(s as int, x0 as int, m0 as int) == m as int);
            assert(norm_snd(s as int, x0 as int, m0 as int) == x as nat);
        }
    }
    // Round to nearest, ties to even.
    let low: u64 = m % 8;
    let mut m2: u64 = m / 8;
    let mut x2: u64 = x;
    if low > 4 || (low == 4 && m2 % 2 == 1) {
        m2 = m2 + 1;
        if m2 == 0x20_0000_0000_0000 {
            m2 = m2 / 2;
            x2 = x2 + 1;
        }
    }
    if x2 >= 2047 {
        s * 0x8000_0000_0000_0000 + 0x7FF0_0000_0000_0000
    } else if m2 < 0x10_0000_0000_0000 {
        s * 0x8000_0000_0000_0000 + m2
    } else {
        s * 0x8000_0000_0000_0000 + x2 * 0x10_0000_0000_0000 + m2 % 0x10_0000_0000_0000
    }
}

/// The mantissa after the normalization stage of [`round_pack`].
pub open spec fn norm_fst(s: int, x0: int, m0: int) -> int {
    if m0 >= 0x100_0000_0000_0000 {
        if m0 % 2 == 1 {
            or1(m0 / 2)
        } else {
            m0 / 2
        }
    } else {
        norm2(m0, x0 as nat).0
    }
}

/// The exponent after the normalization stage of [`round_pack`].
pub open spec fn norm_snd(s: int, x0: int, m0: int) -> nat {
    if m0 >= 0x100_0000_0000_0000 {
        (x0 + 1) as nat
    } else {
        norm2(m0, x0 as nat).1
    }
}

/// After alignment the smaller addend never exceeds the larger one.
pub proof fn lemma_align_le(hx: int, hm: int, lx: int, lm: int)
    requires
        1 <= lx <= hx,
        0 <= lm < 0x100_0000_0000_0000,
        hx > lx ==> hm >= 0x80_0000_0000_0000,
        hx == lx ==> hm >= lm,
        hm < 0x100_0000_0000_0000,
    ensures
        aligned_low(lm, hx - lx) <= hm,
{
    let d = hx - lx;
    if d > 57 {
    } else if d > 0 {
        let p = pow2(d as nat) as int;
        assert(p >= 2) by {
            vstd::arithmetic::power2::lemma2_to64();
            if d > 1 {
                vstd::arithmetic::power2::lemma_pow2_strictly_increases(1, d as nat);
            }
        }
        assert(lm / p <= lm / 2) by {
            vstd::arithmetic::div_mod::lemma_div_is_ordered_by_denominator(lm, 2, p);
        }
        assert(lm / 2 < 0x80_0000_0000_0000);
    }
}

/// Addition of 64-bit float patterns is commutative: swapping the addends
/// swaps nothing but the roles of two equal magnitudes, whose sum is the
/// same either way.
pub proof fn lemma_f64_add_commutative(a: u64, b: u64)
    ensures
        spec_f64_add(a, b) == spec_f64_add(b, a),
{
    reveal(spec_f64_add);
    if !(f64_is_nan(a) || f64_is_nan(b)) && f64_exp(a) != 0x7FF && f64_exp(b) != 0x7FF
        && !f64_is_zero(a) && !f64_is_zero(b) {
        if f64_mag_ge(a, b) && f64_mag_ge(b, a) {
            assert(f64_dec_exp(a) == f64_dec_exp(b));
            assert(f64_dec_man(a) == f64_dec_man(b));
            assert(aligned_low(f64_dec_man(b), 0) == f64_dec_man(b));
            if f64_sign(a) != f64_sign(b) {
                assert(add_finite(a, b) == 0u64);
                assert(add_finite(b, a) == 0u64);
            } else {
                assert(add_finite(a, b) == add_finite(b, a));
            }
        }
    }
}

/// IEEE ordering on 32-bit float patterns: true when `a` is strictly below
/// `b`; false whenever either is a NaN, and the two zeroes are equal.
pub open spec fn spec_f32_lt(a: u32, b: u32) -> bool {
    let ea = (a / 0x80_0000) % 0x100;
    let eb = (b / 0x80_0000) % 0x100;
    let fa = a % 0x80_0000;
    let fb = b % 0x80_0000;
    if (ea == 0xFF && fa != 0) || (eb == 0xFF && fb != 0) {
        false
    } else {
        let ma = a % 0x8000_0000;
        let mb = b % 0x8000_0000;
        let sa = a / 0x8000_0000;
        let sb = b / 0x8000_0000;
        if ma == 0 && mb == 0 {
            false
        } else if sa != sb {
            sa == 1
        } else if sa == 0 {
            ma < mb
        } else {
            ma > mb
        }
    }
}

/// Compares two 32-bit float patterns with IEEE `<` semantics.
pub fn f32_lt(a: u32, b: u32) -> (r: bool)
    ensures
        r == spec_f32_lt(a, b),
{
    let ea = (a / 0x80_0000) % 0x100;
    let eb = (b / 0x80_0000) % 0x100;
    let fa = a % 0x80_0000;
    let fb = b % 0x80_0000;
    if (ea == 0xFF && fa != 0) || (eb == 0xFF && fb != 0) {
        false
    } else {
        let ma = a % 0x8000_0000;
        let mb = b % 0x8000_0000;
        let sa = a / 0x8000_0000;
        let sb = b / 0x8000_0000;
        if ma == 0 && mb == 0 {
            false
        } else if sa != sb {
            sa == 1
        } else if sa == 0 {
            ma < mb
        } else {
            ma > mb
        }
    }
}

} // verus!
