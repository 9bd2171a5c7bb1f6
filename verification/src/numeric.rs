//! Bit-level model of IEEE 754 double-precision numbers.
//!
//! The interpreter stores every Scheme number as the raw bit pattern of an
//! IEEE 754 binary64 value, kept in a `u64`.  Everything that has a short
//! exact definition on the bit pattern is implemented and verified here:
//! classification, ordering, sign operations, conversion from integers
//! (round to nearest, ties to even), the truncating cast used for vector
//! indexing, and rendering of integral values.
use vstd::prelude::*;

verus! {

/// Sign bit of a binary64 value.
pub const SIGN_BIT: u64 = 0x8000_0000_0000_0000;

/// All bits except the sign bit.
pub const MAG_MASK: u64 = 0x7FFF_FFFF_FFFF_FFFF;

/// The 52 fraction bits.
pub const FRAC_MASK: u64 = 0x000F_FFFF_FFFF_FFFF;

/// Bit pattern of positive infinity; also the exponent-field mask.
pub const POS_INF: u64 = 0x7FF0_0000_0000_0000;

/// Bit pattern of the canonical quiet NaN.
pub const QUIET_NAN: u64 = 0x7FF8_0000_0000_0000;

/// Bit pattern of +1.0.
pub const ONE_BITS: u64 = 0x3FF0_0000_0000_0000;

/// Magnitude (absolute value) of a bit pattern: the value with the sign bit cleared.
pub open spec fn mag(b: u64) -> u64 {
    b & MAG_MASK
}

/// A bit pattern denotes NaN when its magnitude exceeds that of infinity.
pub open spec fn is_nan_bits(b: u64) -> bool {
    mag(b) > POS_INF
}

/// A bit pattern denotes an infinity when its magnitude equals that of infinity.
pub open spec fn is_inf_bits(b: u64) -> bool {
    mag(b) == POS_INF
}

/// A bit pattern denotes a zero (positive or negative) when its magnitude is zero.
pub open spec fn is_zero_bits(b: u64) -> bool {
    mag(b) == 0
}

/// The sign bit, true for negative values (including negative zero and NaNs).
pub open spec fn sign_bits(b: u64) -> bool {
    b & SIGN_BIT == SIGN_BIT
}

/// Order key of a non-NaN value: magnitude negated when the sign bit is set.
/// On the bit level, IEEE 754 ordering of non-NaN doubles is exactly the
/// integer ordering of these keys; both zeros map to key 0.
pub open spec fn order_key(b: u64) -> int {
    if sign_bits(b) {
        -(mag(b) as int)
    } else {
        mag(b) as int
    }
}

/// IEEE 754 `<` on bit patterns: false when either side is NaN.
pub open spec fn lt_bits(a: u64, b: u64) -> bool {
    &&& !is_nan_bits(a)
    &&& !is_nan_bits(b)
    &&& order_key(a) < order_key(b)
}

/// IEEE 754 `<=` on bit patterns: false when either side is NaN.
pub open spec fn le_bits(a: u64, b: u64) -> bool {
    &&& !is_nan_bits(a)
    &&& !is_nan_bits(b)
    &&& order_key(a) <= order_key(b)
}

/// IEEE 754 `==` on bit patterns: false when either side is NaN; the two
/// zeros compare equal.
pub open spec fn eq_bits(a: u64, b: u64) -> bool {
    &&& !is_nan_bits(a)
    &&& !is_nan_bits(b)
    &&& order_key(a) == order_key(b)
}

/// IEEE 754 negation flips the sign bit and changes nothing else.
pub open spec fn neg_bits(b: u64) -> u64 {
    b ^ SIGN_BIT
}

/// IEEE 754 absolute value clears the sign bit and changes nothing else.
pub open spec fn abs_bits(b: u64) -> u64 {
    b & MAG_MASK
}

pub fn num_is_nan(b: u64) -> (r: bool)
    ensures
        r == is_nan_bits(b),
{
    (b & MAG_MASK) > POS_INF
}

pub fn num_is_zero(b: u64) -> (r: bool)
    ensures
        r == is_zero_bits(b),
{
    (b & MAG_MASK) == 0
}

pub fn num_neg(b: u64) -> (r: u64)
    ensures
        r == neg_bits(b),
{
    b ^ SIGN_BIT
}

pub fn num_abs(b: u64) -> (r: u64)
    ensures
        r == abs_bits(b),
{
    b & MAG_MASK
}

/// Compare the order keys of two non-NaN bit patterns without building the
/// signed keys at run time.
fn key_lt(a: u64, b: u64) -> (r: bool)
    ensures
        r == (order_key(a) < order_key(b)),
{
    let sa = (a & SIGN_BIT) == SIGN_BIT;
    let sb = (b & SIGN_BIT) == SIGN_BIT;
    let ma = a & MAG_MASK;
    let mb = b & MAG_MASK;
    if sa && sb {
        mb < ma
    } else if sa {
        !(ma == 0 && mb == 0)
    } else if sb {
        false
    } else {
        ma < mb
    }
}

pub fn num_lt(a: u64, b: u64) -> (r: bool)
    ensures
        r == lt_bits(a, b),
{
    if num_is_nan(a) || num_is_nan(b) {
        false
    } else {
        key_lt(a, b)
    }
}

pub fn num_le(a: u64, b: u64) -> (r: bool)
    ensures
        r == le_bits(a, b),
{
    if num_is_nan(a) || num_is_nan(b) {
        false
    } else {
        !key_lt(b, a)
    }
}

pub fn num_eq(a: u64, b: u64) -> (r: bool)
    ensures
        r == eq_bits(a, b),
{
    if num_is_nan(a) || num_is_nan(b) {
        false
    } else {
        !key_lt(a, b) && !key_lt(b, a)
    }
}

/// Floor of the base-two logarithm.
pub open spec fn ilog2(n: u64) -> u64
    decreases n,
{
    if n <= 1 {
        0
    } else {
        (1 + ilog2(n / 2)) as u64
    }
}

proof fn lemma_ilog2_below(n: u64, k: nat)
    requires
        1 <= n < vstd::arithmetic::power2::pow2(k),
    ensures
        ilog2(n) < k,
    decreases n,
{
    vstd::arithmetic::power2::lemma_pow2_pos(k);
    vstd::arithmetic::power2::lemma2_to64();
    if n == 1 {
    } else {
        assert(k > 0);
        vstd::arithmetic::power2::lemma_pow2_unfold(k);
        lemma_ilog2_below(n / 2, (k - 1) as nat);
    }
}

proof fn lemma_ilog2_bound(n: u64)
    ensures
        ilog2(n) <= 63,
{
    if n >= 1 {
        vstd::arithmetic::power2::lemma2_to64_rest();
        vstd::arithmetic::power2::lemma2_to64();
        assert(n < vstd::arithmetic::power2::pow2(64));
        lemma_ilog2_below(n, 64);
    }
}

/// `2^ilog2(n) <= n < 2^(ilog2(n) + 1)` for positive `n`, stated with shifts.
proof fn lemma_ilog2_range(n: u64)
    requires
        n >= 1,
    ensures
        ilog2(n) <= 63,
        n >> ilog2(n) == 1,
    decreases n,
{
    lemma_ilog2_bound(n);
    if n <= 1 {
        assert(n >> 0u64 == n) by (bit_vector);
    } else {
        lemma_ilog2_range(n / 2);
        let h = ilog2(n / 2);
        vstd::arithmetic::power2::lemma2_to64_rest();
        vstd::arithmetic::power2::lemma2_to64();
        lemma_ilog2_below(n / 2, 63);
        assert((n / 2) >> h == 1 && h <= 62 ==> n >> ((h + 1) as u64) == 1) by (bit_vector);
    }
}

pub fn exec_ilog2(n: u64) -> (h: u64)
    ensures
        h == ilog2(n),
    decreases n,
{
    if n <= 1 {
        0
    } else {
        let sub = exec_ilog2(n / 2);
        proof {
            lemma_ilog2_bound(n / 2);
        }
        1 + sub
    }
}

/// The combined facts about `ilog2` that its users need.
pub proof fn lemma_ilog2_facts(n: u64, k: nat)
    requires
        1 <= n,
        n < vstd::arithmetic::power2::pow2(k),
    ensures
        ilog2(n) < k,
        ilog2(n) <= 63,
        n >> ilog2(n) == 1,
{
    lemma_ilog2_below(n, k);
    lemma_ilog2_range(n);
}

/// Conversion of an unsigned 64-bit integer to double bits, rounding to
/// nearest with ties to even, written out on the bit level.
pub open spec fn from_u64_bits(n: u64) -> u64 {
    if n == 0 {
        0
    } else {
        let h = ilog2(n);
        if h <= 52 {
            (((h + 1023) as u64) << 52u64) | ((n << ((52 - h) as u64)) & FRAC_MASK)
        } else {
            let shift = (h - 52) as u64;
            let m = n >> shift;
            let rest = n & (((1u64 << shift) - 1) as u64);
            let half = 1u64 << ((shift - 1) as u64);
            let m2 = if rest > half || (rest == half && m & 1 == 1) {
                (m + 1) as u64
            } else {
                m
            };
            if m2 == 1u64 << 53u64 {
                ((h + 1024) as u64) << 52u64
            } else {
                (((h + 1023) as u64) << 52u64) | (m2 & FRAC_MASK)
            }
        }
    }
}

pub fn num_from_u64(n: u64) -> (r: u64)
    ensures
        r == from_u64_bits(n),
{
    if n == 0 {
        0
    } else {
        let h = exec_ilog2(n);
        proof {
            lemma_ilog2_range(n);
        }
        if h <= 52 {
            ((h + 1023) << 52) | ((n << (52 - h)) & FRAC_MASK)
        } else {
            let shift = h - 52;
            let m = n >> shift;
            assert(1u64 << shift >= 1 && (1u64 << shift) - 1 < 0x1000u64) by {
                assert(1 <= shift <= 11 ==> 1u64 << shift >= 1 && 1u64 << shift <= 0x800u64)
                    by (bit_vector);
            }
            let rest = n & ((1u64 << shift) - 1);
            let half = 1u64 << (shift - 1);
            let up = rest > half || (rest == half && m & 1 == 1);
            assert(m < 0xFFFF_FFFF_FFFF_FFFF) by {
                assert(1 <= shift <= 11 ==> n >> shift < 0x8000_0000_0000_0000u64) by (bit_vector);
            }
            let m2 = if up {
                m + 1
            } else {
                m
            };
            if m2 == 1u64 << 53 {
                (h + 1024) << 52
            } else {
                ((h + 1023) << 52) | (m2 & FRAC_MASK)
            }
        }
    }
}

} // verus!

verus! {

/// Truncation of a double toward zero into an unsigned 64-bit range,
/// saturating like Rust's float-to-integer cast: NaN and all negative
/// values give 0, values at or above 2^64 give u64::MAX.
pub open spec fn trunc_u64_bits(b: u64) -> u64 {
    if is_nan_bits(b) || sign_bits(b) {
        0
    } else {
        let ef = b >> 52u64;
        if ef < 1023 {
            0
        } else if ef >= 1087 {
            0xFFFF_FFFF_FFFF_FFFFu64
        } else {
            let m = (b & FRAC_MASK) | (1u64 << 52u64);
            if ef >= 1075 {
                m << ((ef - 1075) as u64)
            } else {
                m >> ((1075 - ef) as u64)
            }
        }
    }
}

pub fn num_trunc_u64(b: u64) -> (r: u64)
    ensures
        r == trunc_u64_bits(b),
{
    if num_is_nan(b) || (b & SIGN_BIT) == SIGN_BIT {
        0
    } else {
        let ef = b >> 52;
        if ef < 1023 {
            0
        } else if ef >= 1087 {
            0xFFFF_FFFF_FFFF_FFFFu64
        } else {
            let m = (b & FRAC_MASK) | (1u64 << 52);
            if ef >= 1075 {
                m << (ef - 1075)
            } else {
                m >> (1075 - ef)
            }
        }
    }
}

/// Whether a double denotes a mathematical integer.
pub open spec fn is_int_bits(b: u64) -> bool {
    if is_nan_bits(b) || is_inf_bits(b) {
        false
    } else if is_zero_bits(b) {
        true
    } else {
        let ef = mag(b) >> 52u64;
        if ef < 1023 {
            false
        } else if ef >= 1075 {
            true
        } else {
            (b & FRAC_MASK) & (((1u64 << ((1075 - ef) as u64)) - 1) as u64) == 0
        }
    }
}

pub fn num_is_int(b: u64) -> (r: bool)
    ensures
        r == is_int_bits(b),
{
    if num_is_nan(b) || (b & MAG_MASK) == POS_INF {
        false
    } else if (b & MAG_MASK) == 0 {
        true
    } else {
        let ef = (b & MAG_MASK) >> 52;
        if ef < 1023 {
            false
        } else if ef >= 1075 {
            true
        } else {
            let low = 1075 - ef;
            assert(1u64 << low >= 1) by {
                assert(1 <= low <= 52 ==> 1u64 << low >= 1) by (bit_vector);
            }
            (b & FRAC_MASK) & ((1u64 << low) - 1) == 0
        }
    }
}

/// The magnitude of an integral double below 2^53, as an integer.
pub open spec fn int_mag_bits(b: u64) -> u64 {
    let ef = mag(b) >> 52u64;
    if is_zero_bits(b) {
        0
    } else {
        let m = (mag(b) & FRAC_MASK) | (1u64 << 52u64);
        m >> ((1075 - ef) as u64)
    }
}

/// Whether the magnitude of an integral double is below 2^53, so that
/// `int_mag_bits` extracts it exactly.
pub open spec fn is_small_int_bits(b: u64) -> bool {
    is_int_bits(b) && (is_zero_bits(b) || mag(b) >> 52u64 <= 1075)
}

pub fn num_int_mag(b: u64) -> (r: u64)
    requires
        is_small_int_bits(b),
    ensures
        r == int_mag_bits(b),
{
    if (b & MAG_MASK) == 0 {
        0
    } else {
        let ef = (b & MAG_MASK) >> 52;
        let m = ((b & MAG_MASK) & FRAC_MASK) | (1u64 << 52);
        m >> (1075 - ef)
    }
}

/// The decimal digit characters of an unsigned integer, most significant first.
pub open spec fn dec_chars(n: u64) -> Seq<char>
    decreases n,
{
    if n < 10 {
        seq![digit_char(n)]
    } else {
        dec_chars(n / 10) + seq![digit_char(n % 10)]
    }
}

/// The character for one decimal digit.
pub open spec fn digit_char(d: u64) -> char {
    if d == 0 {
        '0'
    } else if d == 1 {
        '1'
    } else if d == 2 {
        '2'
    } else if d == 3 {
        '3'
    } else if d == 4 {
        '4'
    } else if d == 5 {
        '5'
    } else if d == 6 {
        '6'
    } else if d == 7 {
        '7'
    } else if d == 8 {
        '8'
    } else {
        '9'
    }
}

fn exec_digit_char(d: u64) -> (c: char)
    requires
        d < 10,
    ensures
        c == digit_char(d),
{
    if d == 0 {
        '0'
    } else if d == 1 {
        '1'
    } else if d == 2 {
        '2'
    } else if d == 3 {
        '3'
    } else if d == 4 {
        '4'
    } else if d == 5 {
        '5'
    } else if d == 6 {
        '6'
    } else if d == 7 {
        '7'
    } else if d == 8 {
        '8'
    } else {
        '9'
    }
}

/// Append the decimal digits of `n` to `out`.
pub fn push_dec_chars(out: &mut Vec<char>, n: u64)
    ensures
        final(out)@ == old(out)@ + dec_chars(n),
    decreases n,
{
    if n < 10 {
        let c = exec_digit_char(n);
        out.push(c);
        proof {
            assert(out@ =~= old(out)@ + dec_chars(n));
        }
    } else {
        push_dec_chars(out, n / 10);
        let c = exec_digit_char(n % 10);
        out.push(c);
        proof {
            assert(out@ =~= old(out)@ + dec_chars(n));
        }
    }
}

} // verus!

verus! {

/// `s` is the integer square root of `x`.
pub open spec fn isqrt_ok(x: nat, s: nat) -> bool {
    s * s <= x < (s + 1) * (s + 1)
}

/// The integer square root, as a function.
pub open spec fn spec_isqrt(x: nat) -> nat {
    choose|s: nat| isqrt_ok(x, s)
}

proof fn lemma_isqrt_unique(x: nat, s1: nat, s2: nat)
    requires
        isqrt_ok(x, s1),
        isqrt_ok(x, s2),
    ensures
        s1 == s2,
{
    assert(s1 < s2 ==> (s1 + 1) * (s1 + 1) <= s2 * s2) by (nonlinear_arith);
    assert(s2 < s1 ==> (s2 + 1) * (s2 + 1) <= s1 * s1) by (nonlinear_arith);
}

/// Binary search for the integer square root of a value below 2^106.
fn exec_isqrt(x: u128) -> (s: u64)
    requires
        x < (1u128 << 106u128),
    ensures
        isqrt_ok(x as nat, s as nat),
        s as nat == spec_isqrt(x as nat),
        s < 0x20_0000_0000_0000u64,
{
    let mut lo: u128 = 0;
    let mut hi: u128 = 0x20_0000_0000_0000;
    proof {
        assert((1u128 << 106u128) == 0x400_0000_0000_0000_0000_0000_0000u128) by (bit_vector);
        assert((0x20_0000_0000_0000u128 as nat) * (0x20_0000_0000_0000u128 as nat)
            == 0x400_0000_0000_0000_0000_0000_0000u128 as nat) by (nonlinear_arith);
    }
    while hi - lo > 1
        invariant
            lo < hi <= 0x20_0000_0000_0000u128,
            (lo as nat) * (lo as nat) <= x as nat,
            (x as nat) < (hi as nat) * (hi as nat),
        decreases hi - lo,
    {
        let mid = lo + (hi - lo) / 2;
        proof {
            assert((mid as nat) * (mid as nat) < 0x1_0000_0000_0000_0000_0000_0000_0000_0000)
                by (nonlinear_arith)
                requires
                    mid <= 0x20_0000_0000_0000u128,
            ;
        }
        if mid * mid <= x {
            lo = mid;
        } else {
            hi = mid;
        }
    }
    proof {
        assert(hi == lo + 1);
        assert(isqrt_ok(x as nat, lo as nat));
        lemma_isqrt_unique(x as nat, lo as nat, spec_isqrt(x as nat));
    }
    assert(lo < 0x20_0000_0000_0000u128);
    lo as u64
}

/// The square root of a double on the bit level: the mantissa is scaled to
/// an integer whose integer square root, rounded to nearest (a tie being
/// impossible), is the result mantissa.  NaN, a negative value other than
/// negative zero, and infinities follow the IEEE 754 rules; both zeros are
/// returned unchanged.
pub open spec fn sqrt_bits(a: u64) -> u64 {
    if is_nan_bits(a) {
        QUIET_NAN
    } else if is_zero_bits(a) {
        a
    } else if sign_bits(a) {
        QUIET_NAN
    } else if is_inf_bits(a) {
        POS_INF
    } else {
        let ef = a >> 52u64;
        let frac = a & FRAC_MASK;
        let msig = if ef > 0 {
            frac | (1u64 << 52u64)
        } else {
            frac << ((52 - ilog2(frac)) as u64)
        };
        let g = if ef > 0 {
            ef as int - 1075
        } else {
            -1074 - (52 - ilog2(frac))
        };
        let m2 = if g % 2 == 0 {
            msig
        } else {
            (2 * msig) as u64
        };
        let g2 = if g % 2 == 0 {
            g
        } else {
            g - 1
        };
        let x = (m2 as nat) * 0x10_0000_0000_0000;
        let s = spec_isqrt(x);
        let r = if x > s * s + s {
            s + 1
        } else {
            s
        };
        let e_half = (g2 - 52) / 2;
        if r == 0x20_0000_0000_0000 {
            (((e_half + 53 + 1023) as u64) << 52u64)
        } else {
            (((e_half + 52 + 1023) as u64) << 52u64) | ((r as u64) & FRAC_MASK)
        }
    }
}

pub fn num_sqrt(a: u64) -> (r: u64)
    ensures
        r == sqrt_bits(a),
{
    if num_is_nan(a) {
        QUIET_NAN
    } else if (a & MAG_MASK) == 0 {
        a
    } else if (a & SIGN_BIT) == SIGN_BIT {
        QUIET_NAN
    } else if (a & MAG_MASK) == POS_INF {
        POS_INF
    } else {
        let ef = a >> 52;
        let frac = a & FRAC_MASK;
        assert(ef < 2047 && (ef == 0 ==> frac >= 1)) by {
            assert(a & 0x7FFF_FFFF_FFFF_FFFFu64 < 0x7FF0_0000_0000_0000u64
                && a & 0x8000_0000_0000_0000u64 != 0x8000_0000_0000_0000u64
                && a & 0x7FFF_FFFF_FFFF_FFFFu64 != 0 ==> a >> 52u64 < 2047 && (a >> 52u64 == 0
                ==> a & 0x000F_FFFF_FFFF_FFFFu64 >= 1)) by (bit_vector);
        }
        let msig: u64;
        let g: i64;
        if ef > 0 {
            msig = frac | (1u64 << 52);
            g = (ef as i64) - 1075;
            proof {
                assert(frac == (a & 0x000F_FFFF_FFFF_FFFFu64) ==> 0x10_0000_0000_0000u64 <= (frac
                    | (1u64 << 52u64)) < 0x20_0000_0000_0000u64) by (bit_vector);
            }
        } else {
            proof {
                vstd::arithmetic::power2::lemma2_to64_rest();
                assert(frac < vstd::arithmetic::power2::pow2(52)) by {
                    assert(frac == (a & 0x000F_FFFF_FFFF_FFFFu64)
                        ==> frac <= 0x000F_FFFF_FFFF_FFFFu64) by (bit_vector);
                }
                lemma_ilog2_below(frac, 52);
                lemma_ilog2_range(frac);
            }
            let h = exec_ilog2(frac);
            msig = frac << (52 - h);
            g = -1074 - (52 - (h as i64));
            proof {
                let hs = ilog2(frac);
                assert(frac >> hs == 1 && hs <= 51 ==> 0x10_0000_0000_0000u64 <= (frac << ((52
                    - hs) as u64)) && (frac << ((52 - hs) as u64)) < 0x20_0000_0000_0000u64)
                    by (bit_vector);
            }
        }
        assert(0x10_0000_0000_0000u64 <= msig < 0x20_0000_0000_0000u64);
        assert(-1126 <= g < 972);
        let m2: u64;
        let g2: i64;
        if g % 2 == 0 {
            m2 = msig;
            g2 = g;
        } else {
            m2 = 2 * msig;
            g2 = g - 1;
        }
        proof {
            assert((g as int) % 2 == 0 <==> g % 2 == 0);
            assert(m2 < 0x40_0000_0000_0000u64 ==> (m2 as u128) * 0x10_0000_0000_0000u128 < (0x400_0000_0000_0000_0000_0000_0000u128))
                by (nonlinear_arith);
            assert((1u128 << 106u128) == 0x400_0000_0000_0000_0000_0000_0000u128) by (bit_vector);
        }
        let x: u128 = (m2 as u128) * 0x10_0000_0000_0000;
        let s = exec_isqrt(x);
        proof {
            assert((s as int) * (s as int) + (s as int) < 0x400_0000_0000_0000_0000_0000_0001int)
                by (nonlinear_arith)
                requires
                    s < 0x20_0000_0000_0000u64,
            ;
        }
        let up = x > (s as u128) * (s as u128) + (s as u128);
        proof {
            assert((s as nat) * (s as nat) + (s as nat) == ((s as u128) * (s as u128) + (
            s as u128)) as nat) by (nonlinear_arith)
                requires
                    s <= 0x20_0000_0000_0000u64,
            ;
        }
        let r: u64 = if up {
            s + 1
        } else {
            s
        };
        let e_half = (g2 - 52) / 2;
        proof {
            assert((g2 as int - 52) % 2 == 0 ==> (g2 - 52) / 2 == ((g2 as int) - 52) / 2);
        }
        if r == 0x20_0000_0000_0000 {
            ((e_half + 53 + 1023) as u64) << 52
        } else {
            (((e_half + 52 + 1023) as u64) << 52) | (r & FRAC_MASK)
        }
    }
}

} // verus!
