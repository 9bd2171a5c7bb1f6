//! The power operation on doubles given as bit patterns.
//!
//! All special cases of the IEEE 754 `pow` operation (a zero, infinite or
//! NaN base or exponent, a negative base, an exponent of zero) are decided
//! here and verified; only the core — a finite positive base raised to a
//! finite nonzero power — is delegated to the arbitrary-precision backend,
//! whose 64-bit result is rounded to a double here.
use crate::backend::pow_parts;
use crate::backend::pow_core;
use crate::numeric::FRAC_MASK;
use crate::numeric::MAG_MASK;
use crate::numeric::ONE_BITS;
use crate::numeric::POS_INF;
use crate::numeric::QUIET_NAN;
use crate::numeric::SIGN_BIT;
use crate::numeric::ilog2;
use crate::numeric::is_inf_bits;
use crate::numeric::is_int_bits;
use crate::numeric::is_nan_bits;
use crate::numeric::is_zero_bits;
use crate::numeric::mag;
use crate::numeric::neg_bits;
use crate::numeric::num_is_int;
use crate::numeric::num_is_nan;
use crate::numeric::sign_bits;
use vstd::prelude::*;

verus! {

/// Bit pattern of negative infinity.
pub const NEG_INF: u64 = 0xFFF0_0000_0000_0000;

/// Whether a double denotes an odd integer.
pub open spec fn odd_int_bits(b: u64) -> bool {
    let ef = mag(b) >> 52u64;
    if ef < 1023 || ef >= 1076 {
        false
    } else {
        ((mag(b) & FRAC_MASK) | (1u64 << 52u64)) >> ((1075 - ef) as u64) & 1 == 1
    }
}

pub fn num_int_is_odd(b: u64) -> (r: bool)
    ensures
        r == odd_int_bits(b),
{
    let ef = (b & MAG_MASK) >> 52;
    if ef < 1023 || ef >= 1076 {
        false
    } else {
        (((b & MAG_MASK) & FRAC_MASK) | (1u64 << 52)) >> (1075 - ef) & 1 == 1
    }
}

/// The normalized mantissa of a positive finite nonzero double: the 53-bit
/// significand, shifted up for a subnormal value.
pub open spec fn pos_sig(b: u64) -> u64 {
    let ef = b >> 52u64;
    let frac = b & FRAC_MASK;
    if ef > 0 {
        frac | (1u64 << 52u64)
    } else {
        frac << ((52 - ilog2(frac)) as u64)
    }
}

/// The binary exponent of a positive finite nonzero double, so that its
/// value is `pos_sig(b) * 2^pos_exp(b)`.
pub open spec fn pos_exp(b: u64) -> int {
    let ef = b >> 52u64;
    let frac = b & FRAC_MASK;
    if ef > 0 {
        ef as int - 1075
    } else {
        -1074 - (52 - ilog2(frac))
    }
}

/// Split a positive finite nonzero double into normalized mantissa and
/// binary exponent.
fn decomp_pos(b: u64) -> (r: (u64, i64))
    requires
        !is_nan_bits(b),
        !is_inf_bits(b),
        !is_zero_bits(b),
        !sign_bits(b),
    ensures
        r.0 == pos_sig(b),
        r.1 == pos_exp(b),
        0x10_0000_0000_0000u64 <= r.0 < 0x20_0000_0000_0000u64,
        -1126 <= r.1 < 972,
{
    let ef = b >> 52;
    let frac = b & FRAC_MASK;
    assert(ef < 2047 && (ef == 0 ==> frac >= 1)) by {
        assert(b & 0x7FFF_FFFF_FFFF_FFFFu64 < 0x7FF0_0000_0000_0000u64 && b
            & 0x8000_0000_0000_0000u64 != 0x8000_0000_0000_0000u64 && b
            & 0x7FFF_FFFF_FFFF_FFFFu64 != 0 ==> b >> 52u64 < 2047 && (b >> 52u64 == 0 ==> b
            & 0x000F_FFFF_FFFF_FFFFu64 >= 1)) by (bit_vector);
    }
    if ef > 0 {
        proof {
            assert(frac == (b & 0x000F_FFFF_FFFF_FFFFu64) ==> 0x10_0000_0000_0000u64 <= (frac | (
            1u64 << 52u64)) < 0x20_0000_0000_0000u64) by (bit_vector);
        }
        (frac | (1u64 << 52), (ef as i64) - 1075)
    } else {
        proof {
            vstd::arithmetic::power2::lemma2_to64_rest();
            assert(frac < vstd::arithmetic::power2::pow2(52)) by {
                assert(frac == (b & 0x000F_FFFF_FFFF_FFFFu64) ==> frac
                    <= 0x000F_FFFF_FFFF_FFFFu64) by (bit_vector);
            }
            crate::numeric::lemma_ilog2_facts(frac, 52);
        }
        let h = crate::numeric::exec_ilog2(frac);
        proof {
            let hs = ilog2(frac);
            assert(frac >> hs == 1 && hs <= 51 ==> 0x10_0000_0000_0000u64 <= (frac << ((52
                - hs) as u64)) && (frac << ((52 - hs) as u64)) < 0x20_0000_0000_0000u64)
                by (bit_vector);
        }
        (frac << (52 - h), -1074 - (52 - (h as i64)))
    }
}

/// Round a positive value `w * 2^e2` (with `sticky` saying whether the true
/// value is slightly larger) to the nearest double, ties to even,
/// overflowing to infinity and underflowing through the subnormal range.
pub open spec fn round_pos_bits(w: u64, e2: int, sticky: bool) -> u64 {
    if w == 0 {
        0
    } else {
        let h = ilog2(w);
        let eeff = h + e2;
        if eeff > 1023 {
            POS_INF
        } else if eeff >= -1022 {
            if h <= 52 {
                (((eeff + 1023) as u64) << 52u64) | ((w << ((52 - h) as u64)) & FRAC_MASK)
            } else {
                let shift = (h - 52) as u64;
                let m = w >> shift;
                let rest = w & (((1u64 << shift) - 1) as u64);
                let half = 1u64 << ((shift - 1) as u64);
                let m2 = if rest > half || (rest == half && (sticky || m & 1 == 1)) {
                    (m + 1) as u64
                } else {
                    m
                };
                if m2 == 1u64 << 53u64 {
                    if eeff == 1023 {
                        POS_INF
                    } else {
                        ((eeff + 1024) as u64) << 52u64
                    }
                } else {
                    (((eeff + 1023) as u64) << 52u64) | (m2 & FRAC_MASK)
                }
            }
        } else {
            if e2 + 1074 >= 0 {
                w << ((e2 + 1074) as u64)
            } else {
                let sh = -(e2 + 1074);
                if sh > 64 {
                    0
                } else if sh == 64 {
                    if w > 1u64 << 63u64 || (w == 1u64 << 63u64 && sticky) {
                        1
                    } else {
                        0
                    }
                } else {
                    let m = w >> (sh as u64);
                    let rest = w & (((1u64 << (sh as u64)) - 1) as u64);
                    let half = 1u64 << ((sh - 1) as u64);
                    if rest > half || (rest == half && (sticky || m & 1 == 1)) {
                        (m + 1) as u64
                    } else {
                        m
                    }
                }
            }
        }
    }
}

fn round_pos_to_double(w: u64, e2: i64, sticky: bool) -> (r: u64)
    requires
        -0x1_0000_0000 <= e2 <= 0x1_0000_0000,
    ensures
        r == round_pos_bits(w, e2 as int, sticky),
{
    if w == 0 {
        0
    } else {
        proof {
            vstd::arithmetic::power2::lemma2_to64_rest();
            vstd::arithmetic::power2::lemma2_to64();
            crate::numeric::lemma_ilog2_facts(w, 64);
        }
        let h = crate::numeric::exec_ilog2(w);
        let eeff = (h as i64) + e2;
        if eeff > 1023 {
            POS_INF
        } else if eeff >= -1022 {
            if h <= 52 {
                (((eeff + 1023) as u64) << 52) | ((w << (52 - h)) & FRAC_MASK)
            } else {
                let shift = h - 52;
                proof {
                    let hg = ilog2(w);
                    assert(w >> hg == 1 && hg <= 63 && 53 <= hg ==> w >> ((hg - 52) as u64)
                        < 0x8000_0000_0000_0000u64 && 1u64 << ((hg - 52) as u64) >= 2)
                        by (bit_vector);
                }
                let m = w >> shift;
                let rest = w & ((1u64 << shift) - 1);
                let half = 1u64 << (shift - 1);
                let m2 = if rest > half || (rest == half && (sticky || m & 1 == 1)) {
                    m + 1
                } else {
                    m
                };
                if m2 == 1u64 << 53 {
                    if eeff == 1023 {
                        POS_INF
                    } else {
                        ((eeff + 1024) as u64) << 52
                    }
                } else {
                    (((eeff + 1023) as u64) << 52) | (m2 & FRAC_MASK)
                }
            }
        } else {
            if e2 + 1074 >= 0 {
                assert(e2 + 1074 < 64);
                w << ((e2 + 1074) as u64)
            } else {
                let sh = -(e2 + 1074);
                if sh > 64 {
                    0
                } else if sh == 64 {
                    if w > 1u64 << 63 || (w == 1u64 << 63 && sticky) {
                        1
                    } else {
                        0
                    }
                } else {
                    proof {
                        assert(1 <= sh <= 63 ==> w >> (sh as u64) < 0x8000_0000_0000_0000u64
                            && 1u64 << (sh as u64) >= 2) by (bit_vector);
                    }
                    let m = w >> (sh as u64);
                    let rest = w & ((1u64 << (sh as u64)) - 1);
                    let half = 1u64 << ((sh - 1) as u64);
                    if rest > half || (rest == half && (sticky || m & 1 == 1)) {
                        m + 1
                    } else {
                        m
                    }
                }
            }
        }
    }
}

/// The backend power of a positive finite nonzero base and a finite
/// nonzero exponent, rounded to a double.
pub open spec fn pow_pos_bits(a: u64, b: u64) -> u64 {
    let parts = pow_parts(
        (pos_sig(a) << 11u64) as u64,
        (pos_exp(a) + 53) as i32,
        (pos_sig(mag(b)) << 11u64) as u64,
        (pos_exp(mag(b)) + 53) as i32,
        sign_bits(b),
    );
    if parts.0 == 0 {
        round_pos_bits(parts.1, parts.2 - 64, parts.3)
    } else if parts.0 == 1 {
        POS_INF
    } else if parts.0 == 2 {
        0
    } else {
        QUIET_NAN
    }
}

fn num_pow_pos(a: u64, b: u64) -> (r: u64)
    requires
        !is_nan_bits(a),
        !is_inf_bits(a),
        !is_zero_bits(a),
        !sign_bits(a),
        !is_nan_bits(b),
        !is_inf_bits(b),
        !is_zero_bits(b),
    ensures
        r == pow_pos_bits(a, b),
{
    let (am, ae) = decomp_pos(a);
    let babs = b & MAG_MASK;
    proof {
        assert(b & 0x7FFF_FFFF_FFFF_FFFFu64 == (b & 0x7FFF_FFFF_FFFF_FFFFu64)
            & 0x7FFF_FFFF_FFFF_FFFFu64 && (b & 0x7FFF_FFFF_FFFF_FFFFu64)
            & 0x8000_0000_0000_0000u64 != 0x8000_0000_0000_0000u64) by (bit_vector);
    }
    let (bm, be) = decomp_pos(babs);
    let parts = pow_core(am << 11, (ae + 53) as i32, bm << 11, (be + 53) as i32, (b & SIGN_BIT)
        == SIGN_BIT);
    if parts.0 == 0 {
        round_pos_to_double(parts.1, (parts.2 as i64) - 64, parts.3)
    } else if parts.0 == 1 {
        POS_INF
    } else if parts.0 == 2 {
        0
    } else {
        QUIET_NAN
    }
}

/// The IEEE 754 power operation on bit patterns: the special cases follow
/// the rules documented for floating-point `pow` (an exponent of zero gives
/// one for every base, a base of exactly one gives one for every exponent,
/// NaN otherwise propagates, zeros and infinities follow the sign of the
/// exponent and its parity as an integer, a negative base demands an
/// integral exponent), and the rest is `pow_pos_bits`.
pub open spec fn pow_bits(a: u64, b: u64) -> u64 {
    if is_zero_bits(b) {
        ONE_BITS
    } else if a == ONE_BITS {
        ONE_BITS
    } else if is_nan_bits(a) || is_nan_bits(b) {
        QUIET_NAN
    } else if is_inf_bits(b) {
        if mag(a) == ONE_BITS {
            ONE_BITS
        } else if (mag(a) > ONE_BITS) == !sign_bits(b) {
            POS_INF
        } else {
            0
        }
    } else if is_inf_bits(a) {
        if !sign_bits(a) {
            if sign_bits(b) {
                0
            } else {
                POS_INF
            }
        } else {
            let odd = is_int_bits(b) && odd_int_bits(b);
            if sign_bits(b) {
                if odd {
                    SIGN_BIT
                } else {
                    0
                }
            } else {
                if odd {
                    NEG_INF
                } else {
                    POS_INF
                }
            }
        }
    } else if is_zero_bits(a) {
        let odd = is_int_bits(b) && odd_int_bits(b);
        if sign_bits(b) {
            if sign_bits(a) && odd {
                NEG_INF
            } else {
                POS_INF
            }
        } else {
            if sign_bits(a) && odd {
                SIGN_BIT
            } else {
                0
            }
        }
    } else if sign_bits(a) {
        if !is_int_bits(b) {
            QUIET_NAN
        } else if odd_int_bits(b) {
            neg_bits(pow_pos_bits(mag(a), b))
        } else {
            pow_pos_bits(mag(a), b)
        }
    } else {
        pow_pos_bits(a, b)
    }
}

pub fn num_pow(a: u64, b: u64) -> (r: u64)
    ensures
        r == pow_bits(a, b),
{
    if (b & MAG_MASK) == 0 {
        ONE_BITS
    } else if a == ONE_BITS {
        ONE_BITS
    } else if num_is_nan(a) || num_is_nan(b) {
        QUIET_NAN
    } else if (b & MAG_MASK) == POS_INF {
        if (a & MAG_MASK) == ONE_BITS {
            ONE_BITS
        } else if ((a & MAG_MASK) > ONE_BITS) == ((b & SIGN_BIT) != SIGN_BIT) {
            POS_INF
        } else {
            0
        }
    } else if (a & MAG_MASK) == POS_INF {
        if (a & SIGN_BIT) != SIGN_BIT {
            if (b & SIGN_BIT) == SIGN_BIT {
                0
            } else {
                POS_INF
            }
        } else {
            let odd = num_is_int(b) && num_int_is_odd(b);
            if (b & SIGN_BIT) == SIGN_BIT {
                if odd {
                    SIGN_BIT
                } else {
                    0
                }
            } else {
                if odd {
                    NEG_INF
                } else {
                    POS_INF
                }
            }
        }
    } else if (a & MAG_MASK) == 0 {
        let odd = num_is_int(b) && num_int_is_odd(b);
        if (b & SIGN_BIT) == SIGN_BIT {
            if (a & SIGN_BIT) == SIGN_BIT && odd {
                NEG_INF
            } else {
                POS_INF
            }
        } else {
            if (a & SIGN_BIT) == SIGN_BIT && odd {
                SIGN_BIT
            } else {
                0
            }
        }
    } else if (a & SIGN_BIT) == SIGN_BIT {
        proof {
            assert((a & 0x7FFF_FFFF_FFFF_FFFFu64) & 0x8000_0000_0000_0000u64
                != 0x8000_0000_0000_0000u64 && (a & 0x7FFF_FFFF_FFFF_FFFFu64)
                & 0x7FFF_FFFF_FFFF_FFFFu64 == a & 0x7FFF_FFFF_FFFF_FFFFu64) by (bit_vector);
        }
        if !num_is_int(b) {
            QUIET_NAN
        } else {
            let mag_a = a & MAG_MASK;
            let p = num_pow_pos(mag_a, b);
            if num_int_is_odd(b) {
                p ^ SIGN_BIT
            } else {
                p
            }
        }
    } else {
        num_pow_pos(a, b)
    }
}

} // verus!
