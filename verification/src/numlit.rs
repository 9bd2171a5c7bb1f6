//! Recognition and conversion of floating-point literals.
//!
//! A token is a number when it matches the grammar that std documents for
//! parsing doubles: an optional sign, then `inf`, `infinity` or `nan` in
//! any letter case, or digits with an optional point and an optional
//! `e`-exponent.  The grammar, the special values and the sign are decided
//! here and verified; a literal with digits is brought to the canonical
//! form `DIGITSeEXP` and handed to the correctly rounded decimal
//! conversion of the backend.  Both conversions round to nearest, so the
//! value is the one std's own parsing would give.
use crate::backend::decimal_bits;
use crate::backend::parse_decimal;
use crate::numeric::POS_INF;
use crate::numeric::QUIET_NAN;
use crate::numeric::SIGN_BIT;
use crate::numeric::dec_chars;
use crate::numeric::push_dec_chars;
use crate::text::chars_to_string;
use crate::text::copy_range;
use vstd::prelude::*;

verus! {

/// A decimal digit.
pub open spec fn is_digit(c: char) -> bool {
    c == '0' || c == '1' || c == '2' || c == '3' || c == '4' || c == '5' || c == '6' || c == '7'
        || c == '8' || c == '9'
}

/// The value of a decimal digit.
pub open spec fn digit_val(c: char) -> u64 {
    if c == '0' {
        0
    } else if c == '1' {
        1
    } else if c == '2' {
        2
    } else if c == '3' {
        3
    } else if c == '4' {
        4
    } else if c == '5' {
        5
    } else if c == '6' {
        6
    } else if c == '7' {
        7
    } else if c == '8' {
        8
    } else {
        9
    }
}

/// The first index at or after `i` that does not hold a digit.
pub open spec fn digits_end(s: Seq<char>, i: int) -> int
    decreases s.len() - i,
{
    if 0 <= i < s.len() && is_digit(s[i]) {
        digits_end(s, i + 1)
    } else {
        i
    }
}

/// The saturated value of a digit run: exact up to 10^12, held above it
/// otherwise.  The cap only matters for exponents too large for any
/// finite double anyway.
pub open spec fn exp_sat(s: Seq<char>, i: int, acc: u64) -> u64
    decreases s.len() - i,
{
    if 0 <= i < s.len() {
        exp_sat(
            s,
            i + 1,
            if acc > 1_000_000_000_000 {
                acc
            } else {
                (acc * 10 + digit_val(s[i])) as u64
            },
        )
    } else {
        acc
    }
}

/// One character compared against both letter cases.
pub open spec fn ci_eq(c: char, lo: char, up: char) -> bool {
    c == lo || c == up
}

/// The word `inf`, in any letter case.
pub open spec fn is_inf_word(s: Seq<char>) -> bool {
    s.len() == 3 && ci_eq(s[0], 'i', 'I') && ci_eq(s[1], 'n', 'N') && ci_eq(s[2], 'f', 'F')
}

/// The word `infinity`, in any letter case.
pub open spec fn is_infinity_word(s: Seq<char>) -> bool {
    s.len() == 8 && ci_eq(s[0], 'i', 'I') && ci_eq(s[1], 'n', 'N') && ci_eq(s[2], 'f', 'F')
        && ci_eq(s[3], 'i', 'I') && ci_eq(s[4], 'n', 'N') && ci_eq(s[5], 'i', 'I') && ci_eq(
        s[6],
        't',
        'T',
    ) && ci_eq(s[7], 'y', 'Y')
}

/// The word `nan`, in any letter case.
pub open spec fn is_nan_word(s: Seq<char>) -> bool {
    s.len() == 3 && ci_eq(s[0], 'n', 'N') && ci_eq(s[1], 'a', 'A') && ci_eq(s[2], 'n', 'N')
}

/// The exponent part starting at `k`: an optional sign and then at least
/// one digit, running to the end.
pub open spec fn exp_parts(b: Seq<char>, k: int, intd: Seq<char>, frac: Seq<char>) -> Option<
    (Seq<char>, Seq<char>, bool, Seq<char>),
> {
    let neg = k < b.len() && b[k] == '-';
    let k2 = if k < b.len() && (b[k] == '+' || b[k] == '-') {
        k + 1
    } else {
        k
    };
    if digits_end(b, k2) == b.len() && b.len() > k2 {
        Some((intd, frac, neg, b.subrange(k2, b.len() as int)))
    } else {
        None
    }
}

/// The structure of a literal after its sign, when it is not a special
/// word: integer digits, fraction digits, the exponent's sign, and the
/// exponent digits (empty when there is no exponent part).  `None` when
/// the text is not a number.
pub open spec fn number_parts(b: Seq<char>) -> Option<(Seq<char>, Seq<char>, bool, Seq<char>)> {
    let d1 = digits_end(b, 0);
    if d1 == b.len() {
        if d1 >= 1 {
            Some((b, Seq::empty(), false, Seq::empty()))
        } else {
            None
        }
    } else if b[d1] == '.' {
        let d2 = digits_end(b, d1 + 1);
        if d1 == 0 && d2 == d1 + 1 {
            None
        } else if d2 == b.len() {
            Some((b.subrange(0, d1), b.subrange(d1 + 1, d2), false, Seq::empty()))
        } else if b[d2] == 'e' || b[d2] == 'E' {
            exp_parts(b, d2 + 1, b.subrange(0, d1), b.subrange(d1 + 1, d2))
        } else {
            None
        }
    } else if (b[d1] == 'e' || b[d1] == 'E') && d1 >= 1 {
        exp_parts(b, d1 + 1, b.subrange(0, d1), Seq::empty())
    } else {
        None
    }
}

/// The canonical digit string of a literal: all mantissa digits, then `e`
/// and the exponent adjusted by the length of the fraction.
pub open spec fn canonical_chars(
    intd: Seq<char>,
    frac: Seq<char>,
    eneg: bool,
    edigits: Seq<char>,
) -> Seq<char> {
    let emag = exp_sat(edigits, 0, 0);
    let esigned: int = if eneg {
        -(emag as int)
    } else {
        emag as int
    };
    let eadj: int = esigned - (if frac.len() > 1_000_000_000_000 {
        1_000_000_000_000int
    } else {
        frac.len() as int
    });
    intd + frac + seq!['e'] + (if eadj < 0 {
        seq!['-'] + dec_chars((-eadj) as u64)
    } else {
        dec_chars(eadj as u64)
    })
}

/// The bits of the double that a token denotes, or `None` when the token
/// is not a floating-point literal.
pub open spec fn literal_bits(s: Seq<char>) -> Option<u64> {
    let neg = s.len() >= 1 && s[0] == '-';
    let b = if s.len() >= 1 && (s[0] == '+' || s[0] == '-') {
        s.drop_first()
    } else {
        s
    };
    let sgn: u64 = if neg {
        SIGN_BIT
    } else {
        0
    };
    if is_inf_word(b) || is_infinity_word(b) {
        Some(POS_INF | sgn)
    } else if is_nan_word(b) {
        Some(QUIET_NAN | sgn)
    } else {
        match number_parts(b) {
            Some((intd, frac, eneg, edigits)) => Some(
                decimal_bits(canonical_chars(intd, frac, eneg, edigits)) | sgn,
            ),
            None => None,
        }
    }
}

fn exec_is_digit(c: char) -> (r: bool)
    ensures
        r == is_digit(c),
{
    c == '0' || c == '1' || c == '2' || c == '3' || c == '4' || c == '5' || c == '6' || c == '7'
        || c == '8' || c == '9'
}

fn exec_digit_val(c: char) -> (r: u64)
    ensures
        r == digit_val(c),
{
    if c == '0' {
        0
    } else if c == '1' {
        1
    } else if c == '2' {
        2
    } else if c == '3' {
        3
    } else if c == '4' {
        4
    } else if c == '5' {
        5
    } else if c == '6' {
        6
    } else if c == '7' {
        7
    } else if c == '8' {
        8
    } else {
        9
    }
}

fn exec_digits_end(b: &Vec<char>, i: usize) -> (r: usize)
    requires
        i <= b@.len(),
    ensures
        r == digits_end(b@, i as int),
        i <= r <= b@.len(),
    decreases b@.len() - i,
{
    if i < b.len() && exec_is_digit(b[i]) {
        exec_digits_end(b, i + 1)
    } else {
        i
    }
}

fn exec_exp_sat(b: &Vec<char>, i: usize, acc: u64) -> (r: u64)
    requires
        i <= b@.len(),
        acc <= 10_000_000_000_009,
    ensures
        r == exp_sat(b@, i as int, acc),
        r <= 10_000_000_000_009,
    decreases b@.len() - i,
{
    if i < b.len() {
        let acc2 = if acc > 1_000_000_000_000 {
            acc
        } else {
            acc * 10 + exec_digit_val(b[i])
        };
        exec_exp_sat(b, i + 1, acc2)
    } else {
        acc
    }
}

fn ci(c: char, lo: char, up: char) -> (r: bool)
    ensures
        r == ci_eq(c, lo, up),
{
    c == lo || c == up
}

/// Push a copy of `s[a..b]` onto `out`.
fn push_range(out: &mut Vec<char>, s: &Vec<char>, a: usize, b: usize)
    requires
        a <= b <= s@.len(),
    ensures
        final(out)@ == old(out)@ + s@.subrange(a as int, b as int),
{
    let mut i: usize = a;
    while i < b
        invariant
            a <= i <= b <= s@.len(),
            out@ == old(out)@ + s@.subrange(a as int, i as int),
        decreases b - i,
    {
        out.push(s[i]);
        proof {
            assert(out@ =~= old(out)@ + s@.subrange(a as int, i + 1));
        }
        i = i + 1;
    }
    proof {
        assert(out@ =~= old(out)@ + s@.subrange(a as int, b as int));
    }
}

/// Scan the digit form after the sign: the ends of the integer digits,
/// the fraction range, the exponent's sign, and where the exponent digits
/// begin.  `None` exactly when `number_parts` has no match.
#[verifier::rlimit(60)]
fn scan_parts(b: &Vec<char>) -> (r: Option<(usize, usize, usize, bool, usize)>)
    ensures
        match r {
            Some((intd_to, frac_from, frac_to, eneg, edig_from)) => {
                &&& intd_to <= frac_from <= frac_to <= edig_from <= b@.len()
                &&& number_parts(b@) == Some(
                    (
                        b@.subrange(0, intd_to as int),
                        b@.subrange(frac_from as int, frac_to as int),
                        eneg,
                        b@.subrange(edig_from as int, b@.len() as int),
                    ),
                )
            },
            None => number_parts(b@) is None,
        },
{
    let m = b.len();
    let d1 = exec_digits_end(b, 0);
    let intd_to: usize;
    let frac_from: usize;
    let frac_to: usize;
    let has_exp: bool;
    let exp_k: usize;
    if d1 == m {
        if d1 >= 1 {
            proof {
                assert(b@.subrange(0, d1 as int) =~= b@);
                assert(b@.subrange(d1 as int, d1 as int) =~= Seq::<char>::empty());
                assert(b@.subrange(m as int, m as int) =~= Seq::<char>::empty());
            }
            return Some((d1, d1, d1, false, m));
        } else {
            return None;
        }
    } else if b[d1] == '.' {
        let d2 = exec_digits_end(b, d1 + 1);
        if d1 == 0 && d2 == d1 + 1 {
            return None;
        } else if d2 == m {
            proof {
                assert(b@.subrange(m as int, m as int) =~= Seq::<char>::empty());
            }
            return Some((d1, d1 + 1, d2, false, m));
        } else if b[d2] == 'e' || b[d2] == 'E' {
            intd_to = d1;
            frac_from = d1 + 1;
            frac_to = d2;
            has_exp = true;
            exp_k = d2 + 1;
        } else {
            return None;
        }
    } else if (b[d1] == 'e' || b[d1] == 'E') && d1 >= 1 {
        intd_to = d1;
        frac_from = d1;
        frac_to = d1;
        has_exp = true;
        exp_k = d1 + 1;
        proof {
            assert(b@.subrange(d1 as int, d1 as int) =~= Seq::<char>::empty());
        }
    } else {
        return None;
    }
    let mut eneg = false;
    let mut edig_from: usize = exp_k;
    if exp_k < m && b[exp_k] == '-' {
        eneg = true;
        edig_from = exp_k + 1;
    } else if exp_k < m && b[exp_k] == '+' {
        edig_from = exp_k + 1;
    }
    let d3 = exec_digits_end(b, edig_from);
    if !(d3 == m && m > edig_from) {
        return None;
    }
    Some((intd_to, frac_from, frac_to, eneg, edig_from))
}

/// Recognize a floating-point literal and give the bits of its value, or
/// `None` when the token is no number.
#[verifier::rlimit(100)]
pub fn parse_number(s: &Vec<char>) -> (r: Option<u64>)
    ensures
        r == literal_bits(s@),
{
    let mut start: usize = 0;
    let mut neg = false;
    if s.len() >= 1 && (s[0] == '+' || s[0] == '-') {
        neg = s[0] == '-';
        start = 1;
    }
    let b = copy_range(s, start, s.len());
    proof {
        if start == 1 {
            assert(s@.drop_first() =~= s@.subrange(1, s@.len() as int));
        } else {
            assert(s@ =~= s@.subrange(0, s@.len() as int));
        }
    }
    let sgn: u64 = if neg {
        SIGN_BIT
    } else {
        0
    };
    let m = b.len();
    if m == 3 && ci(b[0], 'i', 'I') && ci(b[1], 'n', 'N') && ci(b[2], 'f', 'F') {
        return Some(POS_INF | sgn);
    }
    if m == 8 && ci(b[0], 'i', 'I') && ci(b[1], 'n', 'N') && ci(b[2], 'f', 'F') && ci(
        b[3],
        'i',
        'I',
    ) && ci(b[4], 'n', 'N') && ci(b[5], 'i', 'I') && ci(b[6], 't', 'T') && ci(b[7], 'y', 'Y') {
        return Some(POS_INF | sgn);
    }
    if m == 3 && ci(b[0], 'n', 'N') && ci(b[1], 'a', 'A') && ci(b[2], 'n', 'N') {
        return Some(QUIET_NAN | sgn);
    }
    match scan_parts(&b) {
        None => None,
        Some((intd_to, frac_from, frac_to, eneg, edig_from)) => {
            let canon = build_canonical(&b, intd_to, frac_from, frac_to, eneg, edig_from);
            let canon_str = chars_to_string(canon.as_slice());
            let bits = parse_decimal(canon_str.as_str());
            Some(bits | sgn)
        },
    }
}

/// Build the canonical digit string of a recognized literal.
#[verifier::rlimit(60)]
fn build_canonical(
    b: &Vec<char>,
    intd_to: usize,
    frac_from: usize,
    frac_to: usize,
    eneg: bool,
    edig_from: usize,
) -> (canon: Vec<char>)
    requires
        intd_to <= frac_from <= frac_to <= edig_from <= b@.len(),
    ensures
        canon@ == canonical_chars(
            b@.subrange(0, intd_to as int),
            b@.subrange(frac_from as int, frac_to as int),
            eneg,
            b@.subrange(edig_from as int, b@.len() as int),
        ),
{
    let ghost intd = b@.subrange(0, intd_to as int);
    let ghost frac = b@.subrange(frac_from as int, frac_to as int);
    let ghost edigits = b@.subrange(edig_from as int, b@.len() as int);
    let emag = exec_exp_sat(b, edig_from, 0);
    proof {
        lemma_exp_sat_fold(b@, edig_from as int, 0);
        lemma_exp_sat_fold(edigits, 0, 0);
        assert(edigits.subrange(0, edigits.len() as int) =~= edigits);
    }
    let esigned: i64 = if eneg {
        -(emag as i64)
    } else {
        emag as i64
    };
    let fl0: u64 = (frac_to - frac_from) as u64;
    let fl: u64 = if fl0 > 1_000_000_000_000 {
        1_000_000_000_000
    } else {
        fl0
    };
    let eadj: i64 = esigned - (fl as i64);
    let mut canon: Vec<char> = Vec::new();
    push_range(&mut canon, b, 0, intd_to);
    push_range(&mut canon, b, frac_from, frac_to);
    canon.push('e');
    if eadj < 0 {
        canon.push('-');
        push_dec_chars(&mut canon, (0 - eadj) as u64);
        proof {
            assert(canon@ =~= canonical_chars(intd, frac, eneg, edigits));
        }
    } else {
        push_dec_chars(&mut canon, eadj as u64);
        proof {
            assert(canon@ =~= canonical_chars(intd, frac, eneg, edigits));
        }
    }
    canon
}

/// One saturation step.
pub open spec fn exp_step(acc: u64, c: char) -> u64 {
    if acc > 1_000_000_000_000 {
        acc
    } else {
        (acc * 10 + digit_val(c)) as u64
    }
}

/// The saturated value as a fold over the digits.
pub open spec fn exp_fold(s: Seq<char>, acc: u64) -> u64
    decreases s.len(),
{
    if s.len() == 0 {
        acc
    } else {
        exp_fold(s.drop_first(), exp_step(acc, s[0]))
    }
}

/// A scan from index `i` computes the fold of the suffix from `i`.
proof fn lemma_exp_sat_fold(s: Seq<char>, i: int, acc: u64)
    requires
        0 <= i <= s.len(),
    ensures
        exp_sat(s, i, acc) == exp_fold(s.subrange(i, s.len() as int), acc),
    decreases s.len() - i,
{
    let suf = s.subrange(i, s.len() as int);
    if i < s.len() {
        let acc2 = exp_step(acc, s[i]);
        lemma_exp_sat_fold(s, i + 1, acc2);
        assert(suf[0] == s[i]);
        assert(suf.drop_first() =~= s.subrange(i + 1, s.len() as int));
    } else {
        assert(suf.len() == 0);
    }
}

} // verus!
