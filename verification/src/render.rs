//! Rendering of values to display text.
//!
//! Numbers print like Rust doubles: `NaN`, `inf`, `-inf`, signed zeros as
//! `0` and `-0`, integral values below 2^53 as plain integers, and any
//! other finite value through the decimal formatting backend.  Lists print
//! in bracket-and-comma form, vectors in `#(...)` form, and the opaque
//! variants as fixed tags.
use crate::backend::decimal_chars;
use crate::backend::format_decimal;
use crate::numeric::POS_INF;
use crate::numeric::dec_chars;
use crate::numeric::int_mag_bits;
use crate::numeric::is_inf_bits;
use crate::numeric::is_nan_bits;
use crate::numeric::is_small_int_bits;
use crate::numeric::is_zero_bits;
use crate::numeric::num_int_mag;
use crate::numeric::num_is_int;
use crate::numeric::num_is_nan;
use crate::numeric::push_dec_chars;
use crate::numeric::sign_bits;
use crate::numeric::MAG_MASK;
use crate::numeric::SIGN_BIT;
use crate::text::chars_to_string;
use crate::value::SchemeValue;
use crate::value::SpecValue;
use crate::value::lemma_view_vals;
use crate::value::view_val;
use crate::value::view_vals;
use vstd::prelude::*;
use vstd::string::StringExecFns;

verus! {

broadcast use vstd::seq::axiom_seq_index_decreases, vstd::seq::axiom_seq_subrange_decreases, vstd::std_specs::vec::axiom_vec_decreases_to_view, vstd::std_specs::vec::axiom_vec_index_decreases;

/// The display text of a number given as double bits.
pub open spec fn number_chars(b: u64) -> Seq<char> {
    if is_nan_bits(b) {
        "NaN"@
    } else if is_inf_bits(b) {
        if sign_bits(b) {
            "-inf"@
        } else {
            "inf"@
        }
    } else if is_zero_bits(b) {
        if sign_bits(b) {
            "-0"@
        } else {
            "0"@
        }
    } else if is_small_int_bits(b) {
        (if sign_bits(b) {
            seq!['-']
        } else {
            Seq::empty()
        }) + dec_chars(int_mag_bits(b))
    } else {
        decimal_chars(b)
    }
}

/// Render a number to its display text.
pub fn render_number(b: u64) -> (r: String)
    ensures
        r@ == number_chars(b),
{
    if num_is_nan(b) {
        String::from_str("NaN")
    } else if (b & MAG_MASK) == POS_INF {
        if (b & SIGN_BIT) == SIGN_BIT {
            String::from_str("-inf")
        } else {
            String::from_str("inf")
        }
    } else if (b & MAG_MASK) == 0 {
        if (b & SIGN_BIT) == SIGN_BIT {
            String::from_str("-0")
        } else {
            String::from_str("0")
        }
    } else if num_is_int(b) && ((b & MAG_MASK) >> 52) <= 1075 {
        let mut v: Vec<char> = Vec::new();
        if (b & SIGN_BIT) == SIGN_BIT {
            v.push('-');
        }
        push_dec_chars(&mut v, num_int_mag(b));
        proof {
            assert(v@ =~= (if sign_bits(b) {
                seq!['-']
            } else {
                Seq::<char>::empty()
            }) + dec_chars(int_mag_bits(b)));
        }
        chars_to_string(v.as_slice())
    } else {
        format_decimal(b)
    }
}

/// The display text of a value.
pub open spec fn render_val(v: SpecValue) -> Seq<char>
    decreases v, 0int,
{
    match v {
        SpecValue::Str(s) => s,
        SpecValue::Num(b) => number_chars(b),
        SpecValue::Bool(b) => if b {
            "true"@
        } else {
            "false"@
        },
        SpecValue::List(items) => "["@ + render_items(items, ", "@) + "]"@,
        SpecValue::Vector(items) => "#("@ + render_items(items, " "@) + ")"@,
        SpecValue::Hash => "#<hash-table>"@,
        SpecValue::Fun(_) => "#<function>"@,
        SpecValue::Lambda { .. } => "#<lambda>"@,
        SpecValue::Symbol(s) => s,
        SpecValue::Nil => "()"@,
    }
}

/// The display texts of a sequence of values, joined by a separator.
pub open spec fn render_items(items: Seq<SpecValue>, sep: Seq<char>) -> Seq<char>
    decreases items, 1int,
{
    if items.len() == 0 {
        Seq::empty()
    } else if items.len() == 1 {
        render_val(items[0])
    } else {
        render_val(items[0]) + sep + render_items(items.drop_first(), sep)
    }
}

/// Render the elements of `vs` from index `i` on, joined by `sep`.
fn render_items_from(vs: &Vec<SchemeValue>, i: usize, sep: &str) -> (r: String)
    requires
        i <= vs@.len(),
    ensures
        r@ == render_items(view_vals(vs@).skip(i as int), sep@),
    decreases *vs, vs@.len() - i,
{
    proof {
        lemma_view_vals(vs@);
    }
    if i >= vs.len() {
        proof {
            assert(view_vals(vs@).skip(i as int) =~= Seq::<SpecValue>::empty());
        }
        String::new()
    } else {
        proof {
            assert(decreases_to!(*vs => vs@[i as int]));
            assert(view_vals(vs@).skip(i as int)[0] == view_val(vs@[i as int]));
        }
        let mut s = display_value(&vs[i]);
        if i + 1 < vs.len() {
            let rest = render_items_from(vs, i + 1, sep);
            s.append(sep);
            s.append(rest.as_str());
            proof {
                assert(view_vals(vs@).skip(i as int).drop_first() =~= view_vals(vs@).skip(
                    i as int + 1,
                ));
            }
        } else {
            proof {
                assert(view_vals(vs@).skip(i as int).len() == 1);
            }
        }
        s
    }
}

/// Render a value to its display text.
pub fn display_value(v: &SchemeValue) -> (r: String)
    ensures
        r@ == render_val(v@),
    decreases *v, 0int,
{
    match v {
        SchemeValue::String(s) => s.clone(),
        SchemeValue::Number(b) => render_number(*b),
        SchemeValue::Boolean(b) => {
            if *b {
                String::from_str("true")
            } else {
                String::from_str("false")
            }
        },
        SchemeValue::List(vs) => {
            proof {
                assert(decreases_to!(*v => v->List_0));
                assert(view_vals(vs@).skip(0) =~= view_vals(vs@));
            }
            let mut s = String::from_str("[");
            let items = render_items_from(vs, 0, ", ");
            s.append(items.as_str());
            s.append("]");
            s
        },
        SchemeValue::Vector(vs) => {
            proof {
                assert(decreases_to!(*v => v->Vector_0));
                assert(view_vals(vs@).skip(0) =~= view_vals(vs@));
            }
            let mut s = String::from_str("#(");
            let items = render_items_from(vs, 0, " ");
            s.append(items.as_str());
            s.append(")");
            s
        },
        SchemeValue::HashTable => String::from_str("#<hash-table>"),
        SchemeValue::Function(_) => String::from_str("#<function>"),
        SchemeValue::Lambda { .. } => String::from_str("#<lambda>"),
        SchemeValue::Symbol(s) => s.clone(),
        SchemeValue::Nil => String::from_str("()"),
    }
}

} // verus!
