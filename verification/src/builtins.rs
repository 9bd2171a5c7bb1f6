//! The builtin operator table.
//!
//! Every operator is a pure function of its already evaluated argument
//! sequence.  A scratch environment is threaded through for signature
//! uniformity only; no operator reads or changes it.  The arity and type
//! errors carry the exact messages of the table in the design; `hash-set!`
//! returns its value argument without storing anything, `hash-ref` answers
//! a fixed text, and `let`, `cond`, `begin`, `while` and `for-each` are the
//! deliberately degenerate forms the design prescribes.
use crate::backend::add_bits;
use crate::backend::div_bits;
use crate::backend::mul_bits;
use crate::backend::num_add;
use crate::backend::num_div;
use crate::backend::num_mul;
use crate::backend::num_sub;
use crate::backend::sub_bits;
use crate::numeric::ONE_BITS;
use crate::numeric::abs_bits;
use crate::numeric::eq_bits;
use crate::numeric::from_u64_bits;
use crate::numeric::le_bits;
use crate::numeric::lt_bits;
use crate::numeric::is_zero_bits;
use crate::numeric::neg_bits;
use crate::numeric::num_abs;
use crate::numeric::num_eq;
use crate::numeric::num_from_u64;
use crate::numeric::num_le;
use crate::numeric::num_lt;
use crate::numeric::num_is_zero;
use crate::numeric::num_neg;
use crate::numeric::num_sqrt;
use crate::numeric::num_trunc_u64;
use crate::numeric::sqrt_bits;
use crate::numeric::trunc_u64_bits;
use crate::power::num_pow;
use crate::power::pow_bits;
use crate::render::number_chars;
use crate::render::render_number;
use crate::value::Builtin;
use crate::value::EnvEntry;
use crate::value::SchemeValue;
use crate::value::SpecValue;
use crate::value::dup;
use crate::value::view_val;
use crate::value::lemma_view_vals;
use crate::value::view_vals;
use vstd::prelude::*;
use vstd::string::StringExecFns;

verus! {

broadcast use vstd::seq::axiom_seq_index_decreases, vstd::seq::axiom_seq_subrange_decreases, vstd::std_specs::vec::axiom_vec_decreases_to_view, vstd::std_specs::vec::axiom_vec_index_decreases;

/// The display text of a boolean.
pub open spec fn bool_chars(b: bool) -> Seq<char> {
    if b {
        "true"@
    } else {
        "false"@
    }
}

/// Numeric left fold for `+` and `*`.
pub open spec fn arith_fold(args: Seq<SpecValue>, acc: u64, mul: bool, err: Seq<char>) -> Result<
    u64,
    Seq<char>,
>
    decreases args.len(),
{
    if args.len() == 0 {
        Ok(acc)
    } else {
        match args[0] {
            SpecValue::Num(n) => arith_fold(
                args.drop_first(),
                if mul {
                    mul_bits(acc, n)
                } else {
                    add_bits(acc, n)
                },
                mul,
                err,
            ),
            _ => Err(err),
        }
    }
}

/// The left fold of `-` over the arguments after the first.
pub open spec fn sub_fold(args: Seq<SpecValue>, acc: u64) -> Result<u64, Seq<char>>
    decreases args.len(),
{
    if args.len() == 0 {
        Ok(acc)
    } else {
        match args[0] {
            SpecValue::Num(n) => sub_fold(args.drop_first(), sub_bits(acc, n)),
            _ => Err("- requires numeric arguments"@),
        }
    }
}

/// The scan of `cond`: look at the arguments in pairs; a pair whose first
/// half is boolean false is skipped, any other pair answers its second
/// half; a lone trailing argument answers itself, and nothing left
/// answers nil.
pub open spec fn cond_scan(args: Seq<SpecValue>) -> SpecValue
    decreases args.len(),
{
    if args.len() == 0 {
        SpecValue::Nil
    } else if args.len() == 1 {
        args[0]
    } else if args[0] == SpecValue::Bool(false) {
        cond_scan(args.skip(2))
    } else {
        args[1]
    }
}

/// The concatenation of `append`: list arguments are spliced, any other
/// argument is added as a single element.
pub open spec fn append_fold(args: Seq<SpecValue>, acc: Seq<SpecValue>) -> Seq<SpecValue>
    decreases args.len(),
{
    if args.len() == 0 {
        acc
    } else {
        append_fold(
            args.drop_first(),
            match args[0] {
                SpecValue::List(l) => acc + l,
                _ => acc.push(args[0]),
            },
        )
    }
}

/// What one builtin returns on a sequence of evaluated arguments: the
/// operator table of the design, row by row.
pub open spec fn spec_apply(op: Builtin, args: Seq<SpecValue>) -> Result<SpecValue, Seq<char>> {
    match op {
        Builtin::Display => {
            if args.len() != 1 {
                Err("display requires exactly one argument"@)
            } else {
                match args[0] {
                    SpecValue::Str(s) => Ok(SpecValue::Str(s)),
                    SpecValue::Num(n) => Ok(SpecValue::Str(number_chars(n))),
                    SpecValue::Bool(b) => Ok(SpecValue::Str(bool_chars(b))),
                    _ => Ok(SpecValue::Str("display"@)),
                }
            }
        },
        Builtin::Add => {
            match arith_fold(args, 0, false, "+ requires numeric arguments"@) {
                Ok(n) => Ok(SpecValue::Num(n)),
                Err(e) => Err(e),
            }
        },
        Builtin::Mul => {
            match arith_fold(args, ONE_BITS, true, "* requires numeric arguments"@) {
                Ok(n) => Ok(SpecValue::Num(n)),
                Err(e) => Err(e),
            }
        },
        Builtin::Sub => {
            if args.len() < 1 {
                Err("- requires at least one argument"@)
            } else {
                match args[0] {
                    SpecValue::Num(n) => {
                        if args.len() == 1 {
                            Ok(SpecValue::Num(neg_bits(n)))
                        } else {
                            match sub_fold(args.drop_first(), n) {
                                Ok(m) => Ok(SpecValue::Num(m)),
                                Err(e) => Err(e),
                            }
                        }
                    },
                    _ => Err("- requires numeric arguments"@),
                }
            }
        },
        Builtin::Lt => {
            if args.len() != 2 {
                Err("< requires exactly two arguments"@)
            } else {
                match (args[0], args[1]) {
                    (SpecValue::Num(a), SpecValue::Num(b)) => Ok(SpecValue::Bool(lt_bits(a, b))),
                    _ => Err("< requires numeric arguments"@),
                }
            }
        },
        Builtin::Gt => {
            if args.len() != 2 {
                Err("> requires exactly two arguments"@)
            } else {
                match (args[0], args[1]) {
                    (SpecValue::Num(a), SpecValue::Num(b)) => Ok(SpecValue::Bool(lt_bits(b, a))),
                    _ => Err("> requires numeric arguments"@),
                }
            }
        },
        Builtin::Le => {
            if args.len() != 2 {
                Err("<= requires exactly two arguments"@)
            } else {
                match (args[0], args[1]) {
                    (SpecValue::Num(a), SpecValue::Num(b)) => Ok(SpecValue::Bool(le_bits(a, b))),
                    _ => Err("<= requires numeric arguments"@),
                }
            }
        },
        Builtin::Ge => {
            if args.len() != 2 {
                Err(">= requires exactly two arguments"@)
            } else {
                match (args[0], args[1]) {
                    (SpecValue::Num(a), SpecValue::Num(b)) => Ok(SpecValue::Bool(le_bits(b, a))),
                    _ => Err(">= requires numeric arguments"@),
                }
            }
        },
        Builtin::NumEq => {
            if args.len() != 2 {
                Err("= requires exactly two arguments"@)
            } else {
                match (args[0], args[1]) {
                    (SpecValue::Num(a), SpecValue::Num(b)) => Ok(SpecValue::Bool(eq_bits(a, b))),
                    _ => Err("= requires numeric arguments"@),
                }
            }
        },
        Builtin::Div => {
            if args.len() != 2 {
                Err("/ requires exactly two arguments"@)
            } else {
                match (args[0], args[1]) {
                    (SpecValue::Num(a), SpecValue::Num(b)) => {
                        if is_zero_bits(b) {
                            Err("Division by zero"@)
                        } else {
                            Ok(SpecValue::Num(div_bits(a, b)))
                        }
                    },
                    _ => Err("/ requires numeric arguments"@),
                }
            }
        },
        Builtin::If => {
            if args.len() != 3 {
                Err("if requires exactly three arguments"@)
            } else if args[0] == SpecValue::Bool(true) {
                Ok(args[1])
            } else if args[0] == SpecValue::Bool(false) {
                Ok(args[2])
            } else {
                Err("if condition must be boolean"@)
            }
        },
        Builtin::Cons => {
            if args.len() != 2 {
                Err("cons requires exactly two arguments"@)
            } else {
                match args[1] {
                    SpecValue::List(l) => Ok(SpecValue::List(seq![args[0]] + l)),
                    SpecValue::Nil => Ok(SpecValue::List(seq![args[0]])),
                    _ => Ok(SpecValue::List(seq![args[0], args[1]])),
                }
            }
        },
        Builtin::Car => {
            if args.len() != 1 {
                Err("car requires exactly one argument"@)
            } else {
                match args[0] {
                    SpecValue::List(l) => {
                        if l.len() == 0 {
                            Ok(SpecValue::Nil)
                        } else {
                            Ok(l[0])
                        }
                    },
                    _ => Err("car requires a list argument"@),
                }
            }
        },
        Builtin::Cdr => {
            if args.len() != 1 {
                Err("cdr requires exactly one argument"@)
            } else {
                match args[0] {
                    SpecValue::List(l) => {
                        if l.len() <= 1 {
                            Ok(SpecValue::Nil)
                        } else {
                            Ok(SpecValue::List(l.drop_first()))
                        }
                    },
                    _ => Err("cdr requires a list argument"@),
                }
            }
        },
        Builtin::List => Ok(SpecValue::List(args)),
        Builtin::NullQ => {
            if args.len() != 1 {
                Err("null? requires exactly one argument"@)
            } else {
                match args[0] {
                    SpecValue::List(l) => Ok(SpecValue::Bool(l.len() == 0)),
                    SpecValue::Nil => Ok(SpecValue::Bool(true)),
                    _ => Ok(SpecValue::Bool(false)),
                }
            }
        },
        Builtin::And => {
            if args.len() == 0 {
                Ok(SpecValue::Bool(true))
            } else if exists|i: int| 0 <= i < args.len() && args[i] == SpecValue::Bool(false) {
                Ok(SpecValue::Bool(false))
            } else {
                Ok(args.last())
            }
        },
        Builtin::Or => {
            if args.len() == 0 {
                Ok(SpecValue::Bool(false))
            } else if exists|i: int| 0 <= i < args.len() && args[i] == SpecValue::Bool(true) {
                Ok(SpecValue::Bool(true))
            } else {
                Ok(args.last())
            }
        },
        Builtin::Begin => {
            if args.len() == 0 {
                Ok(SpecValue::Nil)
            } else {
                Ok(args.last())
            }
        },
        Builtin::Let => {
            if args.len() == 0 {
                Ok(SpecValue::Nil)
            } else {
                Ok(args.last())
            }
        },
        Builtin::Cond => Ok(cond_scan(args)),
        Builtin::Vector => Ok(SpecValue::Vector(args)),
        Builtin::MakeHashTable => Ok(SpecValue::Hash),
        Builtin::HashPut => {
            if args.len() != 3 {
                Err("hash-set! requires exactly three arguments"@)
            } else {
                match (args[0], args[1]) {
                    (SpecValue::Hash, SpecValue::Str(_)) => Ok(args[2]),
                    _ => Err("hash-set! requires a hash table, string key, and value"@),
                }
            }
        },
        Builtin::HashGet => {
            if args.len() != 2 {
                Err("hash-ref requires exactly two arguments"@)
            } else {
                match (args[0], args[1]) {
                    (SpecValue::Hash, SpecValue::Str(k)) => Ok(
                        SpecValue::Str("value for key: "@ + k),
                    ),
                    _ => Err("hash-ref requires a hash table and string key"@),
                }
            }
        },
        Builtin::VectorRef => {
            if args.len() != 2 {
                Err("vector-ref requires exactly two arguments"@)
            } else {
                match (args[0], args[1]) {
                    (SpecValue::Vector(v), SpecValue::Num(n)) => {
                        if (trunc_u64_bits(n) as int) < v.len() {
                            Ok(v[trunc_u64_bits(n) as int])
                        } else {
                            Err("vector index out of bounds"@)
                        }
                    },
                    _ => Err("vector-ref requires a vector and numeric index"@),
                }
            }
        },
        Builtin::VectorLength => {
            if args.len() != 1 {
                Err("vector-length requires exactly one argument"@)
            } else {
                match args[0] {
                    SpecValue::Vector(v) => Ok(SpecValue::Num(from_u64_bits(v.len() as u64))),
                    _ => Err("vector-length requires a vector"@),
                }
            }
        },
        Builtin::While => {
            if args.len() < 2 {
                Err("while requires at least condition and body"@)
            } else {
                Ok(args[0])
            }
        },
        Builtin::ForEach => {
            if args.len() < 2 {
                Err("for-each requires at least function and list"@)
            } else {
                Ok(args[0])
            }
        },
        Builtin::Length => {
            if args.len() != 1 {
                Err("length requires exactly one argument"@)
            } else {
                match args[0] {
                    SpecValue::List(l) => Ok(SpecValue::Num(from_u64_bits(l.len() as u64))),
                    SpecValue::Vector(v) => Ok(SpecValue::Num(from_u64_bits(v.len() as u64))),
                    SpecValue::Str(s) => Ok(
                        SpecValue::Num(
                            from_u64_bits(((vstd::utf8::encode_utf8(s).len() as usize) as u64)),
                        ),
                    ),
                    _ => Err("length requires a list, vector, or string"@),
                }
            }
        },
        Builtin::Append => {
            if args.len() == 0 {
                Ok(SpecValue::Nil)
            } else {
                Ok(SpecValue::List(append_fold(args, Seq::empty())))
            }
        },
        Builtin::Abs => {
            if args.len() != 1 {
                Err("abs requires exactly one argument"@)
            } else {
                match args[0] {
                    SpecValue::Num(n) => Ok(SpecValue::Num(abs_bits(n))),
                    _ => Err("abs requires a number"@),
                }
            }
        },
        Builtin::Sqrt => {
            if args.len() != 1 {
                Err("sqrt requires exactly one argument"@)
            } else {
                match args[0] {
                    SpecValue::Num(n) => {
                        if lt_bits(n, 0) {
                            Err("sqrt requires a non-negative number"@)
                        } else {
                            Ok(SpecValue::Num(sqrt_bits(n)))
                        }
                    },
                    _ => Err("sqrt requires a number"@),
                }
            }
        },
        Builtin::Expt => {
            if args.len() != 2 {
                Err("expt requires exactly two arguments"@)
            } else {
                match (args[0], args[1]) {
                    (SpecValue::Num(a), SpecValue::Num(b)) => Ok(SpecValue::Num(pow_bits(a, b))),
                    _ => Err("expt requires numeric arguments"@),
                }
            }
        },
    }
}

} // verus!

verus! {

/// Numeric left fold for `+` and `*`, from index `i` on.
fn exec_arith_fold(args: &Vec<SchemeValue>, i: usize, acc: u64, mul: bool) -> (r: Result<
    u64,
    String,
>)
    requires
        i <= args@.len(),
    ensures
        ({
            let spec_err = if mul {
                "* requires numeric arguments"@
            } else {
                "+ requires numeric arguments"@
            };
            match r {
                Ok(n) => arith_fold(view_vals(args@).skip(i as int), acc, mul, spec_err) == Ok::<
                    u64,
                    Seq<char>,
                >(n),
                Err(m) => arith_fold(view_vals(args@).skip(i as int), acc, mul, spec_err) == Err::<
                    u64,
                    Seq<char>,
                >(m@),
            }
        }),
    decreases args@.len() - i,
{
    proof {
        lemma_view_vals(args@);
    }
    if i == args.len() {
        proof {
            assert(view_vals(args@).skip(i as int) =~= Seq::<SpecValue>::empty());
        }
        Ok(acc)
    } else {
        proof {
            assert(view_vals(args@).skip(i as int)[0] == view_val(args@[i as int]));
            assert(view_vals(args@).skip(i as int).drop_first() =~= view_vals(args@).skip(
                i as int + 1,
            ));
        }
        match &args[i] {
            SchemeValue::Number(n) => {
                let acc2 = if mul {
                    num_mul(acc, *n)
                } else {
                    num_add(acc, *n)
                };
                exec_arith_fold(args, i + 1, acc2, mul)
            },
            _ => {
                if mul {
                    Err(String::from_str("* requires numeric arguments"))
                } else {
                    Err(String::from_str("+ requires numeric arguments"))
                }
            },
        }
    }
}

/// The left fold of `-`, from index `i` on.
fn exec_sub_fold(args: &Vec<SchemeValue>, i: usize, acc: u64) -> (r: Result<u64, String>)
    requires
        i <= args@.len(),
    ensures
        match r {
            Ok(n) => sub_fold(view_vals(args@).skip(i as int), acc) == Ok::<u64, Seq<char>>(n),
            Err(m) => sub_fold(view_vals(args@).skip(i as int), acc) == Err::<u64, Seq<char>>(m@),
        },
    decreases args@.len() - i,
{
    proof {
        lemma_view_vals(args@);
    }
    if i == args.len() {
        proof {
            assert(view_vals(args@).skip(i as int) =~= Seq::<SpecValue>::empty());
        }
        Ok(acc)
    } else {
        proof {
            assert(view_vals(args@).skip(i as int)[0] == view_val(args@[i as int]));
            assert(view_vals(args@).skip(i as int).drop_first() =~= view_vals(args@).skip(
                i as int + 1,
            ));
        }
        match &args[i] {
            SchemeValue::Number(n) => exec_sub_fold(args, i + 1, num_sub(acc, *n)),
            _ => Err(String::from_str("- requires numeric arguments")),
        }
    }
}

/// The scan of `cond`, from index `i` on.
fn exec_cond_scan(args: &Vec<SchemeValue>, i: usize) -> (r: SchemeValue)
    requires
        i <= args@.len(),
    ensures
        r@ == cond_scan(view_vals(args@).skip(i as int)),
    decreases args@.len() - i,
{
    proof {
        lemma_view_vals(args@);
    }
    let n = args.len();
    if i == n {
        proof {
            assert(view_vals(args@).skip(i as int) =~= Seq::<SpecValue>::empty());
        }
        SchemeValue::Nil
    } else if i + 1 == n {
        proof {
            assert(view_vals(args@).skip(i as int)[0] == view_val(args@[i as int]));
        }
        dup(&args[i])
    } else {
        proof {
            assert(view_vals(args@).skip(i as int)[0] == view_val(args@[i as int]));
            assert(view_vals(args@).skip(i as int)[1] == view_val(args@[i as int + 1]));
            assert(view_vals(args@).skip(i as int).skip(2) =~= view_vals(args@).skip(i as int + 2));
        }
        let skip = match &args[i] {
            SchemeValue::Boolean(b) => !*b,
            _ => false,
        };
        if skip {
            exec_cond_scan(args, i + 2)
        } else {
            dup(&args[i + 1])
        }
    }
}

/// The concatenation of `append`, from index `i` on, extending `acc`.
fn exec_append_fold(args: &Vec<SchemeValue>, i: usize, acc: Vec<SchemeValue>) -> (r: Vec<
    SchemeValue,
>)
    requires
        i <= args@.len(),
    ensures
        view_vals(r@) == append_fold(view_vals(args@).skip(i as int), view_vals(acc@)),
    decreases args@.len() - i,
{
    proof {
        lemma_view_vals(args@);
    }
    if i == args.len() {
        proof {
            assert(view_vals(args@).skip(i as int) =~= Seq::<SpecValue>::empty());
        }
        acc
    } else {
        proof {
            assert(view_vals(args@).skip(i as int)[0] == view_val(args@[i as int]));
            assert(view_vals(args@).skip(i as int).drop_first() =~= view_vals(args@).skip(
                i as int + 1,
            ));
        }
        let mut acc2 = acc;
        match &args[i] {
            SchemeValue::List(l) => {
                let mut j: usize = 0;
                let ghost acc_snap = acc2@;
                while j < l.len()
                    invariant
                        j <= l@.len(),
                        acc2@.len() == acc_snap.len() + j,
                        acc2@.subrange(0, acc_snap.len() as int) == acc_snap,
                        forall|k: int|
                            0 <= k < j ==> acc2@[acc_snap.len() + k]@ == view_val(l@[k]),
                    decreases l@.len() - j,
                {
                    let d = dup(&l[j]);
                    acc2.push(d);
                    proof {
                        assert(acc2@.subrange(0, acc_snap.len() as int) =~= acc_snap);
                    }
                    j = j + 1;
                }
                proof {
                    lemma_view_vals(acc2@);
                    lemma_view_vals(acc_snap);
                    lemma_view_vals(l@);
                    assert(view_vals(acc2@) =~= view_vals(acc_snap) + view_vals(l@));
                }
                exec_append_fold(args, i + 1, acc2)
            },
            _ => {
                let d = dup(&args[i]);
                let ghost acc_snap = acc2@;
                acc2.push(d);
                proof {
                    lemma_view_vals(acc2@);
                    lemma_view_vals(acc_snap);
                    assert(view_vals(acc2@) =~= view_vals(acc_snap).push(view_val(args@[i as int])));
                }
                exec_append_fold(args, i + 1, acc2)
            },
        }
    }
}

} // verus!

verus! {

/// Invoke one builtin on a sequence of evaluated arguments.  The scratch
/// environment is left untouched; the result and every error message are
/// exactly those of the operator table `spec_apply`.
#[verifier::rlimit(100)]
#[verifier::spinoff_prover]
pub fn apply_builtin(op: Builtin, args: &Vec<SchemeValue>, scratch: &mut Vec<EnvEntry>) -> (r:
    Result<SchemeValue, String>)
    ensures
        *final(scratch) == *old(scratch),
        match r {
            Ok(v) => spec_apply(op, view_vals(args@)) == Ok::<SpecValue, Seq<char>>(v@),
            Err(m) => spec_apply(op, view_vals(args@)) == Err::<SpecValue, Seq<char>>(m@),
        },
{
    proof {
        lemma_view_vals(args@);
    }
    let n = args.len();
    match op {
        Builtin::Display => {
            if n != 1 {
                Err(String::from_str("display requires exactly one argument"))
            } else {
                let out = match &args[0] {
                    SchemeValue::String(s) => SchemeValue::String(s.clone()),
                    SchemeValue::Number(b) => SchemeValue::String(render_number(*b)),
                    SchemeValue::Boolean(b) => {
                        if *b {
                            SchemeValue::String(String::from_str("true"))
                        } else {
                            SchemeValue::String(String::from_str("false"))
                        }
                    },
                    _ => SchemeValue::String(String::from_str("display")),
                };
                Ok(out)
            }
        },
        Builtin::Add => {
            proof {
                assert(view_vals(args@).skip(0) =~= view_vals(args@));
            }
            match exec_arith_fold(args, 0, 0, false) {
                Ok(b) => {
                    let out = SchemeValue::Number(b);
                    Ok(out)
                },
                Err(m) => Err(m),
            }
        },
        Builtin::Mul => {
            proof {
                assert(view_vals(args@).skip(0) =~= view_vals(args@));
            }
            match exec_arith_fold(args, 0, ONE_BITS, true) {
                Ok(b) => {
                    let out = SchemeValue::Number(b);
                    Ok(out)
                },
                Err(m) => Err(m),
            }
        },
        Builtin::Sub => {
            if n < 1 {
                Err(String::from_str("- requires at least one argument"))
            } else {
                match &args[0] {
                    SchemeValue::Number(b) => {
                        if n == 1 {
                            let out = SchemeValue::Number(num_neg(*b));
                            Ok(out)
                        } else {
                            proof {
                                assert(view_vals(args@).skip(1) =~= view_vals(args@).drop_first());
                            }
                            match exec_sub_fold(args, 1, *b) {
                                Ok(m) => {
                                    let out = SchemeValue::Number(m);
                                    Ok(out)
                                },
                                Err(m) => Err(m),
                            }
                        }
                    },
                    _ => Err(String::from_str("- requires numeric arguments")),
                }
            }
        },
        Builtin::Lt => {
            if n != 2 {
                Err(String::from_str("< requires exactly two arguments"))
            } else {
                match (&args[0], &args[1]) {
                    (SchemeValue::Number(a), SchemeValue::Number(b)) => {
                        let out = SchemeValue::Boolean(num_lt(*a, *b));
                        Ok(out)
                    },
                    _ => Err(String::from_str("< requires numeric arguments")),
                }
            }
        },
        Builtin::Gt => {
            if n != 2 {
                Err(String::from_str("> requires exactly two arguments"))
            } else {
                match (&args[0], &args[1]) {
                    (SchemeValue::Number(a), SchemeValue::Number(b)) => {
                        let out = SchemeValue::Boolean(num_lt(*b, *a));
                        Ok(out)
                    },
                    _ => Err(String::from_str("> requires numeric arguments")),
                }
            }
        },
        Builtin::Le => {
            if n != 2 {
                Err(String::from_str("<= requires exactly two arguments"))
            } else {
                match (&args[0], &args[1]) {
                    (SchemeValue::Number(a), SchemeValue::Number(b)) => {
                        let out = SchemeValue::Boolean(num_le(*a, *b));
                        Ok(out)
                    },
                    _ => Err(String::from_str("<= requires numeric arguments")),
                }
            }
        },
        Builtin::Ge => {
            if n != 2 {
                Err(String::from_str(">= requires exactly two arguments"))
            } else {
                match (&args[0], &args[1]) {
                    (SchemeValue::Number(a), SchemeValue::Number(b)) => {
                        let out = SchemeValue::Boolean(num_le(*b, *a));
                        Ok(out)
                    },
                    _ => Err(String::from_str(">= requires numeric arguments")),
                }
            }
        },
        Builtin::NumEq => {
            if n != 2 {
                Err(String::from_str("= requires exactly two arguments"))
            } else {
                match (&args[0], &args[1]) {
                    (SchemeValue::Number(a), SchemeValue::Number(b)) => {
                        let out = SchemeValue::Boolean(num_eq(*a, *b));
                        Ok(out)
                    },
                    _ => Err(String::from_str("= requires numeric arguments")),
                }
            }
        },
        Builtin::Div => {
            if n != 2 {
                Err(String::from_str("/ requires exactly two arguments"))
            } else {
                match (&args[0], &args[1]) {
                    (SchemeValue::Number(a), SchemeValue::Number(b)) => {
                        if num_is_zero(*b) {
                            Err(String::from_str("Division by zero"))
                        } else {
                            let out = SchemeValue::Number(num_div(*a, *b));
                            Ok(out)
                        }
                    },
                    _ => Err(String::from_str("/ requires numeric arguments")),
                }
            }
        },
        Builtin::If => {
            if n != 3 {
                Err(String::from_str("if requires exactly three arguments"))
            } else {
                match &args[0] {
                    SchemeValue::Boolean(b) => {
                        if *b {
                            let out = dup(&args[1]);
                            Ok(out)
                        } else {
                            let out = dup(&args[2]);
                            Ok(out)
                        }
                    },
                    _ => Err(String::from_str("if condition must be boolean")),
                }
            }
        },
        Builtin::Cons => {
            if n != 2 {
                Err(String::from_str("cons requires exactly two arguments"))
            } else {
                let mut list: Vec<SchemeValue> = Vec::new();
                list.push(dup(&args[0]));
                match &args[1] {
                    SchemeValue::List(l) => {
                        let mut j: usize = 0;
                        while j < l.len()
                            invariant
                                j <= l@.len(),
                                list@.len() == 1 + j,
                                list@[0]@ == view_val(args@[0]),
                                forall|k: int| 0 <= k < j ==> list@[1 + k]@ == view_val(l@[k]),
                            decreases l@.len() - j,
                        {
                            let d = dup(&l[j]);
                            list.push(d);
                            j = j + 1;
                        }
                        proof {
                            lemma_view_vals(list@);
                            lemma_view_vals(l@);
                            assert(view_vals(list@) =~= seq![view_val(args@[0])] + view_vals(l@));
                        }
                        let out = SchemeValue::List(list);
                        Ok(out)
                    },
                    SchemeValue::Nil => {
                        proof {
                            lemma_view_vals(list@);
                            assert(view_vals(list@) =~= seq![view_val(args@[0])]);
                        }
                        let out = SchemeValue::List(list);
                        Ok(out)
                    },
                    _ => {
                        list.push(dup(&args[1]));
                        proof {
                            lemma_view_vals(list@);
                            assert(view_vals(list@) =~= seq![
                                view_val(args@[0]),
                                view_val(args@[1]),
                            ]);
                        }
                        let out = SchemeValue::List(list);
                        Ok(out)
                    },
                }
            }
        },
        Builtin::Car => {
            if n != 1 {
                Err(String::from_str("car requires exactly one argument"))
            } else {
                match &args[0] {
                    SchemeValue::List(l) => {
                        proof {
                            lemma_view_vals(l@);
                        }
                        if l.len() == 0 {
                            let out = SchemeValue::Nil;
                            Ok(out)
                        } else {
                            let out = dup(&l[0]);
                            Ok(out)
                        }
                    },
                    _ => Err(String::from_str("car requires a list argument")),
                }
            }
        },
        Builtin::Cdr => {
            if n != 1 {
                Err(String::from_str("cdr requires exactly one argument"))
            } else {
                match &args[0] {
                    SchemeValue::List(l) => {
                        proof {
                            lemma_view_vals(l@);
                        }
                        if l.len() <= 1 {
                            let out = SchemeValue::Nil;
                            Ok(out)
                        } else {
                            let mut rest: Vec<SchemeValue> = Vec::new();
                            let mut j: usize = 1;
                            while j < l.len()
                                invariant
                                    1 <= j <= l@.len(),
                                    rest@.len() == j - 1,
                                    forall|k: int| 0 <= k < j - 1 ==> rest@[k]@ == view_val(l@[1 + k]),
                                decreases l@.len() - j,
                            {
                                let d = dup(&l[j]);
                                rest.push(d);
                                j = j + 1;
                            }
                            proof {
                                lemma_view_vals(rest@);
                                lemma_view_vals(l@);
                                assert(view_vals(rest@) =~= view_vals(l@).drop_first());
                            }
                            let out = SchemeValue::List(rest);
                            Ok(out)
                        }
                    },
                    _ => Err(String::from_str("cdr requires a list argument")),
                }
            }
        },
        Builtin::List => {
            let copy = crate::value::dup_vals(args);
            let out = SchemeValue::List(copy);
            Ok(out)
        },
        Builtin::NullQ => {
            if n != 1 {
                Err(String::from_str("null? requires exactly one argument"))
            } else {
                match &args[0] {
                    SchemeValue::List(l) => {
                        proof {
                            lemma_view_vals(l@);
                        }
                        let out = SchemeValue::Boolean(l.len() == 0);
                        Ok(out)
                    },
                    SchemeValue::Nil => {
                        let out = SchemeValue::Boolean(true);
                        Ok(out)
                    },
                    _ => {
                        let out = SchemeValue::Boolean(false);
                        Ok(out)
                    },
                }
            }
        },
        Builtin::And => {
            if n == 0 {
                let out = SchemeValue::Boolean(true);
                Ok(out)
            } else {
                let mut j: usize = 0;
                while j < n
                    invariant
                        op == Builtin::And,
                        n == args@.len(),
                        1 <= n,
                        j <= n,
                        forall|k: int|
                            0 <= k < j ==> view_vals(args@)[k] != SpecValue::Bool(false),
                    decreases n - j,
                {
                    proof {
                        lemma_view_vals(args@);
                    }
                    let hit = match &args[j] {
                        SchemeValue::Boolean(b) => !*b,
                        _ => false,
                    };
                    if hit {
                        proof {
                            assert(view_vals(args@)[j as int] == SpecValue::Bool(false));
                        }
                        return Ok(SchemeValue::Boolean(false));
                    }
                    j = j + 1;
                }
                proof {
                    lemma_view_vals(args@);
                }
                let out = dup(&args[n - 1]);
                Ok(out)
            }
        },
        Builtin::Or => {
            if n == 0 {
                let out = SchemeValue::Boolean(false);
                Ok(out)
            } else {
                let mut j: usize = 0;
                while j < n
                    invariant
                        op == Builtin::Or,
                        n == args@.len(),
                        1 <= n,
                        j <= n,
                        forall|k: int| 0 <= k < j ==> view_vals(args@)[k] != SpecValue::Bool(true),
                    decreases n - j,
                {
                    proof {
                        lemma_view_vals(args@);
                    }
                    let hit = match &args[j] {
                        SchemeValue::Boolean(b) => *b,
                        _ => false,
                    };
                    if hit {
                        proof {
                            assert(view_vals(args@)[j as int] == SpecValue::Bool(true));
                        }
                        return Ok(SchemeValue::Boolean(true));
                    }
                    j = j + 1;
                }
                proof {
                    lemma_view_vals(args@);
                }
                let out = dup(&args[n - 1]);
                Ok(out)
            }
        },
        Builtin::Begin => {
            if n == 0 {
                let out = SchemeValue::Nil;
                Ok(out)
            } else {
                let out = dup(&args[n - 1]);
                Ok(out)
            }
        },
        Builtin::Let => {
            if n == 0 {
                let out = SchemeValue::Nil;
                Ok(out)
            } else {
                let out = dup(&args[n - 1]);
                Ok(out)
            }
        },
        Builtin::Cond => {
            proof {
                assert(view_vals(args@).skip(0) =~= view_vals(args@));
            }
            let out = exec_cond_scan(args, 0);
            Ok(out)
        },
        Builtin::Vector => {
            let copy = crate::value::dup_vals(args);
            let out = SchemeValue::Vector(copy);
            Ok(out)
        },
        Builtin::MakeHashTable => {
            let out = SchemeValue::HashTable;
            Ok(out)
        },
        Builtin::HashPut => {
            if n != 3 {
                Err(String::from_str("hash-set! requires exactly three arguments"))
            } else {
                match (&args[0], &args[1]) {
                    (SchemeValue::HashTable, SchemeValue::String(_)) => {
                        let out = dup(&args[2]);
                        Ok(out)
                    },
                    _ => Err(
                        String::from_str("hash-set! requires a hash table, string key, and value"),
                    ),
                }
            }
        },
        Builtin::HashGet => {
            if n != 2 {
                Err(String::from_str("hash-ref requires exactly two arguments"))
            } else {
                match (&args[0], &args[1]) {
                    (SchemeValue::HashTable, SchemeValue::String(k)) => {
                        let msg = String::from_str("value for key: ").concat(k.as_str());
                        let out = SchemeValue::String(msg);
                        Ok(out)
                    },
                    _ => Err(String::from_str("hash-ref requires a hash table and string key")),
                }
            }
        },
        Builtin::VectorRef => {
            if n != 2 {
                Err(String::from_str("vector-ref requires exactly two arguments"))
            } else {
                match (&args[0], &args[1]) {
                    (SchemeValue::Vector(v), SchemeValue::Number(b)) => {
                        proof {
                            lemma_view_vals(v@);
                        }
                        let t = num_trunc_u64(*b);
                        if t < (v.len() as u64) {
                            let out = dup(&v[t as usize]);
                            Ok(out)
                        } else {
                            Err(String::from_str("vector index out of bounds"))
                        }
                    },
                    _ => Err(String::from_str("vector-ref requires a vector and numeric index")),
                }
            }
        },
        Builtin::VectorLength => {
            if n != 1 {
                Err(String::from_str("vector-length requires exactly one argument"))
            } else {
                match &args[0] {
                    SchemeValue::Vector(v) => {
                        proof {
                            lemma_view_vals(v@);
                        }
                        let out = SchemeValue::Number(num_from_u64(v.len() as u64));
                        Ok(out)
                    },
                    _ => Err(String::from_str("vector-length requires a vector")),
                }
            }
        },
        Builtin::While => {
            if n < 2 {
                Err(String::from_str("while requires at least condition and body"))
            } else {
                let out = dup(&args[0]);
                Ok(out)
            }
        },
        Builtin::ForEach => {
            if n < 2 {
                Err(String::from_str("for-each requires at least function and list"))
            } else {
                let out = dup(&args[0]);
                Ok(out)
            }
        },
        Builtin::Length => {
            if n != 1 {
                Err(String::from_str("length requires exactly one argument"))
            } else {
                match &args[0] {
                    SchemeValue::List(l) => {
                        proof {
                            lemma_view_vals(l@);
                        }
                        let out = SchemeValue::Number(num_from_u64(l.len() as u64));
                        Ok(out)
                    },
                    SchemeValue::Vector(v) => {
                        proof {
                            lemma_view_vals(v@);
                        }
                        let out = SchemeValue::Number(num_from_u64(v.len() as u64));
                        Ok(out)
                    },
                    SchemeValue::String(st) => {
                        let out = SchemeValue::Number(num_from_u64(st.as_str().len() as u64));
                        Ok(out)
                    },
                    _ => Err(String::from_str("length requires a list, vector, or string")),
                }
            }
        },
        Builtin::Append => {
            if n == 0 {
                let out = SchemeValue::Nil;
                Ok(out)
            } else {
                proof {
                    assert(view_vals(args@).skip(0) =~= view_vals(args@));
                    assert(view_vals(Seq::<SchemeValue>::empty()) =~= Seq::<SpecValue>::empty());
                }
                let folded = exec_append_fold(args, 0, Vec::new());
                let out = SchemeValue::List(folded);
                Ok(out)
            }
        },
        Builtin::Abs => {
            if n != 1 {
                Err(String::from_str("abs requires exactly one argument"))
            } else {
                match &args[0] {
                    SchemeValue::Number(b) => {
                        let out = SchemeValue::Number(num_abs(*b));
                        Ok(out)
                    },
                    _ => Err(String::from_str("abs requires a number")),
                }
            }
        },
        Builtin::Sqrt => {
            if n != 1 {
                Err(String::from_str("sqrt requires exactly one argument"))
            } else {
                match &args[0] {
                    SchemeValue::Number(b) => {
                        if num_lt(*b, 0) {
                            Err(String::from_str("sqrt requires a non-negative number"))
                        } else {
                            let out = SchemeValue::Number(num_sqrt(*b));
                            Ok(out)
                        }
                    },
                    _ => Err(String::from_str("sqrt requires a number")),
                }
            }
        },
        Builtin::Expt => {
            if n != 2 {
                Err(String::from_str("expt requires exactly two arguments"))
            } else {
                match (&args[0], &args[1]) {
                    (SchemeValue::Number(a), SchemeValue::Number(b)) => {
                        let out = SchemeValue::Number(num_pow(*a, *b));
                        Ok(out)
                    },
                    _ => Err(String::from_str("expt requires numeric arguments")),
                }
            }
        },
    }
}

} // verus!
