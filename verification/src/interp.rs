//! The expression evaluator.
//!
//! A line of text is trimmed and then classified: empty text is an error;
//! the exact texts `nil` and `()` are nil; text in an outer pair of parens
//! is an application, whose interior is tokenized and whose argument tokens
//! are each evaluated by this same procedure before the operator is looked
//! up and invoked; anything else is an atom — a number literal, a quoted
//! string, a boolean, a bound name, or (for any other text) a symbol.
//!
//! The model `spec_eval` carries a fuel that bounds the recursion depth;
//! any fuel beyond the length of the text is enough, because every argument
//! token of an application is shorter than the application itself.
use crate::builtins::apply_builtin;
use crate::builtins::spec_apply;
use crate::env::env_lookup;
use crate::env::exec_trim;
use crate::env::lookup;
use crate::env::trim;
use crate::numlit::literal_bits;
use crate::numlit::parse_number;
use crate::text::chars_eq_str;
use crate::text::chars_to_string;
use crate::text::copy_range;
use crate::text::str_to_chars;
use crate::tokenizer::lemma_tokenize_token_len;
use crate::tokenizer::spec_tokenize;
use crate::tokenizer::token_views;
use crate::tokenizer::tokenize_chars;
use crate::value::EnvEntry;
use crate::value::SchemeValue;
use crate::value::SpecValue;
use crate::value::dup;
use crate::value::lemma_view_vals;
use crate::value::view_env;
use crate::value::view_vals;
use vstd::prelude::*;
use vstd::string::StringExecFns;

verus! {

/// What one line of text evaluates to, under the given environment, with
/// recursion depth bounded by `fuel`.  Any fuel above the length of the
/// text gives the same answer.
pub open spec fn spec_eval(
    envm: Seq<(Seq<char>, SpecValue)>,
    s: Seq<char>,
    fuel: nat,
) -> Result<SpecValue, Seq<char>>
    decreases fuel, 0int,
{
    let t = trim(s);
    if t.len() == 0 {
        Err("Empty expression"@)
    } else if t == "nil"@ || t == "()"@ {
        Ok(SpecValue::Nil)
    } else if t[0] == '(' && t[t.len() - 1] == ')' {
        match spec_tokenize(t.subrange(1, t.len() - 1)) {
            None => Err("Unmatched parentheses"@),
            Some(toks) => {
                if toks.len() == 0 {
                    Err("Empty function call"@)
                } else if toks[0] == "#t"@ {
                    Ok(SpecValue::Bool(true))
                } else if toks[0] == "#f"@ {
                    Ok(SpecValue::Bool(false))
                } else if fuel == 0 {
                    arbitrary()
                } else {
                    match spec_eval_args(envm, toks.drop_first(), (fuel - 1) as nat) {
                        Err(e) => Err(e),
                        Ok(vals) => match env_lookup(envm, toks[0]) {
                            Some(SpecValue::Fun(op)) => spec_apply(op, vals),
                            _ => Err("Unknown function: "@ + toks[0]),
                        },
                    }
                }
            },
        }
    } else {
        match literal_bits(t) {
            Some(bits) => Ok(SpecValue::Num(bits)),
            None => {
                if t.len() >= 2 && t[0] == '"' && t[t.len() - 1] == '"' {
                    Ok(SpecValue::Str(t.subrange(1, t.len() - 1)))
                } else if t == "#t"@ {
                    Ok(SpecValue::Bool(true))
                } else if t == "#f"@ {
                    Ok(SpecValue::Bool(false))
                } else {
                    match env_lookup(envm, t) {
                        Some(v) => Ok(v),
                        None => Ok(SpecValue::Symbol(t)),
                    }
                }
            },
        }
    }
}

/// The values of a sequence of argument tokens, each evaluated as a
/// complete expression; the first failure wins.
pub open spec fn spec_eval_args(
    envm: Seq<(Seq<char>, SpecValue)>,
    toks: Seq<Seq<char>>,
    fuel: nat,
) -> Result<Seq<SpecValue>, Seq<char>>
    decreases fuel, 1int + toks.len(),
{
    if toks.len() == 0 {
        Ok(Seq::empty())
    } else {
        match spec_eval(envm, toks[0], fuel) {
            Err(e) => Err(e),
            Ok(v) => match spec_eval_args(envm, toks.drop_first(), fuel) {
                Err(e) => Err(e),
                Ok(vs) => Ok(seq![v] + vs),
            },
        }
    }
}

/// Evaluate one expression held as characters.
#[verifier::rlimit(100)]
pub fn eval_chars(env: &Vec<EnvEntry>, s: &Vec<char>) -> (r: Result<SchemeValue, String>)
    ensures
        forall|f: nat|
            f > s@.len() ==> spec_eval(view_env(env@), s@, f) == (match r {
                Ok(v) => Ok::<SpecValue, Seq<char>>(v@),
                Err(m) => Err::<SpecValue, Seq<char>>(m@),
            }),
    decreases s@.len(), 1int, 0int,
{
    let tv = exec_trim(s);
    if tv.len() == 0 {
        return Err(<String as StringExecFns>::from_str("Empty expression"));
    }
    if chars_eq_str(tv.as_slice(), "nil") || chars_eq_str(tv.as_slice(), "()") {
        return Ok(SchemeValue::Nil);
    }
    if tv[0] == '(' && tv[tv.len() - 1] == ')' {
        let inner = copy_range(&tv, 1, tv.len() - 1);
        match tokenize_chars(&inner) {
            Err(m) => {
                proof {
                    assert forall|f: nat| f > s@.len() implies spec_eval(view_env(env@), s@, f)
                        == Err::<SpecValue, Seq<char>>(m@) by {}
                }
                Err(m)
            },
            Ok(toks) => {
                if toks.len() == 0 {
                    return Err(<String as StringExecFns>::from_str("Empty function call"));
                }
                if chars_eq_str(toks[0].as_slice(), "#t") {
                    return Ok(SchemeValue::Boolean(true));
                }
                if chars_eq_str(toks[0].as_slice(), "#f") {
                    return Ok(SchemeValue::Boolean(false));
                }
                proof {
                    lemma_tokenize_token_len(inner@, token_views(toks@));
                    assert forall|k: int| 1 <= k < toks@.len() implies #[trigger] toks@[k]@.len()
                        < s@.len() by {
                        assert(token_views(toks@)[k] == toks@[k]@);
                        assert(token_views(toks@)[k].len() <= inner@.len());
                    }
                }
                match eval_args(env, &toks, 1, Ghost(s@.len() as nat)) {
                    Err(m) => {
                        proof {
                            assert(token_views(toks@).skip(1) =~= token_views(toks@).drop_first());
                            assert forall|g: nat| g >= s@.len() implies #[trigger] spec_eval_args(
                                view_env(env@),
                                token_views(toks@).drop_first(),
                                g,
                            ) == Err::<Seq<SpecValue>, Seq<char>>(m@) by {
                                assert(spec_eval_args(
                                    view_env(env@),
                                    token_views(toks@).skip(1),
                                    g,
                                ) == Err::<Seq<SpecValue>, Seq<char>>(m@));
                            }
                            assert forall|f: nat| f > s@.len() implies spec_eval(
                                view_env(env@),
                                s@,
                                f,
                            ) == Err::<SpecValue, Seq<char>>(m@) by {
                                assert(spec_eval_args(
                                    view_env(env@),
                                    token_views(toks@).drop_first(),
                                    (f - 1) as nat,
                                ) == Err::<Seq<SpecValue>, Seq<char>>(m@));
                            }
                        }
                        Err(m)
                    },
                    Ok(vals) => {
                        proof {
                            assert(token_views(toks@).skip(1) =~= token_views(
                                toks@,
                            ).drop_first());
                            assert forall|g: nat| g >= s@.len() implies #[trigger] spec_eval_args(
                                view_env(env@),
                                token_views(toks@).drop_first(),
                                g,
                            ) == Ok::<Seq<SpecValue>, Seq<char>>(view_vals(vals@)) by {
                                assert(spec_eval_args(
                                    view_env(env@),
                                    token_views(toks@).skip(1),
                                    g,
                                ) == Ok::<Seq<SpecValue>, Seq<char>>(view_vals(vals@)));
                            }
                        }
                        match lookup(env, &toks[0]) {
                            Some(SchemeValue::Function(op_ref)) => {
                                let op = *op_ref;
                                let mut scratch: Vec<EnvEntry> = Vec::new();
                                let applied = apply_builtin(op, &vals, &mut scratch);
                                proof {
                                    assert(token_views(toks@)[0] == toks@[0]@);
                                    assert forall|f: nat| f > s@.len() implies spec_eval(
                                        view_env(env@),
                                        s@,
                                        f,
                                    ) == (match applied {
                                        Ok(v) => Ok::<SpecValue, Seq<char>>(v@),
                                        Err(m) => Err::<SpecValue, Seq<char>>(m@),
                                    }) by {
                                        assert(spec_eval_args(
                                            view_env(env@),
                                            token_views(toks@).drop_first(),
                                            (f - 1) as nat,
                                        ) == Ok::<Seq<SpecValue>, Seq<char>>(view_vals(vals@)));
                                    }
                                }
                                applied
                            },
                            _ => {
                                let name = chars_to_string(toks[0].as_slice());
                                let msg = <String as StringExecFns>::from_str(
                                    "Unknown function: ",
                                ).concat(name.as_str());
                                proof {
                                    assert(token_views(toks@)[0] == toks@[0]@);
                                    assert forall|f: nat| f > s@.len() implies spec_eval(
                                        view_env(env@),
                                        s@,
                                        f,
                                    ) == Err::<SpecValue, Seq<char>>(msg@) by {
                                        assert(spec_eval_args(
                                            view_env(env@),
                                            token_views(toks@).drop_first(),
                                            (f - 1) as nat,
                                        ) == Ok::<Seq<SpecValue>, Seq<char>>(view_vals(vals@)));
                                    }
                                }
                                Err(msg)
                            },
                        }
                    },
                }
            },
        }
    } else {
        match parse_number(&tv) {
            Some(bits) => {
                let out = SchemeValue::Number(bits);
                proof {
                    assert forall|f: nat| f > s@.len() implies spec_eval(view_env(env@), s@, f)
                        == Ok::<SpecValue, Seq<char>>(out@) by {}
                }
                Ok(out)
            },
            None => {
                if tv.len() >= 2 && tv[0] == '"' && tv[tv.len() - 1] == '"' {
                    let body = copy_range(&tv, 1, tv.len() - 1);
                    let out = SchemeValue::String(chars_to_string(body.as_slice()));
                    proof {
                        assert forall|f: nat| f > s@.len() implies spec_eval(view_env(env@), s@, f)
                            == Ok::<SpecValue, Seq<char>>(out@) by {}
                    }
                    Ok(out)
                } else if chars_eq_str(tv.as_slice(), "#t") {
                    let out = SchemeValue::Boolean(true);
                    proof {
                        assert forall|f: nat| f > s@.len() implies spec_eval(view_env(env@), s@, f)
                            == Ok::<SpecValue, Seq<char>>(out@) by {}
                    }
                    Ok(out)
                } else if chars_eq_str(tv.as_slice(), "#f") {
                    let out = SchemeValue::Boolean(false);
                    proof {
                        assert forall|f: nat| f > s@.len() implies spec_eval(view_env(env@), s@, f)
                            == Ok::<SpecValue, Seq<char>>(out@) by {}
                    }
                    Ok(out)
                } else {
                    match lookup(env, &tv) {
                        Some(v) => {
                            let out = dup(v);
                            proof {
                                assert forall|f: nat| f > s@.len() implies spec_eval(
                                    view_env(env@),
                                    s@,
                                    f,
                                ) == Ok::<SpecValue, Seq<char>>(out@) by {}
                            }
                            Ok(out)
                        },
                        None => {
                            let out = SchemeValue::Symbol(chars_to_string(tv.as_slice()));
                            proof {
                                assert forall|f: nat| f > s@.len() implies spec_eval(
                                    view_env(env@),
                                    s@,
                                    f,
                                ) == Ok::<SpecValue, Seq<char>>(out@) by {}
                            }
                            Ok(out)
                        },
                    }
                }
            },
        }
    }
}

/// Evaluate the argument tokens from index `i` on; `bound` exceeds every
/// remaining token's length and ties the recursion to the caller's text.
fn eval_args(env: &Vec<EnvEntry>, toks: &Vec<Vec<char>>, i: usize, bound: Ghost<nat>) -> (r: Result<
    Vec<SchemeValue>,
    String,
>)
    requires
        i <= toks@.len(),
        forall|k: int| i <= k < toks@.len() ==> #[trigger] toks@[k]@.len() < bound@,
    ensures
        forall|f: nat|
            (forall|k: int| i <= k < toks@.len() ==> f > #[trigger] toks@[k]@.len())
                ==> spec_eval_args(view_env(env@), token_views(toks@).skip(i as int), f) == (
            match r {
                Ok(vs) => Ok::<Seq<SpecValue>, Seq<char>>(view_vals(vs@)),
                Err(m) => Err::<Seq<SpecValue>, Seq<char>>(m@),
            }),
    decreases bound@, 0int, toks@.len() - i,
{
    if i == toks.len() {
        let out: Vec<SchemeValue> = Vec::new();
        proof {
            assert(token_views(toks@).skip(i as int) =~= Seq::<Seq<char>>::empty());
            assert(view_vals(out@) =~= Seq::<SpecValue>::empty());
        }
        Ok(out)
    } else {
        proof {
            assert(token_views(toks@).skip(i as int)[0] == toks@[i as int]@);
            assert(token_views(toks@).skip(i as int).drop_first() =~= token_views(toks@).skip(
                i as int + 1,
            ));
        }
        match eval_chars(env, &toks[i]) {
            Err(m) => {
                proof {
                    assert forall|f: nat|
                        (forall|k: int| i <= k < toks@.len() ==> f > #[trigger] toks@[k]@.len())
                            implies spec_eval_args(
                        view_env(env@),
                        token_views(toks@).skip(i as int),
                        f,
                    ) == Err::<Seq<SpecValue>, Seq<char>>(m@) by {
                        assert(f > toks@[i as int]@.len());
                        assert(spec_eval(view_env(env@), toks@[i as int]@, f) == Err::<
                            SpecValue,
                            Seq<char>,
                        >(m@));
                    }
                }
                Err(m)
            },
            Ok(v) => {
                let ghost vview = v@;
                match eval_args(env, toks, i + 1, bound) {
                    Err(m) => {
                        proof {
                            assert forall|f: nat|
                                (forall|k: int|
                                    i <= k < toks@.len() ==> f > #[trigger] toks@[k]@.len())
                                    implies spec_eval_args(
                                view_env(env@),
                                token_views(toks@).skip(i as int),
                                f,
                            ) == Err::<Seq<SpecValue>, Seq<char>>(m@) by {
                                assert(f > toks@[i as int]@.len());
                                assert(spec_eval(view_env(env@), toks@[i as int]@, f) == Ok::<
                                    SpecValue,
                                    Seq<char>,
                                >(vview));
                                assert(spec_eval_args(
                                    view_env(env@),
                                    token_views(toks@).skip(i as int + 1),
                                    f,
                                ) == Err::<Seq<SpecValue>, Seq<char>>(m@));
                            }
                        }
                        Err(m)
                    },
                    Ok(rest) => {
                        let ghost restview = view_vals(rest@);
                        let ghost restseq = rest@;
                        let ghost vexec = v;
                        let mut out = rest;
                        out.insert(0, v);
                        proof {
                            assert(out@ =~= seq![vexec] + restseq);
                            lemma_view_vals(out@);
                            lemma_view_vals(restseq);
                            assert forall|k: int| 0 <= k < out@.len() implies #[trigger] view_vals(
                                out@,
                            )[k] == (seq![vview] + restview)[k] by {
                                if k > 0 {
                                    assert(out@[k] == restseq[k - 1]);
                                }
                            }
                            assert(view_vals(out@) =~= seq![vview] + restview);
                            assert forall|f: nat|
                                (forall|k: int|
                                    i <= k < toks@.len() ==> f > #[trigger] toks@[k]@.len())
                                    implies spec_eval_args(
                                view_env(env@),
                                token_views(toks@).skip(i as int),
                                f,
                            ) == Ok::<Seq<SpecValue>, Seq<char>>(view_vals(out@)) by {
                                assert(f > toks@[i as int]@.len());
                                assert(spec_eval(view_env(env@), toks@[i as int]@, f) == Ok::<
                                    SpecValue,
                                    Seq<char>,
                                >(vview));
                                assert(spec_eval_args(
                                    view_env(env@),
                                    token_views(toks@).skip(i as int + 1),
                                    f,
                                ) == Ok::<Seq<SpecValue>, Seq<char>>(restview));
                            }
                        }
                        Ok(out)
                    },
                }
            },
        }
    }
}

} // verus!

verus! {

/// The first index at or after `i` that holds a newline.
pub open spec fn next_newline(s: Seq<char>, i: int) -> int
    decreases s.len() - i,
{
    if 0 <= i < s.len() && s[i] != '\n' {
        next_newline(s, i + 1)
    } else {
        i
    }
}

/// The newline scan stays inside the text and never goes backward.
pub proof fn lemma_next_newline_range(s: Seq<char>, i: int)
    requires
        0 <= i <= s.len(),
    ensures
        i <= next_newline(s, i) <= s.len(),
    decreases s.len() - i,
{
    if i < s.len() && s[i] != '\n' {
        lemma_next_newline_range(s, i + 1);
    }
}

fn exec_next_newline(s: &Vec<char>, i: usize) -> (r: usize)
    requires
        i <= s@.len(),
    ensures
        r == next_newline(s@, i as int),
        i <= r <= s@.len(),
    decreases s@.len() - i,
{
    if i < s.len() && s[i] != '\n' {
        exec_next_newline(s, i + 1)
    } else {
        i
    }
}

/// The display text of a line's result in a transcript: strings, numbers
/// and booleans render as themselves, anything else as the word `result`.
pub open spec fn result_chars(v: SpecValue) -> Seq<char> {
    match v {
        SpecValue::Str(x) => x,
        SpecValue::Num(n) => crate::render::number_chars(n),
        SpecValue::Bool(b) => crate::builtins::bool_chars(b),
        _ => "result"@,
    }
}

/// Run the lines of a program from position `i` on, with `idx` lines
/// already passed and `acc` the transcript so far.  Each line is numbered,
/// trimmed, and skipped when blank or a `;` comment; otherwise a trace
/// entry and the line's result extend the transcript, and the first
/// failing line ends the run with both the error and the transcript up to
/// and including the error entry.
pub open spec fn spec_run_from(
    envm: Seq<(Seq<char>, SpecValue)>,
    s: Seq<char>,
    i: int,
    idx: int,
    acc: Seq<char>,
) -> Result<Seq<char>, (Seq<char>, Seq<char>)>
    decreases s.len() + 1 - i,
    via spec_run_from_dec
{
    if i < 0 || i >= s.len() {
        Ok(acc)
    } else {
        let j = next_newline(s, i);
        let raw = s.subrange(i, j);
        let line = if raw.len() > 0 && raw[raw.len() - 1] == '\r' {
            raw.drop_last()
        } else {
            raw
        };
        let t = trim(line);
        if t.len() == 0 || t[0] == ';' {
            spec_run_from(envm, s, j + 1, idx + 1, acc)
        } else {
            let acc2 = acc + "Processing line "@ + crate::numeric::dec_chars(idx as u64) + ": '"@
                + t + "'\n"@;
            match spec_eval(envm, t, (t.len() + 1) as nat) {
                Ok(v) => spec_run_from(envm, s, j + 1, idx + 1, acc2 + result_chars(v) + "\n"@),
                Err(e) => Err(
                    (e, acc2 + "Error on line "@ + crate::numeric::dec_chars(idx as u64) + ": "@ + e
                        + "\n"@),
                ),
            }
        }
    }
}

#[via_fn]
proof fn spec_run_from_dec(
    envm: Seq<(Seq<char>, SpecValue)>,
    s: Seq<char>,
    i: int,
    idx: int,
    acc: Seq<char>,
) {
    if 0 <= i < s.len() {
        lemma_next_newline_range(s, i);
    }
}

/// The transcript of a whole program, or its first error with the partial
/// transcript.
pub open spec fn spec_run(envm: Seq<(Seq<char>, SpecValue)>, s: Seq<char>) -> Result<
    Seq<char>,
    (Seq<char>, Seq<char>),
> {
    spec_run_from(envm, s, 0, 0, Seq::empty())
}

/// A failed program run: the message of the failing line, and the
/// transcript accumulated up to and including the error entry.
#[derive(Debug)]
pub struct RunFailure {
    pub error: String,
    pub transcript: String,
}

/// The interpreter: one immutable environment holding the builtin table.
pub struct SchemeInterpreter {
    env: Vec<EnvEntry>,
}

impl View for SchemeInterpreter {
    type V = Seq<(Seq<char>, SpecValue)>;

    closed spec fn view(&self) -> Seq<(Seq<char>, SpecValue)> {
        view_env(self.env@)
    }
}

impl SchemeInterpreter {
    /// Build an interpreter whose environment is exactly the builtin table.
    pub fn new() -> (r: SchemeInterpreter)
        ensures
            r@ == crate::env::builtin_env(),
    {
        SchemeInterpreter { env: crate::env::make_builtin_env() }
    }

    /// Evaluate one expression: the result is the model's, at any
    /// sufficient recursion fuel.
    pub fn eval(&self, expr: &str) -> (r: Result<SchemeValue, String>)
        ensures
            forall|f: nat|
                f > expr@.len() ==> spec_eval(self@, expr@, f) == (match r {
                    Ok(v) => Ok::<SpecValue, Seq<char>>(v@),
                    Err(m) => Err::<SpecValue, Seq<char>>(m@),
                }),
    {
        let chars = str_to_chars(expr);
        eval_chars(&self.env, &chars)
    }

    /// Tokenize the interior of an application.
    pub fn tokenize(&self, input: &str) -> (r: Result<Vec<String>, String>)
        ensures
            match r {
                Ok(ts) => spec_tokenize(input@) == Some(ts.deep_view()),
                Err(m) => spec_tokenize(input@) is None && m@ == "Unmatched parentheses"@,
            },
    {
        let chars = str_to_chars(input);
        match tokenize_chars(&chars) {
            Err(m) => Err(m),
            Ok(toks) => {
                let mut out: Vec<String> = Vec::new();
                let mut i: usize = 0;
                while i < toks.len()
                    invariant
                        i <= toks@.len(),
                        out@.len() == i,
                        forall|k: int| 0 <= k < i ==> #[trigger] out@[k]@ == toks@[k]@,
                    decreases toks@.len() - i,
                {
                    let piece = chars_to_string(toks[i].as_slice());
                    out.push(piece);
                    i = i + 1;
                }
                proof {
                    assert(out.deep_view() =~= token_views(toks@));
                }
                Ok(out)
            },
        }
    }

    /// Render a value to its display text.
    pub fn display_value(&self, v: &SchemeValue) -> (r: String)
        ensures
            r@ == crate::render::render_val(v@),
    {
        crate::render::display_value(v)
    }

    /// Run a program line by line, building the transcript; the first
    /// failing line stops the run, and the failure carries both the error
    /// and the transcript so far.
    #[verifier::rlimit(100)]
    pub fn run_program(&self, program: &str) -> (r: Result<String, RunFailure>)
        ensures
            match r {
                Ok(out) => spec_run(self@, program@) == Ok::<Seq<char>, (Seq<char>, Seq<char>)>(
                    out@,
                ),
                Err(fail) => spec_run(self@, program@) == Err::<Seq<char>, (Seq<char>, Seq<char>)>(
                    (fail.error@, fail.transcript@),
                ),
            },
    {
        let chars = str_to_chars(program);
        let n = chars.len();
        let mut out = String::new();
        let mut i: usize = 0;
        let mut idx: usize = 0;
        while i < n
            invariant
                chars@ == program@,
                n == chars@.len(),
                i <= n,
                idx <= i,
                spec_run_from(view_env(self.env@), chars@, i as int, idx as int, out@)
                    == spec_run(view_env(self.env@), chars@),
            decreases n - i,
        {
            let ghost i0 = i as int;
            let ghost idx0 = idx as int;
            let ghost out0 = out@;
            let j = exec_next_newline(&chars, i);
            let lineend = if j > i && chars[j - 1] == '\r' {
                j - 1
            } else {
                j
            };
            let line = copy_range(&chars, i, lineend);
            let ghost raw = chars@.subrange(i0, j as int);
            let ghost specline = if raw.len() > 0 && raw[raw.len() - 1] == '\r' {
                raw.drop_last()
            } else {
                raw
            };
            proof {
                if raw.len() > 0 && raw[raw.len() - 1] == '\r' {
                    assert(raw.drop_last() =~= chars@.subrange(i0, j as int - 1));
                }
                assert(line@ == specline);
            }
            let tline = exec_trim(&line);
            proof {
                assert(tline@ == trim(specline));
            }
            if tline.len() == 0 || tline[0] == ';' {
                proof {
                    assert(spec_run_from(view_env(self.env@), chars@, i0, idx0, out0)
                        == spec_run_from(
                        view_env(self.env@),
                        chars@,
                        j as int + 1,
                        idx0 + 1,
                        out0,
                    ));
                }
                i = if j < n {
                    j + 1
                } else {
                    n
                };
                idx = idx + 1;
            } else {
                out.append("Processing line ");
                let mut dv: Vec<char> = Vec::new();
                crate::numeric::push_dec_chars(&mut dv, idx as u64);
                let dvs = chars_to_string(dv.as_slice());
                out.append(dvs.as_str());
                out.append(": '");
                let tls = chars_to_string(tline.as_slice());
                out.append(tls.as_str());
                out.append("'\n");
                let ghost acc2 = out0 + "Processing line "@ + crate::numeric::dec_chars(
                    idx0 as u64,
                ) + ": '"@ + tline@ + "'\n"@;
                proof {
                    assert(out@ == acc2);
                }
                match eval_chars(&self.env, &tline) {
                    Ok(v) => {
                        proof {
                            assert(spec_eval(
                                view_env(self.env@),
                                tline@,
                                (tline@.len() + 1) as nat,
                            ) == Ok::<SpecValue, Seq<char>>(v@));
                        }
                        match &v {
                            SchemeValue::String(x) => {
                                let copy = x.clone();
                                out.append(copy.as_str());
                            },
                            SchemeValue::Number(b) => {
                                let rendered = crate::render::render_number(*b);
                                out.append(rendered.as_str());
                            },
                            SchemeValue::Boolean(b) => {
                                if *b {
                                    out.append("true");
                                } else {
                                    out.append("false");
                                }
                            },
                            _ => {
                                out.append("result");
                            },
                        }
                        out.append("\n");
                        proof {
                            assert(out@ == acc2 + result_chars(v@) + "\n"@);
                            assert(spec_run_from(view_env(self.env@), chars@, i0, idx0, out0)
                                == spec_run_from(
                                view_env(self.env@),
                                chars@,
                                j as int + 1,
                                idx0 + 1,
                                out@,
                            ));
                        }
                        i = if j < n {
                            j + 1
                        } else {
                            n
                        };
                        idx = idx + 1;
                    },
                    Err(e) => {
                        proof {
                            assert(spec_eval(
                                view_env(self.env@),
                                tline@,
                                (tline@.len() + 1) as nat,
                            ) == Err::<SpecValue, Seq<char>>(e@));
                        }
                        out.append("Error on line ");
                        out.append(dvs.as_str());
                        out.append(": ");
                        let ecopy = e.clone();
                        out.append(ecopy.as_str());
                        out.append("\n");
                        proof {
                            assert(out@ == acc2 + "Error on line "@ + crate::numeric::dec_chars(
                                idx0 as u64,
                            ) + ": "@ + e@ + "\n"@);
                            assert(spec_run_from(view_env(self.env@), chars@, i0, idx0, out0)
                                == Err::<Seq<char>, (Seq<char>, Seq<char>)>((e@, out@)));
                        }
                        return Err(RunFailure { error: e, transcript: out });
                    },
                }
            }
        }
        Ok(out)
    }
}

} // verus!
