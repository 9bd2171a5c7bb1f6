//! The interpreter's environment: a name-to-value table.
//!
//! Exactly one environment exists per interpreter; it is filled with the
//! builtin operators at construction and never changed afterwards.  Lookup
//! is first match over the entries in order (the construction gives every
//! name once, so the order carries no meaning).  Trimming of input lines
//! lives here too.
use crate::value::Builtin;
use crate::value::EnvEntry;
use crate::value::SchemeValue;
use crate::value::SpecValue;
use crate::value::lemma_view_env;
use crate::value::view_env;
use crate::text::copy_range;
use vstd::prelude::*;

verus! {

/// A whitespace character: the ASCII blanks that line trimming removes.
pub open spec fn is_space(c: char) -> bool {
    c == ' ' || c == '\t' || c == '\n' || c == '\r' || c == '\u{000C}'
}

/// The first index at or after `i` that holds no whitespace.
pub open spec fn skip_spaces(s: Seq<char>, i: int) -> int
    decreases s.len() - i,
{
    if 0 <= i < s.len() && is_space(s[i]) {
        skip_spaces(s, i + 1)
    } else {
        i
    }
}

/// The index after the last non-whitespace character before `j`.
pub open spec fn rtrim_end(s: Seq<char>, j: int) -> int
    decreases j,
{
    if 0 < j <= s.len() && is_space(s[j - 1]) {
        rtrim_end(s, j - 1)
    } else {
        j
    }
}

/// The text with leading and trailing whitespace removed.
pub open spec fn trim(s: Seq<char>) -> Seq<char> {
    let a = skip_spaces(s, 0);
    let b = rtrim_end(s, s.len() as int);
    if a < b {
        s.subrange(a, b)
    } else {
        Seq::empty()
    }
}

fn exec_is_space(c: char) -> (r: bool)
    ensures
        r == is_space(c),
{
    c == ' ' || c == '\t' || c == '\n' || c == '\r' || c == '\u{000C}'
}

fn exec_skip_spaces(s: &Vec<char>, i: usize) -> (r: usize)
    requires
        i <= s@.len(),
    ensures
        r == skip_spaces(s@, i as int),
        i <= r <= s@.len(),
    decreases s@.len() - i,
{
    if i < s.len() && exec_is_space(s[i]) {
        exec_skip_spaces(s, i + 1)
    } else {
        i
    }
}

fn exec_rtrim_end(s: &Vec<char>, j: usize) -> (r: usize)
    requires
        j <= s@.len(),
    ensures
        r == rtrim_end(s@, j as int),
        r <= j,
    decreases j,
{
    if 0 < j && exec_is_space(s[j - 1]) {
        exec_rtrim_end(s, j - 1)
    } else {
        j
    }
}

/// Trim whitespace from both ends.
pub fn exec_trim(s: &Vec<char>) -> (r: Vec<char>)
    ensures
        r@ == trim(s@),
        r@.len() <= s@.len(),
{
    let a = exec_skip_spaces(s, 0);
    let b = exec_rtrim_end(s, s.len());
    if a < b {
        copy_range(s, a, b)
    } else {
        proof {
            assert(trim(s@) =~= Seq::<char>::empty());
        }
        Vec::new()
    }
}

/// First-match lookup of a name among the bindings.
pub open spec fn env_lookup(env: Seq<(Seq<char>, SpecValue)>, name: Seq<char>) -> Option<SpecValue>
    decreases env.len(),
{
    if env.len() == 0 {
        None
    } else if env[0].0 == name {
        Some(env[0].1)
    } else {
        env_lookup(env.drop_first(), name)
    }
}

/// Look a name up, scanning the entries from index `i` on.
fn lookup_from<'a>(env: &'a Vec<EnvEntry>, i: usize, name: &Vec<char>) -> (r: Option<
    &'a SchemeValue,
>)
    requires
        i <= env@.len(),
    ensures
        match r {
            Some(v) => env_lookup(view_env(env@).skip(i as int), name@) == Some(v@),
            None => env_lookup(view_env(env@).skip(i as int), name@) is None,
        },
    decreases env@.len() - i,
{
    proof {
        lemma_view_env(env@);
    }
    if i == env.len() {
        proof {
            assert(view_env(env@).skip(i as int) =~= Seq::<(Seq<char>, SpecValue)>::empty());
        }
        None
    } else {
        proof {
            assert(view_env(env@).skip(i as int)[0] == (env@[i as int].name@, crate::value::view_val(
                env@[i as int].value,
            )));
            assert(view_env(env@).skip(i as int).drop_first() =~= view_env(env@).skip(i as int + 1));
        }
        if crate::text::chars_eq_str(name.as_slice(), env[i].name.as_str()) {
            Some(&env[i].value)
        } else {
            lookup_from(env, i + 1, name)
        }
    }
}

/// Look a name up in an environment.
pub fn lookup<'a>(env: &'a Vec<EnvEntry>, name: &Vec<char>) -> (r: Option<&'a SchemeValue>)
    ensures
        match r {
            Some(v) => env_lookup(view_env(env@), name@) == Some(v@),
            None => env_lookup(view_env(env@), name@) is None,
        },
{
    proof {
        assert(view_env(env@).skip(0) =~= view_env(env@));
    }
    lookup_from(env, 0, name)
}

/// The fixed builtin table: every operator name bound to its `Function`
/// value, in the order of construction.
pub open spec fn builtin_env() -> Seq<(Seq<char>, SpecValue)> {
    seq![
        ("display"@, SpecValue::Fun(Builtin::Display)),
        ("+"@, SpecValue::Fun(Builtin::Add)),
        ("-"@, SpecValue::Fun(Builtin::Sub)),
        ("*"@, SpecValue::Fun(Builtin::Mul)),
        ("<"@, SpecValue::Fun(Builtin::Lt)),
        ("="@, SpecValue::Fun(Builtin::NumEq)),
        ("if"@, SpecValue::Fun(Builtin::If)),
        ("cons"@, SpecValue::Fun(Builtin::Cons)),
        ("car"@, SpecValue::Fun(Builtin::Car)),
        ("cdr"@, SpecValue::Fun(Builtin::Cdr)),
        ("list"@, SpecValue::Fun(Builtin::List)),
        ("null?"@, SpecValue::Fun(Builtin::NullQ)),
        (">"@, SpecValue::Fun(Builtin::Gt)),
        (">="@, SpecValue::Fun(Builtin::Ge)),
        ("<="@, SpecValue::Fun(Builtin::Le)),
        ("/"@, SpecValue::Fun(Builtin::Div)),
        ("and"@, SpecValue::Fun(Builtin::And)),
        ("or"@, SpecValue::Fun(Builtin::Or)),
        ("begin"@, SpecValue::Fun(Builtin::Begin)),
        ("let"@, SpecValue::Fun(Builtin::Let)),
        ("cond"@, SpecValue::Fun(Builtin::Cond)),
        ("vector"@, SpecValue::Fun(Builtin::Vector)),
        ("make-hash-table"@, SpecValue::Fun(Builtin::MakeHashTable)),
        ("hash-set!"@, SpecValue::Fun(Builtin::HashPut)),
        ("hash-ref"@, SpecValue::Fun(Builtin::HashGet)),
        ("vector-ref"@, SpecValue::Fun(Builtin::VectorRef)),
        ("vector-length"@, SpecValue::Fun(Builtin::VectorLength)),
        ("while"@, SpecValue::Fun(Builtin::While)),
        ("for-each"@, SpecValue::Fun(Builtin::ForEach)),
        ("length"@, SpecValue::Fun(Builtin::Length)),
        ("append"@, SpecValue::Fun(Builtin::Append)),
        ("abs"@, SpecValue::Fun(Builtin::Abs)),
        ("sqrt"@, SpecValue::Fun(Builtin::Sqrt)),
        ("expt"@, SpecValue::Fun(Builtin::Expt)),
    ]
}

fn entry(name: &str, op: Builtin) -> (r: EnvEntry)
    ensures
        r.name@ == name@,
        r.value == SchemeValue::Function(op),
{
    EnvEntry { name: <String as vstd::string::StringExecFns>::from_str(name), value: SchemeValue::Function(op) }
}

/// Build the builtin table.
#[verifier::rlimit(100)]
pub fn make_builtin_env() -> (r: Vec<EnvEntry>)
    ensures
        view_env(r@) == builtin_env(),
{
    let mut env: Vec<EnvEntry> = Vec::new();
    env.push(entry("display", Builtin::Display));
    env.push(entry("+", Builtin::Add));
    env.push(entry("-", Builtin::Sub));
    env.push(entry("*", Builtin::Mul));
    env.push(entry("<", Builtin::Lt));
    env.push(entry("=", Builtin::NumEq));
    env.push(entry("if", Builtin::If));
    env.push(entry("cons", Builtin::Cons));
    env.push(entry("car", Builtin::Car));
    env.push(entry("cdr", Builtin::Cdr));
    env.push(entry("list", Builtin::List));
    env.push(entry("null?", Builtin::NullQ));
    env.push(entry(">", Builtin::Gt));
    env.push(entry(">=", Builtin::Ge));
    env.push(entry("<=", Builtin::Le));
    env.push(entry("/", Builtin::Div));
    env.push(entry("and", Builtin::And));
    env.push(entry("or", Builtin::Or));
    env.push(entry("begin", Builtin::Begin));
    env.push(entry("let", Builtin::Let));
    env.push(entry("cond", Builtin::Cond));
    env.push(entry("vector", Builtin::Vector));
    env.push(entry("make-hash-table", Builtin::MakeHashTable));
    env.push(entry("hash-set!", Builtin::HashPut));
    env.push(entry("hash-ref", Builtin::HashGet));
    env.push(entry("vector-ref", Builtin::VectorRef));
    env.push(entry("vector-length", Builtin::VectorLength));
    env.push(entry("while", Builtin::While));
    env.push(entry("for-each", Builtin::ForEach));
    env.push(entry("length", Builtin::Length));
    env.push(entry("append", Builtin::Append));
    env.push(entry("abs", Builtin::Abs));
    env.push(entry("sqrt", Builtin::Sqrt));
    env.push(entry("expt", Builtin::Expt));
    proof {
        lemma_view_env(env@);
        assert(view_env(env@) =~= builtin_env());
    }
    env
}

} // verus!
