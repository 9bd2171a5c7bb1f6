//! The runtime value model of the interpreter.
//!
//! A `SchemeValue` is a closed tagged union; numbers carry the bit pattern
//! of an IEEE 754 double (see `numeric`), and the operator-callable variant
//! holds a member of the closed `Builtin` enumeration rather than a bare
//! function pointer.  The mathematical model of a value is a `SpecValue`,
//! in which text is a sequence of characters and collections are sequences.
use vstd::prelude::*;

verus! {

broadcast use vstd::seq::axiom_seq_index_decreases, vstd::seq::axiom_seq_subrange_decreases, vstd::std_specs::vec::axiom_vec_decreases_to_view, vstd::std_specs::vec::axiom_vec_index_decreases;

/// The fixed set of native operators.
#[derive(Clone, Copy, PartialEq, Eq, Structural)]
pub enum Builtin {
    Display,
    Add,
    Sub,
    Mul,
    Lt,
    NumEq,
    If,
    Cons,
    Car,
    Cdr,
    List,
    NullQ,
    Gt,
    Ge,
    Le,
    Div,
    And,
    Or,
    Begin,
    Let,
    Cond,
    Vector,
    MakeHashTable,
    HashPut,
    HashGet,
    VectorRef,
    VectorLength,
    While,
    ForEach,
    Length,
    Append,
    Abs,
    Sqrt,
    Expt,
}

/// One binding of an environment.
pub struct EnvEntry {
    pub name: String,
    pub value: SchemeValue,
}

/// A runtime value.  `Number` holds the bits of an IEEE 754 double.
/// `HashTable` carries no contents: the only constructor makes an empty
/// table and no operation ever stores into one, so the contents are not
/// observable.  `Lambda` is part of the closed model but is constructed
/// nowhere.
pub enum SchemeValue {
    String(String),
    Number(u64),
    Boolean(bool),
    List(Vec<SchemeValue>),
    Vector(Vec<SchemeValue>),
    HashTable,
    Function(Builtin),
    Lambda { params: Vec<String>, body: Vec<String>, env: Vec<EnvEntry> },
    Symbol(String),
    Nil,
}

/// The mathematical model of a runtime value.
pub enum SpecValue {
    Str(Seq<char>),
    Num(u64),
    Bool(bool),
    List(Seq<SpecValue>),
    Vector(Seq<SpecValue>),
    Hash,
    Fun(Builtin),
    Lambda { params: Seq<Seq<char>>, body: Seq<Seq<char>>, env: Seq<(Seq<char>, SpecValue)> },
    Symbol(Seq<char>),
    Nil,
}

/// The model of a value.
pub open spec fn view_val(v: SchemeValue) -> SpecValue
    decreases v,
{
    match v {
        SchemeValue::String(s) => SpecValue::Str(s@),
        SchemeValue::Number(b) => SpecValue::Num(b),
        SchemeValue::Boolean(b) => SpecValue::Bool(b),
        SchemeValue::List(vs) => SpecValue::List(view_vals(vs@)),
        SchemeValue::Vector(vs) => SpecValue::Vector(view_vals(vs@)),
        SchemeValue::HashTable => SpecValue::Hash,
        SchemeValue::Function(f) => SpecValue::Fun(f),
        SchemeValue::Lambda { params, body, env } => SpecValue::Lambda {
            params: params.deep_view(),
            body: body.deep_view(),
            env: view_env(env@),
        },
        SchemeValue::Symbol(s) => SpecValue::Symbol(s@),
        SchemeValue::Nil => SpecValue::Nil,
    }
}

/// The models of a sequence of values.
pub open spec fn view_vals(vs: Seq<SchemeValue>) -> Seq<SpecValue>
    decreases vs,
{
    if vs.len() == 0 {
        Seq::empty()
    } else {
        seq![view_val(vs[0])] + view_vals(vs.drop_first())
    }
}

/// The models of the bindings of an environment.
pub open spec fn view_env(es: Seq<EnvEntry>) -> Seq<(Seq<char>, SpecValue)>
    decreases es,
{
    if es.len() == 0 {
        Seq::empty()
    } else {
        seq![(es[0].name@, view_val(es[0].value))] + view_env(es.drop_first())
    }
}

pub broadcast proof fn lemma_view_vals(vs: Seq<SchemeValue>)
    ensures
        #[trigger] view_vals(vs).len() == vs.len(),
        forall|i: int| 0 <= i < vs.len() ==> view_vals(vs)[i] == view_val(vs[i]),
    decreases vs.len(),
{
    if vs.len() > 0 {
        lemma_view_vals(vs.drop_first());
    }
}

pub broadcast proof fn lemma_view_env(es: Seq<EnvEntry>)
    ensures
        #[trigger] view_env(es).len() == es.len(),
        forall|i: int|
            0 <= i < es.len() ==> view_env(es)[i] == (es[i].name@, view_val(es[i].value)),
    decreases es.len(),
{
    if es.len() > 0 {
        lemma_view_env(es.drop_first());
    }
}

impl View for SchemeValue {
    type V = SpecValue;

    open spec fn view(&self) -> SpecValue {
        view_val(*self)
    }
}

/// A deep copy of a vector of strings.
fn dup_strings(ss: &Vec<String>) -> (r: Vec<String>)
    ensures
        r.deep_view() == ss.deep_view(),
{
    let mut out: Vec<String> = Vec::new();
    let mut i: usize = 0;
    while i < ss.len()
        invariant
            i <= ss@.len(),
            out@.len() == i as int,
            forall|j: int| 0 <= j < i ==> out@[j]@ == ss@[j]@,
        decreases ss@.len() - i,
    {
        out.push(ss[i].clone());
        i = i + 1;
    }
    proof {
        assert(out.deep_view() =~= ss.deep_view());
    }
    out
}

/// A deep copy of a value: the copy has the same model.
pub fn dup(v: &SchemeValue) -> (r: SchemeValue)
    ensures
        r@ == v@,
    decreases *v,
{
    match v {
        SchemeValue::String(s) => SchemeValue::String(s.clone()),
        SchemeValue::Number(b) => SchemeValue::Number(*b),
        SchemeValue::Boolean(b) => SchemeValue::Boolean(*b),
        SchemeValue::List(vs) => SchemeValue::List(dup_vals(vs)),
        SchemeValue::Vector(vs) => SchemeValue::Vector(dup_vals(vs)),
        SchemeValue::HashTable => SchemeValue::HashTable,
        SchemeValue::Function(f) => SchemeValue::Function(*f),
        SchemeValue::Lambda { params, body, env } => {
            proof {
                assert(decreases_to!(*v => v->Lambda_env));
            }
            SchemeValue::Lambda {
                params: dup_strings(params),
                body: dup_strings(body),
                env: dup_env(env),
            }
        },
        SchemeValue::Symbol(s) => SchemeValue::Symbol(s.clone()),
        SchemeValue::Nil => SchemeValue::Nil,
    }
}

/// A deep copy of a vector of values.
pub fn dup_vals(vs: &Vec<SchemeValue>) -> (r: Vec<SchemeValue>)
    ensures
        view_vals(r@) == view_vals(vs@),
    decreases *vs,
{
    let mut out: Vec<SchemeValue> = Vec::new();
    let mut i: usize = 0;
    while i < vs.len()
        invariant
            i <= vs@.len(),
            out@.len() == i as int,
            forall|j: int| 0 <= j < i ==> out@[j]@ == vs@[j]@,
        decreases vs@.len() - i,
    {
        proof {
            assert(decreases_to!(*vs => vs@[i as int]));
        }
        let d = dup(&vs[i]);
        out.push(d);
        i = i + 1;
    }
    proof {
        lemma_view_vals(out@);
        lemma_view_vals(vs@);
        assert(view_vals(out@) =~= view_vals(vs@));
    }
    out
}

/// A deep copy of an environment.
fn dup_env(es: &Vec<EnvEntry>) -> (r: Vec<EnvEntry>)
    ensures
        view_env(r@) == view_env(es@),
    decreases *es,
{
    let mut out: Vec<EnvEntry> = Vec::new();
    let mut i: usize = 0;
    while i < es.len()
        invariant
            i <= es@.len(),
            out@.len() == i as int,
            forall|j: int|
                0 <= j < i ==> out@[j].name@ == es@[j].name@ && out@[j].value@ == es@[j].value@,
        decreases es@.len() - i,
    {
        proof {
            assert(decreases_to!(*es => es@[i as int]));
            assert(decreases_to!(es@[i as int] => es@[i as int].value));
        }
        let d = dup(&es[i].value);
        let name = es[i].name.clone();
        out.push(EnvEntry { name, value: d });
        i = i + 1;
    }
    proof {
        lemma_view_env(out@);
        lemma_view_env(es@);
        assert(view_env(out@) =~= view_env(es@));
    }
    out
}

} // verus!
