//! The runtime type tags of the language: every value has exactly one
//! type, obtainable without evaluation. Function types carry the ordered
//! list of their parameter types.

use vstd::prelude::*;

verus! {

/// Runtime type tag of a value.
#[derive(Debug)]
pub enum Type {
    Undefined,
    Float64,
    Int64,
    Bool,
    Function(Vec<Type>),
}

/// Mathematical model of a `Type`: the same shape, with the parameter
/// list of a function type abstracted to a sequence.
pub enum SpecType {
    Undefined,
    Float64,
    Int64,
    Bool,
    Function(Seq<SpecType>),
}

pub open spec fn spec_type(t: Type) -> SpecType
    decreases t,
{
    match t {
        Type::Undefined => SpecType::Undefined,
        Type::Float64 => SpecType::Float64,
        Type::Int64 => SpecType::Int64,
        Type::Bool => SpecType::Bool,
        Type::Function(ts) => SpecType::Function(spec_type_seq(ts@)),
    }
}

pub open spec fn spec_type_seq(ts: Seq<Type>) -> Seq<SpecType>
    decreases ts,
{
    if ts.len() == 0 {
        Seq::empty()
    } else {
        seq![spec_type(ts[0])] + spec_type_seq(ts.drop_first())
    }
}

impl View for Type {
    type V = SpecType;

    open spec fn view(&self) -> SpecType {
        spec_type(*self)
    }
}

pub proof fn lemma_spec_type_seq_len(ts: Seq<Type>)
    ensures
        spec_type_seq(ts).len() == ts.len(),
    decreases ts,
{
    if ts.len() != 0 {
        lemma_spec_type_seq_len(ts.drop_first());
    }
}

pub proof fn lemma_spec_type_seq_index(ts: Seq<Type>, i: int)
    requires
        0 <= i < ts.len(),
    ensures
        spec_type_seq(ts).len() == ts.len(),
        spec_type_seq(ts)[i] == spec_type(ts[i]),
    decreases ts,
{
    lemma_spec_type_seq_len(ts);
    if i > 0 {
        lemma_spec_type_seq_index(ts.drop_first(), i - 1);
    }
}

/// Structural equality of two type tags, decided at run time; two
/// function types are equal exactly when their parameter lists are.
pub fn eq_type(a: &Type, b: &Type) -> (r: bool)
    ensures
        r == (a@ == b@),
    decreases *a,
{
    match (a, b) {
        (Type::Undefined, Type::Undefined) => true,
        (Type::Float64, Type::Float64) => true,
        (Type::Int64, Type::Int64) => true,
        (Type::Bool, Type::Bool) => true,
        (Type::Function(x), Type::Function(y)) => eq_type_vec(x, y),
        _ => false,
    }
}

pub fn eq_type_vec(x: &Vec<Type>, y: &Vec<Type>) -> (r: bool)
    ensures
        r == (spec_type_seq(x@) == spec_type_seq(y@)),
    decreases x@,
{
    proof {
        lemma_spec_type_seq_len(x@);
        lemma_spec_type_seq_len(y@);
    }
    if x.len() != y.len() {
        return false;
    }
    let n = x.len();
    let mut i: usize = 0;
    while i < n
        invariant
            n == x@.len() == y@.len(),
            i <= n,
            forall|j: int| 0 <= j < i ==> spec_type(x@[j]) == spec_type(y@[j]),
        decreases n - i,
    {
        let same = eq_type(&x[i], &y[i]);
        proof {
            lemma_spec_type_seq_index(x@, i as int);
            lemma_spec_type_seq_index(y@, i as int);
        }
        if !same {
            return false;
        }
        i = i + 1;
    }
    proof {
        assert forall|j: int| 0 <= j < x@.len() implies spec_type_seq(x@)[j] == spec_type_seq(
            y@,
        )[j] by {
            lemma_spec_type_seq_index(x@, j);
            lemma_spec_type_seq_index(y@, j);
        }
        assert(spec_type_seq(x@) =~= spec_type_seq(y@));
    }
    true
}

/// Deep copy of a type tag; the copy has the same model.
pub fn clone_type(t: &Type) -> (r: Type)
    ensures
        r@ == t@,
    decreases *t,
{
    match t {
        Type::Undefined => Type::Undefined,
        Type::Float64 => Type::Float64,
        Type::Int64 => Type::Int64,
        Type::Bool => Type::Bool,
        Type::Function(ts) => Type::Function(clone_type_vec(ts)),
    }
}

pub fn clone_type_vec(ts: &Vec<Type>) -> (r: Vec<Type>)
    ensures
        spec_type_seq(r@) == spec_type_seq(ts@),
        r@.len() == ts@.len(),
    decreases ts@,
{
    let mut r: Vec<Type> = Vec::new();
    let n = ts.len();
    let mut i: usize = 0;
    while i < n
        invariant
            n == ts@.len(),
            i <= n,
            r@.len() == i,
            forall|j: int| 0 <= j < i ==> spec_type(r@[j]) == spec_type(ts@[j]),
        decreases n - i,
    {
        let c = clone_type(&ts[i]);
        r.push(c);
        i = i + 1;
    }
    proof {
        lemma_spec_type_seq_len(r@);
        lemma_spec_type_seq_len(ts@);
        assert forall|j: int| 0 <= j < ts@.len() implies spec_type_seq(r@)[j] == spec_type_seq(
            ts@,
        )[j] by {
            lemma_spec_type_seq_index(r@, j);
            lemma_spec_type_seq_index(ts@, j);
        }
        assert(spec_type_seq(r@) =~= spec_type_seq(ts@));
    }
    r
}

impl Clone for Type {
    fn clone(&self) -> (res: Self)
        ensures
            res@ == self@,
    {
        clone_type(self)
    }
}

} // verus!
