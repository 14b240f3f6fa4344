//! The value model: what the reader produces and the evaluator computes.
use vstd::prelude::*;

verus! {

/// The native operations bound in the root environment.
#[derive(Clone, Copy, Debug, PartialEq, Eq, Structural)]
pub enum Prim {
    Add,
    Sub,
    Mult,
    Div,
    Prn,
    Eq,
    Lt,
    List,
    ListQ,
    EmptyQ,
    Count,
    Str,
    Slurp,
    ReadStr,
    Atom,
    AtomQ,
    Deref,
    Reset,
    Swap,
}

/// A runtime value; lists double as code.
#[derive(Debug)]
pub enum Ast {
    Symbol(String),
    Integer(i64),
    Boolean(bool),
    String(String),
    List(Vec<Ast>),
    Function(Box<UserFunction>),
    /// A native operation and the name it is reported under.
    Builtin(String, Prim),
    Nil,
    /// A mutable cell, by its index among the heap's atoms.
    Atom(usize),
}

/// A closure: parameter names, body, and the index of the frame it captured.
#[derive(Debug)]
pub struct UserFunction {
    pub params: Vec<String>,
    pub body: Ast,
    pub env: usize,
}

/// The mathematical form of an `Ast`.
pub enum Val {
    Symbol(Seq<char>),
    Integer(i64),
    Boolean(bool),
    Str(Seq<char>),
    List(Seq<Val>),
    Closure(Seq<Seq<char>>, Box<Val>, usize),
    Builtin(Seq<char>, Prim),
    Nil,
    Atom(usize),
}

pub open spec fn names_of(ps: Seq<String>) -> Seq<Seq<char>> {
    ps.map_values(|s: String| s@)
}

pub open spec fn val_of(a: Ast) -> Val
    decreases a,
{
    match a {
        Ast::Symbol(s) => Val::Symbol(s@),
        Ast::Integer(n) => Val::Integer(n),
        Ast::Boolean(b) => Val::Boolean(b),
        Ast::String(s) => Val::Str(s@),
        Ast::List(xs) => {
            proof {
                assert(decreases_to!(xs => xs@));
            }
            Val::List(vals_of(xs@))
        },
        Ast::Function(f) => Val::Closure(names_of(f.params@), Box::new(val_of(f.body)), f.env),
        Ast::Builtin(name, p) => Val::Builtin(name@, p),
        Ast::Nil => Val::Nil,
        Ast::Atom(i) => Val::Atom(i),
    }
}

pub open spec fn vals_of(s: Seq<Ast>) -> Seq<Val>
    decreases s,
{
    if s.len() == 0 {
        Seq::empty()
    } else {
        vals_of(s.drop_last()).push(val_of(s.last()))
    }
}

impl View for Ast {
    type V = Val;

    open spec fn view(&self) -> Val {
        val_of(*self)
    }
}

pub proof fn lemma_vals_of(s: Seq<Ast>)
    ensures
        vals_of(s).len() == s.len(),
        forall|i: int| 0 <= i < s.len() ==> #[trigger] vals_of(s)[i] == val_of(s[i]),
    decreases s.len(),
{
    if s.len() > 0 {
        lemma_vals_of(s.drop_last());
    }
}

/// A copy of each name.
pub fn copy_names(ps: &Vec<String>) -> (r: Vec<String>)
    ensures
        r@ == ps@,
{
    let mut r: Vec<String> = Vec::new();
    let mut i: usize = 0;
    while i < ps.len()
        invariant
            i <= ps.len(),
            r@ == ps@.subrange(0, i as int),
        decreases ps.len() - i,
    {
        r.push(ps[i].clone());
        i = i + 1;
        assert(r@ =~= ps@.subrange(0, i as int));
    }
    assert(r@ =~= ps@);
    r
}

impl Ast {
    /// A value equal to this one, built anew.
    pub fn copy(&self) -> (r: Ast)
        ensures
            r@ == self@,
        decreases self,
    {
        match self {
            Ast::Symbol(s) => Ast::Symbol(s.clone()),
            Ast::Integer(n) => Ast::Integer(*n),
            Ast::Boolean(b) => Ast::Boolean(*b),
            Ast::String(s) => Ast::String(s.clone()),
            Ast::List(xs) => {
                let mut r: Vec<Ast> = Vec::new();
                let mut i: usize = 0;
                proof {
                    lemma_vals_of(xs@);
                    assert(decreases_to!(*self => self->List_0));
                }
                while i < xs.len()
                    invariant
                        i <= xs.len(),
                        vals_of(xs@).len() == xs@.len(),
                        forall|j: int| 0 <= j < xs@.len() ==> #[trigger] vals_of(xs@)[j] == val_of(xs@[j]),
                        vals_of(r@) == vals_of(xs@).subrange(0, i as int),
                        decreases_to!(*self => *xs),
                    decreases xs.len() - i,
                {
                    proof {
                        vstd::std_specs::vec::axiom_vec_index_decreases(*xs, i as int);
                    }
                    let c = xs[i].copy();
                    let ghost before = r@;
                    r.push(c);
                    assert(r@.drop_last() =~= before);
                    assert(vals_of(r@) =~= vals_of(xs@).subrange(0, i + 1));
                    i = i + 1;
                }
                assert(vals_of(r@) =~= vals_of(xs@));
                Ast::List(r)
            },
            Ast::Function(f) => Ast::Function(
                Box::new(UserFunction { params: copy_names(&f.params), body: f.body.copy(), env: f.env }),
            ),
            Ast::Builtin(name, p) => Ast::Builtin(name.clone(), *p),
            Ast::Nil => Ast::Nil,
            Ast::Atom(i) => Ast::Atom(*i),
        }
    }
}

} // verus!
