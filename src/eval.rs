//! The evaluator. Its meaning is `eval_spec`, a recursive big-step semantics
//! with a step budget (fuel); `eval` runs it with tail positions in a loop.
use vstd::prelude::*;
use crate::ast::{Ast, Prim, UserFunction, Val, names_of, vals_of, lemma_vals_of};
use crate::errors::{EvalErr, ReplError, outcome};
use crate::parser::{ParseErr, ParserError, read_form, read_spec};
use crate::root_env::{
    Environment, FrameV, Heap, HeapV, arity, call_prim, get_root, heap_bind, heap_push_frame,
    lookup, lookup_spec, mismatch, not_an_atom, prim_spec, root_of, set_binding, text,
};
use crate::text::same_text;

verus! {

/// The special forms.
#[derive(Clone, Copy, Debug, PartialEq, Eq, Structural)]
pub enum Form {
    Def,
    Let,
    Letrec,
    Do,
    If,
    Fun,
    Eval,
}

pub open spec fn form_of(s: Seq<char>) -> Option<Form> {
    if s == "def!"@ {
        Some(Form::Def)
    } else if s == "let*"@ {
        Some(Form::Let)
    } else if s == "letrec"@ {
        Some(Form::Letrec)
    } else if s == "do"@ {
        Some(Form::Do)
    } else if s == "if"@ {
        Some(Form::If)
    } else if s == "fun*"@ {
        Some(Form::Fun)
    } else if s == "eval"@ {
        Some(Form::Eval)
    } else {
        None
    }
}

/// What one reduction of a list yields: a final value, or an expression to
/// evaluate next in the given frame (a tail position).
pub enum Step {
    Done(Val),
    Tail(Val, usize),
}

pub enum EvalBehaviour {
    ReturnImmediately(Ast),
    LoopWithAstAndEnv(Ast, usize),
}

impl View for EvalBehaviour {
    type V = Step;

    open spec fn view(&self) -> Step {
        match self {
            EvalBehaviour::ReturnImmediately(a) => Step::Done(a@),
            EvalBehaviour::LoopWithAstAndEnv(a, e) => Step::Tail(a@, *e),
        }
    }
}

pub open spec fn step_outcome(r: Result<EvalBehaviour, ReplError>) -> Result<Step, EvalErr> {
    match r {
        Ok(b) => Ok(b@),
        Err(e) => Err(e@),
    }
}

pub open spec fn seq_outcome(r: Result<Vec<Ast>, ReplError>) -> Result<Seq<Val>, EvalErr> {
    match r {
        Ok(v) => Ok(vals_of(v@)),
        Err(e) => Err(e@),
    }
}

/// Bindings of the first `n` parameters to the first `n` arguments, in order.
pub open spec fn bind_pairs(ps: Seq<Seq<char>>, args: Seq<Val>, n: nat) -> Seq<(Seq<char>, Val)>
    decreases n,
{
    if n == 0 || n > ps.len() || n > args.len() {
        Seq::empty()
    } else {
        set_binding(bind_pairs(ps, args, (n - 1) as nat), ps[n - 1], args[n - 1])
    }
}

/// The frame of a closure call: parameters bound positionally, surplus
/// arguments dropped, missing ones left unbound.
pub open spec fn bind_fn_spec(ps: Seq<Seq<char>>, args: Seq<Val>, parent: usize) -> FrameV {
    let n = if ps.len() < args.len() {
        ps.len()
    } else {
        args.len()
    };
    FrameV { bindings: bind_pairs(ps, args, n), parent: Some(parent) }
}

/// The names of a parameter list, if every item is a symbol.
pub open spec fn symbol_names(ps: Seq<Val>) -> Option<Seq<Seq<char>>> {
    if forall|i: int| 0 <= i < ps.len() ==> (#[trigger] ps[i]) is Symbol {
        Some(ps.map_values(|v: Val| v->Symbol_0))
    } else {
        None
    }
}

pub open spec fn expected_symbol() -> EvalErr {
    EvalErr::Parse(ParseErr::ExpectedSymbol)
}

/// Evaluates `e` in frame `env`; the result and the heap after.
pub open spec fn eval_spec(e: Val, env: usize, h: HeapV, fuel: nat) -> (Result<Val, EvalErr>, HeapV)
    decreases fuel, 0int, 0int,
{
    if fuel == 0 {
        (Err(EvalErr::OutOfFuel), h)
    } else {
        let f = (fuel - 1) as nat;
        match e {
            Val::List(xs) => match list_spec(xs, env, h, f) {
                (Ok(Step::Done(v)), h1) => (Ok(v), h1),
                (Ok(Step::Tail(e2, env2)), h1) => eval_spec(e2, env2, h1, f),
                (Err(x), h1) => (Err(x), h1),
            },
            Val::Symbol(s) => (lookup_spec(h, env, s), h),
            _ => (Ok(e), h),
        }
    }
}

/// One reduction of a list: a special form, or a call.
pub open spec fn list_spec(xs: Seq<Val>, env: usize, h: HeapV, f: nat) -> (Result<Step, EvalErr>, HeapV)
    decreases f, 4int, 0int,
{
    if xs.len() == 0 {
        (Err(EvalErr::EmptyCall), h)
    } else {
        match xs[0] {
            Val::Symbol(s) => match form_of(s) {
                Some(Form::Def) => def_spec(xs, env, h, f),
                Some(Form::Let) => let_spec(xs, env, h, f),
                Some(Form::Letrec) => let_spec(xs, env, h, f),
                Some(Form::Do) => do_spec(xs, env, h, f),
                Some(Form::If) => if_spec(xs, env, h, f),
                Some(Form::Fun) => (fun_spec(xs, env), h),
                Some(Form::Eval) => evalform_spec(xs, env, h, f),
                None => call_spec(xs, env, h, f),
            },
            _ => call_spec(xs, env, h, f),
        }
    }
}

pub open spec fn malformed(xs: Seq<Val>) -> EvalErr {
    EvalErr::MalformedForm(xs[0]->Symbol_0)
}

/// `(def! name expr)`: binds in the current frame and returns the value.
pub open spec fn def_spec(xs: Seq<Val>, env: usize, h: HeapV, f: nat) -> (Result<Step, EvalErr>, HeapV)
    decreases f, 3int, 0int,
{
    if xs.len() != 3 {
        (Err(malformed(xs)), h)
    } else {
        match xs[1] {
            Val::Symbol(name) => match eval_spec(xs[2], env, h, f) {
                (Ok(v), h1) => if env < h1.frames.len() {
                    (Ok(Step::Done(v)), heap_bind(h1, env, name, v))
                } else {
                    (Err(EvalErr::BadReference), h1)
                },
                (Err(x), h1) => (Err(x), h1),
            },
            _ => (Err(expected_symbol()), h),
        }
    }
}

/// `(let* (n1 v1 ...) body)` and `letrec`: one new frame, each value evaluated
/// in it in turn, then the body in tail position.
pub open spec fn let_spec(xs: Seq<Val>, env: usize, h: HeapV, f: nat) -> (Result<Step, EvalErr>, HeapV)
    decreases f, 3int, 0int,
{
    if xs.len() != 3 || !(xs[1] is List) {
        (Err(malformed(xs)), h)
    } else if env >= h.frames.len() {
        (Err(EvalErr::BadReference), h)
    } else {
        let n = h.frames.len() as usize;
        let h1 = heap_push_frame(h, FrameV { bindings: Seq::empty(), parent: Some(env) });
        match bind_seq(xs[1]->List_0, 0, n, h1, f) {
            (Ok(()), h2) => (Ok(Step::Tail(xs[2], n)), h2),
            (Err(x), h2) => (Err(x), h2),
        }
    }
}

/// Binds the pairs of `bs` from item `i` on, in frame `fr`; a trailing name is
/// checked and left unbound.
pub open spec fn bind_seq(bs: Seq<Val>, i: int, fr: usize, h: HeapV, f: nat) -> (Result<(), EvalErr>, HeapV)
    decreases f, 2int, bs.len() - i,
{
    if i < 0 || i >= bs.len() {
        (Ok(()), h)
    } else {
        match bs[i] {
            Val::Symbol(k) => if i + 1 >= bs.len() {
                (Ok(()), h)
            } else {
                match eval_spec(bs[i + 1], fr, h, f) {
                    (Ok(v), h1) => if fr < h1.frames.len() {
                        bind_seq(bs, i + 2, fr, heap_bind(h1, fr, k, v), f)
                    } else {
                        (Err(EvalErr::BadReference), h1)
                    },
                    (Err(x), h1) => (Err(x), h1),
                }
            },
            _ => (Err(expected_symbol()), h),
        }
    }
}

/// Evaluates `xs[i..end]` in order, appending the values to `acc`.
pub open spec fn eval_seq(xs: Seq<Val>, i: int, end: int, acc: Seq<Val>, env: usize, h: HeapV, f: nat) -> (
    Result<Seq<Val>, EvalErr>,
    HeapV,
)
    decreases f, 2int, end - i,
{
    if i < 0 || i >= end || end > xs.len() {
        (Ok(acc), h)
    } else {
        match eval_spec(xs[i], env, h, f) {
            (Ok(v), h1) => eval_seq(xs, i + 1, end, acc.push(v), env, h1, f),
            (Err(x), h1) => (Err(x), h1),
        }
    }
}

/// `(do e1 ... en)`: all but the last for effect, the last in tail position.
pub open spec fn do_spec(xs: Seq<Val>, env: usize, h: HeapV, f: nat) -> (Result<Step, EvalErr>, HeapV)
    decreases f, 3int, 0int,
{
    if xs.len() <= 1 {
        (Ok(Step::Done(Val::Nil)), h)
    } else {
        match eval_seq(xs, 1, xs.len() - 1, Seq::empty(), env, h, f) {
            (Ok(_), h1) => (Ok(Step::Tail(xs.last(), env)), h1),
            (Err(x), h1) => (Err(x), h1),
        }
    }
}

/// `(if c t e)`: only `false` is false.
pub open spec fn if_spec(xs: Seq<Val>, env: usize, h: HeapV, f: nat) -> (Result<Step, EvalErr>, HeapV)
    decreases f, 3int, 0int,
{
    if xs.len() != 4 {
        (Err(malformed(xs)), h)
    } else {
        match eval_spec(xs[1], env, h, f) {
            (Ok(c), h1) => (Ok(Step::Tail(if c == Val::Boolean(false) { xs[3] } else { xs[2] }, env)), h1),
            (Err(x), h1) => (Err(x), h1),
        }
    }
}

/// `(fun* (p1 ...) body)`: a closure over the current frame.
pub open spec fn fun_spec(xs: Seq<Val>, env: usize) -> Result<Step, EvalErr> {
    if xs.len() != 3 || !(xs[1] is List) {
        Err(malformed(xs))
    } else {
        match symbol_names(xs[1]->List_0) {
            Some(ns) => Ok(Step::Done(Val::Closure(ns, Box::new(xs[2]), env))),
            None => Err(expected_symbol()),
        }
    }
}

/// `(eval e)`: the value of `e`, evaluated again in the root frame.
pub open spec fn evalform_spec(xs: Seq<Val>, env: usize, h: HeapV, f: nat) -> (Result<Step, EvalErr>, HeapV)
    decreases f, 3int, 0int,
{
    if xs.len() != 2 {
        (Err(malformed(xs)), h)
    } else {
        match eval_spec(xs[1], env, h, f) {
            (Ok(v), h1) => (Ok(Step::Tail(v, root_of(h1, env))), h1),
            (Err(x), h1) => (Err(x), h1),
        }
    }
}

/// A call: the head, then the arguments left to right, then the application.
pub open spec fn call_spec(xs: Seq<Val>, env: usize, h: HeapV, f: nat) -> (Result<Step, EvalErr>, HeapV)
    decreases f, 3int, 0int,
{
    match eval_spec(xs[0], env, h, f) {
        (Ok(fv), h1) => match eval_seq(xs, 1, xs.len() as int, Seq::empty(), env, h1, f) {
            (Ok(args), h2) => apply_spec(fv, args, h2, f),
            (Err(x), h2) => (Err(x), h2),
        },
        (Err(x), h1) => (Err(x), h1),
    }
}

/// Applies a closure (its body in a new frame, in tail position) or a builtin.
pub open spec fn apply_spec(fv: Val, args: Seq<Val>, h: HeapV, f: nat) -> (Result<Step, EvalErr>, HeapV)
    decreases f, 2int, 0int,
{
    match fv {
        Val::Closure(ps, body, cenv) => if cenv < h.frames.len() {
            (Ok(Step::Tail(*body, h.frames.len() as usize)), heap_push_frame(h, bind_fn_spec(ps, args, cenv)))
        } else {
            (Err(EvalErr::BadReference), h)
        },
        Val::Builtin(name, p) => {
            let (r, h1) = if p is Swap {
                swap_spec(name, args, h, f)
            } else {
                prim_spec(p, name, args, h)
            };
            match r {
                Ok(v) => (Ok(Step::Done(v)), h1),
                Err(x) => (Err(x), h1),
            }
        },
        _ => (Err(EvalErr::NotCallable(fv)), h),
    }
}

/// `(swap! atom f)`: applies `f` to the contents, in a nested evaluation, and
/// stores the result; returns the atom.
pub open spec fn swap_spec(name: Seq<char>, args: Seq<Val>, h: HeapV, f: nat) -> (Result<Val, EvalErr>, HeapV)
    decreases f, 1int, 0int,
{
    if args.len() != 2 {
        (Err(arity(name, 2, args)), h)
    } else {
        match args[1] {
            Val::Closure(ps, body, cenv) => match args[0] {
                Val::Atom(i) => if i < h.atoms.len() && cenv < h.frames.len() {
                    let n = h.frames.len() as usize;
                    let h1 = heap_push_frame(h, bind_fn_spec(ps, seq![h.atoms[i as int]], cenv));
                    match eval_spec(*body, n, h1, f) {
                        (Ok(v), h2) => if i < h2.atoms.len() {
                            (Ok(Val::Atom(i)), HeapV { atoms: h2.atoms.update(i as int, v), ..h2 })
                        } else {
                            (Err(EvalErr::BadReference), h2)
                        },
                        (Err(x), h2) => (Err(x), h2),
                    }
                } else {
                    (Err(EvalErr::BadReference), h)
                },
                _ => (Err(mismatch(name, 1, "Atom"@, args[0])), h),
            },
            _ => (Err(mismatch(name, 2, "Function"@, args[1])), h),
        }
    }
}

fn form_of_exec(s: &String) -> (r: Option<Form>)
    ensures
        r == form_of(s@),
{
    let t = s.as_str();
    if same_text(t, "def!") {
        Some(Form::Def)
    } else if same_text(t, "let*") {
        Some(Form::Let)
    } else if same_text(t, "letrec") {
        Some(Form::Letrec)
    } else if same_text(t, "do") {
        Some(Form::Do)
    } else if same_text(t, "if") {
        Some(Form::If)
    } else if same_text(t, "fun*") {
        Some(Form::Fun)
    } else if same_text(t, "eval") {
        Some(Form::Eval)
    } else {
        None
    }
}

fn get_symbol_name(ast: &Ast) -> (r: Result<String, ReplError>)
    ensures
        match ast@ {
            Val::Symbol(s) => r is Ok && r->Ok_0@ == s,
            _ => r is Err && r->Err_0@ == expected_symbol(),
        },
{
    match ast {
        Ast::Symbol(s) => Ok(s.clone()),
        _ => Err(ReplError::ParserError(ParserError::ExpectedSymbol)),
    }
}

fn get_symbol_list(xs: &Vec<Ast>) -> (r: Result<Vec<String>, ReplError>)
    ensures
        match symbol_names(vals_of(xs@)) {
            Some(ns) => r is Ok && names_of(r->Ok_0@) == ns,
            None => r is Err && r->Err_0@ == expected_symbol(),
        },
{
    proof {
        lemma_vals_of(xs@);
    }
    let ghost vs = vals_of(xs@);
    let mut result: Vec<String> = Vec::new();
    let mut i: usize = 0;
    while i < xs.len()
        invariant
            i <= xs.len(),
            vs == vals_of(xs@),
            vs.len() == xs@.len(),
            forall|j: int| 0 <= j < xs@.len() ==> #[trigger] vs[j] == xs@[j]@,
            forall|j: int| 0 <= j < i ==> (#[trigger] vs[j]) is Symbol,
            names_of(result@) =~= vs.subrange(0, i as int).map_values(|v: Val| v->Symbol_0),
        decreases xs.len() - i,
    {
        match get_symbol_name(&xs[i]) {
            Ok(s) => {
                let ghost before = result@;
                assert(s@ == vs[i as int]->Symbol_0);
                result.push(s);
                assert(names_of(result@) =~= names_of(before).push(vs[i as int]->Symbol_0));
                assert(vs.subrange(0, i + 1).map_values(|v: Val| v->Symbol_0) =~= vs.subrange(
                    0,
                    i as int,
                ).map_values(|v: Val| v->Symbol_0).push(vs[i as int]->Symbol_0));
            },
            Err(e) => {
                assert(!(vs[i as int] is Symbol));
                return Err(e);
            },
        }
        i = i + 1;
    }
    assert(vs.subrange(0, i as int) =~= vs);
    Ok(result)
}

/// The frame for a call of a closure with parameters `params` whose captured
/// frame is `env`.
pub fn bind_fn(params: &Vec<String>, args: Vec<Ast>, env: usize) -> (r: Environment)
    ensures
        r@ == bind_fn_spec(names_of(params@), vals_of(args@), env),
        r@.keys_unique(),
{
    proof {
        lemma_vals_of(args@);
    }
    let ghost ps = names_of(params@);
    let ghost vs = vals_of(args@);
    let n = if params.len() < args.len() {
        params.len()
    } else {
        args.len()
    };
    let mut frame = Environment { values: Vec::new(), parent: Some(env) };
    assert(frame@.bindings =~= Seq::<(Seq<char>, Val)>::empty());
    let mut i: usize = 0;
    while i < n
        invariant
            i <= n <= params.len(),
            n <= args.len(),
            ps == names_of(params@),
            vs == vals_of(args@),
            vs.len() == args@.len(),
            forall|j: int| 0 <= j < args@.len() ==> #[trigger] vs[j] == args@[j]@,
            frame@.bindings == bind_pairs(ps, vs, i as nat),
            frame@.parent == Some(env),
            frame@.keys_unique(),
        decreases n - i,
    {
        frame.insert(params[i].clone(), args[i].copy());
        i = i + 1;
    }
    frame
}

fn eval_form_fun(xs: &Vec<Ast>, env: usize) -> (r: Result<Ast, ReplError>)
    requires
        xs@.len() > 0,
        xs@[0]@ is Symbol,
    ensures
        match fun_spec(vals_of(xs@), env) {
            Ok(Step::Done(v)) => r is Ok && r->Ok_0@ == v,
            Ok(Step::Tail(..)) => false,
            Err(e) => r is Err && r->Err_0@ == e,
        },
{
    proof {
        lemma_vals_of(xs@);
    }
    if xs.len() != 3 {
        return Err(malformed_form(xs));
    }
    let ps = match &xs[1] {
        Ast::List(ps) => ps,
        _ => return Err(malformed_form(xs)),
    };
    let params = match get_symbol_list(ps) {
        Ok(p) => p,
        Err(e) => return Err(e),
    };
    Ok(Ast::Function(Box::new(UserFunction { params, body: xs[2].copy(), env })))
}

fn malformed_form(xs: &Vec<Ast>) -> (r: ReplError)
    requires
        xs@.len() > 0,
        xs@[0]@ is Symbol,
    ensures
        r@ == malformed(vals_of(xs@)),
{
    proof {
        lemma_vals_of(xs@);
    }
    match &xs[0] {
        Ast::Symbol(s) => ReplError::MalformedForm(s.clone()),
        _ => ReplError::BadReference,
    }
}

pub open spec fn unit_outcome(r: Result<(), ReplError>) -> Result<(), EvalErr> {
    match r {
        Ok(_) => Ok(()),
        Err(e) => Err(e@),
    }
}

/// Evaluates `ast` in frame `env` with at most `fuel` reductions in a row.
pub fn eval(ast: Ast, env: usize, heap: &mut Heap, fuel: u64) -> (r: Result<Ast, ReplError>)
    ensures
        (outcome(r), final(heap)@) == eval_spec(ast@, env, old(heap)@, fuel as nat),
        old(heap)@.wf() ==> final(heap)@.wf(),
    decreases fuel, 0int, 0int,
{
    let ghost goal = eval_spec(ast@, env, heap@, fuel as nat);
    let mut e = ast;
    let mut cur = env;
    let mut f: u64 = fuel;
    loop
        invariant
            f <= fuel,
            goal == eval_spec(ast@, env, old(heap)@, fuel as nat),
            old(heap)@.wf() ==> heap@.wf(),
            eval_spec(e@, cur, heap@, f as nat) == goal,
        decreases f,
    {
        if f == 0 {
            return Err(ReplError::OutOfFuel);
        }
        f = f - 1;
        match e {
            Ast::List(xs) => {
                match eval_list(&xs, cur, heap, f) {
                    Ok(EvalBehaviour::ReturnImmediately(v)) => return Ok(v),
                    Ok(EvalBehaviour::LoopWithAstAndEnv(n_ast, n_env)) => {
                        e = n_ast;
                        cur = n_env;
                    },
                    Err(x) => return Err(x),
                }
            },
            Ast::Symbol(s) => return eval_symbol(s, cur, heap),
            other => return Ok(other),
        }
    }
}

fn eval_symbol(s: String, env: usize, heap: &Heap) -> (r: Result<Ast, ReplError>)
    ensures
        outcome(r) == lookup_spec(heap@, env, s@),
{
    lookup(s, env, heap)
}

fn eval_list(xs: &Vec<Ast>, env: usize, heap: &mut Heap, f: u64) -> (r: Result<EvalBehaviour, ReplError>)
    ensures
        (step_outcome(r), final(heap)@) == list_spec(vals_of(xs@), env, old(heap)@, f as nat),
        old(heap)@.wf() ==> final(heap)@.wf(),
    decreases f, 4int, 0int,
{
    proof {
        lemma_vals_of(xs@);
    }
    if xs.len() == 0 {
        return Err(ReplError::EmptyCall);
    }
    match &xs[0] {
        Ast::Symbol(s) => match form_of_exec(s) {
            Some(Form::Def) => eval_form_def(xs, env, heap, f),
            Some(Form::Let) => do_form_let(xs, env, heap, f),
            Some(Form::Letrec) => do_form_let(xs, env, heap, f),
            Some(Form::Do) => do_form_do(xs, env, heap, f),
            Some(Form::If) => do_form_if(xs, env, heap, f),
            Some(Form::Fun) => match eval_form_fun(xs, env) {
                Ok(v) => Ok(EvalBehaviour::ReturnImmediately(v)),
                Err(e) => Err(e),
            },
            Some(Form::Eval) => do_form_eval(xs, env, heap, f),
            None => eval_func_call(xs, env, heap, f),
        },
        _ => eval_func_call(xs, env, heap, f),
    }
}

fn eval_form_def(xs: &Vec<Ast>, env: usize, heap: &mut Heap, f: u64) -> (r: Result<EvalBehaviour, ReplError>)
    requires
        xs@.len() > 0,
        xs@[0]@ is Symbol,
    ensures
        (step_outcome(r), final(heap)@) == def_spec(vals_of(xs@), env, old(heap)@, f as nat),
        old(heap)@.wf() ==> final(heap)@.wf(),
    decreases f, 3int, 0int,
{
    proof {
        lemma_vals_of(xs@);
    }
    if xs.len() != 3 {
        return Err(malformed_form(xs));
    }
    let name = match get_symbol_name(&xs[1]) {
        Ok(n) => n,
        Err(e) => return Err(e),
    };
    let v = match eval(xs[2].copy(), env, heap, f) {
        Ok(v) => v,
        Err(e) => return Err(e),
    };
    if env >= heap.frames.len() {
        return Err(ReplError::BadReference);
    }
    heap.bind(env, name, v.copy());
    Ok(EvalBehaviour::ReturnImmediately(v))
}

fn do_form_let(xs: &Vec<Ast>, env: usize, heap: &mut Heap, f: u64) -> (r: Result<EvalBehaviour, ReplError>)
    requires
        xs@.len() > 0,
        xs@[0]@ is Symbol,
    ensures
        (step_outcome(r), final(heap)@) == let_spec(vals_of(xs@), env, old(heap)@, f as nat),
        old(heap)@.wf() ==> final(heap)@.wf(),
    decreases f, 3int, 0int,
{
    proof {
        lemma_vals_of(xs@);
    }
    if xs.len() != 3 {
        return Err(malformed_form(xs));
    }
    let bs = match &xs[1] {
        Ast::List(bs) => bs,
        _ => return Err(malformed_form(xs)),
    };
    if env >= heap.frames.len() {
        return Err(ReplError::BadReference);
    }
    let frame = Environment { values: Vec::new(), parent: Some(env) };
    assert(frame@.bindings =~= Seq::<(Seq<char>, Val)>::empty());
    assert(frame@ == (FrameV { bindings: Seq::empty(), parent: Some(env) }));
    let n = heap.push_frame(frame);
    match bind_let(bs, n, heap, f) {
        Ok(()) => Ok(EvalBehaviour::LoopWithAstAndEnv(xs[2].copy(), n)),
        Err(e) => Err(e),
    }
}

fn bind_let(bs: &Vec<Ast>, fr: usize, heap: &mut Heap, f: u64) -> (r: Result<(), ReplError>)
    ensures
        (unit_outcome(r), final(heap)@) == bind_seq(vals_of(bs@), 0, fr, old(heap)@, f as nat),
        old(heap)@.wf() ==> final(heap)@.wf(),
    decreases f, 2int, 0int,
{
    proof {
        lemma_vals_of(bs@);
    }
    let ghost vs = vals_of(bs@);
    let ghost goal = bind_seq(vs, 0, fr, heap@, f as nat);
    let mut i: usize = 0;
    while i < bs.len()
        invariant
            vs == vals_of(bs@),
            vs.len() == bs@.len(),
            forall|j: int| 0 <= j < bs@.len() ==> #[trigger] vs[j] == bs@[j]@,
            goal == bind_seq(vs, 0, fr, old(heap)@, f as nat),
            old(heap)@.wf() ==> heap@.wf(),
            bind_seq(vs, i as int, fr, heap@, f as nat) == goal,
        decreases bs.len() - i,
    {
        let name = match get_symbol_name(&bs[i]) {
            Ok(n) => n,
            Err(e) => return Err(e),
        };
        if i + 1 >= bs.len() {
            return Ok(());
        }
        let v = match eval(bs[i + 1].copy(), fr, heap, f) {
            Ok(v) => v,
            Err(e) => return Err(e),
        };
        if fr >= heap.frames.len() {
            return Err(ReplError::BadReference);
        }
        heap.bind(fr, name, v);
        i = i + 2;
    }
    Ok(())
}

fn eval_all(xs: &Vec<Ast>, lo: usize, hi: usize, env: usize, heap: &mut Heap, f: u64) -> (r: Result<
    Vec<Ast>,
    ReplError,
>)
    requires
        lo <= hi <= xs@.len(),
    ensures
        (seq_outcome(r), final(heap)@) == eval_seq(vals_of(xs@), lo as int, hi as int, Seq::empty(), env, old(heap)@, f as nat),
        old(heap)@.wf() ==> final(heap)@.wf(),
    decreases f, 2int, 0int,
{
    proof {
        lemma_vals_of(xs@);
    }
    let ghost vs = vals_of(xs@);
    let ghost goal = eval_seq(vs, lo as int, hi as int, Seq::empty(), env, heap@, f as nat);
    let mut values: Vec<Ast> = Vec::new();
    assert(vals_of(values@) =~= Seq::<Val>::empty());
    let mut i: usize = lo;
    while i < hi
        invariant
            lo <= i <= hi <= xs@.len(),
            vs == vals_of(xs@),
            vs.len() == xs@.len(),
            forall|j: int| 0 <= j < xs@.len() ==> #[trigger] vs[j] == xs@[j]@,
            goal == eval_seq(vs, lo as int, hi as int, Seq::empty(), env, old(heap)@, f as nat),
            old(heap)@.wf() ==> heap@.wf(),
            eval_seq(vs, i as int, hi as int, vals_of(values@), env, heap@, f as nat) == goal,
        decreases hi - i,
    {
        let v = match eval(xs[i].copy(), env, heap, f) {
            Ok(v) => v,
            Err(e) => return Err(e),
        };
        let ghost before = values@;
        values.push(v);
        assert(values@.drop_last() =~= before);
        i = i + 1;
    }
    Ok(values)
}

fn do_form_do(xs: &Vec<Ast>, env: usize, heap: &mut Heap, f: u64) -> (r: Result<EvalBehaviour, ReplError>)
    ensures
        (step_outcome(r), final(heap)@) == do_spec(vals_of(xs@), env, old(heap)@, f as nat),
        old(heap)@.wf() ==> final(heap)@.wf(),
    decreases f, 3int, 0int,
{
    proof {
        lemma_vals_of(xs@);
    }
    if xs.len() <= 1 {
        return Ok(EvalBehaviour::ReturnImmediately(Ast::Nil));
    }
    let last = xs.len() - 1;
    match eval_all(xs, 1, last, env, heap, f) {
        Ok(_) => Ok(EvalBehaviour::LoopWithAstAndEnv(xs[last].copy(), env)),
        Err(e) => Err(e),
    }
}

fn do_form_if(xs: &Vec<Ast>, env: usize, heap: &mut Heap, f: u64) -> (r: Result<EvalBehaviour, ReplError>)
    requires
        xs@.len() > 0,
        xs@[0]@ is Symbol,
    ensures
        (step_outcome(r), final(heap)@) == if_spec(vals_of(xs@), env, old(heap)@, f as nat),
        old(heap)@.wf() ==> final(heap)@.wf(),
    decreases f, 3int, 0int,
{
    proof {
        lemma_vals_of(xs@);
    }
    if xs.len() != 4 {
        return Err(malformed_form(xs));
    }
    let condition = match eval(xs[1].copy(), env, heap, f) {
        Ok(c) => c,
        Err(e) => return Err(e),
    };
    let is_true = match condition {
        Ast::Boolean(b) => b,
        _ => true,
    };
    Ok(EvalBehaviour::LoopWithAstAndEnv(
        if is_true {
            xs[2].copy()
        } else {
            xs[3].copy()
        },
        env,
    ))
}

fn do_form_eval(xs: &Vec<Ast>, env: usize, heap: &mut Heap, f: u64) -> (r: Result<EvalBehaviour, ReplError>)
    requires
        xs@.len() > 0,
        xs@[0]@ is Symbol,
    ensures
        (step_outcome(r), final(heap)@) == evalform_spec(vals_of(xs@), env, old(heap)@, f as nat),
        old(heap)@.wf() ==> final(heap)@.wf(),
    decreases f, 3int, 0int,
{
    proof {
        lemma_vals_of(xs@);
    }
    if xs.len() != 2 {
        return Err(malformed_form(xs));
    }
    let v = match eval(xs[1].copy(), env, heap, f) {
        Ok(v) => v,
        Err(e) => return Err(e),
    };
    let root = get_root(env, heap);
    Ok(EvalBehaviour::LoopWithAstAndEnv(v, root))
}

fn eval_func_call(xs: &Vec<Ast>, env: usize, heap: &mut Heap, f: u64) -> (r: Result<EvalBehaviour, ReplError>)
    requires
        xs@.len() > 0,
    ensures
        (step_outcome(r), final(heap)@) == call_spec(vals_of(xs@), env, old(heap)@, f as nat),
        old(heap)@.wf() ==> final(heap)@.wf(),
    decreases f, 3int, 0int,
{
    proof {
        lemma_vals_of(xs@);
    }
    let fun = match eval(xs[0].copy(), env, heap, f) {
        Ok(v) => v,
        Err(e) => return Err(e),
    };
    let args = match eval_all(xs, 1, xs.len(), env, heap, f) {
        Ok(a) => a,
        Err(e) => return Err(e),
    };
    apply(fun, args, heap, f)
}

fn apply(fun: Ast, args: Vec<Ast>, heap: &mut Heap, f: u64) -> (r: Result<EvalBehaviour, ReplError>)
    ensures
        (step_outcome(r), final(heap)@) == apply_spec(fun@, vals_of(args@), old(heap)@, f as nat),
        old(heap)@.wf() ==> final(heap)@.wf(),
    decreases f, 2int, 0int,
{
    match fun {
        Ast::Function(uf) => {
            if uf.env >= heap.frames.len() {
                return Err(ReplError::BadReference);
            }
            let frame = bind_fn(&uf.params, args, uf.env);
            let n = heap.push_frame(frame);
            let UserFunction { params: _, body, env: _ } = *uf;
            Ok(EvalBehaviour::LoopWithAstAndEnv(body, n))
        },
        Ast::Builtin(name, p) => {
            let r = if let Prim::Swap = p {
                swap_m(&name, args, heap, f)
            } else {
                call_prim(p, &name, args, heap)
            };
            match r {
                Ok(v) => Ok(EvalBehaviour::ReturnImmediately(v)),
                Err(e) => Err(e),
            }
        },
        other => Err(ReplError::NotCallable(other)),
    }
}

fn swap_m(name: &String, args: Vec<Ast>, heap: &mut Heap, f: u64) -> (r: Result<Ast, ReplError>)
    ensures
        (outcome(r), final(heap)@) == swap_spec(name@, vals_of(args@), old(heap)@, f as nat),
        old(heap)@.wf() ==> final(heap)@.wf(),
    decreases f, 1int, 0int,
{
    proof {
        lemma_vals_of(args@);
        lemma_vals_of(heap.atoms@);
        reveal_strlit("Function");
    }
    if args.len() != 2 {
        return Err(ReplError::ArityMismatch(name.clone(), 2, args.len()));
    }
    let uf = match &args[1] {
        Ast::Function(uf) => uf,
        _ => return Err(
            ReplError::ParserError(
                ParserError::TypeMismatch(name.clone(), 2, text("Function"), args[1].copy()),
            ),
        ),
    };
    let i = match &args[0] {
        Ast::Atom(i) => *i,
        _ => return Err(not_an_atom(name, &args[0])),
    };
    if i >= heap.atoms.len() || uf.env >= heap.frames.len() {
        return Err(ReplError::BadReference);
    }
    let content = heap.atoms[i].copy();
    assert(content@ == heap@.atoms[i as int]);
    let mut one: Vec<Ast> = Vec::new();
    one.push(content);
    assert(one@.drop_last() =~= Seq::<Ast>::empty());
    assert(vals_of(Seq::<Ast>::empty()) =~= Seq::<Val>::empty());
    assert(vals_of(one@) =~= seq![heap@.atoms[i as int]]);
    let frame = bind_fn(&uf.params, one, uf.env);
    let n = heap.push_frame(frame);
    let v = match eval(uf.body.copy(), n, heap, f) {
        Ok(v) => v,
        Err(e) => return Err(e),
    };
    proof {
        lemma_vals_of(heap.atoms@);
    }
    if i >= heap.atoms.len() {
        return Err(ReplError::BadReference);
    }
    let ghost before = heap@;
    heap.atoms.set(i, v);
    proof {
        lemma_vals_of(heap.atoms@);
    }
    assert(heap@.atoms =~= before.atoms.update(i as int, v@));
    Ok(Ast::Atom(i))
}

/// What one line of input does: its first form, read and then evaluated in the root frame.
pub open spec fn rep_spec(line: Seq<char>, h: HeapV, fuel: nat) -> (Result<Val, EvalErr>, HeapV) {
    match read_spec(line) {
        Ok(v) => eval_spec(v, 0, h, fuel),
        Err(e) => (Err(EvalErr::Parse(e)), h),
    }
}

/// Reads the first form of `line` and evaluates it in the root frame.
pub fn rep(line: &str, heap: &mut Heap, fuel: u64) -> (r: Result<Ast, ReplError>)
    ensures
        (outcome(r), final(heap)@) == rep_spec(line@, old(heap)@, fuel as nat),
        old(heap)@.wf() ==> final(heap)@.wf(),
{
    match read_form(line) {
        Ok(ast) => eval(ast, 0, heap, fuel),
        Err(e) => Err(ReplError::ParserError(e)),
    }
}

// ---------------------------------------------------------------- fuel

/// The result did not stop for want of fuel.
pub open spec fn finished<T>(r: Result<T, EvalErr>) -> bool {
    !(r matches Err(EvalErr::OutOfFuel))
}

/// More fuel never changes a result that did not run out of fuel: the budget
/// bounds evaluation and changes nothing else.
pub proof fn lemma_eval_fuel(e: Val, env: usize, h: HeapV, f1: nat, f2: nat)
    requires
        f1 <= f2,
        finished(eval_spec(e, env, h, f1).0),
    ensures
        eval_spec(e, env, h, f2) == eval_spec(e, env, h, f1),
    decreases f1, 0int, 0int,
{
    if let Val::List(xs) = e {
        let g1 = (f1 - 1) as nat;
        let g2 = (f2 - 1) as nat;
        lemma_list_fuel(xs, env, h, g1, g2);
        if let (Ok(Step::Tail(e2, env2)), h1) = list_spec(xs, env, h, g1) {
            lemma_eval_fuel(e2, env2, h1, g1, g2);
        }
    }
}

proof fn lemma_list_fuel(xs: Seq<Val>, env: usize, h: HeapV, f1: nat, f2: nat)
    requires
        f1 <= f2,
        finished(list_spec(xs, env, h, f1).0),
    ensures
        list_spec(xs, env, h, f2) == list_spec(xs, env, h, f1),
    decreases f1, 4int, 0int,
{
    if xs.len() > 0 {
        match xs[0] {
            Val::Symbol(s) => match form_of(s) {
                Some(Form::Def) => lemma_def_fuel(xs, env, h, f1, f2),
                Some(Form::Let) => lemma_let_fuel(xs, env, h, f1, f2),
                Some(Form::Letrec) => lemma_let_fuel(xs, env, h, f1, f2),
                Some(Form::Do) => lemma_do_fuel(xs, env, h, f1, f2),
                Some(Form::If) => lemma_if_fuel(xs, env, h, f1, f2),
                Some(Form::Fun) => {},
                Some(Form::Eval) => lemma_evalform_fuel(xs, env, h, f1, f2),
                None => lemma_call_fuel(xs, env, h, f1, f2),
            },
            _ => lemma_call_fuel(xs, env, h, f1, f2),
        }
    }
}

proof fn lemma_def_fuel(xs: Seq<Val>, env: usize, h: HeapV, f1: nat, f2: nat)
    requires
        f1 <= f2,
        finished(def_spec(xs, env, h, f1).0),
    ensures
        def_spec(xs, env, h, f2) == def_spec(xs, env, h, f1),
    decreases f1, 3int, 0int,
{
    if xs.len() == 3 && xs[1] is Symbol {
        lemma_eval_fuel(xs[2], env, h, f1, f2);
    }
}

proof fn lemma_let_fuel(xs: Seq<Val>, env: usize, h: HeapV, f1: nat, f2: nat)
    requires
        f1 <= f2,
        finished(let_spec(xs, env, h, f1).0),
    ensures
        let_spec(xs, env, h, f2) == let_spec(xs, env, h, f1),
    decreases f1, 3int, 0int,
{
    if xs.len() == 3 && xs[1] is List && env < h.frames.len() {
        let n = h.frames.len() as usize;
        let h1 = heap_push_frame(h, FrameV { bindings: Seq::empty(), parent: Some(env) });
        lemma_bind_seq_fuel(xs[1]->List_0, 0, n, h1, f1, f2);
    }
}

proof fn lemma_bind_seq_fuel(bs: Seq<Val>, i: int, fr: usize, h: HeapV, f1: nat, f2: nat)
    requires
        f1 <= f2,
        finished(bind_seq(bs, i, fr, h, f1).0),
    ensures
        bind_seq(bs, i, fr, h, f2) == bind_seq(bs, i, fr, h, f1),
    decreases f1, 2int, bs.len() - i,
{
    if 0 <= i < bs.len() && bs[i] is Symbol && i + 1 < bs.len() {
        lemma_eval_fuel(bs[i + 1], fr, h, f1, f2);
        if let (Ok(v), h1) = eval_spec(bs[i + 1], fr, h, f1) {
            if fr < h1.frames.len() {
                lemma_bind_seq_fuel(bs, i + 2, fr, heap_bind(h1, fr, bs[i]->Symbol_0, v), f1, f2);
            }
        }
    }
}

proof fn lemma_eval_seq_fuel(
    xs: Seq<Val>,
    i: int,
    end: int,
    acc: Seq<Val>,
    env: usize,
    h: HeapV,
    f1: nat,
    f2: nat,
)
    requires
        f1 <= f2,
        finished(eval_seq(xs, i, end, acc, env, h, f1).0),
    ensures
        eval_seq(xs, i, end, acc, env, h, f2) == eval_seq(xs, i, end, acc, env, h, f1),
    decreases f1, 2int, end - i,
{
    if 0 <= i < end && end <= xs.len() {
        lemma_eval_fuel(xs[i], env, h, f1, f2);
        if let (Ok(v), h1) = eval_spec(xs[i], env, h, f1) {
            lemma_eval_seq_fuel(xs, i + 1, end, acc.push(v), env, h1, f1, f2);
        }
    }
}

proof fn lemma_do_fuel(xs: Seq<Val>, env: usize, h: HeapV, f1: nat, f2: nat)
    requires
        f1 <= f2,
        finished(do_spec(xs, env, h, f1).0),
    ensures
        do_spec(xs, env, h, f2) == do_spec(xs, env, h, f1),
    decreases f1, 3int, 0int,
{
    if xs.len() > 1 {
        lemma_eval_seq_fuel(xs, 1, xs.len() - 1, Seq::empty(), env, h, f1, f2);
    }
}

proof fn lemma_if_fuel(xs: Seq<Val>, env: usize, h: HeapV, f1: nat, f2: nat)
    requires
        f1 <= f2,
        finished(if_spec(xs, env, h, f1).0),
    ensures
        if_spec(xs, env, h, f2) == if_spec(xs, env, h, f1),
    decreases f1, 3int, 0int,
{
    if xs.len() == 4 {
        lemma_eval_fuel(xs[1], env, h, f1, f2);
    }
}

proof fn lemma_evalform_fuel(xs: Seq<Val>, env: usize, h: HeapV, f1: nat, f2: nat)
    requires
        f1 <= f2,
        finished(evalform_spec(xs, env, h, f1).0),
    ensures
        evalform_spec(xs, env, h, f2) == evalform_spec(xs, env, h, f1),
    decreases f1, 3int, 0int,
{
    if xs.len() == 2 {
        lemma_eval_fuel(xs[1], env, h, f1, f2);
    }
}

proof fn lemma_call_fuel(xs: Seq<Val>, env: usize, h: HeapV, f1: nat, f2: nat)
    requires
        f1 <= f2,
        xs.len() > 0,
        finished(call_spec(xs, env, h, f1).0),
    ensures
        call_spec(xs, env, h, f2) == call_spec(xs, env, h, f1),
    decreases f1, 3int, 0int,
{
    lemma_eval_fuel(xs[0], env, h, f1, f2);
    if let (Ok(fv), h1) = eval_spec(xs[0], env, h, f1) {
        lemma_eval_seq_fuel(xs, 1, xs.len() as int, Seq::empty(), env, h1, f1, f2);
        if let (Ok(args), h2) = eval_seq(xs, 1, xs.len() as int, Seq::empty(), env, h1, f1) {
            lemma_apply_fuel(fv, args, h2, f1, f2);
        }
    }
}

proof fn lemma_apply_fuel(fv: Val, args: Seq<Val>, h: HeapV, f1: nat, f2: nat)
    requires
        f1 <= f2,
        finished(apply_spec(fv, args, h, f1).0),
    ensures
        apply_spec(fv, args, h, f2) == apply_spec(fv, args, h, f1),
    decreases f1, 2int, 0int,
{
    if let Val::Builtin(name, p) = fv {
        if p is Swap {
            lemma_swap_fuel(name, args, h, f1, f2);
        }
    }
}

proof fn lemma_swap_fuel(name: Seq<char>, args: Seq<Val>, h: HeapV, f1: nat, f2: nat)
    requires
        f1 <= f2,
        finished(swap_spec(name, args, h, f1).0),
    ensures
        swap_spec(name, args, h, f2) == swap_spec(name, args, h, f1),
    decreases f1, 1int, 0int,
{
    if args.len() == 2 {
        if let Val::Closure(ps, body, cenv) = args[1] {
            if let Val::Atom(i) = args[0] {
                if i < h.atoms.len() && cenv < h.frames.len() {
                    let n = h.frames.len() as usize;
                    let h1 = heap_push_frame(h, bind_fn_spec(ps, seq![h.atoms[i as int]], cenv));
                    lemma_eval_fuel(*body, n, h1, f1, f2);
                }
            }
        }
    }
}

} // verus!
