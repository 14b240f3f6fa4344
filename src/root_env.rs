//! Environments and the heap that holds them, lookup, and the native
//! operations of the root environment.
use vstd::prelude::*;
use crate::ast::{Ast, Prim, Val, vals_of, lemma_vals_of};
use crate::errors::{EvalErr, ReplError, outcome};
use crate::parser::{ParseErr, ParserError, read_form, read_spec};
use crate::printer::{pr_str, show};

verus! {

/// One frame: its bindings, latest last, and the index of its parent frame.
#[derive(Debug)]
pub struct Environment {
    pub values: Vec<(String, Ast)>,
    pub parent: Option<usize>,
}

/// Everything that evaluation reads and changes besides the values it passes:
/// the frames, the atoms' contents, the files the host has read for `slurp`
/// (contents or the host's error), and the lines `prn` has printed.
#[derive(Debug)]
pub struct Heap {
    pub frames: Vec<Environment>,
    pub atoms: Vec<Ast>,
    pub files: Vec<(String, Result<String, String>)>,
    pub printed: Vec<String>,
}

/// The mathematical form of an `Environment`.
pub struct FrameV {
    pub bindings: Seq<(Seq<char>, Val)>,
    pub parent: Option<usize>,
}

/// The mathematical form of a `Heap`.
pub struct HeapV {
    pub frames: Seq<FrameV>,
    pub atoms: Seq<Val>,
    pub files: Seq<(Seq<char>, Result<Seq<char>, Seq<char>>)>,
    pub printed: Seq<Seq<char>>,
}

pub open spec fn bindings_view(bs: Seq<(String, Ast)>) -> Seq<(Seq<char>, Val)> {
    bs.map_values(|b: (String, Ast)| (b.0@, b.1@))
}

pub open spec fn file_view(f: (String, Result<String, String>)) -> (Seq<char>, Result<Seq<char>, Seq<char>>) {
    (f.0@, match f.1 {
        Ok(c) => Ok(c@),
        Err(m) => Err(m@),
    })
}

impl View for Environment {
    type V = FrameV;

    open spec fn view(&self) -> FrameV {
        FrameV { bindings: bindings_view(self.values@), parent: self.parent }
    }
}

impl View for Heap {
    type V = HeapV;

    open spec fn view(&self) -> HeapV {
        HeapV {
            frames: self.frames@.map_values(|e: Environment| e@),
            atoms: vals_of(self.atoms@),
            files: self.files@.map_values(|f: (String, Result<String, String>)| file_view(f)),
            printed: self.printed@.map_values(|s: String| s@),
        }
    }
}

impl FrameV {
    /// No name is bound twice in the frame.
    pub open spec fn keys_unique(self) -> bool {
        forall|i: int, j: int|
            0 <= i < j < self.bindings.len() ==> (#[trigger] self.bindings[i]).0 != (#[trigger] self.bindings[j]).0
    }
}

impl HeapV {
    /// Every frame's parent comes before it, so parent chains end, and no
    /// frame binds a name twice.
    pub open spec fn wf(self) -> bool {
        &&& forall|i: int|
            0 <= i < self.frames.len() && (#[trigger] self.frames[i]).parent is Some ==> self.frames[i].parent->0 < i
        &&& forall|i: int| 0 <= i < self.frames.len() ==> (#[trigger] self.frames[i]).keys_unique()
    }
}

pub proof fn lemma_last_key_none<V>(bs: Seq<(Seq<char>, V)>, k: Seq<char>)
    requires
        last_key(bs, k) is None,
    ensures
        forall|i: int| 0 <= i < bs.len() ==> (#[trigger] bs[i]).0 != k,
    decreases bs.len(),
{
    if bs.len() > 0 {
        lemma_last_key_none(bs.drop_last(), k);
        assert forall|i: int| 0 <= i < bs.len() implies (#[trigger] bs[i]).0 != k by {
            if i < bs.len() - 1 {
                assert(bs[i] == bs.drop_last()[i]);
            }
        }
    }
}

pub proof fn lemma_last_key_some<V>(bs: Seq<(Seq<char>, V)>, k: Seq<char>)
    requires
        last_key(bs, k) is Some,
    ensures
        0 <= last_key(bs, k)->0 < bs.len(),
        bs[last_key(bs, k)->0].0 == k,
    decreases bs.len(),
{
    if bs.last().0 != k {
        lemma_last_key_some(bs.drop_last(), k);
    }
}

/// Binding a name keeps the names of a frame distinct.
pub proof fn lemma_set_binding_unique(f: FrameV, k: Seq<char>, v: Val)
    requires
        f.keys_unique(),
    ensures
        (FrameV { bindings: set_binding(f.bindings, k, v), ..f }).keys_unique(),
{
    let bs = f.bindings;
    match last_key(bs, k) {
        Some(i) => {
            lemma_last_key_some(bs, k);
            let nb = bs.update(i, (k, v));
            assert forall|a: int, b: int| 0 <= a < b < nb.len() implies (#[trigger] nb[a]).0 != (#[trigger] nb[b]).0 by {
                assert(nb[a].0 == bs[a].0);
                assert(nb[b].0 == bs[b].0);
            }
        },
        None => {
            lemma_last_key_none(bs, k);
            let nb = bs.push((k, v));
            assert forall|a: int, b: int| 0 <= a < b < nb.len() implies (#[trigger] nb[a]).0 != (#[trigger] nb[b]).0 by {
                if b < bs.len() {
                    assert(nb[a] == bs[a] && nb[b] == bs[b]);
                } else {
                    assert(nb[a] == bs[a]);
                }
            }
        },
    }
}

pub proof fn lemma_bind_wf(h: HeapV, env: usize, k: Seq<char>, v: Val)
    requires
        h.wf(),
        env < h.frames.len(),
    ensures
        heap_bind(h, env, k, v).wf(),
{
    let h2 = heap_bind(h, env, k, v);
    lemma_set_binding_unique(h.frames[env as int], k, v);
    assert forall|i: int| 0 <= i < h2.frames.len() && (#[trigger] h2.frames[i]).parent is Some implies h2.frames[i].parent->0 < i by {
        assert(h2.frames[i].parent == h.frames[i].parent);
    }
    assert forall|i: int| 0 <= i < h2.frames.len() implies (#[trigger] h2.frames[i]).keys_unique() by {
        if i != env {
            assert(h2.frames[i] == h.frames[i]);
        }
    }
}

pub proof fn lemma_push_wf(h: HeapV, f: FrameV)
    requires
        h.wf(),
        f.keys_unique(),
        f.parent is Some ==> f.parent->0 < h.frames.len(),
    ensures
        heap_push_frame(h, f).wf(),
{
    let h2 = heap_push_frame(h, f);
    assert forall|i: int| 0 <= i < h2.frames.len() && (#[trigger] h2.frames[i]).parent is Some implies h2.frames[i].parent->0 < i by {
        if i < h.frames.len() {
            assert(h2.frames[i] == h.frames[i]);
        }
    }
    assert forall|i: int| 0 <= i < h2.frames.len() implies (#[trigger] h2.frames[i]).keys_unique() by {
        if i < h.frames.len() {
            assert(h2.frames[i] == h.frames[i]);
        }
    }
}

/// The index of the last entry under `k`.
pub open spec fn last_key<V>(bs: Seq<(Seq<char>, V)>, k: Seq<char>) -> Option<int>
    decreases bs.len(),
{
    if bs.len() == 0 {
        None
    } else if bs.last().0 == k {
        Some(bs.len() - 1)
    } else {
        last_key(bs.drop_last(), k)
    }
}

pub open spec fn get_binding(bs: Seq<(Seq<char>, Val)>, k: Seq<char>) -> Option<Val> {
    match last_key(bs, k) {
        Some(i) => Some(bs[i].1),
        None => None,
    }
}

/// Bindings with `k` bound to `v`, replacing the entry it had.
pub open spec fn set_binding(bs: Seq<(Seq<char>, Val)>, k: Seq<char>, v: Val) -> Seq<(Seq<char>, Val)> {
    match last_key(bs, k) {
        Some(i) => bs.update(i, (k, v)),
        None => bs.push((k, v)),
    }
}

/// The heap with `k` bound to `v` in frame `env`.
pub open spec fn heap_bind(h: HeapV, env: usize, k: Seq<char>, v: Val) -> HeapV {
    HeapV {
        frames: h.frames.update(
            env as int,
            FrameV { bindings: set_binding(h.frames[env as int].bindings, k, v), ..h.frames[env as int] },
        ),
        ..h
    }
}

pub open spec fn heap_push_frame(h: HeapV, f: FrameV) -> HeapV {
    HeapV { frames: h.frames.push(f), ..h }
}

/// What `k` is bound to, seen from frame `env`: the nearest frame outward that binds it.
pub open spec fn lookup_spec(h: HeapV, env: usize, k: Seq<char>) -> Result<Val, EvalErr>
    decreases env,
{
    if env >= h.frames.len() {
        Err(EvalErr::BadReference)
    } else {
        match get_binding(h.frames[env as int].bindings, k) {
            Some(v) => Ok(v),
            None => match h.frames[env as int].parent {
                None => Err(EvalErr::SymbolUndefined(k)),
                Some(p) => if p < env {
                    lookup_spec(h, p, k)
                } else {
                    Err(EvalErr::BadReference)
                },
            },
        }
    }
}

/// The outermost frame of the chain that starts at `env`.
pub open spec fn root_of(h: HeapV, env: usize) -> usize
    decreases env,
{
    if env < h.frames.len() {
        match h.frames[env as int].parent {
            Some(p) => if p < env {
                root_of(h, p)
            } else {
                env
            },
            None => env,
        }
    } else {
        env
    }
}

impl Environment {
    /// Index of the last binding of `k`.
    pub fn find(&self, k: &String) -> (r: Option<usize>)
        ensures
            r is Some <==> last_key(bindings_view(self.values@), k@) is Some,
            r is Some ==> last_key(bindings_view(self.values@), k@) == Some(r->0 as int),
            r is Some ==> r->0 < self.values@.len() && self.values@[r->0 as int].0@ == k@,
    {
        let ghost bs = bindings_view(self.values@);
        let mut i: usize = self.values.len();
        assert(bs.subrange(0, i as int) =~= bs);
        while i > 0
            invariant
                i <= self.values@.len(),
                bs == bindings_view(self.values@),
                last_key(bs, k@) == last_key(bs.subrange(0, i as int), k@),
            decreases i,
        {
            let ghost sub = bs.subrange(0, i as int);
            assert(sub.last() == bs[i - 1]);
            if self.values[i - 1].0 == *k {
                return Some(i - 1);
            }
            assert(sub.drop_last() =~= bs.subrange(0, i - 1));
            i = i - 1;
        }
        None
    }

    /// Binds `k` to `v` in this frame, replacing any binding it had here.
    pub fn insert(&mut self, k: String, v: Ast)
        ensures
            final(self)@ == (FrameV { bindings: set_binding(old(self)@.bindings, k@, v@), ..old(self)@ }),
            old(self)@.keys_unique() ==> final(self)@.keys_unique(),
    {
        proof {
            if self@.keys_unique() {
                lemma_set_binding_unique(self@, k@, v@);
            }
        }
        let ghost before = self.values@;
        let ghost bs = bindings_view(before);
        match self.find(&k) {
            Some(i) => {
                assert(set_binding(bs, k@, v@) == bs.update(i as int, (k@, v@)));
                self.values.set(i, (k, v));
                assert(bindings_view(self.values@) =~= bindings_view(before).update(
                    i as int,
                    (k@, v@),
                ));
            },
            None => {
                self.values.push((k, v));
                assert(bindings_view(self.values@) =~= bindings_view(before).push((k@, v@)));
            },
        }
    }
}

impl Heap {
    /// Binds `k` to `v` in frame `env`.
    pub fn bind(&mut self, env: usize, k: String, v: Ast)
        requires
            env < old(self).frames@.len(),
        ensures
            final(self)@ == heap_bind(old(self)@, env, k@, v@),
            old(self)@.wf() ==> final(self)@.wf(),
    {
        proof {
            if self@.wf() {
                lemma_bind_wf(self@, env, k@, v@);
            }
        }
        let ghost before = self@;
        self.frames[env].insert(k, v);
        assert(self@.frames =~= heap_bind(before, env, k@, v@).frames);
    }

    /// Adds a frame; its index is returned.
    pub fn push_frame(&mut self, f: Environment) -> (r: usize)
        ensures
            final(self)@ == heap_push_frame(old(self)@, f@),
            r == old(self)@.frames.len(),
            old(self)@.wf() && f@.keys_unique() && (f@.parent is Some ==> f@.parent->0 < old(
                self,
            )@.frames.len()) ==> final(self)@.wf(),
    {
        proof {
            if self@.wf() && f@.keys_unique() && (f@.parent is Some ==> f@.parent->0 < self@.frames.len()) {
                lemma_push_wf(self@, f@);
            }
        }
        let ghost before = self@;
        let r = self.frames.len();
        self.frames.push(f);
        assert(self@.frames =~= before.frames.push(f@));
        r
    }
}

/// The value bound to `symbol`, seen from frame `env`.
pub fn lookup(symbol: String, env: usize, heap: &Heap) -> (r: Result<Ast, ReplError>)
    ensures
        outcome(r) == lookup_spec(heap@, env, symbol@),
{
    let mut cur = env;
    while cur < heap.frames.len()
        invariant
            lookup_spec(heap@, cur, symbol@) == lookup_spec(heap@, env, symbol@),
        decreases cur,
    {
        let frame = &heap.frames[cur];
        assert(heap@.frames[cur as int] == frame@);
        match frame.find(&symbol) {
            Some(i) => {
                assert(bindings_view(frame.values@)[i as int].1 == frame.values@[i as int].1@);
                return Ok(frame.values[i].1.copy());
            },
            None => {},
        }
        match frame.parent {
            None => return Err(ReplError::SymbolUndefined(symbol)),
            Some(p) => {
                if p >= cur {
                    return Err(ReplError::BadReference);
                }
                cur = p;
            },
        }
    }
    Err(ReplError::BadReference)
}

/// The outermost frame of the chain that starts at `env`.
pub fn get_root(env: usize, heap: &Heap) -> (r: usize)
    ensures
        r == root_of(heap@, env),
{
    let mut cur = env;
    loop
        invariant
            root_of(heap@, cur) == root_of(heap@, env),
        decreases cur,
    {
        if cur >= heap.frames.len() {
            return cur;
        }
        assert(heap@.frames[cur as int] == heap.frames@[cur as int]@);
        match heap.frames[cur].parent {
            Some(p) => {
                if p >= cur {
                    return cur;
                }
                cur = p;
            },
            None => return cur,
        }
    }
}

// ---------------------------------------------------------------- builtins

pub open spec fn mismatch(name: Seq<char>, pos: usize, ty: Seq<char>, v: Val) -> EvalErr {
    EvalErr::Parse(ParseErr::TypeMismatch(name, pos, ty, v))
}

pub open spec fn arity(name: Seq<char>, n: usize, args: Seq<Val>) -> EvalErr {
    EvalErr::ArityMismatch(name, n, args.len() as usize)
}

pub open spec fn abs(a: int) -> int {
    if a < 0 {
        -a
    } else {
        a
    }
}

/// Division rounding toward zero.
pub open spec fn trunc_div(a: int, b: int) -> int {
    let q = abs(a) / abs(b);
    if (a < 0) != (b < 0) {
        -q
    } else {
        q
    }
}

/// The two integer arguments of an arithmetic builtin; the second is checked first.
pub open spec fn int_pair(name: Seq<char>, args: Seq<Val>) -> Result<(i64, i64), EvalErr> {
    if args.len() != 2 {
        Err(arity(name, 2, args))
    } else if !(args[1] is Integer) {
        Err(mismatch(name, 2, "Integer"@, args[1]))
    } else if !(args[0] is Integer) {
        Err(mismatch(name, 1, "Integer"@, args[0]))
    } else {
        Ok((args[0]->Integer_0, args[1]->Integer_0))
    }
}

pub open spec fn checked(name: Seq<char>, r: int) -> Result<Val, EvalErr> {
    if i64::MIN <= r <= i64::MAX {
        Ok(Val::Integer(r as i64))
    } else {
        Err(EvalErr::IntegerOverflow(name))
    }
}

pub open spec fn arith_spec(p: Prim, name: Seq<char>, args: Seq<Val>) -> Result<Val, EvalErr> {
    match int_pair(name, args) {
        Err(e) => Err(e),
        Ok((a, b)) => match p {
            Prim::Add => checked(name, a + b),
            Prim::Sub => checked(name, a - b),
            Prim::Mult => checked(name, a * b),
            _ => if b == 0 {
                Err(EvalErr::DivisionByZero(name))
            } else {
                checked(name, trunc_div(a as int, b as int))
            },
        },
    }
}

/// Structural equality: scalars by value, lists item by item, atoms by identity;
/// closures and builtins are equal to nothing.
pub open spec fn vals_equal(a: Val, b: Val) -> bool
    decreases a,
{
    match a {
        Val::Integer(x) => b matches Val::Integer(y) && x == y,
        Val::Boolean(x) => b matches Val::Boolean(y) && x == y,
        Val::Str(x) => b matches Val::Str(y) && x == y,
        Val::Symbol(x) => b matches Val::Symbol(y) && x == y,
        Val::Nil => b is Nil,
        Val::Atom(i) => b matches Val::Atom(j) && i == j,
        Val::List(xs) => b matches Val::List(ys) && lists_equal(xs, ys),
        _ => false,
    }
}

/// Lists of one length whose items are pairwise equal.
pub open spec fn lists_equal(xs: Seq<Val>, ys: Seq<Val>) -> bool
    decreases xs,
{
    xs.len() == ys.len() && (xs.len() == 0 || (lists_equal(xs.drop_last(), ys.drop_last())
        && vals_equal(xs.last(), ys.last())))
}

pub proof fn lemma_lists_equal(xs: Seq<Val>, ys: Seq<Val>, j: int)
    requires
        lists_equal(xs, ys),
        0 <= j < xs.len(),
    ensures
        vals_equal(xs[j], ys[j]),
    decreases xs.len(),
{
    if j < xs.len() - 1 {
        lemma_lists_equal(xs.drop_last(), ys.drop_last(), j);
    }
}

/// The text of `args[i..]` appended to `acc`, if they are all strings.
pub open spec fn concat_from(name: Seq<char>, args: Seq<Val>, i: int, acc: Seq<char>) -> Result<Val, EvalErr>
    decreases args.len() - i,
{
    if i < 0 || i >= args.len() {
        Ok(Val::Str(acc))
    } else {
        match args[i] {
            Val::Str(s) => concat_from(name, args, i + 1, acc + s),
            _ => Err(mismatch(name, (i + 1) as usize, "String"@, args[i])),
        }
    }
}

pub open spec fn takes_two(p: Prim) -> bool {
    p is Eq || p is Lt || p is Reset || p is Swap
}

pub open spec fn slurp_spec(name: Seq<char>, a: Val, h: HeapV) -> Result<Val, EvalErr> {
    match a {
        Val::Str(path) => match last_key(h.files, path) {
            Some(j) => match h.files[j].1 {
                Ok(c) => Ok(Val::Str(c)),
                Err(m) => Err(EvalErr::Io(m)),
            },
            None => Err(EvalErr::FileNeeded(path)),
        },
        _ => Err(mismatch(name, 1, "String"@, a)),
    }
}

pub open spec fn read_str_spec(name: Seq<char>, a: Val) -> Result<Val, EvalErr> {
    match a {
        Val::Str(s) => match read_spec(s) {
            Ok(v) => Ok(v),
            Err(e) => Err(EvalErr::Parse(e)),
        },
        _ => Err(mismatch(name, 1, "String"@, a)),
    }
}

pub open spec fn count_spec(name: Seq<char>, a: Val) -> Result<Val, EvalErr> {
    match a {
        Val::List(xs) => checked(name, xs.len() as int),
        _ => Ok(Val::Integer(0)),
    }
}

pub open spec fn deref_spec(name: Seq<char>, a: Val, h: HeapV) -> Result<Val, EvalErr> {
    match a {
        Val::Atom(i) => if i < h.atoms.len() {
            Ok(h.atoms[i as int])
        } else {
            Err(EvalErr::BadReference)
        },
        _ => Err(mismatch(name, 1, "Atom"@, a)),
    }
}

pub open spec fn reset_spec(name: Seq<char>, a: Val, v: Val, h: HeapV) -> (Result<Val, EvalErr>, HeapV) {
    match a {
        Val::Atom(i) => if i < h.atoms.len() {
            (Ok(v), HeapV { atoms: h.atoms.update(i as int, v), ..h })
        } else {
            (Err(EvalErr::BadReference), h)
        },
        _ => (Err(mismatch(name, 1, "Atom"@, a)), h),
    }
}

/// What a builtin other than `swap!` returns, and the heap after it.
pub open spec fn prim_spec(p: Prim, name: Seq<char>, args: Seq<Val>, h: HeapV) -> (Result<Val, EvalErr>, HeapV) {
    match p {
        Prim::Add | Prim::Sub | Prim::Mult | Prim::Div => (arith_spec(p, name, args), h),
        Prim::List => (Ok(Val::List(args)), h),
        Prim::Str => (concat_from(name, args, 0, Seq::empty()), h),
        _ => if takes_two(p) && args.len() != 2 {
            (Err(arity(name, 2, args)), h)
        } else if !takes_two(p) && args.len() != 1 {
            (Err(arity(name, 1, args)), h)
        } else {
            match p {
                Prim::Eq => (Ok(Val::Boolean(vals_equal(args[0], args[1]))), h),
                Prim::Lt => (Ok(Val::Boolean(args[0] matches Val::Integer(a) && args[1] matches Val::Integer(b) && a < b)), h),
                Prim::ListQ => (Ok(Val::Boolean(args[0] is List)), h),
                Prim::EmptyQ => (Ok(Val::Boolean(args[0] matches Val::List(xs) && xs.len() == 0)), h),
                Prim::Count => (count_spec(name, args[0]), h),
                Prim::Prn => (Ok(Val::Nil), HeapV { printed: h.printed.push(show(args[0], false)), ..h }),
                Prim::Slurp => (slurp_spec(name, args[0], h), h),
                Prim::ReadStr => (read_str_spec(name, args[0]), h),
                Prim::Atom => (Ok(Val::Atom(h.atoms.len() as usize)), HeapV { atoms: h.atoms.push(args[0]), ..h }),
                Prim::AtomQ => (Ok(Val::Boolean(args[0] is Atom)), h),
                Prim::Deref => (deref_spec(name, args[0], h), h),
                Prim::Reset => reset_spec(name, args[0], args[1], h),
                _ => (Err(EvalErr::BadReference), h),
            }
        },
    }
}

/// A new atom holds the value it was made with.
pub proof fn lemma_atom_then_deref(n1: Seq<char>, n2: Seq<char>, v: Val, h: HeapV)
    ensures
        ({
            let (r, h1) = prim_spec(Prim::Atom, n1, seq![v], h);
            &&& r == Ok::<Val, EvalErr>(Val::Atom(h.atoms.len() as usize))
            &&& h.atoms.len() < usize::MAX ==> prim_spec(Prim::Deref, n2, seq![r->Ok_0], h1).0 == Ok::<Val, EvalErr>(v)
        }),
{
}

/// After `reset!` an atom holds the value given, and `reset!` returns it.
pub proof fn lemma_reset_then_deref(n1: Seq<char>, n2: Seq<char>, i: usize, v: Val, h: HeapV)
    requires
        i < h.atoms.len(),
    ensures
        ({
            let (r, h1) = prim_spec(Prim::Reset, n1, seq![Val::Atom(i), v], h);
            &&& r == Ok::<Val, EvalErr>(v)
            &&& prim_spec(Prim::Deref, n2, seq![Val::Atom(i)], h1).0 == Ok::<Val, EvalErr>(v)
        }),
{
}

pub(crate) fn text(s: &str) -> (r: String)
    ensures
        r@ == s@,
{
    String::from_str(s)
}

fn get_int(ast: Ast, pos: usize, fn_name: &String) -> (r: Result<i64, ParserError>)
    ensures
        match ast {
            Ast::Integer(n) => r == Ok::<i64, ParserError>(n),
            _ => r is Err && r->Err_0@ == ParseErr::TypeMismatch(fn_name@, pos, "Integer"@, ast@),
        },
{
    match ast {
        Ast::Integer(n) => Ok(n),
        _ => Err(ParserError::TypeMismatch(fn_name.clone(), pos, text("Integer"), ast)),
    }
}

fn get_str<'a>(ast: &'a Ast, pos: usize, fn_name: &String) -> (r: Result<&'a String, ParserError>)
    ensures
        match ast {
            Ast::String(s) => r is Ok && r->Ok_0 == s,
            _ => r is Err && r->Err_0@ == ParseErr::TypeMismatch(fn_name@, pos, "String"@, ast@),
        },
{
    match ast {
        Ast::String(s) => Ok(s),
        _ => Err(ParserError::TypeMismatch(fn_name.clone(), pos, text("String"), ast.copy())),
    }
}

fn int_args(name: &String, args: Vec<Ast>) -> (r: Result<(i64, i64), ReplError>)
    ensures
        match int_pair(name@, vals_of(args@)) {
            Ok(p) => r is Ok && r->Ok_0 == p,
            Err(e) => r is Err && r->Err_0@ == e,
        },
{
    proof {
        lemma_vals_of(args@);
    }
    let mut args = args;
    if args.len() != 2 {
        return Err(ReplError::ArityMismatch(name.clone(), 2, args.len()));
    }
    let ghost all = args@;
    let bv = args.pop().unwrap();
    let av = args.pop().unwrap();
    assert(bv == all[1] && av == all[0]);
    let b = match get_int(bv, 2, name) {
        Ok(b) => b,
        Err(e) => return Err(ReplError::ParserError(e)),
    };
    let a = match get_int(av, 1, name) {
        Ok(a) => a,
        Err(e) => return Err(ReplError::ParserError(e)),
    };
    Ok((a, b))
}

fn overflowed(name: &String) -> (r: ReplError)
    ensures
        r@ == EvalErr::IntegerOverflow(name@),
{
    ReplError::IntegerOverflow(name.clone())
}

fn add(name: &String, args: Vec<Ast>) -> (r: Result<Ast, ReplError>)
    ensures
        outcome(r) == arith_spec(Prim::Add, name@, vals_of(args@)),
{
    let (a, b) = match int_args(name, args) {
        Ok(p) => p,
        Err(e) => return Err(e),
    };
    match a.checked_add(b) {
        Some(v) => Ok(Ast::Integer(v)),
        None => Err(overflowed(name)),
    }
}

fn sub(name: &String, args: Vec<Ast>) -> (r: Result<Ast, ReplError>)
    ensures
        outcome(r) == arith_spec(Prim::Sub, name@, vals_of(args@)),
{
    let (a, b) = match int_args(name, args) {
        Ok(p) => p,
        Err(e) => return Err(e),
    };
    match a.checked_sub(b) {
        Some(v) => Ok(Ast::Integer(v)),
        None => Err(overflowed(name)),
    }
}

fn mult(name: &String, args: Vec<Ast>) -> (r: Result<Ast, ReplError>)
    ensures
        outcome(r) == arith_spec(Prim::Mult, name@, vals_of(args@)),
{
    let (a, b) = match int_args(name, args) {
        Ok(p) => p,
        Err(e) => return Err(e),
    };
    match a.checked_mul(b) {
        Some(v) => Ok(Ast::Integer(v)),
        None => Err(overflowed(name)),
    }
}

fn div(name: &String, args: Vec<Ast>) -> (r: Result<Ast, ReplError>)
    ensures
        outcome(r) == arith_spec(Prim::Div, name@, vals_of(args@)),
{
    let (a, b) = match int_args(name, args) {
        Ok(p) => p,
        Err(e) => return Err(e),
    };
    if b == 0 {
        return Err(ReplError::DivisionByZero(name.clone()));
    }
    match a.checked_div(b) {
        Some(v) => Ok(Ast::Integer(v)),
        None => Err(overflowed(name)),
    }
}

/// Structural equality of two values.
pub fn values_eq(a: &Ast, b: &Ast) -> (r: bool)
    ensures
        r == vals_equal(a@, b@),
    decreases a,
{
    match (a, b) {
        (Ast::Integer(x), Ast::Integer(y)) => *x == *y,
        (Ast::Boolean(x), Ast::Boolean(y)) => *x == *y,
        (Ast::String(x), Ast::String(y)) => *x == *y,
        (Ast::Symbol(x), Ast::Symbol(y)) => *x == *y,
        (Ast::Nil, Ast::Nil) => true,
        (Ast::Atom(i), Ast::Atom(j)) => *i == *j,
        (Ast::List(xs), Ast::List(ys)) => {
            if xs.len() != ys.len() {
                proof {
                    lemma_vals_of(xs@);
                    lemma_vals_of(ys@);
                }
                return false;
            }
            proof {
                lemma_vals_of(xs@);
                lemma_vals_of(ys@);
                assert(decreases_to!(*a => a->List_0));
            }
            let ghost vx = vals_of(xs@);
            let ghost vy = vals_of(ys@);
            assert(vx.subrange(0, 0) =~= Seq::<Val>::empty());
            assert(vy.subrange(0, 0) =~= Seq::<Val>::empty());
            let mut i: usize = 0;
            while i < xs.len()
                invariant
                    i <= xs.len() == ys.len(),
                    decreases_to!(*a => *xs),
                    a@ == Val::List(vx),
                    b@ == Val::List(vy),
                    vx == vals_of(xs@),
                    vy == vals_of(ys@),
                    vx.len() == xs@.len(),
                    vy.len() == ys@.len(),
                    forall|j: int| 0 <= j < xs@.len() ==> #[trigger] vx[j] == xs@[j]@,
                    forall|j: int| 0 <= j < ys@.len() ==> #[trigger] vy[j] == ys@[j]@,
                    lists_equal(vx.subrange(0, i as int), vy.subrange(0, i as int)),
                decreases xs.len() - i,
            {
                proof {
                    vstd::std_specs::vec::axiom_vec_index_decreases(*xs, i as int);
                }
                if !values_eq(&xs[i], &ys[i]) {
                    proof {
                        if lists_equal(vx, vy) {
                            lemma_lists_equal(vx, vy, i as int);
                        }
                    }
                    return false;
                }
                assert(vx.subrange(0, i + 1).drop_last() =~= vx.subrange(0, i as int));
                assert(vy.subrange(0, i + 1).drop_last() =~= vy.subrange(0, i as int));
                i = i + 1;
            }
            assert(vx.subrange(0, i as int) =~= vx);
            assert(vy.subrange(0, i as int) =~= vy);
            true
        },
        _ => false,
    }
}

fn concat_str(name: &String, args: &Vec<Ast>) -> (r: Result<Ast, ReplError>)
    ensures
        outcome(r) == concat_from(name@, vals_of(args@), 0, Seq::empty()),
{
    proof {
        lemma_vals_of(args@);
    }
    let mut out = String::new();
    let mut i: usize = 0;
    while i < args.len()
        invariant
            i <= args.len(),
            vals_of(args@).len() == args@.len(),
            forall|j: int| 0 <= j < args@.len() ==> #[trigger] vals_of(args@)[j] == args@[j]@,
            concat_from(name@, vals_of(args@), i as int, out@) == concat_from(
                name@,
                vals_of(args@),
                0,
                Seq::empty(),
            ),
        decreases args.len() - i,
    {
        match get_str(&args[i], i + 1, name) {
            Ok(s) => {
                out.append(s.as_str());
            },
            Err(e) => {
                return Err(ReplError::ParserError(e));
            },
        }
        i = i + 1;
    }
    Ok(Ast::String(out))
}

impl Heap {
    /// Index of the last entry for `path` in the files the host supplied.
    pub fn find_file(&self, path: &String) -> (r: Option<usize>)
        ensures
            r is Some <==> last_key(self@.files, path@) is Some,
            r is Some ==> last_key(self@.files, path@) == Some(r->0 as int) && r->0 < self.files@.len(),
    {
        let ghost fs = self@.files;
        let mut i: usize = self.files.len();
        assert(fs.subrange(0, i as int) =~= fs);
        while i > 0
            invariant
                i <= self.files@.len(),
                fs == self@.files,
                last_key(fs, path@) == last_key(fs.subrange(0, i as int), path@),
            decreases i,
        {
            let ghost sub = fs.subrange(0, i as int);
            assert(sub.last() == fs[i - 1]);
            if self.files[i - 1].0 == *path {
                return Some(i - 1);
            }
            assert(sub.drop_last() =~= fs.subrange(0, i - 1));
            i = i - 1;
        }
        None
    }
}

fn op_lt(a: &Ast, b: &Ast) -> (r: bool)
    ensures
        r == (a@ matches Val::Integer(x) && b@ matches Val::Integer(y) && x < y),
{
    match (a, b) {
        (Ast::Integer(x), Ast::Integer(y)) => *x < *y,
        _ => false,
    }
}

fn list_q(a: &Ast) -> (r: bool)
    ensures
        r == a@ is List,
{
    matches!(a, Ast::List(_))
}

fn empty_q(a: &Ast) -> (r: bool)
    ensures
        r == (a@ matches Val::List(xs) && xs.len() == 0),
{
    match a {
        Ast::List(xs) => {
            proof {
                lemma_vals_of(xs@);
            }
            xs.len() == 0
        },
        _ => false,
    }
}

fn count(name: &String, a: &Ast) -> (r: Result<Ast, ReplError>)
    ensures
        outcome(r) == count_spec(name@, a@),
{
    match a {
        Ast::List(xs) => {
            proof {
                lemma_vals_of(xs@);
            }
            let n = xs.len() as u64;
            if n <= 0x7fff_ffff_ffff_ffff {
                Ok(Ast::Integer(n as i64))
            } else {
                Err(overflowed(name))
            }
        },
        _ => Ok(Ast::Integer(0)),
    }
}

fn atom_q(a: &Ast) -> (r: bool)
    ensures
        r == a@ is Atom,
{
    matches!(a, Ast::Atom(_))
}

fn prn(a: &Ast, heap: &mut Heap)
    ensures
        final(heap)@ == (HeapV { printed: old(heap)@.printed.push(show(a@, false)), ..old(heap)@ }),
{
    let line = pr_str(a, false);
    let ghost before = heap@;
    heap.printed.push(line);
    assert(heap@.printed =~= before.printed.push(show(a@, false)));
}

fn slurp(name: &String, a: &Ast, heap: &Heap) -> (r: Result<Ast, ReplError>)
    ensures
        outcome(r) == slurp_spec(name@, a@, heap@),
{
    proof {
        reveal_strlit("String");
    }
    let path = match get_str(a, 1, name) {
        Ok(s) => s,
        Err(e) => return Err(ReplError::ParserError(e)),
    };
    match heap.find_file(path) {
        Some(j) => {
            assert(heap@.files[j as int] == file_view(heap.files@[j as int]));
            match &heap.files[j].1 {
                Ok(c) => Ok(Ast::String(c.clone())),
                Err(m) => Err(ReplError::IoError(m.clone())),
            }
        },
        None => Err(ReplError::FileNeeded(path.clone())),
    }
}

fn read_str(name: &String, a: &Ast) -> (r: Result<Ast, ReplError>)
    ensures
        outcome(r) == read_str_spec(name@, a@),
{
    let s = match get_str(a, 1, name) {
        Ok(s) => s,
        Err(e) => return Err(ReplError::ParserError(e)),
    };
    match read_form(s.as_str()) {
        Ok(v) => Ok(v),
        Err(e) => Err(ReplError::ParserError(e)),
    }
}

fn atom(a: &Ast, heap: &mut Heap) -> (r: usize)
    ensures
        final(heap)@ == (HeapV { atoms: old(heap)@.atoms.push(a@), ..old(heap)@ }),
        r == old(heap)@.atoms.len(),
{
    proof {
        lemma_vals_of(heap.atoms@);
    }
    let i = heap.atoms.len();
    let ghost before = heap@;
    let ghost old_atoms = heap.atoms@;
    let c = a.copy();
    heap.atoms.push(c);
    assert(heap.atoms@.drop_last() =~= old_atoms);
    assert(heap@.atoms =~= before.atoms.push(a@));
    i
}

pub(crate) fn not_an_atom(name: &String, a: &Ast) -> (r: ReplError)
    ensures
        r@ == mismatch(name@, 1, "Atom"@, a@),
{
    ReplError::ParserError(ParserError::TypeMismatch(name.clone(), 1, text("Atom"), a.copy()))
}

fn deref(name: &String, a: &Ast, heap: &Heap) -> (r: Result<Ast, ReplError>)
    ensures
        outcome(r) == deref_spec(name@, a@, heap@),
{
    match a {
        Ast::Atom(i) => {
            proof {
                lemma_vals_of(heap.atoms@);
            }
            if *i < heap.atoms.len() {
                Ok(heap.atoms[*i].copy())
            } else {
                Err(ReplError::BadReference)
            }
        },
        _ => Err(not_an_atom(name, a)),
    }
}

fn reset_m(name: &String, a: &Ast, v: &Ast, heap: &mut Heap) -> (r: Result<Ast, ReplError>)
    ensures
        (outcome(r), final(heap)@) == reset_spec(name@, a@, v@, old(heap)@),
{
    match a {
        Ast::Atom(i) => {
            proof {
                lemma_vals_of(heap.atoms@);
            }
            if *i < heap.atoms.len() {
                let ghost before = heap@;
                heap.atoms.set(*i, v.copy());
                proof {
                    lemma_vals_of(heap.atoms@);
                }
                assert(heap@.atoms =~= before.atoms.update(*i as int, v@));
                Ok(v.copy())
            } else {
                Err(ReplError::BadReference)
            }
        },
        _ => Err(not_an_atom(name, a)),
    }
}

/// Runs builtin `p`, which is not `swap!`, reported under `name`.
pub fn call_prim(p: Prim, name: &String, args: Vec<Ast>, heap: &mut Heap) -> (r: Result<Ast, ReplError>)
    requires
        !(p is Swap),
    ensures
        (outcome(r), final(heap)@) == prim_spec(p, name@, vals_of(args@), old(heap)@),
        final(heap)@.frames == old(heap)@.frames,
{
    proof {
        lemma_vals_of(args@);
    }
    let ghost av = vals_of(args@);
    match p {
        Prim::Add => return self::add(name, args),
        Prim::Sub => return self::sub(name, args),
        Prim::Mult => return mult(name, args),
        Prim::Div => return div(name, args),
        Prim::List => {
            assert(Ast::List(args)@ == Val::List(av));
            return Ok(Ast::List(args));
        },
        Prim::Str => return concat_str(name, &args),
        _ => {},
    }
    let two = matches!(p, Prim::Eq | Prim::Lt | Prim::Reset);
    if two && args.len() != 2 {
        return Err(ReplError::ArityMismatch(name.clone(), 2, args.len()));
    }
    if !two && args.len() != 1 {
        return Err(ReplError::ArityMismatch(name.clone(), 1, args.len()));
    }
    match p {
        Prim::Eq => Ok(Ast::Boolean(values_eq(&args[0], &args[1]))),
        Prim::Lt => Ok(Ast::Boolean(op_lt(&args[0], &args[1]))),
        Prim::ListQ => Ok(Ast::Boolean(list_q(&args[0]))),
        Prim::EmptyQ => Ok(Ast::Boolean(empty_q(&args[0]))),
        Prim::Count => count(name, &args[0]),
        Prim::Prn => {
            prn(&args[0], heap);
            Ok(Ast::Nil)
        },
        Prim::Slurp => slurp(name, &args[0], heap),
        Prim::ReadStr => read_str(name, &args[0]),
        Prim::Atom => Ok(Ast::Atom(atom(&args[0], heap))),
        Prim::AtomQ => Ok(Ast::Boolean(atom_q(&args[0]))),
        Prim::Deref => deref(name, &args[0], heap),
        Prim::Reset => reset_m(name, &args[0], &args[1], heap),
        _ => Err(ReplError::BadReference),
    }
}

// ---------------------------------------------------------------- the root environment

pub open spec fn prim_name(p: Prim) -> Seq<char> {
    match p {
        Prim::Add => "+"@,
        Prim::Sub => "-"@,
        Prim::Mult => "*"@,
        Prim::Div => "/"@,
        Prim::Prn => "prn"@,
        Prim::Eq => "="@,
        Prim::Lt => "<"@,
        Prim::List => "list"@,
        Prim::ListQ => "list?"@,
        Prim::EmptyQ => "empty?"@,
        Prim::Count => "count"@,
        Prim::Str => "str"@,
        Prim::Slurp => "slurp"@,
        Prim::ReadStr => "read-str"@,
        Prim::Atom => "atom"@,
        Prim::AtomQ => "atom?"@,
        Prim::Deref => "deref"@,
        Prim::Reset => "reset!"@,
        Prim::Swap => "swap!"@,
    }
}

/// Every builtin, in the order the root frame binds them.
pub open spec fn root_prims() -> Seq<Prim> {
    seq![
        Prim::Add,
        Prim::Sub,
        Prim::Mult,
        Prim::Div,
        Prim::Prn,
        Prim::Eq,
        Prim::Lt,
        Prim::List,
        Prim::ListQ,
        Prim::EmptyQ,
        Prim::Count,
        Prim::Str,
        Prim::Slurp,
        Prim::ReadStr,
        Prim::Atom,
        Prim::AtomQ,
        Prim::Deref,
        Prim::Reset,
        Prim::Swap,
    ]
}

pub open spec fn prim_binding(p: Prim) -> (Seq<char>, Val) {
    (prim_name(p), Val::Builtin(prim_name(p), p))
}

/// The root frame: no parent, each builtin bound under its name.
pub open spec fn root_frame() -> FrameV {
    FrameV { bindings: root_prims().map_values(|p: Prim| prim_binding(p)), parent: None }
}

/// A fresh heap: the root frame alone, no atoms, no files, nothing printed.
pub open spec fn initial_heap() -> HeapV {
    HeapV { frames: seq![root_frame()], atoms: Seq::empty(), files: Seq::empty(), printed: Seq::empty() }
}

impl Prim {
    /// The name the root frame binds this builtin under.
    pub fn name(&self) -> (r: String)
        ensures
            r@ == prim_name(*self),
    {
        let t = match self {
            Prim::Add => "+",
            Prim::Sub => "-",
            Prim::Mult => "*",
            Prim::Div => "/",
            Prim::Prn => "prn",
            Prim::Eq => "=",
            Prim::Lt => "<",
            Prim::List => "list",
            Prim::ListQ => "list?",
            Prim::EmptyQ => "empty?",
            Prim::Count => "count",
            Prim::Str => "str",
            Prim::Slurp => "slurp",
            Prim::ReadStr => "read-str",
            Prim::Atom => "atom",
            Prim::AtomQ => "atom?",
            Prim::Deref => "deref",
            Prim::Reset => "reset!",
            Prim::Swap => "swap!",
        };
        text(t)
    }
}

proof fn lemma_root_names_distinct()
    ensures
        root_frame().keys_unique(),
{
    reveal_strlit("+");
    reveal_strlit("-");
    reveal_strlit("*");
    reveal_strlit("/");
    reveal_strlit("prn");
    reveal_strlit("=");
    reveal_strlit("<");
    reveal_strlit("list");
    reveal_strlit("list?");
    reveal_strlit("empty?");
    reveal_strlit("count");
    reveal_strlit("str");
    reveal_strlit("slurp");
    reveal_strlit("read-str");
    reveal_strlit("atom");
    reveal_strlit("atom?");
    reveal_strlit("deref");
    reveal_strlit("reset!");
    reveal_strlit("swap!");
    let bs = root_frame().bindings;
    assert forall|i: int, j: int| 0 <= i < j < bs.len() implies (#[trigger] bs[i]).0 != (#[trigger] bs[j]).0 by {
        let a = prim_name(root_prims()[i]);
        let b = prim_name(root_prims()[j]);
        if a.len() == b.len() {
            assert(a[0] != b[0] || (a.len() > 1 && a[1] != b[1]) || (a.len() > 2 && a[2] != b[2]) || (a.len() > 3 && a[3] != b[3]) || (a.len() > 4 && a[4] != b[4]));
        }
    }
}

/// The root frame.
pub fn create_root_env() -> (r: Environment)
    ensures
        r@ == root_frame(),
        r@.keys_unique(),
{
    let prims = vec![
        Prim::Add,
        Prim::Sub,
        Prim::Mult,
        Prim::Div,
        Prim::Prn,
        Prim::Eq,
        Prim::Lt,
        Prim::List,
        Prim::ListQ,
        Prim::EmptyQ,
        Prim::Count,
        Prim::Str,
        Prim::Slurp,
        Prim::ReadStr,
        Prim::Atom,
        Prim::AtomQ,
        Prim::Deref,
        Prim::Reset,
        Prim::Swap,
    ];
    assert(prims@ =~= root_prims());
    let mut values: Vec<(String, Ast)> = Vec::new();
    let mut i: usize = 0;
    while i < prims.len()
        invariant
            i <= prims@.len(),
            prims@ == root_prims(),
            bindings_view(values@) =~= prims@.subrange(0, i as int).map_values(|p: Prim| prim_binding(p)),
        decreases prims.len() - i,
    {
        let p = prims[i];
        let ghost before = values@;
        values.push((p.name(), Ast::Builtin(p.name(), p)));
        assert(bindings_view(values@) =~= bindings_view(before).push(prim_binding(p)));
        assert(prims@.subrange(0, i + 1).map_values(|p: Prim| prim_binding(p)) =~= prims@.subrange(
            0,
            i as int,
        ).map_values(|p: Prim| prim_binding(p)).push(prim_binding(p)));
        i = i + 1;
    }
    assert(prims@.subrange(0, i as int) =~= prims@);
    proof {
        lemma_root_names_distinct();
    }
    Environment { values, parent: None }
}

impl Environment {
    /// An equal frame, built anew.
    pub fn copy(&self) -> (r: Environment)
        ensures
            r@ == self@,
    {
        let mut values: Vec<(String, Ast)> = Vec::new();
        let mut i: usize = 0;
        while i < self.values.len()
            invariant
                i <= self.values@.len(),
                bindings_view(values@) =~= bindings_view(self.values@).subrange(0, i as int),
            decreases self.values.len() - i,
        {
            let ghost before = values@;
            values.push((self.values[i].0.clone(), self.values[i].1.copy()));
            assert(bindings_view(values@) =~= bindings_view(before).push(bindings_view(self.values@)[i as int]));
            i = i + 1;
        }
        assert(bindings_view(self.values@).subrange(0, i as int) =~= bindings_view(self.values@));
        Environment { values, parent: self.parent }
    }
}

impl Heap {
    /// A fresh heap with the root frame at index 0.
    pub fn new() -> (r: Heap)
        ensures
            r@ == initial_heap(),
            r@.wf(),
    {
        proof {
            lemma_root_names_distinct();
        }
        let mut frames: Vec<Environment> = Vec::new();
        frames.push(create_root_env());
        let r = Heap { frames, atoms: Vec::new(), files: Vec::new(), printed: Vec::new() };
        assert(r@.frames =~= seq![root_frame()]);
        assert(r@.files =~= Seq::<(Seq<char>, Result<Seq<char>, Seq<char>>)>::empty());
        assert(r@.printed =~= Seq::<Seq<char>>::empty());
        r
    }

    /// An equal heap, built anew.
    pub fn copy(&self) -> (r: Heap)
        ensures
            r@ == self@,
    {
        let mut frames: Vec<Environment> = Vec::new();
        let mut i: usize = 0;
        while i < self.frames.len()
            invariant
                i <= self.frames@.len(),
                frames@.map_values(|e: Environment| e@) =~= self@.frames.subrange(0, i as int),
            decreases self.frames.len() - i,
        {
            let ghost before = frames@;
            frames.push(self.frames[i].copy());
            assert(frames@.map_values(|e: Environment| e@) =~= before.map_values(|e: Environment| e@).push(self@.frames[i as int]));
            i = i + 1;
        }
        let mut atoms: Vec<Ast> = Vec::new();
        let mut j: usize = 0;
        proof {
            lemma_vals_of(self.atoms@);
            assert(vals_of(atoms@) =~= Seq::<Val>::empty());
        }
        while j < self.atoms.len()
            invariant
                j <= self.atoms@.len(),
                vals_of(self.atoms@).len() == self.atoms@.len(),
                forall|k: int| 0 <= k < self.atoms@.len() ==> #[trigger] vals_of(self.atoms@)[k] == self.atoms@[k]@,
                vals_of(atoms@) =~= vals_of(self.atoms@).subrange(0, j as int),
            decreases self.atoms.len() - j,
        {
            let ghost before = atoms@;
            atoms.push(self.atoms[j].copy());
            assert(atoms@.drop_last() =~= before);
            j = j + 1;
        }
        let mut files: Vec<(String, Result<String, String>)> = Vec::new();
        let mut k: usize = 0;
        while k < self.files.len()
            invariant
                k <= self.files@.len(),
                files@.map_values(|f: (String, Result<String, String>)| file_view(f)) =~= self@.files.subrange(0, k as int),
            decreases self.files.len() - k,
        {
            let ghost before = files@;
            let c = match &self.files[k].1 {
                Ok(c) => Ok(c.clone()),
                Err(m) => Err(m.clone()),
            };
            files.push((self.files[k].0.clone(), c));
            assert(files@.map_values(|f: (String, Result<String, String>)| file_view(f)) =~= before.map_values(|f: (String, Result<String, String>)| file_view(f)).push(self@.files[k as int]));
            k = k + 1;
        }
        let mut printed: Vec<String> = Vec::new();
        let mut m: usize = 0;
        while m < self.printed.len()
            invariant
                m <= self.printed@.len(),
                printed@.map_values(|s: String| s@) =~= self@.printed.subrange(0, m as int),
            decreases self.printed.len() - m,
        {
            let ghost before = printed@;
            printed.push(self.printed[m].clone());
            assert(printed@.map_values(|s: String| s@) =~= before.map_values(|s: String| s@).push(self@.printed[m as int]));
            m = m + 1;
        }
        proof {
            assert(self@.frames.subrange(0, i as int) =~= self@.frames);
            assert(vals_of(self.atoms@).subrange(0, j as int) =~= vals_of(self.atoms@));
            assert(self@.files.subrange(0, k as int) =~= self@.files);
            assert(self@.printed.subrange(0, m as int) =~= self@.printed);
        }
        Heap { frames, atoms, files, printed }
    }

    /// Records what the host found at `path`: its contents, or the error it met.
    pub fn supply_file(&mut self, path: String, contents: Result<String, String>)
        ensures
            final(self)@ == (HeapV {
                files: old(self)@.files.push(file_view((path, contents))),
                ..old(self)@
            }),
            final(self)@.frames == old(self)@.frames,
    {
        let ghost before = self@;
        let ghost entry = (path, contents);
        self.files.push((path, contents));
        assert(self@.files =~= before.files.push(file_view(entry)));
    }

    /// Drops the files the host has supplied, so that the next `slurp` of a
    /// path asks for it again.
    pub fn forget_files(&mut self)
        ensures
            final(self)@ == (HeapV { files: Seq::empty(), ..old(self)@ }),
    {
        self.files = Vec::new();
        assert(self@.files =~= Seq::<(Seq<char>, Result<Seq<char>, Seq<char>>)>::empty());
    }

    /// The lines printed so far, which are then forgotten.
    pub fn take_printed(&mut self) -> (r: Vec<String>)
        ensures
            r@.map_values(|s: String| s@) == old(self)@.printed,
            final(self)@ == (HeapV { printed: Seq::empty(), ..old(self)@ }),
    {
        let mut out: Vec<String> = Vec::new();
        std::mem::swap(&mut out, &mut self.printed);
        assert(self@.printed =~= Seq::<Seq<char>>::empty());
        out
    }
}

} // verus!
