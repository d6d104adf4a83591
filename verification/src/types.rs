//! Types of the language.

use crate::text::{same_text, texts};
use vstd::prelude::*;
use vstd::string::*;

verus! {

/// A type.
#[derive(Debug)]
pub enum Ty {
    Int,
    Float,
    Bool,
    Str,
    Void,
    List(Box<Ty>),
    SetOf(Box<Ty>),
    Dict(Box<Ty>, Box<Ty>),
    Tuple(Vec<Ty>),
    Named { name: String, args: Vec<Ty> },
    Function { params: Vec<Ty>, effects: Vec<String>, ret: Box<Ty> },
    TypeVar(String),
    Unknown,
}

/// What a type stands for.
pub ghost enum TyV {
    Int,
    Float,
    Bool,
    Str,
    Void,
    List(Box<TyV>),
    SetOf(Box<TyV>),
    Dict(Box<TyV>, Box<TyV>),
    Tuple(Seq<TyV>),
    Named { name: Seq<char>, args: Seq<TyV> },
    Function { params: Seq<TyV>, effects: Seq<Seq<char>>, ret: Box<TyV> },
    TypeVar(Seq<char>),
    Unknown,
}

impl Ty {
    #[verifier::opaque]
    pub open spec fn view(&self) -> TyV
        decreases self,
    {
        match *self {
            Ty::Int => TyV::Int,
            Ty::Float => TyV::Float,
            Ty::Bool => TyV::Bool,
            Ty::Str => TyV::Str,
            Ty::Void => TyV::Void,
            Ty::List(t) => TyV::List(Box::new(t.view())),
            Ty::SetOf(t) => TyV::SetOf(Box::new(t.view())),
            Ty::Dict(k, v) => TyV::Dict(Box::new(k.view()), Box::new(v.view())),
            Ty::Tuple(items) => TyV::Tuple(tys_rec(items@)),
            Ty::Named { name, args } => TyV::Named { name: name@, args: tys_rec(args@) },
            Ty::Function { params, effects, ret } => TyV::Function {
                params: tys_rec(params@),
                effects: texts(effects@),
                ret: Box::new(ret.view()),
            },
            Ty::TypeVar(name) => TyV::TypeVar(name@),
            Ty::Unknown => TyV::Unknown,
        }
    }

    /// What this type stands for, in terms of what its parts stand for.
    pub open spec fn shape(&self) -> TyV {
        match *self {
            Ty::Int => TyV::Int,
            Ty::Float => TyV::Float,
            Ty::Bool => TyV::Bool,
            Ty::Str => TyV::Str,
            Ty::Void => TyV::Void,
            Ty::List(t) => TyV::List(Box::new(t.view())),
            Ty::SetOf(t) => TyV::SetOf(Box::new(t.view())),
            Ty::Dict(k, v) => TyV::Dict(Box::new(k.view()), Box::new(v.view())),
            Ty::Tuple(items) => TyV::Tuple(tys_view(items@)),
            Ty::Named { name, args } => TyV::Named { name: name@, args: tys_view(args@) },
            Ty::Function { params, effects, ret } => TyV::Function {
                params: tys_view(params@),
                effects: texts(effects@),
                ret: Box::new(ret.view()),
            },
            Ty::TypeVar(name) => TyV::TypeVar(name@),
            Ty::Unknown => TyV::Unknown,
        }
    }
}

#[verifier::opaque]
pub open spec fn tys_rec(v: Seq<Ty>) -> Seq<TyV>
    decreases v,
{
    Seq::new(v.len(), |i: int| if 0 <= i < v.len() { v[i].view() } else { arbitrary() })
}

pub open spec fn tys_view(v: Seq<Ty>) -> Seq<TyV> {
    Seq::new(v.len(), |i: int| v[i].view())
}

proof fn lemma_tys_rec(v: Seq<Ty>)
    ensures
        tys_rec(v) == tys_view(v),
{
    reveal(tys_rec);
    reveal(Ty::view);
    assert(tys_rec(v) =~= tys_view(v));
}

pub proof fn lemma_ty_view(t: Ty)
    ensures
        t@ == t.shape(),
{
    reveal(tys_rec);
    reveal(Ty::view);
    match t {
        Ty::Tuple(items) => lemma_tys_rec(items@),
        Ty::Named { name, args } => lemma_tys_rec(args@),
        Ty::Function { params, effects, ret } => lemma_tys_rec(params@),
        _ => {},
    }
}

impl Ty {
    /// A type equal to this one.
    pub fn copy(&self) -> (r: Ty)
        ensures
            r@ == self@,
        decreases self, 0int,
    {
        proof {
            lemma_ty_view(*self);
        }
        let r = match self {
            Ty::Int => Ty::Int,
            Ty::Float => Ty::Float,
            Ty::Bool => Ty::Bool,
            Ty::Str => Ty::Str,
            Ty::Void => Ty::Void,
            Ty::List(t) => Ty::List(Box::new(t.copy())),
            Ty::SetOf(t) => Ty::SetOf(Box::new(t.copy())),
            Ty::Dict(k, v) => Ty::Dict(Box::new(k.copy()), Box::new(v.copy())),
            Ty::Tuple(items) => Ty::Tuple(copy_tys(items)),
            Ty::Named { name, args } => Ty::Named { name: name.clone(), args: copy_tys(args) },
            Ty::Function { params, effects, ret } => Ty::Function {
                params: copy_tys(params),
                effects: copy_texts(effects),
                ret: Box::new(ret.copy()),
            },
            Ty::TypeVar(name) => Ty::TypeVar(name.clone()),
            Ty::Unknown => Ty::Unknown,
        };
        proof {
            lemma_ty_view(r);
        }
        r
    }

    /// Whether two types are the same.
    pub fn same(&self, other: &Ty) -> (r: bool)
        ensures
            r == (self@ == other@),
        decreases self, 0int,
    {
        proof {
            lemma_ty_view(*self);
            lemma_ty_view(*other);
        }
        match (self, other) {
            (Ty::Int, Ty::Int) => true,
            (Ty::Float, Ty::Float) => true,
            (Ty::Bool, Ty::Bool) => true,
            (Ty::Str, Ty::Str) => true,
            (Ty::Void, Ty::Void) => true,
            (Ty::Unknown, Ty::Unknown) => true,
            (Ty::List(a), Ty::List(b)) => a.same(b),
            (Ty::SetOf(a), Ty::SetOf(b)) => a.same(b),
            (Ty::Dict(a, x), Ty::Dict(b, y)) => a.same(b) && x.same(y),
            (Ty::Tuple(a), Ty::Tuple(b)) => same_tys(a, b),
            (Ty::Named { name: n, args: a }, Ty::Named { name: m, args: b }) => same_text(
                n.as_str(),
                m.as_str(),
            ) && same_tys(a, b),
            (
                Ty::Function { params: a, effects: e, ret: x },
                Ty::Function { params: b, effects: f, ret: y },
            ) => same_tys(a, b) && same_texts(e, f) && x.same(y),
            (Ty::TypeVar(n), Ty::TypeVar(m)) => same_text(n.as_str(), m.as_str()),
            _ => false,
        }
    }
}

pub(crate) fn copy_texts(v: &Vec<String>) -> (r: Vec<String>)
    ensures
        texts(r@) == texts(v@),
{
    let mut out: Vec<String> = Vec::new();
    let mut i: usize = 0;
    while i < v.len()
        invariant
            i <= v@.len(),
            out@.len() == i,
            forall|j: int| 0 <= j < i ==> (#[trigger] out@[j])@ == v@[j]@,
        decreases v@.len() - i,
    {
        out.push(v[i].clone());
        i = i + 1;
    }
    assert(texts(out@) =~= texts(v@));
    out
}

fn same_texts(a: &Vec<String>, b: &Vec<String>) -> (r: bool)
    ensures
        r == (texts(a@) == texts(b@)),
{
    if a.len() != b.len() {
        assert(texts(a@).len() != texts(b@).len());
        return false;
    }
    let mut i: usize = 0;
    while i < a.len()
        invariant
            a@.len() == b@.len(),
            i <= a@.len(),
            forall|j: int| 0 <= j < i ==> (#[trigger] a@[j])@ == b@[j]@,
        decreases a@.len() - i,
    {
        if !same_text(a[i].as_str(), b[i].as_str()) {
            assert(texts(a@)[i as int] != texts(b@)[i as int]);
            return false;
        }
        i = i + 1;
    }
    assert(texts(a@) =~= texts(b@));
    true
}

fn copy_tys(v: &Vec<Ty>) -> (r: Vec<Ty>)
    ensures
        tys_view(r@) == tys_view(v@),
    decreases v, 1int,
{
    let mut out: Vec<Ty> = Vec::new();
    let mut i: usize = 0;
    while i < v.len()
        invariant
            i <= v@.len(),
            out@.len() == i,
            forall|j: int| 0 <= j < i ==> (#[trigger] out@[j])@ == v@[j]@,
        decreases v@.len() - i,
    {
        proof {
            assert(decreases_to!(*v => v@));
            assert(decreases_to!(v@ => v@[i as int]));
        }
        let t = v[i].copy();
        out.push(t);
        i = i + 1;
    }
    assert(tys_view(out@) =~= tys_view(v@));
    out
}

fn same_tys(a: &Vec<Ty>, b: &Vec<Ty>) -> (r: bool)
    ensures
        r == (tys_view(a@) == tys_view(b@)),
    decreases a, 1int,
{
    if a.len() != b.len() {
        assert(tys_view(a@).len() != tys_view(b@).len());
        return false;
    }
    let mut i: usize = 0;
    while i < a.len()
        invariant
            a@.len() == b@.len(),
            i <= a@.len(),
            forall|j: int| 0 <= j < i ==> (#[trigger] a@[j])@ == b@[j]@,
        decreases a@.len() - i,
    {
        proof {
            assert(decreases_to!(*a => a@));
            assert(decreases_to!(a@ => a@[i as int]));
        }
        if !a[i].same(&b[i]) {
            assert(tys_view(a@)[i as int] != tys_view(b@)[i as int]);
            return false;
        }
        i = i + 1;
    }
    assert(tys_view(a@) =~= tys_view(b@));
    true
}

// ---------------------------------------------------------------------------
// Types as text
// ---------------------------------------------------------------------------

/// A type as a program writes it.
pub open spec fn ty_text(t: TyV) -> Seq<char>
    decreases t, 0int,
{
    match t {
        TyV::Int => "int"@,
        TyV::Float => "float"@,
        TyV::Bool => "bool"@,
        TyV::Str => "str"@,
        TyV::Void => "void"@,
        TyV::List(e) => "list["@ + ty_text(*e) + "]"@,
        TyV::SetOf(e) => "set["@ + ty_text(*e) + "]"@,
        TyV::Dict(k, v) => "dict["@ + ty_text(*k) + ", "@ + ty_text(*v) + "]"@,
        TyV::Tuple(items) => "("@ + ty_texts_from(items, 0) + ")"@,
        TyV::Named { name, args } => if args.len() == 0 {
            name
        } else {
            name + "["@ + ty_texts_from(args, 0) + "]"@
        },
        TyV::Function { params, effects, ret } => "("@ + ty_texts_from(params, 0) + ") -> "@
            + ty_text(*ret) + effects_text(effects),
        TyV::TypeVar(name) => name,
        TyV::Unknown => "unknown"@,
    }
}

pub open spec fn comma_before(i: int) -> Seq<char> {
    if i > 0 {
        ", "@
    } else {
        Seq::empty()
    }
}

/// The types from the `i`-th on, parted by commas.
pub open spec fn ty_texts_from(items: Seq<TyV>, i: int) -> Seq<char>
    decreases items, items.len() - i,
{
    if 0 <= i < items.len() {
        comma_before(i) + ty_text(items[i]) + ty_texts_from(items, i + 1)
    } else {
        Seq::empty()
    }
}

/// The effects from the `i`-th on, parted by commas.
pub open spec fn effects_from(effects: Seq<Seq<char>>, i: int) -> Seq<char>
    decreases effects.len() - i,
{
    if 0 <= i < effects.len() {
        comma_before(i) + effects[i] + effects_from(effects, i + 1)
    } else {
        Seq::empty()
    }
}

/// The effects of a function, if it has any.
pub open spec fn effects_text(effects: Seq<Seq<char>>) -> Seq<char> {
    if effects.len() == 0 {
        Seq::empty()
    } else {
        " uses {"@ + effects_from(effects, 0) + "}"@
    }
}

fn write_tys(items: &Vec<Ty>, out: &mut String)
    ensures
        final(out)@ == old(out)@ + ty_texts_from(tys_view(items@), 0),
    decreases *items, 0int,
{
    let ghost start = out@;
    let ghost ts = tys_view(items@);
    let mut i: usize = 0;
    while i < items.len()
        invariant
            ts == tys_view(items@),
            i <= items@.len(),
            out@ + ty_texts_from(ts, i as int) == start + ty_texts_from(ts, 0),
        decreases items@.len() - i,
    {
        proof {
            assert(decreases_to!(*items => items@));
            assert(decreases_to!(items@ => items@[i as int]));
        }
        let ghost before = out@;
        if i > 0 {
            out.append(", ");
        }
        assert(out@ =~= before + comma_before(i as int));
        write_ty(&items[i], out);
        assert(out@ + ty_texts_from(ts, i + 1) =~= before + ty_texts_from(ts, i as int));
        i = i + 1;
    }
    assert(out@ =~= start + ty_texts_from(ts, 0));
}

fn write_effects(effects: &Vec<String>, out: &mut String)
    ensures
        final(out)@ == old(out)@ + effects_text(texts(effects@)),
{
    let ghost es = texts(effects@);
    let ghost origin = out@;
    if effects.len() > 0 {
        out.append(" uses {");
        let ghost start = out@;
        let mut i: usize = 0;
        while i < effects.len()
            invariant
                es == texts(effects@),
                i <= effects@.len(),
                out@ + effects_from(es, i as int) == start + effects_from(es, 0),
            decreases effects@.len() - i,
        {
            let ghost before = out@;
            if i > 0 {
                out.append(", ");
            }
            assert(out@ =~= before + comma_before(i as int));
            out.append(effects[i].as_str());
            assert(out@ + effects_from(es, i + 1) =~= before + effects_from(es, i as int));
            i = i + 1;
        }
        assert(out@ =~= start + effects_from(es, 0));
        out.append("}");
    }
    assert(out@ =~= origin + effects_text(es));
}

fn write_ty(t: &Ty, out: &mut String)
    ensures
        final(out)@ == old(out)@ + ty_text(t@),
    decreases *t, 1int,
{
    proof {
        lemma_ty_view(*t);
    }
    let ghost start = out@;
    match t {
        Ty::Int => {
            out.append("int");
        },
        Ty::Float => {
            out.append("float");
        },
        Ty::Bool => {
            out.append("bool");
        },
        Ty::Str => {
            out.append("str");
        },
        Ty::Void => {
            out.append("void");
        },
        Ty::List(e) => {
            out.append("list[");
            write_ty(e, out);
            out.append("]");
        },
        Ty::SetOf(e) => {
            out.append("set[");
            write_ty(e, out);
            out.append("]");
        },
        Ty::Dict(k, v) => {
            out.append("dict[");
            write_ty(k, out);
            out.append(", ");
            write_ty(v, out);
            out.append("]");
        },
        Ty::Tuple(items) => {
            out.append("(");
            write_tys(items, out);
            out.append(")");
        },
        Ty::Named { name, args } => {
            out.append(name.as_str());
            if args.len() > 0 {
                out.append("[");
                write_tys(args, out);
                out.append("]");
            }
        },
        Ty::Function { params, effects, ret } => {
            out.append("(");
            write_tys(params, out);
            out.append(") -> ");
            write_ty(ret, out);
            write_effects(effects, out);
        },
        Ty::TypeVar(name) => {
            out.append(name.as_str());
        },
        Ty::Unknown => {
            out.append("unknown");
        },
    }
    assert(out@ =~= start + ty_text(t@));
}

impl Ty {
    /// The type as a program writes it.
    pub fn text(&self) -> (r: String)
        ensures
            r@ == ty_text(self@),
    {
        let mut out = String::new();
        write_ty(self, &mut out);
        assert(out@ =~= ty_text(self@));
        out
    }
}

} // verus!
