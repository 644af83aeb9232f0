//! Full-tree transformations: resolving embedded imports, and the
//! conversions out of trees whose note or embed type has no values.

use crate::eq::{same_alts, same_expr, same_rows, same_sub, same_sub_opt, same_subs, same_text};
use crate::expr::{ExprF, InterpolatedText, Label, Noted, SubExpr};
use crate::X;
use vstd::pervasive::cloned;
use vstd::prelude::*;

verus! {

broadcast use crate::expr::lemma_noted_decreases;

/// Applies the embed callback to one payload; an error is the callback's
/// own, handed back unchanged.
fn apply_embed<E, E2, Er, F: Fn(&E) -> Result<E2, Er>>(x: &E, visit_embed: &F) -> (r: Result<
    E2,
    Er,
>)
    requires
        call_requires(*visit_embed, (x,)),
    ensures
        call_ensures(*visit_embed, (x,), r),
        r matches Err(e) ==> exists|a: (&E,)| #[trigger] call_ensures(*visit_embed, a, Err(e)),
{
    match visit_embed(x) {
        Ok(y) => Ok(y),
        Err(e) => Err(e),
    }
}

/// Applies `f` to every embedded payload of the tree, keeping everything
/// else, and stopping at the first error; an error is the callback's own,
/// handed back unchanged. Notes come along as clones.
pub fn sub_traverse_embed<N: Clone, E, E2, Er, F: Fn(&E) -> Result<E2, Er>>(
    e: &SubExpr<N, E>,
    visit_embed: &F,
) -> (r: Result<SubExpr<N, E2>, Er>)
    requires
        forall|x: E| call_requires(*visit_embed, (&x,)),
    ensures
        r matches Ok(out) ==> same_sub(*e, out, (|x, y| call_ensures(*visit_embed, (&x,), Ok(y)))),
        r matches Ok(out) ==> ((out.spec_note() is Some <==> e.spec_note() is Some) && (
        e.spec_note() matches Some(o) ==> (out.spec_note() matches Some(m) && cloned::<N>(o, m)))),
        r matches Err(e) ==> exists|a: (&E,)| #[trigger] call_ensures(*visit_embed, a, Err(e)),
        (forall|a: (&E,), er: Er| !call_ensures(*visit_embed, a, Err(er))) ==> r is Ok,
    decreases *e, 1int,
{
    let inner = exprf_traverse_embed(e.as_ref(), visit_embed)?;
    Ok(e.rewrap(inner))
}

/// As `sub_traverse_embed`, on a bare expression layer.
pub fn exprf_traverse_embed<N: Clone, E, E2, Er, F: Fn(&E) -> Result<E2, Er>>(
    e: &ExprF<N, E>,
    visit_embed: &F,
) -> (r: Result<ExprF<N, E2>, Er>)
    requires
        forall|x: E| call_requires(*visit_embed, (&x,)),
    ensures
        r matches Ok(out) ==> same_expr(
            *e,
            out,
            (|x, y| call_ensures(*visit_embed, (&x,), Ok(y))),
        ),
        r matches Err(e) ==> exists|a: (&E,)| #[trigger] call_ensures(*visit_embed, a, Err(e)),
        (forall|a: (&E,), er: Er| !call_ensures(*visit_embed, a, Err(er))) ==> r is Ok,
    decreases *e, 0int,
{
    match e {
        ExprF::Const(c) => Ok(ExprF::Const(*c)),
        ExprF::Var(v) => Ok(ExprF::Var(v.clone())),
        ExprF::Lam(l, t, b) => {
            let t2 = sub_traverse_embed(t, visit_embed)?;
            let b2 = sub_traverse_embed(b, visit_embed)?;
            Ok(ExprF::Lam(l.clone(), t2, b2))
        },
        ExprF::Pi(l, t, b) => {
            let t2 = sub_traverse_embed(t, visit_embed)?;
            let b2 = sub_traverse_embed(b, visit_embed)?;
            Ok(ExprF::Pi(l.clone(), t2, b2))
        },
        ExprF::App(f, a) => {
            let f2 = sub_traverse_embed(f, visit_embed)?;
            let a2 = sub_traverse_embed(a, visit_embed)?;
            Ok(ExprF::App(f2, a2))
        },
        ExprF::Let(l, t, v, b) => {
            let t2 = opt_traverse_embed(t, visit_embed)?;
            let v2 = sub_traverse_embed(v, visit_embed)?;
            let b2 = sub_traverse_embed(b, visit_embed)?;
            Ok(ExprF::Let(l.clone(), t2, v2, b2))
        },
        ExprF::Annot(x, t) => {
            let x2 = sub_traverse_embed(x, visit_embed)?;
            let t2 = sub_traverse_embed(t, visit_embed)?;
            Ok(ExprF::Annot(x2, t2))
        },
        ExprF::Builtin(b) => Ok(ExprF::Builtin(*b)),
        ExprF::BinOp(o, x, y) => {
            let x2 = sub_traverse_embed(x, visit_embed)?;
            let y2 = sub_traverse_embed(y, visit_embed)?;
            Ok(ExprF::BinOp(*o, x2, y2))
        },
        ExprF::BoolLit(b) => Ok(ExprF::BoolLit(*b)),
        ExprF::BoolIf(c, t, e2) => {
            let c2 = sub_traverse_embed(c, visit_embed)?;
            let t2 = sub_traverse_embed(t, visit_embed)?;
            let e3 = sub_traverse_embed(e2, visit_embed)?;
            Ok(ExprF::BoolIf(c2, t2, e3))
        },
        ExprF::NaturalLit(n) => Ok(ExprF::NaturalLit(*n)),
        ExprF::IntegerLit(n) => Ok(ExprF::IntegerLit(*n)),
        ExprF::DoubleLit(d) => Ok(ExprF::DoubleLit(*d)),
        ExprF::TextLit(t) => Ok(ExprF::TextLit(text_traverse_embed(t, visit_embed)?)),
        ExprF::EmptyListLit(t) => Ok(ExprF::EmptyListLit(sub_traverse_embed(t, visit_embed)?)),
        ExprF::NEListLit(v) => Ok(ExprF::NEListLit(vec_traverse_embed(v, visit_embed)?)),
        ExprF::OldOptionalLit(x, t) => {
            let x2 = opt_traverse_embed(x, visit_embed)?;
            let t2 = sub_traverse_embed(t, visit_embed)?;
            Ok(ExprF::OldOptionalLit(x2, t2))
        },
        ExprF::SomeLit(x) => Ok(ExprF::SomeLit(sub_traverse_embed(x, visit_embed)?)),
        ExprF::RecordType(v) => Ok(ExprF::RecordType(rows_traverse_embed(v, visit_embed)?)),
        ExprF::RecordLit(v) => Ok(ExprF::RecordLit(rows_traverse_embed(v, visit_embed)?)),
        ExprF::UnionType(v) => Ok(ExprF::UnionType(alts_traverse_embed(v, visit_embed)?)),
        ExprF::UnionLit(l, x, v) => {
            let x2 = sub_traverse_embed(x, visit_embed)?;
            let v2 = alts_traverse_embed(v, visit_embed)?;
            Ok(ExprF::UnionLit(l.clone(), x2, v2))
        },
        ExprF::Merge(x, y, t) => {
            let x2 = sub_traverse_embed(x, visit_embed)?;
            let y2 = sub_traverse_embed(y, visit_embed)?;
            let t2 = opt_traverse_embed(t, visit_embed)?;
            Ok(ExprF::Merge(x2, y2, t2))
        },
        ExprF::Field(x, l) => {
            let x2 = sub_traverse_embed(x, visit_embed)?;
            Ok(ExprF::Field(x2, l.clone()))
        },
        ExprF::Projection(x, v) => {
            let x2 = sub_traverse_embed(x, visit_embed)?;
            let mut ls: Vec<Label> = Vec::new();
            let mut i: usize = 0;
            while i < v.len()
                invariant
                    i <= v@.len(),
                    ls@.len() == i,
                    forall|j: int| 0 <= j < i ==> (#[trigger] ls@[j])@ == v@[j]@,
                decreases v@.len() - i,
            {
                ls.push(v[i].clone());
                i = i + 1;
            }
            Ok(ExprF::Projection(x2, ls))
        },
        ExprF::Embed(x) => Ok(ExprF::Embed(apply_embed(x, visit_embed)?)),
    }
}

/// `sub_traverse_embed` under an option.
fn opt_traverse_embed<N: Clone, E, E2, Er, F: Fn(&E) -> Result<E2, Er>>(
    v: &Option<SubExpr<N, E>>,
    visit_embed: &F,
) -> (r: Result<Option<SubExpr<N, E2>>, Er>)
    requires
        forall|x: E| call_requires(*visit_embed, (&x,)),
    ensures
        r matches Ok(out) ==> same_sub_opt(
            *v,
            out,
            (|x, y| call_ensures(*visit_embed, (&x,), Ok(y))),
        ),
        r matches Err(e) ==> exists|a: (&E,)| #[trigger] call_ensures(*visit_embed, a, Err(e)),
        (forall|a: (&E,), er: Er| !call_ensures(*visit_embed, a, Err(er))) ==> r is Ok,
    decreases *v, 2int,
{
    match v {
        None => Ok(None),
        Some(x) => Ok(Some(sub_traverse_embed(x, visit_embed)?)),
    }
}

/// `sub_traverse_embed` over each element.
fn vec_traverse_embed<N: Clone, E, E2, Er, F: Fn(&E) -> Result<E2, Er>>(
    v: &Vec<SubExpr<N, E>>,
    visit_embed: &F,
) -> (r: Result<Vec<SubExpr<N, E2>>, Er>)
    requires
        forall|x: E| call_requires(*visit_embed, (&x,)),
    ensures
        r matches Ok(out) ==> same_subs(v@, out@, (|x, y| call_ensures(*visit_embed, (&x,), Ok(y)))),
        r matches Err(e) ==> exists|a: (&E,)| #[trigger] call_ensures(*visit_embed, a, Err(e)),
        (forall|a: (&E,), er: Er| !call_ensures(*visit_embed, a, Err(er))) ==> r is Ok,
    decreases v@, 2int,
{
    let mut out: Vec<SubExpr<N, E2>> = Vec::new();
    let mut i: usize = 0;
    while i < v.len()
        invariant
            i <= v@.len(),
            out@.len() == i,
            forall|x: E| call_requires(*visit_embed, (&x,)),
            forall|j: int|
                0 <= j < i ==> same_sub(
                    #[trigger] v@[j],
                    out@[j],
                    (|x, y| call_ensures(*visit_embed, (&x,), Ok(y))),
                ),
        decreases v@.len() - i,
    {
        out.push(sub_traverse_embed(&v[i], visit_embed)?);
        i = i + 1;
    }
    Ok(out)
}

/// `sub_traverse_embed` over each row value, cloning the keys.
fn rows_traverse_embed<N: Clone, E, E2, Er, F: Fn(&E) -> Result<E2, Er>>(
    v: &Vec<(Label, SubExpr<N, E>)>,
    visit_embed: &F,
) -> (r: Result<Vec<(Label, SubExpr<N, E2>)>, Er>)
    requires
        forall|x: E| call_requires(*visit_embed, (&x,)),
    ensures
        r matches Ok(out) ==> same_rows(v@, out@, (|x, y| call_ensures(*visit_embed, (&x,), Ok(y)))),
        r matches Err(e) ==> exists|a: (&E,)| #[trigger] call_ensures(*visit_embed, a, Err(e)),
        (forall|a: (&E,), er: Er| !call_ensures(*visit_embed, a, Err(er))) ==> r is Ok,
    decreases v@, 2int,
{
    let mut out: Vec<(Label, SubExpr<N, E2>)> = Vec::new();
    let mut i: usize = 0;
    while i < v.len()
        invariant
            i <= v@.len(),
            out@.len() == i,
            forall|x: E| call_requires(*visit_embed, (&x,)),
            forall|j: int|
                0 <= j < i ==> (#[trigger] out@[j]).0@ == v@[j].0@ && same_sub(
                    v@[j].1,
                    out@[j].1,
                    (|x, y| call_ensures(*visit_embed, (&x,), Ok(y))),
                ),
        decreases v@.len() - i,
    {
        let val = sub_traverse_embed(&v[i].1, visit_embed)?;
        out.push((v[i].0.clone(), val));
        i = i + 1;
    }
    Ok(out)
}

/// `sub_traverse_embed` over each optional alternative value, cloning keys.
fn alts_traverse_embed<N: Clone, E, E2, Er, F: Fn(&E) -> Result<E2, Er>>(
    v: &Vec<(Label, Option<SubExpr<N, E>>)>,
    visit_embed: &F,
) -> (r: Result<Vec<(Label, Option<SubExpr<N, E2>>)>, Er>)
    requires
        forall|x: E| call_requires(*visit_embed, (&x,)),
    ensures
        r matches Ok(out) ==> same_alts(v@, out@, (|x, y| call_ensures(*visit_embed, (&x,), Ok(y)))),
        r matches Err(e) ==> exists|a: (&E,)| #[trigger] call_ensures(*visit_embed, a, Err(e)),
        (forall|a: (&E,), er: Er| !call_ensures(*visit_embed, a, Err(er))) ==> r is Ok,
    decreases v@, 2int,
{
    let mut out: Vec<(Label, Option<SubExpr<N, E2>>)> = Vec::new();
    let mut i: usize = 0;
    while i < v.len()
        invariant
            i <= v@.len(),
            out@.len() == i,
            forall|x: E| call_requires(*visit_embed, (&x,)),
            forall|j: int|
                0 <= j < i ==> (#[trigger] out@[j]).0@ == v@[j].0@ && same_sub_opt(
                    v@[j].1,
                    out@[j].1,
                    (|x, y| call_ensures(*visit_embed, (&x,), Ok(y))),
                ),
        decreases v@.len() - i,
    {
        let val = match &v[i].1 {
            None => None,
            Some(x) => Some(sub_traverse_embed(x, visit_embed)?),
        };
        out.push((v[i].0.clone(), val));
        i = i + 1;
    }
    Ok(out)
}

/// `sub_traverse_embed` over each interpolated expression, keeping fragments.
fn text_traverse_embed<N: Clone, E, E2, Er, F: Fn(&E) -> Result<E2, Er>>(
    t: &InterpolatedText<SubExpr<N, E>>,
    visit_embed: &F,
) -> (r: Result<InterpolatedText<SubExpr<N, E2>>, Er>)
    requires
        forall|x: E| call_requires(*visit_embed, (&x,)),
    ensures
        r matches Ok(out) ==> same_text(*t, out, (|x, y| call_ensures(*visit_embed, (&x,), Ok(y)))),
        r matches Err(e) ==> exists|a: (&E,)| #[trigger] call_ensures(*visit_embed, a, Err(e)),
        (forall|a: (&E,), er: Er| !call_ensures(*visit_embed, a, Err(er))) ==> r is Ok,
    decreases *t, 2int,
{
    let head = t.head.clone();
    let mut tail: Vec<(SubExpr<N, E2>, String)> = Vec::new();
    let mut i: usize = 0;
    while i < t.tail.len()
        invariant
            i <= t.tail@.len(),
            tail@.len() == i,
            forall|x: E| call_requires(*visit_embed, (&x,)),
            forall|j: int|
                0 <= j < i ==> same_sub(
                    t.tail@[j].0,
                    (#[trigger] tail@[j]).0,
                    (|x, y| call_ensures(*visit_embed, (&x,), Ok(y))),
                ) && tail@[j].1@ == t.tail@[j].1@,
        decreases t.tail@.len() - i,
    {
        let e2 = sub_traverse_embed(&t.tail[i].0, visit_embed)?;
        tail.push((e2, t.tail[i].1.clone()));
        i = i + 1;
    }
    let out = InterpolatedText { head, tail };
    proof {
        assert(same_text(*t, out, (|x, y| call_ensures(*visit_embed, (&x,), Ok(y)))));
    }
    Ok(out)
}

} // verus!

verus! {


/// Clones a run of labels.
fn labels_cloned(v: &Vec<Label>) -> (r: Vec<Label>)
    ensures
        crate::eq::same_label_seq(v@, r@),
{
    let mut out: Vec<Label> = Vec::new();
    let mut i: usize = 0;
    while i < v.len()
        invariant
            i <= v@.len(),
            out@.len() == i,
            forall|j: int| 0 <= j < i ==> (#[trigger] out@[j])@ == v@[j]@,
        decreases v@.len() - i,
    {
        out.push(v[i].clone());
        i = i + 1;
    }
    out
}

/// Converts a tree with no notes and no embedded payloads to any other
/// note and embed types: the conversion never meets an `Embed` node, which
/// also shows that no resolved tree holds one.
pub fn sub_absurd<N2, E2>(e: &SubExpr<X, X>) -> (r: SubExpr<N2, E2>)
    ensures
        same_sub(*e, r, (|x: X, y: E2| false)),
        same_sub(*e, *e, (|x: X, y: X| false)),
        r.spec_note() is None,
    decreases *e, 1int,
{
    Noted::from_expr_no_note(exprf_absurd(e.as_ref()))
}

/// As `sub_absurd`, on a bare expression layer.
pub fn exprf_absurd<N2, E2>(e: &ExprF<X, X>) -> (r: ExprF<N2, E2>)
    ensures
        same_expr(*e, r, (|x: X, y: E2| false)),
        same_expr(*e, *e, (|x: X, y: X| false)),
    decreases *e, 0int,
{
    match e {
        ExprF::Const(c) => ExprF::Const(*c),
        ExprF::Var(v) => ExprF::Var(v.clone()),
        ExprF::Lam(l, t, b) => ExprF::Lam(l.clone(), sub_absurd(t), sub_absurd(b)),
        ExprF::Pi(l, t, b) => ExprF::Pi(l.clone(), sub_absurd(t), sub_absurd(b)),
        ExprF::App(f, a) => ExprF::App(sub_absurd(f), sub_absurd(a)),
        ExprF::Let(l, t, v, b) => ExprF::Let(l.clone(), opt_absurd(t), sub_absurd(v), sub_absurd(b)),
        ExprF::Annot(x, t) => ExprF::Annot(sub_absurd(x), sub_absurd(t)),
        ExprF::Builtin(b) => ExprF::Builtin(*b),
        ExprF::BinOp(o, x, y) => ExprF::BinOp(*o, sub_absurd(x), sub_absurd(y)),
        ExprF::BoolLit(b) => ExprF::BoolLit(*b),
        ExprF::BoolIf(c, t, e2) => ExprF::BoolIf(sub_absurd(c), sub_absurd(t), sub_absurd(e2)),
        ExprF::NaturalLit(n) => ExprF::NaturalLit(*n),
        ExprF::IntegerLit(n) => ExprF::IntegerLit(*n),
        ExprF::DoubleLit(d) => ExprF::DoubleLit(*d),
        ExprF::TextLit(t) => ExprF::TextLit(text_absurd(t)),
        ExprF::EmptyListLit(t) => ExprF::EmptyListLit(sub_absurd(t)),
        ExprF::NEListLit(v) => ExprF::NEListLit(vec_absurd(v)),
        ExprF::OldOptionalLit(x, t) => ExprF::OldOptionalLit(opt_absurd(x), sub_absurd(t)),
        ExprF::SomeLit(x) => ExprF::SomeLit(sub_absurd(x)),
        ExprF::RecordType(v) => ExprF::RecordType(rows_absurd(v)),
        ExprF::RecordLit(v) => ExprF::RecordLit(rows_absurd(v)),
        ExprF::UnionType(v) => ExprF::UnionType(alts_absurd(v)),
        ExprF::UnionLit(l, x, v) => ExprF::UnionLit(l.clone(), sub_absurd(x), alts_absurd(v)),
        ExprF::Merge(x, y, t) => ExprF::Merge(sub_absurd(x), sub_absurd(y), opt_absurd(t)),
        ExprF::Field(x, l) => ExprF::Field(sub_absurd(x), l.clone()),
        ExprF::Projection(x, v) => ExprF::Projection(sub_absurd(x), labels_cloned(v)),
        ExprF::Embed(x) => {
            proof {
                use_type_invariant(x);
            }
            vstd::pervasive::unreached()
        },
    }
}

fn opt_absurd<N2, E2>(v: &Option<SubExpr<X, X>>) -> (r: Option<SubExpr<N2, E2>>)
    ensures
        same_sub_opt(*v, r, (|x: X, y: E2| false)),
        same_sub_opt(*v, *v, (|x: X, y: X| false)),
    decreases *v, 2int,
{
    match v {
        None => None,
        Some(x) => Some(sub_absurd(x)),
    }
}

fn vec_absurd<N2, E2>(v: &Vec<SubExpr<X, X>>) -> (r: Vec<SubExpr<N2, E2>>)
    ensures
        same_subs(v@, r@, (|x: X, y: E2| false)),
        same_subs(v@, v@, (|x: X, y: X| false)),
    decreases v@, 2int,
{
    let mut out: Vec<SubExpr<N2, E2>> = Vec::new();
    let mut i: usize = 0;
    while i < v.len()
        invariant
            i <= v@.len(),
            out@.len() == i,
            forall|j: int| 0 <= j < i ==> same_sub(#[trigger] v@[j], out@[j], (|x: X, y: E2| false)),
            forall|j: int| 0 <= j < i ==> same_sub(#[trigger] v@[j], v@[j], (|x: X, y: X| false)),
        decreases v@.len() - i,
    {
        out.push(sub_absurd(&v[i]));
        i = i + 1;
    }
    out
}

fn rows_absurd<N2, E2>(v: &Vec<(Label, SubExpr<X, X>)>) -> (r: Vec<(Label, SubExpr<N2, E2>)>)
    ensures
        same_rows(v@, r@, (|x: X, y: E2| false)),
        same_rows(v@, v@, (|x: X, y: X| false)),
    decreases v@, 2int,
{
    let mut out: Vec<(Label, SubExpr<N2, E2>)> = Vec::new();
    let mut i: usize = 0;
    while i < v.len()
        invariant
            i <= v@.len(),
            out@.len() == i,
            forall|j: int|
                0 <= j < i ==> (#[trigger] out@[j]).0@ == v@[j].0@ && same_sub(
                    v@[j].1,
                    out@[j].1,
                    (|x: X, y: E2| false),
                ),
            forall|j: int|
                0 <= j < i ==> same_sub(v@[j].1, (#[trigger] v@[j]).1, (|x: X, y: X| false)),
        decreases v@.len() - i,
    {
        let val = sub_absurd(&v[i].1);
        out.push((v[i].0.clone(), val));
        i = i + 1;
    }
    out
}

fn alts_absurd<N2, E2>(v: &Vec<(Label, Option<SubExpr<X, X>>)>) -> (r: Vec<(
    Label,
    Option<SubExpr<N2, E2>>,
)>)
    ensures
        same_alts(v@, r@, (|x: X, y: E2| false)),
        same_alts(v@, v@, (|x: X, y: X| false)),
    decreases v@, 2int,
{
    let mut out: Vec<(Label, Option<SubExpr<N2, E2>>)> = Vec::new();
    let mut i: usize = 0;
    while i < v.len()
        invariant
            i <= v@.len(),
            out@.len() == i,
            forall|j: int|
                0 <= j < i ==> (#[trigger] out@[j]).0@ == v@[j].0@ && same_sub_opt(
                    v@[j].1,
                    out@[j].1,
                    (|x: X, y: E2| false),
                ),
            forall|j: int|
                0 <= j < i ==> same_sub_opt(v@[j].1, (#[trigger] v@[j]).1, (|x: X, y: X| false)),
        decreases v@.len() - i,
    {
        let val = match &v[i].1 {
            None => None,
            Some(x) => Some(sub_absurd(x)),
        };
        out.push((v[i].0.clone(), val));
        i = i + 1;
    }
    out
}

fn text_absurd<N2, E2>(t: &InterpolatedText<SubExpr<X, X>>) -> (r: InterpolatedText<SubExpr<N2, E2>>)
    ensures
        same_text(*t, r, (|x: X, y: E2| false)),
        same_text(*t, *t, (|x: X, y: X| false)),
    decreases *t, 2int,
{
    let head = t.head.clone();
    let mut tail: Vec<(SubExpr<N2, E2>, String)> = Vec::new();
    let mut i: usize = 0;
    while i < t.tail.len()
        invariant
            i <= t.tail@.len(),
            tail@.len() == i,
            forall|j: int|
                0 <= j < i ==> same_sub(t.tail@[j].0, (#[trigger] tail@[j]).0, (|x: X, y: E2| false))
                    && tail@[j].1@ == t.tail@[j].1@,
            forall|j: int|
                0 <= j < i ==> same_sub((#[trigger] t.tail@[j]).0, t.tail@[j].0, (|x: X, y: X| false)),
        decreases t.tail@.len() - i,
    {
        let e2 = sub_absurd(&t.tail[i].0);
        tail.push((e2, t.tail[i].1.clone()));
        i = i + 1;
    }
    let out = InterpolatedText { head, tail };
    proof {
        assert(same_text(*t, out, (|x: X, y: E2| false)));
    }
    out
}

/// Converts a tree with no notes to any note type, cloning the embedded
/// payloads: the conversion never meets a note.
pub fn sub_note_absurd<N2, E: Clone>(e: &SubExpr<X, E>) -> (r: SubExpr<N2, E>)
    ensures
        same_sub(*e, r, (|x: E, y: E| cloned::<E>(x, y))),
        r.spec_note() is None,
    decreases *e, 1int,
{
    Noted::from_expr_no_note(exprf_note_absurd(e.as_ref()))
}

/// As `sub_note_absurd`, on a bare expression layer.
pub fn exprf_note_absurd<N2, E: Clone>(e: &ExprF<X, E>) -> (r: ExprF<N2, E>)
    ensures
        same_expr(*e, r, (|x: E, y: E| cloned::<E>(x, y))),
    decreases *e, 0int,
{
    match e {
        ExprF::Const(c) => ExprF::Const(*c),
        ExprF::Var(v) => ExprF::Var(v.clone()),
        ExprF::Lam(l, t, b) => ExprF::Lam(l.clone(), sub_note_absurd(t), sub_note_absurd(b)),
        ExprF::Pi(l, t, b) => ExprF::Pi(l.clone(), sub_note_absurd(t), sub_note_absurd(b)),
        ExprF::App(f, a) => ExprF::App(sub_note_absurd(f), sub_note_absurd(a)),
        ExprF::Let(l, t, v, b) => ExprF::Let(l.clone(), opt_note_absurd(t), sub_note_absurd(v), sub_note_absurd(b)),
        ExprF::Annot(x, t) => ExprF::Annot(sub_note_absurd(x), sub_note_absurd(t)),
        ExprF::Builtin(b) => ExprF::Builtin(*b),
        ExprF::BinOp(o, x, y) => ExprF::BinOp(*o, sub_note_absurd(x), sub_note_absurd(y)),
        ExprF::BoolLit(b) => ExprF::BoolLit(*b),
        ExprF::BoolIf(c, t, e2) => ExprF::BoolIf(sub_note_absurd(c), sub_note_absurd(t), sub_note_absurd(e2)),
        ExprF::NaturalLit(n) => ExprF::NaturalLit(*n),
        ExprF::IntegerLit(n) => ExprF::IntegerLit(*n),
        ExprF::DoubleLit(d) => ExprF::DoubleLit(*d),
        ExprF::TextLit(t) => ExprF::TextLit(text_note_absurd(t)),
        ExprF::EmptyListLit(t) => ExprF::EmptyListLit(sub_note_absurd(t)),
        ExprF::NEListLit(v) => ExprF::NEListLit(vec_note_absurd(v)),
        ExprF::OldOptionalLit(x, t) => ExprF::OldOptionalLit(opt_note_absurd(x), sub_note_absurd(t)),
        ExprF::SomeLit(x) => ExprF::SomeLit(sub_note_absurd(x)),
        ExprF::RecordType(v) => ExprF::RecordType(rows_note_absurd(v)),
        ExprF::RecordLit(v) => ExprF::RecordLit(rows_note_absurd(v)),
        ExprF::UnionType(v) => ExprF::UnionType(alts_note_absurd(v)),
        ExprF::UnionLit(l, x, v) => ExprF::UnionLit(l.clone(), sub_note_absurd(x), alts_note_absurd(v)),
        ExprF::Merge(x, y, t) => ExprF::Merge(sub_note_absurd(x), sub_note_absurd(y), opt_note_absurd(t)),
        ExprF::Field(x, l) => ExprF::Field(sub_note_absurd(x), l.clone()),
        ExprF::Projection(x, v) => ExprF::Projection(sub_note_absurd(x), labels_cloned(v)),
        ExprF::Embed(x) => ExprF::Embed(x.clone()),
    }
}

fn opt_note_absurd<N2, E: Clone>(v: &Option<SubExpr<X, E>>) -> (r: Option<SubExpr<N2, E>>)
    ensures
        same_sub_opt(*v, r, (|x: E, y: E| cloned::<E>(x, y))),
    decreases *v, 2int,
{
    match v {
        None => None,
        Some(x) => Some(sub_note_absurd(x)),
    }
}

fn vec_note_absurd<N2, E: Clone>(v: &Vec<SubExpr<X, E>>) -> (r: Vec<SubExpr<N2, E>>)
    ensures
        same_subs(v@, r@, (|x: E, y: E| cloned::<E>(x, y))),
    decreases v@, 2int,
{
    let mut out: Vec<SubExpr<N2, E>> = Vec::new();
    let mut i: usize = 0;
    while i < v.len()
        invariant
            i <= v@.len(),
            out@.len() == i,
            forall|j: int| 0 <= j < i ==> same_sub(#[trigger] v@[j], out@[j], (|x: E, y: E| cloned::<E>(x, y))),
        decreases v@.len() - i,
    {
        out.push(sub_note_absurd(&v[i]));
        i = i + 1;
    }
    out
}

fn rows_note_absurd<N2, E: Clone>(v: &Vec<(Label, SubExpr<X, E>)>) -> (r: Vec<(Label, SubExpr<N2, E>)>)
    ensures
        same_rows(v@, r@, (|x: E, y: E| cloned::<E>(x, y))),
    decreases v@, 2int,
{
    let mut out: Vec<(Label, SubExpr<N2, E>)> = Vec::new();
    let mut i: usize = 0;
    while i < v.len()
        invariant
            i <= v@.len(),
            out@.len() == i,
            forall|j: int|
                0 <= j < i ==> (#[trigger] out@[j]).0@ == v@[j].0@ && same_sub(
                    v@[j].1,
                    out@[j].1,
                    (|x: E, y: E| cloned::<E>(x, y)),
                ),
        decreases v@.len() - i,
    {
        let val = sub_note_absurd(&v[i].1);
        out.push((v[i].0.clone(), val));
        i = i + 1;
    }
    out
}

fn alts_note_absurd<N2, E: Clone>(v: &Vec<(Label, Option<SubExpr<X, E>>)>) -> (r: Vec<(
    Label,
    Option<SubExpr<N2, E>>,
)>)
    ensures
        same_alts(v@, r@, (|x: E, y: E| cloned::<E>(x, y))),
    decreases v@, 2int,
{
    let mut out: Vec<(Label, Option<SubExpr<N2, E>>)> = Vec::new();
    let mut i: usize = 0;
    while i < v.len()
        invariant
            i <= v@.len(),
            out@.len() == i,
            forall|j: int|
                0 <= j < i ==> (#[trigger] out@[j]).0@ == v@[j].0@ && same_sub_opt(
                    v@[j].1,
                    out@[j].1,
                    (|x: E, y: E| cloned::<E>(x, y)),
                ),
        decreases v@.len() - i,
    {
        let val = match &v[i].1 {
            None => None,
            Some(x) => Some(sub_note_absurd(x)),
        };
        out.push((v[i].0.clone(), val));
        i = i + 1;
    }
    out
}

fn text_note_absurd<N2, E: Clone>(t: &InterpolatedText<SubExpr<X, E>>) -> (r: InterpolatedText<SubExpr<N2, E>>)
    ensures
        same_text(*t, r, (|x: E, y: E| cloned::<E>(x, y))),
    decreases *t, 2int,
{
    let head = t.head.clone();
    let mut tail: Vec<(SubExpr<N2, E>, String)> = Vec::new();
    let mut i: usize = 0;
    while i < t.tail.len()
        invariant
            i <= t.tail@.len(),
            tail@.len() == i,
            forall|j: int|
                0 <= j < i ==> same_sub(t.tail@[j].0, (#[trigger] tail@[j]).0, (|x: E, y: E| cloned::<E>(x, y)))
                    && tail@[j].1@ == t.tail@[j].1@,
        decreases t.tail@.len() - i,
    {
        let e2 = sub_note_absurd(&t.tail[i].0);
        tail.push((e2, t.tail[i].1.clone()));
        i = i + 1;
    }
    let out = InterpolatedText { head, tail };
    proof {
        assert(same_text(*t, out, (|x: E, y: E| cloned::<E>(x, y))));
    }
    out
}

} // verus!

verus! {

/// A structural-equality relation stays true when the embed comparison is
/// weakened pointwise.
pub proof fn lemma_same_sub_mono<N1, E1, N2, E2>(
    a: SubExpr<N1, E1>,
    b: SubExpr<N2, E2>,
    f: spec_fn(E1, E2) -> bool,
    g: spec_fn(E1, E2) -> bool,
)
    requires
        same_sub(a, b, f),
        forall|x: E1, y: E2| #[trigger] f(x, y) ==> g(x, y),
    ensures
        same_sub(a, b, g),
    decreases a, 1int,
{
    lemma_same_expr_mono(a.spec_expr(), b.spec_expr(), f, g);
}

/// As `lemma_same_sub_mono`, on a bare expression layer.
pub proof fn lemma_same_expr_mono<N1, E1, N2, E2>(
    a: ExprF<N1, E1>,
    b: ExprF<N2, E2>,
    f: spec_fn(E1, E2) -> bool,
    g: spec_fn(E1, E2) -> bool,
)
    requires
        same_expr(a, b, f),
        forall|x: E1, y: E2| #[trigger] f(x, y) ==> g(x, y),
    ensures
        same_expr(a, b, g),
    decreases a, 0int,
{
    match (a, b) {
        (ExprF::Lam(la, ta, ba), ExprF::Lam(lb, tb, bb)) => {
            lemma_same_sub_mono(ta, tb, f, g);
            lemma_same_sub_mono(ba, bb, f, g);
        },
        (ExprF::Pi(la, ta, ba), ExprF::Pi(lb, tb, bb)) => {
            lemma_same_sub_mono(ta, tb, f, g);
            lemma_same_sub_mono(ba, bb, f, g);
        },
        (ExprF::App(fa, aa), ExprF::App(fb, ab)) => {
            lemma_same_sub_mono(fa, fb, f, g);
            lemma_same_sub_mono(aa, ab, f, g);
        },
        (ExprF::Let(la, ta, ra, ba), ExprF::Let(lb, tb, rb, bb)) => {
            lemma_same_sub_opt_mono(ta, tb, f, g);
            lemma_same_sub_mono(ra, rb, f, g);
            lemma_same_sub_mono(ba, bb, f, g);
        },
        (ExprF::Annot(xa, ta), ExprF::Annot(xb, tb)) => {
            lemma_same_sub_mono(xa, xb, f, g);
            lemma_same_sub_mono(ta, tb, f, g);
        },
        (ExprF::BinOp(oa, la, ra), ExprF::BinOp(ob, lb, rb)) => {
            lemma_same_sub_mono(la, lb, f, g);
            lemma_same_sub_mono(ra, rb, f, g);
        },
        (ExprF::BoolIf(ca, ta, ea), ExprF::BoolIf(cb, tb, eb)) => {
            lemma_same_sub_mono(ca, cb, f, g);
            lemma_same_sub_mono(ta, tb, f, g);
            lemma_same_sub_mono(ea, eb, f, g);
        },
        (ExprF::TextLit(ta), ExprF::TextLit(tb)) => {
            lemma_same_text_mono(ta, tb, f, g);
        },
        (ExprF::EmptyListLit(ta), ExprF::EmptyListLit(tb)) => {
            lemma_same_sub_mono(ta, tb, f, g);
        },
        (ExprF::NEListLit(va), ExprF::NEListLit(vb)) => {
            lemma_same_subs_mono(va@, vb@, f, g);
        },
        (ExprF::OldOptionalLit(xa, ta), ExprF::OldOptionalLit(xb, tb)) => {
            lemma_same_sub_opt_mono(xa, xb, f, g);
            lemma_same_sub_mono(ta, tb, f, g);
        },
        (ExprF::SomeLit(xa), ExprF::SomeLit(xb)) => {
            lemma_same_sub_mono(xa, xb, f, g);
        },
        (ExprF::RecordType(va), ExprF::RecordType(vb)) => {
            lemma_same_rows_mono(va@, vb@, f, g);
        },
        (ExprF::RecordLit(va), ExprF::RecordLit(vb)) => {
            lemma_same_rows_mono(va@, vb@, f, g);
        },
        (ExprF::UnionType(va), ExprF::UnionType(vb)) => {
            lemma_same_alts_mono(va@, vb@, f, g);
        },
        (ExprF::UnionLit(la, xa, va), ExprF::UnionLit(lb, xb, vb)) => {
            lemma_same_sub_mono(xa, xb, f, g);
            lemma_same_alts_mono(va@, vb@, f, g);
        },
        (ExprF::Merge(xa, ya, ta), ExprF::Merge(xb, yb, tb)) => {
            lemma_same_sub_mono(xa, xb, f, g);
            lemma_same_sub_mono(ya, yb, f, g);
            lemma_same_sub_opt_mono(ta, tb, f, g);
        },
        (ExprF::Field(xa, la), ExprF::Field(xb, lb)) => {
            lemma_same_sub_mono(xa, xb, f, g);
        },
        (ExprF::Projection(xa, va), ExprF::Projection(xb, vb)) => {
            lemma_same_sub_mono(xa, xb, f, g);
        },
        _ => {},
    }
}

proof fn lemma_same_sub_opt_mono<N1, E1, N2, E2>(
    a: Option<SubExpr<N1, E1>>,
    b: Option<SubExpr<N2, E2>>,
    f: spec_fn(E1, E2) -> bool,
    g: spec_fn(E1, E2) -> bool,
)
    requires
        same_sub_opt(a, b, f),
        forall|x: E1, y: E2| #[trigger] f(x, y) ==> g(x, y),
    ensures
        same_sub_opt(a, b, g),
    decreases a, 2int,
{
    match (a, b) {
        (Some(x), Some(y)) => {
            lemma_same_sub_mono(x, y, f, g);
        },
        _ => {},
    }
}

proof fn lemma_same_subs_mono<N1, E1, N2, E2>(
    a: Seq<SubExpr<N1, E1>>,
    b: Seq<SubExpr<N2, E2>>,
    f: spec_fn(E1, E2) -> bool,
    g: spec_fn(E1, E2) -> bool,
)
    requires
        same_subs(a, b, f),
        forall|x: E1, y: E2| #[trigger] f(x, y) ==> g(x, y),
    ensures
        same_subs(a, b, g),
    decreases a, 2int,
{
    assert forall|i: int| 0 <= i < a.len() implies same_sub(#[trigger] a[i], b[i], g) by {
        lemma_same_sub_mono(a[i], b[i], f, g);
    }
}

proof fn lemma_same_rows_mono<N1, E1, N2, E2>(
    a: Seq<(Label, SubExpr<N1, E1>)>,
    b: Seq<(Label, SubExpr<N2, E2>)>,
    f: spec_fn(E1, E2) -> bool,
    g: spec_fn(E1, E2) -> bool,
)
    requires
        same_rows(a, b, f),
        forall|x: E1, y: E2| #[trigger] f(x, y) ==> g(x, y),
    ensures
        same_rows(a, b, g),
    decreases a, 2int,
{
    assert forall|i: int|
        0 <= i < a.len() implies (#[trigger] a[i]).0@ == b[i].0@ && same_sub(
        a[i].1,
        b[i].1,
        g,
    ) by {
        lemma_same_sub_mono(a[i].1, b[i].1, f, g);
    }
}

proof fn lemma_same_alts_mono<N1, E1, N2, E2>(
    a: Seq<(Label, Option<SubExpr<N1, E1>>)>,
    b: Seq<(Label, Option<SubExpr<N2, E2>>)>,
    f: spec_fn(E1, E2) -> bool,
    g: spec_fn(E1, E2) -> bool,
)
    requires
        same_alts(a, b, f),
        forall|x: E1, y: E2| #[trigger] f(x, y) ==> g(x, y),
    ensures
        same_alts(a, b, g),
    decreases a, 2int,
{
    assert forall|i: int|
        0 <= i < a.len() implies (#[trigger] a[i]).0@ == b[i].0@ && same_sub_opt(
        a[i].1,
        b[i].1,
        g,
    ) by {
        lemma_same_sub_opt_mono(a[i].1, b[i].1, f, g);
    }
}

proof fn lemma_same_text_mono<N1, E1, N2, E2>(
    a: InterpolatedText<SubExpr<N1, E1>>,
    b: InterpolatedText<SubExpr<N2, E2>>,
    f: spec_fn(E1, E2) -> bool,
    g: spec_fn(E1, E2) -> bool,
)
    requires
        same_text(a, b, f),
        forall|x: E1, y: E2| #[trigger] f(x, y) ==> g(x, y),
    ensures
        same_text(a, b, g),
    decreases a, 2int,
{
    assert forall|i: int|
        0 <= i < a.tail@.len() implies same_sub(#[trigger] a.tail@[i].0, b.tail@[i].0, g)
        && a.tail@[i].1@ == b.tail@[i].1@ by {
        lemma_same_sub_mono(a.tail@[i].0, b.tail@[i].0, f, g);
    }
}

} // verus!

verus! {

impl<N: Clone, E> Noted<N, ExprF<N, E>> {
    /// Applies `visit_embed` to every embedded payload of the tree, keeping
    /// everything else, and stopping at the first error.
    pub fn traverse_embed<E2, Er, F: Fn(&E) -> Result<E2, Er>>(&self, visit_embed: &F) -> (r:
        Result<SubExpr<N, E2>, Er>)
        requires
            forall|x: E| call_requires(*visit_embed, (&x,)),
        ensures
            r matches Ok(out) ==> same_sub(
                *self,
                out,
                (|x, y| call_ensures(*visit_embed, (&x,), Ok(y))),
            ),
            r matches Ok(out) ==> ((out.spec_note() is Some <==> self.spec_note() is Some) && (
            self.spec_note() matches Some(o) ==> (out.spec_note() matches Some(m) && cloned::<
                N,
            >(o, m)))),
            r matches Err(e) ==> exists|a: (&E,)| #[trigger] call_ensures(*visit_embed, a, Err(e)),
        (forall|a: (&E,), er: Er| !call_ensures(*visit_embed, a, Err(er))) ==> r is Ok,
    {
        sub_traverse_embed(self, visit_embed)
    }

    /// Applies the infallible `map_embed` to every embedded payload.
    pub fn map_embed<E2, F: Fn(&E) -> E2>(&self, map_embed: &F) -> (r: SubExpr<N, E2>)
        requires
            forall|x: E| call_requires(*map_embed, (&x,)),
        ensures
            same_sub(*self, r, (|x, y| call_ensures(*map_embed, (&x,), y))),
            (r.spec_note() is Some <==> self.spec_note() is Some) && (self.spec_note()
                matches Some(o) ==> (r.spec_note() matches Some(m) && cloned::<N>(o, m))),
    {
        let ve = |x: &E| -> (res: Result<E2, X>)
            requires
                call_requires(map_embed, (x,)),
            ensures
                res matches Ok(y) && call_ensures(map_embed, (x,), y),
            { Ok(map_embed(x)) };
        let out = crate::trivial_result(sub_traverse_embed(self, &ve));
        proof {
            lemma_same_sub_mono(
                *self,
                out,
                (|x, y| call_ensures(ve, (&x,), Ok(y))),
                (|x, y| call_ensures(*map_embed, (&x,), y)),
            );
        }
        out
    }
}

impl<N: Clone, E: Clone> Noted<N, ExprF<N, E>> {
    /// Reshapes the sub-expressions one layer deep, telling the callback for
    /// the one governed by a fresh binder apart; a bare embedded payload is
    /// shared unchanged.
    pub fn map_subexprs_with_special_handling_of_binders<F1, F2>(
        &self,
        map_expr: &F1,
        map_under_binder: &F2,
    ) -> (r: SubExpr<N, E>) where
        F1: Fn(&SubExpr<N, E>) -> SubExpr<N, E>,
        F2: Fn(&Label, &SubExpr<N, E>) -> SubExpr<N, E>,

        requires
            forall|x: SubExpr<N, E>| call_requires(*map_expr, (&x,)),
            forall|l: Label, x: SubExpr<N, E>| call_requires(*map_under_binder, (&l, &x)),
        ensures
            self.spec_expr() is Embed ==> r == *self,
            (r.spec_note() is Some <==> self.spec_note() is Some) && (self.spec_note()
                matches Some(o) ==> (r.spec_note() matches Some(m) && cloned::<N>(o, m))),
            !(self.spec_expr() is Embed) ==> crate::visitor::one_layer_rel(
                self.spec_expr(),
                r.spec_expr(),
                (|x, y| call_ensures(*map_expr, (&x,), y)),
                (|l, x, y| call_ensures(*map_under_binder, (&l, &x), y)),
                (|e: E, e2: E| cloned::<E>(e, e2)),
                (|l: Label, m: Label| m == l),
            ),
    {
        match self.as_ref() {
            ExprF::Embed(_) => self.clone(),
            _ => {
                let ve = |e: &E| -> (res: E)
                    ensures
                        cloned::<E>(*e, res),
                    { e.clone() };
                let vl = |l: &Label| -> (res: Label)
                    ensures
                        res == *l,
                    { l.clone() };
                let inner = self.as_ref().map_ref_with_special_handling_of_binders(
                    map_expr,
                    map_under_binder,
                    &ve,
                    &vl,
                );
                proof {
                    crate::visitor::lemma_one_layer_rel_mono(
                        self.spec_expr(),
                        inner,
                        (|x, y| call_ensures(*map_expr, (&x,), y)),
                        (|l, x, y| call_ensures(*map_under_binder, (&l, &x), y)),
                        (|e: E, e2: E| call_ensures(ve, (&e,), e2)),
                        (|l: Label, m: Label| call_ensures(vl, (&l,), m)),
                        (|x, y| call_ensures(*map_expr, (&x,), y)),
                        (|l, x, y| call_ensures(*map_under_binder, (&l, &x), y)),
                        (|e: E, e2: E| cloned::<E>(e, e2)),
                        (|l: Label, m: Label| m == l),
                    );
                }
                self.rewrap(inner)
            },
        }
    }
}

impl Noted<X, ExprF<X, X>> {
    /// Converts a tree with no notes and no embedded payloads to any other
    /// note and embed types; the relation below says no `Embed` node stands
    /// on either side.
    pub fn absurd<N2, E2>(&self) -> (r: SubExpr<N2, E2>)
        ensures
            same_sub(*self, r, (|x: X, y: E2| false)),
            r.spec_note() is None,
    {
        sub_absurd(self)
    }
}

impl<E: Clone> Noted<X, ExprF<X, E>> {
    /// Converts a tree with no notes to any note type, cloning the embedded
    /// payloads.
    pub fn note_absurd<N2>(&self) -> (r: SubExpr<N2, E>)
        ensures
            same_sub(*self, r, (|x: E, y: E| cloned::<E>(x, y))),
            r.spec_note() is None,
    {
        sub_note_absurd(self)
    }
}

} // verus!

verus! {

/// Whether no `Embed` node stands anywhere in the tree: the tree relates to
/// itself even under the embed comparison nothing satisfies.
pub open spec fn no_embeds<N, E>(e: SubExpr<N, E>) -> bool {
    same_sub(e, e, (|x: E, y: E| false))
}

impl Noted<X, ExprF<X, X>> {
    /// A fully resolved tree holds no `Embed` node: walking it, as `absurd`
    /// does, never meets one.
    pub fn check_no_embeds(&self) -> (r: SubExpr<X, X>)
        ensures
            no_embeds(*self),
            same_sub(*self, r, (|x: X, y: X| false)),
    {
        sub_absurd(self)
    }
}

/// Stripping absent notes twice is the identity up to the type hole: the
/// composed result is structurally equal to the source, each payload a
/// clone of a clone.
pub proof fn lemma_note_absurd_twice<E: Clone, N2>(
    e: SubExpr<X, E>,
    mid: SubExpr<X, E>,
    out: SubExpr<N2, E>,
)
    requires
        same_sub(e, mid, (|x: E, y: E| cloned::<E>(x, y))),
        same_sub(mid, out, (|x: E, y: E| cloned::<E>(x, y))),
    ensures
        same_sub(
            e,
            out,
            (|x: E, z: E| exists|y: E| cloned::<E>(x, y) && cloned::<E>(y, z)),
        ),
{
    let f = (|x: E, y: E| cloned::<E>(x, y));
    let h = (|x: E, z: E| exists|y: E| cloned::<E>(x, y) && cloned::<E>(y, z));
    assert forall|x: E, y: E, z: E| #[trigger] f(x, y) && #[trigger] f(y, z) implies h(x, z) by {
        assert(cloned::<E>(x, y) && cloned::<E>(y, z));
    }
    crate::eq::lemma_same_sub_trans(e, mid, out, f, f, h);
}

} // verus!
