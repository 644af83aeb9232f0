//! One-layer traversals over the expression tree: each callback sees the
//! sub-expressions, the labels and the embedded payload of a single node, and
//! full-tree transformations compose by recursion at the call site.

use crate::expr::{ExprF, InterpolatedText, Label, SubExpr};
use crate::X;
use vstd::prelude::*;

verus! {

/// Whether `b` is `a` reshaped one layer deep: the same variant, every
/// sub-expression related by `fse` (or by `fb` where a fresh label is bound
/// over it), every embedded payload related by `fe`, and every label related
/// by `fl`. The binder positions are the λ-body, the Π-codomain and the
/// `let`-body. Record and union rows are related position by position: a
/// label callback that reorders names leaves the rows in their old order,
/// and the caller re-establishes the sorted-key invariant with the row
/// builder where it is needed.
pub open spec fn one_layer_rel<N, E, N2, E2>(
    a: ExprF<N, E>,
    b: ExprF<N2, E2>,
    fse: spec_fn(SubExpr<N, E>, SubExpr<N2, E2>) -> bool,
    fb: spec_fn(Label, SubExpr<N, E>, SubExpr<N2, E2>) -> bool,
    fe: spec_fn(E, E2) -> bool,
    fl: spec_fn(Label, Label) -> bool,
) -> bool {
    match (a, b) {
        (ExprF::Const(ca), ExprF::Const(cb)) => ca == cb,
        (ExprF::Var(va), ExprF::Var(vb)) => va@ == vb@,
        (ExprF::Lam(la, ta, ba), ExprF::Lam(lb, tb, bb)) => {
            fl(la, lb) && fse(ta, tb) && fb(la, ba, bb)
        },
        (ExprF::Pi(la, ta, ba), ExprF::Pi(lb, tb, bb)) => {
            fl(la, lb) && fse(ta, tb) && fb(la, ba, bb)
        },
        (ExprF::App(fa, aa), ExprF::App(fb2, ab)) => fse(fa, fb2) && fse(aa, ab),
        (ExprF::Let(la, ta, ra, ba), ExprF::Let(lb, tb, rb, bb)) => {
            &&& fl(la, lb)
            &&& rel_opt(ta, tb, fse)
            &&& fse(ra, rb)
            &&& fb(la, ba, bb)
        },
        (ExprF::Annot(xa, ta), ExprF::Annot(xb, tb)) => fse(xa, xb) && fse(ta, tb),
        (ExprF::Builtin(ba), ExprF::Builtin(bb)) => ba == bb,
        (ExprF::BinOp(oa, la, ra), ExprF::BinOp(ob, lb, rb)) => {
            oa == ob && fse(la, lb) && fse(ra, rb)
        },
        (ExprF::BoolLit(xa), ExprF::BoolLit(xb)) => xa == xb,
        (ExprF::BoolIf(ca, ta, ea), ExprF::BoolIf(cb, tb, eb)) => {
            fse(ca, cb) && fse(ta, tb) && fse(ea, eb)
        },
        (ExprF::NaturalLit(xa), ExprF::NaturalLit(xb)) => xa == xb,
        (ExprF::IntegerLit(xa), ExprF::IntegerLit(xb)) => xa == xb,
        (ExprF::DoubleLit(xa), ExprF::DoubleLit(xb)) => xa@ == xb@,
        (ExprF::TextLit(ta), ExprF::TextLit(tb)) => rel_text(ta, tb, fse),
        (ExprF::EmptyListLit(ta), ExprF::EmptyListLit(tb)) => fse(ta, tb),
        (ExprF::NEListLit(va), ExprF::NEListLit(vb)) => rel_seq(va@, vb@, fse),
        (ExprF::OldOptionalLit(xa, ta), ExprF::OldOptionalLit(xb, tb)) => {
            rel_opt(xa, xb, fse) && fse(ta, tb)
        },
        (ExprF::SomeLit(xa), ExprF::SomeLit(xb)) => fse(xa, xb),
        (ExprF::RecordType(va), ExprF::RecordType(vb)) => rel_rows(va@, vb@, fse, fl),
        (ExprF::RecordLit(va), ExprF::RecordLit(vb)) => rel_rows(va@, vb@, fse, fl),
        (ExprF::UnionType(va), ExprF::UnionType(vb)) => rel_alts(va@, vb@, fse, fl),
        (ExprF::UnionLit(la, xa, va), ExprF::UnionLit(lb, xb, vb)) => {
            fl(la, lb) && fse(xa, xb) && rel_alts(va@, vb@, fse, fl)
        },
        (ExprF::Merge(xa, ya, ta), ExprF::Merge(xb, yb, tb)) => {
            fse(xa, xb) && fse(ya, yb) && rel_opt(ta, tb, fse)
        },
        (ExprF::Field(xa, la), ExprF::Field(xb, lb)) => fse(xa, xb) && fl(la, lb),
        (ExprF::Projection(xa, va), ExprF::Projection(xb, vb)) => {
            fse(xa, xb) && rel_labels(va@, vb@, fl)
        },
        (ExprF::Embed(ea), ExprF::Embed(eb)) => fe(ea, eb),
        _ => false,
    }
}

/// Both absent, or both present and related.
pub open spec fn rel_opt<A, B>(a: Option<A>, b: Option<B>, f: spec_fn(A, B) -> bool) -> bool {
    match (a, b) {
        (None, None) => true,
        (Some(x), Some(y)) => f(x, y),
        _ => false,
    }
}

/// Same length and pairwise related.
pub open spec fn rel_seq<A, B>(a: Seq<A>, b: Seq<B>, f: spec_fn(A, B) -> bool) -> bool {
    a.len() == b.len() && forall|i: int| 0 <= i < a.len() ==> f(a[i], b[i])
}

/// Record rows of the same length whose keys are related by `fl` and whose
/// values are related by `fse`, position by position.
pub open spec fn rel_rows<N, E, N2, E2>(
    a: Seq<(Label, SubExpr<N, E>)>,
    b: Seq<(Label, SubExpr<N2, E2>)>,
    fse: spec_fn(SubExpr<N, E>, SubExpr<N2, E2>) -> bool,
    fl: spec_fn(Label, Label) -> bool,
) -> bool {
    a.len() == b.len() && forall|i: int|
        0 <= i < a.len() ==> fl(#[trigger] a[i].0, b[i].0) && fse(a[i].1, b[i].1)
}

/// Union alternatives of the same length whose keys are related by `fl` and
/// whose optional values are related by `fse`, position by position.
pub open spec fn rel_alts<N, E, N2, E2>(
    a: Seq<(Label, Option<SubExpr<N, E>>)>,
    b: Seq<(Label, Option<SubExpr<N2, E2>>)>,
    fse: spec_fn(SubExpr<N, E>, SubExpr<N2, E2>) -> bool,
    fl: spec_fn(Label, Label) -> bool,
) -> bool {
    a.len() == b.len() && forall|i: int|
        0 <= i < a.len() ==> fl(#[trigger] a[i].0, b[i].0) && rel_opt(a[i].1, b[i].1, fse)
}

/// Labels pairwise related.
pub open spec fn rel_labels(a: Seq<Label>, b: Seq<Label>, fl: spec_fn(Label, Label) -> bool) -> bool {
    a.len() == b.len() && forall|i: int| 0 <= i < a.len() ==> fl(#[trigger] a[i], b[i])
}

/// Text literals with the same fragments whose interpolated expressions are
/// pairwise related.
pub open spec fn rel_text<N, E, N2, E2>(
    a: InterpolatedText<SubExpr<N, E>>,
    b: InterpolatedText<SubExpr<N2, E2>>,
    fse: spec_fn(SubExpr<N, E>, SubExpr<N2, E2>) -> bool,
) -> bool {
    &&& a.head@ == b.head@
    &&& a.tail@.len() == b.tail@.len()
    &&& forall|i: int|
        0 <= i < a.tail@.len() ==> fse(#[trigger] a.tail@[i].0, b.tail@[i].0) && a.tail@[i].1@
            == b.tail@[i].1@
}


/// Applies the sub-expression callback to one child; an error is the
/// callback's own, handed back unchanged.
fn apply_sub<N, E, N2, E2, Er, F: Fn(&SubExpr<N, E>) -> Result<SubExpr<N2, E2>, Er>>(
    x: &SubExpr<N, E>,
    f: &F,
) -> (r: Result<SubExpr<N2, E2>, Er>)
    requires
        call_requires(*f, (x,)),
    ensures
        call_ensures(*f, (x,), r),
        r matches Err(e) ==> exists|a: (&SubExpr<N, E>,)| #[trigger] call_ensures(*f, a, Err(e)),
{
    match f(x) {
        Ok(y) => Ok(y),
        Err(e) => Err(e),
    }
}

/// Applies the label callback to one label; an error is the callback's own.
fn apply_label<Er, G: Fn(&Label) -> Result<Label, Er>>(l: &Label, g: &G) -> (r: Result<Label, Er>)
    requires
        call_requires(*g, (l,)),
    ensures
        call_ensures(*g, (l,), r),
        r matches Err(e) ==> exists|a: (&Label,)| #[trigger] call_ensures(*g, a, Err(e)),
{
    match g(l) {
        Ok(m) => Ok(m),
        Err(e) => Err(e),
    }
}

/// Applies the under-binder callback to one child; an error is the
/// callback's own.
fn apply_binder<N, E, N2, E2, Er, F: Fn(&Label, &SubExpr<N, E>) -> Result<SubExpr<N2, E2>, Er>>(
    l: &Label,
    x: &SubExpr<N, E>,
    f: &F,
) -> (r: Result<SubExpr<N2, E2>, Er>)
    requires
        call_requires(*f, (l, x)),
    ensures
        call_ensures(*f, (l, x), r),
        r matches Err(e) ==> exists|a: (&Label, &SubExpr<N, E>)| #[trigger] call_ensures(
            *f,
            a,
            Err(e),
        ),
{
    match f(l, x) {
        Ok(y) => Ok(y),
        Err(e) => Err(e),
    }
}

/// Applies the embed callback to one payload; an error is the callback's
/// own.
fn apply_emb<E, E2, Er, F: Fn(&E) -> Result<E2, Er>>(x: &E, f: &F) -> (r: Result<E2, Er>)
    requires
        call_requires(*f, (x,)),
    ensures
        call_ensures(*f, (x,), r),
        r matches Err(e) ==> exists|a: (&E,)| #[trigger] call_ensures(*f, a, Err(e)),
{
    match f(x) {
        Ok(y) => Ok(y),
        Err(e) => Err(e),
    }
}

/// Applies `f` to every element, stopping at the first error.
fn trav_vec<N, E, N2, E2, Er, F: Fn(&SubExpr<N, E>) -> Result<SubExpr<N2, E2>, Er>>(
    v: &Vec<SubExpr<N, E>>,
    f: &F,
) -> (r: Result<Vec<SubExpr<N2, E2>>, Er>)
    requires
        forall|x: SubExpr<N, E>| call_requires(*f, (&x,)),
    ensures
        r matches Ok(w) ==> rel_seq(v@, w@, (|x, y| call_ensures(*f, (&x,), Ok(y)))),
        r matches Err(e) ==> exists|a: (&SubExpr<N, E>,)| #[trigger] call_ensures(*f, a, Err(e)),
        (forall|a: (&SubExpr<N, E>,), e: Er| !call_ensures(*f, a, Err(e))) ==> r is Ok,
{
    let mut out: Vec<SubExpr<N2, E2>> = Vec::new();
    let mut i: usize = 0;
    while i < v.len()
        invariant
            i <= v@.len(),
            out@.len() == i,
            forall|x: SubExpr<N, E>| call_requires(*f, (&x,)),
            forall|j: int| 0 <= j < i ==> call_ensures(*f, (&v@[j],), Ok(out@[j])),
        decreases v@.len() - i,
    {
        out.push(apply_sub(&v[i], f)?);
        i = i + 1;
    }
    Ok(out)
}

/// Applies `f` under the option, stopping at an error.
fn trav_opt<N, E, N2, E2, Er, F: Fn(&SubExpr<N, E>) -> Result<SubExpr<N2, E2>, Er>>(
    v: &Option<SubExpr<N, E>>,
    f: &F,
) -> (r: Result<Option<SubExpr<N2, E2>>, Er>)
    requires
        forall|x: SubExpr<N, E>| call_requires(*f, (&x,)),
    ensures
        r matches Ok(w) ==> rel_opt(*v, w, (|x, y| call_ensures(*f, (&x,), Ok(y)))),
        r matches Err(e) ==> exists|a: (&SubExpr<N, E>,)| #[trigger] call_ensures(*f, a, Err(e)),
        (forall|a: (&SubExpr<N, E>,), e: Er| !call_ensures(*f, a, Err(e))) ==> r is Ok,
{
    match v {
        None => Ok(None),
        Some(x) => Ok(Some(apply_sub(x, f)?)),
    }
}

/// Applies `fl` to each key and `f` to each value, stopping at an error.
#[verifier::rlimit(50)]
#[verifier::spinoff_prover]
fn trav_rows<N, E, N2, E2, Er, F, G>(v: &Vec<(Label, SubExpr<N, E>)>, f: &F, g: &G) -> (r: Result<
    Vec<(Label, SubExpr<N2, E2>)>,
    Er,
>) where
    F: Fn(&SubExpr<N, E>) -> Result<SubExpr<N2, E2>, Er>,
    G: Fn(&Label) -> Result<Label, Er>,

    requires
        forall|x: SubExpr<N, E>| call_requires(*f, (&x,)),
        forall|l: Label| call_requires(*g, (&l,)),
    ensures
        r matches Ok(w) ==> rel_rows(
            v@,
            w@,
            (|x, y| call_ensures(*f, (&x,), Ok(y))),
            (|l, m| call_ensures(*g, (&l,), Ok(m))),
        ),
        r matches Err(e) ==> (exists|a: (&SubExpr<N, E>,)| #[trigger] call_ensures(*f, a, Err(e)))
            || (exists|a: (&Label,)| #[trigger] call_ensures(*g, a, Err(e))),
        (forall|a: (&SubExpr<N, E>,), e: Er| !call_ensures(*f, a, Err(e))) && (forall|
            a: (&Label,),
            e: Er,
        | !call_ensures(*g, a, Err(e))) ==> r is Ok,
{
    let mut out: Vec<(Label, SubExpr<N2, E2>)> = Vec::new();
    let mut i: usize = 0;
    while i < v.len()
        invariant
            i <= v@.len(),
            out@.len() == i,
            forall|x: SubExpr<N, E>| call_requires(*f, (&x,)),
            forall|l: Label| call_requires(*g, (&l,)),
            forall|j: int|
                0 <= j < i ==> call_ensures(*g, (&v@[j].0,), Ok(#[trigger] out@[j].0))
                    && call_ensures(*f, (&v@[j].1,), Ok(out@[j].1)),
        decreases v@.len() - i,
    {
        let key = apply_label(&v[i].0, g)?;
        let val = apply_sub(&v[i].1, f)?;
        out.push((key, val));
        i = i + 1;
        proof {
            let j = i - 1;
            assert(call_ensures(*g, (&v@[j].0,), Ok(out@[j].0)));
            assert(call_ensures(*f, (&v@[j].1,), Ok(out@[j].1)));
        }
    }
    Ok(out)
}

/// Applies `fl` to each key and `f` to each optional value, stopping at an
/// error.
#[verifier::rlimit(50)]
#[verifier::spinoff_prover]
fn trav_alts<N, E, N2, E2, Er, F, G>(
    v: &Vec<(Label, Option<SubExpr<N, E>>)>,
    f: &F,
    g: &G,
) -> (r: Result<Vec<(Label, Option<SubExpr<N2, E2>>)>, Er>) where
    F: Fn(&SubExpr<N, E>) -> Result<SubExpr<N2, E2>, Er>,
    G: Fn(&Label) -> Result<Label, Er>,

    requires
        forall|x: SubExpr<N, E>| call_requires(*f, (&x,)),
        forall|l: Label| call_requires(*g, (&l,)),
    ensures
        r matches Ok(w) ==> rel_alts(
            v@,
            w@,
            (|x, y| call_ensures(*f, (&x,), Ok(y))),
            (|l, m| call_ensures(*g, (&l,), Ok(m))),
        ),
        r matches Err(e) ==> (exists|a: (&SubExpr<N, E>,)| #[trigger] call_ensures(*f, a, Err(e)))
            || (exists|a: (&Label,)| #[trigger] call_ensures(*g, a, Err(e))),
        (forall|a: (&SubExpr<N, E>,), e: Er| !call_ensures(*f, a, Err(e))) && (forall|
            a: (&Label,),
            e: Er,
        | !call_ensures(*g, a, Err(e))) ==> r is Ok,
{
    let mut out: Vec<(Label, Option<SubExpr<N2, E2>>)> = Vec::new();
    let mut i: usize = 0;
    while i < v.len()
        invariant
            i <= v@.len(),
            out@.len() == i,
            forall|x: SubExpr<N, E>| call_requires(*f, (&x,)),
            forall|l: Label| call_requires(*g, (&l,)),
            forall|j: int|
                0 <= j < i ==> call_ensures(*g, (&v@[j].0,), Ok(#[trigger] out@[j].0)) && rel_opt(
                    v@[j].1,
                    out@[j].1,
                    (|x, y| call_ensures(*f, (&x,), Ok(y))),
                ),
        decreases v@.len() - i,
    {
        let key = apply_label(&v[i].0, g)?;
        let val = match &v[i].1 {
            None => None,
            Some(x) => Some(apply_sub(x, f)?),
        };
        out.push((key, val));
        i = i + 1;
        proof {
            let j = i - 1;
            assert(call_ensures(*g, (&v@[j].0,), Ok(out@[j].0)));
            assert(rel_opt(v@[j].1, out@[j].1, (|x, y| call_ensures(*f, (&x,), Ok(y)))));
        }
    }
    Ok(out)
}

/// Applies `g` to every label, stopping at the first error.
fn trav_labels<Er, G: Fn(&Label) -> Result<Label, Er>>(v: &Vec<Label>, g: &G) -> (r: Result<
    Vec<Label>,
    Er,
>)
    requires
        forall|l: Label| call_requires(*g, (&l,)),
    ensures
        r matches Ok(w) ==> rel_labels(v@, w@, (|l, m| call_ensures(*g, (&l,), Ok(m)))),
        r matches Err(e) ==> exists|a: (&Label,)| #[trigger] call_ensures(*g, a, Err(e)),
        (forall|a: (&Label,), e: Er| !call_ensures(*g, a, Err(e))) ==> r is Ok,
{
    let mut out: Vec<Label> = Vec::new();
    let mut i: usize = 0;
    while i < v.len()
        invariant
            i <= v@.len(),
            out@.len() == i,
            forall|l: Label| call_requires(*g, (&l,)),
            forall|j: int| 0 <= j < i ==> call_ensures(*g, (&v@[j],), Ok(out@[j])),
        decreases v@.len() - i,
    {
        out.push(apply_label(&v[i], g)?);
        i = i + 1;
    }
    Ok(out)
}

/// Applies `f` to every interpolated expression, keeping the fragments,
/// stopping at the first error.
fn trav_text<N, E, N2, E2, Er, F: Fn(&SubExpr<N, E>) -> Result<SubExpr<N2, E2>, Er>>(
    t: &InterpolatedText<SubExpr<N, E>>,
    f: &F,
) -> (r: Result<InterpolatedText<SubExpr<N2, E2>>, Er>)
    requires
        forall|x: SubExpr<N, E>| call_requires(*f, (&x,)),
    ensures
        r matches Ok(w) ==> rel_text(*t, w, (|x, y| call_ensures(*f, (&x,), Ok(y)))),
        r matches Err(e) ==> exists|a: (&SubExpr<N, E>,)| #[trigger] call_ensures(*f, a, Err(e)),
        (forall|a: (&SubExpr<N, E>,), e: Er| !call_ensures(*f, a, Err(e))) ==> r is Ok,
{
    let head = t.head.clone();
    let mut tail: Vec<(SubExpr<N2, E2>, String)> = Vec::new();
    let mut i: usize = 0;
    while i < t.tail.len()
        invariant
            i <= t.tail@.len(),
            tail@.len() == i,
            forall|x: SubExpr<N, E>| call_requires(*f, (&x,)),
            forall|j: int|
                0 <= j < i ==> call_ensures(*f, (&t.tail@[j].0,), Ok(#[trigger] tail@[j].0))
                    && tail@[j].1@ == t.tail@[j].1@,
        decreases t.tail@.len() - i,
    {
        let y = apply_sub(&t.tail[i].0, f)?;
        tail.push((y, t.tail[i].1.clone()));
        i = i + 1;
    }
    Ok(InterpolatedText { head, tail })
}


impl<N, E> ExprF<N, E> {
    /// Reshapes this expression one layer deep: `visit_subexpr` on every
    /// sub-expression, `visit_under_binder` on the one governed by a fresh
    /// binder, `visit_embed` on an embedded payload and `visit_label` on
    /// binding- and key-position labels, stopping at the first error.
    pub fn traverse_ref_with_special_handling_of_binders<N2, E2, Er, F1, F2, F3, F4>(
        &self,
        visit_subexpr: &F1,
        visit_under_binder: &F2,
        visit_embed: &F3,
        visit_label: &F4,
    ) -> (r: Result<ExprF<N2, E2>, Er>) where
        F1: Fn(&SubExpr<N, E>) -> Result<SubExpr<N2, E2>, Er>,
        F2: Fn(&Label, &SubExpr<N, E>) -> Result<SubExpr<N2, E2>, Er>,
        F3: Fn(&E) -> Result<E2, Er>,
        F4: Fn(&Label) -> Result<Label, Er>,

        requires
            forall|x: SubExpr<N, E>| call_requires(*visit_subexpr, (&x,)),
            forall|l: Label, x: SubExpr<N, E>| call_requires(*visit_under_binder, (&l, &x)),
            forall|e: E| call_requires(*visit_embed, (&e,)),
            forall|l: Label| call_requires(*visit_label, (&l,)),
        ensures
            r matches Ok(b) ==> one_layer_rel(
                *self,
                b,
                (|x, y| call_ensures(*visit_subexpr, (&x,), Ok(y))),
                (|l, x, y| call_ensures(*visit_under_binder, (&l, &x), Ok(y))),
                (|e, e2| call_ensures(*visit_embed, (&e,), Ok(e2))),
                (|l, m| call_ensures(*visit_label, (&l,), Ok(m))),
            ),
            r matches Err(e) ==> (exists|a: (&SubExpr<N, E>,)| #[trigger] call_ensures(
                *visit_subexpr,
                a,
                Err(e),
            )) || (exists|a: (&Label, &SubExpr<N, E>)| #[trigger] call_ensures(
                *visit_under_binder,
                a,
                Err(e),
            )) || (exists|a: (&E,)| #[trigger] call_ensures(*visit_embed, a, Err(e))) || (exists|
                a: (&Label,),
            | #[trigger] call_ensures(*visit_label, a, Err(e))),
            ({
                &&& (forall|a: (&SubExpr<N, E>,), e: Er| !call_ensures(*visit_subexpr, a, Err(e)))
                &&& (forall|a: (&Label, &SubExpr<N, E>), e: Er|
                    !call_ensures(*visit_under_binder, a, Err(e)))
                &&& (forall|a: (&E,), e: Er| !call_ensures(*visit_embed, a, Err(e)))
                &&& (forall|a: (&Label,), e: Er| !call_ensures(*visit_label, a, Err(e)))
            }) ==> r is Ok,
    {
        match self {
            ExprF::Const(c) => Ok(ExprF::Const(*c)),
            ExprF::Var(v) => Ok(ExprF::Var(v.clone())),
            ExprF::Lam(l, t, b) => {
                let l2 = apply_label(l, visit_label)?;
                let t2 = apply_sub(t, visit_subexpr)?;
                let b2 = apply_binder(l, b, visit_under_binder)?;
                Ok(ExprF::Lam(l2, t2, b2))
            },
            ExprF::Pi(l, t, b) => {
                let l2 = apply_label(l, visit_label)?;
                let t2 = apply_sub(t, visit_subexpr)?;
                let b2 = apply_binder(l, b, visit_under_binder)?;
                Ok(ExprF::Pi(l2, t2, b2))
            },
            ExprF::App(f, a) => {
                let f2 = apply_sub(f, visit_subexpr)?;
                let a2 = apply_sub(a, visit_subexpr)?;
                Ok(ExprF::App(f2, a2))
            },
            ExprF::Let(l, t, v, b) => {
                let l2 = apply_label(l, visit_label)?;
                let t2 = trav_opt(t, visit_subexpr)?;
                let v2 = apply_sub(v, visit_subexpr)?;
                let b2 = apply_binder(l, b, visit_under_binder)?;
                Ok(ExprF::Let(l2, t2, v2, b2))
            },
            ExprF::Annot(x, t) => {
                let x2 = apply_sub(x, visit_subexpr)?;
                let t2 = apply_sub(t, visit_subexpr)?;
                Ok(ExprF::Annot(x2, t2))
            },
            ExprF::Builtin(b) => Ok(ExprF::Builtin(*b)),
            ExprF::BinOp(o, x, y) => {
                let x2 = apply_sub(x, visit_subexpr)?;
                let y2 = apply_sub(y, visit_subexpr)?;
                Ok(ExprF::BinOp(*o, x2, y2))
            },
            ExprF::BoolLit(b) => Ok(ExprF::BoolLit(*b)),
            ExprF::BoolIf(c, t, e) => {
                let c2 = apply_sub(c, visit_subexpr)?;
                let t2 = apply_sub(t, visit_subexpr)?;
                let e2 = apply_sub(e, visit_subexpr)?;
                Ok(ExprF::BoolIf(c2, t2, e2))
            },
            ExprF::NaturalLit(n) => Ok(ExprF::NaturalLit(*n)),
            ExprF::IntegerLit(n) => Ok(ExprF::IntegerLit(*n)),
            ExprF::DoubleLit(d) => Ok(ExprF::DoubleLit(*d)),
            ExprF::TextLit(t) => Ok(ExprF::TextLit(trav_text(t, visit_subexpr)?)),
            ExprF::EmptyListLit(t) => Ok(ExprF::EmptyListLit(apply_sub(t, visit_subexpr)?)),
            ExprF::NEListLit(v) => Ok(ExprF::NEListLit(trav_vec(v, visit_subexpr)?)),
            ExprF::OldOptionalLit(x, t) => {
                let x2 = trav_opt(x, visit_subexpr)?;
                let t2 = apply_sub(t, visit_subexpr)?;
                Ok(ExprF::OldOptionalLit(x2, t2))
            },
            ExprF::SomeLit(x) => Ok(ExprF::SomeLit(apply_sub(x, visit_subexpr)?)),
            ExprF::RecordType(v) => Ok(ExprF::RecordType(trav_rows(v, visit_subexpr, visit_label)?)),
            ExprF::RecordLit(v) => Ok(ExprF::RecordLit(trav_rows(v, visit_subexpr, visit_label)?)),
            ExprF::UnionType(v) => Ok(ExprF::UnionType(trav_alts(v, visit_subexpr, visit_label)?)),
            ExprF::UnionLit(l, x, v) => {
                let l2 = apply_label(l, visit_label)?;
                let x2 = apply_sub(x, visit_subexpr)?;
                let v2 = trav_alts(v, visit_subexpr, visit_label)?;
                Ok(ExprF::UnionLit(l2, x2, v2))
            },
            ExprF::Merge(x, y, t) => {
                let x2 = apply_sub(x, visit_subexpr)?;
                let y2 = apply_sub(y, visit_subexpr)?;
                let t2 = trav_opt(t, visit_subexpr)?;
                Ok(ExprF::Merge(x2, y2, t2))
            },
            ExprF::Field(x, l) => {
                let x2 = apply_sub(x, visit_subexpr)?;
                let l2 = apply_label(l, visit_label)?;
                Ok(ExprF::Field(x2, l2))
            },
            ExprF::Projection(x, v) => {
                let x2 = apply_sub(x, visit_subexpr)?;
                let v2 = trav_labels(v, visit_label)?;
                Ok(ExprF::Projection(x2, v2))
            },
            ExprF::Embed(e) => Ok(ExprF::Embed(apply_emb(e, visit_embed)?)),
        }
    }
}



/// A one-layer relation stays true when each of its four part relations is
/// weakened pointwise.
#[verifier::rlimit(50)]
#[verifier::spinoff_prover]
pub proof fn lemma_one_layer_rel_mono<N, E, N2, E2>(
    a: ExprF<N, E>,
    b: ExprF<N2, E2>,
    fse1: spec_fn(SubExpr<N, E>, SubExpr<N2, E2>) -> bool,
    fb1: spec_fn(Label, SubExpr<N, E>, SubExpr<N2, E2>) -> bool,
    fe1: spec_fn(E, E2) -> bool,
    fl1: spec_fn(Label, Label) -> bool,
    fse2: spec_fn(SubExpr<N, E>, SubExpr<N2, E2>) -> bool,
    fb2: spec_fn(Label, SubExpr<N, E>, SubExpr<N2, E2>) -> bool,
    fe2: spec_fn(E, E2) -> bool,
    fl2: spec_fn(Label, Label) -> bool,
)
    requires
        one_layer_rel(a, b, fse1, fb1, fe1, fl1),
        forall|x: SubExpr<N, E>, y: SubExpr<N2, E2>| #[trigger] fse1(x, y) ==> fse2(x, y),
        forall|l: Label, x: SubExpr<N, E>, y: SubExpr<N2, E2>| #[trigger] fb1(l, x, y) ==> fb2(
            l,
            x,
            y,
        ),
        forall|e: E, e2: E2| #[trigger] fe1(e, e2) ==> fe2(e, e2),
        forall|l: Label, m: Label| #[trigger] fl1(l, m) ==> fl2(l, m),
    ensures
        one_layer_rel(a, b, fse2, fb2, fe2, fl2),
{
}

impl<N, E> ExprF<N, E> {
    /// As `traverse_ref_with_special_handling_of_binders`, with infallible
    /// callbacks.
    pub fn map_ref_with_special_handling_of_binders<N2, E2, F1, F2, F3, F4>(
        &self,
        map_subexpr: &F1,
        map_under_binder: &F2,
        map_embed: &F3,
        map_label: &F4,
    ) -> (r: ExprF<N2, E2>) where
        F1: Fn(&SubExpr<N, E>) -> SubExpr<N2, E2>,
        F2: Fn(&Label, &SubExpr<N, E>) -> SubExpr<N2, E2>,
        F3: Fn(&E) -> E2,
        F4: Fn(&Label) -> Label,

        requires
            forall|x: SubExpr<N, E>| call_requires(*map_subexpr, (&x,)),
            forall|l: Label, x: SubExpr<N, E>| call_requires(*map_under_binder, (&l, &x)),
            forall|e: E| call_requires(*map_embed, (&e,)),
            forall|l: Label| call_requires(*map_label, (&l,)),
        ensures
            one_layer_rel(
                *self,
                r,
                (|x, y| call_ensures(*map_subexpr, (&x,), y)),
                (|l, x, y| call_ensures(*map_under_binder, (&l, &x), y)),
                (|e, e2| call_ensures(*map_embed, (&e,), e2)),
                (|l, m| call_ensures(*map_label, (&l,), m)),
            ),
    {
        let vs = |x: &SubExpr<N, E>| -> (res: Result<SubExpr<N2, E2>, X>)
            requires
                call_requires(map_subexpr, (x,)),
            ensures
                res is Ok && call_ensures(map_subexpr, (x,), res->Ok_0),
            { Ok(map_subexpr(x)) };
        let vb = |l: &Label, x: &SubExpr<N, E>| -> (res: Result<SubExpr<N2, E2>, X>)
            requires
                call_requires(map_under_binder, (l, x)),
            ensures
                res is Ok && call_ensures(map_under_binder, (l, x), res->Ok_0),
            { Ok(map_under_binder(l, x)) };
        let ve = |e: &E| -> (res: Result<E2, X>)
            requires
                call_requires(map_embed, (e,)),
            ensures
                res is Ok && call_ensures(map_embed, (e,), res->Ok_0),
            { Ok(map_embed(e)) };
        let vl = |l: &Label| -> (res: Result<Label, X>)
            requires
                call_requires(map_label, (l,)),
            ensures
                res is Ok && call_ensures(map_label, (l,), res->Ok_0),
            { Ok(map_label(l)) };
        let out = crate::trivial_result(
            self.traverse_ref_with_special_handling_of_binders(&vs, &vb, &ve, &vl),
        );
        proof {
            lemma_one_layer_rel_mono(
                *self,
                out,
                (|x, y| call_ensures(vs, (&x,), Ok(y))),
                (|l, x, y| call_ensures(vb, (&l, &x), Ok(y))),
                (|e, e2| call_ensures(ve, (&e,), Ok(e2))),
                (|l, m| call_ensures(vl, (&l,), Ok(m))),
                (|x, y| call_ensures(*map_subexpr, (&x,), y)),
                (|l, x, y| call_ensures(*map_under_binder, (&l, &x), y)),
                (|e, e2| call_ensures(*map_embed, (&e,), e2)),
                (|l, m| call_ensures(*map_label, (&l,), m)),
            );
        }
        out
    }
}



impl<N, E> ExprF<N, E> {
    /// Reshapes this expression one layer deep with infallible callbacks,
    /// treating the sub-expression under a binder like any other.
    pub fn map_ref<N2, E2, F1, F3, F4>(
        &self,
        map_subexpr: &F1,
        map_embed: &F3,
        map_label: &F4,
    ) -> (r: ExprF<N2, E2>) where
        F1: Fn(&SubExpr<N, E>) -> SubExpr<N2, E2>,
        F3: Fn(&E) -> E2,
        F4: Fn(&Label) -> Label,

        requires
            forall|x: SubExpr<N, E>| call_requires(*map_subexpr, (&x,)),
            forall|e: E| call_requires(*map_embed, (&e,)),
            forall|l: Label| call_requires(*map_label, (&l,)),
        ensures
            one_layer_rel(
                *self,
                r,
                (|x, y| call_ensures(*map_subexpr, (&x,), y)),
                (|l, x, y| call_ensures(*map_subexpr, (&x,), y)),
                (|e, e2| call_ensures(*map_embed, (&e,), e2)),
                (|l, m| call_ensures(*map_label, (&l,), m)),
            ),
    {
        let vb = |l: &Label, x: &SubExpr<N, E>| -> (res: SubExpr<N2, E2>)
            requires
                call_requires(map_subexpr, (x,)),
            ensures
                call_ensures(map_subexpr, (x,), res),
            { map_subexpr(x) };
        let out = self.map_ref_with_special_handling_of_binders(
            map_subexpr,
            &vb,
            map_embed,
            map_label,
        );
        proof {
            lemma_one_layer_rel_mono(
                *self,
                out,
                (|x, y| call_ensures(*map_subexpr, (&x,), y)),
                (|l, x, y| call_ensures(vb, (&l, &x), y)),
                (|e, e2| call_ensures(*map_embed, (&e,), e2)),
                (|l, m| call_ensures(*map_label, (&l,), m)),
                (|x, y| call_ensures(*map_subexpr, (&x,), y)),
                (|l, x, y| call_ensures(*map_subexpr, (&x,), y)),
                (|e, e2| call_ensures(*map_embed, (&e,), e2)),
                (|l, m| call_ensures(*map_label, (&l,), m)),
            );
        }
        out
    }
}

impl<N, E: Clone> ExprF<N, E> {
    /// Reshapes the sub-expressions one layer deep, cloning labels and the
    /// embedded payload, stopping at the first error.
    pub fn traverse_ref_simple<N2, Er, F1>(&self, visit_subexpr: &F1) -> (r: Result<
        ExprF<N2, E>,
        Er,
    >) where F1: Fn(&SubExpr<N, E>) -> Result<SubExpr<N2, E>, Er>
        requires
            forall|x: SubExpr<N, E>| call_requires(*visit_subexpr, (&x,)),
        ensures
            r matches Ok(b) ==> one_layer_rel(
                *self,
                b,
                (|x, y| call_ensures(*visit_subexpr, (&x,), Ok(y))),
                (|l, x, y| call_ensures(*visit_subexpr, (&x,), Ok(y))),
                (|e, e2| vstd::pervasive::cloned::<E>(e, e2)),
                (|l, m| m == l),
            ),
            r matches Err(e) ==> exists|a: (&SubExpr<N, E>,)| #[trigger] call_ensures(
                *visit_subexpr,
                a,
                Err(e),
            ),
            (forall|a: (&SubExpr<N, E>,), e: Er| !call_ensures(*visit_subexpr, a, Err(e))) ==> r
                is Ok,
    {
        let vb = |l: &Label, x: &SubExpr<N, E>| -> (res: Result<SubExpr<N2, E>, Er>)
            requires
                call_requires(visit_subexpr, (x,)),
            ensures
                call_ensures(visit_subexpr, (x,), res),
            { visit_subexpr(x) };
        let ve = |e: &E| -> (res: Result<E, Er>)
            ensures
                res matches Ok(e2) && vstd::pervasive::cloned::<E>(*e, e2),
            { Ok(e.clone()) };
        let vl = |l: &Label| -> (res: Result<Label, Er>)
            ensures
                res matches Ok(m) && m == *l,
            { Ok(l.clone()) };
        let r = self.traverse_ref_with_special_handling_of_binders(visit_subexpr, &vb, &ve, &vl);
        proof {
            if r is Err {
                let e = r->Err_0;
                if exists|a: (&Label, &SubExpr<N, E>)| #[trigger] call_ensures(vb, a, Err(e)) {
                    let a = choose|a: (&Label, &SubExpr<N, E>)| #[trigger] call_ensures(
                        vb,
                        a,
                        Err(e),
                    );
                    assert(call_ensures(visit_subexpr, (a.1,), Err::<SubExpr<N2, E>, Er>(e)));
                }
            }
            if r is Ok {
                let b = r->Ok_0;
                lemma_one_layer_rel_mono(
                    *self,
                    b,
                    (|x, y| call_ensures(*visit_subexpr, (&x,), Ok(y))),
                    (|l, x, y| call_ensures(vb, (&l, &x), Ok(y))),
                    (|e, e2| call_ensures(ve, (&e,), Ok(e2))),
                    (|l, m| call_ensures(vl, (&l,), Ok(m))),
                    (|x, y| call_ensures(*visit_subexpr, (&x,), Ok(y))),
                    (|l, x, y| call_ensures(*visit_subexpr, (&x,), Ok(y))),
                    (|e, e2| vstd::pervasive::cloned::<E>(e, e2)),
                    (|l, m| m == l),
                );
            }
        }
        r
    }

    /// Reshapes the sub-expressions one layer deep with an infallible
    /// callback, cloning labels and the embedded payload.
    pub fn map_ref_simple<N2, F1>(&self, map_subexpr: &F1) -> (r: ExprF<N2, E>) where
        F1: Fn(&SubExpr<N, E>) -> SubExpr<N2, E>,

        requires
            forall|x: SubExpr<N, E>| call_requires(*map_subexpr, (&x,)),
        ensures
            one_layer_rel(
                *self,
                r,
                (|x, y| call_ensures(*map_subexpr, (&x,), y)),
                (|l, x, y| call_ensures(*map_subexpr, (&x,), y)),
                (|e, e2| vstd::pervasive::cloned::<E>(e, e2)),
                (|l, m| m == l),
            ),
    {
        let vs = |x: &SubExpr<N, E>| -> (res: Result<SubExpr<N2, E>, X>)
            requires
                call_requires(map_subexpr, (x,)),
            ensures
                res matches Ok(y) && call_ensures(map_subexpr, (x,), y),
            { Ok(map_subexpr(x)) };
        let out = crate::trivial_result(self.traverse_ref_simple(&vs));
        proof {
            lemma_one_layer_rel_mono(
                *self,
                out,
                (|x, y| call_ensures(vs, (&x,), Ok(y))),
                (|l, x, y| call_ensures(vs, (&x,), Ok(y))),
                (|e, e2| vstd::pervasive::cloned::<E>(e, e2)),
                (|l, m| m == l),
                (|x, y| call_ensures(*map_subexpr, (&x,), y)),
                (|l, x, y| call_ensures(*map_subexpr, (&x,), y)),
                (|e, e2| vstd::pervasive::cloned::<E>(e, e2)),
                (|l, m| m == l),
            );
        }
        out
    }
}


} // verus!

verus! {

/// The identity traversal returns the expression it was given: a one-layer
/// reshape whose callbacks can only hand every part back unchanged yields a
/// structurally equal expression, under the tree's own note-ignoring
/// equality.
pub proof fn lemma_map_ref_identity<N, E>(
    a: ExprF<N, E>,
    b: ExprF<N, E>,
    fse: spec_fn(SubExpr<N, E>, SubExpr<N, E>) -> bool,
    fb: spec_fn(Label, SubExpr<N, E>, SubExpr<N, E>) -> bool,
    fe: spec_fn(E, E) -> bool,
    fl: spec_fn(Label, Label) -> bool,
)
    requires
        one_layer_rel(a, b, fse, fb, fe, fl),
        forall|x: SubExpr<N, E>, y: SubExpr<N, E>| #[trigger] fse(x, y) ==> y == x,
        forall|l: Label, x: SubExpr<N, E>, y: SubExpr<N, E>| #[trigger] fb(l, x, y) ==> y == x,
        forall|l: Label, m: Label| #[trigger] fl(l, m) ==> m == l,
        forall|e: E| #[trigger] fe(e, e),
    ensures
        crate::eq::same_expr(a, b, fe),
{
    match (a, b) {
        (ExprF::Lam(la, ta, ba), ExprF::Lam(lb, tb, bb)) => {
            crate::eq::lemma_same_sub_refl(ta, fe);
            crate::eq::lemma_same_sub_refl(ba, fe);
        },
        (ExprF::Pi(la, ta, ba), ExprF::Pi(lb, tb, bb)) => {
            crate::eq::lemma_same_sub_refl(ta, fe);
            crate::eq::lemma_same_sub_refl(ba, fe);
        },
        (ExprF::App(fa, aa), ExprF::App(fb2, ab)) => {
            crate::eq::lemma_same_sub_refl(fa, fe);
            crate::eq::lemma_same_sub_refl(aa, fe);
        },
        (ExprF::Let(la, ta, ra, ba), ExprF::Let(lb, tb, rb, bb)) => {
            match ta {
                Some(t) => {
                    crate::eq::lemma_same_sub_refl(t, fe);
                },
                None => {},
            }
            crate::eq::lemma_same_sub_refl(ra, fe);
            crate::eq::lemma_same_sub_refl(ba, fe);
        },
        (ExprF::Annot(xa, ta), ExprF::Annot(xb, tb)) => {
            crate::eq::lemma_same_sub_refl(xa, fe);
            crate::eq::lemma_same_sub_refl(ta, fe);
        },
        (ExprF::BinOp(oa, la, ra), ExprF::BinOp(ob, lb, rb)) => {
            crate::eq::lemma_same_sub_refl(la, fe);
            crate::eq::lemma_same_sub_refl(ra, fe);
        },
        (ExprF::BoolIf(ca, ta, ea), ExprF::BoolIf(cb, tb, eb)) => {
            crate::eq::lemma_same_sub_refl(ca, fe);
            crate::eq::lemma_same_sub_refl(ta, fe);
            crate::eq::lemma_same_sub_refl(ea, fe);
        },
        (ExprF::TextLit(ta), ExprF::TextLit(tb)) => {
            assert forall|i: int| 0 <= i < ta.tail@.len() implies crate::eq::same_sub(
                #[trigger] ta.tail@[i].0,
                tb.tail@[i].0,
                fe,
            ) && ta.tail@[i].1@ == tb.tail@[i].1@ by {
                assert(fse(ta.tail@[i].0, tb.tail@[i].0));
                crate::eq::lemma_same_sub_refl(ta.tail@[i].0, fe);
            }
        },
        (ExprF::EmptyListLit(ta), ExprF::EmptyListLit(tb)) => {
            crate::eq::lemma_same_sub_refl(ta, fe);
        },
        (ExprF::NEListLit(va), ExprF::NEListLit(vb)) => {
            assert forall|i: int| 0 <= i < va@.len() implies crate::eq::same_sub(
                #[trigger] va@[i],
                vb@[i],
                fe,
            ) by {
                assert(fse(va@[i], vb@[i]));
                crate::eq::lemma_same_sub_refl(va@[i], fe);
            }
        },
        (ExprF::OldOptionalLit(xa, ta), ExprF::OldOptionalLit(xb, tb)) => {
            match xa {
                Some(x) => {
                    crate::eq::lemma_same_sub_refl(x, fe);
                },
                None => {},
            }
            crate::eq::lemma_same_sub_refl(ta, fe);
        },
        (ExprF::SomeLit(xa), ExprF::SomeLit(xb)) => {
            crate::eq::lemma_same_sub_refl(xa, fe);
        },
        (ExprF::RecordType(va), ExprF::RecordType(vb)) => {
            assert forall|i: int|
                0 <= i < va@.len() implies (#[trigger] va@[i]).0@ == vb@[i].0@
                && crate::eq::same_sub(va@[i].1, vb@[i].1, fe) by {
                assert(fl(va@[i].0, vb@[i].0) && fse(va@[i].1, vb@[i].1));
                crate::eq::lemma_same_sub_refl(va@[i].1, fe);
            }
        },
        (ExprF::RecordLit(va), ExprF::RecordLit(vb)) => {
            assert forall|i: int|
                0 <= i < va@.len() implies (#[trigger] va@[i]).0@ == vb@[i].0@
                && crate::eq::same_sub(va@[i].1, vb@[i].1, fe) by {
                assert(fl(va@[i].0, vb@[i].0) && fse(va@[i].1, vb@[i].1));
                crate::eq::lemma_same_sub_refl(va@[i].1, fe);
            }
        },
        (ExprF::UnionType(va), ExprF::UnionType(vb)) => {
            assert forall|i: int|
                0 <= i < va@.len() implies (#[trigger] va@[i]).0@ == vb@[i].0@
                && crate::eq::same_sub_opt(va@[i].1, vb@[i].1, fe) by {
                assert(fl(va@[i].0, vb@[i].0) && rel_opt(va@[i].1, vb@[i].1, fse));
                match va@[i].1 {
                    Some(x) => {
                        crate::eq::lemma_same_sub_refl(x, fe);
                    },
                    None => {},
                }
            }
        },
        (ExprF::UnionLit(la, xa, va), ExprF::UnionLit(lb, xb, vb)) => {
            crate::eq::lemma_same_sub_refl(xa, fe);
            assert forall|i: int|
                0 <= i < va@.len() implies (#[trigger] va@[i]).0@ == vb@[i].0@
                && crate::eq::same_sub_opt(va@[i].1, vb@[i].1, fe) by {
                assert(fl(va@[i].0, vb@[i].0) && rel_opt(va@[i].1, vb@[i].1, fse));
                match va@[i].1 {
                    Some(x) => {
                        crate::eq::lemma_same_sub_refl(x, fe);
                    },
                    None => {},
                }
            }
        },
        (ExprF::Merge(xa, ya, ta), ExprF::Merge(xb, yb, tb)) => {
            crate::eq::lemma_same_sub_refl(xa, fe);
            crate::eq::lemma_same_sub_refl(ya, fe);
            match ta {
                Some(t) => {
                    crate::eq::lemma_same_sub_refl(t, fe);
                },
                None => {},
            }
        },
        (ExprF::Field(xa, la), ExprF::Field(xb, lb)) => {
            crate::eq::lemma_same_sub_refl(xa, fe);
        },
        (ExprF::Projection(xa, va), ExprF::Projection(xb, vb)) => {
            crate::eq::lemma_same_sub_refl(xa, fe);
            assert forall|i: int| 0 <= i < va@.len() implies (#[trigger] va@[i])@ == vb@[i]@ by {
                assert(fl(va@[i], vb@[i]));
            }
        },
        _ => {},
    }
}

} // verus!
