//! Structural equality of expression trees: notes are ignored, text is
//! compared by characters, and the embedded payloads by a caller-chosen
//! relation.

use crate::expr::{ExprF, InterpolatedText, Label, SubExpr};
use crate::import::{
    hash_opt_matches, import_matches, location_matches, strings_match, Import, ImportLocation,
};
use crate::strutil::str_eq;
use vstd::prelude::*;

verus! {

broadcast use crate::expr::lemma_noted_decreases;

/// Whether two wrapped expressions are structurally equal, notes ignored,
/// with embedded payloads compared by `fe`.
pub open spec fn same_sub<N1, E1, N2, E2>(
    a: SubExpr<N1, E1>,
    b: SubExpr<N2, E2>,
    fe: spec_fn(E1, E2) -> bool,
) -> bool
    decreases a,
{
    same_expr(a.spec_expr(), b.spec_expr(), fe)
}

/// Whether two optional wrapped expressions are structurally equal.
pub open spec fn same_sub_opt<N1, E1, N2, E2>(
    a: Option<SubExpr<N1, E1>>,
    b: Option<SubExpr<N2, E2>>,
    fe: spec_fn(E1, E2) -> bool,
) -> bool
    decreases a,
{
    match (a, b) {
        (None, None) => true,
        (Some(x), Some(y)) => same_sub(x, y, fe),
        _ => false,
    }
}

/// Whether two expressions are structurally equal: the same variant, equal
/// scalars, labels equal by their characters, sub-expressions equal
/// recursively with notes ignored, and embedded payloads related by `fe`.
pub open spec fn same_expr<N1, E1, N2, E2>(
    a: ExprF<N1, E1>,
    b: ExprF<N2, E2>,
    fe: spec_fn(E1, E2) -> bool,
) -> bool
    decreases a,
{
    match (a, b) {
        (ExprF::Const(ca), ExprF::Const(cb)) => ca == cb,
        (ExprF::Var(va), ExprF::Var(vb)) => va@ == vb@,
        (ExprF::Lam(la, ta, ba), ExprF::Lam(lb, tb, bb)) => {
            la@ == lb@ && same_sub(ta, tb, fe) && same_sub(ba, bb, fe)
        },
        (ExprF::Pi(la, ta, ba), ExprF::Pi(lb, tb, bb)) => {
            la@ == lb@ && same_sub(ta, tb, fe) && same_sub(ba, bb, fe)
        },
        (ExprF::App(fa, aa), ExprF::App(fb, ab)) => same_sub(fa, fb, fe) && same_sub(aa, ab, fe),
        (ExprF::Let(la, ta, ra, ba), ExprF::Let(lb, tb, rb, bb)) => {
            &&& la@ == lb@
            &&& same_sub_opt(ta, tb, fe)
            &&& same_sub(ra, rb, fe)
            &&& same_sub(ba, bb, fe)
        },
        (ExprF::Annot(xa, ta), ExprF::Annot(xb, tb)) => {
            same_sub(xa, xb, fe) && same_sub(ta, tb, fe)
        },
        (ExprF::Builtin(ba), ExprF::Builtin(bb)) => ba == bb,
        (ExprF::BinOp(oa, la, ra), ExprF::BinOp(ob, lb, rb)) => {
            oa == ob && same_sub(la, lb, fe) && same_sub(ra, rb, fe)
        },
        (ExprF::BoolLit(xa), ExprF::BoolLit(xb)) => xa == xb,
        (ExprF::BoolIf(ca, ta, ea), ExprF::BoolIf(cb, tb, eb)) => {
            same_sub(ca, cb, fe) && same_sub(ta, tb, fe) && same_sub(ea, eb, fe)
        },
        (ExprF::NaturalLit(xa), ExprF::NaturalLit(xb)) => xa == xb,
        (ExprF::IntegerLit(xa), ExprF::IntegerLit(xb)) => xa == xb,
        (ExprF::DoubleLit(xa), ExprF::DoubleLit(xb)) => xa@ == xb@,
        (ExprF::TextLit(ta), ExprF::TextLit(tb)) => same_text(ta, tb, fe),
        (ExprF::EmptyListLit(ta), ExprF::EmptyListLit(tb)) => same_sub(ta, tb, fe),
        (ExprF::NEListLit(va), ExprF::NEListLit(vb)) => same_subs(va@, vb@, fe),
        (ExprF::OldOptionalLit(xa, ta), ExprF::OldOptionalLit(xb, tb)) => {
            same_sub_opt(xa, xb, fe) && same_sub(ta, tb, fe)
        },
        (ExprF::SomeLit(xa), ExprF::SomeLit(xb)) => same_sub(xa, xb, fe),
        (ExprF::RecordType(va), ExprF::RecordType(vb)) => same_rows(va@, vb@, fe),
        (ExprF::RecordLit(va), ExprF::RecordLit(vb)) => same_rows(va@, vb@, fe),
        (ExprF::UnionType(va), ExprF::UnionType(vb)) => same_alts(va@, vb@, fe),
        (ExprF::UnionLit(la, xa, va), ExprF::UnionLit(lb, xb, vb)) => {
            la@ == lb@ && same_sub(xa, xb, fe) && same_alts(va@, vb@, fe)
        },
        (ExprF::Merge(xa, ya, ta), ExprF::Merge(xb, yb, tb)) => {
            same_sub(xa, xb, fe) && same_sub(ya, yb, fe) && same_sub_opt(ta, tb, fe)
        },
        (ExprF::Field(xa, la), ExprF::Field(xb, lb)) => same_sub(xa, xb, fe) && la@ == lb@,
        (ExprF::Projection(xa, va), ExprF::Projection(xb, vb)) => {
            same_sub(xa, xb, fe) && same_label_seq(va@, vb@)
        },
        (ExprF::Embed(ea), ExprF::Embed(eb)) => fe(ea, eb),
        _ => false,
    }
}

/// Text literals with equal fragments whose interpolated expressions are
/// pairwise structurally equal.
pub open spec fn same_text<N1, E1, N2, E2>(
    a: InterpolatedText<SubExpr<N1, E1>>,
    b: InterpolatedText<SubExpr<N2, E2>>,
    fe: spec_fn(E1, E2) -> bool,
) -> bool
    decreases a,
{
    &&& a.head@ == b.head@
    &&& a.tail@.len() == b.tail@.len()
    &&& forall|i: int|
        0 <= i < a.tail@.len() ==> same_sub(#[trigger] a.tail@[i].0, b.tail@[i].0, fe)
            && a.tail@[i].1@ == b.tail@[i].1@
}

/// Wrapped expressions pairwise structurally equal.
pub open spec fn same_subs<N1, E1, N2, E2>(
    a: Seq<SubExpr<N1, E1>>,
    b: Seq<SubExpr<N2, E2>>,
    fe: spec_fn(E1, E2) -> bool,
) -> bool
    decreases a,
{
    a.len() == b.len() && forall|i: int| 0 <= i < a.len() ==> same_sub(#[trigger] a[i], b[i], fe)
}

/// Labels pairwise equal by their characters.
pub open spec fn same_label_seq(a: Seq<Label>, b: Seq<Label>) -> bool {
    a.len() == b.len() && forall|i: int| 0 <= i < a.len() ==> (#[trigger] a[i])@ == b[i]@
}

/// Record rows pairwise structurally equal.
pub open spec fn same_rows<N1, E1, N2, E2>(
    a: Seq<(Label, SubExpr<N1, E1>)>,
    b: Seq<(Label, SubExpr<N2, E2>)>,
    fe: spec_fn(E1, E2) -> bool,
) -> bool
    decreases a,
{
    a.len() == b.len() && forall|i: int|
        0 <= i < a.len() ==> (#[trigger] a[i]).0@ == b[i].0@ && same_sub(a[i].1, b[i].1, fe)
}

/// Union alternatives pairwise structurally equal.
pub open spec fn same_alts<N1, E1, N2, E2>(
    a: Seq<(Label, Option<SubExpr<N1, E1>>)>,
    b: Seq<(Label, Option<SubExpr<N2, E2>>)>,
    fe: spec_fn(E1, E2) -> bool,
) -> bool
    decreases a,
{
    a.len() == b.len() && forall|i: int|
        0 <= i < a.len() ==> (#[trigger] a[i]).0@ == b[i].0@ && same_sub_opt(a[i].1, b[i].1, fe)
}

/// The embed comparison for parsed trees: imports with the same mode,
/// location and hash.
pub open spec fn import_fe() -> spec_fn(Import, Import) -> bool {
    |x: Import, y: Import| import_matches(x, y)
}

/// Whether two parsed trees are structurally equal, ignoring the notes: the
/// equality the syntax tree is compared by.
pub open spec fn equivalent<N1, N2>(a: SubExpr<N1, Import>, b: SubExpr<N2, Import>) -> bool {
    same_sub(a, b, import_fe())
}


/// Whether two byte vectors hold the same bytes.
fn bytes_eq(a: &Vec<u8>, b: &Vec<u8>) -> (r: bool)
    ensures
        r == (a@ == b@),
{
    if a.len() != b.len() {
        return false;
    }
    let mut i: usize = 0;
    while i < a.len()
        invariant
            i <= a@.len(),
            a@.len() == b@.len(),
            forall|j: int| 0 <= j < i ==> a@[j] == b@[j],
        decreases a@.len() - i,
    {
        if a[i] != b[i] {
            return false;
        }
        i = i + 1;
    }
    proof {
        assert(a@ =~= b@);
    }
    true
}

/// Whether two optional hashes hold the same digest.
pub fn hash_opt_eq(a: &Option<crate::import::Hash>, b: &Option<crate::import::Hash>) -> (r: bool)
    ensures
        r == hash_opt_matches(*a, *b),
{
    match (a, b) {
        (None, None) => true,
        (Some(crate::import::Hash::SHA256(xa)), Some(crate::import::Hash::SHA256(xb))) => {
            bytes_eq(xa, xb)
        },
        _ => false,
    }
}

/// Whether two string vectors hold the same characters, element by element.
fn string_vec_eq(a: &Vec<String>, b: &Vec<String>) -> (r: bool)
    ensures
        r == strings_match(a@, b@),
{
    if a.len() != b.len() {
        return false;
    }
    let mut i: usize = 0;
    while i < a.len()
        invariant
            i <= a@.len(),
            a@.len() == b@.len(),
            forall|j: int| 0 <= j < i ==> (#[trigger] a@[j])@ == b@[j]@,
        decreases a@.len() - i,
    {
        if !str_eq(a[i].as_str(), b[i].as_str()) {
            return false;
        }
        i = i + 1;
    }
    true
}

/// Whether two import locations are the same.
pub fn location_eq(a: &ImportLocation, b: &ImportLocation) -> (r: bool)
    ensures
        r == location_matches(*a, *b),
    decreases *a,
{
    match (a, b) {
        (ImportLocation::Local(pa, ca), ImportLocation::Local(pb, cb)) => {
            *pa == *pb && string_vec_eq(ca, cb)
        },
        (ImportLocation::Remote(ua), ImportLocation::Remote(ub)) => {
            if ua.scheme != ub.scheme {
                return false;
            }
            if !str_eq(ua.authority.as_str(), ub.authority.as_str()) {
                return false;
            }
            if !string_vec_eq(&ua.path, &ub.path) {
                return false;
            }
            let queries_same = match (&ua.query, &ub.query) {
                (None, None) => true,
                (Some(qa), Some(qb)) => str_eq(qa.as_str(), qb.as_str()),
                _ => false,
            };
            if !queries_same {
                return false;
            }
            match (&ua.headers, &ub.headers) {
                (None, None) => true,
                (Some(ha), Some(hb)) => location_eq(&ha.0, &hb.0) && hash_opt_eq(&ha.1, &hb.1),
                _ => false,
            }
        },
        (ImportLocation::Env(ea), ImportLocation::Env(eb)) => {
            str_eq(ea.as_str(), eb.as_str())
        },
        (ImportLocation::Missing, ImportLocation::Missing) => true,
        _ => false,
    }
}

/// Whether two imports are the same.
pub fn import_eq(a: &Import, b: &Import) -> (r: bool)
    ensures
        r == import_matches(*a, *b),
{
    a.mode == b.mode && location_eq(&a.location, &b.location) && hash_opt_eq(&a.hash, &b.hash)
}



/// Whether two parsed trees are structurally equal, ignoring the notes.
pub fn subexpr_eq<N1, N2>(a: &SubExpr<N1, Import>, b: &SubExpr<N2, Import>) -> (r: bool)
    ensures
        r == equivalent(*a, *b),
    decreases *a, 1int,
{
    exprf_eq(a.as_ref(), b.as_ref())
}

/// Whether two bare expressions are structurally equal, ignoring the notes.
pub fn exprf_eq<N1, N2>(a: &ExprF<N1, Import>, b: &ExprF<N2, Import>) -> (r: bool)
    ensures
        r == same_expr(*a, *b, import_fe()),
    decreases *a, 0int,
{
    match (a, b) {
        (ExprF::Const(ca), ExprF::Const(cb)) => *ca == *cb,
        (ExprF::Var(va), ExprF::Var(vb)) => va.0.eq_label(&vb.0) && va.1 == vb.1,
        (ExprF::Lam(la, ta, ba), ExprF::Lam(lb, tb, bb)) => {
            la.eq_label(lb) && subexpr_eq(ta, tb) && subexpr_eq(ba, bb)
        },
        (ExprF::Pi(la, ta, ba), ExprF::Pi(lb, tb, bb)) => {
            la.eq_label(lb) && subexpr_eq(ta, tb) && subexpr_eq(ba, bb)
        },
        (ExprF::App(fa, aa), ExprF::App(fb, ab)) => subexpr_eq(fa, fb) && subexpr_eq(aa, ab),
        (ExprF::Let(la, ta, ra, ba), ExprF::Let(lb, tb, rb, bb)) => {
            la.eq_label(lb) && sub_opt_eq(ta, tb) && subexpr_eq(ra, rb) && subexpr_eq(ba, bb)
        },
        (ExprF::Annot(xa, ta), ExprF::Annot(xb, tb)) => subexpr_eq(xa, xb) && subexpr_eq(ta, tb),
        (ExprF::Builtin(ba), ExprF::Builtin(bb)) => *ba == *bb,
        (ExprF::BinOp(oa, la, ra), ExprF::BinOp(ob, lb, rb)) => {
            *oa == *ob && subexpr_eq(la, lb) && subexpr_eq(ra, rb)
        },
        (ExprF::BoolLit(xa), ExprF::BoolLit(xb)) => *xa == *xb,
        (ExprF::BoolIf(ca, ta, ea), ExprF::BoolIf(cb, tb, eb)) => {
            subexpr_eq(ca, cb) && subexpr_eq(ta, tb) && subexpr_eq(ea, eb)
        },
        (ExprF::NaturalLit(xa), ExprF::NaturalLit(xb)) => *xa == *xb,
        (ExprF::IntegerLit(xa), ExprF::IntegerLit(xb)) => *xa == *xb,
        (ExprF::DoubleLit(xa), ExprF::DoubleLit(xb)) => xa.to_bits() == xb.to_bits(),
        (ExprF::TextLit(ta), ExprF::TextLit(tb)) => text_eq(ta, tb),
        (ExprF::EmptyListLit(ta), ExprF::EmptyListLit(tb)) => subexpr_eq(ta, tb),
        (ExprF::NEListLit(va), ExprF::NEListLit(vb)) => sub_vec_eq(va, vb),
        (ExprF::OldOptionalLit(xa, ta), ExprF::OldOptionalLit(xb, tb)) => {
            sub_opt_eq(xa, xb) && subexpr_eq(ta, tb)
        },
        (ExprF::SomeLit(xa), ExprF::SomeLit(xb)) => subexpr_eq(xa, xb),
        (ExprF::RecordType(va), ExprF::RecordType(vb)) => rows_eq(va, vb),
        (ExprF::RecordLit(va), ExprF::RecordLit(vb)) => rows_eq(va, vb),
        (ExprF::UnionType(va), ExprF::UnionType(vb)) => alts_eq(va, vb),
        (ExprF::UnionLit(la, xa, va), ExprF::UnionLit(lb, xb, vb)) => {
            la.eq_label(lb) && subexpr_eq(xa, xb) && alts_eq(va, vb)
        },
        (ExprF::Merge(xa, ya, ta), ExprF::Merge(xb, yb, tb)) => {
            subexpr_eq(xa, xb) && subexpr_eq(ya, yb) && sub_opt_eq(ta, tb)
        },
        (ExprF::Field(xa, la), ExprF::Field(xb, lb)) => subexpr_eq(xa, xb) && la.eq_label(lb),
        (ExprF::Projection(xa, va), ExprF::Projection(xb, vb)) => {
            subexpr_eq(xa, xb) && labels_eq(va, vb)
        },
        (ExprF::Embed(ea), ExprF::Embed(eb)) => import_eq(ea, eb),
        _ => false,
    }
}

/// Whether two optional wrapped expressions are structurally equal.
fn sub_opt_eq<N1, N2>(a: &Option<SubExpr<N1, Import>>, b: &Option<SubExpr<N2, Import>>) -> (r:
    bool)
    ensures
        r == same_sub_opt(*a, *b, import_fe()),
    decreases *a, 0int,
{
    match (a, b) {
        (None, None) => true,
        (Some(x), Some(y)) => subexpr_eq(x, y),
        _ => false,
    }
}

/// Whether the wrapped expressions are pairwise structurally equal.
fn sub_vec_eq<N1, N2>(a: &Vec<SubExpr<N1, Import>>, b: &Vec<SubExpr<N2, Import>>) -> (r: bool)
    ensures
        r == same_subs(a@, b@, import_fe()),
    decreases a@, 0int,
{
    if a.len() != b.len() {
        return false;
    }
    let mut i: usize = 0;
    while i < a.len()
        invariant
            i <= a@.len(),
            a@.len() == b@.len(),
            forall|j: int| 0 <= j < i ==> same_sub(#[trigger] a@[j], b@[j], import_fe()),
        decreases a@.len() - i,
    {
        if !subexpr_eq(&a[i], &b[i]) {
            return false;
        }
        i = i + 1;
    }
    true
}

/// Whether the record rows are pairwise structurally equal.
fn rows_eq<N1, N2>(a: &Vec<(Label, SubExpr<N1, Import>)>, b: &Vec<(Label, SubExpr<N2, Import>)>) -> (r:
    bool)
    ensures
        r == same_rows(a@, b@, import_fe()),
    decreases a@, 0int,
{
    if a.len() != b.len() {
        return false;
    }
    let mut i: usize = 0;
    while i < a.len()
        invariant
            i <= a@.len(),
            a@.len() == b@.len(),
            forall|j: int|
                0 <= j < i ==> (#[trigger] a@[j]).0@ == b@[j].0@ && same_sub(
                    a@[j].1,
                    b@[j].1,
                    import_fe(),
                ),
        decreases a@.len() - i,
    {
        if !a[i].0.eq_label(&b[i].0) {
            return false;
        }
        if !subexpr_eq(&a[i].1, &b[i].1) {
            return false;
        }
        i = i + 1;
    }
    true
}

/// Whether the union alternatives are pairwise structurally equal.
fn alts_eq<N1, N2>(
    a: &Vec<(Label, Option<SubExpr<N1, Import>>)>,
    b: &Vec<(Label, Option<SubExpr<N2, Import>>)>,
) -> (r: bool)
    ensures
        r == same_alts(a@, b@, import_fe()),
    decreases a@, 0int,
{
    if a.len() != b.len() {
        return false;
    }
    let mut i: usize = 0;
    while i < a.len()
        invariant
            i <= a@.len(),
            a@.len() == b@.len(),
            forall|j: int|
                0 <= j < i ==> (#[trigger] a@[j]).0@ == b@[j].0@ && same_sub_opt(
                    a@[j].1,
                    b@[j].1,
                    import_fe(),
                ),
        decreases a@.len() - i,
    {
        if !a[i].0.eq_label(&b[i].0) {
            return false;
        }
        if !sub_opt_eq(&a[i].1, &b[i].1) {
            return false;
        }
        i = i + 1;
    }
    true
}

/// Whether the labels are pairwise equal by their characters.
fn labels_eq(a: &Vec<Label>, b: &Vec<Label>) -> (r: bool)
    ensures
        r == same_label_seq(a@, b@),
{
    if a.len() != b.len() {
        return false;
    }
    let mut i: usize = 0;
    while i < a.len()
        invariant
            i <= a@.len(),
            a@.len() == b@.len(),
            forall|j: int| 0 <= j < i ==> (#[trigger] a@[j])@ == b@[j]@,
        decreases a@.len() - i,
    {
        if !a[i].eq_label(&b[i]) {
            return false;
        }
        i = i + 1;
    }
    true
}

/// Whether two text literals are structurally equal.
fn text_eq<N1, N2>(
    a: &InterpolatedText<SubExpr<N1, Import>>,
    b: &InterpolatedText<SubExpr<N2, Import>>,
) -> (r: bool)
    ensures
        r == same_text(*a, *b, import_fe()),
    decreases *a, 0int,
{
    if !str_eq(a.head.as_str(), b.head.as_str()) {
        return false;
    }
    if a.tail.len() != b.tail.len() {
        return false;
    }
    let mut i: usize = 0;
    while i < a.tail.len()
        invariant
            a.head@ == b.head@,
            i <= a.tail@.len(),
            a.tail@.len() == b.tail@.len(),
            forall|j: int|
                0 <= j < i ==> same_sub(#[trigger] a.tail@[j].0, b.tail@[j].0, import_fe())
                    && a.tail@[j].1@ == b.tail@[j].1@,
        decreases a.tail@.len() - i,
    {
        if !subexpr_eq(&a.tail[i].0, &b.tail[i].0) {
            return false;
        }
        if !str_eq(a.tail[i].1.as_str(), b.tail[i].1.as_str()) {
            return false;
        }
        i = i + 1;
    }
    proof {
        assert(same_text(*a, *b, import_fe()));
    }
    true
}


} // verus!

verus! {

/// Structural equality is reflexive whenever the embed comparison is.
pub proof fn lemma_same_sub_refl<N, E>(a: SubExpr<N, E>, fe: spec_fn(E, E) -> bool)
    requires
        forall|e: E| #[trigger] fe(e, e),
    ensures
        same_sub(a, a, fe),
    decreases a, 1int,
{
    lemma_same_expr_refl(a.spec_expr(), fe);
}

/// As `lemma_same_sub_refl`, on a bare expression layer.
pub proof fn lemma_same_expr_refl<N, E>(a: ExprF<N, E>, fe: spec_fn(E, E) -> bool)
    requires
        forall|e: E| #[trigger] fe(e, e),
    ensures
        same_expr(a, a, fe),
    decreases a, 0int,
{
    match a {
        ExprF::Lam(l, t, b) => {
            lemma_same_sub_refl(t, fe);
            lemma_same_sub_refl(b, fe);
        },
        ExprF::Pi(l, t, b) => {
            lemma_same_sub_refl(t, fe);
            lemma_same_sub_refl(b, fe);
        },
        ExprF::App(f, x) => {
            lemma_same_sub_refl(f, fe);
            lemma_same_sub_refl(x, fe);
        },
        ExprF::Let(l, t, v, b) => {
            lemma_same_sub_opt_refl(t, fe);
            lemma_same_sub_refl(v, fe);
            lemma_same_sub_refl(b, fe);
        },
        ExprF::Annot(x, t) => {
            lemma_same_sub_refl(x, fe);
            lemma_same_sub_refl(t, fe);
        },
        ExprF::BinOp(o, x, y) => {
            lemma_same_sub_refl(x, fe);
            lemma_same_sub_refl(y, fe);
        },
        ExprF::BoolIf(c, t, e) => {
            lemma_same_sub_refl(c, fe);
            lemma_same_sub_refl(t, fe);
            lemma_same_sub_refl(e, fe);
        },
        ExprF::TextLit(t) => {
            assert forall|i: int| 0 <= i < t.tail@.len() implies same_sub(
                #[trigger] t.tail@[i].0,
                t.tail@[i].0,
                fe,
            ) && t.tail@[i].1@ == t.tail@[i].1@ by {
                lemma_same_sub_refl(t.tail@[i].0, fe);
            }
        },
        ExprF::EmptyListLit(t) => {
            lemma_same_sub_refl(t, fe);
        },
        ExprF::NEListLit(v) => {
            assert forall|i: int| 0 <= i < v@.len() implies same_sub(#[trigger] v@[i], v@[i], fe) by {
                lemma_same_sub_refl(v@[i], fe);
            }
        },
        ExprF::OldOptionalLit(x, t) => {
            lemma_same_sub_opt_refl(x, fe);
            lemma_same_sub_refl(t, fe);
        },
        ExprF::SomeLit(x) => {
            lemma_same_sub_refl(x, fe);
        },
        ExprF::RecordType(v) => {
            lemma_same_rows_refl(v@, fe);
        },
        ExprF::RecordLit(v) => {
            lemma_same_rows_refl(v@, fe);
        },
        ExprF::UnionType(v) => {
            lemma_same_alts_refl(v@, fe);
        },
        ExprF::UnionLit(l, x, v) => {
            lemma_same_sub_refl(x, fe);
            lemma_same_alts_refl(v@, fe);
        },
        ExprF::Merge(x, y, t) => {
            lemma_same_sub_refl(x, fe);
            lemma_same_sub_refl(y, fe);
            lemma_same_sub_opt_refl(t, fe);
        },
        ExprF::Field(x, l) => {
            lemma_same_sub_refl(x, fe);
        },
        ExprF::Projection(x, v) => {
            lemma_same_sub_refl(x, fe);
        },
        _ => {},
    }
}

proof fn lemma_same_sub_opt_refl<N, E>(a: Option<SubExpr<N, E>>, fe: spec_fn(E, E) -> bool)
    requires
        forall|e: E| #[trigger] fe(e, e),
    ensures
        same_sub_opt(a, a, fe),
    decreases a, 2int,
{
    match a {
        Some(x) => {
            lemma_same_sub_refl(x, fe);
        },
        None => {},
    }
}

proof fn lemma_same_rows_refl<N, E>(a: Seq<(Label, SubExpr<N, E>)>, fe: spec_fn(E, E) -> bool)
    requires
        forall|e: E| #[trigger] fe(e, e),
    ensures
        same_rows(a, a, fe),
    decreases a, 2int,
{
    assert forall|i: int|
        0 <= i < a.len() implies (#[trigger] a[i]).0@ == a[i].0@ && same_sub(a[i].1, a[i].1, fe) by {
        lemma_same_sub_refl(a[i].1, fe);
    }
}

proof fn lemma_same_alts_refl<N, E>(
    a: Seq<(Label, Option<SubExpr<N, E>>)>,
    fe: spec_fn(E, E) -> bool,
)
    requires
        forall|e: E| #[trigger] fe(e, e),
    ensures
        same_alts(a, a, fe),
    decreases a, 2int,
{
    assert forall|i: int|
        0 <= i < a.len() implies (#[trigger] a[i]).0@ == a[i].0@ && same_sub_opt(
        a[i].1,
        a[i].1,
        fe,
    ) by {
        lemma_same_sub_opt_refl(a[i].1, fe);
    }
}

} // verus!

verus! {

/// Structural equality composes: trees equal to a common middle tree are
/// equal to each other, under the composed embed comparison.
pub proof fn lemma_same_sub_trans<N1, E1, N2, E2, N3, E3>(
    a: SubExpr<N1, E1>,
    b: SubExpr<N2, E2>,
    c: SubExpr<N3, E3>,
    f: spec_fn(E1, E2) -> bool,
    g: spec_fn(E2, E3) -> bool,
    h: spec_fn(E1, E3) -> bool,
)
    requires
        same_sub(a, b, f),
        same_sub(b, c, g),
        forall|x: E1, y: E2, z: E3| #[trigger] f(x, y) && #[trigger] g(y, z) ==> h(x, z),
    ensures
        same_sub(a, c, h),
    decreases a, 1int,
{
    lemma_same_expr_trans(a.spec_expr(), b.spec_expr(), c.spec_expr(), f, g, h);
}

/// As `lemma_same_sub_trans`, on a bare expression layer.
pub proof fn lemma_same_expr_trans<N1, E1, N2, E2, N3, E3>(
    a: ExprF<N1, E1>,
    b: ExprF<N2, E2>,
    c: ExprF<N3, E3>,
    f: spec_fn(E1, E2) -> bool,
    g: spec_fn(E2, E3) -> bool,
    h: spec_fn(E1, E3) -> bool,
)
    requires
        same_expr(a, b, f),
        same_expr(b, c, g),
        forall|x: E1, y: E2, z: E3| #[trigger] f(x, y) && #[trigger] g(y, z) ==> h(x, z),
    ensures
        same_expr(a, c, h),
    decreases a, 0int,
{
    match (a, b, c) {

        (ExprF::Lam(la, ta, ba), ExprF::Lam(lb, tb, bb), ExprF::Lam(lc, tc, bc)) => {
            lemma_same_sub_trans(ta, tb, tc, f, g, h);
            lemma_same_sub_trans(ba, bb, bc, f, g, h);
        },
        (ExprF::Pi(la, ta, ba), ExprF::Pi(lb, tb, bb), ExprF::Pi(lc, tc, bc)) => {
            lemma_same_sub_trans(ta, tb, tc, f, g, h);
            lemma_same_sub_trans(ba, bb, bc, f, g, h);
        },
        (ExprF::App(fa, aa), ExprF::App(fb, ab), ExprF::App(fc, ac)) => {
            lemma_same_sub_trans(fa, fb, fc, f, g, h);
            lemma_same_sub_trans(aa, ab, ac, f, g, h);
        },
        (
            ExprF::Let(la, ta, ra, ba),
            ExprF::Let(lb, tb, rb, bb),
            ExprF::Let(lc, tc, rc, bc),
        ) => {
            lemma_same_sub_opt_trans(ta, tb, tc, f, g, h);
            lemma_same_sub_trans(ra, rb, rc, f, g, h);
            lemma_same_sub_trans(ba, bb, bc, f, g, h);
        },
        (ExprF::Annot(xa, ta), ExprF::Annot(xb, tb), ExprF::Annot(xc, tc)) => {
            lemma_same_sub_trans(xa, xb, xc, f, g, h);
            lemma_same_sub_trans(ta, tb, tc, f, g, h);
        },
        (ExprF::BinOp(oa, la, ra), ExprF::BinOp(ob, lb, rb), ExprF::BinOp(oc, lc, rc)) => {
            lemma_same_sub_trans(la, lb, lc, f, g, h);
            lemma_same_sub_trans(ra, rb, rc, f, g, h);
        },
        (ExprF::BoolIf(ca, ta, ea), ExprF::BoolIf(cb, tb, eb), ExprF::BoolIf(cc, tc, ec)) => {
            lemma_same_sub_trans(ca, cb, cc, f, g, h);
            lemma_same_sub_trans(ta, tb, tc, f, g, h);
            lemma_same_sub_trans(ea, eb, ec, f, g, h);
        },
        (ExprF::TextLit(ta), ExprF::TextLit(tb), ExprF::TextLit(tc)) => {
            assert forall|i: int| 0 <= i < ta.tail@.len() implies same_sub(
                #[trigger] ta.tail@[i].0,
                tc.tail@[i].0,
                h,
            ) && ta.tail@[i].1@ == tc.tail@[i].1@ by {
                lemma_same_sub_trans(ta.tail@[i].0, tb.tail@[i].0, tc.tail@[i].0, f, g, h);
            }
        },
        (ExprF::EmptyListLit(ta), ExprF::EmptyListLit(tb), ExprF::EmptyListLit(tc)) => {
            lemma_same_sub_trans(ta, tb, tc, f, g, h);
        },
        (ExprF::NEListLit(va), ExprF::NEListLit(vb), ExprF::NEListLit(vc)) => {
            assert forall|i: int| 0 <= i < va@.len() implies same_sub(
                #[trigger] va@[i],
                vc@[i],
                h,
            ) by {
                lemma_same_sub_trans(va@[i], vb@[i], vc@[i], f, g, h);
            }
        },
        (
            ExprF::OldOptionalLit(xa, ta),
            ExprF::OldOptionalLit(xb, tb),
            ExprF::OldOptionalLit(xc, tc),
        ) => {
            lemma_same_sub_opt_trans(xa, xb, xc, f, g, h);
            lemma_same_sub_trans(ta, tb, tc, f, g, h);
        },
        (ExprF::SomeLit(xa), ExprF::SomeLit(xb), ExprF::SomeLit(xc)) => {
            lemma_same_sub_trans(xa, xb, xc, f, g, h);
        },
        (ExprF::RecordType(va), ExprF::RecordType(vb), ExprF::RecordType(vc)) => {
            assert forall|i: int|
                0 <= i < va@.len() implies (#[trigger] va@[i]).0@ == vc@[i].0@ && same_sub(
                va@[i].1,
                vc@[i].1,
                h,
            ) by {
                lemma_same_sub_trans(va@[i].1, vb@[i].1, vc@[i].1, f, g, h);
            }
        },
        (ExprF::RecordLit(va), ExprF::RecordLit(vb), ExprF::RecordLit(vc)) => {
            assert forall|i: int|
                0 <= i < va@.len() implies (#[trigger] va@[i]).0@ == vc@[i].0@ && same_sub(
                va@[i].1,
                vc@[i].1,
                h,
            ) by {
                lemma_same_sub_trans(va@[i].1, vb@[i].1, vc@[i].1, f, g, h);
            }
        },
        (ExprF::UnionType(va), ExprF::UnionType(vb), ExprF::UnionType(vc)) => {
            assert forall|i: int|
                0 <= i < va@.len() implies (#[trigger] va@[i]).0@ == vc@[i].0@ && same_sub_opt(
                va@[i].1,
                vc@[i].1,
                h,
            ) by {
                lemma_same_sub_opt_trans(va@[i].1, vb@[i].1, vc@[i].1, f, g, h);
            }
        },
        (
            ExprF::UnionLit(la, xa, va),
            ExprF::UnionLit(lb, xb, vb),
            ExprF::UnionLit(lc, xc, vc),
        ) => {
            lemma_same_sub_trans(xa, xb, xc, f, g, h);
            assert forall|i: int|
                0 <= i < va@.len() implies (#[trigger] va@[i]).0@ == vc@[i].0@ && same_sub_opt(
                va@[i].1,
                vc@[i].1,
                h,
            ) by {
                lemma_same_sub_opt_trans(va@[i].1, vb@[i].1, vc@[i].1, f, g, h);
            }
        },
        (ExprF::Merge(xa, ya, ta), ExprF::Merge(xb, yb, tb), ExprF::Merge(xc, yc, tc)) => {
            lemma_same_sub_trans(xa, xb, xc, f, g, h);
            lemma_same_sub_trans(ya, yb, yc, f, g, h);
            lemma_same_sub_opt_trans(ta, tb, tc, f, g, h);
        },
        (ExprF::Field(xa, la), ExprF::Field(xb, lb), ExprF::Field(xc, lc)) => {
            lemma_same_sub_trans(xa, xb, xc, f, g, h);
        },
        (ExprF::Projection(xa, va), ExprF::Projection(xb, vb), ExprF::Projection(xc, vc)) => {
            lemma_same_sub_trans(xa, xb, xc, f, g, h);
        },
        _ => {},
    }
}

proof fn lemma_same_sub_opt_trans<N1, E1, N2, E2, N3, E3>(
    a: Option<SubExpr<N1, E1>>,
    b: Option<SubExpr<N2, E2>>,
    c: Option<SubExpr<N3, E3>>,
    f: spec_fn(E1, E2) -> bool,
    g: spec_fn(E2, E3) -> bool,
    h: spec_fn(E1, E3) -> bool,
)
    requires
        same_sub_opt(a, b, f),
        same_sub_opt(b, c, g),
        forall|x: E1, y: E2, z: E3| #[trigger] f(x, y) && #[trigger] g(y, z) ==> h(x, z),
    ensures
        same_sub_opt(a, c, h),
    decreases a, 2int,
{
    match (a, b, c) {
        (Some(x), Some(y), Some(z)) => {
            lemma_same_sub_trans(x, y, z, f, g, h);
        },
        _ => {},
    }
}

} // verus!
