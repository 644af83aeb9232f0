//! The bridge from host value types to Dhall type expressions.

use crate::expr::{Builtin, Const, ExprF, Label, Noted, ResolvedExpr};
use crate::strutil::chars_to_string;
use vstd::prelude::*;

verus! {

/// A Dhall type expression in normal form that stands for a host value type:
/// no imports, no notes, no dependence on any value.
pub struct SimpleType {
    pub expr: ResolvedExpr,
}

/// The surface the normalizer presents: an expression together with the type
/// it was checked against.
pub struct Normalized {
    pub thunk: ResolvedExpr,
    pub typ: Option<Const>,
}

/// A value type with a statically known normal-form Dhall type: each
/// implementation says which type expression that is, and its reader is held
/// to it.
pub trait SimpleStaticType {
    spec fn is_simple_type(t: SimpleType) -> bool;

    fn get_simple_static_type() -> (r: SimpleType)
        ensures
            Self::is_simple_type(r),
    ;
}

/// A value type with a statically known Dhall type expression, not
/// necessarily a simple one.
pub trait StaticType {
    spec fn is_static_type(n: Normalized) -> bool;

    fn get_static_type() -> (r: Normalized)
        ensures
            Self::is_static_type(r),
    ;
}

/// A simple type is wrapped into the normalizer surface with the universe
/// `Type` as its type.
impl<T: SimpleStaticType> StaticType for T {
    open spec fn is_static_type(n: Normalized) -> bool {
        T::is_simple_type(SimpleType { expr: n.thunk }) && n.typ == Some(Const::Type)
    }

    fn get_static_type() -> (r: Normalized) {
        Normalized { thunk: T::get_simple_static_type().expr, typ: Some(Const::Type) }
    }
}

/// A simple type itself has the type `Type`.
impl StaticType for SimpleType {
    open spec fn is_static_type(n: Normalized) -> bool {
        n.thunk.spec_expr() == ExprF::Const::<crate::X, crate::X>(Const::Type) && n.typ is None
    }

    fn get_static_type() -> (r: Normalized) {
        Normalized {
            thunk: Noted::from_expr_no_note(ExprF::Const(Const::Type)),
            typ: None,
        }
    }
}

/// Builds the leaf type expression of a builtin.
fn builtin_type(b: Builtin) -> (r: SimpleType)
    ensures
        r.expr.spec_expr() == ExprF::Builtin::<crate::X, crate::X>(b),
{
    SimpleType { expr: Noted::from_expr_no_note(ExprF::Builtin(b)) }
}

impl SimpleStaticType for bool {
    open spec fn is_simple_type(t: SimpleType) -> bool {
        t.expr.spec_expr() == ExprF::Builtin::<crate::X, crate::X>(Builtin::Bool)
    }

    fn get_simple_static_type() -> (r: SimpleType) {
        builtin_type(Builtin::Bool)
    }
}

impl SimpleStaticType for usize {
    open spec fn is_simple_type(t: SimpleType) -> bool {
        t.expr.spec_expr() == ExprF::Builtin::<crate::X, crate::X>(Builtin::Natural)
    }

    fn get_simple_static_type() -> (r: SimpleType) {
        builtin_type(Builtin::Natural)
    }
}

impl SimpleStaticType for u32 {
    open spec fn is_simple_type(t: SimpleType) -> bool {
        t.expr.spec_expr() == ExprF::Builtin::<crate::X, crate::X>(Builtin::Natural)
    }

    fn get_simple_static_type() -> (r: SimpleType) {
        builtin_type(Builtin::Natural)
    }
}

impl SimpleStaticType for u64 {
    open spec fn is_simple_type(t: SimpleType) -> bool {
        t.expr.spec_expr() == ExprF::Builtin::<crate::X, crate::X>(Builtin::Natural)
    }

    fn get_simple_static_type() -> (r: SimpleType) {
        builtin_type(Builtin::Natural)
    }
}

impl SimpleStaticType for isize {
    open spec fn is_simple_type(t: SimpleType) -> bool {
        t.expr.spec_expr() == ExprF::Builtin::<crate::X, crate::X>(Builtin::Integer)
    }

    fn get_simple_static_type() -> (r: SimpleType) {
        builtin_type(Builtin::Integer)
    }
}

impl SimpleStaticType for i32 {
    open spec fn is_simple_type(t: SimpleType) -> bool {
        t.expr.spec_expr() == ExprF::Builtin::<crate::X, crate::X>(Builtin::Integer)
    }

    fn get_simple_static_type() -> (r: SimpleType) {
        builtin_type(Builtin::Integer)
    }
}

impl SimpleStaticType for i64 {
    open spec fn is_simple_type(t: SimpleType) -> bool {
        t.expr.spec_expr() == ExprF::Builtin::<crate::X, crate::X>(Builtin::Integer)
    }

    fn get_simple_static_type() -> (r: SimpleType) {
        builtin_type(Builtin::Integer)
    }
}

impl SimpleStaticType for String {
    open spec fn is_simple_type(t: SimpleType) -> bool {
        t.expr.spec_expr() == ExprF::Builtin::<crate::X, crate::X>(Builtin::Text)
    }

    fn get_simple_static_type() -> (r: SimpleType) {
        builtin_type(Builtin::Text)
    }
}

/// A pair maps to the two-field record `{ _1 : A, _2 : B }`.
impl<A: SimpleStaticType, B: SimpleStaticType> SimpleStaticType for (A, B) {
    open spec fn is_simple_type(t: SimpleType) -> bool {
        t.expr.spec_expr() matches ExprF::RecordType(rows) && rows@.len() == 2 && rows@[0].0@
            == "_1"@ && A::is_simple_type(SimpleType { expr: rows@[0].1 }) && rows@[1].0@ == "_2"@
            && B::is_simple_type(SimpleType { expr: rows@[1].1 })
    }

    fn get_simple_static_type() -> (r: SimpleType) {
        let ta = A::get_simple_static_type();
        let tb = B::get_simple_static_type();
        let mut rows: Vec<(Label, ResolvedExpr)> = Vec::new();
        rows.push((Label::new(chars_to_string(vec!['_', '1'].as_slice())), ta.expr));
        rows.push((Label::new(chars_to_string(vec!['_', '2'].as_slice())), tb.expr));
        proof {
            reveal_strlit("_1");
            reveal_strlit("_2");
            assert("_1"@.len() == 2 && "_1"@[0] == '_' && "_1"@[1] == '1');
            assert("_2"@.len() == 2 && "_2"@[0] == '_' && "_2"@[1] == '2');
            assert(rows@[0].0@ =~= "_1"@);
            assert(rows@[1].0@ =~= "_2"@);
        }
        SimpleType { expr: Noted::from_expr_no_note(ExprF::RecordType(rows)) }
    }
}

/// An optional value maps to `Optional T`.
impl<T: SimpleStaticType> SimpleStaticType for Option<T> {
    open spec fn is_simple_type(t: SimpleType) -> bool {
        t.expr.spec_expr() matches ExprF::App(f, a) && f.spec_expr() == ExprF::Builtin::<
            crate::X,
            crate::X,
        >(Builtin::Optional) && T::is_simple_type(SimpleType { expr: a })
    }

    fn get_simple_static_type() -> (r: SimpleType) {
        let t = T::get_simple_static_type();
        SimpleType {
            expr: Noted::from_expr_no_note(
                ExprF::App(Noted::from_expr_no_note(ExprF::Builtin(Builtin::Optional)), t.expr),
            ),
        }
    }
}

/// A sequence maps to `List T`.
impl<T: SimpleStaticType> SimpleStaticType for Vec<T> {
    open spec fn is_simple_type(t: SimpleType) -> bool {
        t.expr.spec_expr() matches ExprF::App(f, a) && f.spec_expr() == ExprF::Builtin::<
            crate::X,
            crate::X,
        >(Builtin::List) && T::is_simple_type(SimpleType { expr: a })
    }

    fn get_simple_static_type() -> (r: SimpleType) {
        let t = T::get_simple_static_type();
        SimpleType {
            expr: Noted::from_expr_no_note(
                ExprF::App(Noted::from_expr_no_note(ExprF::Builtin(Builtin::List)), t.expr),
            ),
        }
    }
}

/// A borrowed view leaves the type unchanged.
impl<'a, T: SimpleStaticType> SimpleStaticType for &'a T {
    open spec fn is_simple_type(t: SimpleType) -> bool {
        T::is_simple_type(t)
    }

    fn get_simple_static_type() -> (r: SimpleType) {
        T::get_simple_static_type()
    }
}

/// A phantom value maps to the empty record.
impl<T> SimpleStaticType for core::marker::PhantomData<T> {
    open spec fn is_simple_type(t: SimpleType) -> bool {
        t.expr.spec_expr() matches ExprF::RecordType(rows) && rows@.len() == 0
    }

    fn get_simple_static_type() -> (r: SimpleType) {
        SimpleType { expr: Noted::from_expr_no_note(ExprF::RecordType(Vec::new())) }
    }
}

/// A fallible value maps to the union `< Ok : T | Err : E >`.
impl<T: SimpleStaticType, E: SimpleStaticType> SimpleStaticType for Result<T, E> {
    open spec fn is_simple_type(t: SimpleType) -> bool {
        &&& t.expr.spec_expr() matches ExprF::UnionType(alts)
        &&& alts@.len() == 2
        &&& alts@[0].0@ == "Err"@
        &&& alts@[0].1 matches Some(te) && E::is_simple_type(SimpleType { expr: te })
        &&& alts@[1].0@ == "Ok"@
        &&& alts@[1].1 matches Some(tt) && T::is_simple_type(SimpleType { expr: tt })
    }

    fn get_simple_static_type() -> (r: SimpleType) {
        let tt = T::get_simple_static_type();
        let te = E::get_simple_static_type();
        let mut alts: Vec<(Label, Option<ResolvedExpr>)> = Vec::new();
        alts.push((Label::new(chars_to_string(vec!['E', 'r', 'r'].as_slice())), Some(te.expr)));
        alts.push((Label::new(chars_to_string(vec!['O', 'k'].as_slice())), Some(tt.expr)));
        proof {
            reveal_strlit("Err");
            reveal_strlit("Ok");
            assert("Err"@.len() == 3 && "Err"@[0] == 'E' && "Err"@[1] == 'r' && "Err"@[2] == 'r');
            assert("Ok"@.len() == 2 && "Ok"@[0] == 'O' && "Ok"@[1] == 'k');
            assert(alts@[0].0@ =~= "Err"@);
            assert(alts@[1].0@ =~= "Ok"@);
        }
        SimpleType { expr: Noted::from_expr_no_note(ExprF::UnionType(alts)) }
    }
}

} // verus!
