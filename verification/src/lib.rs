//! The syntactic core of a Dhall front-end: the parametric expression tree,
//! the generic traversals every later phase is written with, a verified
//! recursive-descent parser from source text to spanned trees, and the bridge
//! from host value types to Dhall type expressions.

use vstd::prelude::*;

mod expr;
pub mod dmap;
pub mod eq;
pub mod import;
pub mod parse;
pub mod parse_expr;
pub mod parse_import;
pub mod parse_num;
pub mod parse_ops;
pub mod parse_text;
pub mod static_type;
pub mod strutil;
pub mod tree;
pub mod visitor;

pub use expr::add_ui;
pub use expr::rc;
pub use expr::BinOp;
pub use expr::Builtin;
pub use expr::Const;
pub use expr::DhallExpr;
pub use expr::Expr;
pub use expr::ExprF;
pub use expr::InterpolatedText;
pub use expr::Label;
pub use expr::NaiveDouble;
pub use expr::Noted;
pub use expr::ParsedExpr;
pub use expr::ResolvedExpr;
pub use expr::Span;
pub use expr::SubExpr;
pub use expr::V;
pub use import::import_matches;
pub use import::location_matches;
pub use import::FilePrefix;
pub use import::Import;
pub use import::ImportHashed;
pub use import::ImportLocation;
pub use import::ImportMode;
pub use import::Scheme;
pub use import::URL;
pub use import::URLData;
pub use parse::DoubleDecoder;
pub use parse::ParseError;
pub use parse::ParseErrorKind;
pub use parse_expr::parse_expr;
pub use parse_expr::ParseResult;
pub use static_type::Normalized;
pub use static_type::SimpleStaticType;
pub use static_type::SimpleType;
pub use static_type::StaticType;

verus! {

/// An empty type: its invariant can never be established, so no value of it
/// can ever be built by verified code, and none is handed out by this crate.
#[derive(Debug)]
pub struct X {
    no_value: (),
}

#[verifier::type_invariant]
spec fn x_uninhabited(x: X) -> bool {
    false
}

/// Extracts the value out of a `Result` whose error type has no values.
pub fn trivial_result<T>(x: Result<T, X>) -> (r: T)
    ensures
        x == Ok::<T, X>(r),
{
    match x {
        Ok(v) => v,
        Err(e) => {
            proof {
                use_type_invariant(&e);
            }
            vstd::pervasive::unreached()
        },
    }
}

} // verus!
