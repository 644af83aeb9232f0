//! The expression tree and its primitives: labels, variables, constants,
//! operators, builtins, doubles under bitwise equality, and the
//! reference-counted wrapper that carries an optional note on every node.

use crate::X;
use std::rc::Rc;
use vstd::prelude::*;

verus! {

/// A canonical identifier, used for variable names and record/union keys.
#[derive(Debug)]
pub struct Label {
    name: String,
}

impl Clone for Label {
    fn clone(&self) -> (r: Self)
        ensures
            r == *self,
    {
        Label { name: self.name.clone() }
    }
}

impl Label {
    pub closed spec fn view(&self) -> Seq<char> {
        self.name@
    }

    pub fn new(name: String) -> (r: Label)
        ensures
            r@ == name@,
    {
        Label { name }
    }

    pub fn name(&self) -> (r: &String)
        ensures
            r@ == self@,
    {
        &self.name
    }

    pub fn eq_label(&self, other: &Label) -> (r: bool)
        ensures
            r == (self@ == other@),
    {
        self.name == other.name
    }
}

/// A variable: a name together with a de Bruijn offset that skips that many
/// enclosing binders of the same name.
#[derive(Debug)]
pub struct V(pub Label, pub usize);

impl Clone for V {
    fn clone(&self) -> (r: Self)
        ensures
            r == *self,
    {
        V(self.0.clone(), self.1)
    }
}

/// Adds an `isize` to a `usize`. The caller has to rule overflow and
/// underflow out.
pub fn add_ui(u: usize, i: isize) -> (r: usize)
    requires
        0 <= u + i <= usize::MAX,
    ensures
        r == u + i,
{
    if i < 0 {
        // `-i` itself can overflow `isize`, so take the magnitude in two steps.
        let mag: usize = ((-(i + 1)) as usize) + 1;
        u - mag
    } else {
        u + (i as usize)
    }
}

impl V {
    /// Shifts this variable by `delta` with respect to `var`: the offset moves
    /// by `delta` when both variables carry the same name and `var`'s offset
    /// does not exceed this one's.
    pub fn shift(&self, delta: isize, var: &V) -> (r: V)
        requires
            self@.0 == var@.0 && var@.1 <= self@.1 ==> 0 <= self@.1 + delta <= usize::MAX,
        ensures
            r@ == (if self@.0 == var@.0 && var@.1 <= self@.1 {
                (self@.0, self@.1 + delta)
            } else {
                self@
            }),
    {
        let V(x, n) = var;
        let V(y, m) = self;
        if x.eq_label(y) && *n <= *m {
            V(y.clone(), add_ui(*m, delta))
        } else {
            V(y.clone(), *m)
        }
    }

    /// The variable's name and offset.
    pub open spec fn view(&self) -> (Seq<char>, int) {
        (self.0@, self.1 as int)
    }
}

/// Constants for a pure type system, ordered by universe level.
#[derive(Debug, Copy, Clone, PartialEq, Eq, Structural)]
pub enum Const {
    Type,
    Kind,
    Sort,
}

/// The binary operators, in source precedence order, lowest first.
#[derive(Debug, Copy, Clone, PartialEq, Eq, Structural)]
pub enum BinOp {
    /// `x ? y`
    ImportAlt,
    /// `x || y`
    BoolOr,
    /// `x + y`
    NaturalPlus,
    /// `x ++ y`
    TextAppend,
    /// `x # y`
    ListAppend,
    /// `x && y`
    BoolAnd,
    /// `x ∧ y`
    Combine,
    /// `x ⫽ y`
    Prefer,
    /// `x ⩓ y`
    CombineTypes,
    /// `x * y`
    NaturalTimes,
    /// `x == y`
    BoolEQ,
    /// `x != y`
    BoolNE,
    /// `x ≡ y`
    Equivalence,
}

/// The built-in identifiers.
#[derive(Debug, Copy, Clone, PartialEq, Eq, Structural)]
pub enum Builtin {
    Bool,
    Natural,
    Integer,
    Double,
    Text,
    List,
    Optional,
    OptionalNone,
    NaturalBuild,
    NaturalFold,
    NaturalIsZero,
    NaturalEven,
    NaturalOdd,
    NaturalToInteger,
    NaturalShow,
    NaturalSubtract,
    IntegerToDouble,
    IntegerShow,
    DoubleShow,
    ListBuild,
    ListFold,
    ListLength,
    ListHead,
    ListLast,
    ListIndexed,
    ListReverse,
    OptionalFold,
    OptionalBuild,
    TextShow,
}

/// The builtin named by `s`, if any: each source spelling maps to at most
/// one variant.
pub open spec fn builtin_of(s: Seq<char>) -> Option<Builtin> {
    if s == "Bool"@ {
        Some(Builtin::Bool)
    } else if s == "Natural"@ {
        Some(Builtin::Natural)
    } else if s == "Integer"@ {
        Some(Builtin::Integer)
    } else if s == "Double"@ {
        Some(Builtin::Double)
    } else if s == "Text"@ {
        Some(Builtin::Text)
    } else if s == "List"@ {
        Some(Builtin::List)
    } else if s == "Optional"@ {
        Some(Builtin::Optional)
    } else if s == "None"@ {
        Some(Builtin::OptionalNone)
    } else if s == "Natural/build"@ {
        Some(Builtin::NaturalBuild)
    } else if s == "Natural/fold"@ {
        Some(Builtin::NaturalFold)
    } else if s == "Natural/isZero"@ {
        Some(Builtin::NaturalIsZero)
    } else if s == "Natural/even"@ {
        Some(Builtin::NaturalEven)
    } else if s == "Natural/odd"@ {
        Some(Builtin::NaturalOdd)
    } else if s == "Natural/toInteger"@ {
        Some(Builtin::NaturalToInteger)
    } else if s == "Natural/show"@ {
        Some(Builtin::NaturalShow)
    } else if s == "Natural/subtract"@ {
        Some(Builtin::NaturalSubtract)
    } else if s == "Integer/toDouble"@ {
        Some(Builtin::IntegerToDouble)
    } else if s == "Integer/show"@ {
        Some(Builtin::IntegerShow)
    } else if s == "Double/show"@ {
        Some(Builtin::DoubleShow)
    } else if s == "List/build"@ {
        Some(Builtin::ListBuild)
    } else if s == "List/fold"@ {
        Some(Builtin::ListFold)
    } else if s == "List/length"@ {
        Some(Builtin::ListLength)
    } else if s == "List/head"@ {
        Some(Builtin::ListHead)
    } else if s == "List/last"@ {
        Some(Builtin::ListLast)
    } else if s == "List/indexed"@ {
        Some(Builtin::ListIndexed)
    } else if s == "List/reverse"@ {
        Some(Builtin::ListReverse)
    } else if s == "Optional/fold"@ {
        Some(Builtin::OptionalFold)
    } else if s == "Optional/build"@ {
        Some(Builtin::OptionalBuild)
    } else if s == "Text/show"@ {
        Some(Builtin::TextShow)
    } else {
        None
    }
}

impl Builtin {
    /// Maps a source string to the builtin it names, if any.
    pub fn parse(s: &str) -> (r: Option<Builtin>)
        ensures
            r == builtin_of(s@),
    {
        if crate::strutil::str_eq(s, "Bool") {
            Some(Builtin::Bool)
        } else if crate::strutil::str_eq(s, "Natural") {
            Some(Builtin::Natural)
        } else if crate::strutil::str_eq(s, "Integer") {
            Some(Builtin::Integer)
        } else if crate::strutil::str_eq(s, "Double") {
            Some(Builtin::Double)
        } else if crate::strutil::str_eq(s, "Text") {
            Some(Builtin::Text)
        } else if crate::strutil::str_eq(s, "List") {
            Some(Builtin::List)
        } else if crate::strutil::str_eq(s, "Optional") {
            Some(Builtin::Optional)
        } else if crate::strutil::str_eq(s, "None") {
            Some(Builtin::OptionalNone)
        } else if crate::strutil::str_eq(s, "Natural/build") {
            Some(Builtin::NaturalBuild)
        } else if crate::strutil::str_eq(s, "Natural/fold") {
            Some(Builtin::NaturalFold)
        } else if crate::strutil::str_eq(s, "Natural/isZero") {
            Some(Builtin::NaturalIsZero)
        } else if crate::strutil::str_eq(s, "Natural/even") {
            Some(Builtin::NaturalEven)
        } else if crate::strutil::str_eq(s, "Natural/odd") {
            Some(Builtin::NaturalOdd)
        } else if crate::strutil::str_eq(s, "Natural/toInteger") {
            Some(Builtin::NaturalToInteger)
        } else if crate::strutil::str_eq(s, "Natural/show") {
            Some(Builtin::NaturalShow)
        } else if crate::strutil::str_eq(s, "Natural/subtract") {
            Some(Builtin::NaturalSubtract)
        } else if crate::strutil::str_eq(s, "Integer/toDouble") {
            Some(Builtin::IntegerToDouble)
        } else if crate::strutil::str_eq(s, "Integer/show") {
            Some(Builtin::IntegerShow)
        } else if crate::strutil::str_eq(s, "Double/show") {
            Some(Builtin::DoubleShow)
        } else if crate::strutil::str_eq(s, "List/build") {
            Some(Builtin::ListBuild)
        } else if crate::strutil::str_eq(s, "List/fold") {
            Some(Builtin::ListFold)
        } else if crate::strutil::str_eq(s, "List/length") {
            Some(Builtin::ListLength)
        } else if crate::strutil::str_eq(s, "List/head") {
            Some(Builtin::ListHead)
        } else if crate::strutil::str_eq(s, "List/last") {
            Some(Builtin::ListLast)
        } else if crate::strutil::str_eq(s, "List/indexed") {
            Some(Builtin::ListIndexed)
        } else if crate::strutil::str_eq(s, "List/reverse") {
            Some(Builtin::ListReverse)
        } else if crate::strutil::str_eq(s, "Optional/fold") {
            Some(Builtin::OptionalFold)
        } else if crate::strutil::str_eq(s, "Optional/build") {
            Some(Builtin::OptionalBuild)
        } else if crate::strutil::str_eq(s, "Text/show") {
            Some(Builtin::TextShow)
        } else {
            None
        }
    }
}


/// A 64-bit IEEE 754 double held as its bit pattern, so that equality is
/// bitwise, as canonical hashing of syntax trees requires.
#[derive(Debug, Copy, Clone, PartialEq, Eq, Structural)]
pub struct NaiveDouble {
    bits: u64,
}

impl NaiveDouble {
    pub closed spec fn view(&self) -> u64 {
        self.bits
    }

    pub fn from_bits(bits: u64) -> (r: NaiveDouble)
        ensures
            r@ == bits,
    {
        NaiveDouble { bits }
    }

    pub fn to_bits(&self) -> (r: u64)
        ensures
            r == self@,
    {
        self.bits
    }
}

/// A text literal: literal fragments alternating with interpolated
/// sub-expressions. `head` comes first, then each pair of `tail` contributes
/// one interpolated expression followed by one literal fragment.
#[derive(Debug)]
pub struct InterpolatedText<SE> {
    pub head: String,
    pub tail: Vec<(SE, String)>,
}

/// A range into the original source text, counted in characters.
#[derive(Debug, Clone, Copy, PartialEq, Eq, Structural)]
pub struct Span {
    pub start: usize,
    pub end: usize,
}

/// An expression together with an optional note, shared across clones by
/// reference counting.
#[derive(Debug)]
pub struct Noted<N, T>(Rc<(T, Option<N>)>);

impl<N, T> Noted<N, T> {
    /// The wrapped expression.
    pub closed spec fn spec_expr(&self) -> T {
        self.0.0
    }

    /// The attached note, if any.
    pub closed spec fn spec_note(&self) -> Option<N> {
        self.0.1
    }

    pub fn as_ref(&self) -> (r: &T)
        ensures
            *r == self.spec_expr(),
    {
        &self.0.0
    }

    pub fn note(&self) -> (r: &Option<N>)
        ensures
            *r == self.spec_note(),
    {
        &self.0.1
    }

    pub fn new(x: T, n: N) -> (r: Noted<N, T>)
        ensures
            r.spec_expr() == x,
            r.spec_note() == Some(n),
    {
        Noted(Rc::new((x, Some(n))))
    }

    pub fn from_expr_no_note(x: T) -> (r: Noted<N, T>)
        ensures
            r.spec_expr() == x,
            r.spec_note() == None::<N>,
    {
        Noted(Rc::new((x, None)))
    }
}

impl<N: Clone, T> Noted<N, T> {
    /// Wraps a new expression under this node's note.
    pub fn rewrap<T2>(&self, x: T2) -> (r: Noted<N, T2>)
        ensures
            r.spec_expr() == x,
            r.spec_note() is Some <==> self.spec_note() is Some,
            self.spec_note() matches Some(o) ==> (r.spec_note() matches Some(m)
                && vstd::pervasive::cloned::<N>(o, m)),
    {
        Noted(Rc::new((x, self.0.1.clone())))
    }
}

impl<N, T> Clone for Noted<N, T> {
    /// A clone shares the inner pair with the original.
    fn clone(&self) -> (r: Self)
        ensures
            r == *self,
    {
        Noted(Rc::clone(&self.0))
    }
}

/// The recursion-closing wrapper around one expression node: the node itself
/// plus an optional note. Equality of trees ignores the note.
pub type SubExpr<N, E> = Noted<N, ExprF<N, E>>;

/// Kept as the familiar name for the bare expression layer.
pub type Expr<N, E> = ExprF<N, E>;

/// The expression tree, parameterised by the note type `N` carried by every
/// sub-expression and the embedded payload `E`. Record and union rows are held
/// as key-value vectors; the parser only ever builds them with distinct keys,
/// sorted by label.
#[derive(Debug)]
pub enum ExprF<N, E> {
    Const(Const),
    /// `x`, `x@n`
    Var(V),
    /// `λ(x : A) -> b`
    Lam(Label, SubExpr<N, E>, SubExpr<N, E>),
    /// `A -> B`, `∀(x : A) -> B`
    Pi(Label, SubExpr<N, E>, SubExpr<N, E>),
    /// `f a`
    App(SubExpr<N, E>, SubExpr<N, E>),
    /// `let x = r in e`, `let x : t = r in e`
    Let(Label, Option<SubExpr<N, E>>, SubExpr<N, E>, SubExpr<N, E>),
    /// `x : t`
    Annot(SubExpr<N, E>, SubExpr<N, E>),
    Builtin(Builtin),
    BinOp(BinOp, SubExpr<N, E>, SubExpr<N, E>),
    /// `True`
    BoolLit(bool),
    /// `if x then y else z`
    BoolIf(SubExpr<N, E>, SubExpr<N, E>, SubExpr<N, E>),
    /// `1`
    NaturalLit(usize),
    /// `+2`
    IntegerLit(isize),
    /// `3.24`
    DoubleLit(NaiveDouble),
    /// `"Some ${interpolated} text"`
    TextLit(InterpolatedText<SubExpr<N, E>>),
    /// `[] : List t`
    EmptyListLit(SubExpr<N, E>),
    /// `[x, y, z]`
    NEListLit(Vec<SubExpr<N, E>>),
    /// Deprecated optional literal: `[] : Optional a`, `[x] : Optional a`
    OldOptionalLit(Option<SubExpr<N, E>>, SubExpr<N, E>),
    /// `Some e`
    SomeLit(SubExpr<N, E>),
    /// `{ k1 : t1, k2 : t2 }`
    RecordType(Vec<(Label, SubExpr<N, E>)>),
    /// `{ k1 = v1, k2 = v2 }`
    RecordLit(Vec<(Label, SubExpr<N, E>)>),
    /// `< k1 : t1, k2 >`
    UnionType(Vec<(Label, Option<SubExpr<N, E>>)>),
    /// `< k1 = v1, k2 : t2, k3 >`
    UnionLit(Label, SubExpr<N, E>, Vec<(Label, Option<SubExpr<N, E>>)>),
    /// `merge x y : t`
    Merge(SubExpr<N, E>, SubExpr<N, E>, Option<SubExpr<N, E>>),
    /// `e.x`
    Field(SubExpr<N, E>, Label),
    /// `e.{ x, y, z }`
    Projection(SubExpr<N, E>, Vec<Label>),
    /// An embedded payload: an import before resolution, nothing after.
    Embed(E),
}

/// The wrapped expression sits strictly below the wrapper in the structural
/// height order, so recursion through `spec_expr` terminates.
pub broadcast proof fn lemma_noted_decreases<N, T>(x: Noted<N, T>)
    ensures
        #[trigger] (decreases_to!(x => x.spec_expr())),
{
}

/// A freshly parsed tree: spans as notes, unresolved imports as embeds.
pub type ParsedExpr = SubExpr<Span, crate::import::Import>;

/// A fully resolved tree: no notes, no embeds.
pub type ResolvedExpr = SubExpr<X, X>;

/// The resolved tree under its traditional name.
pub type DhallExpr = ResolvedExpr;

/// Wraps an expression with no note.
pub fn rc<E>(x: Expr<X, E>) -> (r: SubExpr<X, E>)
    ensures
        r.spec_expr() == x,
        r.spec_note() == None::<X>,
{
    Noted::from_expr_no_note(x)
}

} // verus!
