//! Precedence climbing over a flat run of operators, every operator
//! left-associative.

use crate::expr::{BinOp, ExprF, Noted, Span, SubExpr};
use crate::import::Import;
use vstd::prelude::*;

verus! {

/// The precedence of an operator: its place in the source order, lowest
/// binding first.
pub open spec fn spec_prec(op: BinOp) -> nat {
    match op {
        BinOp::ImportAlt => 0,
        BinOp::BoolOr => 1,
        BinOp::NaturalPlus => 2,
        BinOp::TextAppend => 3,
        BinOp::ListAppend => 4,
        BinOp::BoolAnd => 5,
        BinOp::Combine => 6,
        BinOp::Prefer => 7,
        BinOp::CombineTypes => 8,
        BinOp::NaturalTimes => 9,
        BinOp::BoolEQ => 10,
        BinOp::BoolNE => 11,
        BinOp::Equivalence => 12,
    }
}

pub fn prec(op: BinOp) -> (r: u32)
    ensures
        r == spec_prec(op),
{
    match op {
        BinOp::ImportAlt => 0,
        BinOp::BoolOr => 1,
        BinOp::NaturalPlus => 2,
        BinOp::TextAppend => 3,
        BinOp::ListAppend => 4,
        BinOp::BoolAnd => 5,
        BinOp::Combine => 6,
        BinOp::Prefer => 7,
        BinOp::CombineTypes => 8,
        BinOp::NaturalTimes => 9,
        BinOp::BoolEQ => 10,
        BinOp::BoolNE => 11,
        BinOp::Equivalence => 12,
    }
}

/// The type of the trees the operator parser works on.
pub type OpExpr = SubExpr<Span, Import>;

/// Whether `r` is the left-associated tree over `first` and the given
/// operator-operand pairs: each pair wraps the tree built so far as the left
/// operand of an unnoted operator node.
pub open spec fn is_left_fold(r: OpExpr, first: OpExpr, rest: Seq<(BinOp, OpExpr)>) -> bool
    decreases rest.len(),
{
    if rest.len() == 0 {
        r == first
    } else {
        &&& r.spec_note() == None::<Span>
        &&& r.spec_expr() matches ExprF::BinOp(op, l, rr) && op == rest.last().0 && rr
            == rest.last().1 && is_left_fold(l, first, rest.drop_last())
    }
}

/// Whether every operator of the pairs sits at precedence `p`.
pub open spec fn uniform_prec(rest: Seq<(BinOp, OpExpr)>, p: nat) -> bool {
    forall|i: int| 0 <= i < rest.len() ==> spec_prec((#[trigger] rest[i]).0) == p
}

/// Climbs the flat operator sequence from `idx` on, consuming operators of
/// precedence at least `min_prec`, every operator left-associative. Where the
/// operators share one precedence the result is exactly the left-associated
/// tree: `a + b + c` parses as `(a + b) + c`.
pub fn climb(first: OpExpr, rest: &Vec<(BinOp, OpExpr)>, idx: usize, min_prec: u32) -> (r: (
    OpExpr,
    usize,
))
    requires
        idx <= rest@.len(),
    ensures
        idx <= r.1 <= rest@.len(),
        forall|p: nat|
            uniform_prec(rest@, p) && min_prec > p ==> r.0 == first && r.1 == idx,
        forall|p: nat|
            uniform_prec(rest@, p) && min_prec <= p ==> r.1 == rest@.len() && is_left_fold(
                r.0,
                first,
                rest@.skip(idx as int),
            ),
        min_prec == 0 ==> r.1 == rest@.len(),
        min_prec == 0 && idx < rest@.len() ==> r.0.spec_note() is None && r.0.spec_expr()
            is BinOp,
    decreases rest@.len() - idx, 0int,
{
    let ghost gfirst = first;
    let mut e = first;
    let mut i = idx;
    while i < rest.len() && prec(rest[i].0) >= min_prec
        invariant
            idx <= i <= rest@.len(),
            forall|p: nat| uniform_prec(rest@, p) && min_prec > p ==> e == gfirst && i == idx,
            forall|p: nat|
                uniform_prec(rest@, p) && min_prec <= p ==> is_left_fold(
                    e,
                    gfirst,
                    rest@.subrange(idx as int, i as int),
                ),
            min_prec == 0 && idx < i ==> e.spec_note() is None && e.spec_expr() is BinOp,
        decreases rest@.len() - i,
    {
        let op = rest[i].0;
        let operand = rest[i].1.clone();
        let (rhs, i2) = climb_tail(operand, rest, i + 1, prec(op) + 1);
        let ghost e_before = e;
        let node = Noted::from_expr_no_note(ExprF::BinOp(op, e, rhs));
        proof {
            assert forall|p: nat| uniform_prec(rest@, p) && min_prec <= p implies is_left_fold(
                node,
                gfirst,
                rest@.subrange(idx as int, i2 as int),
            ) by {
                assert(spec_prec(rest@[i as int].0) == p);
                assert(spec_prec(op) + 1 > p);
                assert(rhs == rest@[i as int].1 && i2 == i + 1);
                let sub = rest@.subrange(idx as int, i2 as int);
                assert(sub.last() == rest@[i as int]);
                assert(sub.drop_last() =~= rest@.subrange(idx as int, i as int));
                assert(is_left_fold(e_before, gfirst, sub.drop_last()));
            }
        }
        e = node;
        i = i2;
        proof {
            assert forall|p: nat| uniform_prec(rest@, p) implies min_prec <= p by {
                assert(spec_prec(rest@[i2 - 1].0) == p);
            }
        }
    }
    proof {
        assert forall|p: nat|
            uniform_prec(rest@, p) && min_prec <= p implies i == rest@.len() && is_left_fold(
            e,
            gfirst,
            rest@.skip(idx as int),
        ) by {
            if i < rest@.len() {
                assert(spec_prec(rest@[i as int].0) == p);
            }
            assert(rest@.subrange(idx as int, i as int) =~= rest@.skip(idx as int));
        }
    }
    (e, i)
}

/// As `climb`, from the right-hand operand of an operator: used so that the
/// mutual recursion visibly consumes one pair per step.
fn climb_tail(first: OpExpr, rest: &Vec<(BinOp, OpExpr)>, idx: usize, min_prec: u32) -> (r: (
    OpExpr,
    usize,
))
    requires
        idx <= rest@.len(),
    ensures
        idx <= r.1 <= rest@.len(),
        forall|p: nat| uniform_prec(rest@, p) && min_prec > p ==> r.0 == first && r.1 == idx,
        forall|p: nat|
            uniform_prec(rest@, p) && min_prec <= p ==> r.1 == rest@.len() && is_left_fold(
                r.0,
                first,
                rest@.skip(idx as int),
            ),
    decreases rest@.len() - idx, 1int,
{
    climb(first, rest, idx, min_prec)
}

} // verus!
