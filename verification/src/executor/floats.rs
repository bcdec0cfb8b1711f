//! Arithmetic on numbers that are no integers. Such numbers are carried as
//! decimal text; what computes with them is supplied by the caller.

use crate::bytes::Rank;
use crate::parser::ast::BinaryOperator;
use vstd::prelude::*;

verus! {

/// The text that an operation gave, if it gave one.
pub open spec fn text_of(r: Option<String>) -> Option<Seq<char>> {
    match r {
        Some(t) => Some(t@),
        None => None,
    }
}

/// Arithmetic on numbers given as decimal text. An implementation may
/// describe its results by the four functions that end in `_spec` and say so
/// by `exact`; what is proved of the executor then speaks of those results. The
/// defaults describe nothing, and of an implementation that keeps them
/// nothing is assumed.
pub trait FloatOps {
    /// Whether the four operations give what `arith_spec`,
    /// `compare_spec`, `near_spec` and `zero_spec` say.
    open spec fn exact(&self) -> bool {
        false
    }

    /// The result of `a op b`, where there is a finite one.
    open spec fn arith_spec(&self, op: BinaryOperator, a: Seq<char>, b: Seq<char>) -> Option<
        Seq<char>,
    > {
        None
    }

    /// How `a` and `b` compare, where they do.
    open spec fn compare_spec(&self, a: Seq<char>, b: Seq<char>) -> Option<Rank> {
        None
    }

    /// Whether `a` and `b` count as equal.
    open spec fn near_spec(&self, a: Seq<char>, b: Seq<char>) -> bool {
        false
    }

    /// Whether `a` counts as zero.
    open spec fn zero_spec(&self, a: Seq<char>) -> bool {
        false
    }

    /// `a op b` for `Add`, `Subtract`, `Multiply` and `Divide`; nothing
    /// where there is no finite result.
    fn arith(&self, op: BinaryOperator, a: &str, b: &str) -> (r: Option<String>)
        ensures
            self.exact() ==> text_of(r) == self.arith_spec(op, a@, b@),
    ;

    /// How `a` and `b` compare; nothing where they do not.
    fn compare(&self, a: &str, b: &str) -> (r: Option<Rank>)
        ensures
            self.exact() ==> r == self.compare_spec(a@, b@),
    ;

    /// Whether `a` and `b` differ by less than the machine epsilon.
    fn near(&self, a: &str, b: &str) -> (r: bool)
        ensures
            self.exact() ==> r == self.near_spec(a@, b@),
    ;

    /// Whether `a` is zero.
    fn is_zero(&self, a: &str) -> (r: bool)
        ensures
            self.exact() ==> r == self.zero_spec(a@),
    ;
}

/// Arithmetic for stores that hold integers only: no operation on other
/// numbers has a result.
#[derive(Debug, Clone, Copy)]
pub struct NoFloats;

impl FloatOps for NoFloats {
    open spec fn exact(&self) -> bool {
        true
    }

    open spec fn arith_spec(&self, op: BinaryOperator, a: Seq<char>, b: Seq<char>) -> Option<
        Seq<char>,
    > {
        None
    }

    open spec fn compare_spec(&self, a: Seq<char>, b: Seq<char>) -> Option<Rank> {
        None
    }

    open spec fn near_spec(&self, a: Seq<char>, b: Seq<char>) -> bool {
        a == b
    }

    open spec fn zero_spec(&self, a: Seq<char>) -> bool {
        false
    }

    fn arith(&self, op: BinaryOperator, a: &str, b: &str) -> (r: Option<String>)
        ensures
            r is None,
    {
        None
    }

    fn compare(&self, a: &str, b: &str) -> (r: Option<Rank>)
        ensures
            r is None,
    {
        None
    }

    fn near(&self, a: &str, b: &str) -> (r: bool)
        ensures
            r == (a@ == b@),
    {
        crate::bytes::str_eq(a, b)
    }

    fn is_zero(&self, a: &str) -> (r: bool)
        ensures
            !r,
    {
        false
    }
}

} // verus!
