//! Evaluation of expressions in a row.
//!
//! Integers are computed exactly; an operation that leaves the 64-bit
//! range fails. Numbers in text form are handed to the caller's
//! [`FloatOps`], and of their results nothing is claimed.

use crate::bytes::{compare_bytes, lex_rank, Rank};
use crate::executor::convert::{json_to_value, json_value, literal_to_value, literal_value};
use crate::executor::error::{ExecutionError, Failure};
use crate::executor::floats::FloatOps;
use crate::executor::value::{lookup, Row, RowValue, ValueView};
use crate::json::{Json, JsonView};
use crate::parser::ast::{
    texts_view, BinaryOperator, ExprView, Expression, PropertyExpression, PropertyView,
    UnaryOperator,
};
use crate::text::{decimal_text, push_decimal_text};
use vstd::prelude::*;
use vstd::string::StringExecFns;
use vstd::utf8::encode_utf8;

verus! {

/// What an evaluation gives: a value, a failure, or whatever the caller's
/// arithmetic on numbers in text form gives.
pub enum Outcome {
    Is(ValueView),
    Fails(Failure),
    Floats,
}

/// A result is what the outcome says.
pub open spec fn agrees(r: Result<RowValue, ExecutionError>, o: Outcome) -> bool {
    match o {
        Outcome::Is(v) => r matches Ok(x) && x@ == v,
        Outcome::Fails(f) => r matches Err(e) && e.kind() == f,
        Outcome::Floats => true,
    }
}

/// Whether a value counts as true: null, false, zero and the empty string,
/// list, map and path do not; a vertex and an edge do. Left open for a
/// number in text form.
pub open spec fn truthy(v: ValueView) -> Option<bool> {
    match v {
        ValueView::Null => Some(false),
        ValueView::Boolean(b) => Some(b),
        ValueView::Integer(i) => Some(i != 0),
        ValueView::Float(_) => None,
        ValueView::String(s) => Some(s.len() > 0),
        ValueView::List(l) => Some(l.len() > 0),
        ValueView::Mapping(m) => Some(m.len() > 0),
        ValueView::Vertex(_) => Some(true),
        ValueView::Edge(_) => Some(true),
        ValueView::Path(p) => Some(p.len() > 0),
    }
}

/// Whether two values are equal: values of one simple type by their
/// content, anything else is unequal. Left open where a number in text form
/// meets a number.
pub open spec fn equal_values(a: ValueView, b: ValueView) -> Option<bool> {
    match (a, b) {
        (ValueView::Null, ValueView::Null) => Some(true),
        (ValueView::Boolean(x), ValueView::Boolean(y)) => Some(x == y),
        (ValueView::Integer(x), ValueView::Integer(y)) => Some(x == y),
        (ValueView::Float(_), ValueView::Float(_)) => None,
        (ValueView::Integer(_), ValueView::Float(_)) => None,
        (ValueView::Float(_), ValueView::Integer(_)) => None,
        (ValueView::String(x), ValueView::String(y)) => Some(x == y),
        _ => Some(false),
    }
}

/// How two integers compare.
pub open spec fn int_rank(a: int, b: int) -> Rank {
    if a < b {
        Rank::Less
    } else if a == b {
        Rank::Equal
    } else {
        Rank::Greater
    }
}

/// How two values compare in a filter: integers by value, strings by their
/// bytes; other types do not compare. Left open for numbers in text form.
pub open spec fn filter_rank(a: ValueView, b: ValueView) -> Option<Result<Rank, ()>> {
    match (a, b) {
        (ValueView::Integer(x), ValueView::Integer(y)) => Some(Ok(int_rank(x as int, y as int))),
        (ValueView::Float(_), ValueView::Float(_)) => None,
        (ValueView::Integer(_), ValueView::Float(_)) => None,
        (ValueView::Float(_), ValueView::Integer(_)) => None,
        (ValueView::String(x), ValueView::String(y)) => Some(
            Ok(lex_rank(encode_utf8(x), encode_utf8(y))),
        ),
        _ => Some(Err(())),
    }
}

/// Whether a rank satisfies a comparison operator.
pub open spec fn rank_satisfies(op: BinaryOperator, r: Rank) -> bool {
    match op {
        BinaryOperator::Lt => r == Rank::Less,
        BinaryOperator::Gt => r == Rank::Greater,
        BinaryOperator::Lte => r != Rank::Greater,
        BinaryOperator::Gte => r != Rank::Less,
        _ => false,
    }
}

/// The quotient of two integers, rounded towards zero.
pub open spec fn trunc_div(a: int, b: int) -> int {
    let q = (if a < 0 {
        -a
    } else {
        a
    }) / (if b < 0 {
        -b
    } else {
        b
    });
    if (a < 0) != (b < 0) {
        -q
    } else {
        q
    }
}

/// The remainder that goes with `trunc_div`: it has the sign of `a`.
pub open spec fn trunc_rem(a: int, b: int) -> int {
    let r = (if a < 0 {
        -a
    } else {
        a
    }) % (if b < 0 {
        -b
    } else {
        b
    });
    if a < 0 {
        -r
    } else {
        r
    }
}

/// An integer result, if it fits 64 bits.
pub open spec fn fit(x: int) -> Outcome {
    if -0x8000_0000_0000_0000 <= x <= 0x7fff_ffff_ffff_ffff {
        Outcome::Is(ValueView::Integer(x as i64))
    } else {
        Outcome::Fails(Failure::InvalidExpression)
    }
}

/// Whether an operator is `+`, `-` or `*`.
pub open spec fn is_arithmetic(op: BinaryOperator) -> bool {
    op == BinaryOperator::Add || op == BinaryOperator::Subtract || op == BinaryOperator::Multiply
}

/// The outcome of `+`, `-` and `*`: integers exactly, two strings joined by
/// `+`, numbers in text form left open, anything else a type mismatch. Any
/// other operator is unsupported here.
pub open spec fn arith_outcome(op: BinaryOperator, a: ValueView, b: ValueView) -> Outcome {
    if !is_arithmetic(op) {
        Outcome::Fails(Failure::Unsupported)
    } else {
        arith_values(op, a, b)
    }
}

/// The outcome of `+`, `-` or `*` on two values.
pub open spec fn arith_values(op: BinaryOperator, a: ValueView, b: ValueView) -> Outcome {
    match (a, b) {
        (ValueView::Integer(x), ValueView::Integer(y)) => match op {
            BinaryOperator::Add => fit(x + y),
            BinaryOperator::Subtract => fit(x - y),
            BinaryOperator::Multiply => fit(x * y),
            _ => Outcome::Fails(Failure::TypeMismatch),
        },
        (ValueView::Float(_), ValueView::Float(_)) => Outcome::Floats,
        (ValueView::Integer(_), ValueView::Float(_)) => Outcome::Floats,
        (ValueView::Float(_), ValueView::Integer(_)) => Outcome::Floats,
        (ValueView::String(x), ValueView::String(y)) => if op == BinaryOperator::Add {
            Outcome::Is(ValueView::String(x + y))
        } else {
            Outcome::Fails(Failure::TypeMismatch)
        },
        _ => Outcome::Fails(Failure::TypeMismatch),
    }
}

/// The outcome of a binary operator on two values.
pub open spec fn binary_outcome(op: BinaryOperator, a: ValueView, b: ValueView) -> Outcome {
    match op {
        BinaryOperator::Eq => match equal_values(a, b) {
            Some(e) => Outcome::Is(ValueView::Boolean(e)),
            None => Outcome::Floats,
        },
        BinaryOperator::Neq => match equal_values(a, b) {
            Some(e) => Outcome::Is(ValueView::Boolean(!e)),
            None => Outcome::Floats,
        },
        BinaryOperator::Lt | BinaryOperator::Gt | BinaryOperator::Lte | BinaryOperator::Gte => match filter_rank(
            a,
            b,
        ) {
            Some(Ok(r)) => Outcome::Is(ValueView::Boolean(rank_satisfies(op, r))),
            Some(Err(_)) => Outcome::Fails(Failure::TypeMismatch),
            None => Outcome::Floats,
        },
        BinaryOperator::And => match (truthy(a), truthy(b)) {
            (Some(x), Some(y)) => Outcome::Is(ValueView::Boolean(x && y)),
            _ => Outcome::Floats,
        },
        BinaryOperator::Or => match (truthy(a), truthy(b)) {
            (Some(x), Some(y)) => Outcome::Is(ValueView::Boolean(x || y)),
            _ => Outcome::Floats,
        },
        BinaryOperator::Add | BinaryOperator::Subtract | BinaryOperator::Multiply => arith_outcome(
            op,
            a,
            b,
        ),
        BinaryOperator::Divide => match (a, b) {
            (_, ValueView::Integer(y)) => if y == 0 {
                Outcome::Fails(Failure::InvalidExpression)
            } else {
                match a {
                    ValueView::Integer(x) => fit(trunc_div(x as int, y as int)),
                    ValueView::Float(_) => Outcome::Floats,
                    _ => Outcome::Fails(Failure::TypeMismatch),
                }
            },
            (_, ValueView::Float(_)) => Outcome::Floats,
            _ => Outcome::Fails(Failure::TypeMismatch),
        },
        BinaryOperator::Modulo => match (a, b) {
            (ValueView::Integer(x), ValueView::Integer(y)) => if y == 0 {
                Outcome::Fails(Failure::InvalidExpression)
            } else {
                Outcome::Is(ValueView::Integer(trunc_rem(x as int, y as int) as i64))
            },
            _ => Outcome::Fails(Failure::InvalidExpression),
        },
    }
}

/// The outcome of a unary operator on a value.
pub open spec fn unary_outcome(op: UnaryOperator, v: ValueView) -> Outcome {
    match op {
        UnaryOperator::Not => match truthy(v) {
            Some(t) => Outcome::Is(ValueView::Boolean(!t)),
            None => Outcome::Floats,
        },
        UnaryOperator::Minus => match v {
            ValueView::Integer(i) => fit(-(i as int)),
            ValueView::Float(_) => Outcome::Floats,
            _ => Outcome::Fails(Failure::TypeMismatch),
        },
        UnaryOperator::Plus => match v {
            ValueView::Integer(_) => Outcome::Is(v),
            ValueView::Float(_) => Outcome::Is(v),
            _ => Outcome::Fails(Failure::TypeMismatch),
        },
    }
}

/// The value at the end of a property path, or the first name on the path
/// that is missing.
pub open spec fn path_outcome(j: JsonView, path: Seq<Seq<char>>) -> Result<JsonView, Seq<char>>
    decreases path.len(),
{
    if path.len() == 0 {
        Ok(j)
    } else {
        match j.get(path[0]) {
            Some(inner) => path_outcome(inner, path.subrange(1, path.len() as int)),
            None => Err(path[0]),
        }
    }
}

/// The outcome of reading a property chain in a row.
pub open spec fn property_outcome(p: PropertyView, row: Seq<(Seq<char>, ValueView)>) -> Outcome {
    match lookup(row, p.base) {
        None => Outcome::Fails(Failure::VariableNotFound(p.base)),
        Some(ValueView::Vertex(x)) => match path_outcome(x.properties, p.properties) {
            Ok(j) => Outcome::Is(json_value(j)),
            Err(k) => Outcome::Fails(Failure::PropertyNotFound(k)),
        },
        Some(ValueView::Edge(e)) => match path_outcome(e.properties, p.properties) {
            Ok(j) => Outcome::Is(json_value(j)),
            Err(k) => Outcome::Fails(Failure::PropertyNotFound(k)),
        },
        Some(_) => Outcome::Fails(Failure::TypeMismatch),
    }
}

/// The outcome of evaluating an expression in a row: depth first, the left
/// operand before the right, the first failure wins.
pub open spec fn eval(e: ExprView, row: Seq<(Seq<char>, ValueView)>) -> Outcome
    decreases e,
{
    match e {
        ExprView::Literal(l) => Outcome::Is(literal_value(l)),
        ExprView::Variable(name) => match lookup(row, name) {
            Some(v) => Outcome::Is(v),
            None => Outcome::Fails(Failure::VariableNotFound(name)),
        },
        ExprView::Property(p) => property_outcome(p, row),
        ExprView::BinaryOp { left, op, right } => match eval(*left, row) {
            Outcome::Is(a) => match eval(*right, row) {
                Outcome::Is(b) => binary_outcome(op, a, b),
                Outcome::Fails(f) => Outcome::Fails(f),
                Outcome::Floats => Outcome::Floats,
            },
            Outcome::Fails(f) => Outcome::Fails(f),
            Outcome::Floats => Outcome::Floats,
        },
        ExprView::UnaryOp { op, expr } => match eval(*expr, row) {
            Outcome::Is(a) => unary_outcome(op, a),
            Outcome::Fails(f) => Outcome::Fails(f),
            Outcome::Floats => Outcome::Floats,
        },
        ExprView::Parameter(_) => Outcome::Fails(Failure::Unsupported),
        ExprView::Index { .. } => Outcome::Fails(Failure::Unsupported),
        ExprView::FunctionCall { .. } => Outcome::Fails(Failure::Unsupported),
    }
}

/// The text of an integer: a minus sign for a negative one, then its
/// digits.
pub open spec fn int_text(i: i64) -> Seq<char> {
    if i < 0 {
        seq!['-'] + decimal_text((-(i as int)) as nat)
    } else {
        decimal_text(i as nat)
    }
}

/// Whether a value counts as true under the arithmetic `floats`, which
/// says of a number in text form whether it is zero.
pub open spec fn truthy_with<F: FloatOps>(floats: &F, v: ValueView) -> bool {
    match truthy(v) {
        Some(t) => t,
        None => !floats.zero_spec(number_text(v)),
    }
}

/// Whether two values are equal under the arithmetic `floats`, which says
/// of two numbers, one of them in text form, whether they count as equal.
pub open spec fn equal_with<F: FloatOps>(floats: &F, a: ValueView, b: ValueView) -> bool {
    match equal_values(a, b) {
        Some(e) => e,
        None => floats.near_spec(number_text(a), number_text(b)),
    }
}

/// How two values compare in a filter under the arithmetic `floats`.
pub open spec fn rank_with<F: FloatOps>(floats: &F, a: ValueView, b: ValueView) -> Result<Rank, ()> {
    match filter_rank(a, b) {
        Some(x) => x,
        None => Ok(float_rank(floats, number_text(a), number_text(b))),
    }
}

/// The outcome of a binary operator under the arithmetic `floats`: what
/// `binary_outcome` says where that is settled, and else what the
/// arithmetic gives. Division by a number in text form that counts as zero
/// is an invalid expression.
pub open spec fn binary_with<F: FloatOps>(floats: &F, op: BinaryOperator, a: ValueView, b: ValueView) -> Outcome {
    match binary_outcome(op, a, b) {
        Outcome::Floats => match op {
            BinaryOperator::Eq => Outcome::Is(ValueView::Boolean(equal_with(floats, a, b))),
            BinaryOperator::Neq => Outcome::Is(ValueView::Boolean(!equal_with(floats, a, b))),
            BinaryOperator::Lt | BinaryOperator::Gt | BinaryOperator::Lte | BinaryOperator::Gte => Outcome::Is(
                ValueView::Boolean(
                    rank_satisfies(op, float_rank(floats, number_text(a), number_text(b))),
                ),
            ),
            BinaryOperator::And => Outcome::Is(
                ValueView::Boolean(truthy_with(floats, a) && truthy_with(floats, b)),
            ),
            BinaryOperator::Or => Outcome::Is(
                ValueView::Boolean(truthy_with(floats, a) || truthy_with(floats, b)),
            ),
            BinaryOperator::Divide => if b is Float && floats.zero_spec(number_text(b)) {
                Outcome::Fails(Failure::InvalidExpression)
            } else if a is Integer || a is Float {
                float_outcome(floats, op, number_text(a), number_text(b))
            } else {
                Outcome::Fails(Failure::TypeMismatch)
            },
            _ => float_outcome(floats, op, number_text(a), number_text(b)),
        },
        o => o,
    }
}

/// The outcome of a unary operator under the arithmetic `floats`.
pub open spec fn unary_with<F: FloatOps>(floats: &F, op: UnaryOperator, v: ValueView) -> Outcome {
    match unary_outcome(op, v) {
        Outcome::Floats => match op {
            UnaryOperator::Not => Outcome::Is(ValueView::Boolean(!truthy_with(floats, v))),
            _ => float_outcome(floats, BinaryOperator::Subtract, "0"@, number_text(v)),
        },
        o => o,
    }
}

/// The outcome of evaluating an expression in a row under the arithmetic
/// `floats`: as `eval`, with the arithmetic's results in the place of what
/// `eval` leaves open.
pub open spec fn eval_with<F: FloatOps>(floats: &F, e: ExprView, row: Seq<(Seq<char>, ValueView)>) -> Outcome
    decreases e,
{
    match e {
        ExprView::BinaryOp { left, op, right } => match eval_with(floats, *left, row) {
            Outcome::Is(a) => match eval_with(floats, *right, row) {
                Outcome::Is(b) => binary_with(floats, op, a, b),
                o => o,
            },
            o => o,
        },
        ExprView::UnaryOp { op, expr } => match eval_with(floats, *expr, row) {
            Outcome::Is(a) => unary_with(floats, op, a),
            o => o,
        },
        _ => eval(e, row),
    }
}

/// What holds of the result of a binary operator that the caller's
/// arithmetic decides: a comparison or a connective gives a truth value; an
/// arithmetic operator gives a number in text form or fails as an invalid
/// expression, and a division may also fail as a type mismatch.
pub open spec fn open_binary(op: BinaryOperator, r: Result<RowValue, ExecutionError>) -> bool {
    match op {
        BinaryOperator::Add | BinaryOperator::Subtract | BinaryOperator::Multiply => float_result(r),
        BinaryOperator::Divide | BinaryOperator::Modulo => match r {
            Ok(v) => v@ is Float,
            Err(e) => e.kind() == Failure::InvalidExpression || e.kind() == Failure::TypeMismatch,
        },
        _ => r matches Ok(v) && v@ is Boolean,
    }
}

/// What holds of the result of a unary operator that the caller's
/// arithmetic decides.
pub open spec fn open_unary(op: UnaryOperator, r: Result<RowValue, ExecutionError>) -> bool {
    match op {
        UnaryOperator::Not => r matches Ok(v) && v@ is Boolean,
        _ => float_result(r),
    }
}

/// The magnitude of an integer.
pub fn magnitude(i: i64) -> (r: u64)
    ensures
        r == if i < 0 {
            -(i as int)
        } else {
            i as int
        },
{
    if i >= 0 {
        i as u64
    } else {
        let m: i64 = -(i + 1);
        (m as u64) + 1
    }
}

/// The text of an integer.
pub fn integer_text(i: i64) -> (r: String)
    ensures
        r@ == int_text(i),
{
    let mut out = String::new();
    if i < 0 {
        proof {
            reveal_strlit("-");
        }
        out.append("-");
    }
    push_decimal_text(&mut out, magnitude(i));
    assert(out@ =~= int_text(i));
    out
}

/// Whether a value counts as true.
pub fn is_truthy<F: FloatOps>(floats: &F, val: &RowValue) -> (r: bool)
    ensures
        truthy(val@) matches Some(t) ==> r == t,
        floats.exact() ==> r == truthy_with(floats, val@),
{
    proof {
        crate::executor::value::lemma_value_unfold(*val);
    }
    match val {
        RowValue::Null => false,
        RowValue::Boolean(b) => *b,
        RowValue::Integer(i) => *i != 0,
        RowValue::Float(f) => !floats.is_zero(f.as_str()),
        RowValue::String(s) => s.as_str().unicode_len() > 0,
        RowValue::List(l) => l.len() > 0,
        RowValue::Mapping(m) => m.len() > 0,
        RowValue::Vertex(_) => true,
        RowValue::Edge(_) => true,
        RowValue::Path(p) => p.len() > 0,
    }
}

/// Whether two values are equal.
pub fn values_eq<F: FloatOps>(floats: &F, left: &RowValue, right: &RowValue) -> (r: bool)
    ensures
        equal_values(left@, right@) matches Some(e) ==> r == e,
        floats.exact() ==> r == equal_with(floats, left@, right@),
{
    match (left, right) {
        (RowValue::Null, RowValue::Null) => true,
        (RowValue::Boolean(a), RowValue::Boolean(b)) => *a == *b,
        (RowValue::Integer(a), RowValue::Integer(b)) => *a == *b,
        (RowValue::Float(a), RowValue::Float(b)) => floats.near(a.as_str(), b.as_str()),
        (RowValue::Integer(a), RowValue::Float(b)) => floats.near(
            integer_text(*a).as_str(),
            b.as_str(),
        ),
        (RowValue::Float(a), RowValue::Integer(b)) => floats.near(
            a.as_str(),
            integer_text(*b).as_str(),
        ),
        (RowValue::String(a), RowValue::String(b)) => crate::bytes::str_eq(a.as_str(), b.as_str()),
        _ => false,
    }
}

/// How two integers compare.
pub fn rank_integers(a: i64, b: i64) -> (r: Rank)
    ensures
        r == int_rank(a as int, b as int),
{
    if a < b {
        Rank::Less
    } else if a == b {
        Rank::Equal
    } else {
        Rank::Greater
    }
}

/// How two numbers in text form compare under the arithmetic `floats`:
/// numbers that do not compare count as equal.
pub open spec fn float_rank<F: FloatOps>(floats: &F, a: Seq<char>, b: Seq<char>) -> Rank {
    match floats.compare_spec(a, b) {
        Some(r) => r,
        None => Rank::Equal,
    }
}

/// How two numbers compare where at least one is in text form; numbers
/// that do not compare count as equal.
fn rank_floats<F: FloatOps>(floats: &F, a: &str, b: &str) -> (r: Rank)
    ensures
        floats.exact() ==> r == float_rank(floats, a@, b@),
{
    match floats.compare(a, b) {
        Some(r) => r,
        None => Rank::Equal,
    }
}

/// How two values compare in a filter.
pub fn compare_in_filter<F: FloatOps>(floats: &F, left: &RowValue, right: &RowValue) -> (r: Result<
    Rank,
    ExecutionError,
>)
    ensures
        match filter_rank(left@, right@) {
            Some(Ok(rank)) => r matches Ok(x) && x == rank,
            Some(Err(_)) => r matches Err(e) && e.kind() == Failure::TypeMismatch,
            None => r is Ok,
        },
        r matches Err(e) ==> e.kind() != Failure::Storage,
        floats.exact() ==> match rank_with(floats, left@, right@) {
            Ok(rank) => r matches Ok(x) && x == rank,
            Err(_) => r matches Err(e) && e.kind() == Failure::TypeMismatch,
        },
{
    match (left, right) {
        (RowValue::Integer(a), RowValue::Integer(b)) => Ok(rank_integers(*a, *b)),
        (RowValue::Float(a), RowValue::Float(b)) => Ok(rank_floats(floats, a.as_str(), b.as_str())),
        (RowValue::Integer(a), RowValue::Float(b)) => Ok(
            rank_floats(floats, integer_text(*a).as_str(), b.as_str()),
        ),
        (RowValue::Float(a), RowValue::Integer(b)) => Ok(
            rank_floats(floats, a.as_str(), integer_text(*b).as_str()),
        ),
        (RowValue::String(a), RowValue::String(b)) => Ok(
            compare_bytes(a.as_str().as_bytes(), b.as_str().as_bytes()),
        ),
        _ => Err(ExecutionError::mismatch("Comparable types", "values of other types")),
    }
}

/// Whether a rank satisfies a comparison operator.
fn satisfies(op: BinaryOperator, r: Rank) -> (b: bool)
    ensures
        b == rank_satisfies(op, r),
{
    match op {
        BinaryOperator::Lt => match r {
            Rank::Less => true,
            _ => false,
        },
        BinaryOperator::Gt => match r {
            Rank::Greater => true,
            _ => false,
        },
        BinaryOperator::Lte => match r {
            Rank::Greater => false,
            _ => true,
        },
        BinaryOperator::Gte => match r {
            Rank::Less => false,
            _ => true,
        },
        _ => false,
    }
}

/// An integer result, if it fits 64 bits.
fn fit_integer(x: i128) -> (r: Result<RowValue, ExecutionError>)
    ensures
        agrees(r, fit(x as int)),
        r matches Ok(v) ==> v@ is Integer,
        r matches Err(e) ==> e.kind() != Failure::Storage,
{
    if x < -0x8000_0000_0000_0000 || x > 0x7fff_ffff_ffff_ffff {
        Err(ExecutionError::invalid("Integer overflow"))
    } else {
        Ok(RowValue::Integer(x as i64))
    }
}

/// A number as the text that is handed to the caller's arithmetic: an
/// integer in decimal, a number in text form as it is.
pub open spec fn number_text(v: ValueView) -> Seq<char> {
    match v {
        ValueView::Integer(i) => int_text(i),
        ValueView::Float(t) => t,
        _ => Seq::empty(),
    }
}

/// What holds of a result that the caller's arithmetic decides: a value
/// is a number in text form, and a failure says that there is no finite
/// result.
pub open spec fn float_result(r: Result<RowValue, ExecutionError>) -> bool {
    match r {
        Ok(v) => v@ is Float,
        Err(e) => e.kind() == Failure::InvalidExpression,
    }
}

/// The outcome of `a op b` under the arithmetic `floats`: the result as a
/// number in text form, or a failure where there is no finite result.
pub open spec fn float_outcome<F: FloatOps>(
    floats: &F,
    op: BinaryOperator,
    a: Seq<char>,
    b: Seq<char>,
) -> Outcome {
    match floats.arith_spec(op, a, b) {
        Some(t) => Outcome::Is(ValueView::Float(t)),
        None => Outcome::Fails(Failure::InvalidExpression),
    }
}

/// The result of the caller's arithmetic on two numbers in text form: a
/// number in text form, or an invalid expression where the arithmetic has
/// no finite result.
fn float_arith<F: FloatOps>(floats: &F, op: BinaryOperator, a: &str, b: &str) -> (r: Result<
    RowValue,
    ExecutionError,
>)
    ensures
        r matches Ok(v) ==> v@ is Float,
        r matches Err(e) ==> e.kind() == Failure::InvalidExpression,
        r matches Err(e) ==> e.kind() != Failure::Storage,
        floats.exact() ==> agrees(r, float_outcome(floats, op, a@, b@)),
{
    match floats.arith(op, a, b) {
        Some(t) => Ok(RowValue::Float(t)),
        None => Err(ExecutionError::invalid("No finite result")),
    }
}

/// `+`, `-` and `*` on two values.
pub fn arithmetic_op<F: FloatOps>(
    floats: &F,
    op: BinaryOperator,
    left: &RowValue,
    right: &RowValue,
) -> (r: Result<RowValue, ExecutionError>)
    ensures
        agrees(r, arith_outcome(op, left@, right@)),
        r matches Err(e) ==> e.kind() != Failure::Storage,
        arith_outcome(op, left@, right@) is Floats ==> float_result(r),
        floats.exact() && arith_outcome(op, left@, right@) is Floats ==> agrees(
            r,
            float_outcome(floats, op, number_text(left@), number_text(right@)),
        ),
{
    match op {
        BinaryOperator::Add | BinaryOperator::Subtract | BinaryOperator::Multiply => {},
        _ => {
            return Err(ExecutionError::unsupported("Not an arithmetic operator"));
        },
    }
    match (left, right) {
        (RowValue::Integer(a), RowValue::Integer(b)) => {
            let x: i128 = *a as i128;
            let y: i128 = *b as i128;
            match op {
                BinaryOperator::Add => fit_integer(x + y),
                BinaryOperator::Subtract => fit_integer(x - y),
                _ => {
                    assert(-0x8000_0000_0000_0000 * 0x8000_0000_0000_0000 <= x * y
                        <= 0x8000_0000_0000_0000 * 0x8000_0000_0000_0000) by (nonlinear_arith)
                        requires
                            -0x8000_0000_0000_0000 <= x <= 0x7fff_ffff_ffff_ffff,
                            -0x8000_0000_0000_0000 <= y <= 0x7fff_ffff_ffff_ffff,
                    ;
                    fit_integer(x * y)
                },
            }
        },
        (RowValue::Float(a), RowValue::Float(b)) => float_arith(floats, op, a.as_str(), b.as_str()),
        (RowValue::Integer(a), RowValue::Float(b)) => float_arith(
            floats,
            op,
            integer_text(*a).as_str(),
            b.as_str(),
        ),
        (RowValue::Float(a), RowValue::Integer(b)) => float_arith(
            floats,
            op,
            a.as_str(),
            integer_text(*b).as_str(),
        ),
        (RowValue::String(a), RowValue::String(b)) => {
            match op {
                BinaryOperator::Add => {
                    let mut joined = a.clone();
                    joined.append(b.as_str());
                    Ok(RowValue::String(joined))
                },
                _ => Err(ExecutionError::mismatch("Number", "two strings")),
            }
        },
        _ => Err(ExecutionError::mismatch("Number", "values of other types")),
    }
}

/// The quotient of two integers, rounded towards zero.
fn divide_integers(a: i64, b: i64) -> (r: Result<RowValue, ExecutionError>)
    requires
        b != 0,
    ensures
        agrees(r, fit(trunc_div(a as int, b as int))),
        r matches Err(e) ==> e.kind() != Failure::Storage,
{
    let q: u64 = magnitude(a) / magnitude(b);
    let negative = (a < 0) != (b < 0);
    if negative {
        fit_integer(-(q as i128))
    } else {
        fit_integer(q as i128)
    }
}

/// The remainder of two integers, with the sign of the first.
fn remainder(a: i64, b: i64) -> (r: i64)
    requires
        b != 0,
    ensures
        r == trunc_rem(a as int, b as int),
{
    let m: u64 = magnitude(a) % magnitude(b);
    if a < 0 {
        let x: i128 = -(m as i128);
        x as i64
    } else {
        m as i64
    }
}

/// A binary operator on two values.
pub fn evaluate_binary_op<F: FloatOps>(
    floats: &F,
    left: &RowValue,
    op: BinaryOperator,
    right: &RowValue,
) -> (r: Result<RowValue, ExecutionError>)
    ensures
        agrees(r, binary_outcome(op, left@, right@)),
        r matches Err(e) ==> e.kind() != Failure::Storage,
        binary_outcome(op, left@, right@) is Floats ==> open_binary(op, r),
        floats.exact() ==> agrees(r, binary_with(floats, op, left@, right@)),
{
    match op {
        BinaryOperator::Eq => Ok(RowValue::Boolean(values_eq(floats, left, right))),
        BinaryOperator::Neq => Ok(RowValue::Boolean(!values_eq(floats, left, right))),
        BinaryOperator::Lt | BinaryOperator::Gt | BinaryOperator::Lte | BinaryOperator::Gte => {
            match compare_in_filter(floats, left, right) {
                Ok(rank) => Ok(RowValue::Boolean(satisfies(op, rank))),
                Err(e) => Err(e),
            }
        },
        BinaryOperator::And => {
            let a = is_truthy(floats, left);
            let b = is_truthy(floats, right);
            Ok(RowValue::Boolean(a && b))
        },
        BinaryOperator::Or => {
            let a = is_truthy(floats, left);
            let b = is_truthy(floats, right);
            Ok(RowValue::Boolean(a || b))
        },
        BinaryOperator::Add | BinaryOperator::Subtract | BinaryOperator::Multiply => arithmetic_op(
            floats,
            op,
            left,
            right,
        ),
        BinaryOperator::Divide => {
            match right {
                RowValue::Integer(b) => {
                    if *b == 0 {
                        return Err(ExecutionError::invalid("Division by zero"));
                    }
                    match left {
                        RowValue::Integer(a) => divide_integers(*a, *b),
                        RowValue::Float(a) => float_arith(
                            floats,
                            op,
                            a.as_str(),
                            integer_text(*b).as_str(),
                        ),
                        _ => Err(ExecutionError::mismatch("Number", "values of other types")),
                    }
                },
                RowValue::Float(b) => {
                    if floats.is_zero(b.as_str()) {
                        return Err(ExecutionError::invalid("Division by zero"));
                    }
                    match left {
                        RowValue::Integer(a) => float_arith(
                            floats,
                            op,
                            integer_text(*a).as_str(),
                            b.as_str(),
                        ),
                        RowValue::Float(a) => float_arith(floats, op, a.as_str(), b.as_str()),
                        _ => Err(ExecutionError::mismatch("Number", "values of other types")),
                    }
                },
                _ => Err(ExecutionError::mismatch("Number", "values of other types")),
            }
        },
        BinaryOperator::Modulo => {
            match (left, right) {
                (RowValue::Integer(a), RowValue::Integer(b)) => {
                    if *b == 0 {
                        Err(ExecutionError::invalid("Modulo requires integer operands"))
                    } else {
                        Ok(RowValue::Integer(remainder(*a, *b)))
                    }
                },
                _ => Err(ExecutionError::invalid("Modulo requires integer operands")),
            }
        },
    }
}

/// A unary operator on a value.
pub fn evaluate_unary_op<F: FloatOps>(floats: &F, op: UnaryOperator, val: &RowValue) -> (r: Result<
    RowValue,
    ExecutionError,
>)
    ensures
        agrees(r, unary_outcome(op, val@)),
        r matches Err(e) ==> e.kind() != Failure::Storage,
        unary_outcome(op, val@) is Floats ==> open_unary(op, r),
        floats.exact() ==> agrees(r, unary_with(floats, op, val@)),
{
    match op {
        UnaryOperator::Not => Ok(RowValue::Boolean(!is_truthy(floats, val))),
        UnaryOperator::Minus => match val {
            RowValue::Integer(i) => fit_integer(-(*i as i128)),
            RowValue::Float(f) => float_arith(floats, BinaryOperator::Subtract, "0", f.as_str()),
            _ => Err(ExecutionError::mismatch("Number", "another value")),
        },
        UnaryOperator::Plus => match val {
            RowValue::Integer(_) => Ok(val.clone()),
            RowValue::Float(_) => Ok(val.clone()),
            _ => Err(ExecutionError::mismatch("Number", "another value")),
        },
    }
}

/// The value at the end of a property path.
pub fn follow_path<'a>(json: &'a Json, path: &Vec<String>) -> (r: Result<&'a Json, ExecutionError>)
    ensures
        match path_outcome(json@, texts_view(path@)) {
            Ok(j) => r matches Ok(x) && x@ == j,
            Err(k) => r matches Err(e) && e.kind() == Failure::PropertyNotFound(k),
        },
        r matches Err(e) ==> e.kind() != Failure::Storage,
{
    let mut current: &Json = json;
    let mut i: usize = 0;
    let ghost full = texts_view(path@);
    assert(full.subrange(0, full.len() as int) =~= full);
    while i < path.len()
        invariant
            0 <= i <= path.len(),
            full == texts_view(path@),
            path_outcome(json@, full) == path_outcome(
                current@,
                full.subrange(i as int, full.len() as int),
            ),
        decreases path.len() - i,
    {
        let ghost rest = full.subrange(i as int, full.len() as int);
        assert(rest[0] == path[i as int]@);
        assert(rest.subrange(1, rest.len() as int) =~= full.subrange(
            i as int + 1,
            full.len() as int,
        ));
        match current.get(path[i].as_str()) {
            Some(inner) => {
                current = inner;
            },
            None => {
                return Err(ExecutionError::PropertyNotFound(path[i].clone()));
            },
        }
        i += 1;
    }
    Ok(current)
}

/// The value of a property chain in a row.
pub fn evaluate_property(prop: &PropertyExpression, row: &Row) -> (r: Result<
    RowValue,
    ExecutionError,
>)
    ensures
        agrees(r, property_outcome(prop@, row@)),
        r matches Err(e) ==> e.kind() != Failure::Storage,
{
    let base = match row.get(prop.base.as_str()) {
        Some(v) => v,
        None => {
            return Err(ExecutionError::VariableNotFound(prop.base.clone()));
        },
    };
    let json = match base {
        RowValue::Vertex(x) => &x.properties,
        RowValue::Edge(e) => &e.properties,
        _ => {
            return Err(ExecutionError::mismatch("Vertex or Edge", "another value"));
        },
    };
    match follow_path(json, &prop.properties) {
        Ok(j) => Ok(json_to_value(j)),
        Err(e) => Err(e),
    }
}

/// The value of an expression in a row.
pub fn evaluate_expression<F: FloatOps>(floats: &F, expr: &Expression, row: &Row) -> (r: Result<
    RowValue,
    ExecutionError,
>)
    ensures
        agrees(r, eval(expr@, row@)),
        r matches Err(e) ==> e.kind() != Failure::Storage,
        floats.exact() ==> agrees(r, eval_with(floats, expr@, row@)),
    decreases expr,
{
    match expr {
        Expression::Literal(lit) => Ok(literal_to_value(lit)),
        Expression::Variable(name) => match row.get(name.as_str()) {
            Some(v) => Ok(v.clone()),
            None => Err(ExecutionError::VariableNotFound(name.clone())),
        },
        Expression::Property(prop) => evaluate_property(prop, row),
        Expression::BinaryOp { left, op, right } => {
            let a = match evaluate_expression(floats, left, row) {
                Ok(a) => a,
                Err(e) => {
                    return Err(e);
                },
            };
            let b = match evaluate_expression(floats, right, row) {
                Ok(b) => b,
                Err(e) => {
                    return Err(e);
                },
            };
            evaluate_binary_op(floats, &a, *op, &b)
        },
        Expression::UnaryOp { op, expr } => {
            let a = match evaluate_expression(floats, expr, row) {
                Ok(a) => a,
                Err(e) => {
                    return Err(e);
                },
            };
            evaluate_unary_op(floats, *op, &a)
        },
        Expression::Parameter(_) => Err(ExecutionError::unsupported("Parameters not yet supported")),
        Expression::Index { .. } => Err(
            ExecutionError::unsupported("Index expressions not yet supported"),
        ),
        Expression::FunctionCall { .. } => Err(
            ExecutionError::unsupported("Functions not yet supported here"),
        ),
    }
}

} // verus!
