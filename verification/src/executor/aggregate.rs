//! Aggregate functions: COUNT, SUM, AVG, MIN, MAX.

use crate::bytes::Rank;
use crate::executor::error::{ExecutionError, Failure};
use crate::executor::eval::{
    agrees, fit, float_outcome, float_result, int_text, integer_text, Outcome,
};
use crate::executor::floats::{text_of, FloatOps};
use crate::executor::ordering::{compare_values, sort_rank, sort_rank_with};
use crate::executor::projection::{
    evaluate_row_expression, get_return_key, return_key, row_outcome, RowView,
};
use crate::executor::value::{bind, rows_view, Row, RowValue, ValueView};
use crate::parser::ast::{
    exprs_view, lemma_expr_unfold, BinaryOperator, ExprView, Expression, ReturnItem,
    ReturnItemView,
};
use crate::parser::grammar::upper;
use crate::parser::parse_expr::upper_eq;
use crate::text::decimal_text;
use vstd::prelude::*;

verus! {

/// The number of `rows` in which `arg` has a value that is not null.
pub open spec fn counted(arg: ExprView, rows: Seq<RowView>) -> nat
    decreases rows.len(),
{
    if rows.len() == 0 {
        0
    } else {
        counted(arg, rows.drop_last()) + match row_outcome(arg, rows.last()) {
            Outcome::Is(ValueView::Null) => 0nat,
            Outcome::Is(_) => 1nat,
            _ => 0nat,
        }
    }
}

/// What `COUNT` gives: the number of rows for `COUNT(*)`, else the number
/// of rows in which the first argument is not null.
pub open spec fn count_outcome(args: Seq<ExprView>, rows: Seq<RowView>) -> int {
    if args.len() == 0 {
        rows.len() as int
    } else {
        counted(args[0], rows) as int
    }
}

/// `COUNT`.
pub fn aggregate_count(args: &Vec<Expression>, rows: &Vec<Row>) -> (r: Result<
    RowValue,
    ExecutionError,
>)
    ensures
        r matches Ok(v) && v@ == ValueView::Integer(
            count_outcome(exprs_view(args@), rows_view(rows@)) as i64,
        ),
{
    if args.len() == 0 {
        return Ok(RowValue::Integer(rows.len() as i64));
    }
    let arg = &args[0];
    let ghost all = rows_view(rows@);
    let mut count: usize = 0;
    let mut i: usize = 0;
    assert(all.subrange(0, 0) =~= Seq::empty());
    while i < rows.len()
        invariant
            0 <= i <= rows.len(),
            all == rows_view(rows@),
            count <= i,
            count == counted(arg@, all.subrange(0, i as int)),
        decreases rows.len() - i,
    {
        proof {
            let t = all.subrange(0, i as int + 1);
            assert(t.drop_last() =~= all.subrange(0, i as int));
            assert(t.last() == rows[i as int]@);
        }
        match evaluate_row_expression(arg, &rows[i]) {
            Ok(RowValue::Null) => {},
            Ok(_) => {
                count += 1;
            },
            Err(_) => {},
        }
        i += 1;
    }
    assert(all.subrange(0, i as int) =~= all);
    Ok(RowValue::Integer(count as i64))
}

/// What a pass over the values of a column finds.
pub enum Tally {
    /// The sum of the integers, the number of numbers, and whether one of
    /// them is in text form.
    Numbers { sum: int, count: nat, floats: bool },
    /// The first failure.
    Stop(Failure),
}

/// A pass over the values of `arg` in `rows`: nulls are passed over, a
/// value that is no number stops the pass with a type mismatch, and so does
/// a row in which `arg` cannot be evaluated with its failure.
pub open spec fn tally(arg: ExprView, rows: Seq<RowView>) -> Tally
    decreases rows.len(),
{
    if rows.len() == 0 {
        Tally::Numbers { sum: 0, count: 0, floats: false }
    } else {
        match tally(arg, rows.drop_last()) {
            Tally::Stop(f) => Tally::Stop(f),
            Tally::Numbers { sum, count, floats } => match row_outcome(arg, rows.last()) {
                Outcome::Is(ValueView::Integer(i)) => Tally::Numbers {
                    sum: sum + i,
                    count: count + 1,
                    floats,
                },
                Outcome::Is(ValueView::Float(_)) => Tally::Numbers {
                    sum,
                    count: count + 1,
                    floats: true,
                },
                Outcome::Is(ValueView::Null) => Tally::Numbers { sum, count, floats },
                Outcome::Is(_) => Tally::Stop(Failure::TypeMismatch),
                Outcome::Fails(f) => Tally::Stop(f),
                Outcome::Floats => Tally::Numbers { sum, count, floats },
            },
        }
    }
}

/// What `SUM` gives: null where there is no number, the exact sum where all
/// numbers are integers and the sum fits 64 bits; left open where a number
/// is in text form.
pub open spec fn sum_outcome(args: Seq<ExprView>, rows: Seq<RowView>) -> Outcome {
    if args.len() == 0 {
        Outcome::Fails(Failure::InvalidExpression)
    } else {
        match tally(args[0], rows) {
            Tally::Stop(f) => Outcome::Fails(f),
            Tally::Numbers { sum, count, floats } => if count == 0 {
                Outcome::Is(ValueView::Null)
            } else if floats {
                Outcome::Floats
            } else {
                fit(sum)
            },
        }
    }
}

/// What `AVG` gives: null where there is no number; else the mean, which is
/// left open.
pub open spec fn avg_outcome(args: Seq<ExprView>, rows: Seq<RowView>) -> Outcome {
    if args.len() == 0 {
        Outcome::Fails(Failure::InvalidExpression)
    } else {
        match tally(args[0], rows) {
            Tally::Stop(f) => Outcome::Fails(f),
            Tally::Numbers { sum, count, floats } => if count == 0 {
                Outcome::Is(ValueView::Null)
            } else {
                Outcome::Floats
            },
        }
    }
}

/// What fails on the first rows fails on all of them.
pub proof fn lemma_tally_prefix(arg: ExprView, rows: Seq<RowView>, k: int)
    requires
        0 <= k <= rows.len(),
        tally(arg, rows.subrange(0, k)) is Stop,
    ensures
        tally(arg, rows) == tally(arg, rows.subrange(0, k)),
    decreases rows.len() - k,
{
    if k < rows.len() {
        assert(rows.subrange(0, k + 1).drop_last() =~= rows.subrange(0, k));
        lemma_tally_prefix(arg, rows, k + 1);
    } else {
        assert(rows.subrange(0, k) =~= rows);
    }
}

/// The result of a pass over a column.
struct Counted {
    sum: i128,
    count: usize,
    floats: bool,
}

/// A pass over the values of `arg` in `rows`.
fn scan_numbers(arg: &Expression, rows: &Vec<Row>) -> (r: Result<Counted, ExecutionError>)
    ensures
        match tally(arg@, rows_view(rows@)) {
            Tally::Stop(f) => r matches Err(e) && e.kind() == f,
            Tally::Numbers { sum, count, floats } => r matches Ok(c) && c.sum == sum && c.count
                == count && c.floats == floats,
        },
{
    let ghost all = rows_view(rows@);
    let mut sum: i128 = 0;
    let mut count: usize = 0;
    let mut floats = false;
    let mut i: usize = 0;
    assert(all.subrange(0, 0) =~= Seq::empty());
    while i < rows.len()
        invariant
            0 <= i <= rows.len(),
            all == rows_view(rows@),
            count <= i,
            -(i as int) * 0x8000_0000_0000_0000 <= sum <= (i as int) * 0x8000_0000_0000_0000,
            tally(arg@, all.subrange(0, i as int)) == (Tally::Numbers {
                sum: sum as int,
                count: count as nat,
                floats,
            }),
        decreases rows.len() - i,
    {
        proof {
            let t = all.subrange(0, i as int + 1);
            assert(t.drop_last() =~= all.subrange(0, i as int));
            assert(t.last() == rows[i as int]@);
            assert((i as int + 1) * 0x8000_0000_0000_0000 == (i as int) * 0x8000_0000_0000_0000
                + 0x8000_0000_0000_0000) by (nonlinear_arith);
            assert((i as int + 1) * 0x8000_0000_0000_0000 <= 0x1_0000_0000_0000_0000
                * 0x8000_0000_0000_0000) by (nonlinear_arith)
                requires
                    i < 0x1_0000_0000_0000_0000,
            ;
        }
        match evaluate_row_expression(arg, &rows[i]) {
            Ok(RowValue::Integer(x)) => {
                sum = sum + x as i128;
                count += 1;
            },
            Ok(RowValue::Float(_)) => {
                floats = true;
                count += 1;
            },
            Ok(RowValue::Null) => {},
            Ok(_) => {
                proof {
                    lemma_tally_prefix(arg@, all, i as int + 1);
                }
                return Err(ExecutionError::mismatch("Number", "Non-numeric value"));
            },
            Err(e) => {
                proof {
                    lemma_tally_prefix(arg@, all, i as int + 1);
                }
                return Err(e);
            },
        }
        i += 1;
    }
    assert(all.subrange(0, i as int) =~= all);
    Ok(Counted { sum, count, floats })
}

/// The number in text form that a row adds to a sum: the integer or the
/// number that the column has in the row, nothing where it has neither.
pub open spec fn addend(o: Outcome) -> Option<Seq<char>> {
    match o {
        Outcome::Is(ValueView::Integer(x)) => Some(int_text(x)),
        Outcome::Is(ValueView::Float(t)) => Some(t),
        _ => None,
    }
}

/// The sum of the numbers that `arg` has in the first `n` rows, added up by
/// the arithmetic `floats` from `0` on in the order of the rows; nothing
/// where an addition has no finite result.
pub open spec fn float_total<F: FloatOps>(floats: &F, arg: ExprView, rows: Seq<RowView>, n: int) -> Option<
    Seq<char>,
>
    decreases n,
{
    if n <= 0 || n > rows.len() {
        Some("0"@)
    } else {
        match float_total(floats, arg, rows, n - 1) {
            None => None,
            Some(acc) => match addend(row_outcome(arg, rows[n - 1])) {
                Some(t) => floats.arith_spec(BinaryOperator::Add, acc, t),
                None => Some(acc),
            },
        }
    }
}

/// A sum that has no finite result on the first rows has none on more.
pub proof fn lemma_total_stops<F: FloatOps>(
    floats: &F,
    arg: ExprView,
    rows: Seq<RowView>,
    k: int,
    n: int,
)
    requires
        0 < k <= n <= rows.len(),
        float_total(floats, arg, rows, k) is None,
    ensures
        float_total(floats, arg, rows, n) is None,
    decreases n - k,
{
    if k < n {
        lemma_total_stops(floats, arg, rows, k, n - 1);
    }
}

/// The sum of the numbers of a column, computed by the caller's arithmetic
/// in the order of the rows.
fn float_sum<F: FloatOps>(floats: &F, arg: &Expression, rows: &Vec<Row>) -> (r: Result<
    String,
    ExecutionError,
>)
    ensures
        r matches Err(e) ==> e.kind() == Failure::InvalidExpression,
        floats.exact() ==> match float_total(
            floats,
            arg@,
            rows_view(rows@),
            rows.len() as int,
        ) {
            Some(t) => r matches Ok(x) && x@ == t,
            None => r is Err,
        },
{
    let ghost all = rows_view(rows@);
    let mut acc: String = "0".to_owned();
    let mut i: usize = 0;
    while i < rows.len()
        invariant
            0 <= i <= rows.len(),
            all == rows_view(rows@),
            floats.exact() ==> float_total(floats, arg@, all, i as int) == Some(acc@),
        decreases rows.len() - i,
    {
        assert(all[i as int] == rows[i as int]@);
        let text: Option<String> = match evaluate_row_expression(arg, &rows[i]) {
            Ok(RowValue::Integer(x)) => Some(integer_text(x)),
            Ok(RowValue::Float(t)) => Some(t),
            _ => None,
        };
        assert(text_of(text) == addend(row_outcome(arg@, all[i as int])));
        match text {
            Some(t) => {
                match floats.arith(BinaryOperator::Add, acc.as_str(), t.as_str()) {
                    Some(next) => {
                        acc = next;
                    },
                    None => {
                        proof {
                            if floats.exact() {
                                lemma_total_stops(
                                    floats,
                                    arg@,
                                    all,
                                    i as int + 1,
                                    rows.len() as int,
                                );
                            }
                        }
                        return Err(ExecutionError::invalid("No finite result"));
                    },
                }
            },
            None => {},
        }
        i += 1;
    }
    Ok(acc)
}

/// What `SUM` gives under the arithmetic `floats`: where a number in text
/// form is among the numbers, the sum that the arithmetic adds up in the
/// order of the rows; else what `sum_outcome` says.
pub open spec fn sum_with<F: FloatOps>(floats: &F, args: Seq<ExprView>, rows: Seq<RowView>) -> Outcome {
    if args.len() == 0 {
        Outcome::Fails(Failure::InvalidExpression)
    } else {
        match tally(args[0], rows) {
            Tally::Stop(f) => Outcome::Fails(f),
            Tally::Numbers { sum, count, floats: mixed } => if count == 0 {
                Outcome::Is(ValueView::Null)
            } else if mixed {
                match float_total(floats, args[0], rows, rows.len() as int) {
                    Some(t) => Outcome::Is(ValueView::Float(t)),
                    None => Outcome::Fails(Failure::InvalidExpression),
                }
            } else {
                fit(sum)
            },
        }
    }
}

/// What `AVG` gives under the arithmetic `floats`: null where the column
/// has no number; else the sum that the arithmetic adds up in the order of
/// the rows, divided by the number of numbers.
pub open spec fn mean_with<F: FloatOps>(floats: &F, args: Seq<ExprView>, rows: Seq<RowView>) -> Outcome {
    if args.len() == 0 {
        Outcome::Fails(Failure::InvalidExpression)
    } else {
        match tally(args[0], rows) {
            Tally::Stop(f) => Outcome::Fails(f),
            Tally::Numbers { sum, count, floats: mixed } => if count == 0 {
                Outcome::Is(ValueView::Null)
            } else {
                match float_total(floats, args[0], rows, rows.len() as int) {
                    Some(total) => float_outcome(
                        floats,
                        BinaryOperator::Divide,
                        total,
                        decimal_text(count),
                    ),
                    None => Outcome::Fails(Failure::InvalidExpression),
                }
            },
        }
    }
}

/// `SUM`.
pub fn aggregate_sum<F: FloatOps>(floats: &F, args: &Vec<Expression>, rows: &Vec<Row>) -> (r: Result<
    RowValue,
    ExecutionError,
>)
    ensures
        agrees(r, sum_outcome(exprs_view(args@), rows_view(rows@))),
        sum_outcome(exprs_view(args@), rows_view(rows@)) is Floats ==> float_result(r),
        floats.exact() ==> agrees(r, sum_with(floats, exprs_view(args@), rows_view(rows@))),
{
    if args.len() == 0 {
        return Err(ExecutionError::invalid("SUM requires an argument"));
    }
    assert(exprs_view(args@)[0] == args[0]@);
    let arg = &args[0];
    let found = match scan_numbers(arg, rows) {
        Ok(c) => c,
        Err(e) => {
            return Err(e);
        },
    };
    if found.count == 0 {
        return Ok(RowValue::Null);
    }
    if found.floats {
        match float_sum(floats, arg, rows) {
            Ok(t) => Ok(RowValue::Float(t)),
            Err(e) => Err(e),
        }
    } else if found.sum < -0x8000_0000_0000_0000 || found.sum > 0x7fff_ffff_ffff_ffff {
        Err(ExecutionError::invalid("Integer overflow"))
    } else {
        Ok(RowValue::Integer(found.sum as i64))
    }
}

/// `AVG`.
pub fn aggregate_avg<F: FloatOps>(floats: &F, args: &Vec<Expression>, rows: &Vec<Row>) -> (r: Result<
    RowValue,
    ExecutionError,
>)
    ensures
        agrees(r, avg_outcome(exprs_view(args@), rows_view(rows@))),
        avg_outcome(exprs_view(args@), rows_view(rows@)) is Floats ==> float_result(r),
        floats.exact() ==> agrees(r, mean_with(floats, exprs_view(args@), rows_view(rows@))),
{
    if args.len() == 0 {
        return Err(ExecutionError::invalid("AVG requires an argument"));
    }
    assert(exprs_view(args@)[0] == args[0]@);
    let arg = &args[0];
    let found = match scan_numbers(arg, rows) {
        Ok(c) => c,
        Err(e) => {
            return Err(e);
        },
    };
    if found.count == 0 {
        return Ok(RowValue::Null);
    }
    let total = match float_sum(floats, arg, rows) {
        Ok(t) => t,
        Err(e) => {
            return Err(e);
        },
    };
    let count = crate::text::decimal_string(found.count as u64);
    match floats.arith(BinaryOperator::Divide, total.as_str(), count.as_str()) {
        Some(mean) => Ok(RowValue::Float(mean)),
        None => Err(ExecutionError::invalid("No finite result")),
    }
}

/// What a reduction of a column to its least or greatest value finds.
pub enum Extreme {
    /// No value that is not null yet.
    Nothing,
    /// The least or greatest value so far.
    Best(ValueView),
    /// A number in text form was compared: the result is left open.
    Open,
    /// The first failure.
    Stop(Failure),
}

/// The reduction of the values of `arg` in `rows`: nulls are passed over,
/// and a later value replaces the best one where it compares as `want`.
pub open spec fn extreme(arg: ExprView, rows: Seq<RowView>, want: Rank) -> Extreme
    decreases rows.len(),
{
    if rows.len() == 0 {
        Extreme::Nothing
    } else {
        match extreme(arg, rows.drop_last(), want) {
            Extreme::Stop(f) => Extreme::Stop(f),
            before => match row_outcome(arg, rows.last()) {
                Outcome::Fails(f) => Extreme::Stop(f),
                Outcome::Floats => Extreme::Open,
                Outcome::Is(ValueView::Null) => before,
                Outcome::Is(v) => match before {
                    Extreme::Nothing => Extreme::Best(v),
                    Extreme::Best(current) => match sort_rank(v, current) {
                        Some(r) => if r == want {
                            Extreme::Best(v)
                        } else {
                            Extreme::Best(current)
                        },
                        None => Extreme::Open,
                    },
                    other => other,
                },
            },
        }
    }
}

/// What `MIN` and `MAX` give.
pub open spec fn extreme_outcome(args: Seq<ExprView>, rows: Seq<RowView>, want: Rank) -> Outcome {
    if args.len() == 0 {
        Outcome::Fails(Failure::InvalidExpression)
    } else {
        match extreme(args[0], rows, want) {
            Extreme::Nothing => Outcome::Is(ValueView::Null),
            Extreme::Best(v) => Outcome::Is(v),
            Extreme::Open => Outcome::Floats,
            Extreme::Stop(f) => Outcome::Fails(f),
        }
    }
}

/// What fails on the first rows fails on all of them.
pub proof fn lemma_extreme_prefix(arg: ExprView, rows: Seq<RowView>, want: Rank, k: int)
    requires
        0 <= k <= rows.len(),
        extreme(arg, rows.subrange(0, k), want) is Stop,
    ensures
        extreme(arg, rows, want) == extreme(arg, rows.subrange(0, k), want),
    decreases rows.len() - k,
{
    if k < rows.len() {
        assert(rows.subrange(0, k + 1).drop_last() =~= rows.subrange(0, k));
        lemma_extreme_prefix(arg, rows, want, k + 1);
    } else {
        assert(rows.subrange(0, k) =~= rows);
    }
}

/// The reduction of the values of `arg` in `rows` under the arithmetic
/// `floats`: as `extreme`, with numbers compared by the arithmetic where one
/// is in text form.
pub open spec fn extreme_with<F: FloatOps>(floats: &F, arg: ExprView, rows: Seq<RowView>, want: Rank) -> Extreme
    decreases rows.len(),
{
    if rows.len() == 0 {
        Extreme::Nothing
    } else {
        match extreme_with(floats, arg, rows.drop_last(), want) {
            Extreme::Stop(f) => Extreme::Stop(f),
            before => match row_outcome(arg, rows.last()) {
                Outcome::Fails(f) => Extreme::Stop(f),
                Outcome::Floats => before,
                Outcome::Is(ValueView::Null) => before,
                Outcome::Is(v) => match before {
                    Extreme::Best(current) => if sort_rank_with(floats, v, current) == want {
                        Extreme::Best(v)
                    } else {
                        Extreme::Best(current)
                    },
                    _ => Extreme::Best(v),
                },
            },
        }
    }
}

/// What `MIN` and `MAX` give under the arithmetic `floats`.
pub open spec fn extreme_outcome_with<F: FloatOps>(
    floats: &F,
    args: Seq<ExprView>,
    rows: Seq<RowView>,
    want: Rank,
) -> Outcome {
    if args.len() == 0 {
        Outcome::Fails(Failure::InvalidExpression)
    } else {
        match extreme_with(floats, args[0], rows, want) {
            Extreme::Nothing => Outcome::Is(ValueView::Null),
            Extreme::Best(v) => Outcome::Is(v),
            Extreme::Open => Outcome::Floats,
            Extreme::Stop(f) => Outcome::Fails(f),
        }
    }
}

/// Under an arithmetic the reduction is never left open.
pub proof fn lemma_extreme_with_settled<F: FloatOps>(
    floats: &F,
    arg: ExprView,
    rows: Seq<RowView>,
    want: Rank,
)
    ensures
        !(extreme_with(floats, arg, rows, want) is Open),
    decreases rows.len(),
{
    if rows.len() > 0 {
        lemma_extreme_with_settled(floats, arg, rows.drop_last(), want);
    }
}

/// What fails on the first rows fails on all of them.
pub proof fn lemma_extreme_with_prefix<F: FloatOps>(
    floats: &F,
    arg: ExprView,
    rows: Seq<RowView>,
    want: Rank,
    k: int,
)
    requires
        0 <= k <= rows.len(),
        extreme_with(floats, arg, rows.subrange(0, k), want) is Stop,
    ensures
        extreme_with(floats, arg, rows, want) == extreme_with(
            floats,
            arg,
            rows.subrange(0, k),
            want,
        ),
    decreases rows.len() - k,
{
    if k < rows.len() {
        assert(rows.subrange(0, k + 1).drop_last() =~= rows.subrange(0, k));
        lemma_extreme_with_prefix(floats, arg, rows, want, k + 1);
    } else {
        assert(rows.subrange(0, k) =~= rows);
    }
}

/// The least or greatest value of a column.
fn reduce<F: FloatOps>(floats: &F, args: &Vec<Expression>, rows: &Vec<Row>, want: Rank) -> (r: Result<
    RowValue,
    ExecutionError,
>)
    requires
        args.len() > 0,
    ensures
        agrees(r, extreme_outcome(exprs_view(args@), rows_view(rows@), want)),
        extreme_outcome(exprs_view(args@), rows_view(rows@), want) is Floats ==> r is Ok,
        floats.exact() ==> agrees(
            r,
            extreme_outcome_with(floats, exprs_view(args@), rows_view(rows@), want),
        ),
{
    let arg = &args[0];
    let ghost all = rows_view(rows@);
    assert(exprs_view(args@)[0] == arg@);
    let mut best: Option<RowValue> = None;
    let mut i: usize = 0;
    assert(all.subrange(0, 0) =~= Seq::empty());
    while i < rows.len()
        invariant
            0 <= i <= rows.len(),
            all == rows_view(rows@),
            exprs_view(args@)[0] == arg@,
            args.len() > 0,
            match extreme(arg@, all.subrange(0, i as int), want) {
                Extreme::Nothing => best is None,
                Extreme::Best(v) => best matches Some(b) && b@ == v,
                Extreme::Open => true,
                Extreme::Stop(_) => false,
            },
            floats.exact() ==> match extreme_with(floats, arg@, all.subrange(0, i as int), want) {
                Extreme::Nothing => best is None,
                Extreme::Best(v) => best matches Some(b) && b@ == v,
                _ => false,
            },
        decreases rows.len() - i,
    {
        proof {
            let t = all.subrange(0, i as int + 1);
            assert(t.drop_last() =~= all.subrange(0, i as int));
            assert(t.last() == rows[i as int]@);
        }
        let value = match evaluate_row_expression(arg, &rows[i]) {
            Ok(v) => v,
            Err(e) => {
                proof {
                    lemma_extreme_prefix(arg@, all, want, i as int + 1);
                    if floats.exact() {
                        lemma_extreme_with_prefix(floats, arg@, all, want, i as int + 1);
                    }
                }
                return Err(e);
            },
        };
        match value {
            RowValue::Null => {},
            _ => {
                best = match best {
                    None => Some(value),
                    Some(current) => {
                        let rank = compare_values(floats, &value, &current);
                        if same_rank(rank, want) {
                            Some(value)
                        } else {
                            Some(current)
                        }
                    },
                };
            },
        }
        i += 1;
    }
    assert(all.subrange(0, i as int) =~= all);
    match best {
        Some(v) => Ok(v),
        None => Ok(RowValue::Null),
    }
}

/// Whether two ranks are the same.
fn same_rank(a: Rank, b: Rank) -> (r: bool)
    ensures
        r == (a == b),
{
    match (a, b) {
        (Rank::Less, Rank::Less) => true,
        (Rank::Equal, Rank::Equal) => true,
        (Rank::Greater, Rank::Greater) => true,
        _ => false,
    }
}

/// `MIN`.
pub fn aggregate_min<F: FloatOps>(floats: &F, args: &Vec<Expression>, rows: &Vec<Row>) -> (r: Result<
    RowValue,
    ExecutionError,
>)
    ensures
        agrees(r, extreme_outcome(exprs_view(args@), rows_view(rows@), Rank::Less)),
        extreme_outcome(exprs_view(args@), rows_view(rows@), Rank::Less) is Floats ==> r is Ok,
        floats.exact() ==> agrees(
            r,
            extreme_outcome_with(floats, exprs_view(args@), rows_view(rows@), Rank::Less),
        ),
{
    if args.len() == 0 {
        return Err(ExecutionError::invalid("MIN requires an argument"));
    }
    reduce(floats, args, rows, Rank::Less)
}

/// `MAX`.
pub fn aggregate_max<F: FloatOps>(floats: &F, args: &Vec<Expression>, rows: &Vec<Row>) -> (r: Result<
    RowValue,
    ExecutionError,
>)
    ensures
        agrees(r, extreme_outcome(exprs_view(args@), rows_view(rows@), Rank::Greater)),
        extreme_outcome(exprs_view(args@), rows_view(rows@), Rank::Greater) is Floats ==> r is Ok,
        floats.exact() ==> agrees(
            r,
            extreme_outcome_with(floats, exprs_view(args@), rows_view(rows@), Rank::Greater),
        ),
{
    if args.len() == 0 {
        return Err(ExecutionError::invalid("MAX requires an argument"));
    }
    reduce(floats, args, rows, Rank::Greater)
}

/// What a return item gives in an aggregate query: an aggregate call its
/// aggregate; a variable or a property chain its value in the first row.
pub open spec fn aggregate_outcome(e: ExprView, rows: Seq<RowView>) -> Outcome {
    match e {
        ExprView::FunctionCall { name, args } => {
            let u = upper(name);
            if u == "COUNT"@ {
                Outcome::Is(ValueView::Integer(count_outcome(args, rows) as i64))
            } else if u == "SUM"@ {
                sum_outcome(args, rows)
            } else if u == "AVG"@ {
                avg_outcome(args, rows)
            } else if u == "MIN"@ {
                extreme_outcome(args, rows, Rank::Less)
            } else if u == "MAX"@ {
                extreme_outcome(args, rows, Rank::Greater)
            } else {
                Outcome::Fails(Failure::Unsupported)
            }
        },
        ExprView::Variable(name) => if rows.len() == 0 {
            Outcome::Fails(Failure::VariableNotFound(name))
        } else {
            row_outcome(e, rows[0])
        },
        ExprView::Property(p) => if rows.len() == 0 {
            Outcome::Fails(Failure::VariableNotFound(p.base))
        } else {
            row_outcome(e, rows[0])
        },
        _ => Outcome::Fails(Failure::Unsupported),
    }
}

/// What a return item gives in an aggregate query under the arithmetic
/// `floats`.
pub open spec fn aggregate_outcome_with<F: FloatOps>(floats: &F, e: ExprView, rows: Seq<RowView>) -> Outcome {
    match e {
        ExprView::FunctionCall { name, args } => {
            let u = upper(name);
            if u == "COUNT"@ {
                aggregate_outcome(e, rows)
            } else if u == "SUM"@ {
                sum_with(floats, args, rows)
            } else if u == "AVG"@ {
                mean_with(floats, args, rows)
            } else if u == "MIN"@ {
                extreme_outcome_with(floats, args, rows, Rank::Less)
            } else if u == "MAX"@ {
                extreme_outcome_with(floats, args, rows, Rank::Greater)
            } else {
                aggregate_outcome(e, rows)
            }
        },
        _ => aggregate_outcome(e, rows),
    }
}

/// The value of a return item in an aggregate query.
pub fn evaluate_aggregate<F: FloatOps>(floats: &F, expr: &Expression, rows: &Vec<Row>) -> (r: Result<
    RowValue,
    ExecutionError,
>)
    ensures
        agrees(r, aggregate_outcome(expr@, rows_view(rows@))),
        aggregate_outcome(expr@, rows_view(rows@)) is Floats ==> (r matches Err(e) ==> e.kind()
            == Failure::InvalidExpression),
        floats.exact() ==> agrees(r, aggregate_outcome_with(floats, expr@, rows_view(rows@))),
        floats.exact() ==> !(aggregate_outcome_with(floats, expr@, rows_view(rows@)) is Floats),
{
    proof {
        if expr@ is FunctionCall {
            let args = expr@->FunctionCall_args;
            if args.len() > 0 {
                lemma_extreme_with_settled(floats, args[0], rows_view(rows@), Rank::Less);
                lemma_extreme_with_settled(floats, args[0], rows_view(rows@), Rank::Greater);
            }
        }
    }
    match expr {
        Expression::FunctionCall { name, args } => {
            proof {
                lemma_expr_unfold(*expr);
            }
            if upper_eq(name.as_str(), "COUNT") {
                aggregate_count(args, rows)
            } else if upper_eq(name.as_str(), "SUM") {
                aggregate_sum(floats, args, rows)
            } else if upper_eq(name.as_str(), "AVG") {
                aggregate_avg(floats, args, rows)
            } else if upper_eq(name.as_str(), "MIN") {
                aggregate_min(floats, args, rows)
            } else if upper_eq(name.as_str(), "MAX") {
                aggregate_max(floats, args, rows)
            } else {
                Err(ExecutionError::unsupported("Unknown aggregate function"))
            }
        },
        Expression::Variable(var) => {
            if rows.len() == 0 {
                return Err(ExecutionError::VariableNotFound(var.clone()));
            }
            assert(rows_view(rows@)[0] == rows[0]@);
            evaluate_row_expression(expr, &rows[0])
        },
        Expression::Property(prop) => {
            if rows.len() == 0 {
                return Err(ExecutionError::VariableNotFound(prop.base.clone()));
            }
            assert(rows_view(rows@)[0] == rows[0]@);
            evaluate_row_expression(expr, &rows[0])
        },
        _ => Err(ExecutionError::unsupported("Unsupported expression in aggregate context")),
    }
}

/// The single row of an aggregate query: every item under its key.
pub open spec fn aggregated(items: Seq<ReturnItemView>, rows: Seq<RowView>) -> Option<
    Result<RowView, Failure>,
>
    decreases items.len(),
{
    if items.len() == 0 {
        Some(Ok(Seq::empty()))
    } else {
        match aggregated(items.drop_last(), rows) {
            None => None,
            Some(Err(f)) => Some(Err(f)),
            Some(Ok(front)) => match aggregate_outcome(items.last().expression, rows) {
                Outcome::Is(v) => Some(Ok(bind(front, return_key(items.last()), v))),
                Outcome::Fails(f) => Some(Err(f)),
                Outcome::Floats => None,
            },
        }
    }
}

/// The single row of an aggregate query under the arithmetic `floats`:
/// every item under its key, or the failure of the first item that fails.
pub open spec fn aggregated_with<F: FloatOps>(
    floats: &F,
    items: Seq<ReturnItemView>,
    rows: Seq<RowView>,
) -> Result<RowView, Failure>
    decreases items.len(),
{
    if items.len() == 0 {
        Ok(Seq::empty())
    } else {
        match aggregated_with(floats, items.drop_last(), rows) {
            Err(f) => Err(f),
            Ok(front) => match aggregate_outcome_with(floats, items.last().expression, rows) {
                Outcome::Is(v) => Ok(bind(front, return_key(items.last()), v)),
                Outcome::Fails(f) => Err(f),
                Outcome::Floats => Ok(front),
            },
        }
    }
}

/// What fails on the first items fails on all of them.
pub proof fn lemma_aggregated_with_prefix<F: FloatOps>(
    floats: &F,
    items: Seq<ReturnItemView>,
    rows: Seq<RowView>,
    k: int,
)
    requires
        0 <= k <= items.len(),
        aggregated_with(floats, items.subrange(0, k), rows) is Err,
    ensures
        aggregated_with(floats, items, rows) == aggregated_with(
            floats,
            items.subrange(0, k),
            rows,
        ),
    decreases items.len() - k,
{
    if k < items.len() {
        assert(items.subrange(0, k + 1).drop_last() =~= items.subrange(0, k));
        lemma_aggregated_with_prefix(floats, items, rows, k + 1);
    } else {
        assert(items.subrange(0, k) =~= items);
    }
}

/// What the item at `i` gives in an aggregate query on `rows` under the
/// arithmetic `floats`.
pub open spec fn item_with<F: FloatOps>(
    floats: &F,
    items: Seq<ReturnItemView>,
    rows: Seq<RowView>,
    i: int,
) -> Outcome {
    aggregate_outcome_with(floats, items[i].expression, rows)
}

/// Where every item has a value, the row of the query binds each key to
/// its value.
proof fn lemma_aggregated_with_row<F: FloatOps>(
    floats: &F,
    items: Seq<ReturnItemView>,
    rows: Seq<RowView>,
    vals: Seq<ValueView>,
)
    requires
        vals.len() == items.len(),
        forall|k: int|
            0 <= k < items.len() ==> #[trigger] item_with(floats, items, rows, k) == Outcome::Is(
                vals[k],
            ),
    ensures
        aggregated_with(floats, items, rows) == Ok::<RowView, Failure>(bound_row(items, vals)),
    decreases items.len(),
{
    if items.len() > 0 {
        let front = items.drop_last();
        assert forall|k: int| 0 <= k < front.len() implies #[trigger] item_with(
            floats,
            front,
            rows,
            k,
        ) == Outcome::Is(vals.drop_last()[k]) by {
            assert(item_with(floats, items, rows, k) == Outcome::Is(vals[k]));
        }
        lemma_aggregated_with_row(floats, front, rows, vals.drop_last());
        assert(item_with(floats, items, rows, items.len() - 1) == Outcome::Is(vals.last()));
    }
}

/// Where the items before `i` have values and the item at `i` fails, the
/// query fails as that item does.
proof fn lemma_aggregated_with_fails<F: FloatOps>(
    floats: &F,
    items: Seq<ReturnItemView>,
    rows: Seq<RowView>,
    vals: Seq<ValueView>,
    i: int,
    f: Failure,
)
    requires
        0 <= i < items.len(),
        vals.len() == i,
        forall|k: int|
            0 <= k < i ==> #[trigger] item_with(floats, items, rows, k) == Outcome::Is(vals[k]),
        item_with(floats, items, rows, i) == Outcome::Fails(f),
    ensures
        aggregated_with(floats, items, rows) == Err::<RowView, Failure>(f),
{
    let upto = items.subrange(0, i + 1);
    let front = items.subrange(0, i);
    assert(upto.drop_last() =~= front);
    assert forall|k: int| 0 <= k < front.len() implies #[trigger] item_with(
        floats,
        front,
        rows,
        k,
    ) == Outcome::Is(vals[k]) by {
        assert(item_with(floats, items, rows, k) == Outcome::Is(vals[k]));
    }
    lemma_aggregated_with_row(floats, front, rows, vals);
    assert(upto.last() == items[i]);
    assert(aggregated_with(floats, upto, rows) == Err::<RowView, Failure>(f));
    lemma_aggregated_with_prefix(floats, items, rows, i + 1);
}

/// A value is what an outcome allows: the value itself where the outcome
/// is one, any value where the caller's arithmetic decides, none where the
/// outcome is a failure.
pub open spec fn fits(o: Outcome, v: ValueView) -> bool {
    match o {
        Outcome::Is(x) => v == x,
        Outcome::Floats => true,
        Outcome::Fails(_) => false,
    }
}

/// What the item at `i` gives in an aggregate query on `rows`.
pub open spec fn item_outcome(items: Seq<ReturnItemView>, rows: Seq<RowView>, i: int) -> Outcome {
    aggregate_outcome(items[i].expression, rows)
}

/// `values` holds, for every item in turn, a value that its outcome
/// allows.
pub open spec fn values_fit(items: Seq<ReturnItemView>, rows: Seq<RowView>, values: Seq<ValueView>) -> bool {
    &&& values.len() == items.len()
    &&& forall|i: int|
        0 <= i < items.len() ==> fits(#[trigger] item_outcome(items, rows, i), values[i])
}

/// The row that binds the key of every item in turn to its value.
pub open spec fn bound_row(items: Seq<ReturnItemView>, values: Seq<ValueView>) -> RowView
    decreases items.len(),
{
    if items.len() == 0 || values.len() != items.len() {
        Seq::empty()
    } else {
        bind(
            bound_row(items.drop_last(), values.drop_last()),
            return_key(items.last()),
            values.last(),
        )
    }
}

/// The single row of an aggregate query where it succeeds: the key of
/// every item, in turn, is bound to the value of the item, and to some value
/// where the caller's arithmetic decides it.
pub open spec fn aggregate_row(items: Seq<ReturnItemView>, rows: Seq<RowView>, row: RowView) -> bool {
    exists|values: Seq<ValueView>| #[trigger]
        values_fit(items, rows, values) && row == bound_row(items, values)
}

/// The failure of an aggregate query: that of the first item that fails,
/// or an invalid expression where the caller's arithmetic has no finite
/// result for an item before any item fails.
pub open spec fn aggregate_stops(items: Seq<ReturnItemView>, rows: Seq<RowView>, k: Failure) -> bool {
    exists|i: int|
        0 <= i < items.len() && stops_at(items, rows, i, k)
}

/// The query stops at the item `i` with the failure `k`: no item before
/// fails, and the item fails with `k` or is one that the caller's arithmetic
/// decides and `k` is an invalid expression.
pub open spec fn stops_at(items: Seq<ReturnItemView>, rows: Seq<RowView>, i: int, k: Failure) -> bool {
    &&& forall|j: int| 0 <= j < i ==> !(#[trigger] item_outcome(items, rows, j) is Fails)
    &&& (item_outcome(items, rows, i) == Outcome::Fails(k) || (item_outcome(items, rows, i)
        is Floats && k == Failure::InvalidExpression))
}

/// The single row of an aggregate query.
pub fn compute_aggregates<F: FloatOps>(floats: &F, rows: &Vec<Row>, items: &Vec<ReturnItem>) -> (r:
    Result<Row, ExecutionError>)
    ensures
        match aggregated(items@.map_values(|i: ReturnItem| i@), rows_view(rows@)) {
            Some(Ok(row)) => r matches Ok(x) && x@ == row,
            Some(Err(f)) => r matches Err(e) && e.kind() == f,
            None => true,
        },
        r matches Ok(x) ==> aggregate_row(
            items@.map_values(|i: ReturnItem| i@),
            rows_view(rows@),
            x@,
        ),
        r matches Err(e) ==> aggregate_stops(
            items@.map_values(|i: ReturnItem| i@),
            rows_view(rows@),
            e.kind(),
        ),
        floats.exact() ==> match aggregated_with(
            floats,
            items@.map_values(|i: ReturnItem| i@),
            rows_view(rows@),
        ) {
            Ok(row) => r matches Ok(x) && x@ == row,
            Err(f) => r matches Err(e) && e.kind() == f,
        },
{
    let ghost all = items@.map_values(|i: ReturnItem| i@);
    let ghost rv = rows_view(rows@);
    let ghost mut vals: Seq<ValueView> = Seq::empty();
    let mut result = Row::new();
    let mut i: usize = 0;
    assert(all.subrange(0, 0) =~= Seq::empty());
    while i < items.len()
        invariant
            0 <= i <= items.len(),
            all == items@.map_values(|i: ReturnItem| i@),
            rv == rows_view(rows@),
            match aggregated(all.subrange(0, i as int), rv) {
                Some(Ok(row)) => result@ == row,
                Some(Err(_)) => false,
                None => true,
            },
            vals.len() == i,
            forall|k: int| 0 <= k < i ==> fits(#[trigger] item_outcome(all, rv, k), vals[k]),
            result@ == bound_row(all.subrange(0, i as int), vals),
            floats.exact() ==> forall|k: int|
                0 <= k < i ==> #[trigger] item_with(floats, all, rv, k) == Outcome::Is(vals[k]),
        decreases items.len() - i,
    {
        let item = &items[i];
        proof {
            let t = all.subrange(0, i as int + 1);
            assert(t.drop_last() =~= all.subrange(0, i as int));
            assert(t.last() == item@);
        }
        let key = get_return_key(item);
        match evaluate_aggregate(floats, &item.expression, rows) {
            Ok(value) => {
                result.insert(key.as_str(), value);
                proof {
                    let before = vals;
                    vals = vals.push(value@);
                    assert(vals.drop_last() =~= before);
                    assert(fits(item_outcome(all, rv, i as int), value@));
                    if floats.exact() {
                        assert(item_with(floats, all, rv, i as int) == Outcome::Is(value@));
                    }
                }
            },
            Err(e) => {
                proof {
                    lemma_aggregated_prefix(all, rv, i as int + 1);
                    assert(stops_at(all, rv, i as int, e.kind()));
                    if floats.exact() {
                        assert(item_with(floats, all, rv, i as int) == Outcome::Fails(e.kind()));
                        lemma_aggregated_with_fails(floats, all, rv, vals, i as int, e.kind());
                    }
                }
                return Err(e);
            },
        }
        i += 1;
    }
    proof {
        assert(all.subrange(0, i as int) =~= all);
        assert(values_fit(all, rv, vals));
        if floats.exact() {
            lemma_aggregated_with_row(floats, all, rv, vals);
        }
    }
    Ok(result)
}

/// What is settled on the first items is settled on all of them.
pub proof fn lemma_aggregated_prefix(items: Seq<ReturnItemView>, rows: Seq<RowView>, k: int)
    requires
        0 <= k <= items.len(),
        !(aggregated(items.subrange(0, k), rows) matches Some(Ok(_))),
    ensures
        aggregated(items, rows) == aggregated(items.subrange(0, k), rows),
    decreases items.len() - k,
{
    if k < items.len() {
        assert(items.subrange(0, k + 1).drop_last() =~= items.subrange(0, k));
        lemma_aggregated_prefix(items, rows, k + 1);
    } else {
        assert(items.subrange(0, k) =~= items);
    }
}

} // verus!
