//! The RETURN pipeline: projection, aggregation, ordering, limit.

use crate::bytes::{compare_bytes, lex_rank, Rank};
use crate::executor::convert::{literal_to_value, literal_value};
use crate::executor::error::{ExecutionError, Failure};
use crate::executor::eval::{
    agrees, evaluate_property, int_rank, int_text, integer_text, property_outcome,
    rank_integers, Outcome,
};
use crate::executor::floats::FloatOps;
use crate::executor::value::{bind, lookup, rows_view, Row, RowValue, ValueView};
use crate::parser::ast::{
    exprs_view, lemma_expr_unfold, opt_text, texts_view, BinaryOperator, ExprView, Expression,
    PropertyView, ReturnClause, ReturnItem, ReturnItemView, SortItem, SortItemView,
};
use crate::parser::grammar::upper;
use crate::parser::parse_expr::upper_eq;
use vstd::prelude::*;
use vstd::string::StringExecFns;
use vstd::utf8::encode_utf8;

verus! {

/// A row as the model sees it.
pub type RowView = Seq<(Seq<char>, ValueView)>;

/// The name of an aggregate function, in any case.
pub open spec fn aggregate_name(name: Seq<char>) -> bool {
    let u = upper(name);
    u == "COUNT"@ || u == "SUM"@ || u == "AVG"@ || u == "MIN"@ || u == "MAX"@
}

/// Whether an expression holds an aggregate call: the call itself, or an
/// operand of a binary or unary operator.
pub open spec fn has_aggregate(e: ExprView) -> bool
    decreases e,
{
    match e {
        ExprView::FunctionCall { name, args } => aggregate_name(name),
        ExprView::BinaryOp { left, op, right } => has_aggregate(*left) || has_aggregate(*right),
        ExprView::UnaryOp { op, expr } => has_aggregate(*expr),
        _ => false,
    }
}

/// Whether a name is the name of an aggregate function.
pub fn is_aggregate_name(name: &str) -> (r: bool)
    ensures
        r == aggregate_name(name@),
{
    upper_eq(name, "COUNT") || upper_eq(name, "SUM") || upper_eq(name, "AVG") || upper_eq(
        name,
        "MIN",
    ) || upper_eq(name, "MAX")
}

/// Whether an expression holds an aggregate call.
pub fn contains_aggregate(expr: &Expression) -> (r: bool)
    ensures
        r == has_aggregate(expr@),
    decreases expr,
{
    match expr {
        Expression::FunctionCall { name, .. } => {
            proof {
                lemma_expr_unfold(*expr);
            }
            is_aggregate_name(name.as_str())
        },
        Expression::BinaryOp { left, right, .. } => contains_aggregate(left) || contains_aggregate(
            right,
        ),
        Expression::UnaryOp { expr, .. } => contains_aggregate(expr),
        _ => false,
    }
}

/// The names of a property chain joined by dots, behind `sofar`.
pub open spec fn dotted(sofar: Seq<char>, names: Seq<Seq<char>>) -> Seq<char>
    decreases names.len(),
{
    if names.len() == 0 {
        sofar
    } else {
        dotted(sofar + seq!['.'] + names[0], names.subrange(1, names.len() as int))
    }
}

/// The key under which a return item appears in a result row: its alias,
/// else the variable's name, else `base.prop.prop`, else the function's name
/// with `(*)` for a call without arguments and `(...)` for one with, else
/// `expr`.
pub open spec fn return_key(item: ReturnItemView) -> Seq<char> {
    match item.alias {
        Some(a) => a,
        None => match item.expression {
            ExprView::Variable(v) => v,
            ExprView::Property(p) => dotted(p.base, p.properties),
            ExprView::FunctionCall { name, args } => if args.len() == 0 {
                name + "(*)"@
            } else {
                name + "(...)"@
            },
            _ => "expr"@,
        },
    }
}

/// `base.prop.prop`.
pub fn property_key(base: &str, names: &Vec<String>) -> (r: String)
    ensures
        r@ == dotted(base@, texts_view(names@)),
{
    let mut out = base.to_owned();
    let mut i: usize = 0;
    let ghost all = texts_view(names@);
    assert(all.subrange(0, all.len() as int) =~= all);
    while i < names.len()
        invariant
            0 <= i <= names.len(),
            all == texts_view(names@),
            dotted(base@, all) == dotted(out@, all.subrange(i as int, all.len() as int)),
        decreases names.len() - i,
    {
        let ghost rest = all.subrange(i as int, all.len() as int);
        let ghost before = out@;
        proof {
            reveal_strlit(".");
            assert(rest[0] == names[i as int]@);
            assert(rest.subrange(1, rest.len() as int) =~= all.subrange(
                i as int + 1,
                all.len() as int,
            ));
        }
        out.append(".");
        out.append(names[i].as_str());
        assert(out@ =~= before + seq!['.'] + names[i as int]@);
        i += 1;
    }
    out
}

/// The key under which a return item appears in a result row.
pub fn get_return_key(item: &ReturnItem) -> (r: String)
    ensures
        r@ == return_key(item@),
{
    match &item.alias {
        Some(alias) => alias.clone(),
        None => match &item.expression {
            Expression::Variable(var) => var.clone(),
            Expression::Property(prop) => property_key(prop.base.as_str(), &prop.properties),
            Expression::FunctionCall { name, args } => {
                proof {
                    lemma_expr_unfold(item.expression);
                }
                let mut out = name.clone();
                if args.len() == 0 {
                    out.append("(*)");
                } else {
                    out.append("(...)");
                }
                out
            },
            _ => "expr".to_owned(),
        },
    }
}

/// The outcome of evaluating a return or sort expression in a row: a
/// variable, a property chain or a literal; anything else is refused.
pub open spec fn row_outcome(e: ExprView, row: RowView) -> Outcome {
    match e {
        ExprView::Variable(name) => match lookup(row, name) {
            Some(v) => Outcome::Is(v),
            None => Outcome::Fails(Failure::VariableNotFound(name)),
        },
        ExprView::Property(p) => match lookup(row, p.base) {
            Some(_) => property_outcome(p, row),
            None => Outcome::Fails(Failure::VariableNotFound(p.base)),
        },
        ExprView::Literal(l) => Outcome::Is(literal_value(l)),
        _ => Outcome::Fails(Failure::Unsupported),
    }
}

/// The value of a return or sort expression in a row.
pub fn evaluate_row_expression(expr: &Expression, row: &Row) -> (r: Result<RowValue, ExecutionError>)
    ensures
        agrees(r, row_outcome(expr@, row@)),
        !(row_outcome(expr@, row@) is Floats),
{
    match expr {
        Expression::Variable(var) => match row.get(var.as_str()) {
            Some(v) => Ok(v.clone()),
            None => Err(ExecutionError::VariableNotFound(var.clone())),
        },
        Expression::Property(prop) => evaluate_property(prop, row),
        Expression::Literal(lit) => Ok(literal_to_value(lit)),
        _ => Err(ExecutionError::unsupported("Complex expressions are not supported here")),
    }
}

/// The projection of a row on the return items `items`: for an item that
/// is a variable or a property chain whose variable the row binds, its value
/// under its key; nothing where an item is any other expression or a
/// property is missing.
pub open spec fn projected(row: RowView, items: Seq<ReturnItemView>) -> Result<RowView, Failure>
    decreases items.len(),
{
    if items.len() == 0 {
        Ok(Seq::empty())
    } else {
        match projected(row, items.drop_last()) {
            Err(f) => Err(f),
            Ok(front) => {
                let item = items.last();
                match item.expression {
                    ExprView::Variable(v) => match lookup(row, v) {
                        Some(value) => Ok(bind(front, return_key(item), value)),
                        None => Ok(front),
                    },
                    ExprView::Property(p) => match lookup(row, p.base) {
                        Some(_) => match property_outcome(p, row) {
                            Outcome::Is(value) => Ok(bind(front, return_key(item), value)),
                            Outcome::Fails(f) => Err(f),
                            Outcome::Floats => Ok(front),
                        },
                        None => Ok(front),
                    },
                    _ => Err(Failure::Unsupported),
                }
            },
        }
    }
}

/// What fails on the first items fails on all of them.
pub proof fn lemma_projected_prefix(row: RowView, items: Seq<ReturnItemView>, k: int)
    requires
        0 <= k <= items.len(),
        projected(row, items.subrange(0, k)) is Err,
    ensures
        projected(row, items) == projected(row, items.subrange(0, k)),
    decreases items.len() - k,
{
    if k < items.len() {
        assert(items.subrange(0, k + 1).drop_last() =~= items.subrange(0, k));
        lemma_projected_prefix(row, items, k + 1);
    } else {
        assert(items.subrange(0, k) =~= items);
    }
}

/// The projection of a row on the return items.
pub fn project_row(row: &Row, items: &Vec<ReturnItem>) -> (r: Result<Row, ExecutionError>)
    ensures
        match projected(row@, items@.map_values(|i: ReturnItem| i@)) {
            Ok(p) => r matches Ok(x) && x@ == p,
            Err(f) => r matches Err(e) && e.kind() == f,
        },
{
    let ghost all = items@.map_values(|i: ReturnItem| i@);
    let mut out = Row::new();
    let mut i: usize = 0;
    assert(all.subrange(0, 0) =~= Seq::empty());
    while i < items.len()
        invariant
            0 <= i <= items.len(),
            all == items@.map_values(|i: ReturnItem| i@),
            projected(row@, all.subrange(0, i as int)) == Ok::<RowView, Failure>(out@),
        decreases items.len() - i,
    {
        let item = &items[i];
        proof {
            let t = all.subrange(0, i as int + 1);
            assert(t.drop_last() =~= all.subrange(0, i as int));
            assert(t.last() == item@);
        }
        match &item.expression {
            Expression::Variable(var) => {
                match row.get(var.as_str()) {
                    Some(value) => {
                        let key = get_return_key(item);
                        out.insert(key.as_str(), value.clone());
                    },
                    None => {},
                }
            },
            Expression::Property(prop) => {
                match row.get(prop.base.as_str()) {
                    Some(_) => {
                        match evaluate_property(prop, row) {
                            Ok(value) => {
                                let key = get_return_key(item);
                                out.insert(key.as_str(), value);
                            },
                            Err(e) => {
                                proof {
                                    lemma_projected_prefix(row@, all, i as int + 1);
                                }
                                return Err(e);
                            },
                        }
                    },
                    None => {},
                }
            },
            _ => {
                proof {
                    lemma_projected_prefix(row@, all, i as int + 1);
                }
                return Err(ExecutionError::unsupported("Complex expressions in RETURN"));
            },
        }
        i += 1;
    }
    assert(all.subrange(0, i as int) =~= all);
    Ok(out)
}

/// The first `limit` of `rows`, where `limit` is not negative; all of them
/// otherwise.
pub open spec fn limited<T>(rows: Seq<T>, limit: Option<i64>) -> Seq<T> {
    match limit {
        Some(n) => if 0 <= n < rows.len() {
            rows.subrange(0, n as int)
        } else {
            rows
        },
        None => rows,
    }
}

/// Cuts `rows` off behind the first `limit` rows.
pub fn apply_limit(rows: &mut Vec<Row>, limit: Option<i64>)
    ensures
        final(rows)@ == limited(old(rows)@, limit),
{
    match limit {
        Some(n) => {
            if n >= 0 && (n as u64) < rows.len() as u64 {
                rows.truncate(n as usize);
            }
        },
        None => {},
    }
}

} // verus!
