//! SET: replaces a property of a matched vertex or edge, which may lie in
//! nested objects.

use crate::executor::convert::{
    literal_json, literal_to_json, value_json, value_to_json,
};
use crate::executor::error::{terminal, ExecutionError, Failure};
use crate::executor::eval::{follow_path, path_outcome, trunc_div};
use crate::executor::floats::FloatOps;
use crate::executor::projection::RowView;
use crate::executor::value::{lookup, rows_view, Row, RowValue, ValueView};
use crate::json::{Json, JsonView};
use crate::parser::ast::{
    texts_view, BinaryOperator, ExprView, Expression, PropertyExpression, PropertyView, SetItem,
    SetItemView,
};
use crate::storage::codec::{encode_edge_spec, encode_vertex_spec};
use crate::storage::engine::GraphStore;
use crate::storage::keys::{edge_key, vertex_key};
use crate::storage::kv::{apply_ops, KvStore, WriteOpView};
use crate::storage::transaction::GraphTransaction;
use crate::text::{decimal_string, decimal_text};
use crate::types::edge::EdgeView;
use crate::types::graphid::Graphid;
use crate::types::vertex::VertexView;
use vstd::prelude::*;
use vstd::string::StringExecFns;

verus! {

/// What an evaluation in SET gives: a JSON value, a failure, or whatever
/// the caller's arithmetic on numbers in text form gives.
pub enum JsonOutcome {
    Is(JsonView),
    Fails(Failure),
    Floats,
}

/// A result is what the outcome says.
pub open spec fn json_agrees(r: Result<Json, ExecutionError>, o: JsonOutcome) -> bool {
    match o {
        JsonOutcome::Is(v) => r matches Ok(x) && x@ == v,
        JsonOutcome::Fails(f) => r matches Err(e) && e.kind() == f,
        JsonOutcome::Floats => r matches Err(e) ==> e.kind() != Failure::Storage,
    }
}

/// A JSON number that is no integer of the 64-bit signed range.
pub open spec fn is_float_json(j: JsonView) -> bool {
    j is Float || j is UInt
}

/// An integer result, if it fits 64 bits.
pub open spec fn fit_json(x: int) -> JsonOutcome {
    if -0x8000_0000_0000_0000 <= x <= 0x7fff_ffff_ffff_ffff {
        JsonOutcome::Is(JsonView::Int(x as i64))
    } else {
        JsonOutcome::Fails(Failure::InvalidExpression)
    }
}

/// The outcome of a binary operator of SET on two JSON values: `+`, `-`,
/// `*` and `/` on two numbers, integers exactly and a division by zero
/// invalid; `+` also joins two strings; operands of other types are a type
/// mismatch; any other operator is not supported.
pub open spec fn json_binary(op: BinaryOperator, a: JsonView, b: JsonView) -> JsonOutcome {
    match op {
        BinaryOperator::Add | BinaryOperator::Subtract | BinaryOperator::Multiply | BinaryOperator::Divide => match (
            a,
            b,
        ) {
            (JsonView::Int(x), JsonView::Int(y)) => match op {
                BinaryOperator::Add => fit_json(x + y),
                BinaryOperator::Subtract => fit_json(x - y),
                BinaryOperator::Multiply => fit_json(x * y),
                _ => if y == 0 {
                    JsonOutcome::Fails(Failure::InvalidExpression)
                } else {
                    fit_json(trunc_div(x as int, y as int))
                },
            },
            (JsonView::Str(x), JsonView::Str(y)) => if op == BinaryOperator::Add {
                JsonOutcome::Is(JsonView::Str(x + y))
            } else {
                JsonOutcome::Fails(Failure::TypeMismatch)
            },
            _ => if (a is Int || is_float_json(a)) && (b is Int || is_float_json(b)) {
                JsonOutcome::Floats
            } else {
                JsonOutcome::Fails(Failure::TypeMismatch)
            },
        },
        _ => JsonOutcome::Fails(Failure::Unsupported),
    }
}

/// A JSON number as the text that is handed to the caller's arithmetic.
pub open spec fn json_number_text(j: JsonView) -> Seq<char> {
    match j {
        JsonView::Int(i) => crate::executor::eval::int_text(i),
        JsonView::UInt(u) => crate::text::decimal_text(u as nat),
        JsonView::Float(t) => t,
        _ => Seq::empty(),
    }
}

/// What holds of a result that the caller's arithmetic decides: a value
/// is a number in text form, and a failure says that there is no finite
/// result.
pub open spec fn json_float_result(r: Result<Json, ExecutionError>) -> bool {
    match r {
        Ok(v) => v@ is Float,
        Err(e) => e.kind() == Failure::InvalidExpression,
    }
}

/// The outcome of a binary operator of SET under the arithmetic `floats`:
/// what `json_binary` says where that is settled, and else the result of the
/// arithmetic on the texts of the two numbers.
pub open spec fn json_binary_with<F: FloatOps>(
    floats: &F,
    op: BinaryOperator,
    a: JsonView,
    b: JsonView,
) -> JsonOutcome {
    match json_binary(op, a, b) {
        JsonOutcome::Floats => match floats.arith_spec(
            op,
            json_number_text(a),
            json_number_text(b),
        ) {
            Some(t) => JsonOutcome::Is(JsonView::Float(t)),
            None => JsonOutcome::Fails(Failure::InvalidExpression),
        },
        o => o,
    }
}

/// The outcome of evaluating the right-hand side of a SET item under the
/// arithmetic `floats`.
pub open spec fn set_eval_with<F: FloatOps>(floats: &F, e: ExprView, row: RowView) -> JsonOutcome
    decreases e,
{
    match e {
        ExprView::BinaryOp { left, op, right } => match set_eval_with(floats, *left, row) {
            JsonOutcome::Is(a) => match set_eval_with(floats, *right, row) {
                JsonOutcome::Is(b) => json_binary_with(floats, op, a, b),
                o => o,
            },
            o => o,
        },
        _ => set_eval(e, row),
    }
}

/// The text of a JSON number.
fn number_text(j: &Json) -> (r: Option<String>)
    ensures
        r.is_some() == (j@ is Int || is_float_json(j@)),
        r matches Some(t) ==> t@ == json_number_text(j@),
{
    match j {
        Json::Int(i) => Some(crate::executor::eval::integer_text(*i)),
        Json::UInt(u) => Some(decimal_string(*u)),
        Json::Float(t) => Some(t.clone()),
        _ => None,
    }
}

/// An integer result, if it fits 64 bits.
fn fit_integer(x: i128) -> (r: Result<Json, ExecutionError>)
    ensures
        json_agrees(r, fit_json(x as int)),
{
    if x < -0x8000_0000_0000_0000 || x > 0x7fff_ffff_ffff_ffff {
        Err(ExecutionError::invalid("Integer overflow"))
    } else {
        Ok(Json::Int(x as i64))
    }
}

/// A binary operator of SET on two JSON values.
pub fn apply_binary_op<F: FloatOps>(floats: &F, left: &Json, op: BinaryOperator, right: &Json) -> (r:
    Result<Json, ExecutionError>)
    ensures
        json_agrees(r, json_binary(op, left@, right@)),
        r matches Err(e) ==> e.kind() != Failure::Storage,
        json_binary(op, left@, right@) is Floats ==> json_float_result(r),
        floats.exact() ==> json_agrees(r, json_binary_with(floats, op, left@, right@)),
{
    match op {
        BinaryOperator::Add | BinaryOperator::Subtract | BinaryOperator::Multiply | BinaryOperator::Divide => {},
        _ => {
            return Err(ExecutionError::unsupported("Operator not supported in SET"));
        },
    }
    match (left, right) {
        (Json::Int(a), Json::Int(b)) => {
            let x: i128 = *a as i128;
            let y: i128 = *b as i128;
            match op {
                BinaryOperator::Add => fit_integer(x + y),
                BinaryOperator::Subtract => fit_integer(x - y),
                BinaryOperator::Multiply => {
                    assert(-0x8000_0000_0000_0000 * 0x8000_0000_0000_0000 <= x * y
                        <= 0x8000_0000_0000_0000 * 0x8000_0000_0000_0000) by (nonlinear_arith)
                        requires
                            -0x8000_0000_0000_0000 <= x <= 0x7fff_ffff_ffff_ffff,
                            -0x8000_0000_0000_0000 <= y <= 0x7fff_ffff_ffff_ffff,
                    ;
                    fit_integer(x * y)
                },
                _ => {
                    if *b == 0 {
                        return Err(ExecutionError::invalid("Division by zero"));
                    }
                    let q: u64 = crate::executor::eval::magnitude(*a)
                        / crate::executor::eval::magnitude(*b);
                    if (*a < 0) != (*b < 0) {
                        fit_integer(-(q as i128))
                    } else {
                        fit_integer(q as i128)
                    }
                },
            }
        },
        (Json::Str(a), Json::Str(b)) => {
            match op {
                BinaryOperator::Add => {
                    let mut joined = a.clone();
                    joined.append(b.as_str());
                    Ok(Json::Str(joined))
                },
                _ => Err(ExecutionError::mismatch("Number", "two strings")),
            }
        },
        _ => {
            match (number_text(left), number_text(right)) {
                (Some(a), Some(b)) => match floats.arith(op, a.as_str(), b.as_str()) {
                    Some(t) => Ok(Json::Float(t)),
                    None => Err(ExecutionError::invalid("No finite result")),
                },
                _ => Err(ExecutionError::mismatch("Number or String", "values of other types")),
            }
        },
    }
}

/// The outcome of evaluating the right-hand side of a SET item in a row: a
/// literal, a variable, a property chain, or a binary operator on such.
pub open spec fn set_eval(e: ExprView, row: RowView) -> JsonOutcome
    decreases e,
{
    match e {
        ExprView::Literal(l) => match literal_json(l) {
            Some(j) => JsonOutcome::Is(j),
            None => JsonOutcome::Fails(Failure::InvalidExpression),
        },
        ExprView::Variable(name) => match lookup(row, name) {
            None => JsonOutcome::Fails(Failure::VariableNotFound(name)),
            Some(v) => match value_json(v) {
                Some(j) => JsonOutcome::Is(j),
                None => JsonOutcome::Fails(Failure::TypeMismatch),
            },
        },
        ExprView::Property(p) => match lookup(row, p.base) {
            None => JsonOutcome::Fails(Failure::VariableNotFound(p.base)),
            Some(ValueView::Vertex(x)) => match path_outcome(x.properties, p.properties) {
                Ok(j) => JsonOutcome::Is(j),
                Err(k) => JsonOutcome::Fails(Failure::PropertyNotFound(k)),
            },
            Some(ValueView::Edge(x)) => match path_outcome(x.properties, p.properties) {
                Ok(j) => JsonOutcome::Is(j),
                Err(k) => JsonOutcome::Fails(Failure::PropertyNotFound(k)),
            },
            Some(_) => JsonOutcome::Fails(Failure::TypeMismatch),
        },
        ExprView::BinaryOp { left, op, right } => match set_eval(*left, row) {
            JsonOutcome::Is(a) => match set_eval(*right, row) {
                JsonOutcome::Is(b) => json_binary(op, a, b),
                JsonOutcome::Fails(f) => JsonOutcome::Fails(f),
                JsonOutcome::Floats => JsonOutcome::Floats,
            },
            JsonOutcome::Fails(f) => JsonOutcome::Fails(f),
            JsonOutcome::Floats => JsonOutcome::Floats,
        },
        _ => JsonOutcome::Fails(Failure::Unsupported),
    }
}

/// The value of the right-hand side of a SET item in a row.
pub fn evaluate_set_expression<F: FloatOps>(floats: &F, expr: &Expression, row: &Row) -> (r: Result<
    Json,
    ExecutionError,
>)
    ensures
        json_agrees(r, set_eval(expr@, row@)),
        r matches Err(e) ==> e.kind() != Failure::Storage,
        floats.exact() ==> json_agrees(r, set_eval_with(floats, expr@, row@)),
    decreases expr,
{
    match expr {
        Expression::Literal(lit) => literal_to_json(lit),
        Expression::Variable(var) => match row.get(var.as_str()) {
            Some(v) => value_to_json(v),
            None => Err(ExecutionError::VariableNotFound(var.clone())),
        },
        Expression::Property(prop) => {
            let entity = match row.get(prop.base.as_str()) {
                Some(v) => v,
                None => {
                    return Err(ExecutionError::VariableNotFound(prop.base.clone()));
                },
            };
            let json = match entity {
                RowValue::Vertex(x) => &x.properties,
                RowValue::Edge(x) => &x.properties,
                _ => {
                    return Err(ExecutionError::mismatch("Vertex or Edge", "another value"));
                },
            };
            match follow_path(json, &prop.properties) {
                Ok(j) => Ok(j.clone()),
                Err(e) => Err(e),
            }
        },
        Expression::BinaryOp { left, op, right } => {
            let a = match evaluate_set_expression(floats, left, row) {
                Ok(a) => a,
                Err(e) => {
                    return Err(e);
                },
            };
            let b = match evaluate_set_expression(floats, right, row) {
                Ok(b) => b,
                Err(e) => {
                    return Err(e);
                },
            };
            apply_binary_op(floats, &a, *op, &b)
        },
        _ => Err(ExecutionError::unsupported("Complex expressions not yet supported in SET")),
    }
}

/// The properties with the value at the end of `path` replaced: the path
/// must not be empty, every name but the last must lead to a member, and
/// the value that holds the last name must be an object.
pub open spec fn with_path(j: JsonView, path: Seq<Seq<char>>, value: JsonView) -> Result<
    JsonView,
    Failure,
>
    decreases path.len(),
{
    if path.len() == 0 {
        Err(Failure::InvalidExpression)
    } else if path.len() == 1 {
        if j is Object {
            Ok(j.with_member(path[0], value))
        } else {
            Err(Failure::TypeMismatch)
        }
    } else {
        match j.get(path[0]) {
            None => Err(Failure::PropertyNotFound(path[0])),
            Some(inner) => match with_path(inner, path.subrange(1, path.len() as int), value) {
                Ok(changed) => Ok(j.with_member(path[0], changed)),
                Err(f) => Err(f),
            },
        }
    }
}

/// The properties with the value at the end of the path from `from` on
/// replaced.
fn set_from(target: &Json, path: &Vec<String>, from: usize, value: Json) -> (r: Result<
    Json,
    ExecutionError,
>)
    requires
        from < path.len(),
    ensures
        match with_path(
            target@,
            texts_view(path@).subrange(from as int, path.len() as int),
            value@,
        ) {
            Ok(j) => r matches Ok(x) && x@ == j,
            Err(f) => r matches Err(e) && e.kind() == f,
        },
        r matches Err(e) ==> e.kind() != Failure::Storage,
    decreases path.len() - from,
{
    let ghost rest = texts_view(path@).subrange(from as int, path.len() as int);
    assert(rest[0] == path[from as int]@);
    if from + 1 == path.len() {
        if !target.is_object() {
            return Err(ExecutionError::mismatch("Object", "another value"));
        }
        let mut out = target.clone();
        out.set_member(path[from].clone(), value);
        Ok(out)
    } else {
        assert(rest.subrange(1, rest.len() as int) =~= texts_view(path@).subrange(
            from as int + 1,
            path.len() as int,
        ));
        let inner = match target.get(path[from].as_str()) {
            Some(inner) => inner,
            None => {
                return Err(ExecutionError::PropertyNotFound(path[from].clone()));
            },
        };
        match set_from(inner, path, from + 1, value) {
            Ok(changed) => {
                let mut out = target.clone();
                out.set_member(path[from].clone(), changed);
                Ok(out)
            },
            Err(e) => Err(e),
        }
    }
}

/// The properties with the value at the end of `path` replaced.
pub fn set_nested_property(target: &Json, path: &Vec<String>, value: Json) -> (r: Result<
    Json,
    ExecutionError,
>)
    ensures
        match with_path(target@, texts_view(path@), value@) {
            Ok(j) => r matches Ok(x) && x@ == j,
            Err(f) => r matches Err(e) && e.kind() == f,
        },
        r matches Err(e) ==> e.kind() != Failure::Storage,
{
    if path.len() == 0 {
        return Err(ExecutionError::invalid("Empty property path"));
    }
    assert(texts_view(path@).subrange(0, path.len() as int) =~= texts_view(path@));
    set_from(target, path, 0, value)
}

/// What one SET item stages for a row: the record that the base variable
/// is bound to is read from the committed state, the value at the property
/// path is replaced by the value of the right-hand side, and the record is
/// staged again. Nothing is settled where the right-hand side computes with
/// numbers in text form.
#[verifier::opaque]
pub open spec fn item_writes<K: KvStore>(store: &GraphStore<K>, item: SetItemView, row: RowView) -> Option<
    Result<WriteOpView, Failure>,
> {
    match lookup(row, item.property.base) {
        None => Some(Err(Failure::VariableNotFound(item.property.base))),
        Some(entity) => match set_eval(item.value, row) {
            JsonOutcome::Floats => None,
            JsonOutcome::Fails(f) => Some(Err(f)),
            JsonOutcome::Is(value) => match entity {
                ValueView::Vertex(x) => match store.vertex_spec(x.id) {
                    None => Some(
                        Err(
                            if store.state().contains_key(vertex_key(store.ns(), x.id)) {
                                Failure::Storage
                            } else {
                                Failure::InvalidExpression
                            },
                        ),
                    ),
                    Some(stored) => match with_path(stored.properties, item.property.properties, value) {
                        Err(f) => Some(Err(f)),
                        Ok(props) => match encode_vertex_spec(
                            VertexView { properties: props, ..stored },
                        ) {
                            None => Some(Err(Failure::Storage)),
                            Some(bytes) => Some(
                                Ok(
                                    WriteOpView::Put {
                                        key: vertex_key(store.ns(), x.id),
                                        value: bytes,
                                    },
                                ),
                            ),
                        },
                    },
                },
                ValueView::Edge(x) => match store.edge_spec(x.id) {
                    None => Some(
                        Err(
                            if store.state().contains_key(edge_key(store.ns(), x.id)) {
                                Failure::Storage
                            } else {
                                Failure::InvalidExpression
                            },
                        ),
                    ),
                    Some(stored) => match with_path(stored.properties, item.property.properties, value) {
                        Err(f) => Some(Err(f)),
                        Ok(props) => match encode_edge_spec(EdgeView { properties: props, ..stored }) {
                            None => Some(Err(Failure::Storage)),
                            Some(bytes) => Some(
                                Ok(WriteOpView::Put { key: edge_key(store.ns(), x.id), value: bytes }),
                            ),
                        },
                    },
                },
                _ => Some(Err(Failure::TypeMismatch)),
            },
        },
    }
}

/// Stages one SET item for a row.
pub fn apply_set_item<K: KvStore, F: FloatOps>(
    floats: &F,
    tx: &mut GraphTransaction,
    store: &GraphStore<K>,
    item: &SetItem,
    row: &Row,
) -> (r: Result<(), ExecutionError>)
    requires
        store.inv(),
    ensures
        final(tx).is_open() == old(tx).is_open(),
        !old(tx).is_open() ==> r is Err && terminal(old(tx), r->Err_0) && final(tx).staged() == old(tx).staged(),
        r is Err ==> final(tx).staged() == old(tx).staged(),
        r is Ok ==> final(tx).staged().len() == old(tx).staged().len() + 1 && final(tx).staged().subrange(0, old(tx).staged().len() as int) == old(tx).staged(),
        match item_writes(store, item@, row@) {
            Some(Ok(w)) => r is Ok ==> final(tx).staged() == old(tx).staged().push(w),
            Some(Err(f)) => r matches Err(e) && (e.kind() == f || e.kind() == Failure::Storage),
            None => true,
        },
        r matches Err(e) ==> e.kind() == Failure::Storage || item_writes(store, item@, row@)
            is None || item_writes(store, item@, row@) == Some(
            Err::<WriteOpView, Failure>(e.kind()),
        ),
        old(tx).is_open() && store.kv.reliable() && (item_writes(store, item@, row@) matches Some(
            Ok(_),
        )) ==> r is Ok,
{
    reveal(item_writes);
    match tx.check_state() {
        Err(e) => {
            return Err(ExecutionError::StorageError(e));
        },
        Ok(()) => {},
    }
    let entity = match row.get(item.property.base.as_str()) {
        Some(v) => v,
        None => {
            return Err(ExecutionError::VariableNotFound(item.property.base.clone()));
        },
    };
    let new_value = match evaluate_set_expression(floats, &item.value, row) {
        Ok(j) => j,
        Err(e) => {
            return Err(e);
        },
    };
    match entity {
        RowValue::Vertex(x) => {
            let stored = match tx.get_vertex(store, x.id) {
                Ok(Some(v)) => v,
                Ok(None) => {
                    return Err(ExecutionError::invalid("Vertex not found"));
                },
                Err(e) => {
                    return Err(ExecutionError::StorageError(e));
                },
            };
            let props = match set_nested_property(
                &stored.properties,
                &item.property.properties,
                new_value,
            ) {
                Ok(p) => p,
                Err(e) => {
                    return Err(e);
                },
            };
            match tx.update_vertex(store, x.id, props) {
                Ok(()) => {
                    proof {
                        let a = old(tx).staged();
                        assert(tx.staged().subrange(0, a.len() as int) =~= a);
                    }
                    Ok(())
                },
                Err(e) => Err(ExecutionError::StorageError(e)),
            }
        },
        RowValue::Edge(x) => {
            let stored = match tx.get_edge(store, x.id) {
                Ok(Some(v)) => v,
                Ok(None) => {
                    return Err(ExecutionError::invalid("Edge not found"));
                },
                Err(e) => {
                    return Err(ExecutionError::StorageError(e));
                },
            };
            let props = match set_nested_property(
                &stored.properties,
                &item.property.properties,
                new_value,
            ) {
                Ok(p) => p,
                Err(e) => {
                    return Err(e);
                },
            };
            match tx.update_edge(store, x.id, props) {
                Ok(()) => {
                    proof {
                        let a = old(tx).staged();
                        assert(tx.staged().subrange(0, a.len() as int) =~= a);
                    }
                    Ok(())
                },
                Err(e) => Err(ExecutionError::StorageError(e)),
            }
        },
        _ => Err(ExecutionError::mismatch("Vertex or Edge", "another value")),
    }
}

/// What the items `items` stage for a row, in their order. Nothing is
/// settled where an item computes with numbers in text form.
pub open spec fn row_writes<K: KvStore>(
    store: &GraphStore<K>,
    items: Seq<SetItemView>,
    row: RowView,
) -> Option<Result<Seq<WriteOpView>, Failure>>
    decreases items.len(),
{
    if items.len() == 0 {
        Some(Ok(Seq::empty()))
    } else {
        match row_writes(store, items.drop_last(), row) {
            None => None,
            Some(Err(f)) => Some(Err(f)),
            Some(Ok(front)) => match item_writes(store, items.last(), row) {
                None => None,
                Some(Err(f)) => Some(Err(f)),
                Some(Ok(w)) => Some(Ok(front.push(w))),
            },
        }
    }
}

/// What the items stage for all rows, row by row.
pub open spec fn all_writes<K: KvStore>(
    store: &GraphStore<K>,
    items: Seq<SetItemView>,
    rows: Seq<RowView>,
) -> Option<Result<Seq<WriteOpView>, Failure>>
    decreases rows.len(),
{
    if rows.len() == 0 {
        Some(Ok(Seq::empty()))
    } else {
        match all_writes(store, items, rows.drop_last()) {
            None => None,
            Some(Err(f)) => Some(Err(f)),
            Some(Ok(front)) => match row_writes(store, items, rows.last()) {
                None => None,
                Some(Err(f)) => Some(Err(f)),
                Some(Ok(ws)) => Some(Ok(front + ws)),
            },
        }
    }
}

/// The models of a list of SET items.
pub open spec fn items_model(items: Seq<SetItem>) -> Seq<SetItemView> {
    items.map_values(|i: SetItem| i@)
}

/// SET over a store.
pub struct SetExecutor;

impl SetExecutor {
    /// SET without a MATCH has nothing to work on and fails.
    pub fn execute(items: &Vec<SetItem>) -> (r: Result<(), ExecutionError>)
        ensures
            r matches Err(e) && e.kind() == Failure::InvalidExpression,
    {
        Err(ExecutionError::invalid("SET requires prior MATCH to bind variables"))
    }

    /// Applies every item to every row in one transaction and commits it:
    /// one record is staged for each row and item, in that order. Nothing is
    /// written when a step fails.
    pub fn execute_with_context<K: KvStore, F: FloatOps>(
        floats: &F,
        store: &mut GraphStore<K>,
        items: &Vec<SetItem>,
        rows: &Vec<Row>,
    ) -> (r: Result<(), ExecutionError>)
        requires
            old(store).inv(),
        ensures
            final(store).inv(),
            final(store).ns() == old(store).ns(),
            final(store).kv.reliable() == old(store).kv.reliable(),
            r is Err ==> final(store).state() == old(store).state(),
            match all_writes(old(store), items_model(items@), rows_view(rows@)) {
                Some(Ok(staged)) => r is Ok ==> final(store).state() == apply_ops(
                    old(store).state(),
                    staged,
                ),
                Some(Err(f)) => r matches Err(e) && (e.kind() == f || e.kind()
                    == Failure::Storage),
                None => true,
            },
            old(store).kv.reliable() && (all_writes(
                old(store),
                items_model(items@),
                rows_view(rows@),
            ) matches Some(Ok(_))) ==> r is Ok,
    {
        let mut tx = GraphTransaction::new();
        let ghost iv = items_model(items@);
        let ghost rv = rows_view(rows@);
        let n = items.len();
        let mut i: usize = 0;
        assert(rv.subrange(0, 0) =~= Seq::empty());
        while i < rows.len()
            invariant
                store.inv(),
                *store == *old(store),
                tx.is_open(),
                n == items.len(),
                iv == items_model(items@),
                rv == rows_view(rows@),
                0 <= i <= rows.len(),
                match all_writes(&*store, iv, rv.subrange(0, i as int)) {
                    Some(Ok(w)) => tx.staged() == w,
                    Some(Err(_)) => false,
                    None => true,
                },
            decreases rows.len() - i,
        {
            proof {
                let t = rv.subrange(0, i as int + 1);
                assert(t.drop_last() =~= rv.subrange(0, i as int));
                assert(t.last() == rows[i as int]@);
            }
            let ghost base = tx.staged();
            let mut j: usize = 0;
            assert(iv.subrange(0, 0) =~= Seq::empty());
            assert(base + Seq::empty() =~= base);
            while j < n
                invariant
                    store.inv(),
                    tx.is_open(),
                    n == items.len(),
                    iv == items_model(items@),
                    0 <= i < rows.len(),
                    0 <= j <= n,
                    *store == *old(store),
                    rv == rows_view(rows@),
                    match all_writes(&*store, iv, rv.subrange(0, i as int)) {
                        Some(Ok(w)) => base == w,
                        Some(Err(_)) => false,
                        None => true,
                    },
                    match row_writes(&*store, iv.subrange(0, j as int), rows[i as int]@) {
                        Some(Ok(w)) => tx.staged() == base + w,
                        Some(Err(_)) => false,
                        None => true,
                    },
                decreases n - j,
            {
                proof {
                    let t = iv.subrange(0, j as int + 1);
                    assert(t.drop_last() =~= iv.subrange(0, j as int));
                    assert(t.last() == items[j as int]@);
                }
                let ghost before = tx.staged();
                match apply_set_item(floats, &mut tx, store, &items[j], &rows[i]) {
                    Ok(()) => {
                        proof {
                            match row_writes(&*store, iv.subrange(0, j as int), rows[i as int]@) {
                                Some(Ok(w)) => {
                                    match item_writes(&*store, items[j as int]@, rows[i as int]@) {
                                        Some(Ok(x)) => {
                                            assert(before.push(x) =~= base + w.push(x));
                                        },
                                        _ => {},
                                    }
                                },
                                _ => {},
                            }
                        }
                    },
                    Err(e) => {
                        proof {
                            if !(row_writes(
                                &*store,
                                iv.subrange(0, j as int + 1),
                                rows[i as int]@,
                            ) matches Some(Ok(_))) {
                                lemma_row_writes_prefix(&*store, iv, rows[i as int]@, j as int + 1);
                                let t = rv.subrange(0, i as int + 1);
                                assert(t.drop_last() =~= rv.subrange(0, i as int));
                                assert(t.last() == rows[i as int]@);
                                lemma_all_writes_prefix(&*store, iv, rv, i as int + 1);
                            }
                        }
                        return Err(e);
                    },
                }
                j += 1;
            }
            assert(iv.subrange(0, n as int) =~= iv);
            i += 1;
        }
        assert(rv.subrange(0, i as int) =~= rv);
        match tx.commit(store) {
            Ok(()) => Ok(()),
            Err(e) => Err(ExecutionError::StorageError(e)),
        }
    }
}

/// What is settled on the first items is settled on all of them.
pub proof fn lemma_row_writes_prefix<K: KvStore>(
    store: &GraphStore<K>,
    items: Seq<SetItemView>,
    row: RowView,
    k: int,
)
    requires
        0 <= k <= items.len(),
        !(row_writes(store, items.subrange(0, k), row) matches Some(Ok(_))),
    ensures
        row_writes(store, items, row) == row_writes(store, items.subrange(0, k), row),
    decreases items.len() - k,
{
    if k < items.len() {
        assert(items.subrange(0, k + 1).drop_last() =~= items.subrange(0, k));
        lemma_row_writes_prefix(store, items, row, k + 1);
    } else {
        assert(items.subrange(0, k) =~= items);
    }
}

/// What is settled on the first rows is settled on all of them.
pub proof fn lemma_all_writes_prefix<K: KvStore>(
    store: &GraphStore<K>,
    items: Seq<SetItemView>,
    rows: Seq<RowView>,
    k: int,
)
    requires
        0 <= k <= rows.len(),
        !(all_writes(store, items, rows.subrange(0, k)) matches Some(Ok(_))),
    ensures
        all_writes(store, items, rows) == all_writes(store, items, rows.subrange(0, k)),
    decreases rows.len() - k,
{
    if k < rows.len() {
        assert(rows.subrange(0, k + 1).drop_last() =~= rows.subrange(0, k));
        lemma_all_writes_prefix(store, items, rows, k + 1);
    } else {
        assert(rows.subrange(0, k) =~= rows);
    }
}

} // verus!
