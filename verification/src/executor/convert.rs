//! Conversions between literals of a query, JSON values of a record and
//! row values.

use crate::executor::error::{ExecutionError, Failure};
use crate::executor::value::{
    fields_view, lemma_value_unfold, values_view, Field, RowValue, ValueView,
};
use crate::json::{
    items_view, lemma_view_unfold, members_view, Json, JsonView, Member,
};
use crate::parser::ast::{
    entries_model, exprs_view, lemma_expr_unfold, literal_model, ExprView, Expression, Literal,
    LiteralView, MapEntry,
};
use crate::text::{decimal_string, decimal_text};
use vstd::prelude::*;

verus! {

/// The row value of a literal. Members of a list or a map that are no
/// literals are left out.
pub open spec fn literal_value(l: LiteralView) -> ValueView
    decreases l,
{
    match l {
        LiteralView::Null => ValueView::Null,
        LiteralView::Boolean(b) => ValueView::Boolean(b),
        LiteralView::Integer(i) => ValueView::Integer(i),
        LiteralView::Float(t) => ValueView::Float(t),
        LiteralView::String(s) => ValueView::String(s),
        LiteralView::List(items) => ValueView::List(literal_items(items)),
        LiteralView::Mapping(entries) => ValueView::Mapping(literal_fields(entries)),
    }
}

/// The row values of the literals among `es`.
pub open spec fn literal_items(es: Seq<ExprView>) -> Seq<ValueView>
    decreases es,
{
    if es.len() == 0 {
        Seq::empty()
    } else {
        let front = literal_items(es.drop_last());
        match es.last() {
            ExprView::Literal(l) => front.push(literal_value(l)),
            _ => front,
        }
    }
}

/// The fields of the entries of `es` whose value is a literal.
pub open spec fn literal_fields(es: Seq<(Seq<char>, ExprView)>) -> Seq<(Seq<char>, ValueView)>
    decreases es,
{
    if es.len() == 0 {
        Seq::empty()
    } else {
        let front = literal_fields(es.drop_last());
        match es.last().1 {
            ExprView::Literal(l) => front.push((es.last().0, literal_value(l))),
            _ => front,
        }
    }
}

/// The JSON value of a literal; nothing where a member of a list or a map
/// is no literal.
pub open spec fn literal_json(l: LiteralView) -> Option<JsonView>
    decreases l,
{
    match l {
        LiteralView::Null => Some(JsonView::Null),
        LiteralView::Boolean(b) => Some(JsonView::Bool(b)),
        LiteralView::Integer(i) => Some(JsonView::Int(i)),
        LiteralView::Float(t) => Some(JsonView::Float(t)),
        LiteralView::String(s) => Some(JsonView::Str(s)),
        LiteralView::List(items) => match literal_json_items(items) {
            Some(js) => Some(JsonView::Array(js)),
            None => None,
        },
        LiteralView::Mapping(entries) => literal_json_object(entries),
    }
}

/// The JSON value of an expression that has to be a literal.
pub open spec fn expr_json(e: ExprView) -> Option<JsonView>
    decreases e,
{
    match e {
        ExprView::Literal(l) => literal_json(l),
        _ => None,
    }
}

/// The JSON values of `es`, which all have to be literals.
pub open spec fn literal_json_items(es: Seq<ExprView>) -> Option<Seq<JsonView>>
    decreases es,
{
    if es.len() == 0 {
        Some(Seq::empty())
    } else {
        match (literal_json_items(es.drop_last()), expr_json(es.last())) {
            (Some(front), Some(j)) => Some(front.push(j)),
            _ => None,
        }
    }
}

/// The JSON object of the entries `es`, whose values all have to be
/// literals: the entries are set in their order.
pub open spec fn literal_json_object(es: Seq<(Seq<char>, ExprView)>) -> Option<JsonView>
    decreases es,
{
    if es.len() == 0 {
        Some(JsonView::Object(Seq::empty()))
    } else {
        match (literal_json_object(es.drop_last()), expr_json(es.last().1)) {
            (Some(front), Some(j)) => Some(front.with_member(es.last().0, j)),
            _ => None,
        }
    }
}

/// The row value of a JSON value. An integer above the 64-bit signed range
/// becomes a number in text form.
pub open spec fn json_value(j: JsonView) -> ValueView
    decreases j,
{
    match j {
        JsonView::Null => ValueView::Null,
        JsonView::Bool(b) => ValueView::Boolean(b),
        JsonView::Int(i) => ValueView::Integer(i),
        JsonView::UInt(u) => ValueView::Float(decimal_text(u as nat)),
        JsonView::Float(t) => ValueView::Float(t),
        JsonView::Str(s) => ValueView::String(s),
        JsonView::Array(items) => ValueView::List(json_values(items)),
        JsonView::Object(members) => ValueView::Mapping(json_fields(members)),
    }
}

/// The row values of a list of JSON values.
pub open spec fn json_values(js: Seq<JsonView>) -> Seq<ValueView>
    decreases js,
{
    if js.len() == 0 {
        Seq::empty()
    } else {
        json_values(js.drop_last()).push(json_value(js.last()))
    }
}

/// The fields of the members of a JSON object.
pub open spec fn json_fields(ms: Seq<(Seq<char>, JsonView)>) -> Seq<(Seq<char>, ValueView)>
    decreases ms,
{
    if ms.len() == 0 {
        Seq::empty()
    } else {
        json_fields(ms.drop_last()).push((ms.last().0, json_value(ms.last().1)))
    }
}

/// The JSON value of a row value: of a vertex or an edge its properties;
/// nothing for a path or what holds one.
pub open spec fn value_json(v: ValueView) -> Option<JsonView>
    decreases v,
{
    match v {
        ValueView::Null => Some(JsonView::Null),
        ValueView::Boolean(b) => Some(JsonView::Bool(b)),
        ValueView::Integer(i) => Some(JsonView::Int(i)),
        ValueView::Float(t) => Some(JsonView::Float(t)),
        ValueView::String(s) => Some(JsonView::Str(s)),
        ValueView::List(items) => match value_json_items(items) {
            Some(js) => Some(JsonView::Array(js)),
            None => None,
        },
        ValueView::Mapping(fields) => value_json_object(fields),
        ValueView::Vertex(x) => Some(x.properties),
        ValueView::Edge(e) => Some(e.properties),
        ValueView::Path(_) => None,
    }
}

/// The JSON values of a list of row values.
pub open spec fn value_json_items(vs: Seq<ValueView>) -> Option<Seq<JsonView>>
    decreases vs,
{
    if vs.len() == 0 {
        Some(Seq::empty())
    } else {
        match (value_json_items(vs.drop_last()), value_json(vs.last())) {
            (Some(front), Some(j)) => Some(front.push(j)),
            _ => None,
        }
    }
}

/// The JSON object of the fields of a map value, set in their order.
pub open spec fn value_json_object(fs: Seq<(Seq<char>, ValueView)>) -> Option<JsonView>
    decreases fs,
{
    if fs.len() == 0 {
        Some(JsonView::Object(Seq::empty()))
    } else {
        match (value_json_object(fs.drop_last()), value_json(fs.last().1)) {
            (Some(front), Some(j)) => Some(front.with_member(fs.last().0, j)),
            _ => None,
        }
    }
}

/// The row value of a literal.
#[verifier::loop_isolation(false)]
pub fn literal_to_value(lit: &Literal) -> (r: RowValue)
    ensures
        r@ == literal_value(lit@),
    decreases lit,
{
    proof {
        lemma_expr_unfold(Expression::Literal(*lit));
    }
    match lit {
        Literal::Null => RowValue::Null,
        Literal::Boolean(b) => RowValue::Boolean(*b),
        Literal::Integer(i) => RowValue::Integer(*i),
        Literal::Float(t) => RowValue::Float(t.clone()),
        Literal::String(s) => RowValue::String(s.clone()),
        Literal::List(items) => {
            let ghost es = exprs_view(items@);
            let mut out: Vec<RowValue> = Vec::new();
            let mut i: usize = 0;
            assert(es.subrange(0, 0) =~= Seq::empty());
            assert(values_view(out@) =~= Seq::empty());
            while i < items.len()
                invariant
                    0 <= i <= items.len(),
                    es == exprs_view(items@),
                    values_view(out@) == literal_items(es.subrange(0, i as int)),
                decreases items.len() - i,
            {
                proof {
                    let t = es.subrange(0, i as int + 1);
                    assert(t.drop_last() =~= es.subrange(0, i as int));
                    assert(t.last() == items[i as int]@);
                }
                let ghost before = values_view(out@);
                match &items[i] {
                    Expression::Literal(l) => {
                        let v = literal_to_value(l);
                        out.push(v);
                        assert(values_view(out@) =~= before.push(v@));
                    },
                    _ => {},
                }
                i += 1;
            }
            assert(es.subrange(0, i as int) =~= es);
            let r = RowValue::List(out);
            proof {
                lemma_value_unfold(r);
            }
            r
        },
        Literal::Mapping(entries) => {
            let ghost es = entries_model(entries@);
            let mut out: Vec<Field> = Vec::new();
            let mut i: usize = 0;
            assert(es.subrange(0, 0) =~= Seq::empty());
            assert(fields_view(out@) =~= Seq::empty());
            while i < entries.len()
                invariant
                    0 <= i <= entries.len(),
                    es == entries_model(entries@),
                    fields_view(out@) == literal_fields(es.subrange(0, i as int)),
                decreases entries.len() - i,
            {
                proof {
                    let t = es.subrange(0, i as int + 1);
                    assert(t.drop_last() =~= es.subrange(0, i as int));
                    assert(t.last() == entries[i as int]@);
                }
                let ghost before = fields_view(out@);
                match &entries[i].value {
                    Expression::Literal(l) => {
                        let f = Field { key: entries[i].key.clone(), value: literal_to_value(l) };
                        out.push(f);
                        assert(fields_view(out@) =~= before.push(f@));
                    },
                    _ => {},
                }
                i += 1;
            }
            assert(es.subrange(0, i as int) =~= es);
            let r = RowValue::Mapping(out);
            proof {
                lemma_value_unfold(r);
            }
            r
        },
    }
}

/// The JSON value of an expression that has to be a literal.
pub fn evaluate_literal(expr: &Expression) -> (r: Result<Json, ExecutionError>)
    ensures
        r.is_ok() == expr_json(expr@).is_some(),
        r matches Ok(j) ==> expr_json(expr@) == Some(j@),
        r matches Err(e) ==> e.kind() == Failure::InvalidExpression && e is InvalidExpression,
    decreases expr, 1int,
{
    match expr {
        Expression::Literal(lit) => literal_to_json(lit),
        _ => Err(ExecutionError::invalid("Only literals supported in property patterns")),
    }
}

/// The JSON object of the entries of a property map or a map literal.
#[verifier::loop_isolation(false)]
pub fn entries_to_json(entries: &Vec<MapEntry>) -> (r: Result<Json, ExecutionError>)
    ensures
        r.is_ok() == literal_json_object(entries_model(entries@)).is_some(),
        r matches Ok(j) ==> literal_json_object(entries_model(entries@)) == Some(j@),
        r matches Err(e) ==> e.kind() == Failure::InvalidExpression && e is InvalidExpression,
    decreases entries, 0int,
{
    let ghost es = entries_model(entries@);
    let mut out = Json::empty_object();
    let mut i: usize = 0;
    assert(es.subrange(0, 0) =~= Seq::empty());
    while i < entries.len()
        invariant
            0 <= i <= entries.len(),
            es == entries_model(entries@),
            literal_json_object(es.subrange(0, i as int)) == Some(out@),
        decreases entries.len() - i,
    {
        proof {
            let t = es.subrange(0, i as int + 1);
            assert(t.drop_last() =~= es.subrange(0, i as int));
            assert(t.last() == entries[i as int]@);
        }
        match evaluate_literal(&entries[i].value) {
            Ok(j) => {
                out.set_member(entries[i].key.clone(), j);
            },
            Err(e) => {
                proof {
                    lemma_object_prefix(es, i as int + 1);
                }
                return Err(e);
            },
        }
        i += 1;
    }
    assert(es.subrange(0, i as int) =~= es);
    Ok(out)
}

/// What fails on the first entries fails on all of them.
pub proof fn lemma_object_prefix(es: Seq<(Seq<char>, ExprView)>, k: int)
    requires
        0 <= k <= es.len(),
        literal_json_object(es.subrange(0, k)) is None,
    ensures
        literal_json_object(es) is None,
    decreases es.len() - k,
{
    if k < es.len() {
        assert(es.subrange(0, k + 1).drop_last() =~= es.subrange(0, k));
        lemma_object_prefix(es, k + 1);
    } else {
        assert(es.subrange(0, k) =~= es);
    }
}

/// What fails on the first items fails on all of them.
pub proof fn lemma_items_prefix(es: Seq<ExprView>, k: int)
    requires
        0 <= k <= es.len(),
        literal_json_items(es.subrange(0, k)) is None,
    ensures
        literal_json_items(es) is None,
    decreases es.len() - k,
{
    if k < es.len() {
        assert(es.subrange(0, k + 1).drop_last() =~= es.subrange(0, k));
        lemma_items_prefix(es, k + 1);
    } else {
        assert(es.subrange(0, k) =~= es);
    }
}

/// The JSON value of a literal.
#[verifier::loop_isolation(false)]
pub fn literal_to_json(lit: &Literal) -> (r: Result<Json, ExecutionError>)
    ensures
        r.is_ok() == literal_json(lit@).is_some(),
        r matches Ok(j) ==> literal_json(lit@) == Some(j@),
        r matches Err(e) ==> e.kind() == Failure::InvalidExpression && e is InvalidExpression,
    decreases lit, 2int,
{
    proof {
        lemma_expr_unfold(Expression::Literal(*lit));
    }
    match lit {
        Literal::Null => Ok(Json::Null),
        Literal::Boolean(b) => Ok(Json::Bool(*b)),
        Literal::Integer(i) => Ok(Json::Int(*i)),
        Literal::Float(t) => Ok(Json::Float(t.clone())),
        Literal::String(s) => Ok(Json::Str(s.clone())),
        Literal::List(items) => {
            let ghost es = exprs_view(items@);
            let mut out: Vec<Json> = Vec::new();
            let mut i: usize = 0;
            assert(es.subrange(0, 0) =~= Seq::empty());
            assert(items_view(out@) =~= Seq::empty());
            while i < items.len()
                invariant
                    0 <= i <= items.len(),
                    es == exprs_view(items@),
                    literal_json_items(es.subrange(0, i as int)) == Some(items_view(out@)),
                decreases items.len() - i,
            {
                proof {
                    let t = es.subrange(0, i as int + 1);
                    assert(t.drop_last() =~= es.subrange(0, i as int));
                    assert(t.last() == items[i as int]@);
                }
                let ghost before = items_view(out@);
                match evaluate_literal(&items[i]) {
                    Ok(j) => {
                        out.push(j);
                        assert(items_view(out@) =~= before.push(j@));
                    },
                    Err(e) => {
                        proof {
                            lemma_items_prefix(es, i as int + 1);
                        }
                        return Err(e);
                    },
                }
                i += 1;
            }
            assert(es.subrange(0, i as int) =~= es);
            let r = Json::Array(out);
            proof {
                lemma_view_unfold(r);
            }
            Ok(r)
        },
        Literal::Mapping(entries) => entries_to_json(entries),
    }
}

/// The row value of a JSON value.
#[verifier::loop_isolation(false)]
pub fn json_to_value(json: &Json) -> (r: RowValue)
    ensures
        r@ == json_value(json@),
    decreases json,
{
    proof {
        lemma_view_unfold(*json);
    }
    match json {
        Json::Null => RowValue::Null,
        Json::Bool(b) => RowValue::Boolean(*b),
        Json::Int(i) => RowValue::Integer(*i),
        Json::UInt(u) => RowValue::Float(decimal_string(*u)),
        Json::Float(t) => RowValue::Float(t.clone()),
        Json::Str(s) => RowValue::String(s.clone()),
        Json::Array(items) => {
            let ghost js = items_view(items@);
            let mut out: Vec<RowValue> = Vec::new();
            let mut i: usize = 0;
            assert(js.subrange(0, 0) =~= Seq::empty());
            assert(values_view(out@) =~= Seq::empty());
            while i < items.len()
                invariant
                    0 <= i <= items.len(),
                    js == items_view(items@),
                    values_view(out@) == json_values(js.subrange(0, i as int)),
                decreases items.len() - i,
            {
                proof {
                    let t = js.subrange(0, i as int + 1);
                    assert(t.drop_last() =~= js.subrange(0, i as int));
                    assert(t.last() == items[i as int]@);
                }
                let ghost before = values_view(out@);
                let v = json_to_value(&items[i]);
                out.push(v);
                assert(values_view(out@) =~= before.push(v@));
                i += 1;
            }
            assert(js.subrange(0, i as int) =~= js);
            let r = RowValue::List(out);
            proof {
                lemma_value_unfold(r);
            }
            r
        },
        Json::Object(members) => {
            let ghost ms = members_view(members@);
            let mut out: Vec<Field> = Vec::new();
            let mut i: usize = 0;
            assert(ms.subrange(0, 0) =~= Seq::empty());
            assert(fields_view(out@) =~= Seq::empty());
            while i < members.len()
                invariant
                    0 <= i <= members.len(),
                    ms == members_view(members@),
                    fields_view(out@) == json_fields(ms.subrange(0, i as int)),
                decreases members.len() - i,
            {
                proof {
                    let t = ms.subrange(0, i as int + 1);
                    assert(t.drop_last() =~= ms.subrange(0, i as int));
                    assert(t.last() == members[i as int]@);
                }
                let ghost before = fields_view(out@);
                let f = Field { key: members[i].key.clone(), value: json_to_value(&members[i].value) };
                out.push(f);
                assert(fields_view(out@) =~= before.push(f@));
                i += 1;
            }
            assert(ms.subrange(0, i as int) =~= ms);
            let r = RowValue::Mapping(out);
            proof {
                lemma_value_unfold(r);
            }
            r
        },
    }
}

/// What fails on the first values fails on all of them.
pub proof fn lemma_value_items_prefix(vs: Seq<ValueView>, k: int)
    requires
        0 <= k <= vs.len(),
        value_json_items(vs.subrange(0, k)) is None,
    ensures
        value_json_items(vs) is None,
    decreases vs.len() - k,
{
    if k < vs.len() {
        assert(vs.subrange(0, k + 1).drop_last() =~= vs.subrange(0, k));
        lemma_value_items_prefix(vs, k + 1);
    } else {
        assert(vs.subrange(0, k) =~= vs);
    }
}

/// What fails on the first fields fails on all of them.
pub proof fn lemma_value_object_prefix(fs: Seq<(Seq<char>, ValueView)>, k: int)
    requires
        0 <= k <= fs.len(),
        value_json_object(fs.subrange(0, k)) is None,
    ensures
        value_json_object(fs) is None,
    decreases fs.len() - k,
{
    if k < fs.len() {
        assert(fs.subrange(0, k + 1).drop_last() =~= fs.subrange(0, k));
        lemma_value_object_prefix(fs, k + 1);
    } else {
        assert(fs.subrange(0, k) =~= fs);
    }
}

/// The JSON value of a row value.
#[verifier::loop_isolation(false)]
pub fn value_to_json(value: &RowValue) -> (r: Result<Json, ExecutionError>)
    ensures
        r.is_ok() == value_json(value@).is_some(),
        r matches Ok(j) ==> value_json(value@) == Some(j@),
        r matches Err(e) ==> e.kind() == Failure::TypeMismatch,
    decreases value,
{
    proof {
        lemma_value_unfold(*value);
    }
    match value {
        RowValue::Null => Ok(Json::Null),
        RowValue::Boolean(b) => Ok(Json::Bool(*b)),
        RowValue::Integer(i) => Ok(Json::Int(*i)),
        RowValue::Float(t) => Ok(Json::Float(t.clone())),
        RowValue::String(s) => Ok(Json::Str(s.clone())),
        RowValue::List(items) => {
            let ghost vs = values_view(items@);
            let mut out: Vec<Json> = Vec::new();
            let mut i: usize = 0;
            assert(vs.subrange(0, 0) =~= Seq::empty());
            assert(items_view(out@) =~= Seq::empty());
            while i < items.len()
                invariant
                    0 <= i <= items.len(),
                    vs == values_view(items@),
                    value_json_items(vs.subrange(0, i as int)) == Some(items_view(out@)),
                decreases items.len() - i,
            {
                proof {
                    let t = vs.subrange(0, i as int + 1);
                    assert(t.drop_last() =~= vs.subrange(0, i as int));
                    assert(t.last() == items[i as int]@);
                }
                let ghost before = items_view(out@);
                match value_to_json(&items[i]) {
                    Ok(j) => {
                        out.push(j);
                        assert(items_view(out@) =~= before.push(j@));
                    },
                    Err(e) => {
                        proof {
                            lemma_value_items_prefix(vs, i as int + 1);
                        }
                        return Err(e);
                    },
                }
                i += 1;
            }
            assert(vs.subrange(0, i as int) =~= vs);
            let r = Json::Array(out);
            proof {
                lemma_view_unfold(r);
            }
            Ok(r)
        },
        RowValue::Mapping(fields) => {
            let ghost fs = fields_view(fields@);
            let mut out = Json::empty_object();
            let mut i: usize = 0;
            assert(fs.subrange(0, 0) =~= Seq::empty());
            while i < fields.len()
                invariant
                    0 <= i <= fields.len(),
                    fs == fields_view(fields@),
                    value_json_object(fs.subrange(0, i as int)) == Some(out@),
                decreases fields.len() - i,
            {
                proof {
                    let t = fs.subrange(0, i as int + 1);
                    assert(t.drop_last() =~= fs.subrange(0, i as int));
                    assert(t.last() == fields[i as int]@);
                }
                match value_to_json(&fields[i].value) {
                    Ok(j) => {
                        out.set_member(fields[i].key.clone(), j);
                    },
                    Err(e) => {
                        proof {
                            lemma_value_object_prefix(fs, i as int + 1);
                        }
                        return Err(e);
                    },
                }
                i += 1;
            }
            assert(fs.subrange(0, i as int) =~= fs);
            Ok(out)
        },
        RowValue::Vertex(x) => Ok(x.properties.clone()),
        RowValue::Edge(e) => Ok(e.properties.clone()),
        RowValue::Path(_) => Err(ExecutionError::mismatch("Simple value", "Path")),
    }
}

} // verus!
