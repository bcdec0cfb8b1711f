//! The pattern matcher: rows of bindings for a MATCH clause.

use crate::bytes::str_eq;
use crate::executor::convert::{evaluate_literal, expr_json};
use crate::executor::error::{ExecutionError, Failure};
use crate::executor::eval::{evaluate_expression, is_truthy};
use crate::executor::floats::FloatOps;
use crate::executor::projection::RowView;
use crate::executor::value::{bind, lookup, rows_view, Row, RowValue, ValueView};
use crate::json::{Json, JsonView};
use crate::parser::ast::{
    entries_model, opt_entries, opt_text, patterns_view, Direction, EdgePattern,
    EdgePatternView, ElementView, ExprView, Expression, MapEntry, MatchClause, NodePattern,
    NodeView, Pattern, PatternElement, WhereClause,
};
use crate::storage::engine::{edges_view, vertices_view};
use crate::storage::graph::GraphStorage;
use crate::types::edge::{Edge, EdgeView};
use crate::types::graphid::Graphid;
use crate::types::vertex::{Vertex, VertexView};
use vstd::prelude::*;

verus! {

/// Whether properties satisfy the entries of a property map, which are
/// checked in their order: an entry whose value is no literal is an invalid
/// expression, a property that the record lacks is reported as not found,
/// and the first property that differs settles that there is no match.
pub open spec fn entries_match(props: JsonView, es: Seq<(Seq<char>, ExprView)>, from: int) -> Result<
    bool,
    Failure,
>
    decreases es.len() - from,
{
    if from < 0 || from >= es.len() {
        Ok(true)
    } else {
        match expr_json(es[from].1) {
            None => Err(Failure::InvalidExpression),
            Some(want) => match props.get(es[from].0) {
                None => Err(Failure::PropertyNotFound(es[from].0)),
                Some(have) => if want == have {
                    entries_match(props, es, from + 1)
                } else {
                    Ok(false)
                },
            },
        }
    }
}

/// Whether properties satisfy an optional property map.
pub open spec fn properties_match(props: JsonView, pattern: Option<Seq<(Seq<char>, ExprView)>>) -> Result<
    bool,
    Failure,
> {
    match pattern {
        Some(es) => entries_match(props, es, 0),
        None => Ok(true),
    }
}

/// Whether properties satisfy an optional property map.
pub fn match_properties(props: &Json, pattern: &Option<Vec<MapEntry>>) -> (r: Result<
    bool,
    ExecutionError,
>)
    ensures
        match properties_match(props@, opt_entries(*pattern)) {
            Ok(b) => r matches Ok(x) && x == b,
            Err(f) => r matches Err(e) && e.kind() == f,
        },
        r matches Err(e) ==> e is InvalidExpression || e is PropertyNotFound,
{
    match pattern {
        None => Ok(true),
        Some(entries) => {
            let ghost es = entries_model(entries@);
            let mut i: usize = 0;
            while i < entries.len()
                invariant
                    0 <= i <= entries.len(),
                    es == entries_model(entries@),
                    opt_entries(*pattern) == Some(es),
                    entries_match(props@, es, 0) == entries_match(props@, es, i as int),
                decreases entries.len() - i,
            {
                assert(es[i as int] == entries[i as int]@);
                assert(es[i as int].1 == entries[i as int].value@);
                assert(es[i as int].0 == entries[i as int].key@);
                let want = match evaluate_literal(&entries[i].value) {
                    Ok(j) => j,
                    Err(e) => {
                        assert(entries_match(props@, es, i as int) == Err::<bool, Failure>(
                            Failure::InvalidExpression,
                        ));
                        return Err(e);
                    },
                };
                let have = match props.get(entries[i].key.as_str()) {
                    Some(j) => j,
                    None => {
                        assert(entries_match(props@, es, i as int) == Err::<bool, Failure>(
                            Failure::PropertyNotFound(es[i as int].0),
                        ));
                        return Err(ExecutionError::PropertyNotFound(entries[i].key.clone()));
                    },
                };
                if !want.same(have) {
                    return Ok(false);
                }
                i += 1;
            }
            Ok(true)
        },
    }
}

/// Whether a vertex satisfies the property map of a node pattern.
pub fn match_node_properties(vertex: &Vertex, pattern: &NodePattern) -> (r: Result<
    bool,
    ExecutionError,
>)
    ensures
        match properties_match(vertex@.properties, pattern@.properties) {
            Ok(b) => r matches Ok(x) && x == b,
            Err(f) => r matches Err(e) && e.kind() == f,
        },
        r matches Err(e) ==> e is InvalidExpression || e is PropertyNotFound,
{
    match_properties(&vertex.properties, &pattern.properties)
}

/// Whether an edge satisfies the property map of an edge pattern.
pub fn match_edge_properties(edge: &Edge, pattern: &EdgePattern) -> (r: Result<bool, ExecutionError>)
    ensures
        match properties_match(edge@.properties, pattern@.properties) {
            Ok(b) => r matches Ok(x) && x == b,
            Err(f) => r matches Err(e) && e.kind() == f,
        },
        r matches Err(e) ==> e is InvalidExpression || e is PropertyNotFound,
{
    match_properties(&edge.properties, &pattern.properties)
}

/// The label that a pattern scans: its own, or the empty one.
pub open spec fn scan_label(label: Option<Seq<char>>) -> Seq<char> {
    match label {
        Some(l) => l,
        None => Seq::empty(),
    }
}

/// A row with `name`, if there is one, bound to `value`.
pub open spec fn bound(row: RowView, name: Option<Seq<char>>, value: ValueView) -> RowView {
    match name {
        Some(n) => bind(row, n, value),
        None => row,
    }
}

/// The rows for the vertices `vs` under a node pattern: one row for every
/// vertex that satisfies the property map, in the order of the vertices.
pub open spec fn node_rows(vs: Seq<VertexView>, node: NodeView) -> Result<Seq<RowView>, Failure>
    decreases vs.len(),
{
    if vs.len() == 0 {
        Ok(Seq::empty())
    } else {
        match node_rows(vs.drop_last(), node) {
            Err(f) => Err(f),
            Ok(front) => match properties_match(vs.last().properties, node.properties) {
                Err(f) => Err(f),
                Ok(true) => Ok(
                    front.push(bound(Seq::empty(), node.variable, ValueView::Vertex(vs.last()))),
                ),
                Ok(false) => Ok(front),
            },
        }
    }
}

/// What fails on the first vertices fails on all of them.
pub proof fn lemma_node_rows_prefix(vs: Seq<VertexView>, node: NodeView, k: int)
    requires
        0 <= k <= vs.len(),
        node_rows(vs.subrange(0, k), node) is Err,
    ensures
        node_rows(vs, node) == node_rows(vs.subrange(0, k), node),
    decreases vs.len() - k,
{
    if k < vs.len() {
        assert(vs.subrange(0, k + 1).drop_last() =~= vs.subrange(0, k));
        lemma_node_rows_prefix(vs, node, k + 1);
    } else {
        assert(vs.subrange(0, k) =~= vs);
    }
}

/// A result is what the matcher's specification says, but for failures of
/// the store.
pub open spec fn rows_agree(r: Result<Vec<Row>, ExecutionError>, s: Result<Seq<RowView>, Failure>) -> bool {
    match r {
        Ok(rows) => s == Ok::<Seq<RowView>, Failure>(rows_view(rows@)),
        Err(e) => e.kind() == Failure::Storage || s == Err::<Seq<RowView>, Failure>(e.kind()),
    }
}

/// The text of an optional label, empty where there is none.
fn label_text(label: &Option<String>) -> (r: &str)
    ensures
        r@ == scan_label(opt_text(*label)),
{
    match label {
        Some(l) => l.as_str(),
        None => {
            proof {
                reveal_strlit("");
            }
            let e: &str = "";
            assert(e@ =~= Seq::<char>::empty());
            e
        },
    }
}

/// A row with `name`, if there is one, bound to `value`.
fn bind_optional(row: &mut Row, name: &Option<String>, value: RowValue)
    ensures
        final(row)@ == bound(old(row)@, opt_text(*name), value@),
{
    match name {
        Some(n) => {
            row.insert(n.as_str(), value);
        },
        None => {},
    }
}

/// The rows of a pattern of one node: the vertices of the node's label
/// that satisfy its property map.
pub fn match_node_pattern<S: GraphStorage>(storage: &S, node: &NodePattern) -> (r: Result<
    Vec<Row>,
    ExecutionError,
>)
    requires
        storage.inv(),
    ensures
        rows_agree(r, node_rows(storage.vertices_spec(scan_label(node@.label)), node@)),
        storage.sound() ==> !(r matches Err(ExecutionError::StorageError(_))),
{
    let vertices = match storage.scan_vertices(label_text(&node.label)) {
        Ok(vs) => vs,
        Err(e) => {
            return Err(ExecutionError::StorageError(e));
        },
    };
    let ghost vs = vertices_view(vertices@);
    let mut out: Vec<Row> = Vec::new();
    let mut i: usize = 0;
    assert(vs.subrange(0, 0) =~= Seq::empty());
    assert(rows_view(out@) =~= Seq::empty());
    while i < vertices.len()
        invariant
            0 <= i <= vertices.len(),
            vs == vertices_view(vertices@),
            vs == storage.vertices_spec(scan_label(node@.label)),
            node_rows(vs.subrange(0, i as int), node@) == Ok::<Seq<RowView>, Failure>(
                rows_view(out@),
            ),
        decreases vertices.len() - i,
    {
        proof {
            let t = vs.subrange(0, i as int + 1);
            assert(t.drop_last() =~= vs.subrange(0, i as int));
            assert(t.last() == vertices[i as int]@);
        }
        let ghost before = rows_view(out@);
        match match_node_properties(&vertices[i], node) {
            Ok(true) => {
                let mut row = Row::new();
                bind_optional(&mut row, &node.variable, RowValue::Vertex(vertices[i].clone()));
                out.push(row);
                assert(rows_view(out@) =~= before.push(row@));
            },
            Ok(false) => {},
            Err(e) => {
                proof {
                    lemma_node_rows_prefix(vs, node@, i as int + 1);
                }
                return Err(e);
            },
        }
        i += 1;
    }
    assert(vs.subrange(0, i as int) =~= vs);
    Ok(out)
}

/// The edges that a hop from `v` follows: the outgoing ones to the right,
/// the incoming ones to the left, and both for an undirected pattern.
pub open spec fn candidate_edges<S: GraphStorage>(g: &S, v: u64, direction: Direction) -> Seq<
    EdgeView,
> {
    match direction {
        Direction::Right => g.outgoing_spec(v),
        Direction::Left => g.incoming_spec(v),
        Direction::Both => g.outgoing_spec(v) + g.incoming_spec(v),
    }
}

/// The vertex at the other end of an edge that a hop from `from` follows.
pub open spec fn other_end(e: EdgeView, from: u64, direction: Direction) -> u64 {
    match direction {
        Direction::Right => e.end,
        Direction::Left => e.start,
        Direction::Both => if e.start == from {
            e.end
        } else {
            e.start
        },
    }
}

/// Whether an edge passes the label of an edge pattern: a pattern without
/// a label, or with the empty one, lets every edge pass.
pub open spec fn label_passes(label: Option<Seq<char>>, actual: Seq<char>) -> bool {
    match label {
        Some(l) => l.len() == 0 || l == actual,
        None => true,
    }
}

/// What one edge adds to the rows of a hop from the vertex `from`, whose
/// row so far is `base`: the row with the edge and the vertex at its other
/// end bound, if the edge passes the label and the property map of the edge
/// pattern and the vertex exists and passes the label and the property map
/// of the end pattern.
pub open spec fn hop_row<S: GraphStorage>(
    g: &S,
    base: RowView,
    from: u64,
    e: EdgeView,
    edge: EdgePatternView,
    end: NodeView,
) -> Result<Option<RowView>, Failure> {
    if !label_passes(edge.label, e.label) {
        Ok(None)
    } else {
        match properties_match(e.properties, edge.properties) {
            Err(f) => Err(f),
            Ok(false) => Ok(None),
            Ok(true) => match g.vertex_spec(other_end(e, from, edge.direction)) {
                None => Ok(None),
                Some(target) => if end.label is Some && end.label->0 != target.label {
                    Ok(None)
                } else {
                    match properties_match(target.properties, end.properties) {
                        Err(f) => Err(f),
                        Ok(false) => Ok(None),
                        Ok(true) => Ok(
                            Some(
                                bound(
                                    bound(base, edge.variable, ValueView::Edge(e)),
                                    end.variable,
                                    ValueView::Vertex(target),
                                ),
                            ),
                        ),
                    }
                },
            },
        }
    }
}

/// The rows of a hop from `from` along the edges `es`, in their order.
pub open spec fn hop_rows<S: GraphStorage>(
    g: &S,
    base: RowView,
    from: u64,
    es: Seq<EdgeView>,
    edge: EdgePatternView,
    end: NodeView,
) -> Result<Seq<RowView>, Failure>
    decreases es.len(),
{
    if es.len() == 0 {
        Ok(Seq::empty())
    } else {
        match hop_rows(g, base, from, es.drop_last(), edge, end) {
            Err(f) => Err(f),
            Ok(front) => match hop_row(g, base, from, es.last(), edge, end) {
                Err(f) => Err(f),
                Ok(Some(row)) => Ok(front.push(row)),
                Ok(None) => Ok(front),
            },
        }
    }
}

/// What fails on the first edges fails on all of them.
pub proof fn lemma_hop_rows_prefix<S: GraphStorage>(
    g: &S,
    base: RowView,
    from: u64,
    es: Seq<EdgeView>,
    edge: EdgePatternView,
    end: NodeView,
    k: int,
)
    requires
        0 <= k <= es.len(),
        hop_rows(g, base, from, es.subrange(0, k), edge, end) is Err,
    ensures
        hop_rows(g, base, from, es, edge, end) == hop_rows(g, base, from, es.subrange(0, k), edge, end),
    decreases es.len() - k,
{
    if k < es.len() {
        assert(es.subrange(0, k + 1).drop_last() =~= es.subrange(0, k));
        lemma_hop_rows_prefix(g, base, from, es, edge, end, k + 1);
    } else {
        assert(es.subrange(0, k) =~= es);
    }
}

/// The edges that a hop from `v` follows.
fn read_candidates<S: GraphStorage>(storage: &S, v: Graphid, direction: Direction) -> (r: Result<
    Vec<Edge>,
    ExecutionError,
>)
    requires
        storage.inv(),
    ensures
        r matches Ok(es) ==> edges_view(es@) == candidate_edges(storage, v@, direction),
        r matches Err(e) ==> e.kind() == Failure::Storage,
        storage.sound() ==> r is Ok,
{
    match direction {
        Direction::Right => match storage.get_outgoing_edges(v) {
            Ok(es) => Ok(es),
            Err(e) => Err(ExecutionError::StorageError(e)),
        },
        Direction::Left => match storage.get_incoming_edges(v) {
            Ok(es) => Ok(es),
            Err(e) => Err(ExecutionError::StorageError(e)),
        },
        Direction::Both => {
            let mut all = match storage.get_outgoing_edges(v) {
                Ok(es) => es,
                Err(e) => {
                    return Err(ExecutionError::StorageError(e));
                },
            };
            let mut more = match storage.get_incoming_edges(v) {
                Ok(es) => es,
                Err(e) => {
                    return Err(ExecutionError::StorageError(e));
                },
            };
            let ghost a = edges_view(all@);
            let ghost b = edges_view(more@);
            all.append(&mut more);
            assert(edges_view(all@) =~= a + b);
            Ok(all)
        },
    }
}

/// Whether an edge passes the label of an edge pattern.
fn edge_label_passes(label: &Option<String>, actual: &str) -> (r: bool)
    ensures
        r == label_passes(opt_text(*label), actual@),
{
    match label {
        Some(l) => l.as_str().unicode_len() == 0 || str_eq(l.as_str(), actual),
        None => true,
    }
}

/// The vertex at the other end of an edge.
fn edge_other_end(e: &Edge, from: Graphid, direction: Direction) -> (r: Graphid)
    ensures
        r@ == other_end(e@, from@, direction),
{
    match direction {
        Direction::Right => e.end,
        Direction::Left => e.start,
        Direction::Both => if e.start.0 == from.0 {
            e.end
        } else {
            e.start
        },
    }
}

/// What one edge adds to the rows of a hop.
fn match_hop_edge<S: GraphStorage>(
    storage: &S,
    base: &Row,
    from: Graphid,
    e: &Edge,
    edge: &EdgePattern,
    end: &NodePattern,
) -> (r: Result<Option<Row>, ExecutionError>)
    requires
        storage.inv(),
    ensures
        match r {
            Ok(Some(row)) => hop_row(storage, base@, from@, e@, edge@, end@) == Ok::<
                Option<RowView>,
                Failure,
            >(Some(row@)),
            Ok(None) => hop_row(storage, base@, from@, e@, edge@, end@) == Ok::<
                Option<RowView>,
                Failure,
            >(None),
            Err(x) => x.kind() == Failure::Storage || hop_row(
                storage,
                base@,
                from@,
                e@,
                edge@,
                end@,
            ) == Err::<Option<RowView>, Failure>(x.kind()),
        },
        storage.sound() ==> !(r matches Err(ExecutionError::StorageError(_))),
{
    if !edge_label_passes(&edge.label, e.label.as_str()) {
        return Ok(None);
    }
    match match_edge_properties(e, edge) {
        Ok(true) => {},
        Ok(false) => {
            return Ok(None);
        },
        Err(x) => {
            return Err(x);
        },
    }
    let target = match storage.get_vertex(edge_other_end(e, from, edge.direction)) {
        Ok(Some(v)) => v,
        Ok(None) => {
            return Ok(None);
        },
        Err(x) => {
            return Err(ExecutionError::StorageError(x));
        },
    };
    match &end.label {
        Some(l) => {
            if !str_eq(l.as_str(), target.label.as_str()) {
                return Ok(None);
            }
        },
        None => {},
    }
    match match_node_properties(&target, end) {
        Ok(true) => {},
        Ok(false) => {
            return Ok(None);
        },
        Err(x) => {
            return Err(x);
        },
    }
    let mut row = base.clone();
    bind_optional(&mut row, &edge.variable, RowValue::Edge(e.clone()));
    bind_optional(&mut row, &end.variable, RowValue::Vertex(target));
    Ok(Some(row))
}

/// Adds to `out` the rows of a hop from `from` along the edges of the
/// pattern's direction.
fn match_hop<S: GraphStorage>(
    storage: &S,
    out: &mut Vec<Row>,
    base: &Row,
    from: Graphid,
    edge: &EdgePattern,
    end: &NodePattern,
) -> (r: Result<(), ExecutionError>)
    requires
        storage.inv(),
    ensures
        match r {
            Ok(()) => hop_rows(
                storage,
                base@,
                from@,
                candidate_edges(storage, from@, edge@.direction),
                edge@,
                end@,
            ) matches Ok(rows) && rows_view(final(out)@) == rows_view(old(out)@) + rows,
            Err(x) => x.kind() == Failure::Storage || hop_rows(
                storage,
                base@,
                from@,
                candidate_edges(storage, from@, edge@.direction),
                edge@,
                end@,
            ) == Err::<Seq<RowView>, Failure>(x.kind()),
        },
        storage.sound() ==> !(r matches Err(ExecutionError::StorageError(_))),
{
    let edges = match read_candidates(storage, from, edge.direction) {
        Ok(es) => es,
        Err(e) => {
            return Err(e);
        },
    };
    let ghost es = edges_view(edges@);
    let ghost first = rows_view(out@);
    let mut i: usize = 0;
    assert(es.subrange(0, 0) =~= Seq::empty());
    assert(first + Seq::empty() =~= first);
    while i < edges.len()
        invariant
            storage.inv(),
            0 <= i <= edges.len(),
            es == edges_view(edges@),
            es == candidate_edges(storage, from@, edge@.direction),
            hop_rows(storage, base@, from@, es.subrange(0, i as int), edge@, end@) matches Ok(rows)
                && rows_view(out@) == first + rows,
        decreases edges.len() - i,
    {
        proof {
            let t = es.subrange(0, i as int + 1);
            assert(t.drop_last() =~= es.subrange(0, i as int));
            assert(t.last() == edges[i as int]@);
        }
        let ghost sofar = hop_rows(storage, base@, from@, es.subrange(0, i as int), edge@, end@)->Ok_0;
        let ghost held = rows_view(out@);
        match match_hop_edge(storage, base, from, &edges[i], edge, end) {
            Ok(Some(row)) => {
                out.push(row);
                assert(rows_view(out@) =~= held.push(row@));
                assert(held.push(row@) =~= first + sofar.push(row@));
            },
            Ok(None) => {},
            Err(x) => {
                proof {
                    if x.kind() != Failure::Storage {
                        lemma_hop_rows_prefix(storage, base@, from@, es, edge@, end@, i as int + 1);
                    }
                }
                return Err(x);
            },
        }
        i += 1;
    }
    assert(es.subrange(0, i as int) =~= es);
    Ok(())
}

/// The rows of a triple pattern for the start vertices `vs`: for every
/// start vertex that satisfies the start pattern, the rows of the hop from
/// it, in the order of the vertices.
pub open spec fn triple_rows<S: GraphStorage>(
    g: &S,
    vs: Seq<VertexView>,
    start: NodeView,
    edge: EdgePatternView,
    end: NodeView,
) -> Result<Seq<RowView>, Failure>
    decreases vs.len(),
{
    if vs.len() == 0 {
        Ok(Seq::empty())
    } else {
        match triple_rows(g, vs.drop_last(), start, edge, end) {
            Err(f) => Err(f),
            Ok(front) => match properties_match(vs.last().properties, start.properties) {
                Err(f) => Err(f),
                Ok(false) => Ok(front),
                Ok(true) => match hop_rows(
                    g,
                    bound(Seq::empty(), start.variable, ValueView::Vertex(vs.last())),
                    vs.last().id,
                    candidate_edges(g, vs.last().id, edge.direction),
                    edge,
                    end,
                ) {
                    Err(f) => Err(f),
                    Ok(rows) => Ok(front + rows),
                },
            },
        }
    }
}

/// What fails on the first vertices fails on all of them.
pub proof fn lemma_triple_rows_prefix<S: GraphStorage>(
    g: &S,
    vs: Seq<VertexView>,
    start: NodeView,
    edge: EdgePatternView,
    end: NodeView,
    k: int,
)
    requires
        0 <= k <= vs.len(),
        triple_rows(g, vs.subrange(0, k), start, edge, end) is Err,
    ensures
        triple_rows(g, vs, start, edge, end) == triple_rows(g, vs.subrange(0, k), start, edge, end),
    decreases vs.len() - k,
{
    if k < vs.len() {
        assert(vs.subrange(0, k + 1).drop_last() =~= vs.subrange(0, k));
        lemma_triple_rows_prefix(g, vs, start, edge, end, k + 1);
    } else {
        assert(vs.subrange(0, k) =~= vs);
    }
}

/// The rows of a pattern `(start)-[edge]-(end)`: for each vertex of the
/// start label that satisfies the start pattern, its edges in the pattern's
/// direction are filtered by the edge pattern, the vertex at the other end
/// is read and filtered by the end pattern, and one row binds all three.
pub fn match_triple_pattern<S: GraphStorage>(
    storage: &S,
    start_node: &NodePattern,
    edge_pattern: &EdgePattern,
    end_node: &NodePattern,
) -> (r: Result<Vec<Row>, ExecutionError>)
    requires
        storage.inv(),
    ensures
        rows_agree(
            r,
            triple_rows(
                storage,
                storage.vertices_spec(scan_label(start_node@.label)),
                start_node@,
                edge_pattern@,
                end_node@,
            ),
        ),
        storage.sound() ==> !(r matches Err(ExecutionError::StorageError(_))),
{
    let vertices = match storage.scan_vertices(label_text(&start_node.label)) {
        Ok(vs) => vs,
        Err(e) => {
            return Err(ExecutionError::StorageError(e));
        },
    };
    let ghost vs = vertices_view(vertices@);
    let mut out: Vec<Row> = Vec::new();
    let mut i: usize = 0;
    assert(vs.subrange(0, 0) =~= Seq::empty());
    assert(rows_view(out@) =~= Seq::empty());
    while i < vertices.len()
        invariant
            storage.inv(),
            0 <= i <= vertices.len(),
            vs == vertices_view(vertices@),
            vs == storage.vertices_spec(scan_label(start_node@.label)),
            triple_rows(storage, vs.subrange(0, i as int), start_node@, edge_pattern@, end_node@)
                == Ok::<Seq<RowView>, Failure>(rows_view(out@)),
        decreases vertices.len() - i,
    {
        proof {
            let t = vs.subrange(0, i as int + 1);
            assert(t.drop_last() =~= vs.subrange(0, i as int));
            assert(t.last() == vertices[i as int]@);
        }
        match match_node_properties(&vertices[i], start_node) {
            Ok(true) => {
                let mut base = Row::new();
                bind_optional(
                    &mut base,
                    &start_node.variable,
                    RowValue::Vertex(vertices[i].clone()),
                );
                match match_hop(storage, &mut out, &base, vertices[i].id, edge_pattern, end_node) {
                    Ok(()) => {},
                    Err(e) => {
                        proof {
                            if e.kind() != Failure::Storage {
                                lemma_triple_rows_prefix(
                                    storage,
                                    vs,
                                    start_node@,
                                    edge_pattern@,
                                    end_node@,
                                    i as int + 1,
                                );
                            }
                        }
                        return Err(e);
                    },
                }
            },
            Ok(false) => {},
            Err(e) => {
                proof {
                    lemma_triple_rows_prefix(
                        storage,
                        vs,
                        start_node@,
                        edge_pattern@,
                        end_node@,
                        i as int + 1,
                    );
                }
                return Err(e);
            },
        }
        i += 1;
    }
    assert(vs.subrange(0, i as int) =~= vs);
    Ok(out)
}

/// The vertex that a row binds the middle variable of a two-hop pattern
/// to.
pub open spec fn middle_vertex(row: RowView, variable: Option<Seq<char>>) -> Result<
    VertexView,
    Failure,
> {
    match variable {
        None => Err(Failure::InvalidExpression),
        Some(name) => match lookup(row, name) {
            None => Err(Failure::VariableNotFound(name)),
            Some(ValueView::Vertex(x)) => Ok(x),
            Some(_) => Err(Failure::TypeMismatch),
        },
    }
}

/// The rows of the second hop of a two-hop pattern, for the rows `firsts`
/// of its first hop: every row is continued from the vertex that it binds
/// the middle variable to.
pub open spec fn second_hop_rows<S: GraphStorage>(
    g: &S,
    firsts: Seq<RowView>,
    middle: Option<Seq<char>>,
    edge: EdgePatternView,
    end: NodeView,
) -> Result<Seq<RowView>, Failure>
    decreases firsts.len(),
{
    if firsts.len() == 0 {
        Ok(Seq::empty())
    } else {
        match second_hop_rows(g, firsts.drop_last(), middle, edge, end) {
            Err(f) => Err(f),
            Ok(front) => match middle_vertex(firsts.last(), middle) {
                Err(f) => Err(f),
                Ok(x) => match hop_rows(
                    g,
                    firsts.last(),
                    x.id,
                    candidate_edges(g, x.id, edge.direction),
                    edge,
                    end,
                ) {
                    Err(f) => Err(f),
                    Ok(rows) => Ok(front + rows),
                },
            },
        }
    }
}

/// What fails on the first rows fails on all of them.
pub proof fn lemma_second_hop_prefix<S: GraphStorage>(
    g: &S,
    firsts: Seq<RowView>,
    middle: Option<Seq<char>>,
    edge: EdgePatternView,
    end: NodeView,
    k: int,
)
    requires
        0 <= k <= firsts.len(),
        second_hop_rows(g, firsts.subrange(0, k), middle, edge, end) is Err,
    ensures
        second_hop_rows(g, firsts, middle, edge, end) == second_hop_rows(
            g,
            firsts.subrange(0, k),
            middle,
            edge,
            end,
        ),
    decreases firsts.len() - k,
{
    if k < firsts.len() {
        assert(firsts.subrange(0, k + 1).drop_last() =~= firsts.subrange(0, k));
        lemma_second_hop_prefix(g, firsts, middle, edge, end, k + 1);
    } else {
        assert(firsts.subrange(0, k) =~= firsts);
    }
}

/// The rows of a pattern, by its shape: one node; node, edge, node; or two
/// such hops that share their middle node. Three elements of another shape
/// give no rows; any other number of elements is not supported.
pub open spec fn pattern_rows<S: GraphStorage>(g: &S, es: Seq<ElementView>) -> Result<
    Seq<RowView>,
    Failure,
> {
    if es.len() == 0 {
        Ok(Seq::empty())
    } else if crate::parser::ast::edges_of(es).len() == 0 {
        match crate::parser::ast::nodes_of(es)[0] {
            node => node_rows(g.vertices_spec(scan_label(node.label)), node),
        }
    } else if es.len() == 3 {
        match (es[0], es[1], es[2]) {
            (ElementView::Node(a), ElementView::Edge(e), ElementView::Node(b)) => triple_rows(
                g,
                g.vertices_spec(scan_label(a.label)),
                a,
                e,
                b,
            ),
            _ => Ok(Seq::empty()),
        }
    } else if es.len() == 5 {
        match (es[0], es[1], es[2], es[3], es[4]) {
            (
                ElementView::Node(a),
                ElementView::Edge(e),
                ElementView::Node(b),
                ElementView::Edge(f),
                ElementView::Node(c),
            ) => match triple_rows(g, g.vertices_spec(scan_label(a.label)), a, e, b) {
                Err(x) => Err(x),
                Ok(firsts) => second_hop_rows(g, firsts, b.variable, f, c),
            },
            _ => Err(Failure::InvalidExpression),
        }
    } else {
        Err(Failure::Unsupported)
    }
}

/// The rows of a two-hop pattern `(a)-[e]-(b)-[f]-(c)`: the rows of its
/// first hop, each continued by the second hop from the vertex bound to
/// `b`, which has to have a variable.
pub fn match_path_pattern<S: GraphStorage>(
    storage: &S,
    a: &NodePattern,
    e: &EdgePattern,
    b: &NodePattern,
    f: &EdgePattern,
    c: &NodePattern,
) -> (r: Result<Vec<Row>, ExecutionError>)
    requires
        storage.inv(),
    ensures
        rows_agree(
            r,
            match triple_rows(storage, storage.vertices_spec(scan_label(a@.label)), a@, e@, b@) {
                Err(x) => Err(x),
                Ok(firsts) => second_hop_rows(storage, firsts, b@.variable, f@, c@),
            },
        ),
        storage.sound() ==> !(r matches Err(ExecutionError::StorageError(_))),
{
    let firsts = match match_triple_pattern(storage, a, e, b) {
        Ok(rows) => rows,
        Err(x) => {
            return Err(x);
        },
    };
    let ghost fs = rows_view(firsts@);
    let mut out: Vec<Row> = Vec::new();
    let mut i: usize = 0;
    assert(fs.subrange(0, 0) =~= Seq::empty());
    assert(rows_view(out@) =~= Seq::empty());
    while i < firsts.len()
        invariant
            storage.inv(),
            0 <= i <= firsts.len(),
            fs == rows_view(firsts@),
            triple_rows(storage, storage.vertices_spec(scan_label(a@.label)), a@, e@, b@) == Ok::<
                Seq<RowView>,
                Failure,
            >(fs),
            second_hop_rows(storage, fs.subrange(0, i as int), b@.variable, f@, c@) == Ok::<
                Seq<RowView>,
                Failure,
            >(rows_view(out@)),
        decreases firsts.len() - i,
    {
        proof {
            let t = fs.subrange(0, i as int + 1);
            assert(t.drop_last() =~= fs.subrange(0, i as int));
            assert(t.last() == firsts[i as int]@);
        }
        let row = &firsts[i];
        let name = match &b.variable {
            Some(name) => name,
            None => {
                proof {
                    lemma_second_hop_prefix(storage, fs, b@.variable, f@, c@, i as int + 1);
                }
                return Err(
                    ExecutionError::invalid("Middle node in path pattern must have a variable"),
                );
            },
        };
        let middle = match row.get(name.as_str()) {
            Some(RowValue::Vertex(x)) => x,
            Some(_) => {
                proof {
                    lemma_second_hop_prefix(storage, fs, b@.variable, f@, c@, i as int + 1);
                }
                return Err(ExecutionError::mismatch("Vertex", "another value"));
            },
            None => {
                proof {
                    lemma_second_hop_prefix(storage, fs, b@.variable, f@, c@, i as int + 1);
                }
                return Err(ExecutionError::VariableNotFound(name.clone()));
            },
        };
        match match_hop(storage, &mut out, row, middle.id, f, c) {
            Ok(()) => {},
            Err(x) => {
                proof {
                    if x.kind() != Failure::Storage {
                        lemma_second_hop_prefix(storage, fs, b@.variable, f@, c@, i as int + 1);
                    }
                }
                return Err(x);
            },
        }
        i += 1;
    }
    assert(fs.subrange(0, i as int) =~= fs);
    Ok(out)
}

/// The rows of a pattern.
pub fn execute_pattern<S: GraphStorage>(storage: &S, pattern: &Pattern) -> (r: Result<
    Vec<Row>,
    ExecutionError,
>)
    requires
        storage.inv(),
    ensures
        rows_agree(r, pattern_rows(storage, pattern@)),
        storage.sound() ==> !(r matches Err(ExecutionError::StorageError(_))),
{
    let n = pattern.elements.len();
    if n == 0 {
        let out: Vec<Row> = Vec::new();
        assert(rows_view(out@) =~= Seq::empty());
        return Ok(out);
    }
    let nodes = pattern.nodes();
    let edges = pattern.edges();
    if edges.len() == 0 {
        if nodes.len() == 0 {
            proof {
                lemma_some_element(pattern@);
            }
            let out: Vec<Row> = Vec::new();
            return Ok(out);
        }
        assert(nodes@.map_values(|n: &NodePattern| n@)[0] == nodes[0]@);
        return match_node_pattern(storage, nodes[0]);
    }
    let es = &pattern.elements;
    assert(forall|i: int| 0 <= i < n ==> pattern@[i] == (#[trigger] es[i])@);
    if n == 3 {
        match (&es[0], &es[1], &es[2]) {
            (PatternElement::Node(a), PatternElement::Edge(e), PatternElement::Node(b)) => match_triple_pattern(
                storage,
                a,
                e,
                b,
            ),
            _ => {
                let out: Vec<Row> = Vec::new();
                assert(rows_view(out@) =~= Seq::empty());
                Ok(out)
            },
        }
    } else if n == 5 {
        match (&es[0], &es[1], &es[2], &es[3], &es[4]) {
            (
                PatternElement::Node(a),
                PatternElement::Edge(e),
                PatternElement::Node(b),
                PatternElement::Edge(f),
                PatternElement::Node(c),
            ) => match_path_pattern(storage, a, e, b, f, c),
            _ => Err(ExecutionError::invalid("Invalid path pattern")),
        }
    } else {
        Err(ExecutionError::unsupported("Pattern of this length is not supported"))
    }
}

/// A pattern with an element has a node or an edge.
proof fn lemma_some_element(es: Seq<ElementView>)
    requires
        es.len() > 0,
    ensures
        crate::parser::ast::nodes_of(es).len() + crate::parser::ast::edges_of(es).len() > 0,
    decreases es.len(),
{
}

/// The rows of all patterns, one pattern after the other.
pub open spec fn clause_rows<S: GraphStorage>(g: &S, ps: Seq<Seq<ElementView>>) -> Result<
    Seq<RowView>,
    Failure,
>
    decreases ps.len(),
{
    if ps.len() == 0 {
        Ok(Seq::empty())
    } else {
        match clause_rows(g, ps.drop_last()) {
            Err(f) => Err(f),
            Ok(front) => match pattern_rows(g, ps.last()) {
                Err(f) => Err(f),
                Ok(rows) => Ok(front + rows),
            },
        }
    }
}

/// What fails on the first patterns fails on all of them.
pub proof fn lemma_clause_rows_prefix<S: GraphStorage>(g: &S, ps: Seq<Seq<ElementView>>, k: int)
    requires
        0 <= k <= ps.len(),
        clause_rows(g, ps.subrange(0, k)) is Err,
    ensures
        clause_rows(g, ps) == clause_rows(g, ps.subrange(0, k)),
    decreases ps.len() - k,
{
    if k < ps.len() {
        assert(ps.subrange(0, k + 1).drop_last() =~= ps.subrange(0, k));
        lemma_clause_rows_prefix(g, ps, k + 1);
    } else {
        assert(ps.subrange(0, k) =~= ps);
    }
}

/// The rows that pass a condition: those in which it evaluates to a value
/// that counts as true. Left open where the condition computes with numbers
/// in text form.
pub open spec fn filtered(rows: Seq<RowView>, condition: ExprView) -> Option<
    Result<Seq<RowView>, Failure>,
>
    decreases rows.len(),
{
    if rows.len() == 0 {
        Some(Ok(Seq::empty()))
    } else {
        match filtered(rows.drop_last(), condition) {
            None => None,
            Some(Err(f)) => Some(Err(f)),
            Some(Ok(front)) => match crate::executor::eval::eval(condition, rows.last()) {
                crate::executor::eval::Outcome::Floats => None,
                crate::executor::eval::Outcome::Fails(f) => Some(Err(f)),
                crate::executor::eval::Outcome::Is(v) => match crate::executor::eval::truthy(v) {
                    None => None,
                    Some(true) => Some(Ok(front.push(rows.last()))),
                    Some(false) => Some(Ok(front)),
                },
            },
        }
    }
}

/// What is settled on the first rows is settled on all of them.
pub proof fn lemma_filtered_prefix(rows: Seq<RowView>, condition: ExprView, k: int)
    requires
        0 <= k <= rows.len(),
        !(filtered(rows.subrange(0, k), condition) matches Some(Ok(_))),
    ensures
        filtered(rows, condition) == filtered(rows.subrange(0, k), condition),
    decreases rows.len() - k,
{
    if k < rows.len() {
        assert(rows.subrange(0, k + 1).drop_last() =~= rows.subrange(0, k));
        lemma_filtered_prefix(rows, condition, k + 1);
    } else {
        assert(rows.subrange(0, k) =~= rows);
    }
}

/// The rows that pass a condition.
pub fn apply_where_filter<F: FloatOps>(floats: &F, rows: Vec<Row>, condition: &Expression) -> (r:
    Result<Vec<Row>, ExecutionError>)
    ensures
        match filtered(rows_view(rows@), condition@) {
            Some(Ok(kept)) => r matches Ok(x) && rows_view(x@) == kept,
            Some(Err(f)) => r matches Err(e) && e.kind() == f,
            None => true,
        },
        r matches Err(e) ==> e.kind() != Failure::Storage,
{
    let ghost all = rows_view(rows@);
    let mut out: Vec<Row> = Vec::new();
    let mut i: usize = 0;
    assert(all.subrange(0, 0) =~= Seq::empty());
    assert(rows_view(out@) =~= Seq::empty());
    while i < rows.len()
        invariant
            0 <= i <= rows.len(),
            all == rows_view(rows@),
            match filtered(all.subrange(0, i as int), condition@) {
                Some(Ok(kept)) => rows_view(out@) == kept,
                Some(Err(_)) => false,
                None => true,
            },
        decreases rows.len() - i,
    {
        proof {
            let t = all.subrange(0, i as int + 1);
            assert(t.drop_last() =~= all.subrange(0, i as int));
            assert(t.last() == rows[i as int]@);
        }
        let ghost before = rows_view(out@);
        match evaluate_expression(floats, condition, &rows[i]) {
            Ok(v) => {
                if is_truthy(floats, &v) {
                    let row = rows[i].clone();
                    out.push(row);
                    assert(rows_view(out@) =~= before.push(row@));
                }
            },
            Err(e) => {
                proof {
                    lemma_filtered_prefix(all, condition@, i as int + 1);
                }
                return Err(e);
            },
        }
        proof {
            if filtered(all.subrange(0, i as int + 1), condition@) is None {
                lemma_filtered_prefix(all, condition@, i as int + 1);
            }
        }
        i += 1;
    }
    assert(all.subrange(0, i as int) =~= all);
    Ok(out)
}

/// The rows of a MATCH clause with an optional WHERE.
pub open spec fn match_rows<S: GraphStorage>(
    g: &S,
    ps: Seq<Seq<ElementView>>,
    condition: Option<ExprView>,
) -> Option<Result<Seq<RowView>, Failure>> {
    match clause_rows(g, ps) {
        Err(f) => Some(Err(f)),
        Ok(rows) => match condition {
            None => Some(Ok(rows)),
            Some(c) => filtered(rows, c),
        },
    }
}

/// The pattern matcher over a store.
pub struct MatchExecutor<'a, S: GraphStorage, F: FloatOps> {
    pub storage: &'a S,
    pub floats: &'a F,
}

impl<'a, S: GraphStorage, F: FloatOps> MatchExecutor<'a, S, F> {
    /// A matcher on `storage`.
    pub fn new(storage: &'a S, floats: &'a F) -> (r: Self)
        ensures
            r.storage == storage,
            r.floats == floats,
    {
        MatchExecutor { storage, floats }
    }

    /// The rows of a MATCH clause: the rows of its patterns, one pattern
    /// after the other, filtered by the WHERE condition if there is one.
    pub fn execute(&self, match_clause: &MatchClause, where_clause: Option<&WhereClause>) -> (r:
        Result<Vec<Row>, ExecutionError>)
        requires
            self.storage.inv(),
        ensures
            match match_rows(
                self.storage,
                patterns_view(match_clause.patterns@),
                match where_clause {
                    Some(w) => Some(w.condition@),
                    None => None,
                },
            ) {
                Some(Ok(rows)) => r matches Ok(x) ==> rows_view(x@) == rows,
                Some(Err(f)) => r matches Err(e) && (e.kind() == f || e.kind()
                    == Failure::Storage),
                None => true,
            },
            self.storage.sound() ==> !(r matches Err(ExecutionError::StorageError(_))),
            self.storage.sound() ==> (match_rows(
                self.storage,
                patterns_view(match_clause.patterns@),
                match where_clause {
                    Some(w) => Some(w.condition@),
                    None => None,
                },
            ) matches Some(Ok(_)) ==> r is Ok),
    {
        let storage = self.storage;
        let ghost ps = patterns_view(match_clause.patterns@);
        let mut results: Vec<Row> = Vec::new();
        let mut i: usize = 0;
        assert(ps.subrange(0, 0) =~= Seq::empty());
        assert(rows_view(results@) =~= Seq::empty());
        while i < match_clause.patterns.len()
            invariant
                storage.inv(),
                storage == self.storage,
                0 <= i <= match_clause.patterns.len(),
                ps == patterns_view(match_clause.patterns@),
                clause_rows(storage, ps.subrange(0, i as int)) == Ok::<Seq<RowView>, Failure>(
                    rows_view(results@),
                ),
            decreases match_clause.patterns.len() - i,
        {
            proof {
                let t = ps.subrange(0, i as int + 1);
                assert(t.drop_last() =~= ps.subrange(0, i as int));
                assert(t.last() == match_clause.patterns[i as int]@);
            }
            let ghost before = rows_view(results@);
            match execute_pattern(storage, &match_clause.patterns[i]) {
                Ok(mut rows) => {
                    let ghost added = rows_view(rows@);
                    results.append(&mut rows);
                    assert(rows_view(results@) =~= before + added);
                },
                Err(e) => {
                    proof {
                        if e.kind() != Failure::Storage {
                            lemma_clause_rows_prefix(storage, ps, i as int + 1);
                        }
                    }
                    return Err(e);
                },
            }
            i += 1;
        }
        assert(ps.subrange(0, i as int) =~= ps);
        match where_clause {
            Some(w) => {
                match apply_where_filter(self.floats, results, &w.condition) {
                    Ok(rows) => Ok(rows),
                    Err(e) => Err(e),
                }
            },
            None => Ok(results),
        }
    }
}

} // verus!
