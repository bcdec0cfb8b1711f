//! CREATE: vertices and edges for the elements of a pattern, staged in one
//! transaction and committed at the end.

use crate::executor::convert::{literal_json, literal_to_json};
use crate::executor::error::{terminal, ExecutionError, Failure};
use crate::executor::matcher::bound;
use crate::executor::projection::RowView;
use crate::executor::value::{bind, rows_view, Row, RowValue, ValueView};
use crate::json::{Json, JsonView};
use crate::parser::ast::{
    entries_model, opt_entries, opt_text, patterns_view, Direction, EdgePattern,
    EdgePatternView, ElementView, ExprView, Expression, MapEntry, NodePattern, NodeView, Pattern,
    PatternElement,
};
use crate::storage::engine::GraphStore;
use crate::storage::keys::label_prefix;
use crate::storage::kv::{apply_ops, KvState, KvStore, WriteOpView};
use crate::storage::transaction::{next_ordinal, plan_edge, plan_vertex, GraphTransaction};
use crate::types::edge::{Edge, EdgeView};
use crate::types::graphid::Graphid;
use crate::types::vertex::{Vertex, VertexView};
use vstd::prelude::*;

verus! {

/// The JSON object of a property map of CREATE, whose values have to be
/// literals: a parameter is not supported, any other expression is invalid.
pub open spec fn created_object(es: Seq<(Seq<char>, ExprView)>) -> Result<JsonView, Failure>
    decreases es.len(),
{
    if es.len() == 0 {
        Ok(JsonView::Object(Seq::empty()))
    } else {
        match created_object(es.drop_last()) {
            Err(f) => Err(f),
            Ok(front) => match es.last().1 {
                ExprView::Literal(l) => match literal_json(l) {
                    Some(j) => Ok(front.with_member(es.last().0, j)),
                    None => Err(Failure::InvalidExpression),
                },
                ExprView::Parameter(_) => Err(Failure::Unsupported),
                _ => Err(Failure::InvalidExpression),
            },
        }
    }
}

/// The properties of a record that a pattern element creates: the empty
/// object where the element has no property map.
pub open spec fn created_properties(p: Option<Seq<(Seq<char>, ExprView)>>) -> Result<
    JsonView,
    Failure,
> {
    match p {
        Some(es) => created_object(es),
        None => Ok(JsonView::Object(Seq::empty())),
    }
}

/// What fails on the first entries fails on all of them.
pub proof fn lemma_created_object_prefix(es: Seq<(Seq<char>, ExprView)>, k: int)
    requires
        0 <= k <= es.len(),
        created_object(es.subrange(0, k)) is Err,
    ensures
        created_object(es) == created_object(es.subrange(0, k)),
    decreases es.len() - k,
{
    if k < es.len() {
        assert(es.subrange(0, k + 1).drop_last() =~= es.subrange(0, k));
        lemma_created_object_prefix(es, k + 1);
    } else {
        assert(es.subrange(0, k) =~= es);
    }
}

/// The properties of a record that a pattern element creates.
pub fn evaluate_properties(props: &Option<Vec<MapEntry>>) -> (r: Result<Json, ExecutionError>)
    ensures
        match created_properties(opt_entries(*props)) {
            Ok(j) => r matches Ok(x) && x@ == j,
            Err(f) => r matches Err(e) && e.kind() == f,
        },
{
    let entries = match props {
        Some(entries) => entries,
        None => {
            return Ok(Json::empty_object());
        },
    };
    let ghost es = entries_model(entries@);
    let mut out = Json::empty_object();
    let mut i: usize = 0;
    assert(es.subrange(0, 0) =~= Seq::empty());
    while i < entries.len()
        invariant
            0 <= i <= entries.len(),
            es == entries_model(entries@),
            opt_entries(*props) == Some(es),
            created_object(es.subrange(0, i as int)) == Ok::<JsonView, Failure>(out@),
        decreases entries.len() - i,
    {
        proof {
            let t = es.subrange(0, i as int + 1);
            assert(t.drop_last() =~= es.subrange(0, i as int));
            assert(t.last() == entries[i as int]@);
        }
        match &entries[i].value {
            Expression::Literal(lit) => match literal_to_json(lit) {
                Ok(j) => {
                    out.set_member(entries[i].key.clone(), j);
                },
                Err(e) => {
                    proof {
                        lemma_created_object_prefix(es, i as int + 1);
                    }
                    return Err(e);
                },
            },
            Expression::Parameter(_) => {
                proof {
                    lemma_created_object_prefix(es, i as int + 1);
                }
                return Err(ExecutionError::unsupported("Parameters are not yet supported"));
            },
            _ => {
                proof {
                    lemma_created_object_prefix(es, i as int + 1);
                }
                return Err(
                    ExecutionError::invalid("Complex expressions not supported in CREATE"),
                );
            },
        }
        i += 1;
    }
    assert(es.subrange(0, i as int) =~= es);
    Ok(out)
}

/// What creating the vertex of a node pattern stages behind the writes
/// `staged`: the pattern has to have a label.
#[verifier::opaque]
pub open spec fn node_step<K: KvStore>(
    store: &GraphStore<K>,
    staged: Seq<WriteOpView>,
    node: NodeView,
) -> Result<(VertexView, Seq<WriteOpView>), Failure> {
    match node.label {
        None => Err(Failure::InvalidExpression),
        Some(label) => match created_properties(node.properties) {
            Err(f) => Err(f),
            Ok(props) => match plan_vertex(
                true,
                apply_ops(store.state(), staged),
                next_ordinal(
                    store.kv.scan_spec(label_prefix(store.ns())),
                    staged,
                    label_prefix(store.ns()),
                ),
                store.ns(),
                label,
                props,
            ) {
                Ok((v, writes)) => Ok((v, staged + writes)),
                Err(_) => Err(Failure::Storage),
            },
        },
    }
}

/// What creating the edge of an edge pattern stages behind the writes
/// `staged`: the pattern has to have a label.
#[verifier::opaque]
pub open spec fn edge_step<K: KvStore>(
    store: &GraphStore<K>,
    staged: Seq<WriteOpView>,
    edge: EdgePatternView,
    start: u64,
    end: u64,
) -> Result<(EdgeView, Seq<WriteOpView>), Failure> {
    match edge.label {
        None => Err(Failure::InvalidExpression),
        Some(label) => match created_properties(edge.properties) {
            Err(f) => Err(f),
            Ok(props) => match plan_edge(
                true,
                apply_ops(store.state(), staged),
                next_ordinal(
                    store.kv.scan_spec(label_prefix(store.ns())),
                    staged,
                    label_prefix(store.ns()),
                ),
                store.ns(),
                label,
                start,
                end,
                props,
            ) {
                Ok((e, writes)) => Ok((e, staged + writes)),
                Err(_) => Err(Failure::Storage),
            },
        },
    }
}

/// What creating the elements of a pattern from position `i` on stages and
/// binds. A node creates a vertex. An edge has to follow a node; it creates
/// the vertex of the node behind it and then the edge between the two, in
/// the direction of its arrow, and an edge without an arrow is invalid.
pub open spec fn created_from<K: KvStore>(
    store: &GraphStore<K>,
    staged: Seq<WriteOpView>,
    es: Seq<ElementView>,
    i: int,
    last: Option<u64>,
    row: RowView,
) -> Result<(Seq<WriteOpView>, RowView), Failure>
    decreases es.len() - i,
{
    if i < 0 || i >= es.len() {
        Ok((staged, row))
    } else {
        match es[i] {
            ElementView::Node(n) => match node_step(store, staged, n) {
                Err(f) => Err(f),
                Ok((v, staged2)) => created_from(
                    store,
                    staged2,
                    es,
                    i + 1,
                    Some(v.id),
                    bound(row, n.variable, ValueView::Vertex(v)),
                ),
            },
            ElementView::Edge(e) => match last {
                None => Err(Failure::InvalidExpression),
                Some(from) => if i + 1 >= es.len() {
                    Err(Failure::InvalidExpression)
                } else {
                    match es[i + 1] {
                        ElementView::Edge(_) => Err(Failure::InvalidExpression),
                        ElementView::Node(n) => match node_step(store, staged, n) {
                            Err(f) => Err(f),
                            Ok((v, staged2)) => if e.direction == Direction::Both {
                                Err(Failure::InvalidExpression)
                            } else {
                                let start = if e.direction == Direction::Right {
                                    from
                                } else {
                                    v.id
                                };
                                let end = if e.direction == Direction::Right {
                                    v.id
                                } else {
                                    from
                                };
                                match edge_step(store, staged2, e, start, end) {
                                    Err(f) => Err(f),
                                    Ok((edge, staged3)) => created_from(
                                        store,
                                        staged3,
                                        es,
                                        i + 2,
                                        Some(v.id),
                                        bound(
                                            bound(row, e.variable, ValueView::Edge(edge)),
                                            n.variable,
                                            ValueView::Vertex(v),
                                        ),
                                    ),
                                }
                            },
                        },
                    }
                },
            },
        }
    }
}

/// What creating all patterns stages and binds, one pattern after the
/// other.
pub open spec fn created_patterns<K: KvStore>(
    store: &GraphStore<K>,
    staged: Seq<WriteOpView>,
    ps: Seq<Seq<ElementView>>,
    i: int,
    row: RowView,
) -> Result<(Seq<WriteOpView>, RowView), Failure>
    decreases ps.len() - i,
{
    if i < 0 || i >= ps.len() {
        Ok((staged, row))
    } else {
        match created_from(store, staged, ps[i], 0, None, row) {
            Err(f) => Err(f),
            Ok((staged2, row2)) => created_patterns(store, staged2, ps, i + 1, row2),
        }
    }
}

/// A row with `name`, if there is one, bound to `value`.
fn bind_optional(row: &mut Row, name: &Option<String>, value: RowValue)
    ensures
        final(row)@ == bound(old(row)@, opt_text(*name), value@),
{
    match name {
        Some(n) => {
            row.insert(n.as_str(), value);
        },
        None => {},
    }
}

/// Stages the vertex of a node pattern.
pub fn create_node<K: KvStore>(tx: &mut GraphTransaction, store: &GraphStore<K>, node: &NodePattern) -> (r:
    Result<Vertex, ExecutionError>)
    requires
        store.inv(),
    ensures
        final(tx).is_open() == old(tx).is_open(),
        !old(tx).is_open() ==> r is Err && terminal(old(tx), r->Err_0) && final(tx).staged() == old(tx).staged(),
        r matches Ok(got) ==> old(tx).is_open() && node_step(store, old(tx).staged(), node@) == Ok::<
            (VertexView, Seq<WriteOpView>),
            Failure,
        >((got@, final(tx).staged())),
        r matches Err(e) ==> node_step(store, old(tx).staged(), node@) == Err::<
            (VertexView, Seq<WriteOpView>),
            Failure,
        >(e.kind()) || (!store.kv.reliable() && e.kind() == Failure::Storage) || terminal(
            old(tx),
            e,
        ),
        r is Err ==> final(tx).staged() == old(tx).staged(),
{
    reveal(node_step);
    match tx.check_state() {
        Err(e) => {
            return Err(ExecutionError::StorageError(e));
        },
        Ok(()) => {},
    }
    let label = match &node.label {
        Some(l) => l,
        None => {
            return Err(ExecutionError::invalid("Node must have a label"));
        },
    };
    let properties = match evaluate_properties(&node.properties) {
        Ok(p) => p,
        Err(e) => {
            return Err(e);
        },
    };
    match tx.create_vertex(store, label.as_str(), properties) {
        Ok(v) => Ok(v),
        Err(e) => Err(ExecutionError::StorageError(e)),
    }
}

/// Stages the edge of an edge pattern between two vertices.
pub fn create_edge<K: KvStore>(
    tx: &mut GraphTransaction,
    store: &GraphStore<K>,
    edge: &EdgePattern,
    start: Graphid,
    end: Graphid,
) -> (r: Result<Edge, ExecutionError>)
    requires
        store.inv(),
    ensures
        final(tx).is_open() == old(tx).is_open(),
        !old(tx).is_open() ==> r is Err && terminal(old(tx), r->Err_0) && final(tx).staged() == old(tx).staged(),
        r matches Ok(got) ==> old(tx).is_open() && edge_step(store, old(tx).staged(), edge@, start@, end@) == Ok::<
            (EdgeView, Seq<WriteOpView>),
            Failure,
        >((got@, final(tx).staged())),
        r matches Err(x) ==> edge_step(store, old(tx).staged(), edge@, start@, end@) == Err::<
            (EdgeView, Seq<WriteOpView>),
            Failure,
        >(x.kind()) || (!store.kv.reliable() && x.kind() == Failure::Storage) || terminal(
            old(tx),
            x,
        ),
        r is Err ==> final(tx).staged() == old(tx).staged(),
{
    reveal(edge_step);
    match tx.check_state() {
        Err(e) => {
            return Err(ExecutionError::StorageError(e));
        },
        Ok(()) => {},
    }
    let label = match &edge.label {
        Some(l) => l,
        None => {
            return Err(ExecutionError::invalid("Edge must have a label"));
        },
    };
    let properties = match evaluate_properties(&edge.properties) {
        Ok(p) => p,
        Err(e) => {
            return Err(e);
        },
    };
    match tx.create_edge(store, label.as_str(), start, end, properties) {
        Ok(e) => Ok(e),
        Err(e) => Err(ExecutionError::StorageError(e)),
    }
}

/// Stages the vertices and edges of a pattern, left to right, and binds
/// their variables.
pub fn create_pattern<K: KvStore>(
    tx: &mut GraphTransaction,
    store: &GraphStore<K>,
    pattern: &Pattern,
    bindings: &mut Row,
) -> (r: Result<(), ExecutionError>)
    requires
        store.inv(),
    ensures
        final(tx).is_open() == old(tx).is_open(),
        !old(tx).is_open() ==> r is Err && terminal(old(tx), r->Err_0) && final(tx).staged()
            == old(tx).staged() && final(bindings)@ == old(bindings)@,
        r is Ok ==> old(tx).is_open() && created_from(
            store,
            old(tx).staged(),
            pattern@,
            0,
            None,
            old(bindings)@,
        ) == Ok::<(Seq<WriteOpView>, RowView), Failure>((final(tx).staged(), final(bindings)@)),
        r matches Err(e) ==> created_from(
            store,
            old(tx).staged(),
            pattern@,
            0,
            None,
            old(bindings)@,
        ) == Err::<(Seq<WriteOpView>, RowView), Failure>(e.kind()) || (!store.kv.reliable()
            && e.kind() == Failure::Storage) || terminal(old(tx), e),
{
    match tx.check_state() {
        Err(e) => {
            return Err(ExecutionError::StorageError(e));
        },
        Ok(()) => {},
    }
    let ghost es = pattern@;
    let ghost whole = created_from(store, old(tx).staged(), es, 0, None, old(bindings)@);
    let n = pattern.elements.len();
    let mut last: Option<Graphid> = None;
    let mut i: usize = 0;
    while i < n
        invariant
            store.inv(),
            tx.is_open(),
            old(tx).is_open(),
            n == pattern.elements.len(),
            es == pattern@,
            0 <= i <= n,
            whole == created_from(store, old(tx).staged(), es, 0, None, old(bindings)@),
            whole == created_from(
                store,
                tx.staged(),
                es,
                i as int,
                match last {
                    Some(id) => Some(id@),
                    None => None,
                },
                bindings@,
            ),
        decreases n - i,
    {
        assert(es[i as int] == pattern.elements[i as int]@);
        match &pattern.elements[i] {
            PatternElement::Node(node) => {
                let vertex = match create_node(tx, store, node) {
                    Ok(v) => v,
                    Err(e) => {
                        return Err(e);
                    },
                };
                last = Some(vertex.id);
                bind_optional(bindings, &node.variable, RowValue::Vertex(vertex));
                i += 1;
            },
            PatternElement::Edge(edge) => {
                let from = match last {
                    Some(id) => id,
                    None => {
                        return Err(ExecutionError::invalid("Edge must follow a node"));
                    },
                };
                if i + 1 >= n {
                    return Err(ExecutionError::invalid("Edge must be followed by a node"));
                }
                assert(es[i as int + 1] == pattern.elements[i as int + 1]@);
                let next = match &pattern.elements[i + 1] {
                    PatternElement::Node(node) => node,
                    PatternElement::Edge(_) => {
                        return Err(ExecutionError::invalid("Edge must be followed by a node"));
                    },
                };
                let target = match create_node(tx, store, next) {
                    Ok(v) => v,
                    Err(e) => {
                        return Err(e);
                    },
                };
                let (start, end) = match edge.direction {
                    Direction::Right => (from, target.id),
                    Direction::Left => (target.id, from),
                    Direction::Both => {
                        return Err(ExecutionError::invalid("Cannot CREATE undirected edges"));
                    },
                };
                let created = match create_edge(tx, store, edge, start, end) {
                    Ok(e) => e,
                    Err(e) => {
                        return Err(e);
                    },
                };
                last = Some(target.id);
                bind_optional(bindings, &edge.variable, RowValue::Edge(created));
                bind_optional(bindings, &next.variable, RowValue::Vertex(target));
                i += 2;
            },
        }
    }
    Ok(())
}

/// The rows of a CREATE: one row with everything that was bound, or none
/// where nothing was.
pub open spec fn created_result(row: RowView) -> Seq<RowView> {
    if row.len() == 0 {
        Seq::empty()
    } else {
        seq![row]
    }
}

/// CREATE over a store.
pub struct CreateExecutor;

impl CreateExecutor {
    /// Creates the vertices and edges of the patterns in one transaction
    /// and commits it. Nothing is written when a step fails.
    pub fn execute<K: KvStore>(store: &mut GraphStore<K>, patterns: &Vec<Pattern>) -> (r: Result<
        Vec<Row>,
        ExecutionError,
    >)
        requires
            old(store).inv(),
        ensures
            final(store).inv(),
            final(store).ns() == old(store).ns(),
            final(store).kv.reliable() == old(store).kv.reliable(),
            r is Err ==> final(store).state() == old(store).state(),
            r matches Ok(rows) ==> ({
                let made = created_patterns(
                    old(store),
                    Seq::empty(),
                    patterns_view(patterns@),
                    0,
                    Seq::empty(),
                );
                &&& made is Ok
                &&& final(store).state() == apply_ops(old(store).state(), made->Ok_0.0)
                &&& rows_view(rows@) == created_result(made->Ok_0.1)
            }),
            r matches Err(e) ==> created_patterns(
                old(store),
                Seq::empty(),
                patterns_view(patterns@),
                0,
                Seq::empty(),
            ) == Err::<(Seq<WriteOpView>, RowView), Failure>(e.kind()) || (!old(store).kv.reliable() && e.kind() == Failure::Storage),
    {
        let mut tx = GraphTransaction::new();
        let mut bindings = Row::new();
        let ghost ps = patterns_view(patterns@);
        let ghost whole = created_patterns(&*store, Seq::empty(), ps, 0, Seq::empty());
        let mut i: usize = 0;
        while i < patterns.len()
            invariant
                store.inv(),
                *store == *old(store),
                tx.is_open(),
                ps == patterns_view(patterns@),
                0 <= i <= patterns.len(),
                whole == created_patterns(old(store), Seq::empty(), ps, 0, Seq::empty()),
                whole == created_patterns(&*store, tx.staged(), ps, i as int, bindings@),
            decreases patterns.len() - i,
        {
            assert(ps[i as int] == patterns[i as int]@);
            match create_pattern(&mut tx, store, &patterns[i], &mut bindings) {
                Ok(()) => {},
                Err(e) => {
                    return Err(e);
                },
            }
            i += 1;
        }
        match tx.commit(store) {
            Ok(()) => {},
            Err(e) => {
                return Err(ExecutionError::StorageError(e));
            },
        }
        let mut results: Vec<Row> = Vec::new();
        if bindings.len() > 0 {
            results.push(bindings);
            assert(rows_view(results@) =~= seq![bindings@]);
        } else {
            assert(rows_view(results@) =~= Seq::empty());
        }
        Ok(results)
    }
}

} // verus!
