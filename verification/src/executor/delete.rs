//! DELETE and DETACH DELETE of matched vertices and edges.

use crate::executor::error::{terminal, ExecutionError, Failure};
use crate::executor::projection::RowView;
use crate::executor::value::{lookup, rows_view, Row, RowValue, ValueView};
use crate::parser::ast::{exprs_view, ExprView, Expression};
use crate::storage::engine::{edges_view, GraphStore};
use crate::storage::keys::{edge_key, vertex_key};
use crate::storage::kv::{apply_ops, KvStore, WriteOpView};
use crate::storage::transaction::{edge_removal, GraphTransaction};
use crate::types::edge::{Edge, EdgeView};
use crate::types::graphid::Graphid;
use vstd::prelude::*;

verus! {

/// What deleting the edge `id` stages: the removal of its record and both
/// adjacency entries; nothing where no such edge is stored. A record that
/// does not read is a failure of the store.
#[verifier::opaque]
pub open spec fn edge_delete<K: KvStore>(store: &GraphStore<K>, id: u64) -> Result<
    Seq<WriteOpView>,
    Failure,
> {
    match store.edge_spec(id) {
        Some(e) => Ok(edge_removal(store.ns(), id, e)),
        None => if store.state().contains_key(edge_key(store.ns(), id)) {
            Err(Failure::Storage)
        } else {
            Ok(Seq::empty())
        },
    }
}

/// What deleting the edges `es` stages, edge by edge.
pub open spec fn edges_delete<K: KvStore>(store: &GraphStore<K>, es: Seq<EdgeView>) -> Result<
    Seq<WriteOpView>,
    Failure,
>
    decreases es.len(),
{
    if es.len() == 0 {
        Ok(Seq::empty())
    } else {
        match edges_delete(store, es.drop_last()) {
            Err(f) => Err(f),
            Ok(front) => match edge_delete(store, es.last().id) {
                Err(f) => Err(f),
                Ok(ws) => Ok(front + ws),
            },
        }
    }
}

/// What deleting the vertex `id` stages. Without DETACH the vertex must
/// have no edge, and only its record is removed; with DETACH its outgoing
/// and then its incoming edges are removed first.
#[verifier::opaque]
pub open spec fn vertex_delete<K: KvStore>(store: &GraphStore<K>, id: u64, detach: bool) -> Result<
    Seq<WriteOpView>,
    Failure,
> {
    match (store.outgoing_read(id), store.incoming_read(id)) {
        (Some(out), Some(inc)) => {
            let gone = seq![WriteOpView::Delete { key: vertex_key(store.ns(), id) }];
            if detach {
                match (edges_delete(store, out), edges_delete(store, inc)) {
                    (Ok(a), Ok(b)) => Ok(a + b + gone),
                    _ => Err(Failure::Storage),
                }
            } else if out.len() + inc.len() > 0 {
                Err(Failure::InvalidExpression)
            } else {
                Ok(gone)
            }
        },
        _ => Err(Failure::Storage),
    }
}

/// What one expression of DELETE stages for a row: it has to be a variable
/// that the row binds to a vertex or an edge.
pub open spec fn expr_delete<K: KvStore>(
    store: &GraphStore<K>,
    e: ExprView,
    row: RowView,
    detach: bool,
) -> Result<Seq<WriteOpView>, Failure> {
    match e {
        ExprView::Variable(name) => match lookup(row, name) {
            None => Err(Failure::VariableNotFound(name)),
            Some(ValueView::Vertex(x)) => vertex_delete(store, x.id, detach),
            Some(ValueView::Edge(x)) => edge_delete(store, x.id),
            Some(_) => Err(Failure::TypeMismatch),
        },
        _ => Err(Failure::Unsupported),
    }
}

/// What the expressions stage for a row, in their order.
pub open spec fn row_deletes<K: KvStore>(
    store: &GraphStore<K>,
    es: Seq<ExprView>,
    row: RowView,
    detach: bool,
) -> Result<Seq<WriteOpView>, Failure>
    decreases es.len(),
{
    if es.len() == 0 {
        Ok(Seq::empty())
    } else {
        match row_deletes(store, es.drop_last(), row, detach) {
            Err(f) => Err(f),
            Ok(front) => match expr_delete(store, es.last(), row, detach) {
                Err(f) => Err(f),
                Ok(ws) => Ok(front + ws),
            },
        }
    }
}

/// What the expressions stage for all rows, row by row.
pub open spec fn all_deletes<K: KvStore>(
    store: &GraphStore<K>,
    es: Seq<ExprView>,
    rows: Seq<RowView>,
    detach: bool,
) -> Result<Seq<WriteOpView>, Failure>
    decreases rows.len(),
{
    if rows.len() == 0 {
        Ok(Seq::empty())
    } else {
        match all_deletes(store, es, rows.drop_last(), detach) {
            Err(f) => Err(f),
            Ok(front) => match row_deletes(store, es, rows.last(), detach) {
                Err(f) => Err(f),
                Ok(ws) => Ok(front + ws),
            },
        }
    }
}

/// What fails on the first edges fails on all of them.
pub proof fn lemma_edges_delete_prefix<K: KvStore>(store: &GraphStore<K>, es: Seq<EdgeView>, k: int)
    requires
        0 <= k <= es.len(),
        edges_delete(store, es.subrange(0, k)) is Err,
    ensures
        edges_delete(store, es) == edges_delete(store, es.subrange(0, k)),
    decreases es.len() - k,
{
    if k < es.len() {
        assert(es.subrange(0, k + 1).drop_last() =~= es.subrange(0, k));
        lemma_edges_delete_prefix(store, es, k + 1);
    } else {
        assert(es.subrange(0, k) =~= es);
    }
}

/// What fails on the first expressions fails on all of them.
pub proof fn lemma_row_deletes_prefix<K: KvStore>(
    store: &GraphStore<K>,
    es: Seq<ExprView>,
    row: RowView,
    detach: bool,
    k: int,
)
    requires
        0 <= k <= es.len(),
        row_deletes(store, es.subrange(0, k), row, detach) is Err,
    ensures
        row_deletes(store, es, row, detach) == row_deletes(store, es.subrange(0, k), row, detach),
    decreases es.len() - k,
{
    if k < es.len() {
        assert(es.subrange(0, k + 1).drop_last() =~= es.subrange(0, k));
        lemma_row_deletes_prefix(store, es, row, detach, k + 1);
    } else {
        assert(es.subrange(0, k) =~= es);
    }
}

/// What fails on the first rows fails on all of them.
pub proof fn lemma_all_deletes_prefix<K: KvStore>(
    store: &GraphStore<K>,
    es: Seq<ExprView>,
    rows: Seq<RowView>,
    detach: bool,
    k: int,
)
    requires
        0 <= k <= rows.len(),
        all_deletes(store, es, rows.subrange(0, k), detach) is Err,
    ensures
        all_deletes(store, es, rows, detach) == all_deletes(store, es, rows.subrange(0, k), detach),
    decreases rows.len() - k,
{
    if k < rows.len() {
        assert(rows.subrange(0, k + 1).drop_last() =~= rows.subrange(0, k));
        lemma_all_deletes_prefix(store, es, rows, detach, k + 1);
    } else {
        assert(rows.subrange(0, k) =~= rows);
    }
}

/// A step did what was planned, or failed as planned, or the store failed.
pub open spec fn staged_as(
    r: Result<(), ExecutionError>,
    plan: Result<Seq<WriteOpView>, Failure>,
    before: Seq<WriteOpView>,
    after: Seq<WriteOpView>,
    reliable: bool,
) -> bool {
    match r {
        Ok(()) => plan is Ok && after == before + plan->Ok_0,
        Err(e) => after == before && (plan == Err::<Seq<WriteOpView>, Failure>(e.kind()) || (
        !reliable && e.kind() == Failure::Storage)),
    }
}

/// Stages the removal of an edge.
pub fn delete_edge<K: KvStore>(tx: &mut GraphTransaction, store: &GraphStore<K>, id: Graphid) -> (r:
    Result<(), ExecutionError>)
    requires
        store.inv(),
    ensures
        final(tx).is_open() == old(tx).is_open(),
        !old(tx).is_open() ==> r is Err && terminal(old(tx), r->Err_0) && final(tx).staged() == old(tx).staged(),
        old(tx).is_open() ==> staged_as(
            r,
            edge_delete(store, id@),
            old(tx).staged(),
            final(tx).staged(),
            store.kv.reliable(),
        ),
{
    reveal(edge_delete);
    match tx.check_state() {
        Err(e) => {
            return Err(ExecutionError::StorageError(e));
        },
        Ok(()) => {},
    }
    match tx.delete_edge(store, id) {
        Ok(()) => Ok(()),
        Err(e) => Err(ExecutionError::StorageError(e)),
    }
}

/// Stages the removal of the edges `edges`, one after the other. Edges
/// that were staged before a failure stay staged.
fn delete_edges<K: KvStore>(tx: &mut GraphTransaction, store: &GraphStore<K>, edges: &Vec<Edge>) -> (r:
    Result<(), ExecutionError>)
    requires
        store.inv(),
        old(tx).is_open(),
    ensures
        final(tx).is_open(),
        match r {
            Ok(()) => edges_delete(store, edges_view(edges@)) is Ok && final(tx).staged() == old(tx).staged() + edges_delete(store, edges_view(edges@))->Ok_0,
            Err(e) => edges_delete(store, edges_view(edges@)) == Err::<Seq<WriteOpView>, Failure>(
                e.kind(),
            ) || (!store.kv.reliable() && e.kind() == Failure::Storage),
        },
        r matches Err(e) ==> e.kind() == Failure::Storage,
{
    let ghost es = edges_view(edges@);
    let ghost first = tx.staged();
    let mut i: usize = 0;
    assert(es.subrange(0, 0) =~= Seq::empty());
    assert(first + Seq::empty() =~= first);
    while i < edges.len()
        invariant
            store.inv(),
            tx.is_open(),
            0 <= i <= edges.len(),
            es == edges_view(edges@),
            edges_delete(store, es.subrange(0, i as int)) is Ok,
            tx.staged() == first + edges_delete(store, es.subrange(0, i as int))->Ok_0,
        decreases edges.len() - i,
    {
        proof {
            let t = es.subrange(0, i as int + 1);
            assert(t.drop_last() =~= es.subrange(0, i as int));
            assert(t.last() == edges[i as int]@);
        }
        let ghost sofar = edges_delete(store, es.subrange(0, i as int))->Ok_0;
        match delete_edge(tx, store, edges[i].id) {
            Ok(()) => {
                proof {
                    let ws = edge_delete(store, edges[i as int]@.id)->Ok_0;
                    assert((first + sofar) + ws =~= first + (sofar + ws));
                }
            },
            Err(e) => {
                proof {
                    reveal(edge_delete);
                    if edge_delete(store, edges[i as int]@.id) is Err {
                        lemma_edges_delete_prefix(store, es, i as int + 1);
                    }
                }
                return Err(e);
            },
        }
        i += 1;
    }
    assert(es.subrange(0, i as int) =~= es);
    Ok(())
}

/// Stages the removal of a vertex. Without `detach` a vertex that has an
/// edge is refused; with it the edges are removed first.
pub fn delete_vertex<K: KvStore>(
    tx: &mut GraphTransaction,
    store: &GraphStore<K>,
    id: Graphid,
    detach: bool,
) -> (r: Result<(), ExecutionError>)
    requires
        store.inv(),
    ensures
        final(tx).is_open() == old(tx).is_open(),
        !old(tx).is_open() ==> r is Err && terminal(old(tx), r->Err_0) && final(tx).staged() == old(tx).staged(),
        old(tx).is_open() ==> match r {
            Ok(()) => vertex_delete(store, id@, detach) is Ok && final(tx).staged() == old(tx).staged() + vertex_delete(store, id@, detach)->Ok_0,
            Err(e) => vertex_delete(store, id@, detach) == Err::<Seq<WriteOpView>, Failure>(
                e.kind(),
            ) || (!store.kv.reliable() && e.kind() == Failure::Storage),
        },
{
    reveal(vertex_delete);
    match tx.check_state() {
        Err(e) => {
            return Err(ExecutionError::StorageError(e));
        },
        Ok(()) => {},
    }
    let ghost first = tx.staged();
    let outgoing = match tx.get_outgoing_edges(store, id) {
        Ok(es) => es,
        Err(e) => {
            return Err(ExecutionError::StorageError(e));
        },
    };
    let incoming = match tx.get_incoming_edges(store, id) {
        Ok(es) => es,
        Err(e) => {
            return Err(ExecutionError::StorageError(e));
        },
    };
    if detach {
        match delete_edges(tx, store, &outgoing) {
            Ok(()) => {},
            Err(e) => {
                return Err(e);
            },
        }
        match delete_edges(tx, store, &incoming) {
            Ok(()) => {},
            Err(e) => {
                return Err(e);
            },
        }
    } else if outgoing.len() > 0 || incoming.len() > 0 {
        assert(edges_view(outgoing@).len() == outgoing.len());
        assert(edges_view(incoming@).len() == incoming.len());
        return Err(
            ExecutionError::invalid("Cannot delete vertex with edges (use DETACH DELETE)"),
        );
    }
    assert(edges_view(outgoing@).len() == outgoing.len());
    assert(edges_view(incoming@).len() == incoming.len());
    let ghost middle = tx.staged();
    match tx.delete_vertex(store, id) {
        Ok(()) => {
            proof {
                let gone = seq![WriteOpView::Delete { key: vertex_key(store.ns(), id@) }];
                assert(tx.staged() =~= middle + gone);
                if detach {
                    let a = edges_delete(store, edges_view(outgoing@))->Ok_0;
                    let b = edges_delete(store, edges_view(incoming@))->Ok_0;
                    assert(((first + a) + b) + gone =~= first + (a + b + gone));
                }
            }
            Ok(())
        },
        Err(e) => Err(ExecutionError::StorageError(e)),
    }
}

/// DELETE over a store.
pub struct DeleteExecutor;

impl DeleteExecutor {
    /// DELETE without a MATCH: with an expression there is nothing that it
    /// could name, and the call fails; without one it does nothing.
    pub fn execute(expressions: &Vec<Expression>, detach: bool) -> (r: Result<(), ExecutionError>)
        ensures
            expressions.len() == 0 ==> r is Ok,
            expressions.len() > 0 ==> r is Err && r->Err_0.kind() == Failure::InvalidExpression,
    {
        if expressions.len() > 0 {
            return Err(ExecutionError::invalid("DELETE requires prior MATCH to bind variables"));
        }
        Ok(())
    }

    /// Deletes what every expression names in every row, in one
    /// transaction, and commits it. Nothing is written when a step fails.
    pub fn execute_with_context<K: KvStore>(
        store: &mut GraphStore<K>,
        expressions: &Vec<Expression>,
        detach: bool,
        rows: &Vec<Row>,
    ) -> (r: Result<(), ExecutionError>)
        requires
            old(store).inv(),
        ensures
            final(store).inv(),
            final(store).ns() == old(store).ns(),
            final(store).kv.reliable() == old(store).kv.reliable(),
            r is Err ==> final(store).state() == old(store).state(),
            r is Ok ==> all_deletes(old(store), exprs_view(expressions@), rows_view(rows@), detach)
                is Ok && final(store).state() == apply_ops(
                old(store).state(),
                all_deletes(old(store), exprs_view(expressions@), rows_view(rows@), detach)->Ok_0,
            ),
            r matches Err(e) ==> all_deletes(
                old(store),
                exprs_view(expressions@),
                rows_view(rows@),
                detach,
            ) == Err::<Seq<WriteOpView>, Failure>(e.kind()) || (!old(store).kv.reliable()
                && e.kind() == Failure::Storage),
    {
        let mut tx = GraphTransaction::new();
        let ghost ev = exprs_view(expressions@);
        let ghost rv = rows_view(rows@);
        let n = expressions.len();
        let mut i: usize = 0;
        assert(rv.subrange(0, 0) =~= Seq::empty());
        while i < rows.len()
            invariant
                store.inv(),
                *store == *old(store),
                tx.is_open(),
                n == expressions.len(),
                ev == exprs_view(expressions@),
                rv == rows_view(rows@),
                0 <= i <= rows.len(),
                all_deletes(&*store, ev, rv.subrange(0, i as int), detach) == Ok::<
                    Seq<WriteOpView>,
                    Failure,
                >(tx.staged()),
            decreases rows.len() - i,
        {
            proof {
                let t = rv.subrange(0, i as int + 1);
                assert(t.drop_last() =~= rv.subrange(0, i as int));
                assert(t.last() == rows[i as int]@);
            }
            let ghost base = tx.staged();
            let mut j: usize = 0;
            assert(ev.subrange(0, 0) =~= Seq::empty());
            assert(base + Seq::empty() =~= base);
            while j < n
                invariant
                    store.inv(),
                    *store == *old(store),
                    tx.is_open(),
                    n == expressions.len(),
                    ev == exprs_view(expressions@),
                    rv == rows_view(rows@),
                    0 <= i < rows.len(),
                    0 <= j <= n,
                    all_deletes(&*store, ev, rv.subrange(0, i as int), detach) == Ok::<
                        Seq<WriteOpView>,
                        Failure,
                    >(base),
                    row_deletes(&*store, ev.subrange(0, j as int), rows[i as int]@, detach) is Ok,
                    tx.staged() == base + row_deletes(
                        &*store,
                        ev.subrange(0, j as int),
                        rows[i as int]@,
                        detach,
                    )->Ok_0,
                decreases n - j,
            {
                proof {
                    let t = ev.subrange(0, j as int + 1);
                    assert(t.drop_last() =~= ev.subrange(0, j as int));
                    assert(t.last() == expressions[j as int]@);
                }
                let ghost sofar = row_deletes(
                    &*store,
                    ev.subrange(0, j as int),
                    rows[i as int]@,
                    detach,
                )->Ok_0;
                let step = Self::delete_named(&mut tx, store, &expressions[j], &rows[i], detach);
                match step {
                    Ok(()) => {
                        proof {
                            let ws = expr_delete(
                                &*store,
                                expressions[j as int]@,
                                rows[i as int]@,
                                detach,
                            )->Ok_0;
                            assert((base + sofar) + ws =~= base + (sofar + ws));
                        }
                    },
                    Err(e) => {
                        proof {
                            if expr_delete(
                                &*store,
                                expressions[j as int]@,
                                rows[i as int]@,
                                detach,
                            ) is Err {
                                lemma_row_deletes_prefix(
                                    &*store,
                                    ev,
                                    rows[i as int]@,
                                    detach,
                                    j as int + 1,
                                );
                                let t = rv.subrange(0, i as int + 1);
                                assert(t.drop_last() =~= rv.subrange(0, i as int));
                                assert(t.last() == rows[i as int]@);
                                lemma_all_deletes_prefix(&*store, ev, rv, detach, i as int + 1);
                            }
                        }
                        return Err(e);
                    },
                }
                j += 1;
            }
            assert(ev.subrange(0, n as int) =~= ev);
            i += 1;
        }
        assert(rv.subrange(0, i as int) =~= rv);
        match tx.commit(store) {
            Ok(()) => Ok(()),
            Err(e) => Err(ExecutionError::StorageError(e)),
        }
    }

    /// Stages the removal of what an expression names in a row.
    fn delete_named<K: KvStore>(
        tx: &mut GraphTransaction,
        store: &GraphStore<K>,
        expr: &Expression,
        row: &Row,
        detach: bool,
    ) -> (r: Result<(), ExecutionError>)
        requires
            store.inv(),
            old(tx).is_open(),
        ensures
            final(tx).is_open(),
            match r {
                Ok(()) => expr_delete(store, expr@, row@, detach) is Ok && final(tx).staged()
                    == old(tx).staged() + expr_delete(store, expr@, row@, detach)->Ok_0,
                Err(e) => expr_delete(store, expr@, row@, detach) == Err::<
                    Seq<WriteOpView>,
                    Failure,
                >(e.kind()) || (!store.kv.reliable() && e.kind() == Failure::Storage),
            },
    {
        match expr {
            Expression::Variable(var) => {
                let value = match row.get(var.as_str()) {
                    Some(v) => v,
                    None => {
                        return Err(ExecutionError::VariableNotFound(var.clone()));
                    },
                };
                match value {
                    RowValue::Vertex(x) => delete_vertex(tx, store, x.id, detach),
                    RowValue::Edge(x) => delete_edge(tx, store, x.id),
                    _ => Err(ExecutionError::mismatch("Vertex or Edge", "another value")),
                }
            },
            _ => Err(ExecutionError::unsupported("Only variables supported in DELETE")),
        }
    }
}

} // verus!
