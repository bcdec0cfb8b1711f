//! The query executor: a query tree run against a store.

use crate::bytes::Rank;
use crate::executor::aggregate::{
    aggregate_avg, aggregate_count, aggregate_max, aggregate_min, aggregate_sum, aggregated,
    aggregated_with,
    avg_outcome, count_outcome, extreme_outcome, mean_with, sum_outcome, sum_with,
};
use crate::executor::create::{created_patterns, created_result, CreateExecutor};
use crate::executor::delete::{all_deletes, DeleteExecutor};
use crate::executor::error::{ExecutionError, Failure};
use crate::executor::eval::{agrees, float_result};
use crate::executor::floats::FloatOps;
use crate::executor::matcher::{match_rows, MatchExecutor};
use crate::executor::ordering::{settled, sorted_pairs, sorts_view};
use crate::executor::pipeline::{
    any_aggregate, apply_order_by, apply_return, projected_rows, return_agrees,
};
use crate::executor::projection::RowView;
use crate::executor::set::{all_writes, SetExecutor};
use crate::executor::value::{rows_view, Row, RowValue, ValueView};
use crate::parser::ast::{
    exprs_view, CypherQuery, Expression, MatchClause, QueryView, ReturnClause, ReturnView,
    SortItem, WhereClause, WriteClause, WriteView,
};
use crate::storage::engine::GraphStore;
use crate::storage::graph::GraphStorage;
use crate::storage::kv::{apply_ops, KvState, KvStore, WriteOpView};
use vstd::prelude::*;

verus! {

/// What the write clause of a query stages, given the rows that its MATCH
/// found. Nothing is settled where a SET computes with numbers in text
/// form.
pub open spec fn write_effect<K: KvStore>(
    store: &GraphStore<K>,
    write: WriteView,
    rows: Seq<RowView>,
) -> Option<Result<Seq<WriteOpView>, Failure>> {
    match write {
        WriteView::Create { patterns } => match created_patterns(
            store,
            Seq::empty(),
            patterns,
            0,
            Seq::empty(),
        ) {
            Ok((staged, _)) => Some(Ok(staged)),
            Err(f) => Some(Err(f)),
        },
        WriteView::Delete { expressions, detach } => Some(
            all_deletes(store, expressions, rows, detach),
        ),
        WriteView::Assign { items } => all_writes(store, items, rows),
    }
}

/// The state after a write took effect as specified, where that is
/// settled.
pub open spec fn written<K: KvStore>(
    store: &GraphStore<K>,
    write: WriteView,
    rows: Seq<RowView>,
    after: KvState,
) -> bool {
    write_effect(store, write, rows) matches Some(Ok(staged)) ==> after == apply_ops(
        store.state(),
        staged,
    )
}

/// Whether a query succeeded, without its rows.
pub open spec fn status(r: Result<Vec<Row>, ExecutionError>) -> Result<(), ExecutionError> {
    match r {
        Ok(_) => Ok(()),
        Err(e) => Err(e),
    }
}

/// The rows that a query gave: none where it failed.
pub open spec fn rows_of(r: Result<Vec<Row>, ExecutionError>) -> Seq<RowView> {
    match r {
        Ok(rows) => rows_view(rows@),
        Err(_) => Seq::empty(),
    }
}

/// The failure of a RETURN on the rows `m`, where it is settled that it
/// fails.
pub open spec fn return_failure(m: Seq<RowView>, clause: Option<ReturnView>) -> Option<Failure> {
    match clause {
        None => None,
        Some(c) => if any_aggregate(c.items) {
            match aggregated(c.items, m) {
                Some(Err(f)) => Some(f),
                _ => None,
            }
        } else {
            match projected_rows(m, c.items) {
                Err(f) => Some(f),
                Ok(_) => None,
            }
        },
    }
}

/// It is settled that a RETURN on the rows `m` succeeds.
pub open spec fn return_succeeds(m: Seq<RowView>, clause: Option<ReturnView>) -> bool {
    match clause {
        None => true,
        Some(c) => if any_aggregate(c.items) {
            aggregated(c.items, m) matches Some(Ok(_))
        } else {
            projected_rows(m, c.items) is Ok
        },
    }
}

/// The query executor over a store and the caller's arithmetic.
pub struct QueryExecutor<K: KvStore, F: FloatOps> {
    pub storage: GraphStore<K>,
    pub floats: F,
}

impl<K: KvStore, F: FloatOps> QueryExecutor<K, F> {
    /// An executor on `storage`.
    pub fn new(storage: GraphStore<K>, floats: F) -> (r: Self)
        ensures
            r.storage == storage,
            r.floats == floats,
    {
        QueryExecutor { storage, floats }
    }

    /// Runs the write clause of a query on the rows of its MATCH.
    fn run_write(&mut self, write: &WriteClause, rows: &Vec<Row>) -> (r: Result<(), ExecutionError>)
        requires
            old(self).storage.inv(),
        ensures
            final(self).storage.inv(),
            final(self).storage.ns() == old(self).storage.ns(),
            final(self).storage.kv.reliable() == old(self).storage.kv.reliable(),
            r is Err ==> final(self).storage.state() == old(self).storage.state(),
            r is Ok ==> written(
                &old(self).storage,
                write@,
                rows_view(rows@),
                final(self).storage.state(),
            ),
            old(self).storage.kv.reliable() && (write_effect(
                &old(self).storage,
                write@,
                rows_view(rows@),
            ) matches Some(Ok(_))) ==> r is Ok,
            write_effect(&old(self).storage, write@, rows_view(rows@)) matches Some(Err(f))
                ==> r matches Err(e) && (e.kind() == f || e.kind() == Failure::Storage),
    {
        match write {
            WriteClause::Assign { items } => SetExecutor::execute_with_context(
                &self.floats,
                &mut self.storage,
                items,
                rows,
            ),
            WriteClause::Delete { expressions, detach } => DeleteExecutor::execute_with_context(
                &mut self.storage,
                expressions,
                *detach,
                rows,
            ),
            WriteClause::Create { patterns } => match CreateExecutor::execute(
                &mut self.storage,
                patterns,
            ) {
                Ok(_) => Ok(()),
                Err(e) => Err(e),
            },
        }
    }

    /// Runs a query.
    ///
    /// A read query matches, filters and returns; the store is not
    /// touched. A bare CREATE creates what its patterns describe and returns
    /// one row with what it bound; a bare DELETE or SET has nothing to work
    /// on. A mixed query matches and filters, computes the rows of its
    /// RETURN from the matched rows, and then writes in one transaction.
    /// Whenever the query fails, the store holds what it held.
    pub fn execute(&mut self, query: CypherQuery) -> (r: Result<Vec<Row>, ExecutionError>)
        requires
            old(self).storage.inv(),
        ensures
            final(self).storage.inv(),
            final(self).storage.ns() == old(self).storage.ns(),
            final(self).storage.kv.reliable() == old(self).storage.kv.reliable(),
            r is Err ==> final(self).storage.state() == old(self).storage.state(),
            match query@ {
                QueryView::Read { patterns, condition, result } => {
                    &&& final(self).storage.state() == old(self).storage.state()
                    &&& match match_rows(&old(self).storage, patterns, condition) {
                        Some(Ok(m)) => r is Ok || old(self).storage.sound() ==> return_agrees(
                            m,
                            result,
                            status(r),
                            rows_of(r),
                        ),
                        Some(Err(f)) => r matches Err(e) && (e.kind() == f || e.kind()
                            == Failure::Storage),
                        None => true,
                    }
                },
                QueryView::Write(WriteView::Create { patterns }) => {
                    &&& r matches Ok(rows) ==> ({
                        let made = created_patterns(
                            &old(self).storage,
                            Seq::empty(),
                            patterns,
                            0,
                            Seq::empty(),
                        );
                        &&& made is Ok
                        &&& final(self).storage.state() == apply_ops(
                            old(self).storage.state(),
                            made->Ok_0.0,
                        )
                        &&& rows_view(rows@) == created_result(made->Ok_0.1)
                    })
                    &&& r matches Err(e) ==> created_patterns(
                        &old(self).storage,
                        Seq::empty(),
                        patterns,
                        0,
                        Seq::empty(),
                    ) == Err::<(Seq<WriteOpView>, RowView), Failure>(e.kind()) || (!old(self).storage.kv.reliable() && e.kind() == Failure::Storage)
                },
                QueryView::Write(WriteView::Delete { expressions, detach }) => {
                    &&& final(self).storage.state() == old(self).storage.state()
                    &&& expressions.len() == 0 ==> (r matches Ok(rows) && rows.len() == 0)
                    &&& expressions.len() > 0 ==> (r matches Err(e) && e.kind()
                        == Failure::InvalidExpression)
                },
                QueryView::Write(WriteView::Assign { items }) => {
                    &&& final(self).storage.state() == old(self).storage.state()
                    &&& r matches Err(e) && e.kind() == Failure::InvalidExpression
                },
                QueryView::Mixed { patterns, condition, write, result } => match match_rows(
                    &old(self).storage,
                    patterns,
                    condition,
                ) {
                    Some(Ok(m)) => {
                        &&& r matches Ok(rows) ==> {
                            &&& written(&old(self).storage, write, m, final(self).storage.state())
                            &&& match result {
                                Some(clause) => return_agrees(
                                    m,
                                    clause,
                                    Ok::<(), ExecutionError>(()),
                                    rows_view(rows@),
                                ),
                                None => rows.len() == 0,
                            }
                        }
                        &&& old(self).storage.sound() ==> {
                            &&& return_failure(m, result) matches Some(f) ==> r matches Err(e)
                                && e.kind() == f
                            &&& return_succeeds(m, result) ==> match write_effect(
                                &old(self).storage,
                                write,
                                m,
                            ) {
                                Some(Ok(_)) => r is Ok,
                                Some(Err(f)) => r matches Err(e) && (e.kind() == f || e.kind()
                                    == Failure::Storage),
                                None => true,
                            }
                        }
                    },
                    Some(Err(f)) => r matches Err(e) && (e.kind() == f || e.kind()
                        == Failure::Storage),
                    None => true,
                },
            },
    {
        match query {
            CypherQuery::Read { match_clause, where_clause, return_clause } => {
                let matched = {
                    let matcher = MatchExecutor::new(&self.storage, &self.floats);
                    matcher.execute(&match_clause, where_clause.as_ref())
                };
                let mut rows = match matched {
                    Ok(rows) => rows,
                    Err(e) => {
                        return Err(e);
                    },
                };
                match apply_return(&self.floats, &mut rows, &return_clause) {
                    Ok(()) => Ok(rows),
                    Err(e) => Err(e),
                }
            },
            CypherQuery::Write(write_clause) => match write_clause {
                WriteClause::Create { patterns } => CreateExecutor::execute(
                    &mut self.storage,
                    &patterns,
                ),
                WriteClause::Delete { expressions, detach } => {
                    match DeleteExecutor::execute(&expressions, detach) {
                        Ok(()) => Ok(Vec::new()),
                        Err(e) => Err(e),
                    }
                },
                WriteClause::Assign { items } => {
                    match SetExecutor::execute(&items) {
                        Ok(()) => Ok(Vec::new()),
                        Err(e) => Err(e),
                    }
                },
            },
            CypherQuery::Mixed { match_clause, where_clause, write_clause, return_clause } => {
                let matched = {
                    let matcher = MatchExecutor::new(&self.storage, &self.floats);
                    matcher.execute(&match_clause, where_clause.as_ref())
                };
                let rows = match matched {
                    Ok(rows) => rows,
                    Err(e) => {
                        return Err(e);
                    },
                };
                let results: Vec<Row> = match &return_clause {
                    Some(clause) => {
                        let mut out = crate::executor::query::copy_rows(&rows);
                        match apply_return(&self.floats, &mut out, clause) {
                            Ok(()) => out,
                            Err(e) => {
                                return Err(e);
                            },
                        }
                    },
                    None => Vec::new(),
                };
                match self.run_write(&write_clause, &rows) {
                    Ok(()) => Ok(results),
                    Err(e) => Err(e),
                }
            },
        }
    }

    /// Sorts rows by sort items; see [`apply_order_by`].
    pub fn apply_order_by(&self, rows: &mut Vec<Row>, sort_items: &Vec<SortItem>) -> (r: Result<
        (),
        ExecutionError,
    >)
        ensures
            r is Ok,
            final(rows)@.to_multiset() == old(rows)@.to_multiset(),
            final(rows).len() == old(rows).len(),
            sort_items.len() == 0 ==> final(rows)@ == old(rows)@,
            sort_items.len() > 0 && settled(rows_view(old(rows)@), sorts_view(sort_items@))
                ==> rows_view(final(rows)@) == sorted_pairs(
                rows_view(old(rows)@),
                rows_view(old(rows)@),
                sorts_view(sort_items@),
                old(rows).len() as int,
            ).1,
    {
        apply_order_by(&self.floats, rows, sort_items)
    }

    /// What RETURN makes of rows; see [`apply_return`].
    pub fn apply_return(&self, rows: &mut Vec<Row>, return_clause: &ReturnClause) -> (r: Result<
        (),
        ExecutionError,
    >)
        ensures
            return_agrees(rows_view(old(rows)@), return_clause@, r, rows_view(final(rows)@)),
            self.floats.exact() && any_aggregate(return_clause@.items) ==> match aggregated_with(
                &self.floats,
                return_clause@.items,
                rows_view(old(rows)@),
            ) {
                Ok(row) => r is Ok && rows_view(final(rows)@) == seq![row],
                Err(f) => r matches Err(e) && e.kind() == f,
            },
    {
        apply_return(&self.floats, rows, return_clause)
    }

    /// `COUNT`.
    pub fn aggregate_count(&self, args: &Vec<Expression>, rows: &Vec<Row>) -> (r: Result<
        RowValue,
        ExecutionError,
    >)
        ensures
            r is Ok && r->Ok_0@ == ValueView::Integer(
                count_outcome(exprs_view(args@), rows_view(rows@)) as i64,
            ),
    {
        aggregate_count(args, rows)
    }

    /// `SUM`.
    pub fn aggregate_sum(&self, args: &Vec<Expression>, rows: &Vec<Row>) -> (r: Result<
        RowValue,
        ExecutionError,
    >)
        ensures
            agrees(r, sum_outcome(exprs_view(args@), rows_view(rows@))),
            sum_outcome(exprs_view(args@), rows_view(rows@)) is Floats ==> float_result(r),
            self.floats.exact() ==> agrees(
                r,
                sum_with(&self.floats, exprs_view(args@), rows_view(rows@)),
            ),
    {
        aggregate_sum(&self.floats, args, rows)
    }

    /// `AVG`.
    pub fn aggregate_avg(&self, args: &Vec<Expression>, rows: &Vec<Row>) -> (r: Result<
        RowValue,
        ExecutionError,
    >)
        ensures
            agrees(r, avg_outcome(exprs_view(args@), rows_view(rows@))),
            avg_outcome(exprs_view(args@), rows_view(rows@)) is Floats ==> float_result(r),
            self.floats.exact() ==> agrees(
                r,
                mean_with(&self.floats, exprs_view(args@), rows_view(rows@)),
            ),
    {
        aggregate_avg(&self.floats, args, rows)
    }

    /// `MIN`.
    pub fn aggregate_min(&self, args: &Vec<Expression>, rows: &Vec<Row>) -> (r: Result<
        RowValue,
        ExecutionError,
    >)
        ensures
            agrees(r, extreme_outcome(exprs_view(args@), rows_view(rows@), Rank::Less)),
            extreme_outcome(exprs_view(args@), rows_view(rows@), Rank::Less) is Floats ==> r
                is Ok,
    {
        aggregate_min(&self.floats, args, rows)
    }

    /// `MAX`.
    pub fn aggregate_max(&self, args: &Vec<Expression>, rows: &Vec<Row>) -> (r: Result<
        RowValue,
        ExecutionError,
    >)
        ensures
            agrees(r, extreme_outcome(exprs_view(args@), rows_view(rows@), Rank::Greater)),
            extreme_outcome(exprs_view(args@), rows_view(rows@), Rank::Greater) is Floats ==> r
                is Ok,
    {
        aggregate_max(&self.floats, args, rows)
    }
}

/// A copy of a list of rows.
pub fn copy_rows(rows: &Vec<Row>) -> (r: Vec<Row>)
    ensures
        rows_view(r@) == rows_view(rows@),
{
    let mut out: Vec<Row> = Vec::new();
    let mut i: usize = 0;
    while i < rows.len()
        invariant
            0 <= i <= rows.len(),
            out.len() == i,
            forall|k: int| 0 <= k < i ==> out[k]@ == rows[k]@,
        decreases rows.len() - i,
    {
        out.push(rows[i].clone());
        i += 1;
    }
    assert(rows_view(out@) =~= rows_view(rows@));
    out
}

} // verus!
