//! The stages of RETURN put together: projection, then aggregation or
//! ordering, then the limit.

use crate::executor::aggregate::{
    aggregate_row, aggregate_stops, aggregated, aggregated_with, compute_aggregates,
};
use crate::executor::error::{ExecutionError, Failure};
use crate::executor::floats::FloatOps;
use crate::executor::ordering::{settled, sort_pairs, sorted_pairs, sorts_view};
use crate::executor::projection::{
    apply_limit, contains_aggregate, has_aggregate, limited, project_row, projected, RowView,
};
use crate::executor::value::{bind, rows_view, Row, RowValue};
use crate::parser::ast::{ReturnClause, ReturnItem, ReturnItemView, ReturnView, SortItem};
use vstd::prelude::*;

verus! {

/// Whether one of the return items holds an aggregate call.
pub open spec fn any_aggregate(items: Seq<ReturnItemView>) -> bool {
    exists|i: int| 0 <= i < items.len() && has_aggregate((#[trigger] items[i]).expression)
}

/// Whether one of the return items holds an aggregate call.
pub fn has_aggregates(items: &Vec<ReturnItem>) -> (r: bool)
    ensures
        r == any_aggregate(items@.map_values(|i: ReturnItem| i@)),
{
    let ghost all = items@.map_values(|i: ReturnItem| i@);
    let mut i: usize = 0;
    while i < items.len()
        invariant
            0 <= i <= items.len(),
            all == items@.map_values(|i: ReturnItem| i@),
            forall|k: int| 0 <= k < i ==> !has_aggregate((#[trigger] all[k]).expression),
        decreases items.len() - i,
    {
        if contains_aggregate(&items[i].expression) {
            assert(has_aggregate(all[i as int].expression));
            return true;
        }
        i += 1;
    }
    false
}

/// The projections of all `rows`, or the failure of the first row whose
/// projection fails.
pub open spec fn projected_rows(rows: Seq<RowView>, items: Seq<ReturnItemView>) -> Result<
    Seq<RowView>,
    Failure,
>
    decreases rows.len(),
{
    if rows.len() == 0 {
        Ok(Seq::empty())
    } else {
        match projected_rows(rows.drop_last(), items) {
            Err(f) => Err(f),
            Ok(front) => match projected(rows.last(), items) {
                Ok(p) => Ok(front.push(p)),
                Err(f) => Err(f),
            },
        }
    }
}

/// What fails on the first rows fails on all of them.
pub proof fn lemma_projected_rows_prefix(rows: Seq<RowView>, items: Seq<ReturnItemView>, k: int)
    requires
        0 <= k <= rows.len(),
        projected_rows(rows.subrange(0, k), items) is Err,
    ensures
        projected_rows(rows, items) == projected_rows(rows.subrange(0, k), items),
    decreases rows.len() - k,
{
    if k < rows.len() {
        assert(rows.subrange(0, k + 1).drop_last() =~= rows.subrange(0, k));
        lemma_projected_rows_prefix(rows, items, k + 1);
    } else {
        assert(rows.subrange(0, k) =~= rows);
    }
}

/// The projections of all rows.
pub fn project_rows(rows: &Vec<Row>, items: &Vec<ReturnItem>) -> (r: Result<
    Vec<Row>,
    ExecutionError,
>)
    ensures
        match projected_rows(rows_view(rows@), items@.map_values(|i: ReturnItem| i@)) {
            Ok(ps) => r matches Ok(x) && rows_view(x@) == ps && x.len() == rows.len(),
            Err(f) => r matches Err(e) && e.kind() == f,
        },
{
    let ghost all = rows_view(rows@);
    let ghost iv = items@.map_values(|i: ReturnItem| i@);
    let mut out: Vec<Row> = Vec::new();
    let mut i: usize = 0;
    assert(all.subrange(0, 0) =~= Seq::empty());
    assert(rows_view(out@) =~= Seq::empty());
    while i < rows.len()
        invariant
            0 <= i <= rows.len(),
            all == rows_view(rows@),
            iv == items@.map_values(|i: ReturnItem| i@),
            out.len() == i,
            projected_rows(all.subrange(0, i as int), iv) == Ok::<Seq<RowView>, Failure>(
                rows_view(out@),
            ),
        decreases rows.len() - i,
    {
        proof {
            let t = all.subrange(0, i as int + 1);
            assert(t.drop_last() =~= all.subrange(0, i as int));
            assert(t.last() == rows[i as int]@);
        }
        let ghost before = rows_view(out@);
        match project_row(&rows[i], items) {
            Ok(p) => {
                out.push(p);
                assert(rows_view(out@) =~= before.push(p@));
            },
            Err(e) => {
                proof {
                    lemma_projected_rows_prefix(all, iv, i as int + 1);
                }
                return Err(e);
            },
        }
        i += 1;
    }
    assert(all.subrange(0, i as int) =~= all);
    Ok(out)
}

/// The bindings of `source` with the first `n` bindings of `projected`
/// bound over them.
pub open spec fn overlaid(source: RowView, projected: RowView, n: int) -> RowView
    decreases n,
{
    if n <= 0 || n > projected.len() {
        source
    } else {
        bind(overlaid(source, projected, n - 1), projected[n - 1].0, projected[n - 1].1)
    }
}

/// The rows by which projected rows are sorted: for each, the bindings of
/// the row it was projected from, overlaid with its own, so that a sort item
/// can name an alias as well as a variable of the pattern.
pub open spec fn sort_keys(sources: Seq<RowView>, projected: Seq<RowView>) -> Seq<RowView> {
    Seq::new(
        projected.len(),
        |i: int|
            if 0 <= i < sources.len() && i < projected.len() {
                overlaid(sources[i], projected[i], projected[i].len() as int)
            } else {
                Seq::empty()
            },
    )
}

/// The row by which a projected row is sorted.
fn sort_row(source: &Row, projected: &Row) -> (r: Row)
    ensures
        r@ == overlaid(source@, projected@, projected@.len() as int),
{
    let mut out = source.clone();
    let mut i: usize = 0;
    while i < projected.bindings.len()
        invariant
            0 <= i <= projected.bindings.len(),
            projected@.len() == projected.bindings.len(),
            out@ == overlaid(source@, projected@, i as int),
        decreases projected.bindings.len() - i,
    {
        let f = &projected.bindings[i];
        assert(projected@[i as int] == f@);
        out.insert(f.key.as_str(), f.value.clone());
        i += 1;
    }
    out
}

/// Sorts `rows` by the sort items, stably: rows that compare equal keep
/// their order. The result holds the same rows; where every two rows
/// compare, it is the one stable sorting of them.
pub fn apply_order_by<F: FloatOps>(floats: &F, rows: &mut Vec<Row>, sort_items: &Vec<SortItem>) -> (r:
    Result<(), ExecutionError>)
    ensures
        r is Ok,
        final(rows)@.to_multiset() == old(rows)@.to_multiset(),
        final(rows).len() == old(rows).len(),
        sort_items.len() == 0 ==> final(rows)@ == old(rows)@,
        sort_items.len() > 0 && settled(rows_view(old(rows)@), sorts_view(sort_items@))
            ==> rows_view(final(rows)@) == sorted_pairs(
            rows_view(old(rows)@),
            rows_view(old(rows)@),
            sorts_view(sort_items@),
            old(rows).len() as int,
        ).1,
{
    if sort_items.len() == 0 {
        return Ok(());
    }
    let mut taken: Vec<Row> = Vec::new();
    std::mem::swap(rows, &mut taken);
    let mut keys: Vec<Row> = Vec::new();
    let mut i: usize = 0;
    while i < taken.len()
        invariant
            0 <= i <= taken.len(),
            keys.len() == i,
            forall|k: int| 0 <= k < i ==> (#[trigger] keys[k])@ == taken[k]@,
        decreases taken.len() - i,
    {
        keys.push(taken[i].clone());
        i += 1;
    }
    assert(rows_view(keys@) =~= rows_view(taken@));
    let (_, sorted) = sort_pairs(floats, keys, taken, sort_items);
    *rows = sorted;
    Ok(())
}

/// Sorts projected rows by keys that are looked up in the projected row
/// first and in the row it was projected from second.
fn order_projected<F: FloatOps>(
    floats: &F,
    sources: &Vec<Row>,
    projected: Vec<Row>,
    sort_items: &Vec<SortItem>,
) -> (r: Vec<Row>)
    requires
        sources.len() == projected.len(),
    ensures
        r@.to_multiset() == projected@.to_multiset(),
        r.len() == projected.len(),
        settled(sort_keys(rows_view(sources@), rows_view(projected@)), sorts_view(sort_items@))
            ==> rows_view(r@) == sorted_pairs(
            sort_keys(rows_view(sources@), rows_view(projected@)),
            rows_view(projected@),
            sorts_view(sort_items@),
            projected.len() as int,
        ).1,
{
    let mut keys: Vec<Row> = Vec::new();
    let mut i: usize = 0;
    while i < projected.len()
        invariant
            0 <= i <= projected.len(),
            sources.len() == projected.len(),
            keys.len() == i,
            forall|k: int|
                0 <= k < i ==> (#[trigger] keys[k])@ == overlaid(
                    sources[k]@,
                    projected[k]@,
                    projected[k]@.len() as int,
                ),
        decreases projected.len() - i,
    {
        keys.push(sort_row(&sources[i], &projected[i]));
        i += 1;
    }
    assert(rows_view(keys@) =~= sort_keys(rows_view(sources@), rows_view(projected@)));
    let (_, sorted) = sort_pairs(floats, keys, projected, sort_items);
    sorted
}

/// What RETURN makes of the rows `before`: the result `r` and the rows
/// `after`. With an aggregate among the items there is one row, which binds
/// the key of every item in turn to the item's aggregate, and to some value
/// where the caller's arithmetic decides it; the failure is that of the
/// first item that fails. Without, the rows are the projections of the rows, sorted
/// stably by their sort keys if there are sort items, and cut off behind the
/// limit. Where a number in text form is among what decides the order, the
/// rows are some rearrangement of the projections.
pub open spec fn return_agrees(
    before: Seq<RowView>,
    clause: ReturnView,
    r: Result<(), ExecutionError>,
    after: Seq<RowView>,
) -> bool {
    if any_aggregate(clause.items) {
        &&& match aggregated(clause.items, before) {
            Some(Ok(row)) => r is Ok && after == seq![row],
            Some(Err(f)) => r matches Err(e) && e.kind() == f,
            None => true,
        }
        &&& r is Ok ==> after.len() == 1 && aggregate_row(clause.items, before, after[0])
        &&& r matches Err(e) ==> aggregate_stops(clause.items, before, e.kind())
    } else {
        match projected_rows(before, clause.items) {
            Err(f) => r matches Err(e) && e.kind() == f,
            Ok(ps) => r is Ok && (match clause.order_by {
                None => after == limited(ps, clause.limit),
                Some(sorts) => if settled(sort_keys(before, ps), sorts) {
                    after == limited(
                        sorted_pairs(sort_keys(before, ps), ps, sorts, ps.len() as int).1,
                        clause.limit,
                    )
                } else {
                    exists|sorted: Seq<RowView>|
                        sorted.to_multiset() == ps.to_multiset() && after == limited(
                            sorted,
                            clause.limit,
                        )
                },
            }),
        }
    }
}

/// What RETURN makes of the rows of a query.
///
/// With an aggregate among the items the result is the single row of the
/// aggregates. Without, every row is projected on the items; the projected
/// rows are sorted by the sort items, if there are any, and cut off behind
/// the limit, if there is one that is not negative.
pub fn apply_return<F: FloatOps>(floats: &F, rows: &mut Vec<Row>, return_clause: &ReturnClause) -> (r:
    Result<(), ExecutionError>)
    ensures
        return_agrees(rows_view(old(rows)@), return_clause@, r, rows_view(final(rows)@)),
        floats.exact() && any_aggregate(return_clause@.items) ==> match aggregated_with(
            floats,
            return_clause@.items,
            rows_view(old(rows)@),
        ) {
            Ok(row) => r is Ok && rows_view(final(rows)@) == seq![row],
            Err(f) => r matches Err(e) && e.kind() == f,
        },
{
    if has_aggregates(&return_clause.items) {
        match compute_aggregates(floats, rows, &return_clause.items) {
            Ok(row) => {
                rows.clear();
                rows.push(row);
                assert(rows_view(rows@) =~= seq![row@]);
                Ok(())
            },
            Err(e) => Err(e),
        }
    } else {
        let projected = match project_rows(rows, &return_clause.items) {
            Ok(p) => p,
            Err(e) => {
                return Err(e);
            },
        };
        let ghost ps = rows_view(projected@);
        let mut result = match &return_clause.order_by {
            Some(sort_items) => {
                let sorted = order_projected(floats, rows, projected, sort_items);
                proof {
                    lemma_rows_multiset(sorted@, projected@);
                }
                sorted
            },
            None => projected,
        };
        let ghost unlimited = result@;
        apply_limit(&mut result, return_clause.limit);
        proof {
            lemma_limited_view(unlimited, return_clause.limit);
            assert(rows_view(result@) == limited(rows_view(unlimited), return_clause.limit));
            if return_clause@.order_by is Some {
                let sorted = rows_view(unlimited);
                assert(sorted.to_multiset() == ps.to_multiset() && rows_view(result@) == limited(
                    sorted,
                    return_clause@.limit,
                ));
                assert(return_clause@.order_by == Some(
                    sorts_view(return_clause.order_by.unwrap()@),
                ));
            }
        }
        *rows = result;
        Ok(())
    }
}

/// Rows that are a rearrangement of other rows have models that are a
/// rearrangement of the models.
pub proof fn lemma_rows_multiset(a: Seq<Row>, b: Seq<Row>)
    requires
        a.to_multiset() == b.to_multiset(),
    ensures
        rows_view(a).to_multiset() == rows_view(b).to_multiset(),
    decreases a.len(),
{
    broadcast use vstd::seq_lib::group_to_multiset_ensures;

    if a.len() == 0 {
        assert(b.len() == 0) by {
            if b.len() > 0 {
                assert(b.to_multiset().count(b[0]) > 0);
            }
        }
        assert(rows_view(a) =~= rows_view(b));
    } else {
        let x = a.last();
        assert(a.to_multiset().count(x) > 0) by {
            assert(a[a.len() - 1] == x);
        }
        assert(b.to_multiset().contains(x));
        let j = choose|j: int| 0 <= j < b.len() && b[j] == x;
        let a2 = a.drop_last();
        let b2 = b.remove(j);
        assert(a =~= a2.push(x));
        vstd::seq_lib::to_multiset_remove(b, j);
        assert(a2.to_multiset() =~= a.to_multiset().remove(x)) by {
            vstd::seq_lib::to_multiset_remove(a, a.len() - 1);
            assert(a.remove(a.len() - 1) =~= a2);
        }
        lemma_rows_multiset(a2, b2);
        assert(rows_view(a) =~= rows_view(a2).push(x@));
        assert(rows_view(b) =~= rows_view(b2).insert(j, x@));
        vstd::seq_lib::to_multiset_insert(rows_view(b2), j, x@);
    }
}

/// Cutting rows off and taking their models comes to the same as the other
/// way round.
pub proof fn lemma_limited_view(rows: Seq<Row>, limit: Option<i64>)
    ensures
        rows_view(limited(rows, limit)) == limited(rows_view(rows), limit),
{
    assert(rows_view(limited(rows, limit)) =~= limited(rows_view(rows), limit));
}

} // verus!
