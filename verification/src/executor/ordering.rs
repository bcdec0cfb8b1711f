//! How values and rows are ordered by ORDER BY, MIN and MAX.

use crate::bytes::{compare_bytes, lex_rank, Rank};
use crate::executor::error::ExecutionError;
use crate::executor::eval::{int_rank, int_text, integer_text, rank_integers, Outcome};
use crate::executor::floats::FloatOps;
use crate::executor::projection::{evaluate_row_expression, row_outcome, RowView};
use crate::executor::value::{rows_view, Row, RowValue, ValueView};
use crate::parser::ast::{SortItem, SortItemView};
use crate::text::{decimal_text, push_decimal_text};
use vstd::prelude::*;
use vstd::string::StringExecFns;
use vstd::utf8::encode_utf8;

verus! {

/// A printable form of a value, by which values of different types are
/// ordered: the name of the type, and for simple values their content.
pub open spec fn printable(v: ValueView) -> Seq<char> {
    match v {
        ValueView::Null => "Null"@,
        ValueView::Boolean(b) => if b {
            "Boolean(true)"@
        } else {
            "Boolean(false)"@
        },
        ValueView::Integer(i) => "Integer("@ + int_text(i) + ")"@,
        ValueView::Float(t) => "Float("@ + t + ")"@,
        ValueView::String(s) => "String("@ + s + ")"@,
        ValueView::List(_) => "List"@,
        ValueView::Mapping(_) => "Mapping"@,
        ValueView::Vertex(x) => "Vertex("@ + decimal_text(x.id as nat) + ")"@,
        ValueView::Edge(e) => "Edge("@ + decimal_text(e.id as nat) + ")"@,
        ValueView::Path(_) => "Path"@,
    }
}

/// The printable form of a value.
pub fn print_value(v: &RowValue) -> (r: String)
    ensures
        r@ == printable(v@),
{
    match v {
        RowValue::Null => "Null".to_owned(),
        RowValue::Boolean(b) => if *b {
            "Boolean(true)".to_owned()
        } else {
            "Boolean(false)".to_owned()
        },
        RowValue::Integer(i) => {
            let mut out = "Integer(".to_owned();
            out.append(integer_text(*i).as_str());
            out.append(")");
            out
        },
        RowValue::Float(t) => {
            let mut out = "Float(".to_owned();
            out.append(t.as_str());
            out.append(")");
            out
        },
        RowValue::String(s) => {
            let mut out = "String(".to_owned();
            out.append(s.as_str());
            out.append(")");
            out
        },
        RowValue::List(_) => "List".to_owned(),
        RowValue::Mapping(_) => "Mapping".to_owned(),
        RowValue::Vertex(x) => {
            let mut out = "Vertex(".to_owned();
            push_decimal_text(&mut out, x.id.as_raw());
            out.append(")");
            out
        },
        RowValue::Edge(e) => {
            let mut out = "Edge(".to_owned();
            push_decimal_text(&mut out, e.id.as_raw());
            out.append(")");
            out
        },
        RowValue::Path(_) => "Path".to_owned(),
    }
}

/// How two booleans compare: false comes first.
pub open spec fn bool_rank(a: bool, b: bool) -> Rank {
    if a == b {
        Rank::Equal
    } else if b {
        Rank::Less
    } else {
        Rank::Greater
    }
}

/// How two values compare when rows are sorted: null comes last, integers
/// go by value, strings by their bytes, booleans false first, and values of
/// different types by their printable form. Left open where a number in
/// text form meets a number.
pub open spec fn sort_rank(a: ValueView, b: ValueView) -> Option<Rank> {
    match (a, b) {
        (ValueView::Null, ValueView::Null) => Some(Rank::Equal),
        (ValueView::Null, _) => Some(Rank::Greater),
        (_, ValueView::Null) => Some(Rank::Less),
        (ValueView::Integer(x), ValueView::Integer(y)) => Some(int_rank(x as int, y as int)),
        (ValueView::Float(_), ValueView::Float(_)) => None,
        (ValueView::Integer(_), ValueView::Float(_)) => None,
        (ValueView::Float(_), ValueView::Integer(_)) => None,
        (ValueView::String(x), ValueView::String(y)) => Some(
            lex_rank(encode_utf8(x), encode_utf8(y)),
        ),
        (ValueView::Boolean(x), ValueView::Boolean(y)) => Some(bool_rank(x, y)),
        _ => Some(lex_rank(encode_utf8(printable(a)), encode_utf8(printable(b)))),
    }
}

/// How two values compare when rows are sorted under the arithmetic
/// `floats`, which says how two numbers compare of which one is in text
/// form; numbers that do not compare count as equal.
pub open spec fn sort_rank_with<F: FloatOps>(floats: &F, a: ValueView, b: ValueView) -> Rank {
    match sort_rank(a, b) {
        Some(r) => r,
        None => crate::executor::eval::float_rank(
            floats,
            crate::executor::eval::number_text(a),
            crate::executor::eval::number_text(b),
        ),
    }
}

/// How two values compare when rows are sorted.
pub fn compare_values<F: FloatOps>(floats: &F, left: &RowValue, right: &RowValue) -> (r: Rank)
    ensures
        sort_rank(left@, right@) matches Some(rank) ==> r == rank,
        floats.exact() ==> r == sort_rank_with(floats, left@, right@),
{
    match (left, right) {
        (RowValue::Null, RowValue::Null) => Rank::Equal,
        (RowValue::Null, _) => Rank::Greater,
        (_, RowValue::Null) => Rank::Less,
        (RowValue::Integer(a), RowValue::Integer(b)) => rank_integers(*a, *b),
        (RowValue::Float(a), RowValue::Float(b)) => match floats.compare(a.as_str(), b.as_str()) {
            Some(r) => r,
            None => Rank::Equal,
        },
        (RowValue::Integer(a), RowValue::Float(b)) => match floats.compare(
            integer_text(*a).as_str(),
            b.as_str(),
        ) {
            Some(r) => r,
            None => Rank::Equal,
        },
        (RowValue::Float(a), RowValue::Integer(b)) => match floats.compare(
            a.as_str(),
            integer_text(*b).as_str(),
        ) {
            Some(r) => r,
            None => Rank::Equal,
        },
        (RowValue::String(a), RowValue::String(b)) => compare_bytes(
            a.as_str().as_bytes(),
            b.as_str().as_bytes(),
        ),
        (RowValue::Boolean(a), RowValue::Boolean(b)) => {
            if *a == *b {
                Rank::Equal
            } else if *b {
                Rank::Less
            } else {
                Rank::Greater
            }
        },
        _ => {
            let a = print_value(left);
            let b = print_value(right);
            compare_bytes(a.as_str().as_bytes(), b.as_str().as_bytes())
        },
    }
}

/// How the sort keys of two rows compare under one sort item: a row whose
/// key cannot be evaluated comes last; a descending item turns the order
/// round.
pub open spec fn item_rank(a: RowView, b: RowView, item: SortItemView) -> Option<Rank> {
    let raw = match (row_outcome(item.expression, a), row_outcome(item.expression, b)) {
        (Outcome::Is(x), Outcome::Is(y)) => sort_rank(x, y),
        (Outcome::Is(_), _) => Some(Rank::Less),
        (_, Outcome::Is(_)) => Some(Rank::Greater),
        _ => Some(Rank::Equal),
    };
    match raw {
        Some(r) => Some(
            if item.ascending {
                r
            } else {
                r.spec_reverse()
            },
        ),
        None => None,
    }
}

/// How two rows compare under the sort items from `from` on: the first
/// item that tells them apart decides.
pub open spec fn row_rank(a: RowView, b: RowView, items: Seq<SortItemView>, from: int) -> Option<
    Rank,
>
    decreases items.len() - from,
{
    if from < 0 || from >= items.len() {
        Some(Rank::Equal)
    } else {
        match item_rank(a, b, items[from]) {
            None => None,
            Some(Rank::Equal) => row_rank(a, b, items, from + 1),
            Some(r) => Some(r),
        }
    }
}

/// The models of a list of sort items.
pub open spec fn sorts_view(items: Seq<SortItem>) -> Seq<SortItemView> {
    items.map_values(|i: SortItem| i@)
}

/// How two rows compare under the sort items.
pub fn compare_rows<F: FloatOps>(floats: &F, a: &Row, b: &Row, items: &Vec<SortItem>) -> (r: Rank)
    ensures
        row_rank(a@, b@, sorts_view(items@), 0) matches Some(rank) ==> r == rank,
{
    let ghost all = sorts_view(items@);
    let mut i: usize = 0;
    while i < items.len()
        invariant
            0 <= i <= items.len(),
            all == sorts_view(items@),
            row_rank(a@, b@, all, 0) is None || row_rank(a@, b@, all, 0) == row_rank(
                a@,
                b@,
                all,
                i as int,
            ),
        decreases items.len() - i,
    {
        let item = &items[i];
        assert(all[i as int] == item@);
        let va = evaluate_row_expression(&item.expression, a);
        let vb = evaluate_row_expression(&item.expression, b);
        let raw = match (&va, &vb) {
            (Ok(x), Ok(y)) => compare_values(floats, x, y),
            (Ok(_), Err(_)) => Rank::Less,
            (Err(_), Ok(_)) => Rank::Greater,
            (Err(_), Err(_)) => Rank::Equal,
        };
        let rank = if item.ascending {
            raw
        } else {
            raw.reverse()
        };
        match rank {
            Rank::Equal => {},
            _ => {
                return rank;
            },
        }
        i += 1;
    }
    Rank::Equal
}

/// Every two of the rows `keys` compare under the sort items: no number
/// in text form is among what decides.
pub open spec fn settled(keys: Seq<RowView>, items: Seq<SortItemView>) -> bool {
    forall|i: int, j: int|
        0 <= i < keys.len() && 0 <= j < keys.len() ==> (#[trigger] row_rank(
            keys[i],
            keys[j],
            items,
            0,
        )) is Some
}

/// Where `key` goes among the sorted rows `sorted`, looking down from `j`:
/// behind the last row that does not compare greater.
pub open spec fn insert_pos(sorted: Seq<RowView>, key: RowView, items: Seq<SortItemView>, j: int) -> int
    decreases j,
{
    if j <= 0 || j > sorted.len() {
        0
    } else if row_rank(sorted[j - 1], key, items, 0) == Some(Rank::Greater) {
        insert_pos(sorted, key, items, j - 1)
    } else {
        j
    }
}

/// The first `n` rows sorted by their keys, and the keys in that order. Each
/// row in turn goes behind the last row whose key does not compare greater
/// than its own, so rows with equal keys keep their order.
pub open spec fn sorted_pairs(keys: Seq<RowView>, rows: Seq<RowView>, items: Seq<SortItemView>, n: int) -> (
    Seq<RowView>,
    Seq<RowView>,
)
    decreases n,
{
    if n <= 0 || n > keys.len() || n > rows.len() {
        (Seq::empty(), Seq::empty())
    } else {
        let front = sorted_pairs(keys, rows, items, n - 1);
        let j = insert_pos(front.0, keys[n - 1], items, front.0.len() as int);
        (front.0.insert(j, keys[n - 1]), front.1.insert(j, rows[n - 1]))
    }
}

/// The sorted rows are as many as were sorted, and each sorted key is one of
/// the keys.
pub proof fn lemma_sorted_pairs_keys(keys: Seq<RowView>, rows: Seq<RowView>, items: Seq<SortItemView>, n: int)
    requires
        0 <= n <= keys.len(),
        keys.len() == rows.len(),
    ensures
        sorted_pairs(keys, rows, items, n).0.len() == n,
        sorted_pairs(keys, rows, items, n).1.len() == n,
        forall|i: int|
            0 <= i < n ==> exists|k: int|
                0 <= k < n && keys[k] == #[trigger] sorted_pairs(keys, rows, items, n).0[i]
                    && rows[k] == sorted_pairs(keys, rows, items, n).1[i],
    decreases n,
{
    if n > 0 {
        lemma_sorted_pairs_keys(keys, rows, items, n - 1);
        let front = sorted_pairs(keys, rows, items, n - 1);
        let j = insert_pos(front.0, keys[n - 1], items, n - 1);
        lemma_insert_pos_range(front.0, keys[n - 1], items, n - 1);
        let now = sorted_pairs(keys, rows, items, n);
        assert forall|i: int| 0 <= i < n implies exists|k: int|
            0 <= k < n && keys[k] == #[trigger] now.0[i] && rows[k] == now.1[i] by {
            if i < j {
                let k = choose|k: int|
                    0 <= k < n - 1 && keys[k] == front.0[i] && rows[k] == front.1[i];
                assert(keys[k] == now.0[i] && rows[k] == now.1[i]);
            } else if i == j {
                assert(keys[n - 1] == now.0[i] && rows[n - 1] == now.1[i]);
            } else {
                let k = choose|k: int|
                    0 <= k < n - 1 && keys[k] == front.0[i - 1] && rows[k] == front.1[i - 1];
                assert(keys[k] == now.0[i] && rows[k] == now.1[i]);
            }
        }
    }
}

/// The place of a key is among the sorted rows or right behind them; the
/// rows from there on compare greater, and the row before does not.
pub proof fn lemma_insert_pos_range(sorted: Seq<RowView>, key: RowView, items: Seq<SortItemView>, j: int)
    requires
        0 <= j <= sorted.len(),
    ensures
        0 <= insert_pos(sorted, key, items, j) <= j,
        forall|i: int|
            insert_pos(sorted, key, items, j) <= i < j ==> (#[trigger] row_rank(
                sorted[i],
                key,
                items,
                0,
            )) == Some(Rank::Greater),
        insert_pos(sorted, key, items, j) > 0 ==> row_rank(
            sorted[insert_pos(sorted, key, items, j) - 1],
            key,
            items,
            0,
        ) != Some(Rank::Greater),
    decreases j,
{
    if j > 0 && row_rank(sorted[j - 1], key, items, 0) == Some(Rank::Greater) {
        lemma_insert_pos_range(sorted, key, items, j - 1);
    }
}

/// A rank seen from the other side.
pub open spec fn turned(o: Option<Rank>) -> Option<Rank> {
    match o {
        Some(r) => Some(r.spec_reverse()),
        None => None,
    }
}

/// Two byte strings compared the other way round give the reversed rank.
pub proof fn lemma_lex_rank_turned(a: Seq<u8>, b: Seq<u8>)
    ensures
        lex_rank(b, a) == lex_rank(a, b).spec_reverse(),
{
    crate::bytes::lemma_lex_lt_asymmetric(a, b);
    crate::bytes::lemma_lex_lt_asymmetric(b, a);
    crate::bytes::lemma_lex_total(a, b);
}

/// Two values compared the other way round give the reversed rank.
pub proof fn lemma_sort_rank_turned(a: ValueView, b: ValueView)
    ensures
        sort_rank(b, a) == turned(sort_rank(a, b)),
{
    lemma_lex_rank_turned(encode_utf8(printable(a)), encode_utf8(printable(b)));
    match (a, b) {
        (ValueView::String(x), ValueView::String(y)) => {
            lemma_lex_rank_turned(encode_utf8(x), encode_utf8(y));
        },
        _ => {},
    }
}

/// Two rows compared the other way round give the reversed rank.
pub proof fn lemma_row_rank_turned(a: RowView, b: RowView, items: Seq<SortItemView>, from: int)
    ensures
        row_rank(b, a, items, from) == turned(row_rank(a, b, items, from)),
    decreases items.len() - from,
{
    if 0 <= from < items.len() {
        let item = items[from];
        match (row_outcome(item.expression, a), row_outcome(item.expression, b)) {
            (Outcome::Is(x), Outcome::Is(y)) => {
                lemma_sort_rank_turned(x, y);
            },
            _ => {},
        }
        assert(item_rank(b, a, item) == turned(item_rank(a, b, item)));
        lemma_row_rank_turned(a, b, items, from + 1);
    }
}

/// The row at `i` does not compare greater than the row behind it.
pub open spec fn steps_up(s: Seq<RowView>, items: Seq<SortItemView>, i: int) -> bool {
    row_rank(s[i], s[i + 1], items, 0) != Some(Rank::Greater)
}

/// No row compares greater than the row behind it.
pub open spec fn ascends(s: Seq<RowView>, items: Seq<SortItemView>) -> bool {
    forall|i: int| 0 <= i < s.len() - 1 ==> #[trigger] steps_up(s, items, i)
}

/// Putting a row in its place among ascending rows leaves them ascending.
proof fn lemma_insert_ascends(front: Seq<RowView>, key: RowView, items: Seq<SortItemView>)
    requires
        ascends(front, items),
    ensures
        ascends(
            front.insert(insert_pos(front, key, items, front.len() as int), key),
            items,
        ),
{
    let j = insert_pos(front, key, items, front.len() as int);
    lemma_insert_pos_range(front, key, items, front.len() as int);
    let now = front.insert(j, key);
    assert forall|i: int| 0 <= i < now.len() - 1 implies #[trigger] steps_up(now, items, i) by {
        if i + 1 < j {
            assert(now[i] == front[i] && now[i + 1] == front[i + 1]);
            assert(steps_up(front, items, i));
        } else if i + 1 == j {
            assert(now[i] == front[j - 1] && now[i + 1] == key);
        } else if i == j {
            assert(now[i] == key && now[i + 1] == front[j]);
            assert(row_rank(front[j], key, items, 0) == Some(Rank::Greater));
            lemma_row_rank_turned(front[j], key, items, 0);
        } else {
            assert(now[i] == front[i - 1] && now[i + 1] == front[i]);
            assert(steps_up(front, items, i - 1));
        }
    }
}

/// Sorted rows ascend: no row compares greater than the row behind it.
pub proof fn lemma_sorted_ascends(keys: Seq<RowView>, rows: Seq<RowView>, items: Seq<SortItemView>, n: int)
    requires
        0 <= n <= keys.len(),
        keys.len() == rows.len(),
    ensures
        ascends(sorted_pairs(keys, rows, items, n).0, items),
    decreases n,
{
    if n > 0 {
        lemma_sorted_ascends(keys, rows, items, n - 1);
        lemma_sorted_pairs_keys(keys, rows, items, n - 1);
        let front = sorted_pairs(keys, rows, items, n - 1).0;
        lemma_insert_ascends(front, keys[n - 1], items);
    }
}

/// How the rows at the positions `a` and `b` compare by their keys.
#[verifier::opaque]
pub open spec fn equal_keys(keys: Seq<RowView>, items: Seq<SortItemView>, a: int, b: int) -> Option<
    Rank,
> {
    row_rank(keys[a], keys[b], items, 0)
}

/// The order in which the first `n` rows stand when sorted: at each place
/// the position that the row had before.
pub open spec fn sorted_order(keys: Seq<RowView>, rows: Seq<RowView>, items: Seq<SortItemView>, n: int) -> Seq<
    int,
>
    decreases n,
{
    if n <= 0 || n > keys.len() || n > rows.len() {
        Seq::empty()
    } else {
        let front = sorted_pairs(keys, rows, items, n - 1).0;
        sorted_order(keys, rows, items, n - 1).insert(
            insert_pos(front, keys[n - 1], items, front.len() as int),
            n - 1,
        )
    }
}

/// Putting the newest position at the place `j` of an order keeps the
/// order a naming of positions, each once, and keeps it stable, where every
/// row from `j` on compares greater than the newest row. `rank` is how two
/// positions compare.
proof fn lemma_insert_stable(fo: Seq<int>, j: int, rank: spec_fn(int, int) -> Option<Rank>)
    requires
        0 <= j <= fo.len(),
        forall|x: int| 0 <= x < fo.len() ==> 0 <= (#[trigger] fo[x]) < fo.len(),
        forall|x: int, y: int|
            0 <= x < y < fo.len() ==> (#[trigger] fo[x]) != (#[trigger] fo[y]),
        forall|x: int, y: int|
            0 <= x < y < fo.len() && rank(#[trigger] fo[x], #[trigger] fo[y]) == Some(Rank::Equal)
                ==> fo[x] < fo[y],
        forall|x: int|
            j <= x < fo.len() ==> rank(fo.len() as int, #[trigger] fo[x]) != Some(Rank::Equal),
    ensures
        forall|x: int|
            0 <= x <= fo.len() ==> 0 <= (#[trigger] fo.insert(j, fo.len() as int)[x]) <= fo.len(),
        forall|x: int, y: int|
            0 <= x < y <= fo.len() ==> (#[trigger] fo.insert(j, fo.len() as int)[x]) != (
            #[trigger] fo.insert(j, fo.len() as int)[y]),
        forall|x: int, y: int|
            0 <= x < y <= fo.len() && rank(
                #[trigger] fo.insert(j, fo.len() as int)[x],
                #[trigger] fo.insert(j, fo.len() as int)[y],
            ) == Some(Rank::Equal) ==> fo.insert(j, fo.len() as int)[x] < fo.insert(
                j,
                fo.len() as int,
            )[y],
{
    let m = fo.len() as int;
    let now = fo.insert(j, m);
    assert forall|x: int| 0 <= x <= m implies 0 <= (#[trigger] now[x]) <= m by {
        if x < j {
            assert(now[x] == fo[x]);
        } else if x > j {
            assert(now[x] == fo[x - 1]);
        }
    }
    assert forall|x: int, y: int| 0 <= x < y <= m implies (#[trigger] now[x]) != (
    #[trigger] now[y]) by {
        let px = if x < j { x } else { x - 1 };
        let py = if y < j { y } else { y - 1 };
        if x != j && y != j {
            assert(now[x] == fo[px] && now[y] == fo[py]);
        } else if x == j {
            assert(now[y] == fo[py]);
        } else {
            assert(now[x] == fo[px]);
        }
    }
    assert forall|x: int, y: int|
        0 <= x < y <= m && rank(#[trigger] now[x], #[trigger] now[y]) == Some(
            Rank::Equal,
        ) implies now[x] < now[y] by {
        let px = if x < j { x } else { x - 1 };
        let py = if y < j { y } else { y - 1 };
        if x != j && y != j {
            assert(now[x] == fo[px] && now[y] == fo[py]);
        } else if x == j {
            assert(now[y] == fo[py]);
        } else {
            assert(now[x] == fo[px]);
        }
    }
}

/// The sorted rows are the rows in the order `sorted_order`.
pub proof fn lemma_sorted_named(keys: Seq<RowView>, rows: Seq<RowView>, items: Seq<SortItemView>, n: int)
    requires
        0 <= n <= keys.len(),
        keys.len() == rows.len(),
    ensures
        sorted_order(keys, rows, items, n).len() == n,
        forall|x: int|
            0 <= x < n ==> 0 <= (#[trigger] sorted_order(keys, rows, items, n)[x]) < n
                && sorted_pairs(keys, rows, items, n).0[x] == keys[sorted_order(
                keys,
                rows,
                items,
                n,
            )[x]] && sorted_pairs(keys, rows, items, n).1[x] == rows[sorted_order(
                keys,
                rows,
                items,
                n,
            )[x]],
    decreases n,
{
    if n > 0 {
        lemma_sorted_named(keys, rows, items, n - 1);
        lemma_sorted_pairs_keys(keys, rows, items, n - 1);
        let fo = sorted_order(keys, rows, items, n - 1);
        let fk = sorted_pairs(keys, rows, items, n - 1).0;
        let fr = sorted_pairs(keys, rows, items, n - 1).1;
        let j = insert_pos(fk, keys[n - 1], items, n - 1);
        lemma_insert_pos_range(fk, keys[n - 1], items, n - 1);
        let now = sorted_order(keys, rows, items, n);
        let sk = sorted_pairs(keys, rows, items, n).0;
        let sr = sorted_pairs(keys, rows, items, n).1;
        assert(now == fo.insert(j, n - 1));
        assert(sk == fk.insert(j, keys[n - 1]));
        assert(sr == fr.insert(j, rows[n - 1]));
        assert forall|x: int| 0 <= x < n implies 0 <= (#[trigger] now[x]) < n && sk[x] == keys[now[x]]
            && sr[x] == rows[now[x]] by {
            if x < j {
                assert(now[x] == fo[x]);
            } else if x > j {
                assert(now[x] == fo[x - 1]);
            }
        }
    }
}

/// Sorting is a stable rearrangement: `sorted_order` names every position
/// once, and of two rows whose keys compare equal the one that stood first
/// stands first.
pub proof fn lemma_sorted_stable(keys: Seq<RowView>, rows: Seq<RowView>, items: Seq<SortItemView>, n: int)
    requires
        0 <= n <= keys.len(),
        keys.len() == rows.len(),
    ensures
        sorted_order(keys, rows, items, n).len() == n,
        forall|x: int| 0 <= x < n ==> 0 <= (#[trigger] sorted_order(keys, rows, items, n)[x]) < n,
        forall|x: int, y: int|
            0 <= x < y < n ==> (#[trigger] sorted_order(keys, rows, items, n)[x]) != (
            #[trigger] sorted_order(keys, rows, items, n)[y]),
        forall|x: int, y: int|
            0 <= x < y < n && equal_keys(
                keys,
                items,
                #[trigger] sorted_order(keys, rows, items, n)[x],
                #[trigger] sorted_order(keys, rows, items, n)[y],
            ) == Some(Rank::Equal) ==> sorted_order(keys, rows, items, n)[x] < sorted_order(
                keys,
                rows,
                items,
                n,
            )[y],
    decreases n,
{
    if n > 0 {
        lemma_sorted_stable(keys, rows, items, n - 1);
        lemma_sorted_named(keys, rows, items, n - 1);
        lemma_sorted_pairs_keys(keys, rows, items, n - 1);
        let fo = sorted_order(keys, rows, items, n - 1);
        let fk = sorted_pairs(keys, rows, items, n - 1).0;
        let j = insert_pos(fk, keys[n - 1], items, n - 1);
        lemma_insert_pos_range(fk, keys[n - 1], items, n - 1);
        let rank = |a: int, b: int| equal_keys(keys, items, a, b);
        assert forall|x: int| j <= x < fo.len() implies rank(n - 1, #[trigger] fo[x]) != Some(
            Rank::Equal,
        ) by {
            reveal(equal_keys);
            assert(fk[x] == keys[fo[x]]);
            assert(row_rank(fk[x], keys[n - 1], items, 0) == Some(Rank::Greater));
            lemma_row_rank_turned(fk[x], keys[n - 1], items, 0);
        }
        assert forall|x: int, y: int|
            0 <= x < y < fo.len() && rank(#[trigger] fo[x], #[trigger] fo[y]) == Some(
                Rank::Equal,
            ) implies fo[x] < fo[y] by {
            assert(equal_keys(keys, items, fo[x], fo[y]) == Some(Rank::Equal));
        }
        lemma_insert_stable(fo, j, rank);
        let now = sorted_order(keys, rows, items, n);
        assert(now == fo.insert(j, n - 1));
        assert forall|x: int, y: int|
            0 <= x < y < n && equal_keys(keys, items, #[trigger] now[x], #[trigger] now[y])
                == Some(Rank::Equal) implies now[x] < now[y] by {
            assert(rank(now[x], now[y]) == Some(Rank::Equal));
        }
    }
}

/// The rows with their sort rows, sorted by insertion: each pair goes in
/// front of the pairs that compare greater, and stays behind those that
/// compare equal. The result holds the same pairs; where every two keys
/// compare, it is the one stable sorting of them.
pub fn sort_pairs<F: FloatOps>(floats: &F, keys: Vec<Row>, rows: Vec<Row>, items: &Vec<SortItem>) -> (r:
    (Vec<Row>, Vec<Row>))
    requires
        keys.len() == rows.len(),
    ensures
        r.0.len() == rows.len(),
        r.1.len() == rows.len(),
        r.1@.to_multiset() == rows@.to_multiset(),
        r.0@.to_multiset() == keys@.to_multiset(),
        settled(rows_view(keys@), sorts_view(items@)) ==> (rows_view(r.0@), rows_view(r.1@))
            == sorted_pairs(
            rows_view(keys@),
            rows_view(rows@),
            sorts_view(items@),
            keys.len() as int,
        ),
{
    let mut keys = keys;
    let mut rows = rows;
    let mut out_keys: Vec<Row> = Vec::new();
    let mut out_rows: Vec<Row> = Vec::new();
    let ghost all_keys = keys@;
    let ghost all_rows = rows@;
    let ghost kv = rows_view(keys@);
    let ghost rv = rows_view(rows@);
    let ghost sv = sorts_view(items@);
    let n = rows.len();
    let mut taken: usize = 0;
    proof {
        broadcast use vstd::seq_lib::group_to_multiset_ensures;

        assert(all_keys.subrange(0, 0) =~= Seq::empty());
        assert(all_rows.subrange(0, 0) =~= Seq::empty());
        assert(rows_view(out_keys@) =~= Seq::empty());
        assert(rows_view(out_rows@) =~= Seq::empty());
    }
    assert(all_keys.subrange(0, n as int) =~= all_keys);
    assert(all_rows.subrange(0, n as int) =~= all_rows);
    while taken < n
        invariant
            0 <= taken <= n,
            n == all_rows.len(),
            n == all_keys.len(),
            kv == rows_view(all_keys),
            rv == rows_view(all_rows),
            sv == sorts_view(items@),
            keys.len() == n - taken,
            rows.len() == n - taken,
            out_keys.len() == taken,
            out_rows.len() == taken,
            keys@ == all_keys.subrange(taken as int, n as int),
            rows@ == all_rows.subrange(taken as int, n as int),
            out_keys@.to_multiset() == all_keys.subrange(0, taken as int).to_multiset(),
            out_rows@.to_multiset() == all_rows.subrange(0, taken as int).to_multiset(),
            forall|i: int|
                0 <= i < taken ==> exists|k: int| 0 <= k < n && kv[k] == (#[trigger] out_keys[i])@,
            settled(kv, sv) ==> (rows_view(out_keys@), rows_view(out_rows@)) == sorted_pairs(
                kv,
                rv,
                sv,
                taken as int,
            ),
        decreases n - taken,
    {
        let ghost held_keys = out_keys@;
        let ghost held_rows = out_rows@;
        let ghost okv = rows_view(out_keys@);
        let ghost orv = rows_view(out_rows@);
        let key = keys.remove(0);
        let row = rows.remove(0);
        proof {
            assert(key == all_keys[taken as int]);
            assert(row == all_rows[taken as int]);
            assert(key@ == kv[taken as int]);
            assert(row@ == rv[taken as int]);
            assert(keys@ =~= all_keys.subrange(taken as int + 1, n as int));
            assert(rows@ =~= all_rows.subrange(taken as int + 1, n as int));
        }
        let mut j: usize = taken;
        let mut looking = true;
        while looking && j > 0
            invariant
                0 <= j <= taken,
                taken < n,
                n == kv.len(),
                out_keys.len() == taken,
                out_keys@ == held_keys,
                okv == rows_view(held_keys),
                key@ == kv[taken as int],
                sv == sorts_view(items@),
                forall|i: int|
                    0 <= i < taken ==> exists|k: int|
                        0 <= k < n && kv[k] == (#[trigger] out_keys[i])@,
                settled(kv, sv) ==> insert_pos(okv, key@, sv, taken as int) == insert_pos(
                    okv,
                    key@,
                    sv,
                    j as int,
                ),
                !looking && settled(kv, sv) ==> insert_pos(okv, key@, sv, j as int) == j,
            decreases j, (if looking { 1int } else { 0int }),
        {
            let rank = compare_rows(floats, &out_keys[j - 1], &key, items);
            proof {
                if settled(kv, sv) {
                    let k = choose|k: int| 0 <= k < n && kv[k] == out_keys[j - 1]@;
                    assert(row_rank(kv[k], kv[taken as int], sv, 0) is Some);
                    assert(okv[j - 1] == out_keys[j - 1]@);
                }
            }
            match rank {
                Rank::Greater => {
                    j -= 1;
                },
                _ => {
                    looking = false;
                },
            }
        }
        out_keys.insert(j, key);
        out_rows.insert(j, row);
        proof {
            broadcast use vstd::seq_lib::group_to_multiset_ensures;

            vstd::seq_lib::to_multiset_insert(held_keys, j as int, key);
            vstd::seq_lib::to_multiset_insert(held_rows, j as int, row);
            let pk = all_keys.subrange(0, taken as int);
            let pr = all_rows.subrange(0, taken as int);
            assert(all_keys.subrange(0, taken as int + 1) =~= pk.push(key));
            assert(all_rows.subrange(0, taken as int + 1) =~= pr.push(row));
            assert(rows_view(out_keys@) =~= okv.insert(j as int, key@));
            assert(rows_view(out_rows@) =~= orv.insert(j as int, row@));
            assert forall|i: int| 0 <= i < taken + 1 implies exists|k: int|
                0 <= k < n && kv[k] == (#[trigger] out_keys[i])@ by {
                if i < j {
                    assert(out_keys[i] == held_keys[i]);
                    let k = choose|k: int| 0 <= k < n && kv[k] == held_keys[i]@;
                    assert(kv[k] == out_keys[i]@);
                } else if i == j {
                    assert(kv[taken as int] == out_keys[i]@);
                } else {
                    assert(out_keys[i] == held_keys[i - 1]);
                    let k = choose|k: int| 0 <= k < n && kv[k] == held_keys[i - 1]@;
                    assert(kv[k] == out_keys[i]@);
                }
            }
            if settled(kv, sv) {
                assert(insert_pos(okv, key@, sv, taken as int) == j);
            }
        }
        taken += 1;
    }
    proof {
        assert(all_keys.subrange(0, n as int) =~= all_keys);
        assert(all_rows.subrange(0, n as int) =~= all_rows);
    }
    (out_keys, out_rows)
}

} // verus!
