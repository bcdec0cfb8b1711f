//! What the adjacency lists of a valid, tidy state hold: every stored edge
//! stands exactly once among the outgoing edges of its start and among the
//! incoming edges of its end, and those lists hold no other vertex's edges.

use crate::bytes::{has_prefix, lemma_lex_lt_asymmetric, lemma_lex_total, lex_lt};
use crate::json::JsonView;
use crate::storage::engine::{edge_at, edges_under, GraphStore};
use crate::storage::keys::{
    counter_key, edge_key, incoming_key, incoming_prefix, kind_of, label_key,
    lemma_index_key_injective, lemma_index_key_prefix, lemma_index_key_target, lemma_key_kinds,
    outgoing_key, outgoing_prefix, vertex_key, KIND_INCOMING, KIND_OUTGOING,
};
use crate::storage::kv::{
    apply_ops, ascending, is_scan, lemma_apply_ops_push, lemma_scan, KvState, KvStore, WriteOpView,
};
use crate::storage::laws::{
    allocated_state, graph_valid, lemma_edge_plan_state, lemma_vertex_plan_state,
    theorem_delete_edge,
};
use crate::storage::transaction::{allocate, edge_removal, plan_edge, plan_vertex};
use crate::types::edge::EdgeView;
use vstd::prelude::*;
use vstd::utf8::encode_utf8;

verus! {

/// Every key under the adjacency prefix of a vertex is the adjacency key
/// of some edge at that vertex.
pub open spec fn index_keys_ok(s: KvState, ns: Seq<u8>) -> bool {
    &&& forall|k: Seq<u8>, v: u64|
        s.contains_key(k) && #[trigger] has_prefix(k, outgoing_prefix(ns, v)) ==> exists|e: u64|
            k == outgoing_key(ns, v, e)
    &&& forall|k: Seq<u8>, v: u64|
        s.contains_key(k) && #[trigger] has_prefix(k, incoming_prefix(ns, v)) ==> exists|e: u64|
            k == incoming_key(ns, v, e)
}

/// A valid state without stray keys under the adjacency prefixes.
pub open spec fn graph_tidy(s: KvState, ns: Seq<u8>) -> bool {
    graph_valid(s, ns) && index_keys_ok(s, ns)
}

/// The list holds the edge `e` at exactly one place.
pub open spec fn listed_once(l: Option<Seq<EdgeView>>, e: EdgeView) -> bool {
    l matches Some(es) && exists|i: int|
        0 <= i < es.len() && #[trigger] es[i] == e && forall|j: int|
            0 <= j < es.len() && #[trigger] es[j] == e ==> j == i
}

/// A key under an adjacency prefix has the kind of that prefix.
proof fn lemma_prefix_kind(ns: Seq<u8>, k: Seq<u8>, v: u64)
    ensures
        has_prefix(k, outgoing_prefix(ns, v)) ==> k.len() > 0 && kind_of(k) == KIND_OUTGOING,
        has_prefix(k, incoming_prefix(ns, v)) ==> k.len() > 0 && kind_of(k) == KIND_INCOMING,
{
    let po = outgoing_prefix(ns, v);
    let pi = incoming_prefix(ns, v);
    assert(po.len() > 0 && po[0] == KIND_OUTGOING);
    assert(pi.len() > 0 && pi[0] == KIND_INCOMING);
    if has_prefix(k, po) {
        assert(k.subrange(0, po.len() as int)[0] == k[0]);
    }
    if has_prefix(k, pi) {
        assert(k.subrange(0, pi.len() as int)[0] == k[0]);
    }
}

/// Taking a key away leaves a state tidy.
pub proof fn lemma_tidy_remove(s: KvState, ns: Seq<u8>, key: Seq<u8>)
    requires
        index_keys_ok(s, ns),
    ensures
        index_keys_ok(s.remove(key), ns),
{
    let t = s.remove(key);
    assert forall|k: Seq<u8>, v: u64|
        t.contains_key(k) && #[trigger] has_prefix(k, outgoing_prefix(ns, v)) implies exists|e: u64|
        k == outgoing_key(ns, v, e) by {
        assert(s.contains_key(k));
    }
    assert forall|k: Seq<u8>, v: u64|
        t.contains_key(k) && #[trigger] has_prefix(k, incoming_prefix(ns, v)) implies exists|e: u64|
        k == incoming_key(ns, v, e) by {
        assert(s.contains_key(k));
    }
}

/// A key that is no adjacency key, or the adjacency key of an edge, leaves
/// a state tidy when it is put.
pub proof fn lemma_tidy_insert(s: KvState, ns: Seq<u8>, key: Seq<u8>, value: Seq<u8>)
    requires
        index_keys_ok(s, ns),
        (key.len() > 0 && kind_of(key) != KIND_OUTGOING && kind_of(key) != KIND_INCOMING) || (
        exists|a: u64, e: u64| key == outgoing_key(ns, a, e)) || (exists|a: u64, e: u64|
            key == incoming_key(ns, a, e)),
    ensures
        index_keys_ok(s.insert(key, value), ns),
{
    let t = s.insert(key, value);
    assert forall|k: Seq<u8>, v: u64|
        t.contains_key(k) && #[trigger] has_prefix(k, outgoing_prefix(ns, v)) implies exists|e: u64|
        k == outgoing_key(ns, v, e) by {
        lemma_prefix_kind(ns, k, v);
        if k == key {
            if exists|a: u64, e: u64| key == outgoing_key(ns, a, e) {
                let (a, e) = choose|a: u64, e: u64| key == outgoing_key(ns, a, e);
                lemma_index_key_prefix(ns, a, e, v);
                assert(k == outgoing_key(ns, v, e));
            } else if exists|a: u64, e: u64| key == incoming_key(ns, a, e) {
                let (a, e) = choose|a: u64, e: u64| key == incoming_key(ns, a, e);
                lemma_key_kinds(ns, a, e, Seq::empty());
            }
        } else {
            assert(s.contains_key(k));
        }
    }
    assert forall|k: Seq<u8>, v: u64|
        t.contains_key(k) && #[trigger] has_prefix(k, incoming_prefix(ns, v)) implies exists|e: u64|
        k == incoming_key(ns, v, e) by {
        lemma_prefix_kind(ns, k, v);
        if k == key {
            if exists|a: u64, e: u64| key == incoming_key(ns, a, e) {
                let (a, e) = choose|a: u64, e: u64| key == incoming_key(ns, a, e);
                lemma_index_key_prefix(ns, a, e, v);
                assert(k == incoming_key(ns, v, e));
            } else if exists|a: u64, e: u64| key == outgoing_key(ns, a, e) {
                let (a, e) = choose|a: u64, e: u64| key == outgoing_key(ns, a, e);
                lemma_key_kinds(ns, a, e, Seq::empty());
            }
        } else {
            assert(s.contains_key(k));
        }
    }
}

/// The writes of an allocation leave a state tidy.
proof fn lemma_tidy_allocated(s: KvState, fresh: nat, ns: Seq<u8>, label: Seq<char>)
    requires
        index_keys_ok(s, ns),
        allocate(s, fresh, ns, label) is Ok,
    ensures
        index_keys_ok(allocated_state(s, ns, label, allocate(s, fresh, ns, label)->Ok_0), ns),
{
    let a = allocate(s, fresh, ns, label)->Ok_0;
    let name = encode_utf8(label);
    lemma_key_kinds(ns, 0, 0, name);
    let with_label = if s.contains_key(label_key(ns, name)) {
        s
    } else {
        s.insert(label_key(ns, name), vstd::bytes::spec_u16_to_le_bytes(a.labid))
    };
    if !s.contains_key(label_key(ns, name)) {
        lemma_tidy_insert(s, ns, label_key(ns, name), vstd::bytes::spec_u16_to_le_bytes(a.labid));
    }
    lemma_tidy_insert(
        with_label,
        ns,
        counter_key(ns, name),
        vstd::bytes::spec_u64_to_le_bytes(a.locid),
    );
}

/// The empty store is tidy.
pub proof fn theorem_empty_tidy(ns: Seq<u8>)
    ensures
        index_keys_ok(Map::<Seq<u8>, Seq<u8>>::empty(), ns),
{
}

/// Creating a vertex leaves a tidy state tidy.
pub proof fn theorem_tidy_create_vertex(
    s: KvState,
    fresh: nat,
    ns: Seq<u8>,
    label: Seq<char>,
    properties: JsonView,
)
    requires
        index_keys_ok(s, ns),
        plan_vertex(true, s, fresh, ns, label, properties) is Ok,
    ensures
        index_keys_ok(
            apply_ops(s, plan_vertex(true, s, fresh, ns, label, properties)->Ok_0.1),
            ns,
        ),
{
    let p = plan_vertex(true, s, fresh, ns, label, properties)->Ok_0;
    lemma_vertex_plan_state(s, fresh, ns, label, properties);
    lemma_tidy_allocated(s, fresh, ns, label);
    lemma_key_kinds(ns, p.0.id, 0, Seq::empty());
    let a = allocate(s, fresh, ns, label)->Ok_0;
    lemma_tidy_insert(
        allocated_state(s, ns, label, a),
        ns,
        vertex_key(ns, p.0.id),
        crate::storage::codec::encode_vertex_spec(p.0).unwrap(),
    );
}

/// Creating an edge leaves a tidy state tidy.
pub proof fn theorem_tidy_create_edge(
    s: KvState,
    fresh: nat,
    ns: Seq<u8>,
    label: Seq<char>,
    start: u64,
    end: u64,
    properties: JsonView,
)
    requires
        index_keys_ok(s, ns),
        plan_edge(true, s, fresh, ns, label, start, end, properties) is Ok,
    ensures
        index_keys_ok(
            apply_ops(s, plan_edge(true, s, fresh, ns, label, start, end, properties)->Ok_0.1),
            ns,
        ),
{
    let p = plan_edge(true, s, fresh, ns, label, start, end, properties)->Ok_0;
    lemma_edge_plan_state(s, fresh, ns, label, start, end, properties);
    lemma_tidy_allocated(s, fresh, ns, label);
    lemma_key_kinds(ns, p.0.id, 0, Seq::empty());
    let a = allocate(s, fresh, ns, label)->Ok_0;
    let s1 = allocated_state(s, ns, label, a);
    let s2 = s1.insert(edge_key(ns, p.0.id), crate::storage::codec::encode_edge_spec(p.0).unwrap());
    lemma_tidy_insert(
        s1,
        ns,
        edge_key(ns, p.0.id),
        crate::storage::codec::encode_edge_spec(p.0).unwrap(),
    );
    let s3 = s2.insert(outgoing_key(ns, start, p.0.id), Seq::empty());
    lemma_tidy_insert(s2, ns, outgoing_key(ns, start, p.0.id), Seq::empty());
    lemma_tidy_insert(s3, ns, incoming_key(ns, end, p.0.id), Seq::empty());
}

/// Deleting an edge leaves a tidy state tidy.
pub proof fn theorem_tidy_delete_edge(s: KvState, ns: Seq<u8>, id: u64, e: EdgeView)
    requires
        index_keys_ok(s, ns),
    ensures
        index_keys_ok(apply_ops(s, edge_removal(ns, id, e)), ns),
{
    let rm = edge_removal(ns, id, e);
    let z = Seq::<WriteOpView>::empty();
    assert(apply_ops(s, z) == s);
    assert(rm =~= z.push(rm[0]).push(rm[1]).push(rm[2]));
    lemma_apply_ops_push(s, z, rm[0]);
    lemma_apply_ops_push(s, z.push(rm[0]), rm[1]);
    lemma_apply_ops_push(s, z.push(rm[0]).push(rm[1]), rm[2]);
    let ek = edge_key(ns, id);
    let ok = outgoing_key(ns, e.start, id);
    let ik = incoming_key(ns, e.end, id);
    assert(apply_ops(s, rm) == s.remove(ek).remove(ok).remove(ik));
    lemma_tidy_remove(s, ns, ek);
    lemma_tidy_remove(s.remove(ek), ns, ok);
    lemma_tidy_remove(s.remove(ek).remove(ok), ns, ik);
}

/// Deleting a vertex leaves a tidy state tidy.
pub proof fn theorem_tidy_delete_vertex(s: KvState, ns: Seq<u8>, id: u64)
    requires
        index_keys_ok(s, ns),
    ensures
        index_keys_ok(s.remove(vertex_key(ns, id)), ns),
{
    lemma_tidy_remove(s, ns, vertex_key(ns, id));
}

/// The entries `sc`, each the outgoing entry of some edge at `v`, lead to
/// as many edges, each stored under the identifier that its entry names and
/// each starting at `v`.
proof fn lemma_outgoing_listed(s: KvState, ns: Seq<u8>, v: u64, sc: Seq<(Seq<u8>, Seq<u8>)>)
    requires
        graph_valid(s, ns),
        forall|i: int|
            0 <= i < sc.len() ==> s.contains_key(#[trigger] sc[i].0) && exists|e: u64|
                sc[i].0 == outgoing_key(ns, v, e),
    ensures
        edges_under(s, ns, outgoing_prefix(ns, v), sc) is Some,
        edges_under(s, ns, outgoing_prefix(ns, v), sc).unwrap().len() == sc.len(),
        forall|i: int|
            0 <= i < sc.len() ==> sc[i].0 == outgoing_key(
                ns,
                v,
                (#[trigger] edges_under(s, ns, outgoing_prefix(ns, v), sc).unwrap()[i]).id,
            ) && edge_at(
                s,
                ns,
                edges_under(s, ns, outgoing_prefix(ns, v), sc).unwrap()[i].id,
            ) == Some(edges_under(s, ns, outgoing_prefix(ns, v), sc).unwrap()[i]) && edges_under(
                s,
                ns,
                outgoing_prefix(ns, v),
                sc,
            ).unwrap()[i].start == v,
    decreases sc.len(),
{
    if sc.len() > 0 {
        let front = sc.drop_last();
        assert forall|i: int| 0 <= i < front.len() implies s.contains_key(#[trigger] front[i].0)
            && exists|e: u64| front[i].0 == outgoing_key(ns, v, e) by {
            assert(front[i] == sc[i]);
        }
        lemma_outgoing_listed(s, ns, v, front);
        let k = sc.last().0;
        assert(k == sc[sc.len() - 1].0);
        let e = choose|e: u64| k == outgoing_key(ns, v, e);
        lemma_index_key_target(ns, v, e);
        assert(s.contains_key(outgoing_key(ns, v, e)));
        assert(edge_at(s, ns, e) is Some && edge_at(s, ns, e).unwrap().start == v);
        assert(s.contains_key(edge_key(ns, e)));
        assert(edge_at(s, ns, e).unwrap().id == e);
        let fl = edges_under(s, ns, outgoing_prefix(ns, v), front).unwrap();
        let l = edges_under(s, ns, outgoing_prefix(ns, v), sc).unwrap();
        assert(l == fl.push(edge_at(s, ns, e).unwrap()));
        assert forall|i: int| 0 <= i < sc.len() implies sc[i].0 == outgoing_key(
            ns,
            v,
            (#[trigger] l[i]).id,
        ) && edge_at(s, ns, l[i].id) == Some(l[i]) && l[i].start == v by {
            if i < front.len() {
                assert(l[i] == fl[i]);
                assert(front[i] == sc[i]);
            }
        }
    }
}

/// The entries `sc`, each the incoming entry of some edge at `v`, lead to
/// as many edges, each stored under the identifier that its entry names and
/// each ending at `v`.
proof fn lemma_incoming_listed(s: KvState, ns: Seq<u8>, v: u64, sc: Seq<(Seq<u8>, Seq<u8>)>)
    requires
        graph_valid(s, ns),
        forall|i: int|
            0 <= i < sc.len() ==> s.contains_key(#[trigger] sc[i].0) && exists|e: u64|
                sc[i].0 == incoming_key(ns, v, e),
    ensures
        edges_under(s, ns, incoming_prefix(ns, v), sc) is Some,
        edges_under(s, ns, incoming_prefix(ns, v), sc).unwrap().len() == sc.len(),
        forall|i: int|
            0 <= i < sc.len() ==> sc[i].0 == incoming_key(
                ns,
                v,
                (#[trigger] edges_under(s, ns, incoming_prefix(ns, v), sc).unwrap()[i]).id,
            ) && edge_at(
                s,
                ns,
                edges_under(s, ns, incoming_prefix(ns, v), sc).unwrap()[i].id,
            ) == Some(edges_under(s, ns, incoming_prefix(ns, v), sc).unwrap()[i]) && edges_under(
                s,
                ns,
                incoming_prefix(ns, v),
                sc,
            ).unwrap()[i].end == v,
    decreases sc.len(),
{
    if sc.len() > 0 {
        let front = sc.drop_last();
        assert forall|i: int| 0 <= i < front.len() implies s.contains_key(#[trigger] front[i].0)
            && exists|e: u64| front[i].0 == incoming_key(ns, v, e) by {
            assert(front[i] == sc[i]);
        }
        lemma_incoming_listed(s, ns, v, front);
        let k = sc.last().0;
        assert(k == sc[sc.len() - 1].0);
        let e = choose|e: u64| k == incoming_key(ns, v, e);
        lemma_index_key_target(ns, v, e);
        assert(s.contains_key(incoming_key(ns, v, e)));
        assert(edge_at(s, ns, e) is Some && edge_at(s, ns, e).unwrap().end == v);
        assert(s.contains_key(edge_key(ns, e)));
        assert(edge_at(s, ns, e).unwrap().id == e);
        let fl = edges_under(s, ns, incoming_prefix(ns, v), front).unwrap();
        let l = edges_under(s, ns, incoming_prefix(ns, v), sc).unwrap();
        assert(l == fl.push(edge_at(s, ns, e).unwrap()));
        assert forall|i: int| 0 <= i < sc.len() implies sc[i].0 == incoming_key(
            ns,
            v,
            (#[trigger] l[i]).id,
        ) && edge_at(s, ns, l[i].id) == Some(l[i]) && l[i].end == v by {
            if i < front.len() {
                assert(l[i] == fl[i]);
                assert(front[i] == sc[i]);
            }
        }
    }
}

/// In a tidy state, reading the outgoing edges of the start of a stored
/// edge gives a list that holds the edge exactly once, and every edge of the
/// list starts there.
pub proof fn theorem_outgoing_list<K: KvStore>(store: &GraphStore<K>, id: u64)
    requires
        store.inv(),
        graph_tidy(store.state(), store.ns()),
        store.state().contains_key(edge_key(store.ns(), id)),
    ensures
        edge_at(store.state(), store.ns(), id) is Some,
        listed_once(
            store.outgoing_read(edge_at(store.state(), store.ns(), id).unwrap().start),
            edge_at(store.state(), store.ns(), id).unwrap(),
        ),
        forall|j: int|
            0 <= j < store.outgoing_read(
                edge_at(store.state(), store.ns(), id).unwrap().start,
            ).unwrap().len() ==> (#[trigger] store.outgoing_read(
                edge_at(store.state(), store.ns(), id).unwrap().start,
            ).unwrap()[j]).start == edge_at(store.state(), store.ns(), id).unwrap().start,
{
    let s = store.state();
    let ns = store.ns();
    let e = edge_at(s, ns, id).unwrap();
    let v = e.start;
    let prefix = outgoing_prefix(ns, v);
    let sc = store.kv.scan_spec(prefix);
    lemma_scan(&store.kv, prefix);
    assert forall|i: int| 0 <= i < sc.len() implies s.contains_key(#[trigger] sc[i].0) && exists|
        x: u64,
    |
        sc[i].0 == outgoing_key(ns, v, x) by {
        assert(has_prefix(sc[i].0, outgoing_prefix(ns, v)));
    }
    lemma_outgoing_listed(s, ns, v, sc);
    let l = edges_under(s, ns, prefix, sc).unwrap();
    let key = outgoing_key(ns, v, id);
    assert(s.contains_key(key));
    lemma_index_key_prefix(ns, v, id, v);
    let i = choose|i: int| 0 <= i < sc.len() && sc[i].0 == key;
    lemma_index_key_injective(ns, v, l[i].id, v, id);
    assert(l[i] == e);
    assert forall|j: int| 0 <= j < l.len() && #[trigger] l[j] == e implies j == i by {
        assert(sc[j].0 == outgoing_key(ns, v, l[j].id));
        if j < i {
            lemma_lex_lt_asymmetric(sc[j].0, sc[i].0);
        } else if i < j {
            lemma_lex_lt_asymmetric(sc[i].0, sc[j].0);
        }
    }
}

/// In a tidy state, reading the incoming edges of the end of a stored edge
/// gives a list that holds the edge exactly once, and every edge of the list
/// ends there.
pub proof fn theorem_incoming_list<K: KvStore>(store: &GraphStore<K>, id: u64)
    requires
        store.inv(),
        graph_tidy(store.state(), store.ns()),
        store.state().contains_key(edge_key(store.ns(), id)),
    ensures
        edge_at(store.state(), store.ns(), id) is Some,
        listed_once(
            store.incoming_read(edge_at(store.state(), store.ns(), id).unwrap().end),
            edge_at(store.state(), store.ns(), id).unwrap(),
        ),
        forall|j: int|
            0 <= j < store.incoming_read(
                edge_at(store.state(), store.ns(), id).unwrap().end,
            ).unwrap().len() ==> (#[trigger] store.incoming_read(
                edge_at(store.state(), store.ns(), id).unwrap().end,
            ).unwrap()[j]).end == edge_at(store.state(), store.ns(), id).unwrap().end,
{
    let s = store.state();
    let ns = store.ns();
    let e = edge_at(s, ns, id).unwrap();
    let v = e.end;
    let prefix = incoming_prefix(ns, v);
    let sc = store.kv.scan_spec(prefix);
    lemma_scan(&store.kv, prefix);
    assert forall|i: int| 0 <= i < sc.len() implies s.contains_key(#[trigger] sc[i].0) && exists|
        x: u64,
    |
        sc[i].0 == incoming_key(ns, v, x) by {
        assert(has_prefix(sc[i].0, incoming_prefix(ns, v)));
    }
    lemma_incoming_listed(s, ns, v, sc);
    let l = edges_under(s, ns, prefix, sc).unwrap();
    let key = incoming_key(ns, v, id);
    assert(s.contains_key(key));
    lemma_index_key_prefix(ns, v, id, v);
    let i = choose|i: int| 0 <= i < sc.len() && sc[i].0 == key;
    lemma_index_key_injective(ns, v, l[i].id, v, id);
    assert(l[i] == e);
    assert forall|j: int| 0 <= j < l.len() && #[trigger] l[j] == e implies j == i by {
        assert(sc[j].0 == incoming_key(ns, v, l[j].id));
        if j < i {
            lemma_lex_lt_asymmetric(sc[j].0, sc[i].0);
        } else if i < j {
            lemma_lex_lt_asymmetric(sc[i].0, sc[j].0);
        }
    }
}

/// Without the key of one of its entries, a state has the scan without
/// that entry.
pub proof fn lemma_scan_remove(
    st: KvState,
    prefix: Seq<u8>,
    sc: Seq<(Seq<u8>, Seq<u8>)>,
    i: int,
)
    requires
        is_scan(st, prefix, sc),
        0 <= i < sc.len(),
    ensures
        is_scan(st.remove(sc[i].0), prefix, sc.remove(i)),
{
    let k = sc[i].0;
    let t = st.remove(k);
    let rest = sc.remove(i);
    assert forall|x: int| 0 <= x < rest.len() implies has_prefix(#[trigger] rest[x].0, prefix)
        && t.contains_key(rest[x].0) && t[rest[x].0] == rest[x].1 by {
        let y = if x < i { x } else { x + 1 };
        assert(rest[x] == sc[y]);
        if y < i {
            lemma_lex_lt_asymmetric(sc[y].0, sc[i].0);
        } else {
            lemma_lex_lt_asymmetric(sc[i].0, sc[y].0);
        }
    }
    assert forall|x: int, y: int| 0 <= x < y < rest.len() implies lex_lt(rest[x].0, rest[y].0) by {
        let a = if x < i { x } else { x + 1 };
        let b = if y < i { y } else { y + 1 };
        assert(rest[x] == sc[a] && rest[y] == sc[b]);
    }
    assert forall|key: Seq<u8>| #[trigger]
        t.contains_key(key) && has_prefix(key, prefix) implies exists|x: int|
        0 <= x < rest.len() && rest[x].0 == key by {
        assert(st.contains_key(key));
        let y = choose|y: int| 0 <= y < sc.len() && sc[y].0 == key;
        let x = if y < i { y } else { y - 1 };
        assert(rest[x] == sc[y]);
    }
}

/// Without a key that is not under the prefix, a state has the same scan.
pub proof fn lemma_scan_keeps(
    st: KvState,
    prefix: Seq<u8>,
    sc: Seq<(Seq<u8>, Seq<u8>)>,
    key: Seq<u8>,
)
    requires
        is_scan(st, prefix, sc),
        !has_prefix(key, prefix),
    ensures
        is_scan(st.remove(key), prefix, sc),
{
    let t = st.remove(key);
    assert forall|k: Seq<u8>| #[trigger] t.contains_key(k) && has_prefix(k, prefix) implies exists|
        x: int,
    |
        0 <= x < sc.len() && sc[x].0 == k by {
        assert(st.contains_key(k));
    }
}

/// A state has one scan under a prefix.
pub proof fn lemma_scan_unique(
    st: KvState,
    prefix: Seq<u8>,
    a: Seq<(Seq<u8>, Seq<u8>)>,
    b: Seq<(Seq<u8>, Seq<u8>)>,
)
    requires
        is_scan(st, prefix, a),
        is_scan(st, prefix, b),
    ensures
        a == b,
    decreases a.len(),
{
    if a.len() == 0 {
        if b.len() > 0 {
            assert(st.contains_key(b[0].0) && has_prefix(b[0].0, prefix));
        }
        assert(a =~= b);
    } else {
        let la = a.len() - 1;
        assert(st.contains_key(a[la].0) && has_prefix(a[la].0, prefix));
        let j = choose|j: int| 0 <= j < b.len() && b[j].0 == a[la].0;
        let lb = b.len() - 1;
        assert(st.contains_key(b[lb].0) && has_prefix(b[lb].0, prefix));
        let i = choose|i: int| 0 <= i < a.len() && a[i].0 == b[lb].0;
        if a[la].0 != b[lb].0 {
            assert(i < la);
            assert(j < lb);
            assert(lex_lt(a[i].0, a[la].0));
            assert(lex_lt(b[j].0, b[lb].0));
            lemma_lex_lt_asymmetric(a[la].0, b[lb].0);
        }
        assert(a[la] == b[lb]);
        lemma_scan_remove(st, prefix, a, la);
        lemma_scan_remove(st, prefix, b, lb);
        assert(a.remove(la) =~= a.drop_last());
        assert(b.remove(lb) =~= b.drop_last());
        lemma_scan_unique(st.remove(a[la].0), prefix, a.drop_last(), b.drop_last());
        assert(a =~= a.drop_last().push(a[la]));
        assert(b =~= b.drop_last().push(b[lb]));
    }
}

/// The list `after` is the list `before` without the edge `e`, which stood
/// in it once; the other edges keep their order.
pub open spec fn list_without(before: Option<Seq<EdgeView>>, after: Option<Seq<EdgeView>>, e: EdgeView) -> bool {
    before matches Some(old) && after matches Some(new) && exists|i: int|
        0 <= i < old.len() && #[trigger] old[i] == e && new == old.remove(i)
}

/// After an edge is deleted, the scan under the outgoing prefix of its start
/// is the scan before without the edge's entry.
proof fn lemma_outgoing_scan_without(
    s: KvState,
    ns: Seq<u8>,
    id: u64,
    e: EdgeView,
    sc: Seq<(Seq<u8>, Seq<u8>)>,
    sc2: Seq<(Seq<u8>, Seq<u8>)>,
)
    requires
        s.contains_key(outgoing_key(ns, e.start, id)),
        is_scan(s, outgoing_prefix(ns, e.start), sc),
        is_scan(apply_ops(s, edge_removal(ns, id, e)), outgoing_prefix(ns, e.start), sc2),
    ensures
        exists|i: int|
            0 <= i < sc.len() && (#[trigger] sc[i]).0 == outgoing_key(ns, e.start, id) && sc2
                == sc.remove(i),
{
    let v = e.start;
    let prefix = outgoing_prefix(ns, v);
    let t = apply_ops(s, edge_removal(ns, id, e));
    let ek = edge_key(ns, id);
    let ok = outgoing_key(ns, e.start, id);
    let ik = incoming_key(ns, e.end, id);
    lemma_removed_state(s, ns, id, e);
    lemma_key_kinds(ns, id, 0, Seq::empty());
    lemma_key_kinds(ns, e.start, id, Seq::empty());
    lemma_key_kinds(ns, e.end, id, Seq::empty());
    lemma_prefix_kind(ns, ek, v);
    lemma_prefix_kind(ns, ik, v);
    lemma_index_key_prefix(ns, v, id, v);
    let i = choose|i: int| 0 <= i < sc.len() && sc[i].0 == ok;
    lemma_scan_keeps(s, prefix, sc, ek);
    lemma_scan_remove(s.remove(ek), prefix, sc, i);
    lemma_scan_keeps(s.remove(ek).remove(ok), prefix, sc.remove(i), ik);
    lemma_scan_unique(t, prefix, sc2, sc.remove(i));
    assert(sc[i].0 == outgoing_key(ns, e.start, id) && sc2 == sc.remove(i));
}

/// After an edge is deleted, the scan under the incoming prefix of its end
/// is the scan before without the edge's entry.
proof fn lemma_incoming_scan_without(
    s: KvState,
    ns: Seq<u8>,
    id: u64,
    e: EdgeView,
    sc: Seq<(Seq<u8>, Seq<u8>)>,
    sc2: Seq<(Seq<u8>, Seq<u8>)>,
)
    requires
        s.contains_key(incoming_key(ns, e.end, id)),
        is_scan(s, incoming_prefix(ns, e.end), sc),
        is_scan(apply_ops(s, edge_removal(ns, id, e)), incoming_prefix(ns, e.end), sc2),
    ensures
        exists|i: int|
            0 <= i < sc.len() && (#[trigger] sc[i]).0 == incoming_key(ns, e.end, id) && sc2
                == sc.remove(i),
{
    let v = e.end;
    let prefix = incoming_prefix(ns, v);
    let t = apply_ops(s, edge_removal(ns, id, e));
    let ek = edge_key(ns, id);
    let ok = outgoing_key(ns, e.start, id);
    let ik = incoming_key(ns, e.end, id);
    lemma_removed_state(s, ns, id, e);
    lemma_key_kinds(ns, id, 0, Seq::empty());
    lemma_key_kinds(ns, e.start, id, Seq::empty());
    lemma_key_kinds(ns, e.end, id, Seq::empty());
    lemma_prefix_kind(ns, ek, v);
    lemma_prefix_kind(ns, ok, v);
    lemma_index_key_prefix(ns, v, id, v);
    let i = choose|i: int| 0 <= i < sc.len() && sc[i].0 == ik;
    lemma_scan_keeps(s, prefix, sc, ek);
    lemma_scan_keeps(s.remove(ek), prefix, sc, ok);
    lemma_scan_remove(s.remove(ek).remove(ok), prefix, sc, i);
    lemma_scan_unique(t, prefix, sc2, sc.remove(i));
    assert(sc[i].0 == incoming_key(ns, e.end, id) && sc2 == sc.remove(i));
}

/// In a tidy state the entries of the scan under the outgoing prefix of
/// `v` lead to as many edges, each stored under the identifier that its
/// entry names.
proof fn lemma_outgoing_read_listed(s: KvState, ns: Seq<u8>, v: u64, sc: Seq<(Seq<u8>, Seq<u8>)>)
    requires
        graph_tidy(s, ns),
        is_scan(s, outgoing_prefix(ns, v), sc),
    ensures
        edges_under(s, ns, outgoing_prefix(ns, v), sc) is Some,
        edges_under(s, ns, outgoing_prefix(ns, v), sc).unwrap().len() == sc.len(),
        forall|i: int|
            0 <= i < sc.len() ==> sc[i].0 == outgoing_key(
                ns,
                v,
                (#[trigger] edges_under(s, ns, outgoing_prefix(ns, v), sc).unwrap()[i]).id,
            ) && edge_at(
                s,
                ns,
                edges_under(s, ns, outgoing_prefix(ns, v), sc).unwrap()[i].id,
            ) == Some(edges_under(s, ns, outgoing_prefix(ns, v), sc).unwrap()[i]),
{
    assert forall|x: int| 0 <= x < sc.len() implies s.contains_key(#[trigger] sc[x].0) && exists|
        y: u64,
    |
        sc[x].0 == outgoing_key(ns, v, y) by {
        assert(has_prefix(sc[x].0, outgoing_prefix(ns, v)));
    }
    lemma_outgoing_listed(s, ns, v, sc);
}

/// In a tidy state the entries of the scan under the incoming prefix of
/// `v` lead to as many edges, each stored under the identifier that its
/// entry names.
proof fn lemma_incoming_read_listed(s: KvState, ns: Seq<u8>, v: u64, sc: Seq<(Seq<u8>, Seq<u8>)>)
    requires
        graph_tidy(s, ns),
        is_scan(s, incoming_prefix(ns, v), sc),
    ensures
        edges_under(s, ns, incoming_prefix(ns, v), sc) is Some,
        edges_under(s, ns, incoming_prefix(ns, v), sc).unwrap().len() == sc.len(),
        forall|i: int|
            0 <= i < sc.len() ==> sc[i].0 == incoming_key(
                ns,
                v,
                (#[trigger] edges_under(s, ns, incoming_prefix(ns, v), sc).unwrap()[i]).id,
            ) && edge_at(
                s,
                ns,
                edges_under(s, ns, incoming_prefix(ns, v), sc).unwrap()[i].id,
            ) == Some(edges_under(s, ns, incoming_prefix(ns, v), sc).unwrap()[i]),
{
    assert forall|x: int| 0 <= x < sc.len() implies s.contains_key(#[trigger] sc[x].0) && exists|
        y: u64,
    |
        sc[x].0 == incoming_key(ns, v, y) by {
        assert(has_prefix(sc[x].0, incoming_prefix(ns, v)));
    }
    lemma_incoming_listed(s, ns, v, sc);
}

/// Two lists of edges, found under keys of which the second lot is the
/// first without the key at `i`, are one list without the edge at `i`, where
/// every edge but `id` reads the same before and after. `key` is how an
/// identifier becomes a key; `es` and `et` are the edges stored before and
/// after.
proof fn lemma_list_without(
    l: Seq<EdgeView>,
    l2: Seq<EdgeView>,
    keys: Seq<Seq<u8>>,
    i: int,
    id: u64,
    key: spec_fn(u64) -> Seq<u8>,
    es: spec_fn(u64) -> Option<EdgeView>,
    et: spec_fn(u64) -> Option<EdgeView>,
)
    requires
        0 <= i < l.len(),
        l2.len() == l.len() - 1,
        keys.len() == l.len(),
        forall|x: int| 0 <= x < l.len() ==> keys[x] == key((#[trigger] l[x]).id) && es(l[x].id) == Some(l[x]),
        forall|x: int|
            0 <= x < l2.len() ==> keys.remove(i)[x] == key((#[trigger] l2[x]).id) && et(l2[x].id)
                == Some(l2[x]),
        forall|a: u64, b: u64| #[trigger] key(a) == #[trigger] key(b) ==> a == b,
        forall|x: int, y: int| 0 <= x < y < keys.len() ==> #[trigger] keys[x] != #[trigger] keys[y],
        keys[i] == key(id),
        forall|other: u64| other != id ==> #[trigger] et(other) == es(other),
    ensures
        l[i].id == id,
        l2 == l.remove(i),
{
    assert(keys[i] == key(l[i].id));
    assert forall|x: int| 0 <= x < l2.len() implies l2[x] == l.remove(i)[x] by {
        let y = if x < i { x } else { x + 1 };
        assert(keys.remove(i)[x] == keys[y]);
        assert(key(l2[x].id) == key(l[y].id));
        assert(l2[x].id == l[y].id);
        if l[y].id == id {
            assert(keys[y] == keys[i]);
        }
        assert(et(l[y].id) == es(l[y].id));
    }
    assert(l2 =~= l.remove(i));
}

/// What deleting an edge from a tidy state leaves: a tidy state in which
/// every other edge reads as before.
proof fn lemma_after_delete(s: KvState, ns: Seq<u8>, id: u64)
    requires
        graph_tidy(s, ns),
        s.contains_key(edge_key(ns, id)),
    ensures
        edge_at(s, ns, id) is Some,
        edge_at(s, ns, id).unwrap().id == id,
        s.contains_key(outgoing_key(ns, edge_at(s, ns, id).unwrap().start, id)),
        s.contains_key(incoming_key(ns, edge_at(s, ns, id).unwrap().end, id)),
        graph_tidy(apply_ops(s, edge_removal(ns, id, edge_at(s, ns, id).unwrap())), ns),
        forall|other: u64|
            other != id ==> #[trigger] edge_at(
                apply_ops(s, edge_removal(ns, id, edge_at(s, ns, id).unwrap())),
                ns,
                other,
            ) == edge_at(s, ns, other),
{
    theorem_delete_edge(s, ns, id);
    theorem_tidy_delete_edge(s, ns, id, edge_at(s, ns, id).unwrap());
}

/// After an edge is deleted from a tidy state, the outgoing edges of its
/// start are what they were without the edge, in the same order.
#[verifier::spinoff_prover]
#[verifier::rlimit(60)]
proof fn lemma_delete_edge_outgoing<K: KvStore>(before: &GraphStore<K>, after: &GraphStore<K>, id: u64)
    requires
        before.inv(),
        after.inv(),
        after.ns() == before.ns(),
        graph_tidy(before.state(), before.ns()),
        before.state().contains_key(edge_key(before.ns(), id)),
        after.state() == apply_ops(
            before.state(),
            edge_removal(
                before.ns(),
                id,
                edge_at(before.state(), before.ns(), id).unwrap(),
            ),
        ),
    ensures
        edge_at(before.state(), before.ns(), id) is Some,
        list_without(
            before.outgoing_read(edge_at(before.state(), before.ns(), id).unwrap().start),
            after.outgoing_read(edge_at(before.state(), before.ns(), id).unwrap().start),
            edge_at(before.state(), before.ns(), id).unwrap(),
        ),
{
    let s = before.state();
    let t = after.state();
    let ns = before.ns();
    lemma_after_delete(s, ns, id);
    let e = edge_at(s, ns, id).unwrap();
    let v = e.start;
    let prefix = outgoing_prefix(ns, v);
    let sc = before.kv.scan_spec(prefix);
    let sc2 = after.kv.scan_spec(prefix);
    lemma_scan(&before.kv, prefix);
    lemma_scan(&after.kv, prefix);
    lemma_outgoing_scan_without(s, ns, id, e, sc, sc2);
    let i = choose|i: int|
        0 <= i < sc.len() && (#[trigger] sc[i]).0 == outgoing_key(ns, v, id) && sc2 == sc.remove(i);
    lemma_outgoing_read_listed(s, ns, v, sc);
    lemma_outgoing_read_listed(t, ns, v, sc2);
    let l = edges_under(s, ns, prefix, sc).unwrap();
    let l2 = edges_under(t, ns, prefix, sc2).unwrap();
    let keys = sc.map_values(|p: (Seq<u8>, Seq<u8>)| p.0);
    let key = |x: u64| outgoing_key(ns, v, x);
    let es = |x: u64| edge_at(s, ns, x);
    let et = |x: u64| edge_at(t, ns, x);
    assert forall|a: u64, b: u64| #[trigger] key(a) == #[trigger] key(b) implies a == b by {
        lemma_index_key_injective(ns, v, a, v, b);
    }
    assert forall|x: int, y: int| 0 <= x < y < keys.len() implies #[trigger] keys[x]
        != #[trigger] keys[y] by {
        lemma_lex_lt_asymmetric(sc[x].0, sc[y].0);
    }
    assert forall|x: int| 0 <= x < l2.len() implies keys.remove(i)[x] == key((#[trigger] l2[x]).id)
        && et(l2[x].id) == Some(l2[x]) by {
        let y = if x < i { x } else { x + 1 };
        assert(sc2[x] == sc[y]);
        assert(keys.remove(i)[x] == keys[y]);
    }
    lemma_list_without(l, l2, keys, i, id, key, es, et);
    assert(l[i] == e);
}

/// After an edge is deleted from a tidy state, the incoming edges of its
/// end are what they were without the edge, in the same order.
#[verifier::spinoff_prover]
#[verifier::rlimit(60)]
proof fn lemma_delete_edge_incoming<K: KvStore>(before: &GraphStore<K>, after: &GraphStore<K>, id: u64)
    requires
        before.inv(),
        after.inv(),
        after.ns() == before.ns(),
        graph_tidy(before.state(), before.ns()),
        before.state().contains_key(edge_key(before.ns(), id)),
        after.state() == apply_ops(
            before.state(),
            edge_removal(
                before.ns(),
                id,
                edge_at(before.state(), before.ns(), id).unwrap(),
            ),
        ),
    ensures
        edge_at(before.state(), before.ns(), id) is Some,
        list_without(
            before.incoming_read(edge_at(before.state(), before.ns(), id).unwrap().end),
            after.incoming_read(edge_at(before.state(), before.ns(), id).unwrap().end),
            edge_at(before.state(), before.ns(), id).unwrap(),
        ),
{
    let s = before.state();
    let t = after.state();
    let ns = before.ns();
    lemma_after_delete(s, ns, id);
    let e = edge_at(s, ns, id).unwrap();
    let v = e.end;
    let prefix = incoming_prefix(ns, v);
    let sc = before.kv.scan_spec(prefix);
    let sc2 = after.kv.scan_spec(prefix);
    lemma_scan(&before.kv, prefix);
    lemma_scan(&after.kv, prefix);
    lemma_incoming_scan_without(s, ns, id, e, sc, sc2);
    let i = choose|i: int|
        0 <= i < sc.len() && (#[trigger] sc[i]).0 == incoming_key(ns, v, id) && sc2 == sc.remove(i);
    lemma_incoming_read_listed(s, ns, v, sc);
    lemma_incoming_read_listed(t, ns, v, sc2);
    let l = edges_under(s, ns, prefix, sc).unwrap();
    let l2 = edges_under(t, ns, prefix, sc2).unwrap();
    let keys = sc.map_values(|p: (Seq<u8>, Seq<u8>)| p.0);
    let key = |x: u64| incoming_key(ns, v, x);
    let es = |x: u64| edge_at(s, ns, x);
    let et = |x: u64| edge_at(t, ns, x);
    assert forall|a: u64, b: u64| #[trigger] key(a) == #[trigger] key(b) implies a == b by {
        lemma_index_key_injective(ns, v, a, v, b);
    }
    assert forall|x: int, y: int| 0 <= x < y < keys.len() implies #[trigger] keys[x]
        != #[trigger] keys[y] by {
        lemma_lex_lt_asymmetric(sc[x].0, sc[y].0);
    }
    assert forall|x: int| 0 <= x < l2.len() implies keys.remove(i)[x] == key((#[trigger] l2[x]).id)
        && et(l2[x].id) == Some(l2[x]) by {
        let y = if x < i { x } else { x + 1 };
        assert(sc2[x] == sc[y]);
        assert(keys.remove(i)[x] == keys[y]);
    }
    lemma_list_without(l, l2, keys, i, id, key, es, et);
    assert(l[i] == e);
}

/// After an edge is deleted from a tidy state, the outgoing edges of its
/// start and the incoming edges of its end are what they were without the
/// edge, in the same order.
pub proof fn theorem_delete_edge_lists<K: KvStore>(
    before: &GraphStore<K>,
    after: &GraphStore<K>,
    id: u64,
)
    requires
        before.inv(),
        after.inv(),
        after.ns() == before.ns(),
        graph_tidy(before.state(), before.ns()),
        before.state().contains_key(edge_key(before.ns(), id)),
        after.state() == apply_ops(
            before.state(),
            edge_removal(
                before.ns(),
                id,
                edge_at(before.state(), before.ns(), id).unwrap(),
            ),
        ),
    ensures
        edge_at(before.state(), before.ns(), id) is Some,
        list_without(
            before.outgoing_read(edge_at(before.state(), before.ns(), id).unwrap().start),
            after.outgoing_read(edge_at(before.state(), before.ns(), id).unwrap().start),
            edge_at(before.state(), before.ns(), id).unwrap(),
        ),
        list_without(
            before.incoming_read(edge_at(before.state(), before.ns(), id).unwrap().end),
            after.incoming_read(edge_at(before.state(), before.ns(), id).unwrap().end),
            edge_at(before.state(), before.ns(), id).unwrap(),
        ),
{
    lemma_delete_edge_outgoing(before, after, id);
    lemma_delete_edge_incoming(before, after, id);
}

/// The state after the three deletes of an edge removal.
proof fn lemma_removed_state(s: KvState, ns: Seq<u8>, id: u64, e: EdgeView)
    ensures
        apply_ops(s, edge_removal(ns, id, e)) == s.remove(edge_key(ns, id)).remove(
            outgoing_key(ns, e.start, id),
        ).remove(incoming_key(ns, e.end, id)),
{
    let rm = edge_removal(ns, id, e);
    let z = Seq::<WriteOpView>::empty();
    assert(apply_ops(s, z) == s);
    assert(rm =~= z.push(rm[0]).push(rm[1]).push(rm[2]));
    lemma_apply_ops_push(s, z, rm[0]);
    lemma_apply_ops_push(s, z.push(rm[0]), rm[1]);
    lemma_apply_ops_push(s, z.push(rm[0]).push(rm[1]), rm[2]);
}

} // verus!
