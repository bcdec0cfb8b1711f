//! What a scan of the edges of a label holds after an edge was deleted: no
//! edge with the deleted identifier.

use crate::bytes::has_prefix;
use crate::json::JsonView;
use crate::storage::engine::{edge_at, edges_in, label_at, GraphStore};
use crate::storage::keys::{
    counter_key, edge_key, edge_prefix, incoming_key, kind_of, label_key, lemma_key_kinds,
    outgoing_key, vertex_key, KIND_EDGE,
};
use crate::storage::kv::{apply_ops, lemma_apply_ops_push, lemma_scan, KvState, KvStore, WriteOpView};
use crate::storage::laws::{
    allocated_state, graph_valid, lemma_edge_plan_state, lemma_vertex_plan_state,
    theorem_delete_edge,
};
use crate::storage::transaction::{allocate, edge_removal, plan_edge, plan_vertex};
use crate::types::edge::EdgeView;
use vstd::prelude::*;
use vstd::utf8::encode_utf8;

verus! {

/// Every key under the edge prefix of a label is the key of an edge record.
pub open spec fn edge_keys_ok(s: KvState, ns: Seq<u8>) -> bool {
    forall|k: Seq<u8>, labid: u16|
        s.contains_key(k) && #[trigger] has_prefix(k, edge_prefix(ns, labid)) ==> exists|x: u64|
            k == edge_key(ns, x)
}

/// A key under an edge prefix has the kind of an edge key.
proof fn lemma_edge_prefix_kind(ns: Seq<u8>, k: Seq<u8>, labid: u16)
    ensures
        has_prefix(k, edge_prefix(ns, labid)) ==> k.len() > 0 && kind_of(k) == KIND_EDGE,
{
    let p = edge_prefix(ns, labid);
    assert(p.len() > 0 && p[0] == KIND_EDGE);
    if has_prefix(k, p) {
        assert(k.subrange(0, p.len() as int)[0] == k[0]);
    }
}

/// Taking a key away keeps the edge keys in order.
pub proof fn lemma_edge_keys_remove(s: KvState, ns: Seq<u8>, key: Seq<u8>)
    requires
        edge_keys_ok(s, ns),
    ensures
        edge_keys_ok(s.remove(key), ns),
{
    let t = s.remove(key);
    assert forall|k: Seq<u8>, labid: u16|
        t.contains_key(k) && #[trigger] has_prefix(k, edge_prefix(ns, labid)) implies exists|
        x: u64,
    |
        k == edge_key(ns, x) by {
        assert(s.contains_key(k));
    }
}

/// Putting the key of an edge record, or a key of another kind, keeps the
/// edge keys in order.
pub proof fn lemma_edge_keys_insert(s: KvState, ns: Seq<u8>, key: Seq<u8>, value: Seq<u8>)
    requires
        edge_keys_ok(s, ns),
        (key.len() > 0 && kind_of(key) != KIND_EDGE) || (exists|x: u64| key == edge_key(ns, x)),
    ensures
        edge_keys_ok(s.insert(key, value), ns),
{
    let t = s.insert(key, value);
    assert forall|k: Seq<u8>, labid: u16|
        t.contains_key(k) && #[trigger] has_prefix(k, edge_prefix(ns, labid)) implies exists|
        x: u64,
    |
        k == edge_key(ns, x) by {
        lemma_edge_prefix_kind(ns, k, labid);
        if k != key {
            assert(s.contains_key(k));
        }
    }
}

/// The writes of an allocation keep the edge keys in order.
proof fn lemma_edge_keys_allocated(s: KvState, fresh: nat, ns: Seq<u8>, label: Seq<char>)
    requires
        edge_keys_ok(s, ns),
        allocate(s, fresh, ns, label) is Ok,
    ensures
        edge_keys_ok(allocated_state(s, ns, label, allocate(s, fresh, ns, label)->Ok_0), ns),
{
    let a = allocate(s, fresh, ns, label)->Ok_0;
    let name = encode_utf8(label);
    lemma_key_kinds(ns, 0, 0, name);
    let with_label = if s.contains_key(label_key(ns, name)) {
        s
    } else {
        s.insert(label_key(ns, name), vstd::bytes::spec_u16_to_le_bytes(a.labid))
    };
    if !s.contains_key(label_key(ns, name)) {
        lemma_edge_keys_insert(
            s,
            ns,
            label_key(ns, name),
            vstd::bytes::spec_u16_to_le_bytes(a.labid),
        );
    }
    lemma_edge_keys_insert(
        with_label,
        ns,
        counter_key(ns, name),
        vstd::bytes::spec_u64_to_le_bytes(a.locid),
    );
}

/// The empty store has its edge keys in order.
pub proof fn theorem_empty_edge_keys(ns: Seq<u8>)
    ensures
        edge_keys_ok(Map::<Seq<u8>, Seq<u8>>::empty(), ns),
{
}

/// Creating a vertex keeps the edge keys in order.
pub proof fn theorem_edge_keys_create_vertex(
    s: KvState,
    fresh: nat,
    ns: Seq<u8>,
    label: Seq<char>,
    properties: JsonView,
)
    requires
        edge_keys_ok(s, ns),
        plan_vertex(true, s, fresh, ns, label, properties) is Ok,
    ensures
        edge_keys_ok(
            apply_ops(s, plan_vertex(true, s, fresh, ns, label, properties)->Ok_0.1),
            ns,
        ),
{
    let p = plan_vertex(true, s, fresh, ns, label, properties)->Ok_0;
    lemma_vertex_plan_state(s, fresh, ns, label, properties);
    lemma_edge_keys_allocated(s, fresh, ns, label);
    lemma_key_kinds(ns, p.0.id, 0, Seq::empty());
    let a = allocate(s, fresh, ns, label)->Ok_0;
    lemma_edge_keys_insert(
        allocated_state(s, ns, label, a),
        ns,
        vertex_key(ns, p.0.id),
        crate::storage::codec::encode_vertex_spec(p.0).unwrap(),
    );
}

/// Creating an edge keeps the edge keys in order.
pub proof fn theorem_edge_keys_create_edge(
    s: KvState,
    fresh: nat,
    ns: Seq<u8>,
    label: Seq<char>,
    start: u64,
    end: u64,
    properties: JsonView,
)
    requires
        edge_keys_ok(s, ns),
        plan_edge(true, s, fresh, ns, label, start, end, properties) is Ok,
    ensures
        edge_keys_ok(
            apply_ops(s, plan_edge(true, s, fresh, ns, label, start, end, properties)->Ok_0.1),
            ns,
        ),
{
    let p = plan_edge(true, s, fresh, ns, label, start, end, properties)->Ok_0;
    lemma_edge_plan_state(s, fresh, ns, label, start, end, properties);
    lemma_edge_keys_allocated(s, fresh, ns, label);
    lemma_key_kinds(ns, start, p.0.id, Seq::empty());
    lemma_key_kinds(ns, end, p.0.id, Seq::empty());
    let a = allocate(s, fresh, ns, label)->Ok_0;
    let s1 = allocated_state(s, ns, label, a);
    let s2 = s1.insert(edge_key(ns, p.0.id), crate::storage::codec::encode_edge_spec(p.0).unwrap());
    lemma_edge_keys_insert(
        s1,
        ns,
        edge_key(ns, p.0.id),
        crate::storage::codec::encode_edge_spec(p.0).unwrap(),
    );
    let s3 = s2.insert(outgoing_key(ns, start, p.0.id), Seq::empty());
    lemma_edge_keys_insert(s2, ns, outgoing_key(ns, start, p.0.id), Seq::empty());
    lemma_edge_keys_insert(s3, ns, incoming_key(ns, end, p.0.id), Seq::empty());
}

/// Deleting an edge keeps the edge keys in order.
pub proof fn theorem_edge_keys_delete_edge(s: KvState, ns: Seq<u8>, id: u64, e: EdgeView)
    requires
        edge_keys_ok(s, ns),
    ensures
        edge_keys_ok(apply_ops(s, edge_removal(ns, id, e)), ns),
{
    let rm = edge_removal(ns, id, e);
    let z = Seq::<WriteOpView>::empty();
    assert(apply_ops(s, z) == s);
    assert(rm =~= z.push(rm[0]).push(rm[1]).push(rm[2]));
    lemma_apply_ops_push(s, z, rm[0]);
    lemma_apply_ops_push(s, z.push(rm[0]), rm[1]);
    lemma_apply_ops_push(s, z.push(rm[0]).push(rm[1]), rm[2]);
    let ek = edge_key(ns, id);
    let ok = outgoing_key(ns, e.start, id);
    let ik = incoming_key(ns, e.end, id);
    assert(apply_ops(s, rm) == s.remove(ek).remove(ok).remove(ik));
    lemma_edge_keys_remove(s, ns, ek);
    lemma_edge_keys_remove(s.remove(ek), ns, ok);
    lemma_edge_keys_remove(s.remove(ek).remove(ok), ns, ik);
}

/// Deleting a vertex keeps the edge keys in order.
pub proof fn theorem_edge_keys_delete_vertex(s: KvState, ns: Seq<u8>, id: u64)
    requires
        edge_keys_ok(s, ns),
    ensures
        edge_keys_ok(s.remove(vertex_key(ns, id)), ns),
{
    lemma_edge_keys_remove(s, ns, vertex_key(ns, id));
}

/// The records of scanned entries, each stored under the key of an edge
/// record, are edges that are stored under their own identifiers.
proof fn lemma_edges_in_stored(s: KvState, ns: Seq<u8>, sc: Seq<(Seq<u8>, Seq<u8>)>)
    requires
        graph_valid(s, ns),
        forall|i: int|
            0 <= i < sc.len() ==> s.contains_key(#[trigger] sc[i].0) && s[sc[i].0] == sc[i].1
                && exists|x: u64| sc[i].0 == edge_key(ns, x),
    ensures
        edges_in(sc) is Some,
        edges_in(sc).unwrap().len() == sc.len(),
        forall|i: int|
            0 <= i < sc.len() ==> s.contains_key(
                edge_key(ns, (#[trigger] edges_in(sc).unwrap()[i]).id),
            ),
    decreases sc.len(),
{
    if sc.len() > 0 {
        let front = sc.drop_last();
        assert forall|i: int| 0 <= i < front.len() implies s.contains_key(#[trigger] front[i].0)
            && s[front[i].0] == front[i].1 && exists|x: u64| front[i].0 == edge_key(ns, x) by {
            assert(front[i] == sc[i]);
        }
        lemma_edges_in_stored(s, ns, front);
        let last = sc[sc.len() - 1];
        assert(sc.last() == last);
        let x = choose|x: u64| last.0 == edge_key(ns, x);
        assert(s.contains_key(edge_key(ns, x)));
        assert(edge_at(s, ns, x) is Some && edge_at(s, ns, x).unwrap().id == x);
        let fl = edges_in(front).unwrap();
        let l = edges_in(sc).unwrap();
        assert(l == fl.push(edge_at(s, ns, x).unwrap()));
        assert forall|i: int| 0 <= i < sc.len() implies s.contains_key(
            edge_key(ns, (#[trigger] l[i]).id),
        ) by {
            if i < front.len() {
                assert(l[i] == fl[i]);
            }
        }
    }
}

/// After an edge is deleted from a valid state whose edge keys are in
/// order, a scan of the edges of a label, where the catalog entry of the
/// label reads, lists no edge with the deleted identifier.
pub proof fn theorem_delete_edge_scan<K: KvStore>(
    before: &GraphStore<K>,
    after: &GraphStore<K>,
    id: u64,
    label: Seq<char>,
)
    requires
        before.inv(),
        after.inv(),
        after.ns() == before.ns(),
        graph_valid(before.state(), before.ns()),
        edge_keys_ok(before.state(), before.ns()),
        before.state().contains_key(edge_key(before.ns(), id)),
        after.state() == apply_ops(
            before.state(),
            edge_removal(
                before.ns(),
                id,
                edge_at(before.state(), before.ns(), id).unwrap(),
            ),
        ),
    ensures
        after.edges_read(label) is Some ==> forall|j: int|
            0 <= j < after.edges_read(label).unwrap().len() ==> (#[trigger] after.edges_read(
                label,
            ).unwrap()[j]).id != id,
{
    let s = before.state();
    let t = after.state();
    let ns = before.ns();
    theorem_delete_edge(s, ns, id);
    theorem_edge_keys_delete_edge(s, ns, id, edge_at(s, ns, id).unwrap());
    assert(!t.contains_key(edge_key(ns, id)));
    match label_at(t, ns, label) {
        None => {},
        Some(labid) => {
            let prefix = edge_prefix(ns, labid);
            let sc = after.kv.scan_spec(prefix);
            lemma_scan(&after.kv, prefix);
            assert forall|i: int| 0 <= i < sc.len() implies t.contains_key(#[trigger] sc[i].0)
                && t[sc[i].0] == sc[i].1 && exists|x: u64| sc[i].0 == edge_key(ns, x) by {
                assert(has_prefix(sc[i].0, edge_prefix(ns, labid)));
            }
            lemma_edges_in_stored(t, ns, sc);
        },
    }
}

} // verus!
