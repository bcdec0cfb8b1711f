//! What holds of every state that the store's operations lead to: edges
//! have their endpoints and both adjacency entries, deleted edges leave no
//! trace, identifiers are issued once, a record reads back as it was
//! written, and a transaction takes effect all at once or not at all.

use crate::bytes::{has_prefix, lemma_utf8_injective};
use crate::json::JsonView;
use crate::storage::codec::{decode_edge_spec, decode_vertex_spec, encode_edge_spec, encode_vertex_spec};
use crate::storage::engine::{
    edge_at, edges_under, label_at, ordinal_of, vertex_at, GraphStore,
};
use crate::storage::keys::{
    counter_key, edge_key, incoming_key, incoming_prefix, index_key_target, kind_of, label_key,
    label_prefix, lemma_index_key_injective, lemma_index_key_prefix, lemma_index_key_target,
    lemma_key_kinds, lemma_name_key_injective, lemma_record_key_injective, outgoing_key,
    outgoing_prefix, vertex_key, KIND_COUNTER, KIND_EDGE, KIND_INCOMING, KIND_LABEL,
    KIND_OUTGOING, KIND_VERTEX,
};
use crate::storage::kv::{
    apply_op, apply_ops, is_scan, lemma_apply_ops_push, lemma_scan, KvState, KvStore, WriteOpView,
};
use crate::storage::transaction::{
    allocate, counter_at, counter_of, edge_removal, lemma_lookup, lookup, max_ordinal,
    next_ordinal, overlay, plan_edge, plan_vertex, Allocation, Fault, GraphTransaction,
};
use crate::types::edge::EdgeView;
use crate::types::graphid::{lemma_pack_unpack, spec_labid, spec_locid, spec_pack, MAX_LOCID};
use crate::types::vertex::VertexView;
use vstd::bytes::{
    lemma_auto_spec_u16_to_from_le_bytes, lemma_auto_spec_u64_to_from_le_bytes,
    spec_u16_to_le_bytes, spec_u64_to_le_bytes,
};
use vstd::prelude::*;
use vstd::utf8::encode_utf8;

verus! {

/// Every record sits under the key of its own identifier.
pub open spec fn records_sound(s: KvState, ns: Seq<u8>) -> bool {
    &&& forall|id: u64| #[trigger]
        s.contains_key(vertex_key(ns, id)) ==> vertex_at(s, ns, id) is Some && vertex_at(
            s,
            ns,
            id,
        ).unwrap().id == id
    &&& forall|id: u64| #[trigger]
        s.contains_key(edge_key(ns, id)) ==> edge_at(s, ns, id) is Some && edge_at(
            s,
            ns,
            id,
        ).unwrap().id == id
}

/// Every edge has its outgoing entry under its start and its incoming entry
/// under its end.
pub open spec fn edges_indexed(s: KvState, ns: Seq<u8>) -> bool {
    forall|id: u64| #[trigger]
        s.contains_key(edge_key(ns, id)) && edge_at(s, ns, id) is Some ==> s.contains_key(
            outgoing_key(ns, edge_at(s, ns, id).unwrap().start, id),
        ) && s.contains_key(incoming_key(ns, edge_at(s, ns, id).unwrap().end, id))
}

/// Every adjacency entry belongs to a stored edge with that endpoint.
pub open spec fn index_sound(s: KvState, ns: Seq<u8>) -> bool {
    &&& forall|v: u64, eid: u64| #[trigger]
        s.contains_key(outgoing_key(ns, v, eid)) ==> edge_at(s, ns, eid) is Some && edge_at(
            s,
            ns,
            eid,
        ).unwrap().start == v
    &&& forall|v: u64, eid: u64| #[trigger]
        s.contains_key(incoming_key(ns, v, eid)) ==> edge_at(s, ns, eid) is Some && edge_at(
            s,
            ns,
            eid,
        ).unwrap().end == v
}

/// Both endpoints of every edge are stored vertices.
pub open spec fn endpoints_exist(s: KvState, ns: Seq<u8>) -> bool {
    forall|id: u64| #[trigger]
        s.contains_key(edge_key(ns, id)) && edge_at(s, ns, id) is Some ==> vertex_at(
            s,
            ns,
            edge_at(s, ns, id).unwrap().start,
        ) is Some && vertex_at(s, ns, edge_at(s, ns, id).unwrap().end) is Some
}

/// The identifier `id` of a record labelled `label` was issued for that
/// label: its label ordinal is the label's, and its local ordinal is not
/// above the label's counter.
pub open spec fn issued(s: KvState, ns: Seq<u8>, id: u64, label: Seq<char>) -> bool {
    &&& label_at(s, ns, label) == Some(spec_labid(id))
    &&& counter_at(s, ns, label) is Some
    &&& spec_locid(id) <= counter_at(s, ns, label).unwrap()
}

/// Every record's identifier was issued for the record's label, and no two
/// label names share an ordinal.
pub open spec fn ids_issued(s: KvState, ns: Seq<u8>) -> bool {
    &&& forall|id: u64| #[trigger]
        s.contains_key(vertex_key(ns, id)) && vertex_at(s, ns, id) is Some ==> issued(
            s,
            ns,
            id,
            vertex_at(s, ns, id).unwrap().label,
        )
    &&& forall|id: u64| #[trigger]
        s.contains_key(edge_key(ns, id)) && edge_at(s, ns, id) is Some ==> issued(
            s,
            ns,
            id,
            edge_at(s, ns, id).unwrap().label,
        )
    &&& forall|a: Seq<char>, b: Seq<char>|
        #![trigger label_at(s, ns, a), label_at(s, ns, b)]
        label_at(s, ns, a) is Some && label_at(s, ns, a) == label_at(s, ns, b) ==> a == b
}

/// A valid state of the graph in the namespace `ns`.
pub open spec fn graph_valid(s: KvState, ns: Seq<u8>) -> bool {
    &&& records_sound(s, ns)
    &&& edges_indexed(s, ns)
    &&& index_sound(s, ns)
    &&& ids_issued(s, ns)
}

/// `fresh` is above every ordinal that the catalog holds.
pub open spec fn ordinal_unused(s: KvState, ns: Seq<u8>, fresh: nat) -> bool {
    forall|name: Seq<char>| #[trigger]
        label_at(s, ns, name) is Some ==> label_at(s, ns, name).unwrap() < fresh
}

/// The kinds of keys are told apart by their first byte, and within a kind
/// a key tells what it was built from.
pub proof fn lemma_key_facts(ns: Seq<u8>)
    ensures
        forall|id: u64| kind_of(#[trigger] vertex_key(ns, id)) == KIND_VERTEX,
        forall|id: u64| kind_of(#[trigger] edge_key(ns, id)) == KIND_EDGE,
        forall|a: u64, b: u64| kind_of(#[trigger] outgoing_key(ns, a, b)) == KIND_OUTGOING,
        forall|a: u64, b: u64| kind_of(#[trigger] incoming_key(ns, a, b)) == KIND_INCOMING,
        forall|n: Seq<u8>| kind_of(#[trigger] label_key(ns, n)) == KIND_LABEL,
        forall|n: Seq<u8>| kind_of(#[trigger] counter_key(ns, n)) == KIND_COUNTER,
        forall|a: u64, b: u64| #[trigger]
            vertex_key(ns, a) == #[trigger] vertex_key(ns, b) ==> a == b,
        forall|a: u64, b: u64| #[trigger] edge_key(ns, a) == #[trigger] edge_key(ns, b) ==> a == b,
        forall|a: u64, e: u64, b: u64, f: u64| #[trigger]
            outgoing_key(ns, a, e) == #[trigger] outgoing_key(ns, b, f) ==> a == b && e == f,
        forall|a: u64, e: u64, b: u64, f: u64| #[trigger]
            incoming_key(ns, a, e) == #[trigger] incoming_key(ns, b, f) ==> a == b && e == f,
        forall|a: Seq<char>, b: Seq<char>| #[trigger]
            label_key(ns, encode_utf8(a)) == #[trigger] label_key(ns, encode_utf8(b)) ==> a == b,
        forall|a: Seq<char>, b: Seq<char>| #[trigger]
            counter_key(ns, encode_utf8(a)) == #[trigger] counter_key(ns, encode_utf8(b)) ==> a
                == b,
{
    assert forall|id: u64| kind_of(#[trigger] vertex_key(ns, id)) == KIND_VERTEX by {
        lemma_key_kinds(ns, id, 0, Seq::empty());
    }
    assert forall|id: u64| kind_of(#[trigger] edge_key(ns, id)) == KIND_EDGE by {
        lemma_key_kinds(ns, id, 0, Seq::empty());
    }
    assert forall|a: u64, b: u64| kind_of(#[trigger] outgoing_key(ns, a, b)) == KIND_OUTGOING by {
        lemma_key_kinds(ns, a, b, Seq::empty());
    }
    assert forall|a: u64, b: u64| kind_of(#[trigger] incoming_key(ns, a, b)) == KIND_INCOMING by {
        lemma_key_kinds(ns, a, b, Seq::empty());
    }
    assert forall|n: Seq<u8>| kind_of(#[trigger] label_key(ns, n)) == KIND_LABEL by {
        lemma_key_kinds(ns, 0, 0, n);
    }
    assert forall|n: Seq<u8>| kind_of(#[trigger] counter_key(ns, n)) == KIND_COUNTER by {
        lemma_key_kinds(ns, 0, 0, n);
    }
    assert forall|a: u64, b: u64| #[trigger]
        vertex_key(ns, a) == #[trigger] vertex_key(ns, b) implies a == b by {
        lemma_record_key_injective(ns, a, b);
    }
    assert forall|a: u64, b: u64| #[trigger]
        edge_key(ns, a) == #[trigger] edge_key(ns, b) implies a == b by {
        lemma_record_key_injective(ns, a, b);
    }
    assert forall|a: u64, e: u64, b: u64, f: u64| #[trigger]
        outgoing_key(ns, a, e) == #[trigger] outgoing_key(ns, b, f) implies a == b && e == f by {
        lemma_index_key_injective(ns, a, e, b, f);
    }
    assert forall|a: u64, e: u64, b: u64, f: u64| #[trigger]
        incoming_key(ns, a, e) == #[trigger] incoming_key(ns, b, f) implies a == b && e == f by {
        lemma_index_key_injective(ns, a, e, b, f);
    }
    assert forall|a: Seq<char>, b: Seq<char>| #[trigger]
        label_key(ns, encode_utf8(a)) == #[trigger] label_key(ns, encode_utf8(b)) implies a
        == b by {
        lemma_name_key_injective(ns, encode_utf8(a), encode_utf8(b));
        lemma_utf8_injective(a, b);
    }
    assert forall|a: Seq<char>, b: Seq<char>| #[trigger]
        counter_key(ns, encode_utf8(a)) == #[trigger] counter_key(ns, encode_utf8(b)) implies a
        == b by {
        lemma_name_key_injective(ns, encode_utf8(a), encode_utf8(b));
        lemma_utf8_injective(a, b);
    }
}

/// What the catalog and counter values read as after they were written.
pub proof fn lemma_values_read_back(ordinal: u16, count: u64)
    ensures
        ordinal_of(spec_u16_to_le_bytes(ordinal)) == Some(ordinal),
        counter_of(spec_u64_to_le_bytes(count)) == Some(count),
{
    lemma_auto_spec_u16_to_from_le_bytes();
    lemma_auto_spec_u64_to_from_le_bytes();
    let a = spec_u16_to_le_bytes(ordinal);
    assert(a.subrange(0, 2) =~= a);
    let b = spec_u64_to_le_bytes(count);
    assert(b.subrange(0, 8) =~= b);
}

/// The state after the writes of an allocation: the label is in the
/// catalog with the allocated ordinal, and the counter holds the allocated
/// local ordinal.
pub open spec fn allocated_state(s: KvState, ns: Seq<u8>, label: Seq<char>, a: Allocation) -> KvState {
    let name = encode_utf8(label);
    let with_label = if s.contains_key(label_key(ns, name)) {
        s
    } else {
        s.insert(label_key(ns, name), spec_u16_to_le_bytes(a.labid))
    };
    with_label.insert(counter_key(ns, name), spec_u64_to_le_bytes(a.locid))
}

/// The writes of an allocation lead to the allocated state.
pub proof fn lemma_allocation_state(s: KvState, fresh: nat, ns: Seq<u8>, label: Seq<char>)
    requires
        allocate(s, fresh, ns, label) is Ok,
    ensures
        apply_ops(s, allocate(s, fresh, ns, label)->Ok_0.writes) == allocated_state(
            s,
            ns,
            label,
            allocate(s, fresh, ns, label)->Ok_0,
        ),
{
    let a = allocate(s, fresh, ns, label)->Ok_0;
    let w = a.writes;
    let e = Seq::<WriteOpView>::empty();
    assert(apply_ops(s, e) == s);
    if w.len() == 1 {
        assert(w =~= e.push(w[0]));
        lemma_apply_ops_push(s, e, w[0]);
    } else {
        assert(w =~= e.push(w[0]).push(w[1]));
        lemma_apply_ops_push(s, e, w[0]);
        lemma_apply_ops_push(s, e.push(w[0]), w[1]);
    }
}

/// The state after a vertex was created is the allocated state with the
/// record added.
pub proof fn lemma_vertex_plan_state(
    s: KvState,
    fresh: nat,
    ns: Seq<u8>,
    label: Seq<char>,
    properties: JsonView,
)
    requires
        plan_vertex(true, s, fresh, ns, label, properties) is Ok,
    ensures
        allocate(s, fresh, ns, label) is Ok,
        ({
            let a = allocate(s, fresh, ns, label)->Ok_0;
            let p = plan_vertex(true, s, fresh, ns, label, properties)->Ok_0;
            &&& p.0 == (VertexView { id: spec_pack(a.labid, a.locid), label, properties })
            &&& encode_vertex_spec(p.0) is Some
            &&& apply_ops(s, p.1) == allocated_state(s, ns, label, a).insert(
                vertex_key(ns, p.0.id),
                encode_vertex_spec(p.0).unwrap(),
            )
        }),
{
    let a = allocate(s, fresh, ns, label)->Ok_0;
    let p = plan_vertex(true, s, fresh, ns, label, properties)->Ok_0;
    lemma_allocation_state(s, fresh, ns, label);
    lemma_apply_ops_push(
        s,
        a.writes,
        WriteOpView::Put { key: vertex_key(ns, p.0.id), value: encode_vertex_spec(p.0).unwrap() },
    );
}

/// The state after an edge was created is the allocated state with the
/// record and both adjacency entries added.
pub proof fn lemma_edge_plan_state(
    s: KvState,
    fresh: nat,
    ns: Seq<u8>,
    label: Seq<char>,
    start: u64,
    end: u64,
    properties: JsonView,
)
    requires
        plan_edge(true, s, fresh, ns, label, start, end, properties) is Ok,
    ensures
        allocate(s, fresh, ns, label) is Ok,
        ({
            let a = allocate(s, fresh, ns, label)->Ok_0;
            let p = plan_edge(true, s, fresh, ns, label, start, end, properties)->Ok_0;
            &&& p.0 == (EdgeView { id: spec_pack(a.labid, a.locid), start, end, label, properties })
            &&& encode_edge_spec(p.0) is Some
            &&& apply_ops(s, p.1) == allocated_state(s, ns, label, a).insert(
                edge_key(ns, p.0.id),
                encode_edge_spec(p.0).unwrap(),
            ).insert(outgoing_key(ns, start, p.0.id), Seq::empty()).insert(
                incoming_key(ns, end, p.0.id),
                Seq::empty(),
            )
        }),
{
    let a = allocate(s, fresh, ns, label)->Ok_0;
    let p = plan_edge(true, s, fresh, ns, label, start, end, properties)->Ok_0;
    lemma_allocation_state(s, fresh, ns, label);
    let w1 = WriteOpView::Put { key: edge_key(ns, p.0.id), value: encode_edge_spec(p.0).unwrap() };
    let w2 = WriteOpView::Put { key: outgoing_key(ns, start, p.0.id), value: Seq::empty() };
    let w3 = WriteOpView::Put { key: incoming_key(ns, end, p.0.id), value: Seq::empty() };
    lemma_apply_ops_push(s, a.writes, w1);
    lemma_apply_ops_push(s, a.writes.push(w1), w2);
    lemma_apply_ops_push(s, a.writes.push(w1).push(w2), w3);
}

/// No scanned catalog entry holds an ordinal above the largest.
proof fn lemma_max_ordinal_bound(sc: Seq<(Seq<u8>, Seq<u8>)>, i: int)
    requires
        0 <= i < sc.len(),
        ordinal_of(sc[i].1) is Some,
    ensures
        ordinal_of(sc[i].1).unwrap() <= max_ordinal(sc),
    decreases sc.len(),
{
    if i < sc.len() - 1 {
        lemma_max_ordinal_bound(sc.drop_last(), i);
    }
}

/// The ordinal that a store gives to a new label is above every ordinal in
/// its catalog.
pub proof fn lemma_fresh_ordinal_unused<K: KvStore>(store: &GraphStore<K>)
    requires
        store.inv(),
    ensures
        ordinal_unused(store.state(), store.ns(), store.fresh_ordinal()),
{
    let s = store.state();
    let ns = store.ns();
    let prefix = label_prefix(ns);
    let sc = store.kv.scan_spec(prefix);
    lemma_scan(&store.kv, prefix);
    assert forall|name: Seq<char>| #[trigger] label_at(s, ns, name) is Some implies label_at(
        s,
        ns,
        name,
    ).unwrap() < store.fresh_ordinal() by {
        let k = label_key(ns, encode_utf8(name));
        crate::bytes::lemma_prefix_of_concat(prefix, encode_utf8(name));
        assert(s.contains_key(k) && has_prefix(k, prefix));
        let i = choose|i: int| 0 <= i < sc.len() && sc[i].0 == k;
        assert(sc[i].1 == s[k]);
        lemma_max_ordinal_bound(sc, i);
    }
}

/// What an allocation changes: the label holds the allocated ordinal, its
/// counter holds the allocated local ordinal, and nothing else in the
/// catalog, the counters, the records or the adjacency entries differs.
proof fn lemma_allocated_frame(s: KvState, fresh: nat, ns: Seq<u8>, label: Seq<char>)
    requires
        allocate(s, fresh, ns, label) is Ok,
    ensures
        ({
            let a = allocate(s, fresh, ns, label)->Ok_0;
            let t = allocated_state(s, ns, label, a);
            &&& label_at(t, ns, label) == Some(a.labid)
            &&& counter_at(t, ns, label) == Some(a.locid)
            &&& counter_at(s, ns, label) is Some
            &&& a.locid == counter_at(s, ns, label).unwrap() + 1
            &&& a.locid <= MAX_LOCID
            &&& label_at(s, ns, label) is Some ==> label_at(s, ns, label) == Some(a.labid)
            &&& label_at(s, ns, label) is None ==> a.labid == fresh
            &&& forall|n: Seq<char>| n != label ==> #[trigger] label_at(t, ns, n) == label_at(s, ns, n)
            &&& forall|n: Seq<char>|
                n != label ==> #[trigger] counter_at(t, ns, n) == counter_at(s, ns, n)
            &&& forall|id: u64| #[trigger]
                t.contains_key(vertex_key(ns, id)) == s.contains_key(vertex_key(ns, id))
            &&& forall|id: u64| #[trigger] vertex_at(t, ns, id) == vertex_at(s, ns, id)
            &&& forall|id: u64| #[trigger]
                t.contains_key(edge_key(ns, id)) == s.contains_key(edge_key(ns, id))
            &&& forall|id: u64| #[trigger] edge_at(t, ns, id) == edge_at(s, ns, id)
            &&& forall|v: u64, e: u64| #[trigger]
                t.contains_key(outgoing_key(ns, v, e)) == s.contains_key(outgoing_key(ns, v, e))
            &&& forall|v: u64, e: u64| #[trigger]
                t.contains_key(incoming_key(ns, v, e)) == s.contains_key(incoming_key(ns, v, e))
        }),
{
    let a = allocate(s, fresh, ns, label)->Ok_0;
    lemma_key_facts(ns);
    lemma_values_read_back(a.labid, a.locid);
    let t = allocated_state(s, ns, label, a);
    let name = encode_utf8(label);
    assert(kind_of(label_key(ns, name)) == KIND_LABEL);
    assert(kind_of(counter_key(ns, name)) == KIND_COUNTER);
    assert forall|n: Seq<char>| n != label implies #[trigger] label_at(t, ns, n) == label_at(
        s,
        ns,
        n,
    ) by {
        assert(kind_of(label_key(ns, encode_utf8(n))) == KIND_LABEL);
    }
    assert forall|n: Seq<char>| n != label implies #[trigger] counter_at(t, ns, n) == counter_at(
        s,
        ns,
        n,
    ) by {
        assert(kind_of(counter_key(ns, encode_utf8(n))) == KIND_COUNTER);
    }
}

/// Creating a vertex keeps a valid state valid. The new record reads back as
/// it was created. Its label ordinal is the one that the catalog holds for
/// its label, before where the label was known and after in any case; its
/// local ordinal is one above the label's counter, hence above the local
/// ordinal of every record of that label, and no record had its identifier.
pub proof fn theorem_create_vertex(
    s: KvState,
    fresh: nat,
    ns: Seq<u8>,
    label: Seq<char>,
    properties: JsonView,
)
    requires
        graph_valid(s, ns),
        ordinal_unused(s, ns, fresh),
        plan_vertex(true, s, fresh, ns, label, properties) is Ok,
    ensures
        ({
            let p = plan_vertex(true, s, fresh, ns, label, properties)->Ok_0;
            let t = apply_ops(s, p.1);
            &&& graph_valid(t, ns)
            &&& endpoints_exist(s, ns) ==> endpoints_exist(t, ns)
            &&& vertex_at(t, ns, p.0.id) == Some(p.0)
            &&& p.0.label == label && p.0.properties == properties
            &&& label_at(t, ns, label) == Some(spec_labid(p.0.id))
            &&& label_at(s, ns, label) is Some ==> label_at(s, ns, label) == Some(
                spec_labid(p.0.id),
            )
            &&& counter_at(s, ns, label) is Some && spec_locid(p.0.id) == counter_at(
                s,
                ns,
                label,
            ).unwrap() + 1
            &&& counter_at(t, ns, label) == Some(spec_locid(p.0.id))
            &&& !s.contains_key(vertex_key(ns, p.0.id))
            &&& forall|id: u64| #[trigger]
                s.contains_key(vertex_key(ns, id)) && vertex_at(s, ns, id).unwrap().label == label
                    ==> spec_locid(id) < spec_locid(p.0.id)
        }),
{
    let p = plan_vertex(true, s, fresh, ns, label, properties)->Ok_0;
    let v = p.0;
    let a = allocate(s, fresh, ns, label)->Ok_0;
    lemma_vertex_plan_state(s, fresh, ns, label, properties);
    lemma_allocated_frame(s, fresh, ns, label);
    lemma_key_facts(ns);
    lemma_pack_unpack(a.labid, a.locid);
    let m = allocated_state(s, ns, label, a);
    let t = apply_ops(s, p.1);
    let vk = vertex_key(ns, v.id);
    assert(t == m.insert(vk, encode_vertex_spec(v).unwrap()));
    assert(kind_of(vk) == KIND_VERTEX);
    assert(vertex_at(t, ns, v.id) == Some(v));
    // the identifier is new
    if s.contains_key(vk) {
        let old_label = vertex_at(s, ns, v.id).unwrap().label;
        assert(issued(s, ns, v.id, old_label));
        if label_at(s, ns, label) is Some {
            assert(old_label == label);
        }
    }
    assert forall|n: Seq<char>| #[trigger] label_at(t, ns, n) == label_at(m, ns, n) by {
        assert(kind_of(label_key(ns, encode_utf8(n))) == KIND_LABEL);
    }
    assert forall|n: Seq<char>| #[trigger] counter_at(t, ns, n) == counter_at(m, ns, n) by {
        assert(kind_of(counter_key(ns, encode_utf8(n))) == KIND_COUNTER);
    }
    assert forall|id: u64| #[trigger] edge_at(t, ns, id) == edge_at(s, ns, id) && (t.contains_key(
        edge_key(ns, id),
    ) == s.contains_key(edge_key(ns, id))) by {
        assert(kind_of(edge_key(ns, id)) == KIND_EDGE);
    }
    assert forall|x: u64, e: u64| #[trigger]
        t.contains_key(outgoing_key(ns, x, e)) == s.contains_key(outgoing_key(ns, x, e)) by {
        assert(kind_of(outgoing_key(ns, x, e)) == KIND_OUTGOING);
    }
    assert forall|x: u64, e: u64| #[trigger]
        t.contains_key(incoming_key(ns, x, e)) == s.contains_key(incoming_key(ns, x, e)) by {
        assert(kind_of(incoming_key(ns, x, e)) == KIND_INCOMING);
    }
    assert forall|id: u64| id != v.id implies #[trigger] vertex_at(t, ns, id) == vertex_at(
        s,
        ns,
        id,
    ) && (t.contains_key(vertex_key(ns, id)) == s.contains_key(vertex_key(ns, id))) by {
        assert(vertex_at(m, ns, id) == vertex_at(s, ns, id));
    }
    assert(records_sound(t, ns)) by {
        assert forall|id: u64| #[trigger] t.contains_key(vertex_key(ns, id)) implies vertex_at(
            t,
            ns,
            id,
        ) is Some && vertex_at(t, ns, id).unwrap().id == id by {
            if id != v.id {
                assert(s.contains_key(vertex_key(ns, id)));
            }
        }
        assert forall|id: u64| #[trigger] t.contains_key(edge_key(ns, id)) implies edge_at(
            t,
            ns,
            id,
        ) is Some && edge_at(t, ns, id).unwrap().id == id by {
            assert(s.contains_key(edge_key(ns, id)));
        }
    }
    assert(edges_indexed(t, ns)) by {
        assert forall|id: u64| #[trigger]
            t.contains_key(edge_key(ns, id)) && edge_at(t, ns, id) is Some implies t.contains_key(
            outgoing_key(ns, edge_at(t, ns, id).unwrap().start, id),
        ) && t.contains_key(incoming_key(ns, edge_at(t, ns, id).unwrap().end, id)) by {
            assert(s.contains_key(edge_key(ns, id)));
        }
    }
    assert(index_sound(t, ns)) by {
        assert forall|x: u64, eid: u64| #[trigger]
            t.contains_key(outgoing_key(ns, x, eid)) implies edge_at(t, ns, eid) is Some
            && edge_at(t, ns, eid).unwrap().start == x by {
            assert(s.contains_key(outgoing_key(ns, x, eid)));
        }
        assert forall|x: u64, eid: u64| #[trigger]
            t.contains_key(incoming_key(ns, x, eid)) implies edge_at(t, ns, eid) is Some
            && edge_at(t, ns, eid).unwrap().end == x by {
            assert(s.contains_key(incoming_key(ns, x, eid)));
        }
    }
    assert(ids_issued(t, ns)) by {
        assert forall|id: u64| #[trigger]
            t.contains_key(vertex_key(ns, id)) && vertex_at(t, ns, id) is Some implies issued(
            t,
            ns,
            id,
            vertex_at(t, ns, id).unwrap().label,
        ) by {
            if id != v.id {
                assert(s.contains_key(vertex_key(ns, id)));
                let l = vertex_at(s, ns, id).unwrap().label;
                assert(issued(s, ns, id, l));
            }
        }
        assert forall|id: u64| #[trigger]
            t.contains_key(edge_key(ns, id)) && edge_at(t, ns, id) is Some implies issued(
            t,
            ns,
            id,
            edge_at(t, ns, id).unwrap().label,
        ) by {
            assert(s.contains_key(edge_key(ns, id)));
            let l = edge_at(s, ns, id).unwrap().label;
            assert(issued(s, ns, id, l));
        }
        assert forall|x: Seq<char>, y: Seq<char>|
            #![trigger label_at(t, ns, x), label_at(t, ns, y)]
            label_at(t, ns, x) is Some && label_at(t, ns, x) == label_at(t, ns, y) implies x
            == y by {
            if x != label && y != label {
                assert(label_at(s, ns, x) == label_at(s, ns, y));
            } else if x != label {
                assert(label_at(s, ns, x) is Some);
            } else if y != label {
                assert(label_at(s, ns, y) is Some);
            }
        }
    }
    if endpoints_exist(s, ns) {
        assert forall|id: u64| #[trigger]
            t.contains_key(edge_key(ns, id)) && edge_at(t, ns, id) is Some implies vertex_at(
            t,
            ns,
            edge_at(t, ns, id).unwrap().start,
        ) is Some && vertex_at(t, ns, edge_at(t, ns, id).unwrap().end) is Some by {
            assert(s.contains_key(edge_key(ns, id)));
        }
    }
    assert forall|id: u64| #[trigger]
        s.contains_key(vertex_key(ns, id)) && vertex_at(s, ns, id).unwrap().label
            == label implies spec_locid(id) < spec_locid(v.id) by {
        assert(issued(s, ns, id, label));
    }
}

/// Creating an edge keeps a valid state valid, and keeps every edge's
/// endpoints stored where the new edge's endpoints are stored vertices. The
/// new record reads back as it was created and has both of its adjacency
/// entries. Its identifier is new and issued as a vertex's is.
pub proof fn theorem_create_edge(
    s: KvState,
    fresh: nat,
    ns: Seq<u8>,
    label: Seq<char>,
    start: u64,
    end: u64,
    properties: JsonView,
)
    requires
        graph_valid(s, ns),
        ordinal_unused(s, ns, fresh),
        plan_edge(true, s, fresh, ns, label, start, end, properties) is Ok,
    ensures
        ({
            let p = plan_edge(true, s, fresh, ns, label, start, end, properties)->Ok_0;
            let t = apply_ops(s, p.1);
            &&& graph_valid(t, ns)
            &&& endpoints_exist(s, ns) && vertex_at(s, ns, start) is Some && vertex_at(
                s,
                ns,
                end,
            ) is Some ==> endpoints_exist(t, ns)
            &&& edge_at(t, ns, p.0.id) == Some(p.0)
            &&& p.0.start == start && p.0.end == end && p.0.label == label && p.0.properties
                == properties
            &&& t.contains_key(outgoing_key(ns, start, p.0.id))
            &&& t.contains_key(incoming_key(ns, end, p.0.id))
            &&& label_at(t, ns, label) == Some(spec_labid(p.0.id))
            &&& label_at(s, ns, label) is Some ==> label_at(s, ns, label) == Some(
                spec_labid(p.0.id),
            )
            &&& counter_at(s, ns, label) is Some && spec_locid(p.0.id) == counter_at(
                s,
                ns,
                label,
            ).unwrap() + 1
            &&& counter_at(t, ns, label) == Some(spec_locid(p.0.id))
            &&& !s.contains_key(edge_key(ns, p.0.id))
            &&& forall|id: u64| #[trigger]
                s.contains_key(edge_key(ns, id)) && edge_at(s, ns, id).unwrap().label == label
                    ==> spec_locid(id) < spec_locid(p.0.id)
        }),
{
    let p = plan_edge(true, s, fresh, ns, label, start, end, properties)->Ok_0;
    let e = p.0;
    let a = allocate(s, fresh, ns, label)->Ok_0;
    lemma_edge_plan_state(s, fresh, ns, label, start, end, properties);
    lemma_allocated_frame(s, fresh, ns, label);
    lemma_key_facts(ns);
    lemma_pack_unpack(a.labid, a.locid);
    let m = allocated_state(s, ns, label, a);
    let t = apply_ops(s, p.1);
    let ek = edge_key(ns, e.id);
    let ok = outgoing_key(ns, start, e.id);
    let ik = incoming_key(ns, end, e.id);
    assert(t == m.insert(ek, encode_edge_spec(e).unwrap()).insert(ok, Seq::empty()).insert(
        ik,
        Seq::empty(),
    ));
    assert(kind_of(ek) == KIND_EDGE);
    assert(kind_of(ok) == KIND_OUTGOING);
    assert(kind_of(ik) == KIND_INCOMING);
    assert(edge_at(t, ns, e.id) == Some(e));
    if s.contains_key(ek) {
        let old_label = edge_at(s, ns, e.id).unwrap().label;
        assert(issued(s, ns, e.id, old_label));
        if label_at(s, ns, label) is Some {
            assert(old_label == label);
        }
    }
    assert forall|n: Seq<char>| #[trigger] label_at(t, ns, n) == label_at(m, ns, n) by {
        assert(kind_of(label_key(ns, encode_utf8(n))) == KIND_LABEL);
    }
    assert forall|n: Seq<char>| #[trigger] counter_at(t, ns, n) == counter_at(m, ns, n) by {
        assert(kind_of(counter_key(ns, encode_utf8(n))) == KIND_COUNTER);
    }
    assert forall|id: u64| #[trigger] vertex_at(t, ns, id) == vertex_at(s, ns, id) && (
    t.contains_key(vertex_key(ns, id)) == s.contains_key(vertex_key(ns, id))) by {
        assert(kind_of(vertex_key(ns, id)) == KIND_VERTEX);
        assert(vertex_at(m, ns, id) == vertex_at(s, ns, id));
    }
    assert forall|id: u64| id != e.id implies #[trigger] edge_at(t, ns, id) == edge_at(s, ns, id)
        && (t.contains_key(edge_key(ns, id)) == s.contains_key(edge_key(ns, id))) by {
        assert(kind_of(edge_key(ns, id)) == KIND_EDGE);
        assert(edge_at(m, ns, id) == edge_at(s, ns, id));
    }
    assert forall|x: u64, y: u64| #[trigger]
        t.contains_key(outgoing_key(ns, x, y)) == (s.contains_key(outgoing_key(ns, x, y)) || (x
            == start && y == e.id)) by {
        assert(kind_of(outgoing_key(ns, x, y)) == KIND_OUTGOING);
    }
    assert forall|x: u64, y: u64| #[trigger]
        t.contains_key(incoming_key(ns, x, y)) == (s.contains_key(incoming_key(ns, x, y)) || (x
            == end && y == e.id)) by {
        assert(kind_of(incoming_key(ns, x, y)) == KIND_INCOMING);
    }
    assert(records_sound(t, ns)) by {
        assert forall|id: u64| #[trigger] t.contains_key(vertex_key(ns, id)) implies vertex_at(
            t,
            ns,
            id,
        ) is Some && vertex_at(t, ns, id).unwrap().id == id by {
            assert(s.contains_key(vertex_key(ns, id)));
        }
        assert forall|id: u64| #[trigger] t.contains_key(edge_key(ns, id)) implies edge_at(
            t,
            ns,
            id,
        ) is Some && edge_at(t, ns, id).unwrap().id == id by {
            if id != e.id {
                assert(s.contains_key(edge_key(ns, id)));
            }
        }
    }
    assert(edges_indexed(t, ns)) by {
        assert forall|id: u64| #[trigger]
            t.contains_key(edge_key(ns, id)) && edge_at(t, ns, id) is Some implies t.contains_key(
            outgoing_key(ns, edge_at(t, ns, id).unwrap().start, id),
        ) && t.contains_key(incoming_key(ns, edge_at(t, ns, id).unwrap().end, id)) by {
            if id != e.id {
                assert(s.contains_key(edge_key(ns, id)));
                let old = edge_at(s, ns, id).unwrap();
                assert(s.contains_key(outgoing_key(ns, old.start, id)));
                assert(s.contains_key(incoming_key(ns, old.end, id)));
            }
        }
    }
    assert(index_sound(t, ns)) by {
        assert forall|x: u64, eid: u64| #[trigger]
            t.contains_key(outgoing_key(ns, x, eid)) implies edge_at(t, ns, eid) is Some
            && edge_at(t, ns, eid).unwrap().start == x by {
            if s.contains_key(outgoing_key(ns, x, eid)) {
                assert(edge_at(s, ns, eid) is Some);
                assert(s.contains_key(edge_key(ns, eid)));
            }
        }
        assert forall|x: u64, eid: u64| #[trigger]
            t.contains_key(incoming_key(ns, x, eid)) implies edge_at(t, ns, eid) is Some
            && edge_at(t, ns, eid).unwrap().end == x by {
            if s.contains_key(incoming_key(ns, x, eid)) {
                assert(edge_at(s, ns, eid) is Some);
                assert(s.contains_key(edge_key(ns, eid)));
            }
        }
    }
    assert(ids_issued(t, ns)) by {
        assert forall|id: u64| #[trigger]
            t.contains_key(vertex_key(ns, id)) && vertex_at(t, ns, id) is Some implies issued(
            t,
            ns,
            id,
            vertex_at(t, ns, id).unwrap().label,
        ) by {
            assert(s.contains_key(vertex_key(ns, id)));
            let l = vertex_at(s, ns, id).unwrap().label;
            assert(issued(s, ns, id, l));
        }
        assert forall|id: u64| #[trigger]
            t.contains_key(edge_key(ns, id)) && edge_at(t, ns, id) is Some implies issued(
            t,
            ns,
            id,
            edge_at(t, ns, id).unwrap().label,
        ) by {
            if id != e.id {
                assert(s.contains_key(edge_key(ns, id)));
                let l = edge_at(s, ns, id).unwrap().label;
                assert(issued(s, ns, id, l));
            }
        }
        assert forall|x: Seq<char>, y: Seq<char>|
            #![trigger label_at(t, ns, x), label_at(t, ns, y)]
            label_at(t, ns, x) is Some && label_at(t, ns, x) == label_at(t, ns, y) implies x
            == y by {
            if x != label && y != label {
                assert(label_at(s, ns, x) == label_at(s, ns, y));
            } else if x != label {
                assert(label_at(s, ns, x) is Some);
            } else if y != label {
                assert(label_at(s, ns, y) is Some);
            }
        }
    }
    if endpoints_exist(s, ns) && vertex_at(s, ns, start) is Some && vertex_at(s, ns, end) is Some {
        assert forall|id: u64| #[trigger]
            t.contains_key(edge_key(ns, id)) && edge_at(t, ns, id) is Some implies vertex_at(
            t,
            ns,
            edge_at(t, ns, id).unwrap().start,
        ) is Some && vertex_at(t, ns, edge_at(t, ns, id).unwrap().end) is Some by {
            if id != e.id {
                assert(s.contains_key(edge_key(ns, id)));
            }
        }
    }
    assert forall|id: u64| #[trigger]
        s.contains_key(edge_key(ns, id)) && edge_at(s, ns, id).unwrap().label
            == label implies spec_locid(id) < spec_locid(e.id) by {
        assert(issued(s, ns, id, label));
    }
}

/// Deleting an edge keeps a valid state valid and leaves nothing of the
/// edge: no record, and no adjacency entry under any vertex.
pub proof fn theorem_delete_edge(s: KvState, ns: Seq<u8>, id: u64)
    requires
        graph_valid(s, ns),
        s.contains_key(edge_key(ns, id)),
    ensures
        edge_at(s, ns, id) is Some,
        ({
            let t = apply_ops(s, edge_removal(ns, id, edge_at(s, ns, id).unwrap()));
            &&& graph_valid(t, ns)
            &&& endpoints_exist(s, ns) ==> endpoints_exist(t, ns)
            &&& !t.contains_key(edge_key(ns, id))
            &&& edge_at(t, ns, id) is None
            &&& forall|v: u64| !t.contains_key(#[trigger] outgoing_key(ns, v, id))
            &&& forall|v: u64| !t.contains_key(#[trigger] incoming_key(ns, v, id))
            &&& forall|other: u64| other != id ==> #[trigger] edge_at(t, ns, other) == edge_at(
                s,
                ns,
                other,
            )
            &&& forall|v: u64| #[trigger] vertex_at(t, ns, v) == vertex_at(s, ns, v)
        }),
{
    lemma_key_facts(ns);
    let e = edge_at(s, ns, id).unwrap();
    let rm = edge_removal(ns, id, e);
    let ek = edge_key(ns, id);
    let ok = outgoing_key(ns, e.start, id);
    let ik = incoming_key(ns, e.end, id);
    let t = apply_ops(s, rm);
    let z = Seq::<WriteOpView>::empty();
    assert(apply_ops(s, z) == s);
    assert(rm =~= z.push(rm[0]).push(rm[1]).push(rm[2]));
    lemma_apply_ops_push(s, z, rm[0]);
    lemma_apply_ops_push(s, z.push(rm[0]), rm[1]);
    lemma_apply_ops_push(s, z.push(rm[0]).push(rm[1]), rm[2]);
    assert(t == s.remove(ek).remove(ok).remove(ik));
    assert(kind_of(ek) == KIND_EDGE);
    assert(kind_of(ok) == KIND_OUTGOING);
    assert(kind_of(ik) == KIND_INCOMING);
    assert forall|n: Seq<char>| #[trigger] label_at(t, ns, n) == label_at(s, ns, n) by {
        assert(kind_of(label_key(ns, encode_utf8(n))) == KIND_LABEL);
    }
    assert forall|n: Seq<char>| #[trigger] counter_at(t, ns, n) == counter_at(s, ns, n) by {
        assert(kind_of(counter_key(ns, encode_utf8(n))) == KIND_COUNTER);
    }
    assert forall|v: u64| #[trigger] vertex_at(t, ns, v) == vertex_at(s, ns, v) && (t.contains_key(
        vertex_key(ns, v),
    ) == s.contains_key(vertex_key(ns, v))) by {
        assert(kind_of(vertex_key(ns, v)) == KIND_VERTEX);
    }
    assert forall|other: u64| other != id implies #[trigger] edge_at(t, ns, other) == edge_at(
        s,
        ns,
        other,
    ) && (t.contains_key(edge_key(ns, other)) == s.contains_key(edge_key(ns, other))) by {
        assert(kind_of(edge_key(ns, other)) == KIND_EDGE);
    }
    assert forall|x: u64, y: u64| #[trigger]
        t.contains_key(outgoing_key(ns, x, y)) == (s.contains_key(outgoing_key(ns, x, y)) && !(x
            == e.start && y == id)) by {
        assert(kind_of(outgoing_key(ns, x, y)) == KIND_OUTGOING);
    }
    assert forall|x: u64, y: u64| #[trigger]
        t.contains_key(incoming_key(ns, x, y)) == (s.contains_key(incoming_key(ns, x, y)) && !(x
            == e.end && y == id)) by {
        assert(kind_of(incoming_key(ns, x, y)) == KIND_INCOMING);
    }
    assert forall|v: u64| !t.contains_key(#[trigger] outgoing_key(ns, v, id)) by {
        if s.contains_key(outgoing_key(ns, v, id)) {
            assert(edge_at(s, ns, id).unwrap().start == v);
        }
    }
    assert forall|v: u64| !t.contains_key(#[trigger] incoming_key(ns, v, id)) by {
        if s.contains_key(incoming_key(ns, v, id)) {
            assert(edge_at(s, ns, id).unwrap().end == v);
        }
    }
    assert(records_sound(t, ns)) by {
        assert forall|v: u64| #[trigger] t.contains_key(vertex_key(ns, v)) implies vertex_at(
            t,
            ns,
            v,
        ) is Some && vertex_at(t, ns, v).unwrap().id == v by {
            assert(s.contains_key(vertex_key(ns, v)));
        }
        assert forall|x: u64| #[trigger] t.contains_key(edge_key(ns, x)) implies edge_at(
            t,
            ns,
            x,
        ) is Some && edge_at(t, ns, x).unwrap().id == x by {
            assert(s.contains_key(edge_key(ns, x)));
        }
    }
    assert(edges_indexed(t, ns)) by {
        assert forall|x: u64| #[trigger]
            t.contains_key(edge_key(ns, x)) && edge_at(t, ns, x) is Some implies t.contains_key(
            outgoing_key(ns, edge_at(t, ns, x).unwrap().start, x),
        ) && t.contains_key(incoming_key(ns, edge_at(t, ns, x).unwrap().end, x)) by {
            assert(s.contains_key(edge_key(ns, x)));
            let old = edge_at(s, ns, x).unwrap();
            assert(s.contains_key(outgoing_key(ns, old.start, x)));
            assert(s.contains_key(incoming_key(ns, old.end, x)));
        }
    }
    assert(index_sound(t, ns)) by {
        assert forall|x: u64, eid: u64| #[trigger]
            t.contains_key(outgoing_key(ns, x, eid)) implies edge_at(t, ns, eid) is Some
            && edge_at(t, ns, eid).unwrap().start == x by {
            assert(s.contains_key(outgoing_key(ns, x, eid)));
        }
        assert forall|x: u64, eid: u64| #[trigger]
            t.contains_key(incoming_key(ns, x, eid)) implies edge_at(t, ns, eid) is Some
            && edge_at(t, ns, eid).unwrap().end == x by {
            assert(s.contains_key(incoming_key(ns, x, eid)));
        }
    }
    assert(ids_issued(t, ns)) by {
        assert forall|v: u64| #[trigger]
            t.contains_key(vertex_key(ns, v)) && vertex_at(t, ns, v) is Some implies issued(
            t,
            ns,
            v,
            vertex_at(t, ns, v).unwrap().label,
        ) by {
            assert(s.contains_key(vertex_key(ns, v)));
            assert(issued(s, ns, v, vertex_at(s, ns, v).unwrap().label));
        }
        assert forall|x: u64| #[trigger]
            t.contains_key(edge_key(ns, x)) && edge_at(t, ns, x) is Some implies issued(
            t,
            ns,
            x,
            edge_at(t, ns, x).unwrap().label,
        ) by {
            assert(s.contains_key(edge_key(ns, x)));
            assert(issued(s, ns, x, edge_at(s, ns, x).unwrap().label));
        }
        assert forall|x: Seq<char>, y: Seq<char>|
            #![trigger label_at(t, ns, x), label_at(t, ns, y)]
            label_at(t, ns, x) is Some && label_at(t, ns, x) == label_at(t, ns, y) implies x
            == y by {
            assert(label_at(s, ns, x) == label_at(s, ns, y));
        }
    }
    if endpoints_exist(s, ns) {
        assert forall|x: u64| #[trigger]
            t.contains_key(edge_key(ns, x)) && edge_at(t, ns, x) is Some implies vertex_at(
            t,
            ns,
            edge_at(t, ns, x).unwrap().start,
        ) is Some && vertex_at(t, ns, edge_at(t, ns, x).unwrap().end) is Some by {
            assert(s.contains_key(edge_key(ns, x)));
        }
    }
}

/// Where following the entries of a scan gives no edge at all, every entry
/// names an edge whose record is gone.
proof fn lemma_no_edges_under(
    s: KvState,
    ns: Seq<u8>,
    prefix: Seq<u8>,
    sc: Seq<(Seq<u8>, Seq<u8>)>,
    i: int,
)
    requires
        edges_under(s, ns, prefix, sc) == Some(Seq::<EdgeView>::empty()),
        0 <= i < sc.len(),
    ensures
        index_key_target(sc[i].0, prefix) is Some,
        !s.contains_key(edge_key(ns, index_key_target(sc[i].0, prefix).unwrap())),
    decreases sc.len(),
{
    let front = edges_under(s, ns, prefix, sc.drop_last());
    assert(front is Some);
    let eid = index_key_target(sc.last().0, prefix).unwrap();
    if s.contains_key(edge_key(ns, eid)) {
        let e = decode_edge_spec(s[edge_key(ns, eid)]).unwrap();
        assert(front.unwrap().push(e).len() > 0);
    }
    assert(front.unwrap() =~= Seq::<EdgeView>::empty());
    if i < sc.len() - 1 {
        lemma_no_edges_under(s, ns, prefix, sc.drop_last(), i);
    }
}

/// Deleting a vertex succeeds exactly when no edge leaves or enters it, so
/// it keeps a valid state valid and every edge's endpoints stored.
pub proof fn theorem_delete_vertex<K: KvStore>(store: &GraphStore<K>, id: u64)
    requires
        store.inv(),
        graph_valid(store.state(), store.ns()),
        store.outgoing_read(id) == Some(Seq::<EdgeView>::empty()),
        store.incoming_read(id) == Some(Seq::<EdgeView>::empty()),
    ensures
        ({
            let s = store.state();
            let ns = store.ns();
            let t = s.remove(vertex_key(ns, id));
            &&& graph_valid(t, ns)
            &&& endpoints_exist(s, ns) ==> endpoints_exist(t, ns)
            &&& vertex_at(t, ns, id) is None
            &&& forall|e: u64| #[trigger]
                s.contains_key(edge_key(ns, e)) ==> edge_at(s, ns, e).unwrap().start != id
                    && edge_at(s, ns, e).unwrap().end != id
            &&& forall|e: u64| #[trigger] edge_at(t, ns, e) == edge_at(s, ns, e)
            &&& forall|v: u64| v != id ==> #[trigger] vertex_at(t, ns, v) == vertex_at(s, ns, v)
        }),
{
    let s = store.state();
    let ns = store.ns();
    let vk = vertex_key(ns, id);
    let t = s.remove(vk);
    lemma_key_facts(ns);
    assert(kind_of(vk) == KIND_VERTEX);
    let op = outgoing_prefix(ns, id);
    let ip = incoming_prefix(ns, id);
    lemma_scan(&store.kv, op);
    lemma_scan(&store.kv, ip);
    assert forall|e: u64| #[trigger] s.contains_key(edge_key(ns, e)) implies edge_at(
        s,
        ns,
        e,
    ).unwrap().start != id && edge_at(s, ns, e).unwrap().end != id by {
        let rec = edge_at(s, ns, e).unwrap();
        if rec.start == id {
            let k = outgoing_key(ns, id, e);
            assert(s.contains_key(k));
            lemma_index_key_prefix(ns, id, e, id);
            lemma_index_key_target(ns, id, e);
            let sc = store.kv.scan_spec(op);
            let i = choose|i: int| 0 <= i < sc.len() && sc[i].0 == k;
            lemma_no_edges_under(s, ns, op, sc, i);
        }
        if rec.end == id {
            let k = incoming_key(ns, id, e);
            assert(s.contains_key(k));
            lemma_index_key_prefix(ns, id, e, id);
            lemma_index_key_target(ns, id, e);
            let sc = store.kv.scan_spec(ip);
            let i = choose|i: int| 0 <= i < sc.len() && sc[i].0 == k;
            lemma_no_edges_under(s, ns, ip, sc, i);
        }
    }
    assert forall|n: Seq<char>| #[trigger] label_at(t, ns, n) == label_at(s, ns, n) by {
        assert(kind_of(label_key(ns, encode_utf8(n))) == KIND_LABEL);
    }
    assert forall|n: Seq<char>| #[trigger] counter_at(t, ns, n) == counter_at(s, ns, n) by {
        assert(kind_of(counter_key(ns, encode_utf8(n))) == KIND_COUNTER);
    }
    assert forall|e: u64| #[trigger] edge_at(t, ns, e) == edge_at(s, ns, e) && (t.contains_key(
        edge_key(ns, e),
    ) == s.contains_key(edge_key(ns, e))) by {
        assert(kind_of(edge_key(ns, e)) == KIND_EDGE);
    }
    assert forall|v: u64| v != id implies #[trigger] vertex_at(t, ns, v) == vertex_at(s, ns, v)
        && (t.contains_key(vertex_key(ns, v)) == s.contains_key(vertex_key(ns, v))) by {}
    assert forall|x: u64, y: u64| #[trigger]
        t.contains_key(outgoing_key(ns, x, y)) == s.contains_key(outgoing_key(ns, x, y)) by {
        assert(kind_of(outgoing_key(ns, x, y)) == KIND_OUTGOING);
    }
    assert forall|x: u64, y: u64| #[trigger]
        t.contains_key(incoming_key(ns, x, y)) == s.contains_key(incoming_key(ns, x, y)) by {
        assert(kind_of(incoming_key(ns, x, y)) == KIND_INCOMING);
    }
    assert(records_sound(t, ns)) by {
        assert forall|v: u64| #[trigger] t.contains_key(vertex_key(ns, v)) implies vertex_at(
            t,
            ns,
            v,
        ) is Some && vertex_at(t, ns, v).unwrap().id == v by {
            assert(s.contains_key(vertex_key(ns, v)));
        }
        assert forall|x: u64| #[trigger] t.contains_key(edge_key(ns, x)) implies edge_at(
            t,
            ns,
            x,
        ) is Some && edge_at(t, ns, x).unwrap().id == x by {
            assert(s.contains_key(edge_key(ns, x)));
        }
    }
    assert(edges_indexed(t, ns)) by {
        assert forall|x: u64| #[trigger]
            t.contains_key(edge_key(ns, x)) && edge_at(t, ns, x) is Some implies t.contains_key(
            outgoing_key(ns, edge_at(t, ns, x).unwrap().start, x),
        ) && t.contains_key(incoming_key(ns, edge_at(t, ns, x).unwrap().end, x)) by {
            assert(s.contains_key(edge_key(ns, x)));
            let old = edge_at(s, ns, x).unwrap();
            assert(s.contains_key(outgoing_key(ns, old.start, x)));
            assert(s.contains_key(incoming_key(ns, old.end, x)));
        }
    }
    assert(index_sound(t, ns)) by {
        assert forall|x: u64, eid: u64| #[trigger]
            t.contains_key(outgoing_key(ns, x, eid)) implies edge_at(t, ns, eid) is Some
            && edge_at(t, ns, eid).unwrap().start == x by {
            assert(s.contains_key(outgoing_key(ns, x, eid)));
        }
        assert forall|x: u64, eid: u64| #[trigger]
            t.contains_key(incoming_key(ns, x, eid)) implies edge_at(t, ns, eid) is Some
            && edge_at(t, ns, eid).unwrap().end == x by {
            assert(s.contains_key(incoming_key(ns, x, eid)));
        }
    }
    assert(ids_issued(t, ns)) by {
        assert forall|v: u64| #[trigger]
            t.contains_key(vertex_key(ns, v)) && vertex_at(t, ns, v) is Some implies issued(
            t,
            ns,
            v,
            vertex_at(t, ns, v).unwrap().label,
        ) by {
            assert(s.contains_key(vertex_key(ns, v)));
            assert(issued(s, ns, v, vertex_at(s, ns, v).unwrap().label));
        }
        assert forall|x: u64| #[trigger]
            t.contains_key(edge_key(ns, x)) && edge_at(t, ns, x) is Some implies issued(
            t,
            ns,
            x,
            edge_at(t, ns, x).unwrap().label,
        ) by {
            assert(s.contains_key(edge_key(ns, x)));
            assert(issued(s, ns, x, edge_at(s, ns, x).unwrap().label));
        }
        assert forall|x: Seq<char>, y: Seq<char>|
            #![trigger label_at(t, ns, x), label_at(t, ns, y)]
            label_at(t, ns, x) is Some && label_at(t, ns, x) == label_at(t, ns, y) implies x
            == y by {
            assert(label_at(s, ns, x) == label_at(s, ns, y));
        }
    }
    if endpoints_exist(s, ns) {
        assert forall|x: u64| #[trigger]
            t.contains_key(edge_key(ns, x)) && edge_at(t, ns, x) is Some implies vertex_at(
            t,
            ns,
            edge_at(t, ns, x).unwrap().start,
        ) is Some && vertex_at(t, ns, edge_at(t, ns, x).unwrap().end) is Some by {
            assert(s.contains_key(edge_key(ns, x)));
        }
    }
}

/// The empty store is a valid state in which every edge has its endpoints.
pub proof fn theorem_empty_valid(ns: Seq<u8>)
    ensures
        graph_valid(Map::<Seq<u8>, Seq<u8>>::empty(), ns),
        endpoints_exist(Map::<Seq<u8>, Seq<u8>>::empty(), ns),
{
}

/// After a commit every staged write is in effect: a key holds what the
/// last write that names it says, and a key that no staged write names holds
/// what it held. Before a commit, and after a rollback, the store holds what
/// it held: no operation of a transaction but `commit` takes the store by
/// mutable reference.
pub proof fn theorem_commit_effects(s: KvState, ops: Seq<WriteOpView>, key: Seq<u8>)
    ensures
        match overlay(ops, key) {
            Some(Some(value)) => apply_ops(s, ops).contains_key(key) && apply_ops(s, ops)[key]
                == value,
            Some(None) => !apply_ops(s, ops).contains_key(key),
            None => apply_ops(s, ops).contains_key(key) == s.contains_key(key) && (s.contains_key(
                key,
            ) ==> apply_ops(s, ops)[key] == s[key]),
        },
{
    lemma_lookup(s, ops, key);
}

/// A write that no later write of the batch overrides is in effect after
/// the commit.
pub proof fn theorem_staged_write_observable(s: KvState, ops: Seq<WriteOpView>, i: int)
    requires
        0 <= i < ops.len(),
        forall|j: int| i < j < ops.len() ==> written_key(ops[j]) != written_key(ops[i]),
    ensures
        match ops[i] {
            WriteOpView::Put { key, value } => apply_ops(s, ops).contains_key(key) && apply_ops(
                s,
                ops,
            )[key] == value,
            WriteOpView::Delete { key } => !apply_ops(s, ops).contains_key(key),
        },
    decreases ops.len(),
{
    if i < ops.len() - 1 {
        theorem_staged_write_observable(s, ops.drop_last(), i);
    }
}

/// The key that a write names.
pub open spec fn written_key(op: WriteOpView) -> Seq<u8> {
    match op {
        WriteOpView::Put { key, value } => key,
        WriteOpView::Delete { key } => key,
    }
}

} // verus!
