//! Transactions: writes are staged in order and reach the store as one
//! atomic batch on commit. Reads inside a transaction see committed state
//! only; identifier allocation also sees what the transaction has staged.

use crate::bytes::{bytes_eq, copy_bytes, has_prefix, starts_with};
use crate::json::Json;
use crate::storage::codec::{
    encode_edge, encode_edge_spec, encode_vertex, encode_vertex_spec,
};
use crate::storage::engine::{edges_view, ordinal_of, GraphStore};
use crate::storage::error::StorageError;
use crate::storage::keys::{
    counter_key, edge_key, incoming_key, label_key, label_prefix, make_counter_key,
    make_edge_key, make_incoming_key, make_label_key, make_label_prefix, make_outgoing_key,
    make_vertex_key, outgoing_key, vertex_key,
};
use crate::storage::kv::{
    apply_op, apply_ops, entries_view, lemma_apply_ops_concat, ops_view, Entry, KvState,
    KvStore, WriteOp, WriteOpView,
};
use crate::types::edge::{Edge, EdgeView};
use crate::types::graphid::{spec_pack, Graphid, MAX_LOCID};
use crate::types::vertex::{Vertex, VertexView};
use vstd::bytes::{
    spec_u16_to_le_bytes, spec_u64_from_le_bytes, spec_u64_to_le_bytes, u16_from_le_bytes,
    u16_to_le_bytes, u64_from_le_bytes, u64_to_le_bytes,
};
use vstd::prelude::*;
use vstd::slice::slice_subrange;
use vstd::utf8::encode_utf8;

verus! {

/// What the staged writes say about a key: nothing, that it was deleted
/// (`Some(None)`), or the value it was last set to.
pub open spec fn overlay(ops: Seq<WriteOpView>, key: Seq<u8>) -> Option<Option<Seq<u8>>>
    decreases ops.len(),
{
    if ops.len() == 0 {
        None
    } else {
        match ops.last() {
            WriteOpView::Put { key: k, value } => if k == key {
                Some(Some(value))
            } else {
                overlay(ops.drop_last(), key)
            },
            WriteOpView::Delete { key: k } => if k == key {
                Some(None)
            } else {
                overlay(ops.drop_last(), key)
            },
        }
    }
}

/// The value under `key` once the staged writes are applied.
pub open spec fn lookup(s: KvState, ops: Seq<WriteOpView>, key: Seq<u8>) -> Option<Seq<u8>> {
    match overlay(ops, key) {
        Some(o) => o,
        None => if s.contains_key(key) {
            Some(s[key])
        } else {
            None
        },
    }
}

/// After a batch, each key holds what the last write to it says, and what it
/// held before where no write names it.
pub proof fn lemma_lookup(s: KvState, ops: Seq<WriteOpView>, key: Seq<u8>)
    ensures
        apply_ops(s, ops).contains_key(key) == lookup(s, ops, key).is_some(),
        apply_ops(s, ops).contains_key(key) ==> apply_ops(s, ops)[key] == lookup(
            s,
            ops,
            key,
        ).unwrap(),
    decreases ops.len(),
{
    if ops.len() > 0 {
        lemma_lookup(s, ops.drop_last(), key);
    }
}

/// The counter that a stored value holds: its first eight bytes, little
/// endian.
pub open spec fn counter_of(value: Seq<u8>) -> Option<u64> {
    if value.len() >= 8 {
        Some(spec_u64_from_le_bytes(value.subrange(0, 8)))
    } else {
        None
    }
}

/// The last local ordinal issued for a label: zero where none was.
pub open spec fn counter_at(s: KvState, ns: Seq<u8>, name: Seq<char>) -> Option<u64> {
    if s.contains_key(counter_key(ns, encode_utf8(name))) {
        counter_of(s[counter_key(ns, encode_utf8(name))])
    } else {
        Some(0)
    }
}

/// The largest ordinal among scanned catalog entries; a value that is no
/// ordinal counts as zero.
pub open spec fn max_ordinal(sc: Seq<(Seq<u8>, Seq<u8>)>) -> nat
    decreases sc.len(),
{
    if sc.len() == 0 {
        0
    } else {
        let front = max_ordinal(sc.drop_last());
        match ordinal_of(sc.last().1) {
            Some(o) => if o > front {
                o as nat
            } else {
                front
            },
            None => front,
        }
    }
}

/// The largest ordinal among the staged catalog writes.
pub open spec fn staged_max_ordinal(ops: Seq<WriteOpView>, prefix: Seq<u8>) -> nat
    decreases ops.len(),
{
    if ops.len() == 0 {
        0
    } else {
        let front = staged_max_ordinal(ops.drop_last(), prefix);
        match ops.last() {
            WriteOpView::Put { key, value } => if has_prefix(key, prefix) {
                match ordinal_of(value) {
                    Some(o) => if o > front {
                        o as nat
                    } else {
                        front
                    },
                    None => front,
                }
            } else {
                front
            },
            WriteOpView::Delete { key } => front,
        }
    }
}

/// The ordinal for a new label: one more than the largest in the catalog,
/// staged writes included; 1 for the first label.
pub open spec fn next_ordinal(sc: Seq<(Seq<u8>, Seq<u8>)>, ops: Seq<WriteOpView>, prefix: Seq<u8>) -> nat {
    (if max_ordinal(sc) > staged_max_ordinal(ops, prefix) {
        max_ordinal(sc)
    } else {
        staged_max_ordinal(ops, prefix)
    }) + 1
}

/// Why a planned write cannot be staged.
pub enum Fault {
    /// The transaction is committed or rolled back.
    Terminal,
    /// The catalog or the counter holds a value the engine never writes.
    Corrupt,
    /// The label ordinals, or the label's local ordinals, are used up.
    Overflow,
    /// The record cannot be written so that it reads back.
    Unwritable,
    /// The record to change is not there.
    Missing,
}

/// The fault that an error reports.
pub open spec fn reports(e: StorageError, f: Fault) -> bool {
    match f {
        Fault::Terminal => e is TransactionError,
        Fault::Corrupt => e is InvalidState || e is SerializationError,
        Fault::Overflow => e is CounterOverflow,
        Fault::Unwritable => e is SerializationError,
        Fault::Missing => e is VertexNotFound || e is EdgeNotFound,
    }
}

/// An identifier together with the writes that allocate it.
pub struct Allocation {
    pub labid: u16,
    pub locid: u64,
    pub writes: Seq<WriteOpView>,
}

/// The identifier that the next record of `label` gets, with the catalog
/// and counter writes that go with it. `s` is the state with the staged
/// writes applied; `fresh` is the ordinal for a label that is new.
pub open spec fn allocate(s: KvState, fresh: nat, ns: Seq<u8>, label: Seq<char>) -> Result<
    Allocation,
    Fault,
> {
    let name = encode_utf8(label);
    if s.contains_key(label_key(ns, name)) && ordinal_of(s[label_key(ns, name)]) is None {
        Err(Fault::Corrupt)
    } else if !s.contains_key(label_key(ns, name)) && fresh >= 65535 {
        Err(Fault::Overflow)
    } else if counter_at(s, ns, label) is None {
        Err(Fault::Corrupt)
    } else if counter_at(s, ns, label).unwrap() >= MAX_LOCID {
        Err(Fault::Overflow)
    } else {
        let locid = (counter_at(s, ns, label).unwrap() + 1) as u64;
        let count = WriteOpView::Put {
            key: counter_key(ns, name),
            value: spec_u64_to_le_bytes(locid),
        };
        if s.contains_key(label_key(ns, name)) {
            Ok(
                Allocation {
                    labid: ordinal_of(s[label_key(ns, name)]).unwrap(),
                    locid,
                    writes: seq![count],
                },
            )
        } else {
            Ok(
                Allocation {
                    labid: fresh as u16,
                    locid,
                    writes: seq![
                        WriteOpView::Put {
                            key: label_key(ns, name),
                            value: spec_u16_to_le_bytes(fresh as u16),
                        },
                        count,
                    ],
                },
            )
        }
    }
}

/// A transaction: a list of staged writes and a state. Committing or rolling
/// back makes the handle terminal.
pub struct GraphTransaction {
    operations: Vec<WriteOp>,
    committed: bool,
    rolled_back: bool,
}

/// What the last staged write to a key says.
enum Staged {
    Unset,
    Deleted,
    Value(Vec<u8>),
}

impl GraphTransaction {
    /// The staged writes, oldest first.
    pub closed spec fn staged(&self) -> Seq<WriteOpView> {
        ops_view(self.operations@)
    }

    /// The transaction has been committed.
    pub closed spec fn is_committed(&self) -> bool {
        self.committed
    }

    /// The transaction has been rolled back.
    pub closed spec fn is_rolled_back(&self) -> bool {
        self.rolled_back
    }

    /// The transaction can still stage writes.
    pub open spec fn is_open(&self) -> bool {
        !self.is_committed() && !self.is_rolled_back()
    }

    /// The state that the store would have if the transaction were
    /// committed now.
    pub open spec fn pending_state<K: KvStore>(&self, store: &GraphStore<K>) -> KvState {
        apply_ops(store.state(), self.staged())
    }

    /// The ordinal that a label new to this transaction and to the store
    /// would get.
    pub open spec fn fresh_ordinal<K: KvStore>(&self, store: &GraphStore<K>) -> nat {
        next_ordinal(
            store.kv.scan_spec(label_prefix(store.ns())),
            self.staged(),
            label_prefix(store.ns()),
        )
    }

    /// The vertex that `create_vertex` would stage, and its writes.
    pub open spec fn vertex_plan<K: KvStore>(
        &self,
        store: &GraphStore<K>,
        label: Seq<char>,
        properties: crate::json::JsonView,
    ) -> Result<(VertexView, Seq<WriteOpView>), Fault> {
        plan_vertex(
            self.is_open(),
            self.pending_state(store),
            self.fresh_ordinal(store),
            store.ns(),
            label,
            properties,
        )
    }

    /// The edge that `create_edge` would stage, and its writes.
    pub open spec fn edge_plan<K: KvStore>(
        &self,
        store: &GraphStore<K>,
        label: Seq<char>,
        start: u64,
        end: u64,
        properties: crate::json::JsonView,
    ) -> Result<(EdgeView, Seq<WriteOpView>), Fault> {
        plan_edge(
            self.is_open(),
            self.pending_state(store),
            self.fresh_ordinal(store),
            store.ns(),
            label,
            start,
            end,
            properties,
        )
    }

    /// A new transaction with nothing staged.
    pub fn new() -> (r: GraphTransaction)
        ensures
            r.is_open(),
            r.staged() == Seq::<WriteOpView>::empty(),
    {
        let r = GraphTransaction {
            operations: Vec::new(),
            committed: false,
            rolled_back: false,
        };
        assert(r.staged() =~= Seq::<WriteOpView>::empty());
        r
    }

    /// The error of a terminal handle: a transaction error that says
    /// "already committed" of a committed handle and "already rolled back" of
    /// any other.
    pub open spec fn refuses(&self, e: StorageError) -> bool {
        e matches StorageError::TransactionError(m) && m@ == (if self.is_committed() {
            "already committed"@
        } else {
            "already rolled back"@
        })
    }

    /// Fails on a terminal handle: "already committed" or "already rolled
    /// back".
    pub fn check_state(&self) -> (r: Result<(), StorageError>)
        ensures
            r is Ok <==> self.is_open(),
            r matches Err(e) ==> e is TransactionError && self.refuses(e),
    {
        if self.committed {
            return Err(StorageError::TransactionError("already committed".to_owned()));
        }
        if self.rolled_back {
            return Err(StorageError::TransactionError("already rolled back".to_owned()));
        }
        Ok(())
    }

    /// What the staged writes say about `key`.
    fn staged_value(&self, key: &[u8]) -> (r: Staged)
        ensures
            match r {
                Staged::Unset => overlay(self.staged(), key@) is None,
                Staged::Deleted => overlay(self.staged(), key@) == Some(None::<Seq<u8>>),
                Staged::Value(v) => overlay(self.staged(), key@) == Some(Some(v@)),
            },
    {
        let mut i: usize = self.operations.len();
        let ghost all = self.staged();
        assert(all.subrange(0, i as int) =~= all);
        while i > 0
            invariant
                0 <= i <= self.operations.len(),
                all == self.staged(),
                overlay(all, key@) == overlay(all.subrange(0, i as int), key@),
            decreases i,
        {
            proof {
                let t = all.subrange(0, i as int);
                assert(t.drop_last() =~= all.subrange(0, i as int - 1));
                assert(t.last() == self.operations[i as int - 1]@);
            }
            match &self.operations[i - 1] {
                WriteOp::Put { key: k, value } => {
                    if bytes_eq(k.as_slice(), key) {
                        return Staged::Value(copy_bytes(value.as_slice()));
                    }
                },
                WriteOp::Delete { key: k } => {
                    if bytes_eq(k.as_slice(), key) {
                        return Staged::Deleted;
                    }
                },
            }
            i -= 1;
        }
        Staged::Unset
    }

    /// The value under `key` as a commit now would leave it.
    fn read_key<K: KvStore>(&self, store: &GraphStore<K>, key: &[u8]) -> (r: Result<
        Option<Vec<u8>>,
        StorageError,
    >)
        requires
            store.inv(),
        ensures
            r matches Ok(Some(v)) ==> lookup(store.state(), self.staged(), key@) == Some(v@),
            r matches Ok(None) ==> lookup(store.state(), self.staged(), key@) is None,
            store.kv.reliable() ==> r is Ok,
    {
        match self.staged_value(key) {
            Staged::Value(v) => Ok(Some(v)),
            Staged::Deleted => Ok(None),
            Staged::Unset => store.kv.get(key),
        }
    }

    /// The largest ordinal among the staged catalog writes.
    fn staged_max(&self, prefix: &[u8]) -> (r: u16)
        ensures
            r == staged_max_ordinal(self.staged(), prefix@),
    {
        let mut best: u16 = 0;
        let mut i: usize = 0;
        let ghost all = self.staged();
        assert(all.subrange(0, 0) =~= Seq::empty());
        while i < self.operations.len()
            invariant
                0 <= i <= self.operations.len(),
                all == self.staged(),
                best == staged_max_ordinal(all.subrange(0, i as int), prefix@),
            decreases self.operations.len() - i,
        {
            proof {
                let t = all.subrange(0, i as int + 1);
                assert(t.drop_last() =~= all.subrange(0, i as int));
                assert(t.last() == self.operations[i as int]@);
            }
            match &self.operations[i] {
                WriteOp::Put { key, value } => {
                    if starts_with(key.as_slice(), prefix) && value.len() >= 2 {
                        let o = u16_from_le_bytes(slice_subrange(value.as_slice(), 0, 2));
                        if o > best {
                            best = o;
                        }
                    }
                },
                WriteOp::Delete { key } => {},
            }
            i += 1;
        }
        assert(all.subrange(0, i as int) =~= all);
        best
    }

    /// The ordinal for a label that is new: one more than the largest that
    /// the catalog or the staged writes hold.
    fn next_label_ordinal<K: KvStore>(&self, store: &GraphStore<K>) -> (r: Result<
        u32,
        StorageError,
    >)
        requires
            store.inv(),
        ensures
            r matches Ok(n) ==> n == self.fresh_ordinal(store),
            store.kv.reliable() ==> r is Ok,
    {
        let prefix = make_label_prefix(store.graph_name.as_str());
        let entries = match store.kv.scan_prefix(prefix.as_slice()) {
            Ok(entries) => entries,
            Err(e) => {
                return Err(e);
            },
        };
        let ghost sc = entries_view(entries@);
        let mut best: u16 = self.staged_max(prefix.as_slice());
        let ghost staged_best = best;
        let mut i: usize = 0;
        assert(sc.subrange(0, 0) =~= Seq::empty());
        while i < entries.len()
            invariant
                0 <= i <= entries.len(),
                sc == entries_view(entries@),
                best as nat == if max_ordinal(sc.subrange(0, i as int)) > staged_best {
                    max_ordinal(sc.subrange(0, i as int))
                } else {
                    staged_best as nat
                },
            decreases entries.len() - i,
        {
            proof {
                let t = sc.subrange(0, i as int + 1);
                assert(t.drop_last() =~= sc.subrange(0, i as int));
                assert(t.last() == entries[i as int]@);
            }
            if entries[i].value.len() >= 2 {
                let o = u16_from_le_bytes(slice_subrange(entries[i].value.as_slice(), 0, 2));
                if o > best {
                    best = o;
                }
            }
            i += 1;
        }
        assert(sc.subrange(0, i as int) =~= sc);
        Ok(best as u32 + 1)
    }
}

/// The vertex that creating one with `label` and `properties` gives, and
/// the writes that it stages.
pub open spec fn plan_vertex(
    open: bool,
    s: KvState,
    fresh: nat,
    ns: Seq<u8>,
    label: Seq<char>,
    properties: crate::json::JsonView,
) -> Result<(VertexView, Seq<WriteOpView>), Fault> {
    if !open {
        Err(Fault::Terminal)
    } else {
        match allocate(s, fresh, ns, label) {
            Err(f) => Err(f),
            Ok(a) => {
                let v = VertexView { id: spec_pack(a.labid, a.locid), label, properties };
                match encode_vertex_spec(v) {
                    None => Err(Fault::Unwritable),
                    Some(b) => Ok(
                        (v, a.writes.push(WriteOpView::Put { key: vertex_key(ns, v.id), value: b })),
                    ),
                }
            },
        }
    }
}

/// The edge that creating one gives, and the writes that it stages: the
/// record and both adjacency entries, whose values are empty.
pub open spec fn plan_edge(
    open: bool,
    s: KvState,
    fresh: nat,
    ns: Seq<u8>,
    label: Seq<char>,
    start: u64,
    end: u64,
    properties: crate::json::JsonView,
) -> Result<(EdgeView, Seq<WriteOpView>), Fault> {
    if !open {
        Err(Fault::Terminal)
    } else {
        match allocate(s, fresh, ns, label) {
            Err(f) => Err(f),
            Ok(a) => {
                let e = EdgeView { id: spec_pack(a.labid, a.locid), start, end, label, properties };
                match encode_edge_spec(e) {
                    None => Err(Fault::Unwritable),
                    Some(b) => Ok(
                        (
                            e,
                            a.writes.push(
                                WriteOpView::Put { key: edge_key(ns, e.id), value: b },
                            ).push(
                                WriteOpView::Put {
                                    key: outgoing_key(ns, start, e.id),
                                    value: Seq::empty(),
                                },
                            ).push(
                                WriteOpView::Put {
                                    key: incoming_key(ns, end, e.id),
                                    value: Seq::empty(),
                                },
                            ),
                        ),
                    ),
                }
            },
        }
    }
}

/// The writes that delete the edge stored under `id`: its record and both
/// adjacency entries, which are found by the endpoints that the record names.
pub open spec fn edge_removal(ns: Seq<u8>, id: u64, e: EdgeView) -> Seq<WriteOpView> {
    seq![
        WriteOpView::Delete { key: edge_key(ns, id) },
        WriteOpView::Delete { key: outgoing_key(ns, e.start, id) },
        WriteOpView::Delete { key: incoming_key(ns, e.end, id) },
    ]
}

impl GraphTransaction {
    /// Appends writes to the staged list.
    fn stage(&mut self, writes: Vec<WriteOp>)
        ensures
            final(self).staged() == old(self).staged() + ops_view(writes@),
            final(self).is_committed() == old(self).is_committed(),
            final(self).is_rolled_back() == old(self).is_rolled_back(),
    {
        let mut writes = writes;
        let ghost added = ops_view(writes@);
        self.operations.append(&mut writes);
        assert(self.staged() =~= old(self).staged() + added);
    }

    /// Plans the identifier of the next record of `label`.
    fn allocate_id<K: KvStore>(&self, store: &GraphStore<K>, label: &str) -> (r: Result<
        (u16, u64, Vec<WriteOp>),
        StorageError,
    >)
        requires
            store.inv(),
        ensures
            r matches Ok(t) ==> allocate(
                self.pending_state(store),
                self.fresh_ordinal(store),
                store.ns(),
                label@,
            ) == Ok::<Allocation, Fault>(
                Allocation { labid: t.0, locid: t.1, writes: ops_view(t.2@) },
            ),
            store.kv.reliable() && r is Err ==> allocate(
                self.pending_state(store),
                self.fresh_ordinal(store),
                store.ns(),
                label@,
            ) is Err && reports(
                r->Err_0,
                allocate(
                    self.pending_state(store),
                    self.fresh_ordinal(store),
                    store.ns(),
                    label@,
                )->Err_0,
            ),
    {
        let ghost s = self.pending_state(store);
        let ghost ns = store.ns();
        let mut writes: Vec<WriteOp> = Vec::new();
        let lkey = make_label_key(store.graph_name.as_str(), label);
        let ckey = make_counter_key(store.graph_name.as_str(), label);
        proof {
            lemma_lookup(store.state(), self.staged(), lkey@);
            lemma_lookup(store.state(), self.staged(), ckey@);
        }
        let labid: u16 = match self.read_key(store, lkey.as_slice()) {
            Err(e) => {
                return Err(e);
            },
            Ok(Some(bytes)) => {
                if bytes.len() < 2 {
                    return Err(
                        StorageError::InvalidState("catalog value is no ordinal".to_owned()),
                    );
                }
                u16_from_le_bytes(slice_subrange(bytes.as_slice(), 0, 2))
            },
            Ok(None) => {
                let n = match self.next_label_ordinal(store) {
                    Ok(n) => n,
                    Err(e) => {
                        return Err(e);
                    },
                };
                if n >= 65535 {
                    return Err(StorageError::CounterOverflow(label.to_owned()));
                }
                let ordinal: u16 = n as u16;
                writes.push(WriteOp::Put { key: lkey, value: u16_to_le_bytes(ordinal) });
                ordinal
            },
        };
        let current: u64 = match self.read_key(store, ckey.as_slice()) {
            Err(e) => {
                return Err(e);
            },
            Ok(Some(bytes)) => {
                if bytes.len() < 8 {
                    return Err(StorageError::InvalidState("counter value is no number".to_owned()));
                }
                u64_from_le_bytes(slice_subrange(bytes.as_slice(), 0, 8))
            },
            Ok(None) => 0,
        };
        if current >= MAX_LOCID {
            return Err(StorageError::CounterOverflow(label.to_owned()));
        }
        let locid: u64 = current + 1;
        writes.push(WriteOp::Put { key: ckey, value: u64_to_le_bytes(locid) });
        proof {
            let plan = allocate(s, self.fresh_ordinal(store), ns, label@);
            assert(plan is Ok);
            assert(ops_view(writes@) =~= plan->Ok_0.writes);
        }
        Ok((labid, locid, writes))
    }

    /// Stages a new vertex of `label`: allocates the label ordinal if the
    /// label is new, reserves the next local ordinal, stages the record.
    /// Nothing is staged when the call fails.
    pub fn create_vertex<K: KvStore>(
        &mut self,
        store: &GraphStore<K>,
        label: &str,
        properties: Json,
    ) -> (r: Result<Vertex, StorageError>)
        requires
            store.inv(),
        ensures
            final(self).is_committed() == old(self).is_committed(),
            final(self).is_rolled_back() == old(self).is_rolled_back(),
            r is Err ==> final(self).staged() == old(self).staged(),
            r matches Ok(v) ==> old(self).is_open() && (old(self).vertex_plan(
                store,
                label@,
                properties@,
            ) matches Ok(p) && p.0 == v@ && final(self).staged() == old(self).staged() + p.1),
            store.kv.reliable() && r is Err ==> (old(self).vertex_plan(
                store,
                label@,
                properties@,
            ) matches Err(f) && reports(r->Err_0, f)),
            !old(self).is_open() ==> r is Err && old(self).refuses(r->Err_0),
    {
        match self.check_state() {
            Err(e) => {
                return Err(e);
            },
            Ok(()) => {},
        }
        let (labid, locid, mut writes) = match self.allocate_id(store, label) {
            Ok(t) => t,
            Err(e) => {
                return Err(e);
            },
        };
        let id = match Graphid::new(labid, locid) {
            Ok(id) => id,
            Err(_) => {
                return Err(StorageError::InvalidState("local ordinal out of range".to_owned()));
            },
        };
        let vertex = Vertex::new(id, label, properties);
        let value = match encode_vertex(&vertex) {
            Ok(value) => value,
            Err(e) => {
                return Err(e);
            },
        };
        let ghost allocated = ops_view(writes@);
        writes.push(WriteOp::Put { key: make_vertex_key(store.graph_name.as_str(), id), value });
        let ghost added = ops_view(writes@);
        assert(added =~= allocated.push(
            WriteOpView::Put { key: vertex_key(store.ns(), id@), value: value@ },
        ));
        self.stage(writes);
        Ok(vertex)
    }

    /// Stages a new edge of `label` from `start` to `end`: the record and
    /// both adjacency entries. The endpoints are not looked up. Nothing is
    /// staged when the call fails.
    pub fn create_edge<K: KvStore>(
        &mut self,
        store: &GraphStore<K>,
        label: &str,
        start: Graphid,
        end: Graphid,
        properties: Json,
    ) -> (r: Result<Edge, StorageError>)
        requires
            store.inv(),
        ensures
            final(self).is_committed() == old(self).is_committed(),
            final(self).is_rolled_back() == old(self).is_rolled_back(),
            r is Err ==> final(self).staged() == old(self).staged(),
            r matches Ok(e) ==> old(self).is_open() && (old(self).edge_plan(
                store,
                label@,
                start@,
                end@,
                properties@,
            ) matches Ok(p) && p.0 == e@ && final(self).staged() == old(self).staged() + p.1),
            store.kv.reliable() && r is Err ==> (old(self).edge_plan(
                store,
                label@,
                start@,
                end@,
                properties@,
            ) matches Err(f) && reports(r->Err_0, f)),
            !old(self).is_open() ==> r is Err && old(self).refuses(r->Err_0),
    {
        match self.check_state() {
            Err(e) => {
                return Err(e);
            },
            Ok(()) => {},
        }
        let (labid, locid, mut writes) = match self.allocate_id(store, label) {
            Ok(t) => t,
            Err(e) => {
                return Err(e);
            },
        };
        let id = match Graphid::new(labid, locid) {
            Ok(id) => id,
            Err(_) => {
                return Err(StorageError::InvalidState("local ordinal out of range".to_owned()));
            },
        };
        let edge = Edge::new(id, start, end, label, properties);
        let value = match encode_edge(&edge) {
            Ok(value) => value,
            Err(e) => {
                return Err(e);
            },
        };
        let ghost allocated = ops_view(writes@);
        let name = store.graph_name.as_str();
        writes.push(WriteOp::Put { key: make_edge_key(name, id), value });
        writes.push(WriteOp::Put { key: make_outgoing_key(name, start, id), value: Vec::new() });
        writes.push(WriteOp::Put { key: make_incoming_key(name, end, id), value: Vec::new() });
        let ghost added = ops_view(writes@);
        assert(added =~= allocated.push(
            WriteOpView::Put { key: edge_key(store.ns(), id@), value: value@ },
        ).push(
            WriteOpView::Put { key: outgoing_key(store.ns(), start@, id@), value: Seq::empty() },
        ).push(
            WriteOpView::Put { key: incoming_key(store.ns(), end@, id@), value: Seq::empty() },
        ));
        self.stage(writes);
        Ok(edge)
    }
}

impl GraphTransaction {
    /// The vertex `id` in the committed state.
    pub fn get_vertex<K: KvStore>(&self, store: &GraphStore<K>, id: Graphid) -> (r: Result<
        Option<Vertex>,
        StorageError,
    >)
        requires
            store.inv(),
        ensures
            r matches Ok(Some(v)) ==> store.vertex_spec(id@) == Some(v@),
            r matches Ok(None) ==> !store.state().contains_key(vertex_key(store.ns(), id@)),
            store.kv.reliable() ==> (r is Err <==> crate::storage::engine::vertex_corrupt(
                store.state(),
                store.ns(),
                id@,
            )),
    {
        store.get_vertex(id)
    }

    /// The edge `id` in the committed state.
    pub fn get_edge<K: KvStore>(&self, store: &GraphStore<K>, id: Graphid) -> (r: Result<
        Option<Edge>,
        StorageError,
    >)
        requires
            store.inv(),
        ensures
            r matches Ok(Some(e)) ==> store.edge_spec(id@) == Some(e@),
            r matches Ok(None) ==> !store.state().contains_key(edge_key(store.ns(), id@)),
            store.kv.reliable() ==> (r is Err <==> crate::storage::engine::edge_corrupt(
                store.state(),
                store.ns(),
                id@,
            )),
    {
        store.get_edge(id)
    }

    /// The edges that leave `vid` in the committed state.
    pub fn get_outgoing_edges<K: KvStore>(&self, store: &GraphStore<K>, vid: Graphid) -> (r:
        Result<Vec<Edge>, StorageError>)
        requires
            store.inv(),
        ensures
            r matches Ok(es) ==> store.outgoing_read(vid@) == Some(edges_view(es@)),
            store.kv.reliable() ==> (r is Err <==> store.outgoing_read(vid@) is None),
    {
        store.get_outgoing_edges(vid)
    }

    /// The edges that enter `vid` in the committed state.
    pub fn get_incoming_edges<K: KvStore>(&self, store: &GraphStore<K>, vid: Graphid) -> (r:
        Result<Vec<Edge>, StorageError>)
        requires
            store.inv(),
        ensures
            r matches Ok(es) ==> store.incoming_read(vid@) == Some(edges_view(es@)),
            store.kv.reliable() ==> (r is Err <==> store.incoming_read(vid@) is None),
    {
        store.get_incoming_edges(vid)
    }

    /// Stages new properties for the committed vertex `id`; its label stays.
    pub fn update_vertex<K: KvStore>(
        &mut self,
        store: &GraphStore<K>,
        id: Graphid,
        properties: Json,
    ) -> (r: Result<(), StorageError>)
        requires
            store.inv(),
        ensures
            final(self).is_committed() == old(self).is_committed(),
            final(self).is_rolled_back() == old(self).is_rolled_back(),
            r is Err ==> final(self).staged() == old(self).staged(),
            r is Ok ==> old(self).is_open() && store.vertex_spec(id@) is Some && {
                let v = VertexView { properties: properties@, ..store.vertex_spec(id@).unwrap() };
                encode_vertex_spec(v) is Some && final(self).staged() == old(self).staged().push(
                    WriteOpView::Put {
                        key: vertex_key(store.ns(), id@),
                        value: encode_vertex_spec(v).unwrap(),
                    },
                )
            },
            !old(self).is_open() ==> r is Err && old(self).refuses(r->Err_0),
            old(self).is_open() && !store.state().contains_key(vertex_key(store.ns(), id@)) && store.kv.reliable()
                ==> r matches Err(StorageError::VertexNotFound(_)),
            old(self).is_open() && store.kv.reliable() && store.vertex_spec(id@) is Some && encode_vertex_spec(
                VertexView { properties: properties@, ..store.vertex_spec(id@).unwrap() },
            ) is Some ==> r is Ok,
    {
        match self.check_state() {
            Err(e) => {
                return Err(e);
            },
            Ok(()) => {},
        }
        let vertex = match store.get_vertex(id) {
            Ok(Some(v)) => v,
            Ok(None) => {
                return Err(StorageError::VertexNotFound(id.to_string()));
            },
            Err(e) => {
                return Err(e);
            },
        };
        let updated = Vertex { id: vertex.id, label: vertex.label, properties };
        let value = match encode_vertex(&updated) {
            Ok(value) => value,
            Err(e) => {
                return Err(e);
            },
        };
        let mut writes: Vec<WriteOp> = Vec::new();
        writes.push(WriteOp::Put { key: make_vertex_key(store.graph_name.as_str(), id), value });
        let ghost added = ops_view(writes@);
        self.stage(writes);
        assert(self.staged() =~= old(self).staged().push(added[0]));
        Ok(())
    }

    /// Stages new properties for the committed edge `id`; its label and
    /// endpoints stay.
    pub fn update_edge<K: KvStore>(
        &mut self,
        store: &GraphStore<K>,
        id: Graphid,
        properties: Json,
    ) -> (r: Result<(), StorageError>)
        requires
            store.inv(),
        ensures
            final(self).is_committed() == old(self).is_committed(),
            final(self).is_rolled_back() == old(self).is_rolled_back(),
            r is Err ==> final(self).staged() == old(self).staged(),
            r is Ok ==> old(self).is_open() && store.edge_spec(id@) is Some && {
                let e = EdgeView { properties: properties@, ..store.edge_spec(id@).unwrap() };
                encode_edge_spec(e) is Some && final(self).staged() == old(self).staged().push(
                    WriteOpView::Put {
                        key: edge_key(store.ns(), id@),
                        value: encode_edge_spec(e).unwrap(),
                    },
                )
            },
            !old(self).is_open() ==> r is Err && old(self).refuses(r->Err_0),
            old(self).is_open() && !store.state().contains_key(edge_key(store.ns(), id@)) && store.kv.reliable()
                ==> r matches Err(StorageError::EdgeNotFound(_)),
            old(self).is_open() && store.kv.reliable() && store.edge_spec(id@) is Some && encode_edge_spec(
                EdgeView { properties: properties@, ..store.edge_spec(id@).unwrap() },
            ) is Some ==> r is Ok,
    {
        match self.check_state() {
            Err(e) => {
                return Err(e);
            },
            Ok(()) => {},
        }
        let edge = match store.get_edge(id) {
            Ok(Some(e)) => e,
            Ok(None) => {
                return Err(StorageError::EdgeNotFound(id.to_string()));
            },
            Err(e) => {
                return Err(e);
            },
        };
        let updated = Edge {
            id: edge.id,
            start: edge.start,
            end: edge.end,
            label: edge.label,
            properties,
        };
        let value = match encode_edge(&updated) {
            Ok(value) => value,
            Err(e) => {
                return Err(e);
            },
        };
        let mut writes: Vec<WriteOp> = Vec::new();
        writes.push(WriteOp::Put { key: make_edge_key(store.graph_name.as_str(), id), value });
        let ghost added = ops_view(writes@);
        self.stage(writes);
        assert(self.staged() =~= old(self).staged().push(added[0]));
        Ok(())
    }

    /// Stages the removal of the vertex record `id`. Incident edges are not
    /// looked at.
    pub fn delete_vertex<K: KvStore>(&mut self, store: &GraphStore<K>, id: Graphid) -> (r: Result<
        (),
        StorageError,
    >)
        ensures
            final(self).is_committed() == old(self).is_committed(),
            final(self).is_rolled_back() == old(self).is_rolled_back(),
            r is Ok <==> old(self).is_open(),
            r matches Err(e) ==> old(self).refuses(e) && final(self).staged() == old(self).staged(),
            r is Ok ==> final(self).staged() == old(self).staged().push(
                WriteOpView::Delete { key: vertex_key(store.ns(), id@) },
            ),
    {
        match self.check_state() {
            Err(e) => {
                return Err(e);
            },
            Ok(()) => {},
        }
        let mut writes: Vec<WriteOp> = Vec::new();
        writes.push(WriteOp::Delete { key: make_vertex_key(store.graph_name.as_str(), id) });
        let ghost added = ops_view(writes@);
        self.stage(writes);
        assert(self.staged() =~= old(self).staged().push(added[0]));
        Ok(())
    }

    /// Stages the removal of the committed edge `id`: its record and both
    /// adjacency entries. Nothing is staged where no such edge is stored.
    pub fn delete_edge<K: KvStore>(&mut self, store: &GraphStore<K>, id: Graphid) -> (r: Result<
        (),
        StorageError,
    >)
        requires
            store.inv(),
        ensures
            final(self).is_committed() == old(self).is_committed(),
            final(self).is_rolled_back() == old(self).is_rolled_back(),
            r is Err ==> final(self).staged() == old(self).staged(),
            !old(self).is_open() ==> r is Err && old(self).refuses(r->Err_0),
            r is Ok ==> old(self).is_open() && final(self).staged() == old(self).staged() + (
            match store.edge_spec(id@) {
                Some(e) => edge_removal(store.ns(), id@, e),
                None => Seq::empty(),
            }),
            r is Ok ==> !crate::storage::engine::edge_corrupt(store.state(), store.ns(), id@),
            old(self).is_open() && store.kv.reliable() ==> (r is Err
                <==> crate::storage::engine::edge_corrupt(store.state(), store.ns(), id@)),
    {
        match self.check_state() {
            Err(e) => {
                return Err(e);
            },
            Ok(()) => {},
        }
        match store.get_edge(id) {
            Err(e) => Err(e),
            Ok(None) => {
                assert(self.staged() =~= old(self).staged() + Seq::empty());
                Ok(())
            },
            Ok(Some(edge)) => {
                let name = store.graph_name.as_str();
                let mut writes: Vec<WriteOp> = Vec::new();
                writes.push(WriteOp::Delete { key: make_edge_key(name, id) });
                writes.push(WriteOp::Delete { key: make_outgoing_key(name, edge.start, id) });
                writes.push(WriteOp::Delete { key: make_incoming_key(name, edge.end, id) });
                proof {
                    assert(store.edge_spec(id@) == Some(edge@));
                    assert(ops_view(writes@) =~= seq![
                        WriteOpView::Delete { key: edge_key(store.ns(), id@) },
                        WriteOpView::Delete { key: outgoing_key(store.ns(), edge@.start, id@) },
                        WriteOpView::Delete { key: incoming_key(store.ns(), edge@.end, id@) },
                    ]);
                }
                self.stage(writes);
                Ok(())
            },
        }
    }

    /// Writes everything staged to the store as one atomic batch and makes
    /// the handle terminal. When the store refuses the batch nothing is
    /// written, and the handle is terminal all the same: what was staged
    /// has to be staged again in a new transaction.
    pub fn commit<K: KvStore>(&mut self, store: &mut GraphStore<K>) -> (r: Result<
        (),
        StorageError,
    >)
        requires
            old(store).inv(),
        ensures
            final(store).inv(),
            final(store).ns() == old(store).ns(),
            final(store).kv.reliable() == old(store).kv.reliable(),
            final(self).staged() == old(self).staged(),
            !final(self).is_open(),
            r is Ok ==> old(self).is_open() && final(self).is_committed() && !final(self).is_rolled_back() && final(store).state() == apply_ops(
                old(store).state(),
                old(self).staged(),
            ),
            r is Err ==> final(store).state() == old(store).state() && final(self).is_committed()
                == old(self).is_committed(),
            !old(self).is_open() ==> r is Err && old(self).refuses(r->Err_0) && final(self).is_rolled_back() == old(self).is_rolled_back(),
            old(self).is_open() && old(store).kv.reliable() ==> r is Ok,
    {
        match self.check_state() {
            Err(e) => {
                return Err(e);
            },
            Ok(()) => {},
        }
        match store.kv.write_batch(&self.operations) {
            Ok(()) => {
                self.committed = true;
                Ok(())
            },
            Err(e) => {
                self.rolled_back = true;
                Err(e)
            },
        }
    }

    /// Discards everything staged and makes the handle terminal. The store
    /// is not touched.
    pub fn rollback(&mut self) -> (r: Result<(), StorageError>)
        ensures
            r is Ok <==> old(self).is_open(),
            r matches Err(e) ==> old(self).refuses(e) && *final(self) == *old(self),
            r is Ok ==> final(self).is_rolled_back() && !final(self).is_committed(),
            r is Ok ==> final(self).staged() == Seq::<WriteOpView>::empty(),
    {
        match self.check_state() {
            Err(e) => {
                return Err(e);
            },
            Ok(()) => {},
        }
        self.operations.clear();
        self.rolled_back = true;
        assert(self.staged() =~= Seq::<WriteOpView>::empty());
        Ok(())
    }

    /// The number of staged writes.
    pub fn staged_len(&self) -> (r: usize)
        ensures
            r == self.staged().len(),
    {
        self.operations.len()
    }
}

} // verus!
