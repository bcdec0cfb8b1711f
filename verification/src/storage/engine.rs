//! The graph store: vertices, edges and adjacency indexes over a key-value
//! substrate. Reads see the latest committed state.

use crate::storage::codec::{decode_edge, decode_edge_spec, decode_vertex, decode_vertex_spec};
use crate::storage::error::StorageError;
use crate::storage::keys::{
    edge_key, edge_prefix, incoming_prefix, index_key_target, label_key, make_edge_key,
    make_edge_prefix, make_incoming_prefix, make_label_key, make_outgoing_prefix,
    make_vertex_key, make_vertex_prefix, outgoing_prefix, parse_index_key, vertex_key,
    vertex_prefix,
};
use crate::storage::kv::{
    apply_ops, entries_view, ready, Entry, KvState, KvStore, WriteOp, WriteOpView,
};
use crate::storage::transaction::{
    edge_removal, next_ordinal, plan_edge, plan_vertex, reports, Fault, GraphTransaction,
};
use crate::json::{Json, JsonView};
use crate::storage::keys::{label_prefix};
use crate::types::edge::{Edge, EdgeView};
use crate::types::graphid::Graphid;
use crate::types::vertex::{Vertex, VertexView};
use vstd::bytes::{spec_u16_from_le_bytes, u16_from_le_bytes};
use vstd::prelude::*;
use vstd::slice::slice_subrange;
use vstd::utf8::encode_utf8;

verus! {

/// The models of a list of vertices.
pub open spec fn vertices_view(vs: Seq<Vertex>) -> Seq<VertexView> {
    vs.map_values(|v: Vertex| v@)
}

/// The models of a list of edges.
pub open spec fn edges_view(es: Seq<Edge>) -> Seq<EdgeView> {
    es.map_values(|e: Edge| e@)
}

/// The vertex stored under `id`, if a readable record is there.
pub open spec fn vertex_at(s: KvState, ns: Seq<u8>, id: u64) -> Option<VertexView> {
    if s.contains_key(vertex_key(ns, id)) {
        decode_vertex_spec(s[vertex_key(ns, id)])
    } else {
        None
    }
}

/// The edge stored under `id`, if a readable record is there.
pub open spec fn edge_at(s: KvState, ns: Seq<u8>, id: u64) -> Option<EdgeView> {
    if s.contains_key(edge_key(ns, id)) {
        decode_edge_spec(s[edge_key(ns, id)])
    } else {
        None
    }
}

/// A value sits under the vertex key of `id` that does not read as a vertex.
pub open spec fn vertex_corrupt(s: KvState, ns: Seq<u8>, id: u64) -> bool {
    s.contains_key(vertex_key(ns, id)) && decode_vertex_spec(s[vertex_key(ns, id)]) is None
}

/// A value sits under the edge key of `id` that does not read as an edge.
pub open spec fn edge_corrupt(s: KvState, ns: Seq<u8>, id: u64) -> bool {
    s.contains_key(edge_key(ns, id)) && decode_edge_spec(s[edge_key(ns, id)]) is None
}

/// The ordinal that a catalog value holds: its first two bytes, little
/// endian.
pub open spec fn ordinal_of(value: Seq<u8>) -> Option<u16> {
    if value.len() >= 2 {
        Some(spec_u16_from_le_bytes(value.subrange(0, 2)))
    } else {
        None
    }
}

/// The ordinal of a label name, if the catalog holds the name.
pub open spec fn label_at(s: KvState, ns: Seq<u8>, name: Seq<char>) -> Option<u16> {
    if s.contains_key(label_key(ns, encode_utf8(name))) {
        ordinal_of(s[label_key(ns, encode_utf8(name))])
    } else {
        None
    }
}

/// The catalog holds the name with a value that is no ordinal.
pub open spec fn label_corrupt(s: KvState, ns: Seq<u8>, name: Seq<char>) -> bool {
    s.contains_key(label_key(ns, encode_utf8(name))) && ordinal_of(
        s[label_key(ns, encode_utf8(name))],
    ) is None
}

/// The edges that the index entries `sc`, found under `prefix`, lead to, in
/// the order of the entries. An entry whose edge record is gone is passed
/// over. There is no result if an entry's key does not end in an identifier
/// or an edge record does not read.
pub open spec fn edges_under(
    s: KvState,
    ns: Seq<u8>,
    prefix: Seq<u8>,
    sc: Seq<(Seq<u8>, Seq<u8>)>,
) -> Option<Seq<EdgeView>>
    decreases sc.len(),
{
    if sc.len() == 0 {
        Some(Seq::empty())
    } else {
        match edges_under(s, ns, prefix, sc.drop_last()) {
            None => None,
            Some(front) => match index_key_target(sc.last().0, prefix) {
                None => None,
                Some(eid) => if !s.contains_key(edge_key(ns, eid)) {
                    Some(front)
                } else {
                    match decode_edge_spec(s[edge_key(ns, eid)]) {
                        Some(e) => Some(front.push(e)),
                        None => None,
                    }
                },
            },
        }
    }
}

/// The vertex records in the scanned entries `sc`, in their order; no result
/// if one does not read.
pub open spec fn vertices_in(sc: Seq<(Seq<u8>, Seq<u8>)>) -> Option<Seq<VertexView>>
    decreases sc.len(),
{
    if sc.len() == 0 {
        Some(Seq::empty())
    } else {
        match (vertices_in(sc.drop_last()), decode_vertex_spec(sc.last().1)) {
            (Some(front), Some(v)) => Some(front.push(v)),
            _ => None,
        }
    }
}

/// The edge records in the scanned entries `sc`, in their order; no result
/// if one does not read.
pub open spec fn edges_in(sc: Seq<(Seq<u8>, Seq<u8>)>) -> Option<Seq<EdgeView>>
    decreases sc.len(),
{
    if sc.len() == 0 {
        Some(Seq::empty())
    } else {
        match (edges_in(sc.drop_last()), decode_edge_spec(sc.last().1)) {
            (Some(front), Some(e)) => Some(front.push(e)),
            _ => None,
        }
    }
}

/// What fails on a part of a scan fails on the whole of it.
pub proof fn lemma_edges_under_prefix(
    s: KvState,
    ns: Seq<u8>,
    prefix: Seq<u8>,
    sc: Seq<(Seq<u8>, Seq<u8>)>,
    k: int,
)
    requires
        0 <= k <= sc.len(),
        edges_under(s, ns, prefix, sc.subrange(0, k)) is None,
    ensures
        edges_under(s, ns, prefix, sc) is None,
    decreases sc.len() - k,
{
    if k < sc.len() {
        assert(sc.subrange(0, k + 1).drop_last() =~= sc.subrange(0, k));
        lemma_edges_under_prefix(s, ns, prefix, sc, k + 1);
    } else {
        assert(sc.subrange(0, k) =~= sc);
    }
}

/// What fails on a part of a scan fails on the whole of it.
pub proof fn lemma_records_in_prefix(sc: Seq<(Seq<u8>, Seq<u8>)>, k: int)
    requires
        0 <= k <= sc.len(),
    ensures
        vertices_in(sc.subrange(0, k)) is None ==> vertices_in(sc) is None,
        edges_in(sc.subrange(0, k)) is None ==> edges_in(sc) is None,
    decreases sc.len() - k,
{
    if k < sc.len() {
        assert(sc.subrange(0, k + 1).drop_last() =~= sc.subrange(0, k));
        lemma_records_in_prefix(sc, k + 1);
    } else {
        assert(sc.subrange(0, k) =~= sc);
    }
}

/// The number of incident edges that a refused deletion reports: the sum,
/// capped at the largest machine integer.
pub open spec fn edge_count(outgoing: nat, incoming: nat) -> usize {
    if outgoing + incoming > usize::MAX {
        usize::MAX
    } else {
        (outgoing + incoming) as usize
    }
}

/// A graph store over the key-value substrate `K`, for one namespace.
pub struct GraphStore<K: KvStore> {
    pub kv: K,
    pub graph_name: String,
}

impl<K: KvStore> GraphStore<K> {
    /// The namespace as the keys hold it.
    pub open spec fn ns(&self) -> Seq<u8> {
        encode_utf8(self.graph_name@)
    }

    /// What the substrate holds.
    pub open spec fn state(&self) -> KvState {
        self.kv.state()
    }

    /// The substrate is ready for use.
    pub open spec fn inv(&self) -> bool {
        ready(&self.kv)
    }

    /// The vertex that a read of `id` finds.
    pub open spec fn vertex_spec(&self, id: u64) -> Option<VertexView> {
        vertex_at(self.state(), self.ns(), id)
    }

    /// The edge that a read of `id` finds.
    pub open spec fn edge_spec(&self, id: u64) -> Option<EdgeView> {
        edge_at(self.state(), self.ns(), id)
    }

    /// What reading the outgoing edges of `vid` gives, if it gives anything.
    pub open spec fn outgoing_read(&self, vid: u64) -> Option<Seq<EdgeView>> {
        edges_under(
            self.state(),
            self.ns(),
            outgoing_prefix(self.ns(), vid),
            self.kv.scan_spec(outgoing_prefix(self.ns(), vid)),
        )
    }

    /// What reading the incoming edges of `vid` gives, if it gives anything.
    pub open spec fn incoming_read(&self, vid: u64) -> Option<Seq<EdgeView>> {
        edges_under(
            self.state(),
            self.ns(),
            incoming_prefix(self.ns(), vid),
            self.kv.scan_spec(incoming_prefix(self.ns(), vid)),
        )
    }

    /// What scanning the vertices of `label` gives, if it gives anything:
    /// nothing for a label that the catalog does not hold.
    pub open spec fn vertices_read(&self, label: Seq<char>) -> Option<Seq<VertexView>> {
        if label_corrupt(self.state(), self.ns(), label) {
            None
        } else {
            match label_at(self.state(), self.ns(), label) {
                None => Some(Seq::empty()),
                Some(labid) => vertices_in(self.kv.scan_spec(vertex_prefix(self.ns(), labid))),
            }
        }
    }

    /// What scanning the edges of `label` gives, if it gives anything.
    pub open spec fn edges_read(&self, label: Seq<char>) -> Option<Seq<EdgeView>> {
        if label_corrupt(self.state(), self.ns(), label) {
            None
        } else {
            match label_at(self.state(), self.ns(), label) {
                None => Some(Seq::empty()),
                Some(labid) => edges_in(self.kv.scan_spec(edge_prefix(self.ns(), labid))),
            }
        }
    }

    /// A store for the namespace `graph_name` on the substrate `kv`.
    pub fn new(kv: K, graph_name: &str) -> (r: GraphStore<K>)
        requires
            ready(&kv),
        ensures
            r.inv(),
            r.kv == kv,
            r.graph_name@ == graph_name@,
    {
        GraphStore { kv, graph_name: graph_name.to_owned() }
    }

    /// The vertex with the identifier `id`, if there is one.
    pub fn get_vertex(&self, id: Graphid) -> (r: Result<Option<Vertex>, StorageError>)
        requires
            self.inv(),
        ensures
            r matches Ok(Some(v)) ==> self.vertex_spec(id@) == Some(v@),
            r matches Ok(None) ==> !self.state().contains_key(vertex_key(self.ns(), id@)),
            self.kv.reliable() ==> (r is Err <==> vertex_corrupt(self.state(), self.ns(), id@)),
            self.kv.reliable() && r is Err ==> r->Err_0 is SerializationError,
    {
        let key = make_vertex_key(self.graph_name.as_str(), id);
        match self.kv.get(key.as_slice()) {
            Ok(Some(bytes)) => match decode_vertex(bytes.as_slice()) {
                Ok(v) => Ok(Some(v)),
                Err(e) => Err(e),
            },
            Ok(None) => Ok(None),
            Err(e) => Err(e),
        }
    }

    /// The edge with the identifier `id`, if there is one.
    pub fn get_edge(&self, id: Graphid) -> (r: Result<Option<Edge>, StorageError>)
        requires
            self.inv(),
        ensures
            r matches Ok(Some(e)) ==> self.edge_spec(id@) == Some(e@),
            r matches Ok(None) ==> !self.state().contains_key(edge_key(self.ns(), id@)),
            self.kv.reliable() ==> (r is Err <==> edge_corrupt(self.state(), self.ns(), id@)),
            self.kv.reliable() && r is Err ==> r->Err_0 is SerializationError,
    {
        let key = make_edge_key(self.graph_name.as_str(), id);
        match self.kv.get(key.as_slice()) {
            Ok(Some(bytes)) => match decode_edge(bytes.as_slice()) {
                Ok(e) => Ok(Some(e)),
                Err(e) => Err(e),
            },
            Ok(None) => Ok(None),
            Err(e) => Err(e),
        }
    }

    /// The ordinal of a label name, if the catalog holds the name.
    pub fn get_label_id(&self, label: &str) -> (r: Result<Option<u16>, StorageError>)
        requires
            self.inv(),
        ensures
            r matches Ok(o) ==> !label_corrupt(self.state(), self.ns(), label@) && o == label_at(
                self.state(),
                self.ns(),
                label@,
            ),
            self.kv.reliable() ==> (r is Err <==> label_corrupt(self.state(), self.ns(), label@)),
            self.kv.reliable() && r is Err ==> r->Err_0 is InvalidState,
    {
        let key = make_label_key(self.graph_name.as_str(), label);
        match self.kv.get(key.as_slice()) {
            Ok(Some(bytes)) => {
                if bytes.len() < 2 {
                    Err(StorageError::InvalidState("catalog value is no ordinal".to_owned()))
                } else {
                    Ok(Some(u16_from_le_bytes(slice_subrange(bytes.as_slice(), 0, 2))))
                }
            },
            Ok(None) => Ok(None),
            Err(e) => Err(e),
        }
    }

    /// Follows the index entries under `prefix` to their edge records.
    fn edges_by_index(&self, prefix: &[u8]) -> (r: Result<Vec<Edge>, StorageError>)
        requires
            self.inv(),
        ensures
            r matches Ok(es) ==> edges_under(
                self.state(),
                self.ns(),
                prefix@,
                self.kv.scan_spec(prefix@),
            ) == Some(edges_view(es@)),
            self.kv.reliable() ==> (r is Err <==> edges_under(
                self.state(),
                self.ns(),
                prefix@,
                self.kv.scan_spec(prefix@),
            ) is None),
            self.kv.reliable() && r is Err ==> r->Err_0 is InvalidState || r->Err_0
                is SerializationError,
    {
        let entries = match self.kv.scan_prefix(prefix) {
            Ok(entries) => entries,
            Err(e) => {
                return Err(e);
            },
        };
        let ghost sc = entries_view(entries@);
        let ghost s = self.state();
        let ghost ns = self.ns();
        let mut out: Vec<Edge> = Vec::new();
        let mut i: usize = 0;
        assert(sc.subrange(0, 0) =~= Seq::empty());
        assert(edges_view(out@) =~= Seq::empty());
        while i < entries.len()
            invariant
                0 <= i <= entries.len(),
                self.inv(),
                sc == entries_view(entries@),
                sc == self.kv.scan_spec(prefix@),
                s == self.state(),
                ns == self.ns(),
                edges_under(s, ns, prefix@, sc.subrange(0, i as int)) == Some(edges_view(out@)),
            decreases entries.len() - i,
        {
            proof {
                let t = sc.subrange(0, i as int + 1);
                assert(t.drop_last() =~= sc.subrange(0, i as int));
                assert(t.last() == entries[i as int]@);
            }
            let ghost before = edges_view(out@);
            match parse_index_key(entries[i].key.as_slice(), prefix) {
                None => {
                    proof {
                        assert(edges_under(s, ns, prefix@, sc.subrange(0, i as int + 1)) is None);
                        lemma_edges_under_prefix(s, ns, prefix@, sc, i as int + 1);
                    }
                    return Err(
                        StorageError::InvalidState("Invalid edge ID in index".to_owned()),
                    );
                },
                Some(eid) => {
                    match self.get_edge(eid) {
                        Ok(Some(e)) => {
                            out.push(e);
                            assert(edges_view(out@) =~= before.push(e@));
                        },
                        Ok(None) => {},
                        Err(e) => {
                            proof {
                                if self.kv.reliable() {
                                    assert(edge_corrupt(s, ns, eid@));
                                    assert(edges_under(s, ns, prefix@, sc.subrange(0, i as int + 1))
                                        is None);
                                    lemma_edges_under_prefix(s, ns, prefix@, sc, i as int + 1);
                                }
                            }
                            return Err(e);
                        },
                    }
                },
            }
            i += 1;
        }
        assert(sc.subrange(0, i as int) =~= sc);
        Ok(out)
    }

    /// The edges that leave `vid`, in index key order.
    pub fn get_outgoing_edges(&self, vid: Graphid) -> (r: Result<Vec<Edge>, StorageError>)
        requires
            self.inv(),
        ensures
            r matches Ok(es) ==> self.outgoing_read(vid@) == Some(edges_view(es@)),
            self.kv.reliable() ==> (r is Err <==> self.outgoing_read(vid@) is None),
            self.kv.reliable() && r is Err ==> r->Err_0 is InvalidState || r->Err_0
                is SerializationError,
    {
        let prefix = make_outgoing_prefix(self.graph_name.as_str(), vid);
        self.edges_by_index(prefix.as_slice())
    }

    /// The edges that enter `vid`, in index key order.
    pub fn get_incoming_edges(&self, vid: Graphid) -> (r: Result<Vec<Edge>, StorageError>)
        requires
            self.inv(),
        ensures
            r matches Ok(es) ==> self.incoming_read(vid@) == Some(edges_view(es@)),
            self.kv.reliable() ==> (r is Err <==> self.incoming_read(vid@) is None),
            self.kv.reliable() && r is Err ==> r->Err_0 is InvalidState || r->Err_0
                is SerializationError,
    {
        let prefix = make_incoming_prefix(self.graph_name.as_str(), vid);
        self.edges_by_index(prefix.as_slice())
    }

    /// All vertices of a label, in key order; none for a label that has
    /// never been created in this namespace.
    pub fn scan_vertices(&self, label: &str) -> (r: Result<Vec<Vertex>, StorageError>)
        requires
            self.inv(),
        ensures
            r matches Ok(vs) ==> self.vertices_read(label@) == Some(vertices_view(vs@)),
            self.kv.reliable() ==> (r is Err <==> self.vertices_read(label@) is None),
    {
        let labid = match self.get_label_id(label) {
            Ok(Some(labid)) => labid,
            Ok(None) => {
                let out: Vec<Vertex> = Vec::new();
                assert(vertices_view(out@) =~= Seq::empty());
                return Ok(out);
            },
            Err(e) => {
                return Err(e);
            },
        };
        let prefix = make_vertex_prefix(self.graph_name.as_str(), labid);
        let entries = match self.kv.scan_prefix(prefix.as_slice()) {
            Ok(entries) => entries,
            Err(e) => {
                return Err(e);
            },
        };
        let ghost sc = entries_view(entries@);
        let mut out: Vec<Vertex> = Vec::new();
        let mut i: usize = 0;
        assert(sc.subrange(0, 0) =~= Seq::empty());
        assert(vertices_view(out@) =~= Seq::empty());
        while i < entries.len()
            invariant
                0 <= i <= entries.len(),
                sc == entries_view(entries@),
                sc == self.kv.scan_spec(prefix@),
                !label_corrupt(self.state(), self.ns(), label@),
                label_at(self.state(), self.ns(), label@) == Some(labid),
                prefix@ == vertex_prefix(self.ns(), labid),
                vertices_in(sc.subrange(0, i as int)) == Some(vertices_view(out@)),
            decreases entries.len() - i,
        {
            proof {
                let t = sc.subrange(0, i as int + 1);
                assert(t.drop_last() =~= sc.subrange(0, i as int));
                assert(t.last() == entries[i as int]@);
            }
            let ghost before = vertices_view(out@);
            match decode_vertex(entries[i].value.as_slice()) {
                Ok(v) => {
                    out.push(v);
                    assert(vertices_view(out@) =~= before.push(v@));
                },
                Err(e) => {
                    proof {
                        assert(vertices_in(sc.subrange(0, i as int + 1)) is None);
                        lemma_records_in_prefix(sc, i as int + 1);
                    }
                    return Err(e);
                },
            }
            i += 1;
        }
        assert(sc.subrange(0, i as int) =~= sc);
        Ok(out)
    }

    /// All edges of a label, in key order; none for a label that has never
    /// been created in this namespace.
    pub fn scan_edges(&self, label: &str) -> (r: Result<Vec<Edge>, StorageError>)
        requires
            self.inv(),
        ensures
            r matches Ok(es) ==> self.edges_read(label@) == Some(edges_view(es@)),
            self.kv.reliable() ==> (r is Err <==> self.edges_read(label@) is None),
    {
        let labid = match self.get_label_id(label) {
            Ok(Some(labid)) => labid,
            Ok(None) => {
                let out: Vec<Edge> = Vec::new();
                assert(edges_view(out@) =~= Seq::empty());
                return Ok(out);
            },
            Err(e) => {
                return Err(e);
            },
        };
        let prefix = make_edge_prefix(self.graph_name.as_str(), labid);
        let entries = match self.kv.scan_prefix(prefix.as_slice()) {
            Ok(entries) => entries,
            Err(e) => {
                return Err(e);
            },
        };
        let ghost sc = entries_view(entries@);
        let mut out: Vec<Edge> = Vec::new();
        let mut i: usize = 0;
        assert(sc.subrange(0, 0) =~= Seq::empty());
        assert(edges_view(out@) =~= Seq::empty());
        while i < entries.len()
            invariant
                0 <= i <= entries.len(),
                sc == entries_view(entries@),
                sc == self.kv.scan_spec(prefix@),
                !label_corrupt(self.state(), self.ns(), label@),
                label_at(self.state(), self.ns(), label@) == Some(labid),
                prefix@ == edge_prefix(self.ns(), labid),
                edges_in(sc.subrange(0, i as int)) == Some(edges_view(out@)),
            decreases entries.len() - i,
        {
            proof {
                let t = sc.subrange(0, i as int + 1);
                assert(t.drop_last() =~= sc.subrange(0, i as int));
                assert(t.last() == entries[i as int]@);
            }
            let ghost before = edges_view(out@);
            match decode_edge(entries[i].value.as_slice()) {
                Ok(e) => {
                    out.push(e);
                    assert(edges_view(out@) =~= before.push(e@));
                },
                Err(e) => {
                    proof {
                        assert(edges_in(sc.subrange(0, i as int + 1)) is None);
                        lemma_records_in_prefix(sc, i as int + 1);
                    }
                    return Err(e);
                },
            }
            i += 1;
        }
        assert(sc.subrange(0, i as int) =~= sc);
        Ok(out)
    }
}

impl<K: KvStore> GraphStore<K> {
    /// The ordinal that the next new label gets.
    pub open spec fn fresh_ordinal(&self) -> nat {
        next_ordinal(
            self.kv.scan_spec(label_prefix(self.ns())),
            Seq::empty(),
            label_prefix(self.ns()),
        )
    }

    /// The vertex that `create_vertex` would create, and what it writes.
    pub open spec fn vertex_plan(&self, label: Seq<char>, properties: JsonView) -> Result<
        (VertexView, Seq<WriteOpView>),
        Fault,
    > {
        plan_vertex(true, self.state(), self.fresh_ordinal(), self.ns(), label, properties)
    }

    /// The edge that `create_edge` would create, and what it writes.
    pub open spec fn edge_plan(
        &self,
        label: Seq<char>,
        start: u64,
        end: u64,
        properties: JsonView,
    ) -> Result<(EdgeView, Seq<WriteOpView>), Fault> {
        plan_edge(true, self.state(), self.fresh_ordinal(), self.ns(), label, start, end, properties)
    }

    /// A new transaction on this store.
    pub fn begin_transaction(&self) -> (r: Result<GraphTransaction, StorageError>)
        ensures
            r matches Ok(tx) && tx.is_open() && tx.staged() == Seq::<WriteOpView>::empty(),
    {
        Ok(GraphTransaction::new())
    }

    /// Creates a vertex of `label`: allocates the label ordinal if the label
    /// is new, reserves the next local ordinal and writes the record, all in
    /// one atomic batch.
    pub fn create_vertex(&mut self, label: &str, properties: Json) -> (r: Result<
        Vertex,
        StorageError,
    >)
        requires
            old(self).inv(),
        ensures
            final(self).inv(),
            final(self).ns() == old(self).ns(),
            final(self).kv.reliable() == old(self).kv.reliable(),
            r matches Ok(v) ==> old(self).vertex_plan(label@, properties@) is Ok && old(self).vertex_plan(label@, properties@)->Ok_0.0 == v@ && final(self).state() == apply_ops(
                old(self).state(),
                old(self).vertex_plan(label@, properties@)->Ok_0.1,
            ),
            r is Err ==> final(self).state() == old(self).state(),
            old(self).kv.reliable() ==> (r is Ok <==> old(self).vertex_plan(
                label@,
                properties@,
            ) is Ok),
            old(self).kv.reliable() && r is Err ==> reports(
                r->Err_0,
                old(self).vertex_plan(label@, properties@)->Err_0,
            ),
    {
        let mut tx = GraphTransaction::new();
        let vertex = match tx.create_vertex(self, label, properties) {
            Ok(v) => v,
            Err(e) => {
                return Err(e);
            },
        };
        proof {
            let st = tx.staged();
            assert(Seq::<WriteOpView>::empty() + st =~= st);
        }
        match tx.commit(self) {
            Ok(()) => Ok(vertex),
            Err(e) => Err(e),
        }
    }

    /// Creates an edge of `label` from `start` to `end`: writes the record
    /// and both adjacency entries in one atomic batch. The caller sees to it
    /// that the endpoints exist; the store does not look.
    pub fn create_edge(
        &mut self,
        label: &str,
        start: Graphid,
        end: Graphid,
        properties: Json,
    ) -> (r: Result<Edge, StorageError>)
        requires
            old(self).inv(),
        ensures
            final(self).inv(),
            final(self).ns() == old(self).ns(),
            final(self).kv.reliable() == old(self).kv.reliable(),
            r matches Ok(e) ==> old(self).edge_plan(label@, start@, end@, properties@) is Ok
                && old(self).edge_plan(label@, start@, end@, properties@)->Ok_0.0 == e@ && final(self).state() == apply_ops(
                old(self).state(),
                old(self).edge_plan(label@, start@, end@, properties@)->Ok_0.1,
            ),
            r is Err ==> final(self).state() == old(self).state(),
            old(self).kv.reliable() ==> (r is Ok <==> old(self).edge_plan(
                label@,
                start@,
                end@,
                properties@,
            ) is Ok),
            old(self).kv.reliable() && r is Err ==> reports(
                r->Err_0,
                old(self).edge_plan(label@, start@, end@, properties@)->Err_0,
            ),
    {
        let mut tx = GraphTransaction::new();
        let edge = match tx.create_edge(self, label, start, end, properties) {
            Ok(e) => e,
            Err(e) => {
                return Err(e);
            },
        };
        proof {
            let st = tx.staged();
            assert(Seq::<WriteOpView>::empty() + st =~= st);
        }
        match tx.commit(self) {
            Ok(()) => Ok(edge),
            Err(e) => Err(e),
        }
    }

    /// Deletes the vertex record `id`, unless an edge leaves or enters the
    /// vertex: then it fails with `VertexHasEdges` and the number of such
    /// edges.
    pub fn delete_vertex(&mut self, id: Graphid) -> (r: Result<(), StorageError>)
        requires
            old(self).inv(),
        ensures
            final(self).inv(),
            final(self).ns() == old(self).ns(),
            final(self).kv.reliable() == old(self).kv.reliable(),
            r is Ok ==> old(self).outgoing_read(id@) == Some(Seq::<EdgeView>::empty()) && old(self).incoming_read(id@) == Some(Seq::<EdgeView>::empty()) && final(self).state() == old(self).state().remove(vertex_key(old(self).ns(), id@)),
            r is Err ==> final(self).state() == old(self).state(),
            old(self).kv.reliable() ==> (r is Ok <==> old(self).outgoing_read(id@) == Some(
                Seq::<EdgeView>::empty(),
            ) && old(self).incoming_read(id@) == Some(Seq::<EdgeView>::empty())),
            old(self).kv.reliable() && old(self).outgoing_read(id@) is Some && old(self).incoming_read(id@) is Some && r is Err ==> r->Err_0 is VertexHasEdges,
            old(self).kv.reliable() ==> (r matches Err(StorageError::VertexHasEdges(_, n)) ==> old(self).outgoing_read(id@) is Some && old(self).incoming_read(id@) is Some && n > 0 && n
                == edge_count(
                old(self).outgoing_read(id@).unwrap().len(),
                old(self).incoming_read(id@).unwrap().len(),
            )),
    {
        let outgoing = match self.get_outgoing_edges(id) {
            Ok(es) => es,
            Err(e) => {
                return Err(e);
            },
        };
        let incoming = match self.get_incoming_edges(id) {
            Ok(es) => es,
            Err(e) => {
                return Err(e);
            },
        };
        if outgoing.len() > 0 || incoming.len() > 0 {
            let total: usize = if incoming.len() > usize::MAX - outgoing.len() {
                usize::MAX
            } else {
                outgoing.len() + incoming.len()
            };
            assert(edges_view(outgoing@).len() == outgoing.len());
            assert(edges_view(incoming@).len() == incoming.len());
            return Err(StorageError::VertexHasEdges(id.to_string(), total));
        }
        assert(edges_view(outgoing@) =~= Seq::<EdgeView>::empty());
        assert(edges_view(incoming@) =~= Seq::<EdgeView>::empty());
        let mut ops: Vec<WriteOp> = Vec::new();
        ops.push(WriteOp::Delete { key: make_vertex_key(self.graph_name.as_str(), id) });
        proof {
            let v = crate::storage::kv::ops_view(ops@);
            assert(v.drop_last() =~= Seq::empty());
            assert(apply_ops(self.state(), v.drop_last()) == self.state());
            assert(v.last() == WriteOpView::Delete { key: vertex_key(self.ns(), id@) });
            assert(apply_ops(self.state(), v) == self.state().remove(
                vertex_key(self.ns(), id@),
            ));
        }
        self.kv.write_batch(&ops)
    }

    /// Deletes the edge `id`: reads the record to find its endpoints, then
    /// removes the record and both adjacency entries in one atomic batch.
    pub fn delete_edge(&mut self, id: Graphid) -> (r: Result<(), StorageError>)
        requires
            old(self).inv(),
        ensures
            final(self).inv(),
            final(self).ns() == old(self).ns(),
            final(self).kv.reliable() == old(self).kv.reliable(),
            r is Ok ==> old(self).edge_spec(id@) is Some && final(self).state() == apply_ops(
                old(self).state(),
                edge_removal(old(self).ns(), id@, old(self).edge_spec(id@).unwrap()),
            ),
            r is Err ==> final(self).state() == old(self).state(),
            old(self).kv.reliable() ==> (r is Ok <==> old(self).edge_spec(id@) is Some),
            old(self).kv.reliable() && !old(self).state().contains_key(
                edge_key(old(self).ns(), id@),
            ) ==> r matches Err(StorageError::EdgeNotFound(_)),
    {
        let mut tx = GraphTransaction::new();
        match self.get_edge(id) {
            Ok(Some(_)) => {},
            Ok(None) => {
                return Err(StorageError::EdgeNotFound(id.to_string()));
            },
            Err(e) => {
                return Err(e);
            },
        }
        match tx.delete_edge(self, id) {
            Ok(()) => {},
            Err(e) => {
                return Err(e);
            },
        }
        proof {
            let rm = edge_removal(self.ns(), id@, self.edge_spec(id@).unwrap());
            assert(tx.staged() =~= rm);
        }
        tx.commit(self)
    }
}

} // verus!
