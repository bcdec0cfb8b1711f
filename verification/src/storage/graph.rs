//! What the algorithms and the query executor read a graph through.

use crate::storage::codec::decode_edge_spec;
use crate::storage::engine::{
    edge_corrupt, edges_under, edges_view, vertex_corrupt, vertices_view, GraphStore,
};
use crate::storage::error::StorageError;
use crate::storage::keys::{edge_key, index_key_target};
use crate::storage::kv::{lemma_scan, KvState, KvStore};
use crate::types::edge::{Edge, EdgeView};
use crate::types::graphid::Graphid;
use crate::types::vertex::{Vertex, VertexView};
use vstd::prelude::*;

verus! {

/// Read access to a stored graph.
pub trait GraphStorage: Sized {
    /// The store is well formed.
    spec fn inv(&self) -> bool;

    /// Every read of this store succeeds.
    spec fn sound(&self) -> bool;

    /// The vertex stored under `id`.
    spec fn vertex_spec(&self, id: u64) -> Option<VertexView>;

    /// The edge stored under `id`.
    spec fn edge_spec(&self, id: u64) -> Option<EdgeView>;

    /// The edges that leave `id`, in the order in which they are read.
    spec fn outgoing_spec(&self, id: u64) -> Seq<EdgeView>;

    /// The edges that enter `id`, in the order in which they are read.
    spec fn incoming_spec(&self, id: u64) -> Seq<EdgeView>;

    /// The vertices of a label, in the order in which they are read.
    spec fn vertices_spec(&self, label: Seq<char>) -> Seq<VertexView>;

    /// The edges of a label, in the order in which they are read.
    spec fn edges_spec(&self, label: Seq<char>) -> Seq<EdgeView>;

    /// The vertices that stored edges lead to.
    spec fn targets(&self) -> Set<u64>;

    /// A store holds finitely many edges: the ends of all outgoing edges lie
    /// in one finite set.
    proof fn targets_finite(&self)
        requires
            self.inv(),
        ensures
            self.targets().finite(),
            forall|v: u64, i: int|
                0 <= i < self.outgoing_spec(v).len() ==> self.targets().contains(
                    (#[trigger] self.outgoing_spec(v)[i]).end,
                ),
    ;

    /// The vertex with the identifier `id`, if there is one.
    fn get_vertex(&self, id: Graphid) -> (r: Result<Option<Vertex>, StorageError>)
        requires
            self.inv(),
        ensures
            r matches Ok(Some(v)) ==> self.vertex_spec(id@) == Some(v@),
            r matches Ok(None) ==> self.vertex_spec(id@) is None,
            self.sound() ==> r is Ok,
    ;

    /// The edge with the identifier `id`, if there is one.
    fn get_edge(&self, id: Graphid) -> (r: Result<Option<Edge>, StorageError>)
        requires
            self.inv(),
        ensures
            r matches Ok(Some(e)) ==> self.edge_spec(id@) == Some(e@),
            r matches Ok(None) ==> self.edge_spec(id@) is None,
            self.sound() ==> r is Ok,
    ;

    /// The edges that leave `vid`.
    fn get_outgoing_edges(&self, vid: Graphid) -> (r: Result<Vec<Edge>, StorageError>)
        requires
            self.inv(),
        ensures
            r matches Ok(es) ==> edges_view(es@) == self.outgoing_spec(vid@),
            self.sound() ==> r is Ok,
    ;

    /// The edges that enter `vid`.
    fn get_incoming_edges(&self, vid: Graphid) -> (r: Result<Vec<Edge>, StorageError>)
        requires
            self.inv(),
        ensures
            r matches Ok(es) ==> edges_view(es@) == self.incoming_spec(vid@),
            self.sound() ==> r is Ok,
    ;

    /// All vertices of a label; none for a label that was never created.
    fn scan_vertices(&self, label: &str) -> (r: Result<Vec<Vertex>, StorageError>)
        requires
            self.inv(),
        ensures
            r matches Ok(vs) ==> vertices_view(vs@) == self.vertices_spec(label@),
            self.sound() ==> r is Ok,
    ;

    /// All edges of a label; none for a label that was never created.
    fn scan_edges(&self, label: &str) -> (r: Result<Vec<Edge>, StorageError>)
        requires
            self.inv(),
        ensures
            r matches Ok(es) ==> edges_view(es@) == self.edges_spec(label@),
            self.sound() ==> r is Ok,
    ;
}

/// The end of the edge that a stored value reads as; zero for any other
/// value.
pub open spec fn end_of_value(value: Seq<u8>) -> u64 {
    match decode_edge_spec(value) {
        Some(e) => e.end,
        None => 0,
    }
}

/// The ends of everything in the store that reads as an edge.
pub open spec fn stored_targets(s: KvState) -> Set<u64> {
    s.dom().map(|k: Seq<u8>| end_of_value(s[k]))
}

/// Every edge that an index scan leads to is the reading of a stored value.
proof fn lemma_edges_under_stored(
    s: KvState,
    ns: Seq<u8>,
    prefix: Seq<u8>,
    sc: Seq<(Seq<u8>, Seq<u8>)>,
    i: int,
)
    requires
        edges_under(s, ns, prefix, sc) is Some,
        0 <= i < edges_under(s, ns, prefix, sc).unwrap().len(),
    ensures
        stored_targets(s).contains(edges_under(s, ns, prefix, sc).unwrap()[i].end),
    decreases sc.len(),
{
    let front = edges_under(s, ns, prefix, sc.drop_last()).unwrap();
    if i < front.len() {
        lemma_edges_under_stored(s, ns, prefix, sc.drop_last(), i);
    } else {
        let eid = index_key_target(sc.last().0, prefix).unwrap();
        let k = edge_key(ns, eid);
        assert(s.dom().contains(k));
        assert(end_of_value(s[k]) == edges_under(s, ns, prefix, sc).unwrap()[i].end);
    }
}

impl<K: KvStore> GraphStorage for GraphStore<K> {
    open spec fn inv(&self) -> bool {
        crate::storage::kv::ready(&self.kv)
    }

    open spec fn sound(&self) -> bool {
        &&& self.kv.reliable()
        &&& forall|id: u64| !vertex_corrupt(self.state(), self.ns(), id)
        &&& forall|id: u64| !edge_corrupt(self.state(), self.ns(), id)
        &&& forall|id: u64| self.outgoing_read(id) is Some
        &&& forall|id: u64| self.incoming_read(id) is Some
        &&& forall|label: Seq<char>| self.vertices_read(label) is Some
        &&& forall|label: Seq<char>| self.edges_read(label) is Some
    }

    open spec fn vertex_spec(&self, id: u64) -> Option<VertexView> {
        crate::storage::engine::vertex_at(self.state(), self.ns(), id)
    }

    open spec fn edge_spec(&self, id: u64) -> Option<EdgeView> {
        crate::storage::engine::edge_at(self.state(), self.ns(), id)
    }

    open spec fn outgoing_spec(&self, id: u64) -> Seq<EdgeView> {
        match self.outgoing_read(id) {
            Some(es) => es,
            None => Seq::empty(),
        }
    }

    open spec fn incoming_spec(&self, id: u64) -> Seq<EdgeView> {
        match self.incoming_read(id) {
            Some(es) => es,
            None => Seq::empty(),
        }
    }

    open spec fn vertices_spec(&self, label: Seq<char>) -> Seq<VertexView> {
        match self.vertices_read(label) {
            Some(vs) => vs,
            None => Seq::empty(),
        }
    }

    open spec fn edges_spec(&self, label: Seq<char>) -> Seq<EdgeView> {
        match self.edges_read(label) {
            Some(es) => es,
            None => Seq::empty(),
        }
    }

    open spec fn targets(&self) -> Set<u64> {
        stored_targets(self.state())
    }

    proof fn targets_finite(&self) {
        let s = self.state();
        lemma_scan(&self.kv, Seq::empty());
        s.dom().lemma_map_finite(|k: Seq<u8>| end_of_value(s[k]));
        assert forall|v: u64, i: int| 0 <= i < self.outgoing_spec(v).len() implies self.targets().contains(
            (#[trigger] self.outgoing_spec(v)[i]).end,
        ) by {
            let prefix = crate::storage::keys::outgoing_prefix(self.ns(), v);
            lemma_edges_under_stored(s, self.ns(), prefix, self.kv.scan_spec(prefix), i);
        }
    }

    fn get_vertex(&self, id: Graphid) -> (r: Result<Option<Vertex>, StorageError>) {
        GraphStore::get_vertex(self, id)
    }

    fn get_edge(&self, id: Graphid) -> (r: Result<Option<Edge>, StorageError>) {
        GraphStore::get_edge(self, id)
    }

    fn get_outgoing_edges(&self, vid: Graphid) -> (r: Result<Vec<Edge>, StorageError>) {
        GraphStore::get_outgoing_edges(self, vid)
    }

    fn get_incoming_edges(&self, vid: Graphid) -> (r: Result<Vec<Edge>, StorageError>) {
        GraphStore::get_incoming_edges(self, vid)
    }

    fn scan_vertices(&self, label: &str) -> (r: Result<Vec<Vertex>, StorageError>) {
        GraphStore::scan_vertices(self, label)
    }

    fn scan_edges(&self, label: &str) -> (r: Result<Vec<Edge>, StorageError>) {
        GraphStore::scan_edges(self, label)
    }
}

} // verus!
