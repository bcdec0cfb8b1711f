//! Paths: an alternating sequence of vertices and edges.

use crate::types::edge::{Edge, EdgeView};
use crate::types::graphid::Graphid;
use crate::types::vertex::{Vertex, VertexView};
use vstd::prelude::*;

verus! {

/// Why a path is not valid.
#[derive(Debug, Clone, Copy, PartialEq, Eq, Structural)]
pub enum PathError {
    /// The path has no vertex.
    EmptyPath,
    /// The number of vertices is not the number of edges plus one.
    CountMismatch { vertices: usize, edges: usize },
    /// The edge at `pos` does not join the vertices around it: `path_end` is
    /// the identifier of the vertex that it misses.
    Discontinuity { pos: usize, edge_start: Graphid, edge_end: Graphid, path_end: Graphid },
}

/// A path `v0 -[e0]-> v1 -[e1]-> ... -> vk`.
#[derive(Debug)]
pub struct GraphPath {
    pub vertices: Vec<Vertex>,
    pub edges: Vec<Edge>,
}

/// Mathematical model of a path.
pub struct PathView {
    pub vertices: Seq<VertexView>,
    pub edges: Seq<EdgeView>,
}

impl View for GraphPath {
    type V = PathView;

    open spec fn view(&self) -> PathView {
        PathView {
            vertices: self.vertices@.map_values(|v: Vertex| v@),
            edges: self.edges@.map_values(|e: Edge| e@),
        }
    }
}

impl PathView {
    /// The edge at `i` starts at vertex `i` and ends at vertex `i + 1`.
    pub open spec fn joined_at(self, i: int) -> bool {
        self.edges[i].start == self.vertices[i].id && self.edges[i].end == self.vertices[i + 1].id
    }

    /// One vertex more than edges, and every edge joins its two neighbours.
    pub open spec fn valid(self) -> bool {
        &&& self.vertices.len() == self.edges.len() + 1
        &&& forall|i: int| 0 <= i < self.edges.len() ==> self.joined_at(i)
    }

    /// The edges before `i` all join their neighbours.
    pub open spec fn joined_before(self, i: int) -> bool {
        forall|j: int| 0 <= j < i ==> self.joined_at(j)
    }

    /// The path walked backwards: vertices in reverse order, edges in
    /// reverse order with their endpoints exchanged.
    pub open spec fn reversed(self) -> PathView {
        PathView {
            vertices: self.vertices.reverse(),
            edges: self.edges.reverse().map_values(|e: EdgeView| e.reversed()),
        }
    }

    /// What validation reports for this path.
    pub open spec fn check(self) -> Result<(), PathError> {
        if self.vertices.len() == 0 {
            Err(PathError::EmptyPath)
        } else if self.vertices.len() != self.edges.len() + 1 {
            Err(
                PathError::CountMismatch {
                    vertices: self.vertices.len() as usize,
                    edges: self.edges.len() as usize,
                },
            )
        } else if exists|i: int| self.first_break(i) {
            let i = choose|i: int| self.first_break(i);
            Err(self.break_error(i))
        } else {
            Ok(())
        }
    }

    /// `i` is the first edge that does not join its neighbours.
    pub open spec fn first_break(self, i: int) -> bool {
        0 <= i < self.edges.len() && !self.joined_at(i) && self.joined_before(i)
    }

    /// The error reported for a break at edge `i`: the start is checked
    /// before the end.
    pub open spec fn break_error(self, i: int) -> PathError {
        let e = self.edges[i];
        PathError::Discontinuity {
            pos: i as usize,
            edge_start: Graphid(e.start),
            edge_end: Graphid(e.end),
            path_end: if e.start != self.vertices[i].id {
                Graphid(self.vertices[i].id)
            } else {
                Graphid(self.vertices[i + 1].id)
            },
        }
    }

    /// What appending `edge` and `vertex` reports.
    pub open spec fn push_check(self, edge: EdgeView, vertex: VertexView) -> Result<(), PathError> {
        if edge.start != self.vertices.last().id {
            Err(
                PathError::Discontinuity {
                    pos: self.edges.len() as usize,
                    edge_start: Graphid(edge.start),
                    edge_end: Graphid(edge.end),
                    path_end: Graphid(self.vertices.last().id),
                },
            )
        } else if edge.end != vertex.id {
            Err(
                PathError::Discontinuity {
                    pos: self.edges.len() as usize,
                    edge_start: Graphid(edge.start),
                    edge_end: Graphid(edge.end),
                    path_end: Graphid(vertex.id),
                },
            )
        } else {
            Ok(())
        }
    }
}

/// Validation succeeds exactly on valid paths.
pub proof fn lemma_check_ok_iff_valid(p: PathView)
    ensures
        p.check() is Ok <==> p.valid(),
{
    if p.vertices.len() != 0 && p.vertices.len() == p.edges.len() + 1 {
        if exists|i: int| p.first_break(i) {
            let i = choose|i: int| p.first_break(i);
            assert(!p.joined_at(i));
        } else {
            lemma_no_break_joined(p, p.edges.len() as int);
        }
    }
}

/// Without a first break below `n`, every edge below `n` joins.
proof fn lemma_no_break_joined(p: PathView, n: int)
    requires
        0 <= n <= p.edges.len(),
        forall|i: int| !p.first_break(i),
    ensures
        p.joined_before(n),
    decreases n,
{
    if n > 0 {
        lemma_no_break_joined(p, n - 1);
        assert(!p.first_break(n - 1));
    }
}

/// Reversing a path twice gives the path back.
pub proof fn lemma_reverse_twice(p: PathView)
    ensures
        p.reversed().reversed() == p,
{
    let q = p.reversed().reversed();
    assert(q.vertices =~= p.vertices);
    assert(q.edges.len() == p.edges.len());
    assert forall|i: int| 0 <= i < p.edges.len() implies q.edges[i] == p.edges[i] by {
        let n = p.edges.len() as int;
        let r = p.reversed().edges;
        assert(r[n - 1 - i] == p.edges[i].reversed());
        assert(q.edges[i] == r[n - 1 - i].reversed());
    }
    assert(q.edges =~= p.edges);
}

/// The reverse of a valid path is valid.
pub proof fn lemma_reverse_valid(p: PathView)
    requires
        p.valid(),
    ensures
        p.reversed().valid(),
{
    let q = p.reversed();
    let n = p.edges.len() as int;
    assert forall|i: int| 0 <= i < q.edges.len() implies q.joined_at(i) by {
        assert(p.joined_at(n - 1 - i));
        assert(q.edges[i] == p.edges[n - 1 - i].reversed());
        assert(q.vertices[i] == p.vertices[n - i]);
        assert(q.vertices[i + 1] == p.vertices[n - 1 - i]);
    }
}

/// A path built from the parts of a path validates exactly when those parts
/// satisfy the count and alternation invariants, and walking a path backwards
/// twice gives the path itself.
pub proof fn lemma_parts_round_trip(p: PathView)
    ensures
        (PathView { vertices: p.vertices, edges: p.edges }).check() is Ok <==> p.valid(),
        p.reversed().reversed() == p,
{
    lemma_check_ok_iff_valid(p);
    lemma_reverse_twice(p);
}

impl Clone for GraphPath {
    fn clone(&self) -> (r: GraphPath)
        ensures
            r@ == self@,
    {
        let r = GraphPath { vertices: clone_vertices(&self.vertices), edges: clone_edges(&self.edges) };
        assert(r@.vertices =~= self@.vertices);
        assert(r@.edges =~= self@.edges);
        r
    }
}

/// A copy of a list of vertices.
pub fn clone_vertices(src: &Vec<Vertex>) -> (r: Vec<Vertex>)
    ensures
        r.len() == src.len(),
        forall|i: int| 0 <= i < src.len() ==> r[i]@ == src[i]@,
{
    let mut out: Vec<Vertex> = Vec::new();
    let mut i: usize = 0;
    while i < src.len()
        invariant
            0 <= i <= src.len(),
            out.len() == i,
            forall|k: int| 0 <= k < i ==> out[k]@ == src[k]@,
        decreases src.len() - i,
    {
        out.push(src[i].clone());
        i += 1;
    }
    out
}

/// A copy of a list of edges.
pub fn clone_edges(src: &Vec<Edge>) -> (r: Vec<Edge>)
    ensures
        r.len() == src.len(),
        forall|i: int| 0 <= i < src.len() ==> r[i]@ == src[i]@,
{
    let mut out: Vec<Edge> = Vec::new();
    let mut i: usize = 0;
    while i < src.len()
        invariant
            0 <= i <= src.len(),
            out.len() == i,
            forall|k: int| 0 <= k < i ==> out[k]@ == src[k]@,
        decreases src.len() - i,
    {
        out.push(src[i].clone());
        i += 1;
    }
    out
}

impl GraphPath {
    /// The path that holds one vertex and no edge.
    pub fn new(start: Vertex) -> (r: GraphPath)
        ensures
            r@.vertices == seq![start@],
            r@.edges == Seq::<EdgeView>::empty(),
            r@.valid(),
    {
        let mut vertices: Vec<Vertex> = Vec::new();
        vertices.push(start);
        let r = GraphPath { vertices, edges: Vec::new() };
        assert(r@.vertices =~= seq![start@]);
        assert(r@.edges =~= Seq::<EdgeView>::empty());
        r
    }

    /// Builds a path from its parts, or reports why they form none.
    pub fn from_parts(vertices: Vec<Vertex>, edges: Vec<Edge>) -> (r: Result<GraphPath, PathError>)
        ensures
            match r {
                Ok(p) => p.vertices == vertices && p.edges == edges && p@.valid(),
                Err(e) => (GraphPath { vertices, edges })@.check() == Err::<(), PathError>(e),
            },
            r is Ok <==> (GraphPath { vertices, edges })@.valid(),
    {
        let path = GraphPath { vertices, edges };
        proof {
            lemma_check_ok_iff_valid(path@);
        }
        match path.validate() {
            Ok(()) => Ok(path),
            Err(e) => Err(e),
        }
    }

    /// Checks the count and alternation invariants. The first edge that does
    /// not join its neighbours is reported, its start before its end.
    pub fn validate(&self) -> (r: Result<(), PathError>)
        ensures
            r == self@.check(),
            r is Ok <==> self@.valid(),
    {
        proof {
            lemma_check_ok_iff_valid(self@);
        }
        if self.vertices.len() == 0 {
            return Err(PathError::EmptyPath);
        }
        if self.vertices.len() - 1 != self.edges.len() {
            return Err(
                PathError::CountMismatch {
                    vertices: self.vertices.len(),
                    edges: self.edges.len(),
                },
            );
        }
        let mut i: usize = 0;
        while i < self.edges.len()
            invariant
                0 <= i <= self.edges.len(),
                self.vertices.len() == self.edges.len() + 1,
                self@.joined_before(i as int),
            decreases self.edges.len() - i,
        {
            let edge = &self.edges[i];
            let from_vertex = &self.vertices[i];
            let to_vertex = &self.vertices[i + 1];
            if edge.start.0 != from_vertex.id.0 || edge.end.0 != to_vertex.id.0 {
                proof {
                    let p = self@;
                    assert(p.first_break(i as int));
                    let c = choose|c: int| p.first_break(c);
                    if c < i {
                        assert(p.joined_at(c));
                    } else if i < c {
                        assert(p.joined_at(i as int));
                    }
                }
                let path_end = if edge.start.0 != from_vertex.id.0 {
                    from_vertex.id
                } else {
                    to_vertex.id
                };
                return Err(
                    PathError::Discontinuity {
                        pos: i,
                        edge_start: edge.start,
                        edge_end: edge.end,
                        path_end,
                    },
                );
            }
            i += 1;
        }
        proof {
            let p = self@;
            if exists|c: int| p.first_break(c) {
                let c = choose|c: int| p.first_break(c);
                assert(p.joined_at(c));
            }
        }
        Ok(())
    }

    /// Appends an edge and the vertex that it leads to. The path is left as
    /// it was when the edge does not continue it.
    pub fn push(&mut self, edge: Edge, vertex: Vertex) -> (r: Result<(), PathError>)
        requires
            old(self).vertices.len() > 0,
        ensures
            r == old(self)@.push_check(edge@, vertex@),
            r is Ok ==> final(self)@.vertices == old(self)@.vertices.push(vertex@),
            r is Ok ==> final(self)@.edges == old(self)@.edges.push(edge@),
            r is Err ==> *final(self) == *old(self),
            r is Ok && old(self)@.valid() ==> final(self)@.valid(),
    {
        let last_id = self.vertices[self.vertices.len() - 1].id;
        if edge.start.0 != last_id.0 {
            return Err(
                PathError::Discontinuity {
                    pos: self.edges.len(),
                    edge_start: edge.start,
                    edge_end: edge.end,
                    path_end: last_id,
                },
            );
        }
        if edge.end.0 != vertex.id.0 {
            return Err(
                PathError::Discontinuity {
                    pos: self.edges.len(),
                    edge_start: edge.start,
                    edge_end: edge.end,
                    path_end: vertex.id,
                },
            );
        }
        let ghost before = self@;
        self.edges.push(edge);
        self.vertices.push(vertex);
        proof {
            assert(self@.vertices =~= before.vertices.push(vertex@));
            assert(self@.edges =~= before.edges.push(edge@));
            if before.valid() {
                assert forall|i: int| 0 <= i < self@.edges.len() implies self@.joined_at(i) by {
                    if i < before.edges.len() {
                        assert(before.joined_at(i));
                    }
                }
            }
        }
        Ok(())
    }

    /// The first vertex.
    pub fn start(&self) -> (r: Option<&Vertex>)
        ensures
            self.vertices.len() == 0 ==> r is None,
            self.vertices.len() > 0 ==> r == Some(&self.vertices[0]),
    {
        if self.vertices.len() == 0 {
            None
        } else {
            Some(&self.vertices[0])
        }
    }

    /// The last vertex.
    pub fn end(&self) -> (r: Option<&Vertex>)
        ensures
            self.vertices.len() == 0 ==> r is None,
            self.vertices.len() > 0 ==> r == Some(&self.vertices[self.vertices.len() - 1]),
    {
        if self.vertices.len() == 0 {
            None
        } else {
            Some(&self.vertices[self.vertices.len() - 1])
        }
    }

    /// The length of the path: its number of edges.
    pub fn len(&self) -> (r: usize)
        ensures
            r == self@.edges.len(),
    {
        self.edges.len()
    }

    /// Whether the path has no edge.
    pub fn is_empty(&self) -> (r: bool)
        ensures
            r == (self@.edges.len() == 0),
    {
        self.edges.len() == 0
    }

    /// The identifiers of the vertices, in path order.
    pub fn vertex_ids(&self) -> (r: Vec<Graphid>)
        ensures
            r@.map_values(|g: Graphid| g@) == self@.vertices.map_values(|v: VertexView| v.id),
    {
        let mut out: Vec<Graphid> = Vec::new();
        let mut i: usize = 0;
        while i < self.vertices.len()
            invariant
                0 <= i <= self.vertices.len(),
                out.len() == i,
                forall|k: int| 0 <= k < i ==> out[k]@ == self.vertices[k].id@,
            decreases self.vertices.len() - i,
        {
            out.push(self.vertices[i].id);
            i += 1;
        }
        assert(out@.map_values(|g: Graphid| g@) =~= self@.vertices.map_values(
            |v: VertexView| v.id,
        ));
        out
    }

    /// The identifiers of the edges, in path order.
    pub fn edge_ids(&self) -> (r: Vec<Graphid>)
        ensures
            r@.map_values(|g: Graphid| g@) == self@.edges.map_values(|e: EdgeView| e.id),
    {
        let mut out: Vec<Graphid> = Vec::new();
        let mut i: usize = 0;
        while i < self.edges.len()
            invariant
                0 <= i <= self.edges.len(),
                out.len() == i,
                forall|k: int| 0 <= k < i ==> out[k]@ == self.edges[k].id@,
            decreases self.edges.len() - i,
        {
            out.push(self.edges[i].id);
            i += 1;
        }
        assert(out@.map_values(|g: Graphid| g@) =~= self@.edges.map_values(|e: EdgeView| e.id));
        out
    }

    /// Whether some vertex of the path has the identifier `id`.
    pub fn contains_vertex(&self, id: Graphid) -> (r: bool)
        ensures
            r == exists|i: int| 0 <= i < self@.vertices.len() && self@.vertices[i].id == id@,
    {
        let mut i: usize = 0;
        while i < self.vertices.len()
            invariant
                0 <= i <= self.vertices.len(),
                forall|k: int| 0 <= k < i ==> self@.vertices[k].id != id@,
            decreases self.vertices.len() - i,
        {
            if self.vertices[i].id.0 == id.0 {
                assert(self@.vertices[i as int].id == id@);
                return true;
            }
            i += 1;
        }
        false
    }

    /// Whether some edge of the path has the identifier `id`.
    pub fn contains_edge(&self, id: Graphid) -> (r: bool)
        ensures
            r == exists|i: int| 0 <= i < self@.edges.len() && self@.edges[i].id == id@,
    {
        let mut i: usize = 0;
        while i < self.edges.len()
            invariant
                0 <= i <= self.edges.len(),
                forall|k: int| 0 <= k < i ==> self@.edges[k].id != id@,
            decreases self.edges.len() - i,
        {
            if self.edges[i].id.0 == id.0 {
                assert(self@.edges[i as int].id == id@);
                return true;
            }
            i += 1;
        }
        false
    }

    /// The path walked backwards.
    pub fn reverse(&self) -> (r: GraphPath)
        ensures
            r@ == self@.reversed(),
    {
        let mut vertices: Vec<Vertex> = Vec::new();
        let n = self.vertices.len();
        let mut i: usize = 0;
        while i < n
            invariant
                n == self.vertices.len(),
                0 <= i <= n,
                vertices.len() == i,
                forall|k: int| 0 <= k < i ==> vertices[k]@ == self.vertices[n - 1 - k]@,
            decreases n - i,
        {
            vertices.push(self.vertices[n - 1 - i].clone());
            i += 1;
        }
        let mut edges: Vec<Edge> = Vec::new();
        let m = self.edges.len();
        let mut j: usize = 0;
        while j < m
            invariant
                m == self.edges.len(),
                0 <= j <= m,
                edges.len() == j,
                forall|k: int| 0 <= k < j ==> edges[k]@ == self.edges[m - 1 - k]@.reversed(),
            decreases m - j,
        {
            edges.push(self.edges[m - 1 - j].reverse());
            j += 1;
        }
        let r = GraphPath { vertices, edges };
        assert(r@.vertices =~= self@.reversed().vertices);
        assert(r@.edges =~= self@.reversed().edges);
        r
    }

    /// Whether two paths hold the same records in the same order.
    pub fn same(&self, other: &GraphPath) -> (r: bool)
        ensures
            r == (self@ == other@),
    {
        if self.vertices.len() != other.vertices.len() || self.edges.len() != other.edges.len() {
            assert(self@.vertices.len() != other@.vertices.len() || self@.edges.len()
                != other@.edges.len());
            return false;
        }
        let mut i: usize = 0;
        while i < self.vertices.len()
            invariant
                self.vertices.len() == other.vertices.len(),
                0 <= i <= self.vertices.len(),
                forall|k: int| 0 <= k < i ==> self.vertices[k]@ == other.vertices[k]@,
            decreases self.vertices.len() - i,
        {
            if !self.vertices[i].same(&other.vertices[i]) {
                assert(self@.vertices[i as int] != other@.vertices[i as int]);
                return false;
            }
            i += 1;
        }
        let mut j: usize = 0;
        while j < self.edges.len()
            invariant
                self.edges.len() == other.edges.len(),
                0 <= j <= self.edges.len(),
                forall|k: int| 0 <= k < j ==> self.edges[k]@ == other.edges[k]@,
            decreases self.edges.len() - j,
        {
            if !self.edges[j].same(&other.edges[j]) {
                assert(self@.edges[j as int] != other@.edges[j as int]);
                return false;
            }
            j += 1;
        }
        assert(self@.vertices =~= other@.vertices);
        assert(self@.edges =~= other@.edges);
        true
    }
}

impl PartialEq for GraphPath {
    fn eq(&self, other: &GraphPath) -> (r: bool) {
        self.same(other)
    }
}

impl vstd::std_specs::cmp::PartialEqSpecImpl for GraphPath {
    open spec fn obeys_eq_spec() -> bool {
        true
    }

    open spec fn eq_spec(&self, other: &GraphPath) -> bool {
        self@ == other@
    }
}

} // verus!
