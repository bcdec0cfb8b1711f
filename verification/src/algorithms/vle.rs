//! Variable-length expansion: all paths from a vertex whose length lies in
//! a range, in breadth-first order.

use crate::algorithms::error::AlgorithmError;
use crate::storage::engine::edges_view;
use crate::storage::graph::GraphStorage;
use crate::types::edge::{Edge, EdgeView};
use crate::types::graphid::Graphid;
use crate::types::path::clone_edges;
use vstd::prelude::*;

verus! {

/// A path found by the expansion.
#[derive(Debug)]
pub struct VariableLengthPath {
    /// The vertices, in path order.
    pub vertices: Vec<Graphid>,
    /// The edges, in path order.
    pub edges: Vec<Edge>,
    /// The number of edges.
    pub length: usize,
}

/// Mathematical model of a found path.
pub struct VlpView {
    pub vertices: Seq<u64>,
    pub edges: Seq<EdgeView>,
    pub length: nat,
}

impl View for VariableLengthPath {
    type V = VlpView;

    open spec fn view(&self) -> VlpView {
        VlpView {
            vertices: self.vertices@.map_values(|g: Graphid| g@),
            edges: edges_view(self.edges@),
            length: self.length as nat,
        }
    }
}

impl VlpView {
    /// The path that holds only `vertex`.
    pub open spec fn start_from(vertex: u64) -> VlpView {
        VlpView { vertices: seq![vertex], edges: Seq::empty(), length: 0 }
    }

    /// The path with one more edge and vertex at its end.
    pub open spec fn extended(self, edge: EdgeView, vertex: u64) -> VlpView {
        VlpView {
            vertices: self.vertices.push(vertex),
            edges: self.edges.push(edge),
            length: self.length + 1,
        }
    }

    /// The last vertex.
    pub open spec fn last_vertex(self) -> u64 {
        self.vertices.last()
    }

    /// A path of `n` edges from `start` through the graph `g`: every edge
    /// leaves the vertex before it and ends in the vertex after it.
    pub open spec fn is_path<S: GraphStorage>(self, g: &S, start: u64, n: nat) -> bool {
        &&& self.length == n
        &&& self.edges.len() == n
        &&& self.vertices.len() == n + 1
        &&& self.vertices[0] == start
        &&& forall|i: int|
            0 <= i < n ==> g.outgoing_spec(self.vertices[i]).contains(#[trigger] self.edges[i])
                && self.edges[i].end == self.vertices[i + 1]
    }
}

/// The options of an expansion.
#[derive(Debug, Clone, Copy)]
pub struct VleOptions {
    /// Smallest path length to report.
    pub min_length: usize,
    /// Largest path length to report.
    pub max_length: usize,
    /// Whether a path may visit a vertex twice.
    pub allow_cycles: bool,
    /// Largest number of paths to report; 0 for no limit.
    pub max_paths: usize,
}

impl Default for VleOptions {
    fn default() -> (r: VleOptions)
        ensures
            r.min_length == 1,
            r.max_length == 5,
            !r.allow_cycles,
            r.max_paths == 0,
    {
        VleOptions { min_length: 1, max_length: 5, allow_cycles: false, max_paths: 0 }
    }
}

/// The models of a list of paths.
pub open spec fn paths_view(ps: Seq<VariableLengthPath>) -> Seq<VlpView> {
    ps.map_values(|p: VariableLengthPath| p@)
}

/// The extensions of `p` by the edges `es`, in their order; without cycles,
/// an edge that leads back into the path is passed over.
pub open spec fn extensions(p: VlpView, es: Seq<EdgeView>, allow_cycles: bool) -> Seq<VlpView>
    decreases es.len(),
{
    if es.len() == 0 {
        Seq::empty()
    } else {
        let front = extensions(p, es.drop_last(), allow_cycles);
        if !allow_cycles && p.vertices.contains(es.last().end) {
            front
        } else {
            front.push(p.extended(es.last(), es.last().end))
        }
    }
}

/// The extensions of all of `ps`, path by path.
pub open spec fn expand_all<S: GraphStorage>(g: &S, ps: Seq<VlpView>, allow_cycles: bool) -> Seq<
    VlpView,
>
    decreases ps.len(),
{
    if ps.len() == 0 {
        Seq::empty()
    } else {
        expand_all(g, ps.drop_last(), allow_cycles) + extensions(
            ps.last(),
            g.outgoing_spec(ps.last().last_vertex()),
            allow_cycles,
        )
    }
}

/// The paths of exactly `n` edges from `start`, in breadth-first order.
pub open spec fn frontier<S: GraphStorage>(g: &S, start: u64, n: nat, allow_cycles: bool) -> Seq<
    VlpView,
>
    decreases n,
{
    if n == 0 {
        seq![VlpView::start_from(start)]
    } else {
        expand_all(g, frontier(g, start, (n - 1) as nat, allow_cycles), allow_cycles)
    }
}

/// The paths of fewer than `levels` and at least `min` edges, shortest
/// first.
pub open spec fn collected<S: GraphStorage>(
    g: &S,
    start: u64,
    min: nat,
    allow_cycles: bool,
    levels: nat,
) -> Seq<VlpView>
    decreases levels,
{
    if levels == 0 {
        Seq::empty()
    } else {
        let n = (levels - 1) as nat;
        collected(g, start, min, allow_cycles, n) + (if n >= min {
            frontier(g, start, n, allow_cycles)
        } else {
            Seq::empty()
        })
    }
}

/// What an expansion from `start` returns: every path whose length lies in
/// the range, shortest first, cut off after `max_paths` paths where that is
/// not zero.
pub open spec fn expansion<S: GraphStorage>(g: &S, start: u64, o: VleOptions) -> Seq<VlpView> {
    let all = collected(
        g,
        start,
        o.min_length as nat,
        o.allow_cycles,
        (o.max_length + 1) as nat,
    );
    if o.max_paths > 0 && all.len() > o.max_paths {
        all.subrange(0, o.max_paths as int)
    } else {
        all
    }
}

/// Every extension of a path is a path one edge longer, and without cycles
/// it repeats no vertex if the path repeated none.
proof fn lemma_extensions<S: GraphStorage>(
    g: &S,
    start: u64,
    n: nat,
    p: VlpView,
    es: Seq<EdgeView>,
    allow_cycles: bool,
    k: int,
)
    requires
        p.is_path(g, start, n),
        forall|i: int| 0 <= i < es.len() ==> g.outgoing_spec(p.last_vertex()).contains(es[i]),
        0 <= k < extensions(p, es, allow_cycles).len(),
    ensures
        extensions(p, es, allow_cycles)[k].is_path(g, start, n + 1),
        !allow_cycles && p.vertices.no_duplicates() ==> extensions(
            p,
            es,
            allow_cycles,
        )[k].vertices.no_duplicates(),
    decreases es.len(),
{
    let front = extensions(p, es.drop_last(), allow_cycles);
    if k < front.len() {
        assert forall|i: int| 0 <= i < es.drop_last().len() implies g.outgoing_spec(
            p.last_vertex(),
        ).contains(es.drop_last()[i]) by {
            assert(es.drop_last()[i] == es[i]);
        }
        lemma_extensions(g, start, n, p, es.drop_last(), allow_cycles, k);
    } else {
        let e = es.last();
        let q = p.extended(e, e.end);
        assert(extensions(p, es, allow_cycles)[k] == q);
        assert(g.outgoing_spec(p.last_vertex()).contains(es[es.len() - 1]));
        assert forall|i: int| 0 <= i < n + 1 implies g.outgoing_spec(q.vertices[i]).contains(
            #[trigger] q.edges[i],
        ) && q.edges[i].end == q.vertices[i + 1] by {
            if i < n {
                assert(q.edges[i] == p.edges[i]);
                assert(q.vertices[i] == p.vertices[i]);
                assert(q.vertices[i + 1] == p.vertices[i + 1]);
            }
        }
        if !allow_cycles && p.vertices.no_duplicates() {
            assert forall|i: int, j: int|
                0 <= i < q.vertices.len() && 0 <= j < q.vertices.len() && i
                    != j implies q.vertices[i] != q.vertices[j] by {
                if i < p.vertices.len() && j < p.vertices.len() {
                    assert(p.vertices[i] != p.vertices[j]);
                } else if i < p.vertices.len() {
                    assert(p.vertices.contains(p.vertices[i]));
                } else {
                    assert(p.vertices.contains(p.vertices[j]));
                }
            }
        }
    }
}

/// Every path of an expanded list extends a path of the list.
proof fn lemma_expand_all<S: GraphStorage>(
    g: &S,
    start: u64,
    n: nat,
    ps: Seq<VlpView>,
    allow_cycles: bool,
    k: int,
)
    requires
        forall|i: int| 0 <= i < ps.len() ==> (#[trigger] ps[i]).is_path(g, start, n),
        !allow_cycles ==> forall|i: int| 0 <= i < ps.len() ==> (#[trigger] ps[i]).vertices.no_duplicates(),
        0 <= k < expand_all(g, ps, allow_cycles).len(),
    ensures
        expand_all(g, ps, allow_cycles)[k].is_path(g, start, n + 1),
        !allow_cycles ==> expand_all(g, ps, allow_cycles)[k].vertices.no_duplicates(),
    decreases ps.len(),
{
    let front = expand_all(g, ps.drop_last(), allow_cycles);
    if k < front.len() {
        assert forall|i: int| 0 <= i < ps.drop_last().len() implies (#[trigger] ps.drop_last()[i]).is_path(
            g,
            start,
            n,
        ) by {
            assert(ps.drop_last()[i] == ps[i]);
        }
        if !allow_cycles {
            assert forall|i: int| 0 <= i < ps.drop_last().len() implies (
            #[trigger] ps.drop_last()[i]).vertices.no_duplicates() by {
                assert(ps.drop_last()[i] == ps[i]);
            }
        }
        lemma_expand_all(g, start, n, ps.drop_last(), allow_cycles, k);
    } else {
        let p = ps.last();
        assert(p == ps[ps.len() - 1]);
        let es = g.outgoing_spec(p.last_vertex());
        assert forall|i: int| 0 <= i < es.len() implies g.outgoing_spec(p.last_vertex()).contains(
            es[i],
        ) by {}
        lemma_extensions(g, start, n, p, es, allow_cycles, k - front.len());
    }
}

/// Every path of the `n`-th frontier is a path of `n` edges from `start`,
/// and without cycles it repeats no vertex.
pub proof fn lemma_frontier<S: GraphStorage>(g: &S, start: u64, n: nat, allow_cycles: bool, k: int)
    requires
        0 <= k < frontier(g, start, n, allow_cycles).len(),
    ensures
        frontier(g, start, n, allow_cycles)[k].is_path(g, start, n),
        !allow_cycles ==> frontier(g, start, n, allow_cycles)[k].vertices.no_duplicates(),
    decreases n,
{
    if n > 0 {
        let prev = frontier(g, start, (n - 1) as nat, allow_cycles);
        assert forall|i: int| 0 <= i < prev.len() implies (#[trigger] prev[i]).is_path(
            g,
            start,
            (n - 1) as nat,
        ) && (!allow_cycles ==> prev[i].vertices.no_duplicates()) by {
            lemma_frontier(g, start, (n - 1) as nat, allow_cycles, i);
        }
        lemma_expand_all(g, start, (n - 1) as nat, prev, allow_cycles, k);
    }
}

/// Every collected path is a path from `start` whose length is at least
/// `min` and below `levels`, and without cycles it repeats no vertex.
pub proof fn lemma_collected<S: GraphStorage>(
    g: &S,
    start: u64,
    min: nat,
    allow_cycles: bool,
    levels: nat,
    k: int,
)
    requires
        0 <= k < collected(g, start, min, allow_cycles, levels).len(),
    ensures
        ({
            let p = collected(g, start, min, allow_cycles, levels)[k];
            &&& min <= p.length < levels
            &&& p.is_path(g, start, p.length)
            &&& !allow_cycles ==> p.vertices.no_duplicates()
        }),
    decreases levels,
{
    let n = (levels - 1) as nat;
    let front = collected(g, start, min, allow_cycles, n);
    if k < front.len() {
        lemma_collected(g, start, min, allow_cycles, n, k);
    } else {
        lemma_frontier(g, start, n, allow_cycles, k - front.len());
    }
}

/// What was collected up to a level is the beginning of what is collected
/// up to any later level.
proof fn lemma_collected_prefix<S: GraphStorage>(
    g: &S,
    start: u64,
    min: nat,
    allow_cycles: bool,
    a: nat,
    b: nat,
)
    requires
        a <= b,
    ensures
        collected(g, start, min, allow_cycles, a).len() <= collected(
            g,
            start,
            min,
            allow_cycles,
            b,
        ).len(),
        collected(g, start, min, allow_cycles, b).subrange(
            0,
            collected(g, start, min, allow_cycles, a).len() as int,
        ) == collected(g, start, min, allow_cycles, a),
    decreases b,
{
    let ca = collected(g, start, min, allow_cycles, a);
    let cb = collected(g, start, min, allow_cycles, b);
    if a == b {
        assert(cb.subrange(0, ca.len() as int) =~= ca);
    } else {
        lemma_collected_prefix(g, start, min, allow_cycles, a, (b - 1) as nat);
        let cp = collected(g, start, min, allow_cycles, (b - 1) as nat);
        assert(cb.subrange(0, ca.len() as int) =~= cp.subrange(0, ca.len() as int));
    }
}

impl Clone for VariableLengthPath {
    fn clone(&self) -> (r: VariableLengthPath)
        ensures
            r@ == self@,
    {
        let mut vertices: Vec<Graphid> = Vec::new();
        let mut i: usize = 0;
        while i < self.vertices.len()
            invariant
                0 <= i <= self.vertices.len(),
                vertices.len() == i,
                forall|k: int| 0 <= k < i ==> vertices[k] == self.vertices[k],
            decreases self.vertices.len() - i,
        {
            vertices.push(self.vertices[i]);
            i += 1;
        }
        let r = VariableLengthPath { vertices, edges: clone_edges(&self.edges), length: self.length };
        assert(r@.vertices =~= self@.vertices);
        assert(r@.edges =~= self@.edges);
        r
    }
}

impl VariableLengthPath {
    /// The path that holds only `vertex`.
    pub fn start_from(vertex: Graphid) -> (r: VariableLengthPath)
        ensures
            r@ == VlpView::start_from(vertex@),
    {
        let mut vertices: Vec<Graphid> = Vec::new();
        vertices.push(vertex);
        let r = VariableLengthPath { vertices, edges: Vec::new(), length: 0 };
        assert(r@.vertices =~= seq![vertex@]);
        assert(r@.edges =~= Seq::<EdgeView>::empty());
        r
    }

    /// A copy of the path with one more edge and vertex at its end.
    pub fn extend(&self, edge: Edge, vertex: Graphid) -> (r: VariableLengthPath)
        requires
            self.length < usize::MAX,
        ensures
            r@ == self@.extended(edge@, vertex@),
    {
        let mut r = self.clone();
        r.edges.push(edge);
        r.vertices.push(vertex);
        r.length = r.length + 1;
        assert(r@.vertices =~= self@.vertices.push(vertex@));
        assert(r@.edges =~= self@.edges.push(edge@));
        r
    }

    /// Whether the path visits `vertex`.
    pub fn contains_vertex(&self, vertex: Graphid) -> (r: bool)
        ensures
            r == self@.vertices.contains(vertex@),
    {
        let mut i: usize = 0;
        while i < self.vertices.len()
            invariant
                0 <= i <= self.vertices.len(),
                forall|k: int| 0 <= k < i ==> self@.vertices[k] != vertex@,
            decreases self.vertices.len() - i,
        {
            if self.vertices[i].0 == vertex.0 {
                assert(self@.vertices[i as int] == vertex@);
                return true;
            }
            i += 1;
        }
        false
    }

    /// The last vertex of the path.
    pub fn last_vertex(&self) -> (r: Graphid)
        requires
            self.vertices.len() > 0,
        ensures
            r@ == self@.last_vertex(),
    {
        self.vertices[self.vertices.len() - 1]
    }
}

/// Adds to `next` the extensions of `path` by `edges`.
fn push_extensions(
    next: &mut Vec<VariableLengthPath>,
    path: &VariableLengthPath,
    edges: Vec<Edge>,
    allow_cycles: bool,
)
    requires
        path.length < usize::MAX,
    ensures
        paths_view(final(next)@) == paths_view(old(next)@) + extensions(
            path@,
            edges_view(edges@),
            allow_cycles,
        ),
{
    let ghost es = edges_view(edges@);
    let ghost before = paths_view(next@);
    let mut j: usize = 0;
    assert(es.subrange(0, 0) =~= Seq::empty());
    assert(before + Seq::empty() =~= before);
    while j < edges.len()
        invariant
            0 <= j <= edges.len(),
            es == edges_view(edges@),
            path.length < usize::MAX,
            paths_view(next@) == before + extensions(path@, es.subrange(0, j as int), allow_cycles),
        decreases edges.len() - j,
    {
        let edge = &edges[j];
        let ghost sofar = extensions(path@, es.subrange(0, j as int), allow_cycles);
        proof {
            let t = es.subrange(0, j as int + 1);
            assert(t.drop_last() =~= es.subrange(0, j as int));
            assert(t.last() == edge@);
        }
        if allow_cycles || !path.contains_vertex(edge.end) {
            let ghost held = paths_view(next@);
            let longer = path.extend(edge.clone(), edge.end);
            assert(longer@ == path@.extended(edge@, edge@.end));
            next.push(longer);
            assert(paths_view(next@) =~= held.push(longer@));
            assert(held.push(longer@) =~= before + sofar.push(longer@));
        }
        j += 1;
    }
    assert(es.subrange(0, j as int) =~= es);
}

/// All paths from `start` whose length lies between `min_length` and
/// `max_length`, in breadth-first order: shorter paths first, and among
/// paths of one length in the order in which the edges are read. Without
/// cycles no path visits a vertex twice; with `max_paths` above zero at most
/// that many paths are returned.
pub fn variable_length_expand<S: GraphStorage>(
    storage: &S,
    start: Graphid,
    options: VleOptions,
) -> (r: Result<Vec<VariableLengthPath>, AlgorithmError>)
    requires
        storage.inv(),
    ensures
        options.min_length > options.max_length || options.max_length == 0 ==> r matches Err(
            AlgorithmError::InvalidParameters(_),
        ),
        r matches Ok(paths) ==> {
            &&& options.min_length <= options.max_length && options.max_length > 0
            &&& storage.vertex_spec(start@) is Some
            &&& paths_view(paths@) == expansion(storage, start@, options)
            &&& options.max_paths > 0 ==> paths.len() <= options.max_paths
            &&& forall|i: int|
                0 <= i < paths.len() ==> {
                    &&& options.min_length <= (#[trigger] paths[i]).length <= options.max_length
                    &&& paths[i]@.is_path(storage, start@, paths[i].length as nat)
                    &&& !options.allow_cycles ==> paths[i]@.vertices.no_duplicates()
                }
        },
        r matches Err(AlgorithmError::PathNotFound(_, _)) ==> false,
        r matches Err(AlgorithmError::AlgorithmFailed(_)) ==> false,
        r matches Err(AlgorithmError::InvalidParameters(_)) ==> options.min_length
            > options.max_length || options.max_length == 0 || storage.vertex_spec(start@) is None,
        storage.sound() ==> !(r matches Err(AlgorithmError::StorageError(_))),
{
    if options.min_length > options.max_length {
        return Err(
            AlgorithmError::InvalidParameters(
                "min_length cannot be greater than max_length".to_owned(),
            ),
        );
    }
    if options.max_length == 0 {
        return Err(AlgorithmError::InvalidParameters("max_length must be at least 1".to_owned()));
    }
    match storage.get_vertex(start) {
        Ok(Some(_)) => {},
        Ok(None) => {
            return Err(AlgorithmError::InvalidParameters("Start vertex not found".to_owned()));
        },
        Err(e) => {
            return Err(AlgorithmError::StorageError(e));
        },
    }
    let ghost min = options.min_length as nat;
    let ghost allow = options.allow_cycles;
    let ghost all = collected(storage, start@, min, allow, (options.max_length + 1) as nat);
    let mut results: Vec<VariableLengthPath> = Vec::new();
    let mut current: Vec<VariableLengthPath> = Vec::new();
    current.push(VariableLengthPath::start_from(start));
    let mut level: usize = 0;
    assert(paths_view(current@) =~= frontier(storage, start@, 0, allow));
    assert(paths_view(results@) =~= collected(storage, start@, min, allow, 0));
    loop
        invariant
            storage.inv(),
            0 <= level <= options.max_length,
            min == options.min_length as nat,
            allow == options.allow_cycles,
            all == collected(storage, start@, min, allow, (options.max_length + 1) as nat),
            storage.vertex_spec(start@) is Some,
            options.min_length <= options.max_length && options.max_length > 0,
            paths_view(current@) == frontier(storage, start@, level as nat, allow),
            paths_view(results@) == collected(storage, start@, min, allow, level as nat),
            options.max_paths > 0 ==> results.len() < options.max_paths,
        decreases options.max_length - level,
    {
        let ghost fr = paths_view(current@);
        let ghost base = paths_view(results@);
        let mut next: Vec<VariableLengthPath> = Vec::new();
        let mut i: usize = 0;
        assert(fr.subrange(0, 0) =~= Seq::empty());
        assert(base + Seq::empty() =~= base);
        assert(paths_view(next@) =~= expand_all(storage, fr.subrange(0, 0), allow));
        while i < current.len()
            invariant
                storage.inv(),
                0 <= i <= current.len(),
                0 <= level <= options.max_length,
                min == options.min_length as nat,
                allow == options.allow_cycles,
                all == collected(storage, start@, min, allow, (options.max_length + 1) as nat),
                storage.vertex_spec(start@) is Some,
                options.min_length <= options.max_length && options.max_length > 0,
                fr == paths_view(current@),
                fr == frontier(storage, start@, level as nat, allow),
                base == collected(storage, start@, min, allow, level as nat),
                paths_view(results@) == base + (if level >= options.min_length {
                    fr.subrange(0, i as int)
                } else {
                    Seq::empty()
                }),
                level < options.max_length ==> paths_view(next@) == expand_all(
                    storage,
                    fr.subrange(0, i as int),
                    allow,
                ),
                options.max_paths > 0 ==> results.len() < options.max_paths,
            decreases current.len() - i,
        {
            let path = &current[i];
            proof {
                let t = fr.subrange(0, i as int + 1);
                assert(t.drop_last() =~= fr.subrange(0, i as int));
                assert(t.last() == path@);
                lemma_frontier(storage, start@, level as nat, allow, i as int);
                assert(fr[i as int] == path@);
            }
            if level >= options.min_length {
                let ghost sofar = paths_view(results@);
                results.push(path.clone());
                assert(paths_view(results@) =~= sofar.push(path@));
                assert(paths_view(results@) =~= base + fr.subrange(0, i as int + 1));
                if options.max_paths > 0 && results.len() >= options.max_paths {
                    proof {
                        let got = paths_view(results@);
                        let next_level = collected(storage, start@, min, allow, (level + 1) as nat);
                        assert(next_level == base + fr);
                        lemma_collected_prefix(
                            storage,
                            start@,
                            min,
                            allow,
                            (level + 1) as nat,
                            (options.max_length + 1) as nat,
                        );
                        assert(got =~= next_level.subrange(0, got.len() as int));
                        assert(got =~= all.subrange(0, got.len() as int)) by {
                            assert(next_level == all.subrange(0, next_level.len() as int));
                        }
                        assert(got.len() == options.max_paths);
                        if all.len() == got.len() {
                            assert(all.subrange(0, got.len() as int) =~= all);
                        }
                        lemma_results(storage, start@, options);
                        assert(got == expansion(storage, start@, options));
                        assert forall|k: int| 0 <= k < results.len() implies {
                            &&& options.min_length <= (#[trigger] results[k]).length
                                <= options.max_length
                            &&& results[k]@.is_path(storage, start@, results[k].length as nat)
                            &&& !options.allow_cycles ==> results[k]@.vertices.no_duplicates()
                        } by {
                            assert(expansion(storage, start@, options)[k] == results[k]@);
                        }
                    }
                    return Ok(results);
                }
            }
            if level < options.max_length {
                let edges = match storage.get_outgoing_edges(path.last_vertex()) {
                    Ok(edges) => edges,
                    Err(e) => {
                        return Err(AlgorithmError::StorageError(e));
                    },
                };
                push_extensions(&mut next, path, edges, options.allow_cycles);
            }
            i += 1;
        }
        assert(fr.subrange(0, i as int) =~= fr);
        assert(paths_view(results@) == collected(storage, start@, min, allow, (level + 1) as nat));
        if level >= options.max_length {
            proof {
                lemma_results(storage, start@, options);
                let got = paths_view(results@);
                assert(got == all);
                assert(got == expansion(storage, start@, options));
                assert forall|k: int| 0 <= k < results.len() implies {
                    &&& options.min_length <= (#[trigger] results[k]).length <= options.max_length
                    &&& results[k]@.is_path(storage, start@, results[k].length as nat)
                    &&& !options.allow_cycles ==> results[k]@.vertices.no_duplicates()
                } by {
                    assert(expansion(storage, start@, options)[k] == results[k]@);
                }
            }
            return Ok(results);
        }
        current = next;
        level = level + 1;
    }
}

/// Every path of an expansion is a path from the start whose length lies in
/// the range; without cycles it repeats no vertex; and with `max_paths`
/// above zero there are at most that many.
pub proof fn lemma_results<S: GraphStorage>(g: &S, start: u64, o: VleOptions)
    ensures
        o.max_paths > 0 ==> expansion(g, start, o).len() <= o.max_paths,
        forall|i: int|
            0 <= i < expansion(g, start, o).len() ==> {
                let p = #[trigger] expansion(g, start, o)[i];
                &&& o.min_length <= p.length <= o.max_length
                &&& p.is_path(g, start, p.length)
                &&& !o.allow_cycles ==> p.vertices.no_duplicates()
            },
{
    let all = collected(g, start, o.min_length as nat, o.allow_cycles, (o.max_length + 1) as nat);
    assert forall|i: int| 0 <= i < expansion(g, start, o).len() implies {
        let p = #[trigger] expansion(g, start, o)[i];
        &&& o.min_length <= p.length <= o.max_length
        &&& p.is_path(g, start, p.length)
        &&& !o.allow_cycles ==> p.vertices.no_duplicates()
    } by {
        assert(expansion(g, start, o)[i] == all[i]);
        lemma_collected(
            g,
            start,
            o.min_length as nat,
            o.allow_cycles,
            (o.max_length + 1) as nat,
            i,
        );
    }
}

/// The paths of `ps` whose last vertex is `end`, in their order.
pub open spec fn ending_at(ps: Seq<VlpView>, end: u64) -> Seq<VlpView>
    decreases ps.len(),
{
    if ps.len() == 0 {
        Seq::empty()
    } else if ps.last().last_vertex() == end {
        ending_at(ps.drop_last(), end).push(ps.last())
    } else {
        ending_at(ps.drop_last(), end)
    }
}

/// The last vertices of `ps`, each once, in the order of first occurrence.
pub open spec fn distinct_ends(ps: Seq<VlpView>) -> Seq<u64>
    decreases ps.len(),
{
    if ps.len() == 0 {
        Seq::empty()
    } else {
        let front = distinct_ends(ps.drop_last());
        if front.contains(ps.last().last_vertex()) {
            front
        } else {
            front.push(ps.last().last_vertex())
        }
    }
}

/// The distinct ends hold no vertex twice, and exactly the last vertices of
/// the paths.
pub proof fn lemma_distinct_ends(ps: Seq<VlpView>)
    ensures
        distinct_ends(ps).no_duplicates(),
        forall|v: u64|
            distinct_ends(ps).contains(v) <==> exists|i: int|
                0 <= i < ps.len() && (#[trigger] ps[i]).last_vertex() == v,
    decreases ps.len(),
{
    if ps.len() > 0 {
        let front = distinct_ends(ps.drop_last());
        let last = ps.last().last_vertex();
        lemma_distinct_ends(ps.drop_last());
        let d = distinct_ends(ps);
        assert forall|v: u64| d.contains(v) <==> exists|i: int|
            0 <= i < ps.len() && (#[trigger] ps[i]).last_vertex() == v by {
            if d.contains(v) {
                let j = choose|j: int| 0 <= j < d.len() && d[j] == v;
                if j < front.len() {
                    assert(front[j] == v);
                    assert(front.contains(v));
                    let i = choose|i: int|
                        0 <= i < ps.drop_last().len() && (#[trigger] ps.drop_last()[i]).last_vertex()
                            == v;
                    assert(ps[i].last_vertex() == v);
                } else {
                    assert(ps[ps.len() - 1].last_vertex() == v);
                }
            }
            if exists|i: int| 0 <= i < ps.len() && (#[trigger] ps[i]).last_vertex() == v {
                let i = choose|i: int| 0 <= i < ps.len() && (#[trigger] ps[i]).last_vertex() == v;
                if i < ps.len() - 1 {
                    assert(ps.drop_last()[i].last_vertex() == v);
                    assert(front.contains(v));
                    let j = choose|j: int| 0 <= j < front.len() && front[j] == v;
                    assert(d[j] == v);
                } else if front.contains(v) {
                    let j = choose|j: int| 0 <= j < front.len() && front[j] == v;
                    assert(d[j] == v);
                } else {
                    assert(d[d.len() - 1] == v);
                }
            }
        }
    }
}

/// The identifiers of a list as plain numbers.
pub open spec fn ids_view(ids: Seq<Graphid>) -> Seq<u64> {
    ids.map_values(|g: Graphid| g@)
}

/// Whether `id` is among `ids`.
fn holds_id(ids: &Vec<Graphid>, id: Graphid) -> (r: bool)
    ensures
        r == ids_view(ids@).contains(id@),
{
    let mut i: usize = 0;
    while i < ids.len()
        invariant
            0 <= i <= ids.len(),
            forall|k: int| 0 <= k < i ==> ids_view(ids@)[k] != id@,
        decreases ids.len() - i,
    {
        if ids[i].0 == id.0 {
            assert(ids_view(ids@)[i as int] == id@);
            return true;
        }
        i += 1;
    }
    false
}

/// The last vertices of the found paths, each once.
fn collect_ends(paths: &Vec<VariableLengthPath>) -> (r: Vec<Graphid>)
    requires
        forall|i: int| 0 <= i < paths.len() ==> (#[trigger] paths[i]).vertices.len() > 0,
    ensures
        ids_view(r@) == distinct_ends(paths_view(paths@)),
{
    let mut out: Vec<Graphid> = Vec::new();
    let mut i: usize = 0;
    let ghost ps = paths_view(paths@);
    assert(ps.subrange(0, 0) =~= Seq::empty());
    assert(ids_view(out@) =~= Seq::empty());
    while i < paths.len()
        invariant
            0 <= i <= paths.len(),
            ps == paths_view(paths@),
            forall|k: int| 0 <= k < paths.len() ==> (#[trigger] paths[k]).vertices.len() > 0,
            ids_view(out@) == distinct_ends(ps.subrange(0, i as int)),
        decreases paths.len() - i,
    {
        proof {
            let t = ps.subrange(0, i as int + 1);
            assert(t.drop_last() =~= ps.subrange(0, i as int));
            assert(t.last() == paths[i as int]@);
        }
        let last = paths[i].last_vertex();
        if !holds_id(&out, last) {
            let ghost before = ids_view(out@);
            out.push(last);
            assert(ids_view(out@) =~= before.push(last@));
        }
        i += 1;
    }
    assert(ps.subrange(0, i as int) =~= ps);
    out
}

/// All paths from `start` to `end` whose length lies in the range: the
/// paths of the expansion from `start` that end at `end`. Fails with
/// `PathNotFound` when there is none.
pub fn variable_length_paths_between<S: GraphStorage>(
    storage: &S,
    start: Graphid,
    end: Graphid,
    options: VleOptions,
) -> (r: Result<Vec<VariableLengthPath>, AlgorithmError>)
    requires
        storage.inv(),
    ensures
        r matches Ok(paths) ==> {
            &&& options.min_length <= options.max_length && options.max_length > 0
            &&& storage.vertex_spec(start@) is Some
            &&& paths.len() > 0
            &&& paths_view(paths@) == ending_at(expansion(storage, start@, options), end@)
        },
        r matches Err(AlgorithmError::PathNotFound(a, b)) ==> {
            &&& a == start && b == end
            &&& options.min_length <= options.max_length && options.max_length > 0
            &&& storage.vertex_spec(start@) is Some
            &&& ending_at(expansion(storage, start@, options), end@).len() == 0
        },
        r matches Err(AlgorithmError::AlgorithmFailed(_)) ==> false,
        r matches Err(AlgorithmError::InvalidParameters(_)) ==> options.min_length
            > options.max_length || options.max_length == 0 || storage.vertex_spec(start@) is None,
        options.min_length > options.max_length || options.max_length == 0 ==> r matches Err(
            AlgorithmError::InvalidParameters(_),
        ),
        storage.sound() ==> !(r matches Err(AlgorithmError::StorageError(_))),
{
    let all = match variable_length_expand(storage, start, options) {
        Ok(all) => all,
        Err(e) => {
            return Err(e);
        },
    };
    let ghost ps = paths_view(all@);
    let mut out: Vec<VariableLengthPath> = Vec::new();
    let mut i: usize = 0;
    assert(ps.subrange(0, 0) =~= Seq::empty());
    assert(paths_view(out@) =~= Seq::empty());
    while i < all.len()
        invariant
            0 <= i <= all.len(),
            ps == paths_view(all@),
            forall|k: int|
                0 <= k < all.len() ==> (#[trigger] all[k])@.is_path(
                    storage,
                    start@,
                    all[k].length as nat,
                ),
            paths_view(out@) == ending_at(ps.subrange(0, i as int), end@),
        decreases all.len() - i,
    {
        proof {
            let t = ps.subrange(0, i as int + 1);
            assert(t.drop_last() =~= ps.subrange(0, i as int));
            assert(t.last() == all[i as int]@);
            assert(all[i as int]@.is_path(storage, start@, all[i as int].length as nat));
        }
        if all[i].last_vertex().0 == end.0 {
            let ghost before = paths_view(out@);
            out.push(all[i].clone());
            assert(paths_view(out@) =~= before.push(all[i as int]@));
        }
        i += 1;
    }
    assert(ps.subrange(0, i as int) =~= ps);
    if out.len() == 0 {
        return Err(AlgorithmError::PathNotFound(start, end));
    }
    Ok(out)
}

/// The vertices that a path of exactly `k` edges without a repeated vertex
/// leads to from `start`, each once; `start` itself for `k == 0`.
pub fn k_hop_neighbors<S: GraphStorage>(storage: &S, start: Graphid, k: usize) -> (r: Result<
    Vec<Graphid>,
    AlgorithmError,
>)
    requires
        storage.inv(),
    ensures
        k == 0 ==> r is Ok && ids_view(r->Ok_0@) == seq![start@],
        k > 0 ==> (r matches Ok(ids) ==> storage.vertex_spec(start@) is Some && ids_view(ids@)
            == distinct_ends(
            expansion(
                storage,
                start@,
                VleOptions { min_length: k, max_length: k, allow_cycles: false, max_paths: 0 },
            ),
        )),
        r matches Ok(ids) ==> ids_view(ids@).no_duplicates(),
        r matches Err(AlgorithmError::PathNotFound(_, _)) ==> false,
        r matches Err(AlgorithmError::AlgorithmFailed(_)) ==> false,
        r matches Err(AlgorithmError::InvalidParameters(_)) ==> k > 0 && storage.vertex_spec(
            start@,
        ) is None,
        storage.sound() ==> !(r matches Err(AlgorithmError::StorageError(_))),
{
    if k == 0 {
        let mut out: Vec<Graphid> = Vec::new();
        out.push(start);
        assert(ids_view(out@) =~= seq![start@]);
        return Ok(out);
    }
    let options = VleOptions { min_length: k, max_length: k, allow_cycles: false, max_paths: 0 };
    let paths = match variable_length_expand(storage, start, options) {
        Ok(paths) => paths,
        Err(e) => {
            return Err(e);
        },
    };
    proof {
        lemma_distinct_ends(paths_view(paths@));
    }
    Ok(collect_ends(&paths))
}

/// The vertices that a path of at least one and at most `k` edges without a
/// repeated vertex leads to from `start`, each once.
pub fn neighbors_within_k_hops<S: GraphStorage>(storage: &S, start: Graphid, k: usize) -> (r:
    Result<Vec<Graphid>, AlgorithmError>)
    requires
        storage.inv(),
    ensures
        r matches Ok(ids) ==> k > 0 && storage.vertex_spec(start@) is Some && ids_view(ids@)
            == distinct_ends(
            expansion(
                storage,
                start@,
                VleOptions { min_length: 1, max_length: k, allow_cycles: false, max_paths: 0 },
            ),
        ) && ids_view(ids@).no_duplicates(),
        k == 0 ==> r is Err && r->Err_0 is InvalidParameters,
        r matches Err(AlgorithmError::PathNotFound(_, _)) ==> false,
        r matches Err(AlgorithmError::AlgorithmFailed(_)) ==> false,
        r matches Err(AlgorithmError::InvalidParameters(_)) ==> k == 0 || storage.vertex_spec(
            start@,
        ) is None,
        storage.sound() ==> !(r matches Err(AlgorithmError::StorageError(_))),
{
    let options = VleOptions { min_length: 1, max_length: k, allow_cycles: false, max_paths: 0 };
    let paths = match variable_length_expand(storage, start, options) {
        Ok(paths) => paths,
        Err(e) => {
            return Err(e);
        },
    };
    proof {
        lemma_distinct_ends(paths_view(paths@));
    }
    Ok(collect_ends(&paths))
}

} // verus!
