//! Shortest paths with every edge counted as one: a breadth-first search
//! that always continues at the nearest vertex not yet expanded and, among
//! equally near ones, at the one with the smallest identifier.

use crate::algorithms::error::AlgorithmError;
use crate::storage::engine::edges_view;
use crate::storage::graph::GraphStorage;
use crate::types::edge::{Edge, EdgeView};
use crate::types::graphid::Graphid;
use vstd::prelude::*;

verus! {

/// A shortest path.
#[derive(Debug)]
pub struct ShortestPathResult {
    /// The vertices from start to end.
    pub path: Vec<Graphid>,
    /// The number of edges.
    pub cost: u64,
    /// The edges, in path order.
    pub edges: Vec<Edge>,
}

/// Mathematical model of a shortest path result.
pub struct ShortestPathView {
    pub path: Seq<u64>,
    pub cost: u64,
    pub edges: Seq<EdgeView>,
}

impl View for ShortestPathResult {
    type V = ShortestPathView;

    open spec fn view(&self) -> ShortestPathView {
        ShortestPathView {
            path: self.path@.map_values(|g: Graphid| g@),
            cost: self.cost,
            edges: edges_view(self.edges@),
        }
    }
}

/// Where a walk from `from` along `es` ends: every edge leads to its end.
pub open spec fn walk_end(from: u64, es: Seq<EdgeView>) -> u64 {
    if es.len() == 0 {
        from
    } else {
        es.last().end
    }
}

/// `es` is a directed walk from `from`: each edge is an outgoing edge of the
/// vertex that the edges before it lead to.
pub open spec fn is_walk<S: GraphStorage>(g: &S, from: u64, es: Seq<EdgeView>) -> bool
    decreases es.len(),
{
    es.len() == 0 || (is_walk(g, from, es.drop_last()) && g.outgoing_spec(
        walk_end(from, es.drop_last()),
    ).contains(es.last()))
}

/// The vertices that a walk passes, the start included.
pub open spec fn walk_vertices(from: u64, es: Seq<EdgeView>) -> Seq<u64> {
    seq![from] + es.map_values(|e: EdgeView| e.end)
}

/// `es` is a directed path from `s` to `t`.
pub open spec fn connects<S: GraphStorage>(g: &S, s: u64, t: u64, es: Seq<EdgeView>) -> bool {
    is_walk(g, s, es) && walk_end(s, es) == t
}

/// `es` is a directed path from `s` to `t`, and no directed path from `s` to
/// `t` has fewer edges.
pub open spec fn is_shortest<S: GraphStorage>(g: &S, s: u64, t: u64, es: Seq<EdgeView>) -> bool {
    &&& connects(g, s, t, es)
    &&& forall|other: Seq<EdgeView>| #[trigger] connects(g, s, t, other) ==> es.len() <= other.len()
}

/// `other` is a walk of `len` edges from `s` whose end has, at the place
/// `j` of its outgoing edges, an edge that leads to `v`.
pub open spec fn rival<S: GraphStorage>(
    g: &S,
    s: u64,
    other: Seq<EdgeView>,
    j: int,
    len: int,
    v: u64,
) -> bool {
    &&& is_walk(g, s, other)
    &&& other.len() == len
    &&& 0 <= j < g.outgoing_spec(walk_end(s, other)).len()
    &&& g.outgoing_spec(walk_end(s, other))[j].end == v
}

/// The edge `e` of the vertex `u` is met before the edge at the place `j`
/// of the vertex `w`: `u` has the smaller identifier, or the two are one
/// vertex and `e` is read at `j` or earlier.
pub open spec fn met_before<S: GraphStorage>(g: &S, u: u64, e: EdgeView, w: u64, j: int) -> bool {
    u < w || (u == w && exists|q: int|
        0 <= q <= j && q < g.outgoing_spec(u).len() && #[trigger] g.outgoing_spec(u)[q] == e)
}

/// `es` is the path that a search from `s` meets first when it expands
/// vertices by distance and, at one distance, by ascending identifier, and
/// follows the edges of a vertex in the order in which they are read: every
/// edge of `es` is met before any other edge that leads to the same vertex
/// from a vertex as many edges away from `s`.
pub open spec fn first_met<S: GraphStorage>(g: &S, s: u64, es: Seq<EdgeView>) -> bool {
    forall|k: int, other: Seq<EdgeView>, j: int|
        0 <= k < es.len() && #[trigger] rival(g, s, other, j, k, es[k].end) ==> met_before(
            g,
            walk_end(s, es.take(k)),
            es[k],
            walk_end(s, other),
            j,
        )
}

/// A vertex that the search has reached.
struct Node {
    id: Graphid,
    /// Edges on the path by which it was reached.
    cost: u64,
    /// Index of the node from which it was reached.
    parent: usize,
    /// The edge by which it was reached; none for the start.
    edge: Option<Edge>,
    /// Whether its outgoing edges have been followed.
    visited: bool,
}

/// Some node stands for `v` and was reached by at most `c` edges.
spec fn reached_within(nodes: Seq<Node>, v: u64, c: int) -> bool {
    exists|j: int| 0 <= j < nodes.len() && (#[trigger] nodes[j]).id@ == v && nodes[j].cost <= c
}

/// Every outgoing edge of node `i` leads to a node that was reached by at
/// most one edge more.
spec fn closed_at<S: GraphStorage>(g: &S, nodes: Seq<Node>, i: int) -> bool {
    forall|k: int|
        0 <= k < g.outgoing_spec(nodes[i].id@).len() ==> reached_within(
            nodes,
            (#[trigger] g.outgoing_spec(nodes[i].id@)[k]).end,
            nodes[i].cost + 1,
        )
}

/// Node `i` hangs by its edge under an earlier, expanded node.
spec fn hangs<S: GraphStorage>(g: &S, nodes: Seq<Node>, i: int) -> bool {
    let n = nodes[i];
    &&& n.parent < i
    &&& nodes[n.parent as int].visited
    &&& n.edge is Some
    &&& g.outgoing_spec(nodes[n.parent as int].id@).contains(n.edge.unwrap()@)
    &&& n.edge.unwrap()@.end == n.id@
    &&& n.cost == nodes[n.parent as int].cost + 1
}

/// The shape of the search tree: the first node is the start, every other
/// node hangs by an edge under an earlier, expanded node, and no vertex has
/// two nodes.
spec fn tree_ok<S: GraphStorage>(g: &S, start: u64, nodes: Seq<Node>) -> bool {
    &&& nodes.len() >= 1
    &&& nodes[0].id@ == start
    &&& nodes[0].cost == 0
    &&& forall|i: int, j: int|
        0 <= i < j < nodes.len() ==> (#[trigger] nodes[i]).id@ != (#[trigger] nodes[j]).id@
    &&& forall|i: int| 1 <= i < nodes.len() ==> #[trigger] hangs(g, nodes, i)
    &&& forall|i: int| 0 <= i < nodes.len() ==> (#[trigger] nodes[i]).cost <= i
}

/// Expanded nodes are no farther than `level`, the others are at `level` or
/// one beyond.
spec fn levels_ok(nodes: Seq<Node>, level: int) -> bool {
    forall|i: int|
        0 <= i < nodes.len() ==> if (#[trigger] nodes[i]).visited {
            nodes[i].cost <= level
        } else {
            level <= nodes[i].cost <= level + 1
        }
}

/// The edges from the start to node `i` along the search tree.
spec fn chain(nodes: Seq<Node>, i: int) -> Seq<EdgeView>
    decreases i,
{
    if i <= 0 || i >= nodes.len() || nodes[i].parent >= i || nodes[i].edge is None {
        Seq::empty()
    } else {
        chain(nodes, nodes[i].parent as int).push(nodes[i].edge.unwrap()@)
    }
}

/// The tree path to a node is a walk from the start to the node's vertex,
/// as long as the node's cost.
proof fn lemma_chain<S: GraphStorage>(g: &S, start: u64, nodes: Seq<Node>, i: int)
    requires
        tree_ok(g, start, nodes),
        0 <= i < nodes.len(),
    ensures
        connects(g, start, nodes[i].id@, chain(nodes, i)),
        chain(nodes, i).len() == nodes[i].cost,
    decreases i,
{
    if i > 0 {
        assert(hangs(g, nodes, i));
        let p = nodes[i].parent as int;
        lemma_chain(g, start, nodes, p);
        let c = chain(nodes, i);
        assert(c.drop_last() =~= chain(nodes, p));
    }
}

/// Along any walk from the start, either some node is still to be expanded
/// that is no farther from the start than the walk is long, or the walk ends
/// at an expanded node that is no farther than that.
proof fn lemma_walk_bound<S: GraphStorage>(
    g: &S,
    start: u64,
    nodes: Seq<Node>,
    es: Seq<EdgeView>,
    limit: int,
)
    requires
        tree_ok(g, start, nodes),
        forall|i: int|
            0 <= i < nodes.len() && (#[trigger] nodes[i]).visited && nodes[i].cost < limit
                ==> closed_at(g, nodes, i),
        is_walk(g, start, es),
        es.len() <= limit,
    ensures
        (exists|j: int| 0 <= j < nodes.len() && !(#[trigger] nodes[j]).visited && nodes[j].cost <= es.len())
            || (exists|j: int|
            0 <= j < nodes.len() && (#[trigger] nodes[j]).visited && nodes[j].id@ == walk_end(
                start,
                es,
            ) && nodes[j].cost <= es.len()),
    decreases es.len(),
{
    if es.len() == 0 {
        assert(nodes[0].id@ == start);
    } else {
        let front = es.drop_last();
        lemma_walk_bound(g, start, nodes, front, limit);
        if exists|j: int| 0 <= j < nodes.len() && !(#[trigger] nodes[j]).visited && nodes[j].cost <= front.len() {
            let j = choose|j: int| 0 <= j < nodes.len() && !(#[trigger] nodes[j]).visited && nodes[j].cost <= front.len();
            assert(!nodes[j].visited && nodes[j].cost <= es.len());
        } else {
            let j = choose|j: int|
                0 <= j < nodes.len() && (#[trigger] nodes[j]).visited && nodes[j].id@ == walk_end(
                    start,
                    front,
                ) && nodes[j].cost <= front.len();
            assert(closed_at(g, nodes, j));
            let out = g.outgoing_spec(nodes[j].id@);
            let k = choose|k: int| 0 <= k < out.len() && out[k] == es.last();
            assert(reached_within(nodes, out[k].end, nodes[j].cost + 1));
            let w = choose|w: int|
                0 <= w < nodes.len() && (#[trigger] nodes[w]).id@ == out[k].end && nodes[w].cost
                    <= nodes[j].cost + 1;
            if nodes[w].visited {
                assert(nodes[w].visited && nodes[w].id@ == walk_end(start, es) && nodes[w].cost <= es.len());
            } else {
                assert(!nodes[w].visited && nodes[w].cost <= es.len());
            }
        }
    }
}

/// When the nearest node still to be expanded is picked, no walk from the
/// start to its vertex is shorter than its cost.
proof fn lemma_picked_is_nearest<S: GraphStorage>(
    g: &S,
    start: u64,
    nodes: Seq<Node>,
    m: int,
    es: Seq<EdgeView>,
    limit: int,
)
    requires
        tree_ok(g, start, nodes),
        forall|i: int|
            0 <= i < nodes.len() && (#[trigger] nodes[i]).visited && nodes[i].cost < limit
                ==> closed_at(g, nodes, i),
        es.len() <= limit,
        0 <= m < nodes.len(),
        !nodes[m].visited,
        forall|j: int| 0 <= j < nodes.len() && !(#[trigger] nodes[j]).visited ==> nodes[m].cost <= nodes[j].cost,
        connects(g, start, nodes[m].id@, es),
    ensures
        nodes[m].cost <= es.len(),
{
    lemma_walk_bound(g, start, nodes, es, limit);
    if exists|j: int| 0 <= j < nodes.len() && !(#[trigger] nodes[j]).visited && nodes[j].cost <= es.len() {
    } else {
        let j = choose|j: int|
            0 <= j < nodes.len() && (#[trigger] nodes[j]).visited && nodes[j].id@ == walk_end(
                start,
                es,
            ) && nodes[j].cost <= es.len();
        if j < m {
            assert(nodes[j].id@ != nodes[m].id@);
        } else if m < j {
            assert(nodes[m].id@ != nodes[j].id@);
        }
    }
}

/// When every node has been expanded, a walk from the start can only end at
/// a vertex that has a node.
proof fn lemma_exhausted<S: GraphStorage>(
    g: &S,
    start: u64,
    nodes: Seq<Node>,
    es: Seq<EdgeView>,
    limit: int,
)
    requires
        tree_ok(g, start, nodes),
        forall|i: int| 0 <= i < nodes.len() ==> (#[trigger] nodes[i]).visited,
        forall|i: int|
            0 <= i < nodes.len() && (#[trigger] nodes[i]).cost < limit ==> closed_at(g, nodes, i),
        is_walk(g, start, es),
        es.len() <= limit,
    ensures
        exists|j: int|
            0 <= j < nodes.len() && (#[trigger] nodes[j]).id@ == walk_end(start, es) && nodes[j].cost
                <= es.len(),
{
    lemma_walk_bound(g, start, nodes, es, limit);
}

/// The number of expanded nodes.
spec fn visited_count(nodes: Seq<Node>) -> nat
    decreases nodes.len(),
{
    if nodes.len() == 0 {
        0
    } else {
        visited_count(nodes.drop_last()) + if nodes.last().visited {
            1nat
        } else {
            0nat
        }
    }
}

/// No more nodes are expanded than there are, and fewer while one waits.
proof fn lemma_visited_count(nodes: Seq<Node>)
    ensures
        visited_count(nodes) <= nodes.len(),
        (exists|i: int| 0 <= i < nodes.len() && !(#[trigger] nodes[i]).visited) ==> visited_count(nodes)
            < nodes.len(),
    decreases nodes.len(),
{
    if nodes.len() > 0 {
        lemma_visited_count(nodes.drop_last());
        if exists|i: int| 0 <= i < nodes.len() && !(#[trigger] nodes[i]).visited {
            let i = choose|i: int| 0 <= i < nodes.len() && !(#[trigger] nodes[i]).visited;
            if i < nodes.len() - 1 {
                assert(!nodes.drop_last()[i].visited);
            }
        }
    }
}

/// Expanding one waiting node raises the count by one.
proof fn lemma_visited_count_mark(before: Seq<Node>, after: Seq<Node>, m: int)
    requires
        before.len() == after.len(),
        0 <= m < before.len(),
        !before[m].visited,
        after[m].visited,
        forall|i: int| 0 <= i < before.len() && i != m ==> after[i].visited == before[i].visited,
    ensures
        visited_count(after) == visited_count(before) + 1,
    decreases before.len(),
{
    let n = before.len() - 1;
    if m < n {
        lemma_visited_count_mark(before.drop_last(), after.drop_last(), m);
    } else {
        lemma_visited_count_same(before.drop_last(), after.drop_last());
    }
}

/// Lists that agree on which nodes are expanded have the same count.
proof fn lemma_visited_count_same(a: Seq<Node>, b: Seq<Node>)
    requires
        a.len() == b.len(),
        forall|i: int| 0 <= i < a.len() ==> a[i].visited == b[i].visited,
    ensures
        visited_count(a) == visited_count(b),
    decreases a.len(),
{
    if a.len() > 0 {
        lemma_visited_count_same(a.drop_last(), b.drop_last());
    }
}

/// The edge by which node `i` was reached is met before any other edge
/// that leads to its vertex from a vertex as far from the start as its
/// parent.
spec fn prefers<S: GraphStorage>(g: &S, start: u64, nodes: Seq<Node>, i: int) -> bool {
    forall|other: Seq<EdgeView>, j: int| #[trigger]
        rival(g, start, other, j, nodes[nodes[i].parent as int].cost as int, nodes[i].id@)
            ==> met_before(
            g,
            nodes[nodes[i].parent as int].id@,
            nodes[i].edge.unwrap()@,
            walk_end(start, other),
            j,
        )
}

/// Every node but the start was reached by the edge that is met first.
spec fn all_prefer<S: GraphStorage>(g: &S, start: u64, nodes: Seq<Node>) -> bool {
    forall|i: int| 1 <= i < nodes.len() ==> #[trigger] prefers(g, start, nodes, i)
}

/// Node `m` is the nearest of those that wait, and among the equally near
/// the one with the smallest identifier.
spec fn least(nodes: Seq<Node>, m: int) -> bool {
    forall|j: int|
        0 <= j < nodes.len() && !(#[trigger] nodes[j]).visited ==> nodes[m].cost < nodes[j].cost
            || nodes[m].id@ <= nodes[j].id@
}

/// While the nodes at `level` are expanded, a walk of at most `level`
/// edges from the start ends at a vertex that has a node, reached by no more
/// edges than the walk has.
proof fn lemma_walk_in<S: GraphStorage>(
    g: &S,
    start: u64,
    nodes: Seq<Node>,
    es: Seq<EdgeView>,
    level: int,
)
    requires
        tree_ok(g, start, nodes),
        levels_ok(nodes, level),
        forall|i: int|
            0 <= i < nodes.len() && (#[trigger] nodes[i]).visited && nodes[i].cost < level
                ==> closed_at(g, nodes, i),
        is_walk(g, start, es),
        es.len() <= level,
    ensures
        exists|w: int|
            0 <= w < nodes.len() && (#[trigger] nodes[w]).id@ == walk_end(start, es) && nodes[w].cost
                <= es.len(),
    decreases es.len(),
{
    if es.len() == 0 {
        assert(nodes[0].id@ == start);
    } else {
        let front = es.drop_last();
        lemma_walk_in(g, start, nodes, front, level);
        let a = choose|a: int|
            0 <= a < nodes.len() && (#[trigger] nodes[a]).id@ == walk_end(start, front)
                && nodes[a].cost <= front.len();
        assert(nodes[a].visited);
        assert(closed_at(g, nodes, a));
        let out = g.outgoing_spec(nodes[a].id@);
        let k = choose|k: int| 0 <= k < out.len() && out[k] == es.last();
        assert(reached_within(nodes, out[k].end, nodes[a].cost + 1));
        let w = choose|w: int|
            0 <= w < nodes.len() && (#[trigger] nodes[w]).id@ == out[k].end && nodes[w].cost
                <= nodes[a].cost + 1;
        assert(nodes[w].id@ == walk_end(start, es) && nodes[w].cost <= es.len());
    }
}

/// The edge at the place `k` of the node `m` that is being expanded, which
/// leads to a vertex `v` without a node, is met before any other edge that
/// leads to `v` from a vertex as far from the start as `m`.
proof fn lemma_new_prefers<S: GraphStorage>(
    g: &S,
    start: u64,
    held: Seq<Node>,
    m: int,
    k: int,
    level: int,
    v: u64,
)
    requires
        tree_ok(g, start, held),
        levels_ok(held, level),
        0 <= m < held.len(),
        held[m].visited,
        held[m].cost == level,
        forall|i: int|
            0 <= i < held.len() && (#[trigger] held[i]).visited && i != m ==> closed_at(g, held, i),
        least(held, m),
        0 <= k < g.outgoing_spec(held[m].id@).len(),
        g.outgoing_spec(held[m].id@)[k].end == v,
        forall|q: int|
            0 <= q < k ==> reached_within(
                held,
                (#[trigger] g.outgoing_spec(held[m].id@)[q]).end,
                level + 1,
            ),
        forall|i: int| 0 <= i < held.len() ==> (#[trigger] held[i]).id@ != v,
    ensures
        forall|other: Seq<EdgeView>, j: int| #[trigger]
            rival(g, start, other, j, level, v) ==> met_before(
                g,
                held[m].id@,
                g.outgoing_spec(held[m].id@)[k],
                walk_end(start, other),
                j,
            ),
{
    let out = g.outgoing_spec(held[m].id@);
    assert forall|other: Seq<EdgeView>, j: int| #[trigger]
        rival(g, start, other, j, level, v) implies met_before(
        g,
        held[m].id@,
        out[k],
        walk_end(start, other),
        j,
    ) by {
        lemma_walk_in(g, start, held, other, level);
        let w = choose|w: int|
            0 <= w < held.len() && (#[trigger] held[w]).id@ == walk_end(start, other)
                && held[w].cost <= other.len();
        let from = g.outgoing_spec(held[w].id@);
        assert(from[j].end == v);
        if w == m {
            if j < k {
                assert(reached_within(held, out[j].end, level + 1));
                let x = choose|x: int|
                    0 <= x < held.len() && (#[trigger] held[x]).id@ == out[j].end && held[x].cost
                        <= level + 1;
                assert(held[x].id@ != v);
            }
            assert(0 <= k <= j && k < out.len() && out[k] == out[k]);
        } else if held[w].visited {
            assert(closed_at(g, held, w));
            assert(reached_within(held, from[j].end, held[w].cost + 1));
            let x = choose|x: int|
                0 <= x < held.len() && (#[trigger] held[x]).id@ == from[j].end && held[x].cost
                    <= held[w].cost + 1;
            assert(held[x].id@ != v);
        } else {
            if w < m {
                assert(held[w].id@ != held[m].id@);
            } else {
                assert(held[m].id@ != held[w].id@);
            }
        }
    }
}

/// Adding a node for the vertex that the edge at the place `k` of the
/// expanded node `m` leads to keeps every node reached by the edge that is
/// met first, and keeps `m` the least.
proof fn lemma_push_prefers<S: GraphStorage>(
    g: &S,
    start: u64,
    held: Seq<Node>,
    node: Node,
    m: int,
    k: int,
    level: int,
)
    requires
        tree_ok(g, start, held),
        levels_ok(held, level),
        all_prefer(g, start, held),
        0 <= m < held.len(),
        held[m].visited,
        held[m].cost == level,
        forall|i: int|
            0 <= i < held.len() && (#[trigger] held[i]).visited && i != m ==> closed_at(g, held, i),
        least(held, m),
        0 <= k < g.outgoing_spec(held[m].id@).len(),
        g.outgoing_spec(held[m].id@)[k].end == node.id@,
        node.edge is Some,
        node.edge.unwrap()@ == g.outgoing_spec(held[m].id@)[k],
        node.parent == m,
        node.cost == level + 1,
        !node.visited,
        forall|q: int|
            0 <= q < k ==> reached_within(
                held,
                (#[trigger] g.outgoing_spec(held[m].id@)[q]).end,
                level + 1,
            ),
        forall|i: int| 0 <= i < held.len() ==> (#[trigger] held[i]).id@ != node.id@,
    ensures
        all_prefer(g, start, held.push(node)),
        least(held.push(node), m),
{
    let now = held.push(node);
    lemma_new_prefers(g, start, held, m, k, level, node.id@);
    assert forall|i: int| 1 <= i < now.len() implies #[trigger] prefers(g, start, now, i) by {
        if i < held.len() {
            assert(hangs(g, held, i));
            assert(prefers(g, start, held, i));
            assert(now[i] == held[i]);
            assert(now[now[i].parent as int] == held[held[i].parent as int]);
        } else {
            assert(now[i] == node);
            assert(now[m] == held[m]);
        }
    }
    assert forall|j: int| 0 <= j < now.len() && !(#[trigger] now[j]).visited implies now[m].cost
        < now[j].cost || now[m].id@ <= now[j].id@ by {
        if j < held.len() {
            assert(now[j] == held[j]);
        }
    }
}

/// Marking a node as expanded changes nothing about the edges by which
/// the nodes were reached.
proof fn lemma_mark_prefers<S: GraphStorage>(
    g: &S,
    start: u64,
    before: Seq<Node>,
    after: Seq<Node>,
    m: int,
)
    requires
        tree_ok(g, start, before),
        all_prefer(g, start, before),
        marked_from(before, after, m),
    ensures
        all_prefer(g, start, after),
{
    assert forall|i: int| 1 <= i < after.len() implies #[trigger] prefers(g, start, after, i) by {
        assert(hangs(g, before, i));
        assert(prefers(g, start, before, i));
        let p = before[i].parent as int;
        assert(after[i].id == before[i].id && after[i].parent == before[i].parent && after[i].edge
            == before[i].edge);
        assert(after[p].id == before[p].id && after[p].cost == before[p].cost);
    }
}

/// The path along the search tree to a node is the path that is met first.
proof fn lemma_chain_first_met<S: GraphStorage>(g: &S, start: u64, nodes: Seq<Node>, i: int)
    requires
        tree_ok(g, start, nodes),
        all_prefer(g, start, nodes),
        0 <= i < nodes.len(),
    ensures
        first_met(g, start, chain(nodes, i)),
    decreases i,
{
    let es = chain(nodes, i);
    if i > 0 {
        assert(hangs(g, nodes, i));
        let p = nodes[i].parent as int;
        lemma_chain_first_met(g, start, nodes, p);
        lemma_chain(g, start, nodes, p);
        lemma_chain(g, start, nodes, i);
        let front = chain(nodes, p);
        assert(es.drop_last() =~= front);
        assert(prefers(g, start, nodes, i));
        assert forall|k: int, other: Seq<EdgeView>, j: int|
            0 <= k < es.len() && #[trigger] rival(g, start, other, j, k, es[k].end) implies met_before(
            g,
            walk_end(start, es.take(k)),
            es[k],
            walk_end(start, other),
            j,
        ) by {
            if k < es.len() - 1 {
                assert(es[k] == front[k]);
                assert(es.take(k) =~= front.take(k));
                assert(rival(g, start, other, j, k, front[k].end));
            } else {
                assert(es.take(k) =~= front);
                assert(es[k] == nodes[i].edge.unwrap()@);
                assert(rival(g, start, other, j, nodes[p].cost as int, nodes[i].id@));
            }
        }
    }
}

/// What the search keeps true between two expansions. `rest` holds the
/// vertices that edges lead to and that have no node yet.
spec fn search_ok<S: GraphStorage>(
    g: &S,
    start: u64,
    nodes: Seq<Node>,
    level: int,
    rest: Set<u64>,
) -> bool {
    &&& tree_ok(g, start, nodes)
    &&& levels_ok(nodes, level)
    &&& rest.finite()
    &&& forall|i: int| 0 <= i < nodes.len() ==> !rest.contains((#[trigger] nodes[i]).id@)
    &&& forall|v: u64|
        g.targets().contains(v) ==> rest.contains(v) || reached_within(nodes, v, nodes.len() as int)
}

/// Index of the node that stands for `id`.
fn find_node(nodes: &Vec<Node>, id: Graphid) -> (r: Option<usize>)
    ensures
        r matches Some(i) ==> i < nodes.len() && nodes[i as int].id@ == id@,
        r is None ==> forall|i: int| 0 <= i < nodes.len() ==> (#[trigger] nodes[i]).id@ != id@,
{
    let mut i: usize = 0;
    while i < nodes.len()
        invariant
            0 <= i <= nodes.len(),
            forall|k: int| 0 <= k < i ==> (#[trigger] nodes[k]).id@ != id@,
        decreases nodes.len() - i,
    {
        if nodes[i].id.0 == id.0 {
            return Some(i);
        }
        i += 1;
    }
    None
}

/// The node to expand next: the nearest of those that wait, and among the
/// equally near the one with the smallest identifier.
fn pick_next(nodes: &Vec<Node>) -> (r: Option<usize>)
    ensures
        r is None ==> forall|i: int| 0 <= i < nodes.len() ==> (#[trigger] nodes[i]).visited,
        r matches Some(m) ==> {
            &&& m < nodes.len()
            &&& !nodes[m as int].visited
            &&& forall|j: int|
                0 <= j < nodes.len() && !(#[trigger] nodes[j]).visited ==> nodes[m as int].cost
                    < nodes[j].cost || (nodes[m as int].cost == nodes[j].cost
                    && nodes[m as int].id@ <= nodes[j].id@)
        },
{
    let mut best: Option<usize> = None;
    let mut i: usize = 0;
    while i < nodes.len()
        invariant
            0 <= i <= nodes.len(),
            best is None ==> forall|k: int| 0 <= k < i ==> (#[trigger] nodes[k]).visited,
            best matches Some(m) ==> {
                &&& m < i
                &&& !nodes[m as int].visited
                &&& forall|j: int|
                    0 <= j < i && !(#[trigger] nodes[j]).visited ==> nodes[m as int].cost
                        < nodes[j].cost || (nodes[m as int].cost == nodes[j].cost
                        && nodes[m as int].id@ <= nodes[j].id@)
            },
        decreases nodes.len() - i,
    {
        if !nodes[i].visited {
            match best {
                None => {
                    best = Some(i);
                },
                Some(m) => {
                    if nodes[i].cost < nodes[m].cost || (nodes[i].cost == nodes[m].cost
                        && nodes[i].id.0 < nodes[m].id.0) {
                        best = Some(i);
                    }
                },
            }
        }
        i += 1;
    }
    best
}

/// The path along the search tree from the start to node `idx`.
fn reconstruct_path<S: GraphStorage>(
    storage: &S,
    nodes: &Vec<Node>,
    idx: usize,
    Ghost(start): Ghost<u64>,
) -> (r: ShortestPathResult)
    requires
        idx < nodes.len(),
        tree_ok(storage, start, nodes@),
    ensures
        r@.edges == chain(nodes@, idx as int),
        r@.path == walk_vertices(start, r@.edges),
        r@.cost == nodes[idx as int].cost,
{
    let mut back_edges: Vec<Edge> = Vec::new();
    let mut back_ids: Vec<Graphid> = Vec::new();
    let mut current: usize = idx;
    assert(chain(nodes@, idx as int) =~= chain(nodes@, current as int) + edges_view(
        back_edges@,
    ).reverse());
    while current != 0
        invariant
            current < nodes.len(),
            tree_ok(storage, start, nodes@),
            back_ids.len() == back_edges.len(),
            forall|k: int|
                0 <= k < back_edges.len() ==> (#[trigger] back_ids[k])@ == back_edges[k]@.end,
            chain(nodes@, idx as int) == chain(nodes@, current as int) + edges_view(
                back_edges@,
            ).reverse(),
        decreases current,
    {
        let node = &nodes[current];
        let ghost before = edges_view(back_edges@);
        assert(hangs(storage, nodes@, current as int));
        match &node.edge {
            Some(edge) => {
                back_edges.push(edge.clone());
                back_ids.push(node.id);
                proof {
                    let after = edges_view(back_edges@);
                    assert(after =~= before.push(edge@));
                    assert(after.reverse() =~= seq![edge@] + before.reverse());
                    assert(chain(nodes@, current as int) == chain(nodes@, node.parent as int).push(
                        edge@,
                    ));
                    assert(chain(nodes@, idx as int) =~= chain(nodes@, node.parent as int)
                        + after.reverse());
                }
            },
            None => {},
        }
        current = node.parent;
    }
    assert(chain(nodes@, 0) =~= Seq::<EdgeView>::empty());
    let ghost back = edges_view(back_edges@);
    assert(chain(nodes@, idx as int) =~= back.reverse());
    let mut path: Vec<Graphid> = Vec::new();
    let mut edges: Vec<Edge> = Vec::new();
    path.push(nodes[0].id);
    let n = back_edges.len();
    let mut i: usize = 0;
    while i < n
        invariant
            n == back_edges.len(),
            n == back_ids.len(),
            0 <= i <= n,
            back == edges_view(back_edges@),
            edges.len() == i,
            path.len() == i + 1,
            path[0]@ == start,
            forall|k: int| 0 <= k < i ==> (#[trigger] edges[k])@ == back[n - 1 - k],
            forall|k: int| 0 <= k < i ==> (#[trigger] path[k + 1])@ == back[n - 1 - k].end,
            forall|k: int|
                0 <= k < back_edges.len() ==> (#[trigger] back_ids[k])@ == back_edges[k]@.end,
        decreases n - i,
    {
        edges.push(back_edges[n - 1 - i].clone());
        path.push(back_ids[n - 1 - i]);
        i += 1;
    }
    let r = ShortestPathResult { path, cost: nodes[idx].cost, edges };
    proof {
        assert(r@.edges =~= back.reverse());
        let expect = walk_vertices(start, r@.edges);
        assert(r@.path.len() == expect.len());
        assert forall|k: int| 0 <= k < expect.len() implies r@.path[k] == expect[k] by {
            if k > 0 {
                assert(r.path[(k - 1) + 1]@ == back[n - 1 - (k - 1)].end);
            }
        }
        assert(r@.path =~= expect);
    }
    r
}

/// What adding a node for a vertex that had none keeps true.
proof fn lemma_add_node<S: GraphStorage>(
    g: &S,
    start: u64,
    held: Seq<Node>,
    node: Node,
    level: int,
    rest: Set<u64>,
)
    requires
        search_ok(g, start, held, level, rest),
        node.parent < held.len(),
        held[node.parent as int].visited,
        held[node.parent as int].cost == level,
        node.cost == level + 1,
        node.edge is Some,
        g.outgoing_spec(held[node.parent as int].id@).contains(node.edge.unwrap()@),
        node.edge.unwrap()@.end == node.id@,
        !node.visited,
        forall|i: int| 0 <= i < held.len() ==> (#[trigger] held[i]).id@ != node.id@,
        g.targets().contains(node.id@),
    ensures
        rest.contains(node.id@),
        search_ok(g, start, held.push(node), level, rest.remove(node.id@)),
        rest.remove(node.id@).len() + 1 == rest.len(),
        reached_within(held.push(node), node.id@, level + 1),
        forall|v: u64, c: int|
            reached_within(held, v, c) ==> #[trigger] reached_within(held.push(node), v, c),
        forall|i: int|
            0 <= i < held.len() && closed_at(g, held, i) ==> #[trigger] closed_at(
                g,
                held.push(node),
                i,
            ),
{
    let now = held.push(node);
    let last = held.len() as int;
    let m = node.parent as int;
    let smaller = rest.remove(node.id@);
    if !rest.contains(node.id@) {
        assert(reached_within(held, node.id@, held.len() as int));
        let q = choose|q: int|
            0 <= q < held.len() && (#[trigger] held[q]).id@ == node.id@ && held[q].cost <= held.len();
        assert(false);
    }
    assert forall|v: u64, c: int| reached_within(held, v, c) implies #[trigger] reached_within(
        now,
        v,
        c,
    ) by {
        let q = choose|q: int| 0 <= q < held.len() && (#[trigger] held[q]).id@ == v && held[q].cost <= c;
        assert(now[q].id@ == v && now[q].cost <= c);
    }
    assert(reached_within(now, node.id@, level + 1)) by {
        assert(now[last].id@ == node.id@ && now[last].cost <= level + 1);
    }
    assert forall|i: int| 0 <= i < held.len() && closed_at(g, held, i) implies #[trigger] closed_at(
        g,
        now,
        i,
    ) by {
        assert(now[i] == held[i]);
        assert forall|k: int| 0 <= k < g.outgoing_spec(now[i].id@).len() implies reached_within(
            now,
            (#[trigger] g.outgoing_spec(now[i].id@)[k]).end,
            now[i].cost + 1,
        ) by {
            assert(reached_within(held, g.outgoing_spec(held[i].id@)[k].end, held[i].cost + 1));
        }
    }
    assert(tree_ok(g, start, now)) by {
        assert forall|a: int, b: int| 0 <= a < b < now.len() implies (#[trigger] now[a]).id@ != (
        #[trigger] now[b]).id@ by {
            if b < last {
                assert(held[a].id@ != held[b].id@);
            } else {
                assert(held[a].id@ != node.id@);
            }
        }
        assert forall|i: int| 1 <= i < now.len() implies #[trigger] hangs(g, now, i) by {
            if i < last {
                assert(hangs(g, held, i));
                let n = held[i];
                assert(now[i] == held[i]);
                assert(now[n.parent as int] == held[n.parent as int]);
            } else {
                assert(now[m] == held[m]);
            }
        }
        assert forall|i: int| 0 <= i < now.len() implies (#[trigger] now[i]).cost <= i by {
            if i < last {
                assert(held[i].cost <= i);
            } else {
                assert(held[m].cost <= m);
            }
        }
    }
    assert(levels_ok(now, level)) by {
        assert forall|i: int| 0 <= i < now.len() implies if (#[trigger] now[i]).visited {
            now[i].cost <= level
        } else {
            level <= now[i].cost <= level + 1
        } by {
            if i < last {
                assert(now[i] == held[i]);
            }
        }
    }
    assert forall|v: u64| g.targets().contains(v) implies smaller.contains(v) || reached_within(
        now,
        v,
        now.len() as int,
    ) by {
        if v == node.id@ {
            assert(now[last].id@ == v && now[last].cost <= now.len());
        } else if !rest.contains(v) {
            assert(reached_within(held, v, held.len() as int));
            let q = choose|q: int|
                0 <= q < held.len() && (#[trigger] held[q]).id@ == v && held[q].cost <= held.len();
            assert(now[q].id@ == v && now[q].cost <= now.len());
        }
    }
    assert forall|i: int| 0 <= i < now.len() implies !smaller.contains((#[trigger] now[i]).id@) by {
        if i < last {
            assert(now[i] == held[i]);
        }
    }
}

/// A node that was reached stays within one edge of the level.
proof fn lemma_found_is_near<S: GraphStorage>(
    g: &S,
    start: u64,
    nodes: Seq<Node>,
    level: int,
    rest: Set<u64>,
    w: int,
)
    requires
        search_ok(g, start, nodes, level, rest),
        0 <= w < nodes.len(),
    ensures
        reached_within(nodes, nodes[w].id@, level + 1),
{
    assert(nodes[w].cost <= level + 1);
}

/// Adds a node for every vertex that the edges of node `m` lead to and that
/// has none yet.
#[verifier::rlimit(40)]
fn expand_node<S: GraphStorage>(
    storage: &S,
    nodes: &mut Vec<Node>,
    m: usize,
    edges: Vec<Edge>,
    Ghost(start): Ghost<u64>,
    Ghost(level): Ghost<int>,
    Ghost(rest): Ghost<Set<u64>>,
    Ghost(limit): Ghost<int>,
) -> (r: Ghost<Set<u64>>)
    requires
        storage.inv(),
        m < old(nodes).len(),
        old(nodes)[m as int].visited,
        old(nodes)[m as int].cost == level,
        level < u64::MAX,
        edges_view(edges@) == storage.outgoing_spec(old(nodes)[m as int].id@),
        search_ok(storage, start, old(nodes)@, level, rest),
        forall|i: int|
            0 <= i < old(nodes).len() && (#[trigger] old(nodes)[i]).visited && i != m
                && old(nodes)[i].cost < limit ==> closed_at(storage, old(nodes)@, i),
    ensures
        search_ok(storage, start, final(nodes)@, level, r@),
        final(nodes).len() >= old(nodes).len(),
        final(nodes).len() + r@.len() == old(nodes).len() + rest.len(),
        forall|i: int| 0 <= i < old(nodes).len() ==> final(nodes)[i] == old(nodes)[i],
        forall|i: int|
            old(nodes).len() <= i < final(nodes).len() ==> !(#[trigger] final(nodes)[i]).visited
                && final(nodes)[i].cost == level + 1,
        forall|i: int|
            0 <= i < old(nodes).len() && (#[trigger] old(nodes)[i]).visited && (i == m
                || old(nodes)[i].cost < limit) ==> closed_at(storage, final(nodes)@, i),
        level < limit && least(old(nodes)@, m as int) && all_prefer(storage, start, old(nodes)@)
            ==> all_prefer(storage, start, final(nodes)@),
{
    let ghost out = edges_view(edges@);
    let ghost first = nodes@;
    let mut rest_now: Ghost<Set<u64>> = Ghost(rest);
    let cost = nodes[m].cost;
    let mut j: usize = 0;
    proof {
        storage.targets_finite();
    }
    while j < edges.len()
        invariant
            storage.inv(),
            0 <= j <= edges.len(),
            m < first.len(),
            first.len() <= nodes.len(),
            out == edges_view(edges@),
            out == storage.outgoing_spec(first[m as int].id@),
            cost == level,
            level < u64::MAX,
            forall|i: int| 0 <= i < first.len() ==> nodes[i] == first[i],
            first[m as int].visited,
            first[m as int].cost == level,
            forall|i: int|
                first.len() <= i < nodes.len() ==> !(#[trigger] nodes[i]).visited && nodes[i].cost
                    == level + 1,
            search_ok(storage, start, nodes@, level, rest_now@),
            nodes.len() + rest_now@.len() == first.len() + rest.len(),
            forall|i: int|
                0 <= i < first.len() && (#[trigger] first[i]).visited && i != m && first[i].cost
                    < limit ==> closed_at(storage, nodes@, i),
            forall|k: int|
                0 <= k < j ==> reached_within(nodes@, (#[trigger] out[k]).end, level + 1),
            forall|i: int|
                0 <= i < out.len() ==> storage.targets().contains((#[trigger] out[i]).end),
            level < limit && least(first, m as int) && all_prefer(storage, start, first) ==> least(
                nodes@,
                m as int,
            ) && all_prefer(storage, start, nodes@),
        decreases edges.len() - j,
    {
        let target = edges[j].end;
        let ghost held = nodes@;
        assert(out[j as int] == edges[j as int]@);
        match find_node(nodes, target) {
            Some(w) => {
                proof {
                    lemma_found_is_near(storage, start, held, level, rest_now@, w as int);
                }
            },
            None => {
                let node = Node {
                    id: target,
                    cost: cost + 1,
                    parent: m,
                    edge: Some(edges[j].clone()),
                    visited: false,
                };
                proof {
                    assert(held[m as int] == first[m as int]);
                    assert(out.contains(out[j as int]));
                    if level < limit && least(first, m as int) && all_prefer(storage, start, first) {
                        assert forall|i: int|
                            0 <= i < held.len() && (#[trigger] held[i]).visited && i != m implies closed_at(
                            storage,
                            held,
                            i,
                        ) by {
                            assert(i < first.len());
                            assert(held[i] == first[i]);
                        }
                        lemma_push_prefers(storage, start, held, node, m as int, j as int, level);
                    }
                    lemma_add_node(storage, start, held, node, level, rest_now@);
                }
                let ghost smaller = rest_now@.remove(target@);
                nodes.push(node);
                rest_now = Ghost(smaller);
                assert(nodes@ =~= held.push(node));
            },
        }
        j += 1;
    }
    proof {
        let now = nodes@;
        assert(now[m as int] == first[m as int]);
        assert(closed_at(storage, now, m as int));
    }
    rest_now
}

/// Nodes added behind a list without being expanded leave the count as it
/// is.
proof fn lemma_visited_count_extend(a: Seq<Node>, b: Seq<Node>)
    requires
        a.len() <= b.len(),
        forall|i: int| 0 <= i < a.len() ==> a[i].visited == b[i].visited,
        forall|i: int| a.len() <= i < b.len() ==> !b[i].visited,
    ensures
        visited_count(a) == visited_count(b),
    decreases b.len(),
{
    if b.len() > a.len() {
        lemma_visited_count_extend(a, b.drop_last());
    } else {
        lemma_visited_count_same(a, b);
    }
}

/// `after` is `before` with node `m` marked as expanded.
spec fn marked_from(before: Seq<Node>, after: Seq<Node>, m: int) -> bool {
    &&& before.len() == after.len()
    &&& 0 <= m < before.len()
    &&& !before[m].visited
    &&& after[m].visited
    &&& after[m].id == before[m].id
    &&& after[m].cost == before[m].cost
    &&& after[m].parent == before[m].parent
    &&& after[m].edge == before[m].edge
    &&& forall|i: int| 0 <= i < before.len() && i != m ==> after[i] == before[i]
}

/// Marking a node keeps what was reached, and keeps closed what was closed.
proof fn lemma_mark_closed<S: GraphStorage>(g: &S, before: Seq<Node>, after: Seq<Node>, m: int)
    requires
        marked_from(before, after, m),
    ensures
        forall|v: u64, c: int| reached_within(before, v, c) ==> #[trigger] reached_within(after, v, c),
        forall|i: int|
            0 <= i < before.len() && closed_at(g, before, i) ==> #[trigger] closed_at(g, after, i),
{
    assert forall|v: u64, c: int| reached_within(before, v, c) implies #[trigger] reached_within(
        after,
        v,
        c,
    ) by {
        let q = choose|q: int|
            0 <= q < before.len() && (#[trigger] before[q]).id@ == v && before[q].cost <= c;
        assert(after[q].id@ == v && after[q].cost <= c);
    }
    assert forall|i: int| 0 <= i < before.len() && closed_at(g, before, i) implies #[trigger] closed_at(
        g,
        after,
        i,
    ) by {
        assert(after[i].id == before[i].id && after[i].cost == before[i].cost);
        assert forall|k: int| 0 <= k < g.outgoing_spec(after[i].id@).len() implies reached_within(
            after,
            (#[trigger] g.outgoing_spec(after[i].id@)[k]).end,
            after[i].cost + 1,
        ) by {
            assert(reached_within(before, g.outgoing_spec(before[i].id@)[k].end, before[i].cost + 1));
        }
    }
}

/// Marking a node keeps the shape of the search tree.
proof fn lemma_mark_tree<S: GraphStorage>(
    g: &S,
    start: u64,
    before: Seq<Node>,
    after: Seq<Node>,
    m: int,
)
    requires
        tree_ok(g, start, before),
        marked_from(before, after, m),
    ensures
        tree_ok(g, start, after),
{
    assert forall|a: int, b: int| 0 <= a < b < after.len() implies (#[trigger] after[a]).id@ != (
    #[trigger] after[b]).id@ by {
        assert(before[a].id@ != before[b].id@);
        assert(after[a].id == before[a].id);
        assert(after[b].id == before[b].id);
    }
    assert forall|i: int| 1 <= i < after.len() implies #[trigger] hangs(g, after, i) by {
        assert(hangs(g, before, i));
        let n = before[i];
        let p = n.parent as int;
        assert(before[p].visited);
        assert(after[i].parent == n.parent && after[i].edge == n.edge && after[i].cost == n.cost
            && after[i].id == n.id);
        assert(after[p].id == before[p].id && after[p].cost == before[p].cost);
        assert(after[p].visited);
    }
    assert forall|i: int| 0 <= i < after.len() implies (#[trigger] after[i]).cost <= i by {
        assert(before[i].cost <= i);
        assert(after[i].cost == before[i].cost);
    }
    assert(after[0].id == before[0].id && after[0].cost == before[0].cost);
}

/// Marking the nearest waiting node moves the level to that node.
proof fn lemma_mark_levels(before: Seq<Node>, after: Seq<Node>, level: int, m: int)
    requires
        levels_ok(before, level),
        marked_from(before, after, m),
        forall|j: int|
            0 <= j < before.len() && !(#[trigger] before[j]).visited ==> before[m].cost <= before[j].cost,
    ensures
        levels_ok(after, before[m].cost as int),
{
    assert forall|i: int| 0 <= i < after.len() implies if (#[trigger] after[i]).visited {
        after[i].cost <= before[m].cost
    } else {
        before[m].cost <= after[i].cost <= before[m].cost + 1
    } by {
        assert(before[m].cost >= level);
        if i != m {
            assert(after[i] == before[i]);
            if !before[i].visited {
                assert(before[m].cost <= before[i].cost);
            }
        }
    }
}

/// What marking the picked node as expanded keeps true, at the level of
/// that node.
proof fn lemma_mark<S: GraphStorage>(
    g: &S,
    start: u64,
    before: Seq<Node>,
    after: Seq<Node>,
    level: int,
    rest: Set<u64>,
    m: int,
)
    requires
        search_ok(g, start, before, level, rest),
        marked_from(before, after, m),
        forall|j: int|
            0 <= j < before.len() && !(#[trigger] before[j]).visited ==> before[m].cost <= before[j].cost,
    ensures
        search_ok(g, start, after, before[m].cost as int, rest),
        visited_count(after) == visited_count(before) + 1,
        forall|i: int|
            0 <= i < before.len() && closed_at(g, before, i) ==> #[trigger] closed_at(g, after, i),
{
    lemma_visited_count_mark(before, after, m);
    lemma_mark_closed(g, before, after, m);
    lemma_mark_tree(g, start, before, after, m);
    lemma_mark_levels(before, after, level, m);
    assert forall|v: u64| g.targets().contains(v) implies rest.contains(v) || reached_within(
        after,
        v,
        after.len() as int,
    ) by {
        if !rest.contains(v) {
            assert(reached_within(before, v, before.len() as int));
        }
    }
    assert forall|i: int| 0 <= i < after.len() implies !rest.contains((#[trigger] after[i]).id@) by {
        assert(!rest.contains(before[i].id@));
        assert(after[i].id == before[i].id);
    }
}

/// The shortest directed path from `start` to `end`, every edge counted as
/// one: the path, its edges and its cost, which is the smallest number of
/// edges on any directed path between the two. Among paths of that cost the
/// one is returned that the search meets first: it expands vertices in the
/// order of their distance and, at one distance, of their identifiers, and
/// follows the edges of a vertex in the order in which they are read. Fails
/// with `PathNotFound` exactly when no directed path exists.
pub fn dijkstra<S: GraphStorage>(storage: &S, start: Graphid, end: Graphid) -> (r: Result<
    ShortestPathResult,
    AlgorithmError,
>)
    requires
        storage.inv(),
    ensures
        r matches Ok(res) ==> {
            &&& is_shortest(storage, start@, end@, res@.edges)
            &&& first_met(storage, start@, res@.edges)
            &&& res@.path == walk_vertices(start@, res@.edges)
            &&& res@.cost == res@.edges.len()
        },
        r matches Err(AlgorithmError::PathNotFound(a, b)) ==> {
            &&& a == start && b == end
            &&& forall|es: Seq<EdgeView>| !connects(storage, start@, end@, es)
        },
        r matches Err(AlgorithmError::InvalidParameters(_)) ==> false,
        r matches Err(AlgorithmError::AlgorithmFailed(_)) ==> false,
        storage.sound() ==> !(r matches Err(AlgorithmError::StorageError(_))),
{
    let mut nodes: Vec<Node> = Vec::new();
    nodes.push(Node { id: start, cost: 0, parent: 0, edge: None, visited: false });
    let ghost mut level: int = 0;
    let ghost mut rest: Set<u64> = storage.targets().remove(start@);
    let ghost limit: int = u64::MAX as int + 1;
    proof {
        storage.targets_finite();
        assert forall|v: u64| storage.targets().contains(v) implies rest.contains(v)
            || reached_within(nodes@, v, nodes.len() as int) by {
            if v == start@ {
                assert(nodes[0].id@ == v && nodes[0].cost <= 1);
            }
        }
        lemma_visited_count(nodes@);
    }
    loop
        invariant
            storage.inv(),
            limit == u64::MAX as int + 1,
            search_ok(storage, start@, nodes@, level, rest),
            forall|i: int|
                0 <= i < nodes.len() && (#[trigger] nodes[i]).visited ==> closed_at(
                    storage,
                    nodes@,
                    i,
                ),
            forall|i: int| 0 <= i < nodes.len() && (#[trigger] nodes[i]).visited ==> nodes[i].id@ != end@,
            all_prefer(storage, start@, nodes@),
        decreases rest.len() + nodes.len() - visited_count(nodes@),
    {
        let m = match pick_next(&nodes) {
            Some(m) => m,
            None => {
                proof {
                    assert forall|es: Seq<EdgeView>| !connects(storage, start@, end@, es) by {
                        if connects(storage, start@, end@, es) {
                            lemma_exhausted(storage, start@, nodes@, es, es.len() as int);
                            let j = choose|j: int|
                                0 <= j < nodes.len() && (#[trigger] nodes[j]).id@ == walk_end(
                                    start@,
                                    es,
                                ) && nodes[j].cost <= es.len();
                            assert(nodes[j].visited);
                        }
                    }
                }
                return Err(AlgorithmError::PathNotFound(start, end));
            },
        };
        if nodes[m].id.0 == end.0 {
            proof {
                lemma_chain(storage, start@, nodes@, m as int);
                lemma_chain_first_met(storage, start@, nodes@, m as int);
                assert forall|other: Seq<EdgeView>| #[trigger]
                    connects(storage, start@, end@, other) implies chain(nodes@, m as int).len()
                    <= other.len() by {
                    lemma_picked_is_nearest(
                        storage,
                        start@,
                        nodes@,
                        m as int,
                        other,
                        other.len() as int,
                    );
                }
            }
            return Ok(reconstruct_path(storage, &nodes, m, Ghost(start@)));
        }
        let ghost before = nodes@;
        nodes[m].visited = true;
        proof {
            lemma_mark(storage, start@, before, nodes@, level, rest, m as int);
            lemma_mark_prefers(storage, start@, before, nodes@, m as int);
            lemma_visited_count(before);
            assert(before[m as int].cost <= m);
            level = before[m as int].cost as int;
            assert(least(nodes@, m as int)) by {
                assert forall|j: int| 0 <= j < nodes.len() && !(#[trigger] nodes[j]).visited implies nodes[m as int].cost
                    < nodes[j].cost || nodes[m as int].id@ <= nodes[j].id@ by {
                    assert(nodes[j] == before[j]);
                }
            }
        }
        let ghost marked = nodes@;
        let edges = match storage.get_outgoing_edges(nodes[m].id) {
            Ok(edges) => edges,
            Err(e) => {
                return Err(AlgorithmError::StorageError(e));
            },
        };
        let smaller = expand_node(
            storage,
            &mut nodes,
            m,
            edges,
            Ghost(start@),
            Ghost(level),
            Ghost(rest),
            Ghost(limit),
        );
        proof {
            rest = smaller@;
            lemma_visited_count_extend(marked, nodes@);
            lemma_visited_count(nodes@);
            assert forall|i: int| 0 <= i < nodes.len() && (#[trigger] nodes[i]).visited implies nodes[i].id@
                != end@ by {
                assert(i < marked.len());
                assert(nodes[i] == marked[i]);
                if i != m {
                    assert(marked[i] == before[i]);
                }
            }
            assert forall|i: int| 0 <= i < nodes.len() && (#[trigger] nodes[i]).visited implies closed_at(
                storage,
                nodes@,
                i,
            ) by {
                assert(i < marked.len());
                assert(nodes[i] == marked[i]);
            }
        }
    }
}

/// The shortest directed path from `start` to `end`, after checking that
/// both vertices are stored.
pub fn shortest_path<S: GraphStorage>(storage: &S, start: Graphid, end: Graphid) -> (r: Result<
    ShortestPathResult,
    AlgorithmError,
>)
    requires
        storage.inv(),
    ensures
        r matches Ok(res) ==> {
            &&& storage.vertex_spec(start@) is Some
            &&& storage.vertex_spec(end@) is Some
            &&& is_shortest(storage, start@, end@, res@.edges)
            &&& first_met(storage, start@, res@.edges)
            &&& res@.path == walk_vertices(start@, res@.edges)
            &&& res@.cost == res@.edges.len()
        },
        r matches Err(AlgorithmError::PathNotFound(a, b)) ==> {
            &&& a == start && b == end
            &&& storage.vertex_spec(start@) is Some
            &&& storage.vertex_spec(end@) is Some
            &&& forall|es: Seq<EdgeView>| !connects(storage, start@, end@, es)
        },
        r matches Err(AlgorithmError::InvalidParameters(_)) ==> storage.vertex_spec(start@) is None
            || storage.vertex_spec(end@) is None,
        r matches Err(AlgorithmError::AlgorithmFailed(_)) ==> false,
        storage.sound() ==> !(r matches Err(AlgorithmError::StorageError(_))),
        storage.sound() && (storage.vertex_spec(start@) is None || storage.vertex_spec(end@) is None)
            ==> r matches Err(AlgorithmError::InvalidParameters(_)),
{
    match storage.get_vertex(start) {
        Ok(Some(_)) => {},
        Ok(None) => {
            return Err(AlgorithmError::InvalidParameters("Start vertex not found".to_owned()));
        },
        Err(e) => {
            return Err(AlgorithmError::StorageError(e));
        },
    }
    match storage.get_vertex(end) {
        Ok(Some(_)) => {},
        Ok(None) => {
            return Err(AlgorithmError::InvalidParameters("End vertex not found".to_owned()));
        },
        Err(e) => {
            return Err(AlgorithmError::StorageError(e));
        },
    }
    dijkstra(storage, start, end)
}

/// A vertex with the shortest path that leads to it.
#[derive(Debug)]
pub struct ReachedVertex {
    pub vertex: Graphid,
    pub result: ShortestPathResult,
}

/// An entry holds a shortest path from `start` of at most `max_hops` edges
/// to a vertex other than `start`.
pub open spec fn entry_ok<S: GraphStorage>(g: &S, start: u64, f: ReachedVertex, max_hops: int) -> bool {
    &&& f.vertex@ != start
    &&& is_shortest(g, start, f.vertex@, f.result@.edges)
    &&& first_met(g, start, f.result@.edges)
    &&& f.result@.path == walk_vertices(start, f.result@.edges)
    &&& f.result@.cost == f.result@.edges.len()
    &&& f.result@.cost <= max_hops
}

/// The entries come nearest first and, at one distance, in the order of
/// the identifiers of their vertices.
pub open spec fn entries_ascend(found: Seq<ReachedVertex>) -> bool {
    forall|a: int, b: int|
        0 <= a < b < found.len() ==> (#[trigger] found[a]).result@.cost < (
        #[trigger] found[b]).result@.cost || (found[a].result@.cost == found[b].result@.cost
            && found[a].vertex@ < found[b].vertex@)
}

/// The entries ascend, none is farther than `level`, and each comes
/// before every node that waits.
spec fn order_ok(nodes: Seq<Node>, found: Seq<ReachedVertex>, level: int) -> bool {
    &&& entries_ascend(found)
    &&& forall|k: int| 0 <= k < found.len() ==> (#[trigger] found[k]).result@.cost <= level
    &&& forall|k: int, j: int|
        0 <= k < found.len() && 0 <= j < nodes.len() && !(#[trigger] nodes[j]).visited ==> (
        #[trigger] found[k]).result@.cost < nodes[j].cost || (found[k].result@.cost
            == nodes[j].cost && found[k].vertex@ < nodes[j].id@)
}

/// Marking the picked node, with or without an entry for it, keeps the
/// order of the entries.
proof fn lemma_order_mark<S: GraphStorage>(
    g: &S,
    start: u64,
    before: Seq<Node>,
    after: Seq<Node>,
    had: Seq<ReachedVertex>,
    got: Seq<ReachedVertex>,
    m: int,
    level: int,
)
    requires
        tree_ok(g, start, before),
        levels_ok(before, level),
        order_ok(before, had, level),
        marked_from(before, after, m),
        forall|j: int|
            0 <= j < before.len() && !(#[trigger] before[j]).visited ==> before[m].cost
                < before[j].cost || (before[m].cost == before[j].cost && before[m].id@
                <= before[j].id@),
        got == had || (got.len() == had.len() + 1 && got.subrange(0, had.len() as int) == had
            && got.last().vertex@ == before[m].id@ && got.last().result@.cost == before[m].cost),
    ensures
        order_ok(after, got, before[m].cost as int),
        least(after, m),
{
    assert forall|j: int| 0 <= j < after.len() && !(#[trigger] after[j]).visited implies after[m].cost
        < after[j].cost || after[m].id@ <= after[j].id@ by {
        assert(after[j] == before[j]);
    }
    assert forall|k: int| 0 <= k < got.len() implies (#[trigger] got[k]).result@.cost
        <= before[m].cost by {
        if k < had.len() {
            assert(got[k] == had[k]) by {
                if got != had {
                    assert(got.subrange(0, had.len() as int)[k] == got[k]);
                }
            }
        }
    }
    assert forall|a: int, b: int| 0 <= a < b < got.len() implies (#[trigger] got[a]).result@.cost < (
    #[trigger] got[b]).result@.cost || (got[a].result@.cost == got[b].result@.cost
        && got[a].vertex@ < got[b].vertex@) by {
        if got != had {
            assert(got.subrange(0, had.len() as int)[a] == got[a]);
            if b < had.len() {
                assert(got.subrange(0, had.len() as int)[b] == got[b]);
            } else {
                assert(!before[m].visited);
            }
        }
    }
    assert forall|k: int, j: int|
        0 <= k < got.len() && 0 <= j < after.len() && !(#[trigger] after[j]).visited implies (
    #[trigger] got[k]).result@.cost < after[j].cost || (got[k].result@.cost == after[j].cost
        && got[k].vertex@ < after[j].id@) by {
        assert(after[j] == before[j]);
        if k < had.len() {
            if got != had {
                assert(got.subrange(0, had.len() as int)[k] == got[k]);
            }
        } else {
            if j < m {
                assert(before[j].id@ != before[m].id@);
            } else {
                assert(before[m].id@ != before[j].id@);
            }
        }
    }
}

/// Nodes added one edge beyond the level keep the order of the entries.
proof fn lemma_order_extend(
    marked: Seq<Node>,
    now: Seq<Node>,
    found: Seq<ReachedVertex>,
    level: int,
)
    requires
        order_ok(marked, found, level),
        marked.len() <= now.len(),
        forall|i: int| 0 <= i < marked.len() ==> now[i] == marked[i],
        forall|i: int| marked.len() <= i < now.len() ==> (#[trigger] now[i]).cost == level + 1,
    ensures
        order_ok(now, found, level),
{
    assert forall|k: int, j: int|
        0 <= k < found.len() && 0 <= j < now.len() && !(#[trigger] now[j]).visited implies (
    #[trigger] found[k]).result@.cost < now[j].cost || (found[k].result@.cost == now[j].cost
        && found[k].vertex@ < now[j].id@) by {
        if j < marked.len() {
            assert(now[j] == marked[j]);
        }
    }
}

/// Some entry is for the vertex `v`.
pub open spec fn reported(found: Seq<ReachedVertex>, v: u64) -> bool {
    exists|k: int| 0 <= k < found.len() && (#[trigger] found[k]).vertex@ == v
}

/// Some expanded node stands for `v`.
spec fn expanded(nodes: Seq<Node>, v: u64) -> bool {
    exists|i: int| 0 <= i < nodes.len() && (#[trigger] nodes[i]).visited && nodes[i].id@ == v
}

/// The entries are exactly for the expanded vertices other than the start,
/// one each, and each holds a shortest path.
spec fn found_ok<S: GraphStorage>(
    g: &S,
    start: u64,
    nodes: Seq<Node>,
    found: Seq<ReachedVertex>,
    limit: int,
) -> bool {
    &&& forall|i: int|
        0 <= i < nodes.len() && (#[trigger] nodes[i]).visited && nodes[i].id@ != start ==> reported(
            found,
            nodes[i].id@,
        )
    &&& forall|k: int| 0 <= k < found.len() ==> expanded(nodes, (#[trigger] found[k]).vertex@)
    &&& forall|k: int| 0 <= k < found.len() ==> entry_ok(g, start, #[trigger] found[k], limit)
    &&& forall|a: int, b: int|
        0 <= a < b < found.len() ==> (#[trigger] found[a]).vertex@ != (#[trigger] found[b]).vertex@
    &&& forall|i: int| 0 <= i < nodes.len() ==> (#[trigger] nodes[i]).cost <= limit
}

/// Every expanded node nearer than `limit`, but for node `skip`, is closed.
spec fn closed_below<S: GraphStorage>(g: &S, nodes: Seq<Node>, limit: int, skip: int) -> bool {
    forall|i: int|
        0 <= i < nodes.len() && (#[trigger] nodes[i]).visited && nodes[i].cost < limit && i != skip
            ==> closed_at(g, nodes, i)
}

/// Reports the picked node unless it is the start, and marks it expanded.
fn report_and_mark<S: GraphStorage>(
    storage: &S,
    nodes: &mut Vec<Node>,
    found: &mut Vec<ReachedVertex>,
    m: usize,
    start: Graphid,
    Ghost(level): Ghost<int>,
    Ghost(rest): Ghost<Set<u64>>,
    Ghost(limit): Ghost<int>,
)
    requires
        storage.inv(),
        search_ok(storage, start@, old(nodes)@, level, rest),
        found_ok(storage, start@, old(nodes)@, old(found)@, limit),
        closed_below(storage, old(nodes)@, limit, -1),
        m < old(nodes).len(),
        !old(nodes)[m as int].visited,
        forall|j: int|
            0 <= j < old(nodes).len() && !(#[trigger] old(nodes)[j]).visited ==> old(
                nodes,
            )[m as int].cost <= old(nodes)[j].cost,
        forall|j: int|
            0 <= j < old(nodes).len() && !(#[trigger] old(nodes)[j]).visited ==> old(
                nodes,
            )[m as int].cost < old(nodes)[j].cost || (old(nodes)[m as int].cost == old(
                nodes,
            )[j].cost && old(nodes)[m as int].id@ <= old(nodes)[j].id@),
        all_prefer(storage, start@, old(nodes)@),
        order_ok(old(nodes)@, old(found)@, level),
    ensures
        all_prefer(storage, start@, final(nodes)@),
        order_ok(final(nodes)@, final(found)@, old(nodes)[m as int].cost as int),
        least(final(nodes)@, m as int),
        final(nodes).len() == old(nodes).len(),
        final(nodes)[m as int].visited,
        final(nodes)[m as int].id == old(nodes)[m as int].id,
        final(nodes)[m as int].cost == old(nodes)[m as int].cost,
        final(nodes)[m as int].cost < u64::MAX,
        search_ok(storage, start@, final(nodes)@, old(nodes)[m as int].cost as int, rest),
        found_ok(storage, start@, final(nodes)@, final(found)@, limit),
        closed_below(storage, final(nodes)@, limit, m as int),
        visited_count(final(nodes)@) == visited_count(old(nodes)@) + 1,
{
    let ghost before = nodes@;
    let ghost had = found@;
    if nodes[m].id.0 != start.0 {
        proof {
            lemma_chain(storage, start@, before, m as int);
            assert forall|other: Seq<EdgeView>| #[trigger]
                connects(storage, start@, before[m as int].id@, other) implies chain(
                before,
                m as int,
            ).len() <= other.len() by {
                if other.len() <= limit {
                    lemma_picked_is_nearest(storage, start@, before, m as int, other, limit);
                }
            }
        }
        proof {
            lemma_chain_first_met(storage, start@, before, m as int);
        }
        let result = reconstruct_path(storage, nodes, m, Ghost(start@));
        let entry = ReachedVertex { vertex: nodes[m].id, result };
        assert(entry_ok(storage, start@, entry, limit));
        found.push(entry);
        proof {
            let got = found@;
            assert(got =~= had.push(entry));
            assert forall|k: int| 0 <= k < had.len() implies (#[trigger] had[k]).vertex@
                != before[m as int].id@ by {
                assert(expanded(before, had[k].vertex@));
                let i = choose|i: int|
                    0 <= i < before.len() && (#[trigger] before[i]).visited && before[i].id@
                        == had[k].vertex@;
                if i < m {
                    assert(before[i].id@ != before[m as int].id@);
                } else if m < i {
                    assert(before[m as int].id@ != before[i].id@);
                }
            }
        }
    }
    nodes[m].visited = true;
    proof {
        let after = nodes@;
        let got = found@;
        assert(marked_from(before, after, m as int));
        lemma_mark(storage, start@, before, after, level, rest, m as int);
        lemma_mark_prefers(storage, start@, before, after, m as int);
        assert(got == had || (got.len() == had.len() + 1 && got.subrange(0, had.len() as int)
            == had && got.last().vertex@ == before[m as int].id@ && got.last().result@.cost
            == before[m as int].cost)) by {
            if got != had {
                assert(got.subrange(0, had.len() as int) =~= had);
            }
        }
        lemma_order_mark(storage, start@, before, after, had, got, m as int, level);
        assert(before[m as int].cost <= m);
        assert forall|i: int|
            0 <= i < after.len() && (#[trigger] after[i]).visited && after[i].id@ != start@ implies reported(
            got,
            after[i].id@,
        ) by {
            if i == m {
                assert(got[got.len() - 1].vertex@ == after[i].id@);
            } else {
                assert(after[i] == before[i]);
                assert(reported(had, before[i].id@));
                let k = choose|k: int| 0 <= k < had.len() && (#[trigger] had[k]).vertex@ == before[i].id@;
                assert(got[k] == had[k]);
            }
        }
        assert forall|k: int| 0 <= k < got.len() implies expanded(after, (#[trigger] got[k]).vertex@) by {
            if k < had.len() {
                assert(got[k] == had[k]);
                assert(expanded(before, had[k].vertex@));
                let i = choose|i: int|
                    0 <= i < before.len() && (#[trigger] before[i]).visited && before[i].id@
                        == had[k].vertex@;
                assert(after[i].visited && after[i].id@ == got[k].vertex@);
            } else {
                assert(after[m as int].visited && after[m as int].id@ == got[k].vertex@);
            }
        }
        assert forall|k: int| 0 <= k < got.len() implies entry_ok(
            storage,
            start@,
            #[trigger] got[k],
            limit,
        ) by {
            if k < had.len() {
                assert(got[k] == had[k]);
            }
        }
        assert forall|a: int, b: int| 0 <= a < b < got.len() implies (#[trigger] got[a]).vertex@ != (
        #[trigger] got[b]).vertex@ by {
            if b < had.len() {
                assert(had[a].vertex@ != had[b].vertex@);
            } else {
                assert(got[a] == had[a]);
            }
        }
        assert forall|i: int| 0 <= i < after.len() implies (#[trigger] after[i]).cost <= limit by {
            assert(before[i].cost <= limit);
        }
        assert forall|i: int|
            0 <= i < after.len() && (#[trigger] after[i]).visited && after[i].cost < limit && i
                != m implies closed_at(storage, after, i) by {
            assert(after[i] == before[i]);
            assert(closed_at(storage, before, i));
        }
    }
}

/// What the expansion of node `m` keeps true of the entries.
proof fn lemma_found_extend<S: GraphStorage>(
    g: &S,
    start: u64,
    marked: Seq<Node>,
    now: Seq<Node>,
    found: Seq<ReachedVertex>,
    level: int,
    rest: Set<u64>,
    limit: int,
)
    requires
        found_ok(g, start, marked, found, limit),
        search_ok(g, start, now, level, rest),
        level < limit,
        marked.len() <= now.len(),
        forall|i: int| 0 <= i < marked.len() ==> now[i] == marked[i],
        forall|i: int| marked.len() <= i < now.len() ==> !(#[trigger] now[i]).visited,
    ensures
        found_ok(g, start, now, found, limit),
{
    assert forall|i: int|
        0 <= i < now.len() && (#[trigger] now[i]).visited && now[i].id@ != start implies reported(
        found,
        now[i].id@,
    ) by {
        assert(i < marked.len());
        assert(now[i] == marked[i]);
    }
    assert forall|k: int| 0 <= k < found.len() implies expanded(now, (#[trigger] found[k]).vertex@) by {
        assert(expanded(marked, found[k].vertex@));
        let i = choose|i: int|
            0 <= i < marked.len() && (#[trigger] marked[i]).visited && marked[i].id@
                == found[k].vertex@;
        assert(now[i] == marked[i]);
        assert(now[i].visited && now[i].id@ == found[k].vertex@);
    }
    assert forall|i: int| 0 <= i < now.len() implies (#[trigger] now[i]).cost <= limit by {
        assert(now[i].cost <= level + 1);
    }
}

/// The shortest paths from `start` to every other vertex that a directed
/// path of at most `max_hops` edges leads to: one entry for each such
/// vertex, nearest first and, at one distance, in the order of the
/// identifiers.
pub fn shortest_paths_from<S: GraphStorage>(storage: &S, start: Graphid, max_hops: usize) -> (r:
    Result<Vec<ReachedVertex>, AlgorithmError>)
    requires
        storage.inv(),
    ensures
        r matches Ok(found) ==> {
            &&& forall|k: int|
                0 <= k < found.len() ==> entry_ok(
                    storage,
                    start@,
                    #[trigger] found[k],
                    max_hops as int,
                )
            &&& forall|a: int, b: int|
                0 <= a < b < found.len() ==> (#[trigger] found[a]).vertex@ != (
                #[trigger] found[b]).vertex@
            &&& entries_ascend(found@)
            &&& forall|v: u64, es: Seq<EdgeView>|
                v != start@ && #[trigger] connects(storage, start@, v, es) && es.len() <= max_hops
                    ==> reported(found@, v)
        },
        r matches Err(AlgorithmError::PathNotFound(_, _)) ==> false,
        r matches Err(AlgorithmError::InvalidParameters(_)) ==> false,
        r matches Err(AlgorithmError::AlgorithmFailed(_)) ==> false,
        storage.sound() ==> r is Ok,
{
    let mut nodes: Vec<Node> = Vec::new();
    nodes.push(Node { id: start, cost: 0, parent: 0, edge: None, visited: false });
    let mut found: Vec<ReachedVertex> = Vec::new();
    let ghost mut level: int = 0;
    let ghost mut rest: Set<u64> = storage.targets().remove(start@);
    let ghost limit: int = max_hops as int;
    proof {
        storage.targets_finite();
        assert forall|v: u64| storage.targets().contains(v) implies rest.contains(v)
            || reached_within(nodes@, v, nodes.len() as int) by {
            if v == start@ {
                assert(nodes[0].id@ == v && nodes[0].cost <= 1);
            }
        }
        lemma_visited_count(nodes@);
    }
    loop
        invariant
            storage.inv(),
            limit == max_hops as int,
            search_ok(storage, start@, nodes@, level, rest),
            found_ok(storage, start@, nodes@, found@, limit),
            closed_below(storage, nodes@, limit, -1),
            all_prefer(storage, start@, nodes@),
            order_ok(nodes@, found@, level),
        decreases rest.len() + nodes.len() - visited_count(nodes@),
    {
        let m = match pick_next(&nodes) {
            Some(m) => m,
            None => {
                proof {
                    assert forall|v: u64, es: Seq<EdgeView>|
                        v != start@ && #[trigger] connects(storage, start@, v, es) && es.len()
                            <= max_hops implies reported(found@, v) by {
                        lemma_exhausted(storage, start@, nodes@, es, limit);
                        let j = choose|j: int|
                            0 <= j < nodes.len() && (#[trigger] nodes[j]).id@ == walk_end(start@, es)
                                && nodes[j].cost <= es.len();
                        assert(nodes[j].visited && nodes[j].id@ != start@);
                    }
                }
                return Ok(found);
            },
        };
        proof {
            lemma_visited_count(nodes@);
        }
        report_and_mark(
            storage,
            &mut nodes,
            &mut found,
            m,
            start,
            Ghost(level),
            Ghost(rest),
            Ghost(limit),
        );
        proof {
            level = nodes[m as int].cost as int;
            lemma_visited_count(nodes@);
        }
        let ghost marked = nodes@;
        if nodes[m].cost >= max_hops as u64 {
            assert(closed_below(storage, nodes@, limit, -1));
            continue ;
        }
        let edges = match storage.get_outgoing_edges(nodes[m].id) {
            Ok(edges) => edges,
            Err(e) => {
                return Err(AlgorithmError::StorageError(e));
            },
        };
        let smaller = expand_node(
            storage,
            &mut nodes,
            m,
            edges,
            Ghost(start@),
            Ghost(level),
            Ghost(rest),
            Ghost(limit),
        );
        proof {
            rest = smaller@;
            lemma_visited_count_extend(marked, nodes@);
            lemma_visited_count(nodes@);
            lemma_found_extend(storage, start@, marked, nodes@, found@, level, rest, limit);
            lemma_order_extend(marked, nodes@, found@, level);
            assert forall|i: int|
                0 <= i < nodes.len() && (#[trigger] nodes[i]).visited && nodes[i].cost < limit implies closed_at(
                storage,
                nodes@,
                i,
            ) by {
                assert(i < marked.len());
                assert(nodes[i] == marked[i]);
            }
        }
    }
}

} // verus!
