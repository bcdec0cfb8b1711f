use rust_graph_db::algorithms::error::AlgorithmError;
use rust_graph_db::algorithms::shortest_path::{dijkstra, shortest_path, shortest_paths_from};
use rust_graph_db::algorithms::vle::{
    k_hop_neighbors, neighbors_within_k_hops, variable_length_expand,
    variable_length_paths_between, VariableLengthPath, VleOptions,
};
use rust_graph_db::json::Json;
use rust_graph_db::storage::engine::GraphStore;
use rust_graph_db::storage::kv::MemoryKv;
use rust_graph_db::types::edge::Edge;
use rust_graph_db::types::graphid::Graphid;
use rust_graph_db::types::vertex::Vertex;

fn named(name: &str) -> Json {
    let mut o = Json::empty_object();
    o.set_member("name".to_string(), Json::Str(name.to_string()));
    o
}

fn setup_test_graph() -> GraphStore<MemoryKv> {
    let mut storage = GraphStore::new(MemoryKv::new(), "test_graph");

    let mut tx = storage.begin_transaction().unwrap();

    let a = tx.create_vertex(&storage, "Node", named("A")).unwrap();
    let b = tx.create_vertex(&storage, "Node", named("B")).unwrap();
    let c = tx.create_vertex(&storage, "Node", named("C")).unwrap();
    let d = tx.create_vertex(&storage, "Node", named("D")).unwrap();
    let e = tx.create_vertex(&storage, "Node", named("E")).unwrap();

    tx.create_edge(&storage, "LINK", a.id, b.id, Json::empty_object())
        .unwrap();
    tx.create_edge(&storage, "LINK", a.id, c.id, Json::empty_object())
        .unwrap();
    tx.create_edge(&storage, "LINK", b.id, d.id, Json::empty_object())
        .unwrap();
    tx.create_edge(&storage, "LINK", b.id, e.id, Json::empty_object())
        .unwrap();
    tx.create_edge(&storage, "LINK", c.id, e.id, Json::empty_object())
        .unwrap();

    tx.commit(&mut storage).unwrap();

    storage
}

fn find(vertices: &Vec<Vertex>, name: &str) -> Vertex {
    vertices
        .iter()
        .find(|v| v.get_property("name") == Some(&Json::Str(name.to_string())))
        .unwrap()
        .clone()
}

fn ids(storage: &GraphStore<MemoryKv>) -> (Graphid, Graphid, Graphid, Graphid, Graphid) {
    let vertices = storage.scan_vertices("Node").unwrap();
    (
        find(&vertices, "A").id,
        find(&vertices, "B").id,
        find(&vertices, "C").id,
        find(&vertices, "D").id,
        find(&vertices, "E").id,
    )
}

fn route(p: &VariableLengthPath) -> Vec<Graphid> {
    p.vertices.clone()
}

fn joined(vertices: &Vec<Graphid>, edges: &Vec<Edge>) -> bool {
    vertices.len() == edges.len() + 1
        && (0..edges.len()).all(|i| edges[i].start == vertices[i] && edges[i].end == vertices[i + 1])
}

#[test]
fn test_shortest_path_direct() {
    let storage = setup_test_graph();

    let vertices = storage.scan_vertices("Node").unwrap();
    let a = find(&vertices, "A");
    let b = find(&vertices, "B");

    let result = shortest_path(&storage, a.id, b.id).unwrap();

    assert_eq!(result.path.len(), 2);
    assert_eq!(result.cost, 1);
    assert_eq!(result.edges.len(), 1);
    assert_eq!(result.path[0], a.id);
    assert_eq!(result.path[1], b.id);
}

#[test]
fn test_shortest_path_multiple_hops() {
    let storage = setup_test_graph();

    let vertices = storage.scan_vertices("Node").unwrap();
    let a = find(&vertices, "A");
    let d = find(&vertices, "D");

    let result = shortest_path(&storage, a.id, d.id).unwrap();

    assert_eq!(result.path.len(), 3);
    assert_eq!(result.cost, 2);
    assert_eq!(result.edges.len(), 2);
    assert_eq!(result.path[0], a.id);
    assert_eq!(result.path[2], d.id);
}

#[test]
fn test_shortest_path_not_found() {
    let storage = setup_test_graph();

    let vertices = storage.scan_vertices("Node").unwrap();
    let d = find(&vertices, "D");
    let a = find(&vertices, "A");

    let result = shortest_path(&storage, d.id, a.id);

    assert!(result.is_err());
    assert!(matches!(
        result.unwrap_err(),
        AlgorithmError::PathNotFound(_, _)
    ));
}

#[test]
fn test_shortest_paths_from() {
    let storage = setup_test_graph();

    let vertices = storage.scan_vertices("Node").unwrap();
    let a = find(&vertices, "A");

    let results = shortest_paths_from(&storage, a.id, 2).unwrap();

    assert_eq!(results.len(), 4);

    assert!(results.iter().any(|r| r.result.cost == 1));
    assert!(results.iter().any(|r| r.result.cost == 2));
}

#[test]
fn test_vle_basic() {
    let storage = setup_test_graph();

    let vertices = storage.scan_vertices("Node").unwrap();
    let a = find(&vertices, "A");

    let options = VleOptions {
        min_length: 1,
        max_length: 2,
        allow_cycles: false,
        max_paths: 0,
    };

    let paths = variable_length_expand(&storage, a.id, options).unwrap();

    assert!(paths.len() >= 5);

    assert!(paths.iter().all(|p| p.vertices[0] == a.id));

    assert!(paths.iter().any(|p| p.length == 1));
    assert!(paths.iter().any(|p| p.length == 2));
}

#[test]
fn test_vle_paths_between() {
    let storage = setup_test_graph();

    let vertices = storage.scan_vertices("Node").unwrap();
    let a = find(&vertices, "A");
    let e = find(&vertices, "E");

    let options = VleOptions {
        min_length: 2,
        max_length: 2,
        allow_cycles: false,
        max_paths: 0,
    };

    let paths = variable_length_paths_between(&storage, a.id, e.id, options).unwrap();

    assert_eq!(paths.len(), 2);

    assert!(paths.iter().all(|p| p.length == 2));

    assert!(paths.iter().all(|p| p.vertices[0] == a.id));
    assert!(paths.iter().all(|p| p.last_vertex() == e.id));
}

#[test]
fn test_k_hop_neighbors() {
    let storage = setup_test_graph();

    let vertices = storage.scan_vertices("Node").unwrap();
    let a = find(&vertices, "A");
    let b = find(&vertices, "B");
    let c = find(&vertices, "C");

    let neighbors = k_hop_neighbors(&storage, a.id, 1).unwrap();

    assert_eq!(neighbors.len(), 2);
    assert!(neighbors.contains(&b.id));
    assert!(neighbors.contains(&c.id));
}

#[test]
fn test_neighbors_within_k_hops() {
    let storage = setup_test_graph();

    let vertices = storage.scan_vertices("Node").unwrap();
    let a = find(&vertices, "A");

    let neighbors = neighbors_within_k_hops(&storage, a.id, 2).unwrap();

    assert_eq!(neighbors.len(), 4);
}

#[test]
fn test_vle_max_paths_limit() {
    let storage = setup_test_graph();

    let vertices = storage.scan_vertices("Node").unwrap();
    let a = find(&vertices, "A");

    let options = VleOptions {
        min_length: 1,
        max_length: 2,
        allow_cycles: false,
        max_paths: 3,
    };

    let paths = variable_length_expand(&storage, a.id, options).unwrap();

    assert!(paths.len() <= 3);
}

#[test]
fn shortest_path_from_a_to_d_goes_through_b() {
    let storage = setup_test_graph();
    let (a, b, _c, d, _e) = ids(&storage);
    let result = shortest_path(&storage, a, d).unwrap();
    assert_eq!(result.path, vec![a, b, d]);
    assert_eq!(result.cost, 2);
    assert!(joined(&result.path, &result.edges));

    match shortest_path(&storage, d, a) {
        Err(AlgorithmError::PathNotFound(s, t)) => {
            assert_eq!(s, d);
            assert_eq!(t, a);
        }
        other => panic!("expected PathNotFound, got {:?}", other),
    }
}

#[test]
fn shortest_path_to_itself_has_no_edge() {
    let storage = setup_test_graph();
    let (a, ..) = ids(&storage);
    let result = shortest_path(&storage, a, a).unwrap();
    assert_eq!(result.path, vec![a]);
    assert_eq!(result.cost, 0);
    assert!(result.edges.is_empty());
}

#[test]
fn shortest_path_needs_both_ends_in_the_store() {
    let storage = setup_test_graph();
    let (a, ..) = ids(&storage);
    let ghost = Graphid::new(9, 9).unwrap();
    assert!(shortest_path(&storage, a, ghost).is_err());
    assert!(shortest_path(&storage, ghost, a).is_err());
    assert!(shortest_path(&storage, ghost, ghost).is_err());
}

#[test]
fn shortest_path_takes_the_short_way_round_a_cycle() {
    let mut storage = GraphStore::new(MemoryKv::new(), "g");
    let mut v = Vec::new();
    for i in 0..6 {
        v.push(
            storage
                .create_vertex("Node", named(&i.to_string()))
                .unwrap()
                .id,
        );
    }
    for i in 0..6 {
        storage
            .create_edge("NEXT", v[i], v[(i + 1) % 6], Json::empty_object())
            .unwrap();
    }
    storage
        .create_edge("SKIP", v[0], v[3], Json::empty_object())
        .unwrap();
    storage
        .create_edge("SELF", v[0], v[0], Json::empty_object())
        .unwrap();

    let r = shortest_path(&storage, v[0], v[4]).unwrap();
    assert_eq!(r.cost, 2);
    assert_eq!(r.path, vec![v[0], v[3], v[4]]);
    assert!(joined(&r.path, &r.edges));

    let r = dijkstra(&storage, v[1], v[0]).unwrap();
    assert_eq!(r.cost, 5);
    assert_eq!(r.path, vec![v[1], v[2], v[3], v[4], v[5], v[0]]);
}

#[test]
fn equal_candidates_are_taken_by_ascending_identifier() {
    let storage = setup_test_graph();
    let (a, b, c, _d, e) = ids(&storage);
    assert!(b.as_raw() < c.as_raw());
    let r = shortest_path(&storage, a, e).unwrap();
    assert_eq!(r.cost, 2);
    assert_eq!(r.path, vec![a, b, e]);
}

#[test]
fn shortest_paths_from_reports_each_reached_vertex_once() {
    let storage = setup_test_graph();
    let (a, b, c, d, e) = ids(&storage);

    let results = shortest_paths_from(&storage, a, 1).unwrap();
    let mut reached: Vec<Graphid> = results.iter().map(|r| r.vertex).collect();
    reached.sort();
    assert_eq!(reached, vec![b, c]);

    let results = shortest_paths_from(&storage, a, 5).unwrap();
    let mut reached: Vec<(Graphid, u64)> =
        results.iter().map(|r| (r.vertex, r.result.cost)).collect();
    reached.sort();
    assert_eq!(reached, vec![(b, 1), (c, 1), (d, 2), (e, 2)]);
    for r in &results {
        assert_eq!(r.result.path[0], a);
        assert_eq!(*r.result.path.last().unwrap(), r.vertex);
        assert!(joined(&r.result.path, &r.result.edges));
    }

    assert!(shortest_paths_from(&storage, a, 0).unwrap().is_empty());
    assert!(shortest_paths_from(&storage, d, 3).unwrap().is_empty());
}

#[test]
fn expansion_lists_paths_in_breadth_first_order() {
    let storage = setup_test_graph();
    let (a, b, c, d, e) = ids(&storage);
    let options = VleOptions {
        min_length: 1,
        max_length: 2,
        allow_cycles: false,
        max_paths: 0,
    };
    let paths = variable_length_expand(&storage, a, options).unwrap();
    let routes: Vec<Vec<Graphid>> = paths.iter().map(route).collect();
    assert_eq!(
        routes,
        vec![
            vec![a, b],
            vec![a, c],
            vec![a, b, d],
            vec![a, b, e],
            vec![a, c, e],
        ]
    );
    for p in &paths {
        assert_eq!(p.length, p.edges.len());
        assert!(joined(&p.vertices, &p.edges));
    }
}

#[test]
fn expansion_keeps_the_first_paths_up_to_the_cap() {
    let storage = setup_test_graph();
    let (a, b, c, d, _e) = ids(&storage);
    let options = VleOptions {
        min_length: 1,
        max_length: 2,
        allow_cycles: false,
        max_paths: 3,
    };
    let paths = variable_length_expand(&storage, a, options).unwrap();
    let routes: Vec<Vec<Graphid>> = paths.iter().map(route).collect();
    assert_eq!(routes, vec![vec![a, b], vec![a, c], vec![a, b, d]]);
}

#[test]
fn expansion_reports_only_lengths_in_range() {
    let storage = setup_test_graph();
    let (a, b, c, d, e) = ids(&storage);
    let options = VleOptions {
        min_length: 2,
        max_length: 3,
        allow_cycles: false,
        max_paths: 0,
    };
    let paths = variable_length_expand(&storage, a, options).unwrap();
    let routes: Vec<Vec<Graphid>> = paths.iter().map(route).collect();
    assert_eq!(routes, vec![vec![a, b, d], vec![a, b, e], vec![a, c, e]]);
}

#[test]
fn expansion_refuses_parameters_that_describe_no_search() {
    let storage = setup_test_graph();
    let (a, ..) = ids(&storage);
    let zero = VleOptions {
        min_length: 0,
        max_length: 0,
        allow_cycles: false,
        max_paths: 0,
    };
    assert!(matches!(
        variable_length_expand(&storage, a, zero),
        Err(AlgorithmError::InvalidParameters(_))
    ));
    let crossed = VleOptions {
        min_length: 3,
        max_length: 2,
        allow_cycles: false,
        max_paths: 0,
    };
    assert!(matches!(
        variable_length_expand(&storage, a, crossed),
        Err(AlgorithmError::InvalidParameters(_))
    ));
    assert!(matches!(
        variable_length_paths_between(&storage, a, a, crossed),
        Err(AlgorithmError::InvalidParameters(_))
    ));
}

#[test]
fn expansion_without_cycles_repeats_no_vertex() {
    let mut storage = GraphStore::new(MemoryKv::new(), "g");
    let x = storage.create_vertex("Node", named("x")).unwrap().id;
    let y = storage.create_vertex("Node", named("y")).unwrap().id;
    let z = storage.create_vertex("Node", named("z")).unwrap().id;
    storage
        .create_edge("L", x, y, Json::empty_object())
        .unwrap();
    storage
        .create_edge("L", y, z, Json::empty_object())
        .unwrap();
    storage
        .create_edge("L", z, x, Json::empty_object())
        .unwrap();
    storage
        .create_edge("L", y, y, Json::empty_object())
        .unwrap();

    let simple = VleOptions {
        min_length: 1,
        max_length: 6,
        allow_cycles: false,
        max_paths: 0,
    };
    let paths = variable_length_expand(&storage, x, simple).unwrap();
    let routes: Vec<Vec<Graphid>> = paths.iter().map(route).collect();
    assert_eq!(routes, vec![vec![x, y], vec![x, y, z]]);

    let looping = VleOptions {
        min_length: 3,
        max_length: 3,
        allow_cycles: true,
        max_paths: 0,
    };
    let paths = variable_length_expand(&storage, x, looping).unwrap();
    let mut routes: Vec<Vec<Graphid>> = paths.iter().map(route).collect();
    routes.sort();
    let mut expected = vec![vec![x, y, z, x], vec![x, y, y, z], vec![x, y, y, y]];
    expected.sort();
    assert_eq!(routes, expected);

    let capped = VleOptions {
        min_length: 1,
        max_length: 50,
        allow_cycles: true,
        max_paths: 7,
    };
    assert_eq!(
        variable_length_expand(&storage, x, capped).unwrap().len(),
        7
    );
}

#[test]
fn paths_between_fails_when_none_ends_there() {
    let storage = setup_test_graph();
    let (a, _b, _c, d, e) = ids(&storage);
    let options = VleOptions {
        min_length: 1,
        max_length: 3,
        allow_cycles: false,
        max_paths: 0,
    };
    match variable_length_paths_between(&storage, d, a, options) {
        Err(AlgorithmError::PathNotFound(s, t)) => {
            assert_eq!((s, t), (d, a));
        }
        other => panic!("expected PathNotFound, got {:?}", other),
    }
    let one = VleOptions {
        min_length: 1,
        max_length: 1,
        allow_cycles: false,
        max_paths: 0,
    };
    assert!(matches!(
        variable_length_paths_between(&storage, a, e, one),
        Err(AlgorithmError::PathNotFound(_, _))
    ));
}

#[test]
fn neighbours_are_distinct() {
    let storage = setup_test_graph();
    let (a, b, c, d, e) = ids(&storage);
    let mut two = k_hop_neighbors(&storage, a, 2).unwrap();
    two.sort();
    assert_eq!(two, vec![d, e]);
    let mut within = neighbors_within_k_hops(&storage, a, 2).unwrap();
    within.sort();
    assert_eq!(within, vec![b, c, d, e]);
    assert_eq!(k_hop_neighbors(&storage, a, 0).unwrap(), vec![a]);
    assert!(k_hop_neighbors(&storage, d, 1).unwrap().is_empty());
    assert!(neighbors_within_k_hops(&storage, d, 4).unwrap().is_empty());
}

#[test]
fn default_options_search_one_to_five_hops_without_cycles() {
    let o = VleOptions::default();
    assert_eq!(o.min_length, 1);
    assert_eq!(o.max_length, 5);
    assert!(!o.allow_cycles);
    assert_eq!(o.max_paths, 0);
}

#[test]
fn reached_vertices_come_nearest_first_then_by_identifier() {
    let storage = setup_test_graph();
    let (a, b, c, d, e) = ids(&storage);
    let results = shortest_paths_from(&storage, a, 5).unwrap();
    let order: Vec<Graphid> = results.iter().map(|r| r.vertex).collect();
    assert_eq!(order, vec![b, c, d, e]);
    let to_e = results.iter().find(|r| r.vertex == e).unwrap();
    assert_eq!(to_e.result.path, vec![a, b, e]);
}

#[test]
fn of_two_edges_to_one_vertex_the_one_read_first_is_taken() {
    let mut storage = GraphStore::new(MemoryKv::new(), "g");
    let x = storage.create_vertex("Node", named("x")).unwrap().id;
    let y = storage.create_vertex("Node", named("y")).unwrap().id;
    let first = storage
        .create_edge("L", x, y, Json::empty_object())
        .unwrap();
    let second = storage
        .create_edge("L", x, y, Json::empty_object())
        .unwrap();
    assert!(first.id < second.id);
    let r = dijkstra(&storage, x, y).unwrap();
    assert_eq!(r.edges.len(), 1);
    assert_eq!(r.edges[0].id, first.id);
}
