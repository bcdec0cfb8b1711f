use rust_graph_db::json::Json;
use rust_graph_db::storage::codec::{decode_edge, decode_vertex, encode_edge, encode_vertex};
use rust_graph_db::types::edge::Edge;
use rust_graph_db::types::graphid::Graphid;
use rust_graph_db::types::path::{GraphPath, PathError};
use rust_graph_db::types::vertex::Vertex;

fn text(s: &str) -> Json {
    Json::Str(s.to_string())
}

fn object(members: Vec<(&str, Json)>) -> Json {
    let mut o = Json::empty_object();
    for (k, v) in members {
        o.set_member(k.to_string(), v);
    }
    o
}

fn create_test_vertex(labid: u16, locid: u64, name: &str) -> Vertex {
    let id = Graphid::new(labid, locid).unwrap();
    Vertex::new(id, "Person", object(vec![("name", text(name))]))
}

fn create_test_edge(labid: u16, locid: u64, start: Graphid, end: Graphid) -> Edge {
    let id = Graphid::new(labid, locid).unwrap();
    Edge::new_empty(id, start, end, "KNOWS")
}

#[test]
fn test_vertex_creation() {
    let id = Graphid::new(1, 100).unwrap();
    let props = object(vec![("name", text("Alice")), ("age", Json::Int(30))]);

    let vertex = Vertex::new(id, "Person", props);

    assert_eq!(vertex.id, id);
    assert_eq!(vertex.label, "Person");
    assert_eq!(vertex.get_property("name"), Some(&text("Alice")));
    assert_eq!(vertex.get_property("age"), Some(&Json::Int(30)));
}

#[test]
fn test_vertex_empty() {
    let id = Graphid::new(1, 100).unwrap();
    let vertex = Vertex::new_empty(id, "Person");

    assert_eq!(vertex.id, id);
    assert_eq!(vertex.label, "Person");
    assert!(vertex.property_keys().is_empty());
}

#[test]
fn test_vertex_set_property() {
    let id = Graphid::new(1, 100).unwrap();
    let mut vertex = Vertex::new_empty(id, "Person");

    vertex.set_property("name", text("Bob"));
    vertex.set_property("age", Json::Int(25));

    assert_eq!(vertex.get_property("name"), Some(&text("Bob")));
    assert_eq!(vertex.get_property("age"), Some(&Json::Int(25)));
}

#[test]
fn test_vertex_remove_property() {
    let id = Graphid::new(1, 100).unwrap();
    let props = object(vec![("name", text("Alice")), ("age", Json::Int(30))]);
    let mut vertex = Vertex::new(id, "Person", props);

    let removed = vertex.remove_property("age");
    assert_eq!(removed, Some(Json::Int(30)));
    assert!(!vertex.has_property("age"));
    assert!(vertex.has_property("name"));
}

#[test]
fn test_vertex_property_keys() {
    let id = Graphid::new(1, 100).unwrap();
    let props = object(vec![
        ("name", text("Alice")),
        ("age", Json::Int(30)),
        ("city", text("Beijing")),
    ]);
    let vertex = Vertex::new(id, "Person", props);

    let mut keys = vertex.property_keys();
    keys.sort();
    assert_eq!(keys, vec!["age", "city", "name"]);
}

#[test]
fn test_vertex_serialization() {
    let id = Graphid::new(1, 100).unwrap();
    let props = object(vec![("name", text("Alice")), ("age", Json::Int(30))]);
    let vertex = Vertex::new(id, "Person", props);

    let serialized = encode_vertex(&vertex).unwrap();
    let deserialized = decode_vertex(&serialized).unwrap();

    assert_eq!(vertex, deserialized);
}

#[test]
fn vertex_set_property_replaces_the_old_value() {
    let id = Graphid::new(1, 1).unwrap();
    let mut vertex = Vertex::new_empty(id, "Person");
    vertex.set_property("age", Json::Int(1));
    vertex.set_property("age", Json::Int(2));
    assert_eq!(vertex.get_property("age"), Some(&Json::Int(2)));
    assert_eq!(vertex.property_keys(), vec!["age"]);
    assert_eq!(vertex.remove_property("missing"), None);
    assert_eq!(vertex.properties_as_map().len(), 1);
}

#[test]
fn vertex_without_an_object_has_no_properties() {
    let id = Graphid::new(1, 1).unwrap();
    let vertex = Vertex::new(id, "Person", Json::Int(3));
    assert_eq!(vertex.get_property("age"), None);
    assert!(!vertex.has_property("age"));
    assert!(vertex.property_keys().is_empty());
    assert!(vertex.properties_as_map().is_empty());
}

#[test]
fn test_edge_creation() {
    let id = Graphid::new(2, 200).unwrap();
    let start = Graphid::new(1, 100).unwrap();
    let end = Graphid::new(1, 101).unwrap();
    let props = object(vec![
        ("since", Json::Int(2020)),
        ("weight", Json::Float("1.5".to_string())),
    ]);

    let edge = Edge::new(id, start, end, "KNOWS", props);

    assert_eq!(edge.id, id);
    assert_eq!(edge.start, start);
    assert_eq!(edge.end, end);
    assert_eq!(edge.label, "KNOWS");
    assert_eq!(edge.get_property("since"), Some(&Json::Int(2020)));
    assert_eq!(
        edge.get_property("weight"),
        Some(&Json::Float("1.5".to_string()))
    );
}

#[test]
fn test_edge_empty() {
    let id = Graphid::new(2, 200).unwrap();
    let start = Graphid::new(1, 100).unwrap();
    let end = Graphid::new(1, 101).unwrap();

    let edge = Edge::new_empty(id, start, end, "KNOWS");

    assert_eq!(edge.id, id);
    assert_eq!(edge.start, start);
    assert_eq!(edge.end, end);
    assert_eq!(edge.label, "KNOWS");
    assert!(edge.property_keys().is_empty());
}

#[test]
fn test_edge_set_property() {
    let id = Graphid::new(2, 200).unwrap();
    let start = Graphid::new(1, 100).unwrap();
    let end = Graphid::new(1, 101).unwrap();
    let mut edge = Edge::new_empty(id, start, end, "KNOWS");

    edge.set_property("since", Json::Int(2020));
    edge.set_property("weight", Json::Float("1.5".to_string()));

    assert_eq!(edge.get_property("since"), Some(&Json::Int(2020)));
    assert_eq!(
        edge.get_property("weight"),
        Some(&Json::Float("1.5".to_string()))
    );
}

#[test]
fn test_edge_remove_property() {
    let id = Graphid::new(2, 200).unwrap();
    let start = Graphid::new(1, 100).unwrap();
    let end = Graphid::new(1, 101).unwrap();
    let props = object(vec![
        ("since", Json::Int(2020)),
        ("weight", Json::Float("1.5".to_string())),
    ]);
    let mut edge = Edge::new(id, start, end, "KNOWS", props);

    let removed = edge.remove_property("weight");
    assert_eq!(removed, Some(Json::Float("1.5".to_string())));
    assert!(!edge.has_property("weight"));
    assert!(edge.has_property("since"));
}

#[test]
fn test_edge_is_self_loop() {
    let id = Graphid::new(2, 200).unwrap();
    let node = Graphid::new(1, 100).unwrap();

    let self_loop = Edge::new_empty(id, node, node, "LIKES");
    assert!(self_loop.is_self_loop());

    let other_node = Graphid::new(1, 101).unwrap();
    let regular_edge = Edge::new_empty(id, node, other_node, "KNOWS");
    assert!(!regular_edge.is_self_loop());
}

#[test]
fn test_edge_reverse() {
    let id = Graphid::new(2, 200).unwrap();
    let start = Graphid::new(1, 100).unwrap();
    let end = Graphid::new(1, 101).unwrap();
    let props = object(vec![("since", Json::Int(2020))]);

    let edge = Edge::new(id, start, end, "KNOWS", props);
    let reversed = edge.reverse();

    assert_eq!(reversed.id, edge.id);
    assert_eq!(reversed.start, edge.end);
    assert_eq!(reversed.end, edge.start);
    assert_eq!(reversed.label, edge.label);
    assert_eq!(reversed.properties, edge.properties);
}

#[test]
fn test_edge_serialization() {
    let id = Graphid::new(2, 200).unwrap();
    let start = Graphid::new(1, 100).unwrap();
    let end = Graphid::new(1, 101).unwrap();
    let props = object(vec![
        ("since", Json::Int(2020)),
        ("weight", Json::Float("1.5".to_string())),
    ]);
    let edge = Edge::new(id, start, end, "KNOWS", props);

    let serialized = encode_edge(&edge).unwrap();
    let deserialized = decode_edge(&serialized).unwrap();

    assert_eq!(edge, deserialized);
}

#[test]
fn edge_reversed_twice_is_the_edge() {
    let id = Graphid::new(2, 7).unwrap();
    let a = Graphid::new(1, 1).unwrap();
    let b = Graphid::new(1, 2).unwrap();
    let edge = Edge::new(id, a, b, "KNOWS", object(vec![("w", Json::Int(1))]));
    assert_eq!(edge.reverse().reverse(), edge);
    assert!(edge.reverse() != edge);
}

#[test]
fn test_path_single_vertex() {
    let v1 = create_test_vertex(1, 100, "Alice");
    let path = GraphPath::new(v1.clone());

    assert_eq!(path.len(), 0);
    assert!(path.is_empty());
    assert_eq!(path.start(), Some(&v1));
    assert_eq!(path.end(), Some(&v1));
    assert!(path.validate().is_ok());
}

#[test]
fn test_path_two_vertices() {
    let v1 = create_test_vertex(1, 100, "Alice");
    let v2 = create_test_vertex(1, 101, "Bob");
    let e1 = create_test_edge(2, 200, v1.id, v2.id);

    let path = GraphPath::from_parts(vec![v1.clone(), v2.clone()], vec![e1]).unwrap();

    assert_eq!(path.len(), 1);
    assert!(!path.is_empty());
    assert_eq!(path.start(), Some(&v1));
    assert_eq!(path.end(), Some(&v2));
}

#[test]
fn test_path_push() {
    let v1 = create_test_vertex(1, 100, "Alice");
    let v2 = create_test_vertex(1, 101, "Bob");
    let v3 = create_test_vertex(1, 102, "Carol");

    let e1 = create_test_edge(2, 200, v1.id, v2.id);
    let e2 = create_test_edge(2, 201, v2.id, v3.id);

    let mut path = GraphPath::new(v1);
    path.push(e1, v2).unwrap();
    path.push(e2, v3.clone()).unwrap();

    assert_eq!(path.len(), 2);
    assert_eq!(path.end(), Some(&v3));
}

#[test]
fn test_path_discontinuous() {
    let v1 = create_test_vertex(1, 100, "Alice");
    let v2 = create_test_vertex(1, 101, "Bob");
    let v3 = create_test_vertex(1, 102, "Carol");

    let e1 = create_test_edge(2, 200, v1.id, v3.id);

    let result = GraphPath::from_parts(vec![v1, v2], vec![e1]);
    assert!(result.is_err());
}

#[test]
fn test_path_count_mismatch() {
    let v1 = create_test_vertex(1, 100, "Alice");
    let v2 = create_test_vertex(1, 101, "Bob");
    let v3 = create_test_vertex(1, 102, "Carol");

    let e1 = create_test_edge(2, 200, v1.id, v2.id);

    let result = GraphPath::from_parts(vec![v1, v2, v3], vec![e1]);
    assert!(result.is_err());
}

#[test]
fn test_path_reverse() {
    let v1 = create_test_vertex(1, 100, "Alice");
    let v2 = create_test_vertex(1, 101, "Bob");
    let v3 = create_test_vertex(1, 102, "Carol");

    let e1 = create_test_edge(2, 200, v1.id, v2.id);
    let e2 = create_test_edge(2, 201, v2.id, v3.id);

    let path =
        GraphPath::from_parts(vec![v1.clone(), v2.clone(), v3.clone()], vec![e1, e2]).unwrap();

    let reversed = path.reverse();

    assert_eq!(reversed.start().unwrap().id, v3.id);
    assert_eq!(reversed.end().unwrap().id, v1.id);
    assert_eq!(reversed.len(), 2);
    assert!(reversed.validate().is_ok());
}

#[test]
fn test_path_contains() {
    let v1 = create_test_vertex(1, 100, "Alice");
    let v2 = create_test_vertex(1, 101, "Bob");
    let v3 = create_test_vertex(1, 102, "Carol");

    let e1 = create_test_edge(2, 200, v1.id, v2.id);

    let path = GraphPath::from_parts(vec![v1.clone(), v2.clone()], vec![e1.clone()]).unwrap();

    assert!(path.contains_vertex(v1.id));
    assert!(path.contains_vertex(v2.id));
    assert!(!path.contains_vertex(v3.id));

    assert!(path.contains_edge(e1.id));
}

#[test]
fn path_errors_name_the_fault() {
    let v1 = create_test_vertex(1, 100, "Alice");
    let v2 = create_test_vertex(1, 101, "Bob");
    let v3 = create_test_vertex(1, 102, "Carol");

    let none = GraphPath::from_parts(vec![], vec![]);
    assert_eq!(none.err(), Some(PathError::EmptyPath));

    let e1 = create_test_edge(2, 200, v1.id, v2.id);
    let short = GraphPath::from_parts(vec![v1.clone(), v2.clone(), v3.clone()], vec![e1]);
    assert_eq!(
        short.err(),
        Some(PathError::CountMismatch {
            vertices: 3,
            edges: 1
        })
    );

    let wrong_start = create_test_edge(2, 201, v3.id, v2.id);
    let r = GraphPath::from_parts(vec![v1.clone(), v2.clone()], vec![wrong_start]);
    assert_eq!(
        r.err(),
        Some(PathError::Discontinuity {
            pos: 0,
            edge_start: v3.id,
            edge_end: v2.id,
            path_end: v1.id
        })
    );

    let wrong_end = create_test_edge(2, 202, v1.id, v3.id);
    let r = GraphPath::from_parts(vec![v1.clone(), v2.clone()], vec![wrong_end]);
    assert_eq!(
        r.err(),
        Some(PathError::Discontinuity {
            pos: 0,
            edge_start: v1.id,
            edge_end: v3.id,
            path_end: v2.id
        })
    );
}

#[test]
fn path_push_refuses_an_edge_that_does_not_continue_it() {
    let v1 = create_test_vertex(1, 100, "Alice");
    let v2 = create_test_vertex(1, 101, "Bob");
    let v3 = create_test_vertex(1, 102, "Carol");
    let mut path = GraphPath::new(v1.clone());
    let stray = create_test_edge(2, 200, v2.id, v3.id);
    assert!(path.push(stray, v3.clone()).is_err());
    assert_eq!(path.len(), 0);
    assert_eq!(path.end(), Some(&v1));
}

#[test]
fn path_taken_apart_and_rebuilt_is_the_same_path() {
    let v1 = create_test_vertex(1, 100, "Alice");
    let v2 = create_test_vertex(1, 101, "Bob");
    let e1 = create_test_edge(2, 200, v1.id, v2.id);
    let path = GraphPath::from_parts(vec![v1.clone(), v2.clone()], vec![e1.clone()]).unwrap();
    let again = GraphPath::from_parts(path.vertices.clone(), path.edges.clone()).unwrap();
    assert_eq!(again, path);
    assert_eq!(path.vertex_ids(), vec![v1.id, v2.id]);
    assert_eq!(path.edge_ids(), vec![e1.id]);
    assert_eq!(path.reverse().reverse(), path);
}
