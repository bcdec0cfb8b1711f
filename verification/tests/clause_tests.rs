use rust_graph_db::executor::create::CreateExecutor;
use rust_graph_db::executor::delete::DeleteExecutor;
use rust_graph_db::executor::error::ExecutionError;
use rust_graph_db::executor::floats::NoFloats;
use rust_graph_db::executor::matcher::MatchExecutor;
use rust_graph_db::executor::set::{set_nested_property, SetExecutor};
use rust_graph_db::executor::value::{Row, RowValue};
use rust_graph_db::json::Json;
use rust_graph_db::parser::ast::{
    BinaryOperator, CypherQuery, Direction, EdgePattern, Expression, Literal, MapEntry,
    MatchClause, NodePattern, Pattern, PatternElement, PropertyExpression, SetItem, UnaryOperator,
    WhereClause, WriteClause,
};
use rust_graph_db::parser::parse::parse_cypher;
use rust_graph_db::storage::engine::GraphStore;
use rust_graph_db::storage::kv::MemoryKv;

fn text(s: &str) -> Json {
    Json::Str(s.to_string())
}

fn object(members: Vec<(&str, Json)>) -> Json {
    let mut o = Json::empty_object();
    for (k, v) in members {
        o.set_member(k.to_string(), v);
    }
    o
}

fn setup_test_storage() -> GraphStore<MemoryKv> {
    GraphStore::new(MemoryKv::new(), "test_graph")
}

fn entry(key: &str, value: Expression) -> MapEntry {
    MapEntry {
        key: key.to_string(),
        value,
    }
}

fn property(base: &str, names: Vec<&str>) -> PropertyExpression {
    PropertyExpression {
        base: base.to_string(),
        properties: names.into_iter().map(|n| n.to_string()).collect(),
    }
}

fn person_pattern(variable: &str) -> Pattern {
    Pattern {
        elements: vec![PatternElement::Node(NodePattern {
            variable: Some(variable.to_string()),
            label: Some("Person".to_string()),
            properties: None,
        })],
    }
}

fn people(storage: &mut GraphStore<MemoryKv>, all: Vec<Json>) {
    let mut tx = storage.begin_transaction().unwrap();
    for props in all {
        tx.create_vertex(storage, "Person", props).unwrap();
    }
    tx.commit(storage).unwrap();
}

#[test]
fn test_match_simple_node() {
    let mut storage = setup_test_storage();
    people(
        &mut storage,
        vec![
            object(vec![("name", text("Alice"))]),
            object(vec![("name", text("Bob"))]),
        ],
    );

    let floats = NoFloats;
    let executor = MatchExecutor::new(&storage, &floats);
    let match_clause = MatchClause {
        patterns: vec![person_pattern("n")],
    };

    let results = executor.execute(&match_clause, None).unwrap();
    assert_eq!(results.len(), 2);
}

#[test]
fn test_match_with_properties() {
    let mut storage = setup_test_storage();
    people(
        &mut storage,
        vec![
            object(vec![("name", text("Alice")), ("age", Json::Int(30))]),
            object(vec![("name", text("Bob")), ("age", Json::Int(25))]),
        ],
    );

    let floats = NoFloats;
    let executor = MatchExecutor::new(&storage, &floats);
    let props = vec![entry(
        "name",
        Expression::Literal(Literal::String("Alice".to_string())),
    )];

    let pattern = Pattern {
        elements: vec![PatternElement::Node(NodePattern {
            variable: Some("n".to_string()),
            label: Some("Person".to_string()),
            properties: Some(props),
        })],
    };

    let match_clause = MatchClause {
        patterns: vec![pattern],
    };

    let results = executor.execute(&match_clause, None).unwrap();
    assert_eq!(results.len(), 1);
}

#[test]
fn test_where_greater_than() {
    let mut storage = setup_test_storage();
    people(
        &mut storage,
        vec![
            object(vec![("name", text("Alice")), ("age", Json::Int(30))]),
            object(vec![("name", text("Bob")), ("age", Json::Int(25))]),
            object(vec![("name", text("Charlie")), ("age", Json::Int(35))]),
        ],
    );

    let floats = NoFloats;
    let executor = MatchExecutor::new(&storage, &floats);
    let match_clause = MatchClause {
        patterns: vec![person_pattern("p")],
    };

    let where_clause = WhereClause {
        condition: Expression::BinaryOp {
            left: Box::new(Expression::Property(property("p", vec!["age"]))),
            op: BinaryOperator::Gt,
            right: Box::new(Expression::Literal(Literal::Integer(28))),
        },
    };

    let results = executor
        .execute(&match_clause, Some(&where_clause))
        .unwrap();
    assert_eq!(results.len(), 2);
}

#[test]
fn test_where_equals() {
    let mut storage = setup_test_storage();
    people(
        &mut storage,
        vec![
            object(vec![("name", text("Alice")), ("age", Json::Int(30))]),
            object(vec![("name", text("Bob")), ("age", Json::Int(25))]),
        ],
    );

    let floats = NoFloats;
    let executor = MatchExecutor::new(&storage, &floats);
    let match_clause = MatchClause {
        patterns: vec![person_pattern("p")],
    };

    let where_clause = WhereClause {
        condition: Expression::BinaryOp {
            left: Box::new(Expression::Property(property("p", vec!["name"]))),
            op: BinaryOperator::Eq,
            right: Box::new(Expression::Literal(Literal::String("Alice".to_string()))),
        },
    };

    let results = executor
        .execute(&match_clause, Some(&where_clause))
        .unwrap();
    assert_eq!(results.len(), 1);
}

#[test]
fn test_where_and() {
    let mut storage = setup_test_storage();
    people(
        &mut storage,
        vec![
            object(vec![
                ("name", text("Alice")),
                ("age", Json::Int(30)),
                ("city", text("Beijing")),
            ]),
            object(vec![
                ("name", text("Bob")),
                ("age", Json::Int(30)),
                ("city", text("Shanghai")),
            ]),
            object(vec![
                ("name", text("Charlie")),
                ("age", Json::Int(25)),
                ("city", text("Beijing")),
            ]),
        ],
    );

    let floats = NoFloats;
    let executor = MatchExecutor::new(&storage, &floats);
    let match_clause = MatchClause {
        patterns: vec![person_pattern("p")],
    };

    let where_clause = WhereClause {
        condition: Expression::BinaryOp {
            left: Box::new(Expression::BinaryOp {
                left: Box::new(Expression::Property(property("p", vec!["age"]))),
                op: BinaryOperator::Eq,
                right: Box::new(Expression::Literal(Literal::Integer(30))),
            }),
            op: BinaryOperator::And,
            right: Box::new(Expression::BinaryOp {
                left: Box::new(Expression::Property(property("p", vec!["city"]))),
                op: BinaryOperator::Eq,
                right: Box::new(Expression::Literal(Literal::String("Beijing".to_string()))),
            }),
        },
    };

    let results = executor
        .execute(&match_clause, Some(&where_clause))
        .unwrap();
    assert_eq!(results.len(), 1);
}

#[test]
fn test_where_or() {
    let mut storage = setup_test_storage();
    people(
        &mut storage,
        vec![
            object(vec![("name", text("Alice")), ("age", Json::Int(30))]),
            object(vec![("name", text("Bob")), ("age", Json::Int(25))]),
            object(vec![("name", text("Charlie")), ("age", Json::Int(35))]),
        ],
    );

    let floats = NoFloats;
    let executor = MatchExecutor::new(&storage, &floats);
    let match_clause = MatchClause {
        patterns: vec![person_pattern("p")],
    };

    let where_clause = WhereClause {
        condition: Expression::BinaryOp {
            left: Box::new(Expression::BinaryOp {
                left: Box::new(Expression::Property(property("p", vec!["age"]))),
                op: BinaryOperator::Lt,
                right: Box::new(Expression::Literal(Literal::Integer(26))),
            }),
            op: BinaryOperator::Or,
            right: Box::new(Expression::BinaryOp {
                left: Box::new(Expression::Property(property("p", vec!["age"]))),
                op: BinaryOperator::Gt,
                right: Box::new(Expression::Literal(Literal::Integer(34))),
            }),
        },
    };

    let results = executor
        .execute(&match_clause, Some(&where_clause))
        .unwrap();
    assert_eq!(results.len(), 2);
}

#[test]
fn test_where_not() {
    let mut storage = setup_test_storage();
    people(
        &mut storage,
        vec![
            object(vec![("name", text("Alice")), ("active", Json::Bool(true))]),
            object(vec![("name", text("Bob")), ("active", Json::Bool(false))]),
        ],
    );

    let floats = NoFloats;
    let executor = MatchExecutor::new(&storage, &floats);
    let match_clause = MatchClause {
        patterns: vec![person_pattern("p")],
    };

    let where_clause = WhereClause {
        condition: Expression::UnaryOp {
            op: UnaryOperator::Not,
            expr: Box::new(Expression::Property(property("p", vec!["active"]))),
        },
    };

    let results = executor
        .execute(&match_clause, Some(&where_clause))
        .unwrap();
    assert_eq!(results.len(), 1);
}

#[test]
fn test_create_node() {
    let mut storage = setup_test_storage();

    let props = vec![
        entry(
            "name",
            Expression::Literal(Literal::String("Alice".to_string())),
        ),
        entry("age", Expression::Literal(Literal::Integer(30))),
    ];

    let pattern = Pattern {
        elements: vec![PatternElement::Node(NodePattern {
            variable: Some("n".to_string()),
            label: Some("Person".to_string()),
            properties: Some(props),
        })],
    };

    let results = CreateExecutor::execute(&mut storage, &vec![pattern]).unwrap();
    assert_eq!(results.len(), 1);

    let vertices = storage.scan_vertices("Person").unwrap();
    assert_eq!(vertices.len(), 1);
    assert_eq!(vertices[0].get_property("name"), Some(&text("Alice")));
    assert_eq!(vertices[0].get_property("age"), Some(&Json::Int(30)));
}

#[test]
fn test_create_relationship() {
    let mut storage = setup_test_storage();

    let alice_props = vec![entry(
        "name",
        Expression::Literal(Literal::String("Alice".to_string())),
    )];
    let bob_props = vec![entry(
        "name",
        Expression::Literal(Literal::String("Bob".to_string())),
    )];

    let pattern = Pattern {
        elements: vec![
            PatternElement::Node(NodePattern {
                variable: Some("a".to_string()),
                label: Some("Person".to_string()),
                properties: Some(alice_props),
            }),
            PatternElement::Edge(EdgePattern {
                variable: Some("r".to_string()),
                label: Some("KNOWS".to_string()),
                properties: None,
                direction: Direction::Right,
            }),
            PatternElement::Node(NodePattern {
                variable: Some("b".to_string()),
                label: Some("Person".to_string()),
                properties: Some(bob_props),
            }),
        ],
    };

    let results = CreateExecutor::execute(&mut storage, &vec![pattern]).unwrap();
    assert_eq!(results.len(), 1);

    let vertices = storage.scan_vertices("Person").unwrap();
    assert_eq!(vertices.len(), 2);

    let edges = storage.scan_edges("KNOWS").unwrap();
    assert_eq!(edges.len(), 1);
}

#[test]
fn test_delete_vertex_no_edges() {
    let mut storage = setup_test_storage();

    let mut tx = storage.begin_transaction().unwrap();
    let vertex = tx
        .create_vertex(&storage, "Person", object(vec![("name", text("Alice"))]))
        .unwrap();
    tx.commit(&mut storage).unwrap();

    let row = Row::new().with_binding("n", RowValue::Vertex(vertex.clone()));

    DeleteExecutor::execute_with_context(
        &mut storage,
        &vec![Expression::Variable("n".to_string())],
        false,
        &vec![row],
    )
    .unwrap();

    let result = storage.get_vertex(vertex.id).unwrap();
    assert!(result.is_none());
}

#[test]
fn delete_executor_test_delete_vertex_with_edges_fails() {
    let mut storage = setup_test_storage();

    let mut tx = storage.begin_transaction().unwrap();
    let alice = tx
        .create_vertex(&storage, "Person", object(vec![("name", text("Alice"))]))
        .unwrap();
    let bob = tx
        .create_vertex(&storage, "Person", object(vec![("name", text("Bob"))]))
        .unwrap();
    tx.create_edge(&storage, "KNOWS", alice.id, bob.id, Json::empty_object())
        .unwrap();
    tx.commit(&mut storage).unwrap();

    let row = Row::new().with_binding("n", RowValue::Vertex(alice.clone()));

    let result = DeleteExecutor::execute_with_context(
        &mut storage,
        &vec![Expression::Variable("n".to_string())],
        false,
        &vec![row],
    );

    assert!(result.is_err());
    assert!(matches!(result, Err(ExecutionError::InvalidExpression(_))));
    assert!(storage.get_vertex(alice.id).unwrap().is_some());
}

#[test]
fn test_detach_delete_vertex() {
    let mut storage = setup_test_storage();

    let mut tx = storage.begin_transaction().unwrap();
    let alice = tx
        .create_vertex(&storage, "Person", object(vec![("name", text("Alice"))]))
        .unwrap();
    let bob = tx
        .create_vertex(&storage, "Person", object(vec![("name", text("Bob"))]))
        .unwrap();
    let edge = tx
        .create_edge(&storage, "KNOWS", alice.id, bob.id, Json::empty_object())
        .unwrap();
    tx.commit(&mut storage).unwrap();

    let row = Row::new().with_binding("n", RowValue::Vertex(alice.clone()));

    DeleteExecutor::execute_with_context(
        &mut storage,
        &vec![Expression::Variable("n".to_string())],
        true,
        &vec![row],
    )
    .unwrap();

    let result = storage.get_vertex(alice.id).unwrap();
    assert!(result.is_none());

    let result = storage.get_edge(edge.id).unwrap();
    assert!(result.is_none());

    let result = storage.get_vertex(bob.id).unwrap();
    assert!(result.is_some());
    assert!(storage.get_incoming_edges(bob.id).unwrap().is_empty());
}

#[test]
fn test_set_property() {
    let mut storage = setup_test_storage();

    let mut tx = storage.begin_transaction().unwrap();
    let vertex = tx
        .create_vertex(
            &storage,
            "Person",
            object(vec![("name", text("Alice")), ("age", Json::Int(30))]),
        )
        .unwrap();
    tx.commit(&mut storage).unwrap();

    let row = Row::new().with_binding("n", RowValue::Vertex(vertex.clone()));

    let set_item = SetItem {
        property: property("n", vec!["age"]),
        value: Expression::Literal(Literal::Integer(31)),
    };

    SetExecutor::execute_with_context(&NoFloats, &mut storage, &vec![set_item], &vec![row])
        .unwrap();

    let updated = storage.get_vertex(vertex.id).unwrap().unwrap();
    assert_eq!(updated.get_property("age"), Some(&Json::Int(31)));
    assert_eq!(updated.get_property("name"), Some(&text("Alice")));
}

#[test]
fn test_set_with_expression() {
    let mut storage = setup_test_storage();

    let mut tx = storage.begin_transaction().unwrap();
    let vertex = tx
        .create_vertex(
            &storage,
            "Person",
            object(vec![("name", text("Alice")), ("age", Json::Int(30))]),
        )
        .unwrap();
    tx.commit(&mut storage).unwrap();

    let row = Row::new().with_binding("n", RowValue::Vertex(vertex.clone()));

    let set_item = SetItem {
        property: property("n", vec!["age"]),
        value: Expression::BinaryOp {
            left: Box::new(Expression::Property(property("n", vec!["age"]))),
            op: BinaryOperator::Add,
            right: Box::new(Expression::Literal(Literal::Integer(1))),
        },
    };

    SetExecutor::execute_with_context(&NoFloats, &mut storage, &vec![set_item], &vec![row])
        .unwrap();

    let updated = storage.get_vertex(vertex.id).unwrap().unwrap();
    assert_eq!(updated.get_property("age"), Some(&Json::Int(31)));
}

#[test]
fn test_set_nested_property_end_to_end() {
    let mut storage = setup_test_storage();

    let mut tx = storage.begin_transaction().unwrap();
    let vertex = tx
        .create_vertex(
            &storage,
            "Person",
            object(vec![
                ("name", text("Alice")),
                (
                    "address",
                    object(vec![("city", text("Beijing")), ("country", text("China"))]),
                ),
            ]),
        )
        .unwrap();
    tx.commit(&mut storage).unwrap();

    let query = "MATCH (n:Person) SET n.address.city = 'Shanghai';";
    let parsed = parse_cypher(query).unwrap();

    if let CypherQuery::Mixed {
        write_clause: WriteClause::Assign { items },
        ..
    } = &parsed
    {
        assert_eq!(items.len(), 1);
        assert_eq!(items[0].property.base, "n");
        assert_eq!(items[0].property.properties, vec!["address", "city"]);
    } else {
        panic!("Expected Mixed query with SET clause");
    }

    let row = Row::new().with_binding("n", RowValue::Vertex(vertex.clone()));

    if let CypherQuery::Mixed {
        write_clause: WriteClause::Assign { items },
        ..
    } = parsed
    {
        SetExecutor::execute_with_context(&NoFloats, &mut storage, &items, &vec![row]).unwrap();
    }

    let updated = storage.get_vertex(vertex.id).unwrap().unwrap();
    let address = updated.get_property("address").unwrap();
    assert_eq!(address.get("city"), Some(&text("Shanghai")));
    assert_eq!(address.get("country"), Some(&text("China")));
    assert_eq!(updated.get_property("name"), Some(&text("Alice")));
}

#[test]
fn test_set_deep_nested_property() {
    let mut storage = setup_test_storage();

    let mut tx = storage.begin_transaction().unwrap();
    let vertex = tx
        .create_vertex(
            &storage,
            "Person",
            object(vec![
                ("name", text("Bob")),
                (
                    "contact",
                    object(vec![
                        (
                            "address",
                            object(vec![
                                ("city", text("Beijing")),
                                ("street", text("Main Street")),
                            ]),
                        ),
                        ("phone", text("123-456-7890")),
                    ]),
                ),
            ]),
        )
        .unwrap();
    tx.commit(&mut storage).unwrap();

    let query = "MATCH (n:Person) SET n.contact.address.city = 'Shenzhen';";
    let parsed = parse_cypher(query).unwrap();

    if let CypherQuery::Mixed {
        write_clause: WriteClause::Assign { items },
        ..
    } = &parsed
    {
        assert_eq!(items.len(), 1);
        assert_eq!(items[0].property.base, "n");
        assert_eq!(
            items[0].property.properties,
            vec!["contact", "address", "city"]
        );
    } else {
        panic!("Expected Mixed query with SET clause");
    }

    let row = Row::new().with_binding("n", RowValue::Vertex(vertex.clone()));

    if let CypherQuery::Mixed {
        write_clause: WriteClause::Assign { items },
        ..
    } = parsed
    {
        SetExecutor::execute_with_context(&NoFloats, &mut storage, &items, &vec![row]).unwrap();
    }

    let updated = storage.get_vertex(vertex.id).unwrap().unwrap();
    let path = |names: Vec<&str>| -> Vec<String> { names.into_iter().map(String::from).collect() };
    assert_eq!(
        updated
            .properties
            .get_path(&path(vec!["contact", "address", "city"])),
        Some(&text("Shenzhen"))
    );
    assert_eq!(
        updated
            .properties
            .get_path(&path(vec!["contact", "address", "street"])),
        Some(&text("Main Street"))
    );
    assert_eq!(
        updated.properties.get_path(&path(vec!["contact", "phone"])),
        Some(&text("123-456-7890"))
    );
    assert_eq!(updated.get_property("name"), Some(&text("Bob")));
}

#[test]
fn later_assignment_to_a_record_is_made_on_the_committed_record() {
    let mut storage = setup_test_storage();
    let vertex = storage
        .create_vertex(
            "Person",
            object(vec![("age", Json::Int(30)), ("city", text("Beijing"))]),
        )
        .unwrap();
    let row = Row::new().with_binding("n", RowValue::Vertex(vertex.clone()));
    let items = vec![
        SetItem {
            property: property("n", vec!["age"]),
            value: Expression::Literal(Literal::Integer(31)),
        },
        SetItem {
            property: property("n", vec!["city"]),
            value: Expression::Literal(Literal::String("Shanghai".to_string())),
        },
    ];
    SetExecutor::execute_with_context(&NoFloats, &mut storage, &items, &vec![row]).unwrap();
    let updated = storage.get_vertex(vertex.id).unwrap().unwrap();
    assert_eq!(updated.get_property("city"), Some(&text("Shanghai")));
    assert_eq!(updated.get_property("age"), Some(&Json::Int(30)));
}

#[test]
fn assignment_needs_the_objects_on_the_way() {
    let target = object(vec![
        ("a", object(vec![("b", Json::Int(1))])),
        ("n", Json::Int(5)),
    ]);
    let path = |names: Vec<&str>| -> Vec<String> { names.into_iter().map(String::from).collect() };

    let set = set_nested_property(&target, &path(vec!["a", "b"]), Json::Int(2)).unwrap();
    assert_eq!(
        set,
        object(vec![
            ("a", object(vec![("b", Json::Int(2))])),
            ("n", Json::Int(5)),
        ])
    );
    let added = set_nested_property(&target, &path(vec!["a", "c"]), Json::Null).unwrap();
    assert_eq!(
        added.get_path(&path(vec!["a", "c"])),
        Some(&Json::Null)
    );
    assert_eq!(added.get_path(&path(vec!["a", "b"])), Some(&Json::Int(1)));

    assert!(matches!(
        set_nested_property(&target, &path(vec![]), Json::Null),
        Err(ExecutionError::InvalidExpression(_))
    ));
    match set_nested_property(&target, &path(vec!["x", "y"]), Json::Null) {
        Err(ExecutionError::PropertyNotFound(k)) => assert_eq!(k, "x"),
        other => panic!("expected PropertyNotFound, got {:?}", other),
    }
    assert!(matches!(
        set_nested_property(&target, &path(vec!["n", "y"]), Json::Null),
        Err(ExecutionError::TypeMismatch { .. })
    ));
    assert!(matches!(
        set_nested_property(&Json::Int(1), &path(vec!["n"]), Json::Null),
        Err(ExecutionError::TypeMismatch { .. })
    ));
}

#[test]
fn bare_set_and_delete_fail() {
    let items = vec![SetItem {
        property: property("n", vec!["age"]),
        value: Expression::Literal(Literal::Integer(31)),
    }];
    assert!(matches!(
        SetExecutor::execute(&items),
        Err(ExecutionError::InvalidExpression(_))
    ));
    assert!(matches!(
        DeleteExecutor::execute(&vec![Expression::Variable("n".to_string())], false),
        Err(ExecutionError::InvalidExpression(_))
    ));
}

#[test]
fn create_of_an_undirected_edge_fails_and_writes_nothing() {
    let mut storage = setup_test_storage();
    let pattern = Pattern {
        elements: vec![
            PatternElement::Node(NodePattern::with_label("a", "Person")),
            PatternElement::Edge(EdgePattern::with_label("r", "KNOWS", Direction::Both)),
            PatternElement::Node(NodePattern::with_label("b", "Person")),
        ],
    };
    let r = CreateExecutor::execute(&mut storage, &vec![pattern]);
    assert!(matches!(r, Err(ExecutionError::InvalidExpression(_))));
    assert_eq!(storage.kv.len(), 0);
}

#[test]
fn create_rejects_a_parameter_in_a_property_map() {
    let mut storage = setup_test_storage();
    let pattern = Pattern {
        elements: vec![PatternElement::Node(NodePattern {
            variable: Some("n".to_string()),
            label: Some("Person".to_string()),
            properties: Some(vec![entry("name", Expression::Parameter("p".to_string()))]),
        })],
    };
    assert!(CreateExecutor::execute(&mut storage, &vec![pattern]).is_err());
    assert_eq!(storage.kv.len(), 0);
}

#[test]
fn create_of_a_left_edge_runs_from_the_later_node() {
    let mut storage = setup_test_storage();
    let pattern = Pattern {
        elements: vec![
            PatternElement::Node(NodePattern::with_label("a", "Person")),
            PatternElement::Edge(EdgePattern::with_label("r", "KNOWS", Direction::Left)),
            PatternElement::Node(NodePattern::with_label("b", "Person")),
        ],
    };
    let rows = CreateExecutor::execute(&mut storage, &vec![pattern]).unwrap();
    assert_eq!(rows.len(), 1);
    let a = rows[0].get("a").unwrap().as_vertex().unwrap().id;
    let b = rows[0].get("b").unwrap().as_vertex().unwrap().id;
    let edges = storage.scan_edges("KNOWS").unwrap();
    assert_eq!(edges.len(), 1);
    assert_eq!(edges[0].start, b);
    assert_eq!(edges[0].end, a);
    match rows[0].get("r") {
        Some(RowValue::Edge(e)) => assert_eq!(e, &edges[0]),
        other => panic!("expected the edge, got {:?}", other),
    }
}

#[test]
fn clause_steps_refuse_a_terminal_handle() {
    let mut storage = setup_test_storage();
    let v = storage
        .create_vertex("Person", object(vec![("name", text("a"))]))
        .unwrap();
    let mut tx = storage.begin_transaction().unwrap();
    tx.rollback().unwrap();

    let is_terminal = |e: ExecutionError| match e {
        ExecutionError::StorageError(rust_graph_db::storage::error::StorageError::TransactionError(
            m,
        )) => m == "already rolled back",
        _ => false,
    };

    let node = NodePattern::with_label("n", "Person");
    assert!(is_terminal(
        rust_graph_db::executor::create::create_node(&mut tx, &storage, &node).unwrap_err()
    ));
    let unlabelled = NodePattern::simple("n");
    assert!(is_terminal(
        rust_graph_db::executor::create::create_node(&mut tx, &storage, &unlabelled).unwrap_err()
    ));
    let edge = EdgePattern::with_label("r", "KNOWS", Direction::Right);
    assert!(is_terminal(
        rust_graph_db::executor::create::create_edge(&mut tx, &storage, &edge, v.id, v.id)
            .unwrap_err()
    ));
    let mut bindings = Row::new();
    assert!(is_terminal(
        rust_graph_db::executor::create::create_pattern(
            &mut tx,
            &storage,
            &person_pattern("n"),
            &mut bindings
        )
        .unwrap_err()
    ));
    assert_eq!(bindings.len(), 0);
    assert!(is_terminal(
        rust_graph_db::executor::delete::delete_edge(&mut tx, &storage, v.id).unwrap_err()
    ));
    assert!(is_terminal(
        rust_graph_db::executor::delete::delete_vertex(&mut tx, &storage, v.id, true).unwrap_err()
    ));
    let item = SetItem {
        property: property("n", vec!["age"]),
        value: Expression::Literal(Literal::Integer(1)),
    };
    let row = Row::new().with_binding("n", RowValue::Vertex(v.clone()));
    assert!(is_terminal(
        rust_graph_db::executor::set::apply_set_item(&NoFloats, &mut tx, &storage, &item, &row)
            .unwrap_err()
    ));
    assert_eq!(tx.staged_len(), 0);
    assert_eq!(storage.get_vertex(v.id).unwrap(), Some(v));
}
