use rust_graph_db::bytes::Rank;
use rust_graph_db::executor::error::ExecutionError;
use rust_graph_db::executor::floats::{FloatOps, NoFloats};
use rust_graph_db::executor::query::QueryExecutor;
use rust_graph_db::executor::value::{Row, RowValue};
use rust_graph_db::json::Json;
use rust_graph_db::parser::ast::BinaryOperator;
use rust_graph_db::parser::parse::parse_cypher;
use rust_graph_db::storage::engine::GraphStore;
use rust_graph_db::storage::kv::MemoryKv;

struct MachineFloats;

fn number(text: &str) -> Option<f64> {
    text.parse::<f64>().ok()
}

impl FloatOps for MachineFloats {
    fn arith(&self, op: BinaryOperator, a: &str, b: &str) -> Option<String> {
        let x = number(a)?;
        let y = number(b)?;
        let r = match op {
            BinaryOperator::Add => x + y,
            BinaryOperator::Subtract => x - y,
            BinaryOperator::Multiply => x * y,
            BinaryOperator::Divide => x / y,
            _ => return None,
        };
        if r.is_finite() {
            Some(format!("{:?}", r))
        } else {
            None
        }
    }

    fn compare(&self, a: &str, b: &str) -> Option<Rank> {
        let x = number(a)?;
        let y = number(b)?;
        if x < y {
            Some(Rank::Less)
        } else if x > y {
            Some(Rank::Greater)
        } else if x == y {
            Some(Rank::Equal)
        } else {
            None
        }
    }

    fn near(&self, a: &str, b: &str) -> bool {
        match (number(a), number(b)) {
            (Some(x), Some(y)) => (x - y).abs() < f64::EPSILON,
            _ => false,
        }
    }

    fn is_zero(&self, a: &str) -> bool {
        number(a) == Some(0.0)
    }
}

fn text(s: &str) -> Json {
    Json::Str(s.to_string())
}

fn object(members: Vec<(&str, Json)>) -> Json {
    let mut o = Json::empty_object();
    for (k, v) in members {
        o.set_member(k.to_string(), v);
    }
    o
}

fn new_executor() -> QueryExecutor<MemoryKv, MachineFloats> {
    QueryExecutor::new(GraphStore::new(MemoryKv::new(), "test_graph"), MachineFloats)
}

fn run(executor: &mut QueryExecutor<MemoryKv, MachineFloats>, query: &str) -> Vec<Row> {
    executor.execute(parse_cypher(query).unwrap()).unwrap()
}

fn fail(executor: &mut QueryExecutor<MemoryKv, MachineFloats>, query: &str) -> ExecutionError {
    executor.execute(parse_cypher(query).unwrap()).unwrap_err()
}

fn column(rows: &Vec<Row>, key: &str) -> Vec<RowValue> {
    rows.iter().map(|r| r.get(key).unwrap().clone()).collect()
}

fn strings(names: Vec<&str>) -> Vec<RowValue> {
    names
        .into_iter()
        .map(|n| RowValue::String(n.to_string()))
        .collect()
}

fn with_ages(ages: Vec<(&str, i64)>) -> QueryExecutor<MemoryKv, MachineFloats> {
    let mut executor = new_executor();
    for (name, age) in ages {
        executor
            .storage
            .create_vertex(
                "Person",
                object(vec![("name", text(name)), ("age", Json::Int(age))]),
            )
            .unwrap();
    }
    executor
}

#[test]
fn test_complete_crud_workflow() {
    let mut executor = new_executor();

    let query = parse_cypher("CREATE (a:Person {name: 'Alice', age: 30})").unwrap();
    executor.execute(query).unwrap();

    let query = parse_cypher("CREATE (b:Person {name: 'Bob', age: 25})").unwrap();
    executor.execute(query).unwrap();

    let query = parse_cypher("MATCH (p:Person) RETURN p").unwrap();
    let result = executor.execute(query).unwrap();
    assert_eq!(result.len(), 2, "Should have 2 Person vertices");

    let query = parse_cypher("MATCH (p:Person {name: 'Alice'}) RETURN p").unwrap();
    let result = executor.execute(query).unwrap();
    assert_eq!(result.len(), 1, "Should find Alice by property match");

    let query = parse_cypher("MATCH (p:Person {name: 'Bob'}) DELETE p").unwrap();
    executor.execute(query).unwrap();

    let vertices = executor.storage.scan_vertices("Person").unwrap();
    assert_eq!(vertices.len(), 1, "Should have 1 person left after deletion");
}

#[test]
fn test_relationship_patterns() {
    let mut executor = new_executor();

    let query = parse_cypher(
        "CREATE (a:Person {name: 'Alice'})-[:KNOWS {since: 2020}]->(b:Person {name: 'Bob'})",
    )
    .unwrap();
    executor.execute(query).unwrap();

    let query = parse_cypher("MATCH (a:Person)-[r:KNOWS]->(b:Person) RETURN a, r, b").unwrap();
    let result = executor.execute(query).unwrap();
    assert_eq!(result.len(), 1, "Should find 1 KNOWS relationship");

    let query =
        parse_cypher("MATCH (a:Person)-[r:KNOWS]->(b:Person) WHERE r.since = 2020 RETURN a")
            .unwrap();
    let result = executor.execute(query).unwrap();
    assert_eq!(result.len(), 1, "Should find relationship with since=2020");
}

#[test]
fn test_detach_delete() {
    let mut executor = new_executor();

    let query =
        parse_cypher("CREATE (a:Person {name: 'Alice'})-[:KNOWS]->(b:Person {name: 'Bob'})")
            .unwrap();
    executor.execute(query).unwrap();

    let query = parse_cypher("MATCH (p:Person {name: 'Alice'}) DETACH DELETE p").unwrap();
    executor.execute(query).unwrap();

    let query = parse_cypher("MATCH (p:Person) RETURN p").unwrap();
    let result = executor.execute(query).unwrap();
    assert_eq!(result.len(), 1, "Should have 1 person left");

    let edges = executor.storage.scan_edges("KNOWS").unwrap();
    assert_eq!(edges.len(), 0, "Should have no KNOWS edges");
}

#[test]
fn test_complex_queries() {
    let mut executor = new_executor();

    for name in ["Alice", "Bob", "Charlie", "David"] {
        let query = parse_cypher(&format!("CREATE (a:Person {{name: '{}'}})", name)).unwrap();
        executor.execute(query).unwrap();
    }

    let vertices = executor.storage.scan_vertices("Person").unwrap();
    let find = |name: &str| {
        vertices
            .iter()
            .find(|v| v.get_property("name") == Some(&text(name)))
            .unwrap()
            .id
    };
    let (alice, bob, charlie, david) = (find("Alice"), find("Bob"), find("Charlie"), find("David"));

    let mut tx = executor.storage.begin_transaction().unwrap();
    tx.create_edge(
        &executor.storage,
        "KNOWS",
        alice,
        bob,
        object(vec![("since", Json::Int(2020))]),
    )
    .unwrap();
    tx.create_edge(
        &executor.storage,
        "KNOWS",
        alice,
        charlie,
        object(vec![("since", Json::Int(2018))]),
    )
    .unwrap();
    tx.create_edge(
        &executor.storage,
        "KNOWS",
        bob,
        david,
        object(vec![("since", Json::Int(2019))]),
    )
    .unwrap();
    tx.commit(&mut executor.storage).unwrap();

    let query = parse_cypher("MATCH (a:Person)-[r:KNOWS]->(b:Person) RETURN a").unwrap();
    let result = executor.execute(query).unwrap();
    assert_eq!(result.len(), 3, "Should find 3 KNOWS relationships");

    let query = parse_cypher(
        "MATCH (a:Person {name: 'Alice'})-[:KNOWS]->(b:Person)-[:KNOWS]->(c:Person) RETURN c",
    )
    .unwrap();
    let result = executor.execute(query).unwrap();
    assert_eq!(result.len(), 1, "Should find 1 two-hop path");
    assert_eq!(result[0].get("c").unwrap().as_vertex().unwrap().id, david);
}

#[test]
fn test_transaction_semantics() {
    let mut storage = GraphStore::new(MemoryKv::new(), "test_graph");

    let mut tx = storage.begin_transaction().unwrap();
    tx.create_vertex(&storage, "Person", object(vec![("name", text("Alice"))]))
        .unwrap();
    tx.create_vertex(&storage, "Person", object(vec![("name", text("Bob"))]))
        .unwrap();
    tx.commit(&mut storage).unwrap();

    let vertices = storage.scan_vertices("Person").unwrap();
    assert_eq!(vertices.len(), 2, "Should have 2 vertices after commit");

    let mut tx2 = storage.begin_transaction().unwrap();
    tx2.create_vertex(&storage, "Person", object(vec![("name", text("Charlie"))]))
        .unwrap();
    drop(tx2);

    let vertices = storage.scan_vertices("Person").unwrap();
    assert_eq!(
        vertices.len(),
        2,
        "Should still have 2 vertices after rollback"
    );
}

#[test]
fn test_data_integrity() {
    let mut storage = GraphStore::new(MemoryKv::new(), "test_graph");

    let mut tx = storage.begin_transaction().unwrap();
    let alice = tx
        .create_vertex(
            &storage,
            "Person",
            object(vec![
                ("name", text("Alice")),
                ("email", text("alice@example.com")),
                ("age", Json::Int(30)),
            ]),
        )
        .unwrap();
    tx.commit(&mut storage).unwrap();

    let vertices = storage.scan_vertices("Person").unwrap();
    assert_eq!(vertices.len(), 1);

    let person = &vertices[0];
    assert_eq!(person.get_property("name"), Some(&text("Alice")));
    assert_eq!(
        person.get_property("email"),
        Some(&text("alice@example.com"))
    );
    assert_eq!(person.get_property("age"), Some(&Json::Int(30)));

    let mut tx2 = storage.begin_transaction().unwrap();
    let mut updated_props = person.properties.clone();
    updated_props.set_member("city".to_string(), text("Beijing"));
    tx2.update_vertex(&storage, alice.id, updated_props).unwrap();
    tx2.commit(&mut storage).unwrap();

    let vertices = storage.scan_vertices("Person").unwrap();
    let person = &vertices[0];
    assert_eq!(person.get_property("name"), Some(&text("Alice")));
    assert_eq!(
        person.get_property("email"),
        Some(&text("alice@example.com"))
    );
    assert_eq!(person.get_property("age"), Some(&Json::Int(30)));
    assert_eq!(person.get_property("city"), Some(&text("Beijing")));
}

#[test]
fn count_of_three_people_is_one_row() {
    let mut executor = with_ages(vec![("a", 1), ("b", 2), ("c", 3)]);
    let rows = run(&mut executor, "MATCH (p:Person) RETURN COUNT(*)");
    assert_eq!(rows.len(), 1);
    assert_eq!(rows[0].len(), 1);
    assert_eq!(rows[0].get("COUNT(*)"), Some(&RowValue::Integer(3)));
}

#[test]
fn names_of_the_two_oldest() {
    let mut executor = with_ages(vec![("u", 20), ("x", 35), ("v", 30), ("w", 40)]);
    let rows = run(
        &mut executor,
        "MATCH (p:Person) RETURN p.name ORDER BY p.age DESC LIMIT 2",
    );
    assert_eq!(column(&rows, "p.name"), strings(vec!["w", "x"]));
    assert_eq!(rows[0].len(), 1);
}

#[test]
fn order_by_is_stable_and_cascades() {
    let mut executor = with_ages(vec![("d", 2), ("a", 1), ("c", 2), ("b", 1), ("e", 2)]);
    let rows = run(
        &mut executor,
        "MATCH (p:Person) RETURN p.name AS n ORDER BY p.age",
    );
    assert_eq!(column(&rows, "n"), strings(vec!["a", "b", "d", "c", "e"]));
    let rows = run(
        &mut executor,
        "MATCH (p:Person) RETURN p.name AS n ORDER BY p.age DESC, p.name ASC",
    );
    assert_eq!(column(&rows, "n"), strings(vec!["c", "d", "e", "a", "b"]));
    let rows = run(
        &mut executor,
        "MATCH (p:Person) RETURN p.name AS n ORDER BY n DESC LIMIT 0",
    );
    assert!(rows.is_empty());
}

#[test]
fn aggregates_collapse_to_one_row() {
    let mut executor = with_ages(vec![("a", 20), ("b", 30), ("c", 40)]);
    let rows = run(
        &mut executor,
        "MATCH (p:Person) RETURN count(*) AS n, sum(p.age) AS total, min(p.age) AS low, \
         max(p.age) AS high, avg(p.age) AS mean, p.name",
    );
    assert_eq!(rows.len(), 1);
    assert_eq!(rows[0].get("n"), Some(&RowValue::Integer(3)));
    assert_eq!(rows[0].get("total"), Some(&RowValue::Integer(90)));
    assert_eq!(rows[0].get("low"), Some(&RowValue::Integer(20)));
    assert_eq!(rows[0].get("high"), Some(&RowValue::Integer(40)));
    assert_eq!(
        rows[0].get("mean"),
        Some(&RowValue::Float("30.0".to_string()))
    );
    assert_eq!(
        rows[0].get("p.name"),
        Some(&RowValue::String("a".to_string()))
    );
}

#[test]
fn aggregates_of_no_rows() {
    let mut executor = new_executor();
    let rows = run(
        &mut executor,
        "MATCH (p:Person) RETURN COUNT(*) AS n, SUM(p.age) AS s, AVG(p.age) AS a, MIN(p.age) AS lo",
    );
    assert_eq!(rows.len(), 1);
    assert_eq!(rows[0].get("n"), Some(&RowValue::Integer(0)));
    assert_eq!(rows[0].get("s"), Some(&RowValue::Null));
    assert_eq!(rows[0].get("a"), Some(&RowValue::Null));
    assert_eq!(rows[0].get("lo"), Some(&RowValue::Null));
}

#[test]
fn where_compares_and_computes() {
    let mut executor = with_ages(vec![("a", 20), ("b", 30), ("c", 40)]);
    let q = |e: &mut QueryExecutor<MemoryKv, MachineFloats>, cond: &str| -> Vec<RowValue> {
        let rows = run(
            e,
            &format!("MATCH (p:Person) WHERE {} RETURN p.name AS n", cond),
        );
        column(&rows, "n")
    };
    assert_eq!(q(&mut executor, "p.age >= 30"), strings(vec!["b", "c"]));
    assert_eq!(q(&mut executor, "p.age <> 30"), strings(vec!["a", "c"]));
    assert_eq!(q(&mut executor, "p.age + 10 = 40"), strings(vec!["b"]));
    assert_eq!(q(&mut executor, "p.age * 2 - 20 <= 20"), strings(vec!["a"]));
    assert_eq!(q(&mut executor, "p.age / 7 = 4"), strings(vec!["b"]));
    assert_eq!(q(&mut executor, "p.age % 3 = 1"), strings(vec!["c"]));
    assert_eq!(q(&mut executor, "-p.age < -35"), strings(vec!["c"]));
    assert_eq!(
        q(&mut executor, "NOT p.age = 20 AND p.age < 40 OR p.name = 'a'"),
        strings(vec!["a", "b"])
    );
    assert_eq!(
        q(&mut executor, "p.name + 'x' = 'bx'"),
        strings(vec!["b"])
    );
    assert_eq!(q(&mut executor, "p.age = 30.0"), strings(vec!["b"]));
    assert_eq!(q(&mut executor, "p.age > 29.5"), strings(vec!["b", "c"]));
    assert_eq!(q(&mut executor, "p.age / 8.0 = 2.5"), strings(vec!["a"]));
    assert_eq!(q(&mut executor, "null"), strings(vec![]));
    assert_eq!(q(&mut executor, "0"), strings(vec![]));
    assert_eq!(q(&mut executor, "''"), strings(vec![]));
    assert_eq!(q(&mut executor, "p"), strings(vec!["a", "b", "c"]));
}

#[test]
fn failures_of_evaluation_leave_the_store_alone() {
    let mut executor = with_ages(vec![("a", 20)]);
    let before = executor.storage.kv.len();
    assert!(matches!(
        fail(&mut executor, "MATCH (p:Person) WHERE p.age / 0 = 1 RETURN p"),
        ExecutionError::InvalidExpression(_)
    ));
    assert!(matches!(
        fail(&mut executor, "MATCH (p:Person) WHERE p.age % 0 = 1 RETURN p"),
        ExecutionError::InvalidExpression(_)
    ));
    assert!(matches!(
        fail(&mut executor, "MATCH (p:Person) WHERE p.age < 'x' RETURN p"),
        ExecutionError::TypeMismatch { .. }
    ));
    match fail(&mut executor, "MATCH (p:Person) WHERE q.age = 1 RETURN p") {
        ExecutionError::VariableNotFound(v) => assert_eq!(v, "q"),
        other => panic!("expected VariableNotFound, got {:?}", other),
    }
    assert!(matches!(
        fail(&mut executor, "SET n.age = 1"),
        ExecutionError::InvalidExpression(_)
    ));
    assert!(matches!(
        fail(&mut executor, "DELETE n"),
        ExecutionError::InvalidExpression(_)
    ));
    assert!(matches!(
        fail(&mut executor, "MATCH (p:Person) SET p.age = p.age / 0"),
        ExecutionError::InvalidExpression(_)
    ));
    assert_eq!(executor.storage.kv.len(), before);
    let rows = run(&mut executor, "MATCH (p:Person) RETURN p.age AS age");
    assert_eq!(column(&rows, "age"), vec![RowValue::Integer(20)]);
}

#[test]
fn delete_without_detach_refuses_a_vertex_with_edges() {
    let mut executor = new_executor();
    run(
        &mut executor,
        "CREATE (a:Person {name: 'Alice'})-[:KNOWS]->(b:Person {name: 'Bob'})",
    );
    let before = executor.storage.kv.len();
    assert!(matches!(
        fail(&mut executor, "MATCH (p:Person {name: 'Bob'}) DELETE p"),
        ExecutionError::InvalidExpression(_)
    ));
    assert_eq!(executor.storage.kv.len(), before);

    run(&mut executor, "MATCH (a:Person)-[r:KNOWS]->(b) DELETE r");
    assert!(executor.storage.scan_edges("KNOWS").unwrap().is_empty());
    run(&mut executor, "MATCH (p:Person {name: 'Bob'}) DELETE p");
    let rows = run(&mut executor, "MATCH (p:Person) RETURN p.name");
    assert_eq!(column(&rows, "p.name"), strings(vec!["Alice"]));
}

#[test]
fn set_through_a_query_and_return_what_was_matched() {
    let mut executor = with_ages(vec![("a", 20), ("b", 30)]);
    let rows = run(
        &mut executor,
        "MATCH (p:Person) WHERE p.age > 25 SET p.age = p.age + 1 RETURN p.name",
    );
    assert_eq!(column(&rows, "p.name"), strings(vec!["b"]));
    let rows = run(
        &mut executor,
        "MATCH (p:Person) RETURN p.age AS age ORDER BY age",
    );
    assert_eq!(
        column(&rows, "age"),
        vec![RowValue::Integer(20), RowValue::Integer(31)]
    );
    let rows = run(&mut executor, "MATCH (p:Person) SET p.tag = 'x'");
    assert!(rows.is_empty());
}

#[test]
fn matching_follows_the_direction_of_the_edge_pattern() {
    let mut executor = new_executor();
    run(
        &mut executor,
        "CREATE (a:Person {name: 'Alice'})-[:KNOWS]->(b:Person {name: 'Bob'})",
    );
    let rows = run(
        &mut executor,
        "MATCH (x:Person)-[r]->(y) RETURN x.name AS x, y.name AS y",
    );
    assert_eq!(column(&rows, "x"), strings(vec!["Alice"]));
    assert_eq!(column(&rows, "y"), strings(vec!["Bob"]));
    let rows = run(
        &mut executor,
        "MATCH (x:Person)<-[r]-(y) RETURN x.name AS x, y.name AS y",
    );
    assert_eq!(column(&rows, "x"), strings(vec!["Bob"]));
    assert_eq!(column(&rows, "y"), strings(vec!["Alice"]));
    let rows = run(&mut executor, "MATCH (x:Person)-[r]-(y) RETURN x.name AS x");
    assert_eq!(column(&rows, "x"), strings(vec!["Alice", "Bob"]));
    let rows = run(&mut executor, "MATCH (x:Person)-[r:LIKES]->(y) RETURN x");
    assert!(rows.is_empty());
    let rows = run(&mut executor, "MATCH (x:Person)-[r]->(y:City) RETURN x");
    assert!(rows.is_empty());
    let rows = run(&mut executor, "MATCH (x:Nobody) RETURN x");
    assert!(rows.is_empty());
}

#[test]
fn store_without_floats_still_counts() {
    let mut executor = QueryExecutor::new(GraphStore::new(MemoryKv::new(), "g"), NoFloats);
    executor
        .execute(parse_cypher("CREATE (a:Person {age: 3})").unwrap())
        .unwrap();
    let rows = executor
        .execute(parse_cypher("MATCH (p:Person) RETURN SUM(p.age) AS s").unwrap())
        .unwrap();
    assert_eq!(rows[0].get("s"), Some(&RowValue::Integer(3)));
    assert!(executor
        .execute(parse_cypher("MATCH (p:Person) RETURN AVG(p.age) AS s").unwrap())
        .is_err());
}

#[test]
fn float_properties_survive_the_store() {
    let mut executor = new_executor();
    run(&mut executor, "CREATE (a:Thing {w: 1.5, n: 2, s: \"q\"})");
    let v = &executor.storage.scan_vertices("Thing").unwrap()[0];
    assert_eq!(v.get_property("w"), Some(&Json::Float("1.5".to_string())));
    assert_eq!(v.get_property("n"), Some(&Json::Int(2)));
    assert_eq!(v.get_property("s"), Some(&text("q")));
    let rows = run(&mut executor, "MATCH (a:Thing) RETURN SUM(a.w) AS s");
    assert_eq!(rows[0].get("s"), Some(&RowValue::Float("1.5".to_string())));
}
