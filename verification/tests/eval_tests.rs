use rust_graph_db::bytes::Rank;
use rust_graph_db::executor::convert::{
    evaluate_literal, json_to_value, literal_to_json, literal_to_value, value_to_json,
};
use rust_graph_db::executor::error::ExecutionError;
use rust_graph_db::executor::eval::{
    compare_in_filter, evaluate_binary_op, evaluate_expression, evaluate_property,
    evaluate_unary_op, follow_path, integer_text, is_truthy, values_eq,
};
use rust_graph_db::executor::floats::{FloatOps, NoFloats};
use rust_graph_db::executor::ordering::{compare_rows, compare_values, print_value, sort_pairs};
use rust_graph_db::executor::projection::{
    apply_limit, contains_aggregate, get_return_key, is_aggregate_name, project_row,
};
use rust_graph_db::executor::value::{Field, Row, RowValue};
use rust_graph_db::json::Json;
use rust_graph_db::parser::ast::{
    BinaryOperator, Expression, Literal, MapEntry, PropertyExpression, ReturnItem, SortItem,
    UnaryOperator,
};
use rust_graph_db::types::edge::Edge;
use rust_graph_db::types::graphid::Graphid;
use rust_graph_db::types::vertex::Vertex;

struct Doubles;

fn number(text: &str) -> Option<f64> {
    text.parse::<f64>().ok()
}

impl FloatOps for Doubles {
    fn arith(&self, op: BinaryOperator, a: &str, b: &str) -> Option<String> {
        let x = number(a)?;
        let y = number(b)?;
        let r = match op {
            BinaryOperator::Add => x + y,
            BinaryOperator::Subtract => x - y,
            BinaryOperator::Multiply => x * y,
            BinaryOperator::Divide => x / y,
            _ => return None,
        };
        if r.is_finite() {
            Some(format!("{:?}", r))
        } else {
            None
        }
    }

    fn compare(&self, a: &str, b: &str) -> Option<Rank> {
        let x = number(a)?;
        let y = number(b)?;
        if x < y {
            Some(Rank::Less)
        } else if x > y {
            Some(Rank::Greater)
        } else if x == y {
            Some(Rank::Equal)
        } else {
            None
        }
    }

    fn near(&self, a: &str, b: &str) -> bool {
        match (number(a), number(b)) {
            (Some(x), Some(y)) => (x - y).abs() < f64::EPSILON,
            _ => false,
        }
    }

    fn is_zero(&self, a: &str) -> bool {
        number(a) == Some(0.0)
    }
}

fn whole(i: i64) -> RowValue {
    RowValue::Integer(i)
}

fn decimal(t: &str) -> RowValue {
    RowValue::Float(t.to_string())
}

fn word(s: &str) -> RowValue {
    RowValue::String(s.to_string())
}

fn text(s: &str) -> Json {
    Json::Str(s.to_string())
}

fn object(members: Vec<(&str, Json)>) -> Json {
    let mut o = Json::empty_object();
    for (k, v) in members {
        o.set_member(k.to_string(), v);
    }
    o
}

fn person(locid: u64, name: &str, age: i64) -> Vertex {
    Vertex::new(
        Graphid::new(1, locid).unwrap(),
        "Person",
        object(vec![
            ("name", text(name)),
            ("age", Json::Int(age)),
            ("home", object(vec![("city", text("Rome"))])),
        ]),
    )
}

fn property(base: &str, names: Vec<&str>) -> PropertyExpression {
    PropertyExpression {
        base: base.to_string(),
        properties: names.into_iter().map(|n| n.to_string()).collect(),
    }
}

fn binary(left: Expression, op: BinaryOperator, right: Expression) -> Expression {
    Expression::BinaryOp {
        left: Box::new(left),
        op,
        right: Box::new(right),
    }
}

#[test]
fn what_counts_as_true() {
    let f = Doubles;
    assert!(!is_truthy(&f, &RowValue::Null));
    assert!(!is_truthy(&f, &RowValue::Boolean(false)));
    assert!(is_truthy(&f, &RowValue::Boolean(true)));
    assert!(!is_truthy(&f, &whole(0)));
    assert!(is_truthy(&f, &whole(-1)));
    assert!(!is_truthy(&f, &decimal("0.0")));
    assert!(is_truthy(&f, &decimal("0.5")));
    assert!(!is_truthy(&f, &word("")));
    assert!(is_truthy(&f, &word("x")));
    assert!(!is_truthy(&f, &RowValue::List(vec![])));
    assert!(is_truthy(&f, &RowValue::List(vec![RowValue::Null])));
    assert!(!is_truthy(&f, &RowValue::Mapping(vec![])));
    assert!(is_truthy(
        &f,
        &RowValue::Mapping(vec![Field {
            key: "k".to_string(),
            value: RowValue::Null
        }])
    ));
    assert!(is_truthy(&f, &RowValue::Vertex(person(1, "a", 1))));
    let id = Graphid::new(2, 1).unwrap();
    assert!(is_truthy(
        &f,
        &RowValue::Edge(Edge::new_empty(id, id, id, "E"))
    ));
    assert!(!is_truthy(&f, &RowValue::Path(vec![])));
}

#[test]
fn equality_of_values() {
    let f = Doubles;
    assert!(values_eq(&f, &RowValue::Null, &RowValue::Null));
    assert!(values_eq(&f, &whole(3), &whole(3)));
    assert!(!values_eq(&f, &whole(3), &whole(4)));
    assert!(values_eq(&f, &word("a"), &word("a")));
    assert!(!values_eq(&f, &word("a"), &word("A")));
    assert!(values_eq(
        &f,
        &RowValue::Boolean(true),
        &RowValue::Boolean(true)
    ));
    assert!(values_eq(&f, &whole(3), &decimal("3.0")));
    assert!(values_eq(&f, &decimal("3.0"), &whole(3)));
    assert!(values_eq(&f, &decimal("1.5"), &decimal("1.50")));
    assert!(!values_eq(&f, &decimal("1.5"), &decimal("1.6")));
    assert!(!values_eq(&f, &whole(1), &word("1")));
    assert!(!values_eq(&f, &RowValue::Null, &whole(0)));
    assert!(!values_eq(&f, &whole(1), &RowValue::Boolean(true)));
    assert!(!values_eq(
        &f,
        &RowValue::List(vec![]),
        &RowValue::List(vec![])
    ));
}

#[test]
fn comparison_in_a_filter() {
    let f = Doubles;
    assert_eq!(compare_in_filter(&f, &whole(1), &whole(2)).unwrap(), Rank::Less);
    assert_eq!(
        compare_in_filter(&f, &whole(2), &whole(2)).unwrap(),
        Rank::Equal
    );
    assert_eq!(
        compare_in_filter(&f, &whole(i64::MAX), &whole(i64::MIN)).unwrap(),
        Rank::Greater
    );
    assert_eq!(
        compare_in_filter(&f, &word("a"), &word("b")).unwrap(),
        Rank::Less
    );
    assert_eq!(
        compare_in_filter(&f, &word("b"), &word("ab")).unwrap(),
        Rank::Greater
    );
    assert_eq!(
        compare_in_filter(&f, &whole(1), &decimal("1.5")).unwrap(),
        Rank::Less
    );
    assert_eq!(
        compare_in_filter(&f, &decimal("2.5"), &decimal("1.5")).unwrap(),
        Rank::Greater
    );
    for (a, b) in [
        (whole(1), word("1")),
        (word("1"), whole(1)),
        (RowValue::Null, whole(1)),
        (RowValue::Boolean(true), RowValue::Boolean(false)),
        (RowValue::Null, RowValue::Null),
    ] {
        assert!(matches!(
            compare_in_filter(&f, &a, &b),
            Err(ExecutionError::TypeMismatch { .. })
        ));
    }
}

#[test]
fn arithmetic_on_integers() {
    let f = NoFloats;
    let op = |l: i64, op: BinaryOperator, r: i64| evaluate_binary_op(&f, &whole(l), op, &whole(r));
    assert_eq!(op(7, BinaryOperator::Add, 5).unwrap(), whole(12));
    assert_eq!(op(7, BinaryOperator::Subtract, 9).unwrap(), whole(-2));
    assert_eq!(op(-7, BinaryOperator::Multiply, 6).unwrap(), whole(-42));
    assert_eq!(op(7, BinaryOperator::Divide, 2).unwrap(), whole(3));
    assert_eq!(op(-7, BinaryOperator::Divide, 2).unwrap(), whole(-3));
    assert_eq!(op(7, BinaryOperator::Modulo, 3).unwrap(), whole(1));
    assert_eq!(op(-7, BinaryOperator::Modulo, 3).unwrap(), whole(-1));
    assert!(matches!(
        op(1, BinaryOperator::Divide, 0),
        Err(ExecutionError::InvalidExpression(_))
    ));
    assert!(matches!(
        op(1, BinaryOperator::Modulo, 0),
        Err(ExecutionError::InvalidExpression(_))
    ));
    assert!(matches!(
        op(i64::MAX, BinaryOperator::Add, 1),
        Err(ExecutionError::InvalidExpression(_))
    ));
    assert!(matches!(
        op(i64::MIN, BinaryOperator::Subtract, 1),
        Err(ExecutionError::InvalidExpression(_))
    ));
    assert!(matches!(
        op(i64::MAX, BinaryOperator::Multiply, 2),
        Err(ExecutionError::InvalidExpression(_))
    ));
    assert!(matches!(
        op(i64::MIN, BinaryOperator::Divide, -1),
        Err(ExecutionError::InvalidExpression(_))
    ));
    assert_eq!(
        op(i64::MAX - 1, BinaryOperator::Add, 1).unwrap(),
        whole(i64::MAX)
    );
    assert_eq!(
        op(3, BinaryOperator::Eq, 3).unwrap(),
        RowValue::Boolean(true)
    );
    assert_eq!(
        op(3, BinaryOperator::Neq, 3).unwrap(),
        RowValue::Boolean(false)
    );
    assert_eq!(
        op(3, BinaryOperator::Lt, 4).unwrap(),
        RowValue::Boolean(true)
    );
    assert_eq!(
        op(3, BinaryOperator::Gte, 4).unwrap(),
        RowValue::Boolean(false)
    );
    assert_eq!(
        op(3, BinaryOperator::Lte, 3).unwrap(),
        RowValue::Boolean(true)
    );
    assert_eq!(
        op(3, BinaryOperator::Gt, 3).unwrap(),
        RowValue::Boolean(false)
    );
    assert_eq!(
        op(0, BinaryOperator::And, 3).unwrap(),
        RowValue::Boolean(false)
    );
    assert_eq!(
        op(0, BinaryOperator::Or, 3).unwrap(),
        RowValue::Boolean(true)
    );
}

#[test]
fn arithmetic_on_other_values() {
    let f = Doubles;
    assert_eq!(
        evaluate_binary_op(&f, &word("ab"), BinaryOperator::Add, &word("cd")).unwrap(),
        word("abcd")
    );
    assert_eq!(
        evaluate_binary_op(&f, &whole(1), BinaryOperator::Add, &decimal("1.5")).unwrap(),
        decimal("2.5")
    );
    assert_eq!(
        evaluate_binary_op(&f, &decimal("3.0"), BinaryOperator::Multiply, &whole(2)).unwrap(),
        decimal("6.0")
    );
    assert_eq!(
        evaluate_binary_op(&f, &decimal("3.0"), BinaryOperator::Divide, &decimal("2.0")).unwrap(),
        decimal("1.5")
    );
    assert!(matches!(
        evaluate_binary_op(&f, &decimal("3.0"), BinaryOperator::Divide, &decimal("0.0")),
        Err(ExecutionError::InvalidExpression(_))
    ));
    assert!(matches!(
        evaluate_binary_op(&f, &decimal("3.0"), BinaryOperator::Divide, &whole(0)),
        Err(ExecutionError::InvalidExpression(_))
    ));
    assert!(matches!(
        evaluate_binary_op(&f, &word("a"), BinaryOperator::Subtract, &word("b")),
        Err(ExecutionError::TypeMismatch { .. })
    ));
    assert!(matches!(
        evaluate_binary_op(&f, &word("a"), BinaryOperator::Add, &whole(1)),
        Err(ExecutionError::TypeMismatch { .. })
    ));
    assert!(matches!(
        evaluate_binary_op(&f, &RowValue::Null, BinaryOperator::Multiply, &whole(1)),
        Err(ExecutionError::TypeMismatch { .. })
    ));
    assert!(evaluate_binary_op(&NoFloats, &whole(1), BinaryOperator::Add, &decimal("1.5")).is_err());
}

#[test]
fn unary_operators() {
    let f = Doubles;
    assert_eq!(
        evaluate_unary_op(&f, UnaryOperator::Not, &whole(0)).unwrap(),
        RowValue::Boolean(true)
    );
    assert_eq!(
        evaluate_unary_op(&f, UnaryOperator::Not, &word("x")).unwrap(),
        RowValue::Boolean(false)
    );
    assert_eq!(
        evaluate_unary_op(&f, UnaryOperator::Minus, &whole(5)).unwrap(),
        whole(-5)
    );
    assert_eq!(
        evaluate_unary_op(&f, UnaryOperator::Plus, &whole(5)).unwrap(),
        whole(5)
    );
    assert_eq!(
        evaluate_unary_op(&f, UnaryOperator::Minus, &decimal("1.5")).unwrap(),
        decimal("-1.5")
    );
    assert!(matches!(
        evaluate_unary_op(&f, UnaryOperator::Minus, &whole(i64::MIN)),
        Err(ExecutionError::InvalidExpression(_))
    ));
    assert!(matches!(
        evaluate_unary_op(&f, UnaryOperator::Minus, &word("x")),
        Err(ExecutionError::TypeMismatch { .. })
    ));
    assert!(matches!(
        evaluate_unary_op(&f, UnaryOperator::Plus, &RowValue::Null),
        Err(ExecutionError::TypeMismatch { .. })
    ));
}

#[test]
fn expressions_over_a_row() {
    let f = Doubles;
    let row = Row::new()
        .with_binding("p", RowValue::Vertex(person(1, "Ann", 30)))
        .with_binding("k", whole(4));
    let e = binary(
        Expression::Property(property("p", vec!["age"])),
        BinaryOperator::Add,
        Expression::var("k"),
    );
    assert_eq!(evaluate_expression(&f, &e, &row).unwrap(), whole(34));
    assert_eq!(
        evaluate_expression(
            &f,
            &Expression::Property(property("p", vec!["home", "city"])),
            &row
        )
        .unwrap(),
        word("Rome")
    );
    assert_eq!(
        evaluate_property(&property("p", vec!["name"]), &row).unwrap(),
        word("Ann")
    );
    match evaluate_property(&property("p", vec!["missing"]), &row) {
        Err(ExecutionError::PropertyNotFound(k)) => assert_eq!(k, "missing"),
        other => panic!("expected PropertyNotFound, got {:?}", other),
    }
    match evaluate_property(&property("q", vec!["name"]), &row) {
        Err(ExecutionError::VariableNotFound(v)) => assert_eq!(v, "q"),
        other => panic!("expected VariableNotFound, got {:?}", other),
    }
    assert!(matches!(
        evaluate_property(&property("k", vec!["name"]), &row),
        Err(ExecutionError::TypeMismatch { .. })
    ));
    match evaluate_expression(&f, &Expression::var("zz"), &row) {
        Err(ExecutionError::VariableNotFound(v)) => assert_eq!(v, "zz"),
        other => panic!("expected VariableNotFound, got {:?}", other),
    }
    assert!(evaluate_expression(&f, &Expression::Parameter("x".to_string()), &row).is_err());
    assert!(evaluate_expression(
        &f,
        &Expression::FunctionCall {
            name: "count".to_string(),
            args: vec![]
        },
        &row
    )
    .is_err());
    let and = binary(
        Expression::bool(false),
        BinaryOperator::And,
        Expression::var("zz"),
    );
    assert!(evaluate_expression(&f, &and, &row).is_err());
}

#[test]
fn paths_into_json() {
    let j = object(vec![("a", object(vec![("b", Json::Int(1))]))]);
    let names = |p: Vec<&str>| -> Vec<String> { p.into_iter().map(String::from).collect() };
    assert_eq!(
        follow_path(&j, &names(vec!["a", "b"])).unwrap(),
        &Json::Int(1)
    );
    assert_eq!(follow_path(&j, &names(vec![])).unwrap(), &j);
    match follow_path(&j, &names(vec!["a", "c", "d"])) {
        Err(ExecutionError::PropertyNotFound(k)) => assert_eq!(k, "c"),
        other => panic!("expected PropertyNotFound, got {:?}", other),
    }
}

#[test]
fn literals_become_values_and_json() {
    assert_eq!(literal_to_value(&Literal::Null), RowValue::Null);
    assert_eq!(literal_to_value(&Literal::Integer(3)), whole(3));
    assert_eq!(
        literal_to_value(&Literal::Float("1.5".to_string())),
        decimal("1.5")
    );
    assert_eq!(
        literal_to_value(&Literal::String("s".to_string())),
        word("s")
    );
    assert_eq!(
        literal_to_value(&Literal::Boolean(true)),
        RowValue::Boolean(true)
    );

    assert_eq!(literal_to_json(&Literal::Null).unwrap(), Json::Null);
    assert_eq!(literal_to_json(&Literal::Integer(3)).unwrap(), Json::Int(3));
    assert_eq!(
        literal_to_json(&Literal::Float("1.5".to_string())).unwrap(),
        Json::Float("1.5".to_string())
    );
    let list = Literal::List(vec![Expression::integer(1), Expression::string("a")]);
    assert_eq!(
        literal_to_json(&list).unwrap(),
        Json::Array(vec![Json::Int(1), text("a")])
    );
    let map = Literal::Mapping(vec![
        MapEntry {
            key: "b".to_string(),
            value: Expression::integer(2),
        },
        MapEntry {
            key: "a".to_string(),
            value: Expression::Literal(Literal::List(vec![])),
        },
    ]);
    assert_eq!(
        literal_to_json(&map).unwrap(),
        object(vec![("a", Json::Array(vec![])), ("b", Json::Int(2))])
    );
    assert_eq!(
        evaluate_literal(&Expression::bool(false)).unwrap(),
        Json::Bool(false)
    );
    assert!(matches!(
        evaluate_literal(&Expression::var("x")),
        Err(ExecutionError::InvalidExpression(_))
    ));
    assert!(evaluate_literal(&Expression::Parameter("p".to_string())).is_err());
    let nested = Literal::List(vec![Expression::var("x")]);
    assert!(literal_to_json(&nested).is_err());
}

#[test]
fn json_and_values_convert() {
    assert_eq!(json_to_value(&Json::Null), RowValue::Null);
    assert_eq!(json_to_value(&Json::Bool(true)), RowValue::Boolean(true));
    assert_eq!(json_to_value(&Json::Int(-4)), whole(-4));
    assert_eq!(json_to_value(&Json::Float("2.5".to_string())), decimal("2.5"));
    assert_eq!(json_to_value(&text("s")), word("s"));
    assert_eq!(
        json_to_value(&Json::Array(vec![Json::Int(1), Json::Null])),
        RowValue::List(vec![whole(1), RowValue::Null])
    );
    match json_to_value(&object(vec![("k", Json::Int(1))])) {
        RowValue::Mapping(fs) => {
            assert_eq!(fs.len(), 1);
            assert_eq!(fs[0].key, "k");
            assert_eq!(fs[0].value, whole(1));
        }
        other => panic!("expected a map, got {:?}", other),
    }

    assert_eq!(value_to_json(&RowValue::Null).unwrap(), Json::Null);
    assert_eq!(value_to_json(&whole(4)).unwrap(), Json::Int(4));
    assert_eq!(value_to_json(&word("s")).unwrap(), text("s"));
    assert_eq!(
        value_to_json(&decimal("2.5")).unwrap(),
        Json::Float("2.5".to_string())
    );
    assert_eq!(
        value_to_json(&RowValue::List(vec![whole(1)])).unwrap(),
        Json::Array(vec![Json::Int(1)])
    );
    let v = person(1, "Ann", 30);
    assert_eq!(
        value_to_json(&RowValue::Vertex(v.clone())).unwrap(),
        v.properties
    );
    assert!(matches!(
        value_to_json(&RowValue::Path(vec![])),
        Err(ExecutionError::TypeMismatch { .. })
    ));
}

#[test]
fn values_convert_to_what_they_hold() {
    let v = person(3, "Ann", 30);
    let value = RowValue::Vertex(v.clone());
    assert_eq!(value.as_vertex().unwrap(), &v);
    assert_eq!(value.as_graphid().unwrap(), v.id);
    let id = Graphid::new(2, 1).unwrap();
    let e = RowValue::Edge(Edge::new_empty(id, v.id, v.id, "E"));
    assert_eq!(e.as_graphid().unwrap(), id);
    assert!(e.as_vertex().is_err());
    assert!(matches!(
        whole(1).as_string(),
        Err(ExecutionError::TypeMismatch { .. })
    ));
    assert!(word("x").as_i64().is_err());
    assert!(RowValue::Null.as_bool().is_err());
    assert!(whole(1).as_graphid().is_err());
    assert_eq!(RowValue::default(), RowValue::Null);
    assert!(value.same(&value.clone()));
    assert!(!value.same(&e));
}

#[test]
fn rows_bind_names_to_values() {
    let mut row = Row::new();
    assert_eq!(row.len(), 0);
    row.insert("a", whole(1));
    row.insert("b", whole(2));
    row.insert("a", whole(3));
    assert_eq!(row.len(), 2);
    assert_eq!(row.get("a"), Some(&whole(3)));
    assert_eq!(row.get("b"), Some(&whole(2)));
    assert_eq!(row.get("c"), None);
    let keys: Vec<&str> = row.bindings.iter().map(|f| f.key.as_str()).collect();
    assert_eq!(keys, vec!["a", "b"]);
    let copy = row.clone();
    assert_eq!(copy, row);
    assert!(copy.same(&row));
    assert_ne!(Row::new(), row);
    assert_eq!(Row::default(), Row::new());
}

#[test]
fn projection_names_its_columns() {
    let item = |e: Expression, alias: Option<&str>| ReturnItem {
        expression: e,
        alias: alias.map(String::from),
    };
    assert_eq!(get_return_key(&item(Expression::var("n"), None)), "n");
    assert_eq!(get_return_key(&item(Expression::var("n"), Some("m"))), "m");
    assert_eq!(
        get_return_key(&item(
            Expression::Property(property("n", vec!["a", "b"])),
            None
        )),
        "n.a.b"
    );
    assert_eq!(
        get_return_key(&item(
            Expression::FunctionCall {
                name: "COUNT".to_string(),
                args: vec![]
            },
            None
        )),
        "COUNT(*)"
    );

    let row = Row::new()
        .with_binding("p", RowValue::Vertex(person(1, "Ann", 30)))
        .with_binding("k", whole(4));
    let items = vec![
        item(Expression::Property(property("p", vec!["name"])), None),
        item(Expression::var("k"), Some("four")),
        item(Expression::Property(property("p", vec!["home", "city"])), None),
    ];
    let out = project_row(&row, &items).unwrap();
    let keys: Vec<&str> = out.bindings.iter().map(|f| f.key.as_str()).collect();
    assert_eq!(keys, vec!["p.name", "four", "p.home.city"]);
    assert_eq!(out.get("p.name"), Some(&word("Ann")));
    assert_eq!(out.get("four"), Some(&whole(4)));
    assert_eq!(out.get("p.home.city"), Some(&word("Rome")));
    let unbound = project_row(&row, &vec![item(Expression::var("zz"), None)]).unwrap();
    assert_eq!(unbound.len(), 0);
    assert!(matches!(
        project_row(&row, &vec![item(Expression::integer(1), None)]),
        Err(ExecutionError::UnsupportedOperation(_))
    ));
    assert!(matches!(
        project_row(
            &row,
            &vec![item(Expression::Property(property("p", vec!["nope"])), None)]
        ),
        Err(ExecutionError::PropertyNotFound(_))
    ));
}

#[test]
fn aggregates_are_known_by_name() {
    for name in ["count", "COUNT", "Sum", "avg", "MIN", "mAx"] {
        assert!(is_aggregate_name(name), "{}", name);
    }
    for name in ["counts", "total", "", "size"] {
        assert!(!is_aggregate_name(name), "{}", name);
    }
    let call = Expression::FunctionCall {
        name: "sum".to_string(),
        args: vec![Expression::var("n")],
    };
    assert!(contains_aggregate(&call));
    assert!(!contains_aggregate(&Expression::var("sum")));
    assert!(!contains_aggregate(&Expression::FunctionCall {
        name: "size".to_string(),
        args: vec![]
    }));
}

#[test]
fn limit_cuts_rows_off() {
    let rows = |n: i64| -> Vec<Row> { (0..n).map(|i| Row::new().with_binding("n", whole(i))).collect() };
    let mut r = rows(5);
    apply_limit(&mut r, Some(2));
    assert_eq!(r, rows(2));
    let mut r = rows(5);
    apply_limit(&mut r, Some(0));
    assert!(r.is_empty());
    let mut r = rows(3);
    apply_limit(&mut r, Some(3));
    assert_eq!(r.len(), 3);
    let mut r = rows(3);
    apply_limit(&mut r, Some(10));
    assert_eq!(r.len(), 3);
    let mut r = rows(3);
    apply_limit(&mut r, Some(-1));
    assert_eq!(r.len(), 3);
    let mut r = rows(3);
    apply_limit(&mut r, None);
    assert_eq!(r.len(), 3);
}

#[test]
fn order_of_values_when_sorting() {
    let f = Doubles;
    assert_eq!(compare_values(&f, &whole(1), &whole(2)), Rank::Less);
    assert_eq!(compare_values(&f, &whole(10), &whole(9)), Rank::Greater);
    assert_eq!(compare_values(&f, &whole(1), &decimal("1.5")), Rank::Less);
    assert_eq!(compare_values(&f, &decimal("2.5"), &whole(2)), Rank::Greater);
    assert_eq!(compare_values(&f, &word("b"), &word("a")), Rank::Greater);
    assert_eq!(
        compare_values(&f, &RowValue::Boolean(false), &RowValue::Boolean(true)),
        Rank::Less
    );
    assert_eq!(compare_values(&f, &RowValue::Null, &whole(1)), Rank::Greater);
    assert_eq!(compare_values(&f, &whole(1), &RowValue::Null), Rank::Less);
    assert_eq!(
        compare_values(&f, &RowValue::Null, &RowValue::Null),
        Rank::Equal
    );
    assert_eq!(compare_values(&f, &whole(5), &word("5")), Rank::Less);
    assert_eq!(compare_values(&f, &word("5"), &whole(5)), Rank::Greater);
    assert_eq!(
        compare_values(&f, &RowValue::Boolean(true), &whole(0)),
        Rank::Less
    );
    assert_eq!(print_value(&whole(-5)), "Integer(-5)");
    assert_eq!(print_value(&word("x")), "String(x)");
    assert_eq!(print_value(&RowValue::Null), "Null");
    assert_eq!(integer_text(i64::MIN), "-9223372036854775808");
    assert_eq!(integer_text(0), "0");
}

#[test]
fn sorting_is_stable() {
    let f = NoFloats;
    let row = |k: i64, tag: &str| {
        Row::new()
            .with_binding("k", whole(k))
            .with_binding("tag", word(tag))
    };
    let rows = vec![
        row(2, "a"),
        row(1, "b"),
        row(2, "c"),
        row(1, "d"),
        row(3, "e"),
        row(2, "f"),
    ];
    let keys = rows.clone();
    let items = vec![SortItem {
        expression: Expression::var("k"),
        ascending: true,
    }];
    let (sorted_keys, sorted) = sort_pairs(&f, keys, rows.clone(), &items);
    let tags: Vec<RowValue> = sorted.iter().map(|r| r.get("tag").unwrap().clone()).collect();
    assert_eq!(
        tags,
        vec![
            word("b"),
            word("d"),
            word("a"),
            word("c"),
            word("f"),
            word("e")
        ]
    );
    assert_eq!(sorted_keys, sorted);
    for w in sorted.windows(2) {
        assert_ne!(compare_rows(&f, &w[0], &w[1], &items), Rank::Greater);
    }

    let down = vec![SortItem {
        expression: Expression::var("k"),
        ascending: false,
    }];
    let (_, sorted) = sort_pairs(&f, rows.clone(), rows.clone(), &down);
    let tags: Vec<RowValue> = sorted.iter().map(|r| r.get("tag").unwrap().clone()).collect();
    assert_eq!(
        tags,
        vec![
            word("e"),
            word("a"),
            word("c"),
            word("f"),
            word("b"),
            word("d")
        ]
    );

    let missing = vec![SortItem {
        expression: Expression::var("zz"),
        ascending: true,
    }];
    let (_, sorted) = sort_pairs(&f, rows.clone(), rows.clone(), &missing);
    assert_eq!(sorted, rows);
    let (_, sorted) = sort_pairs(&f, Vec::new(), Vec::new(), &items);
    assert!(sorted.is_empty());
}

#[test]
fn errors_carry_what_they_were_made_with() {
    match ExecutionError::mismatch("Integer", "String") {
        ExecutionError::TypeMismatch { expected, actual } => {
            assert_eq!(expected, "Integer");
            assert_eq!(actual, "String");
        }
        other => panic!("expected TypeMismatch, got {:?}", other),
    }
    match ExecutionError::invalid("Division by zero") {
        ExecutionError::InvalidExpression(m) => assert_eq!(m, "Division by zero"),
        other => panic!("expected InvalidExpression, got {:?}", other),
    }
    match ExecutionError::unsupported("window functions") {
        ExecutionError::UnsupportedOperation(m) => assert_eq!(m, "window functions"),
        other => panic!("expected UnsupportedOperation, got {:?}", other),
    }
}

#[test]
fn sums_of_numbers_in_text_form_add_up_in_row_order() {
    let f = Doubles;
    let rows = vec![
        Row::new().with_binding("n", decimal("1.5")),
        Row::new().with_binding("n", whole(2)),
        Row::new().with_binding("n", RowValue::Null),
        Row::new().with_binding("n", decimal("0.25")),
    ];
    let args = vec![Expression::var("n")];
    assert_eq!(
        rust_graph_db::executor::aggregate::aggregate_sum(&f, &args, &rows).unwrap(),
        decimal("3.75")
    );
    assert!(matches!(
        rust_graph_db::executor::aggregate::aggregate_sum(&NoFloats, &args, &rows),
        Err(ExecutionError::InvalidExpression(_))
    ));
    assert_eq!(
        compare_in_filter(&NoFloats, &decimal("1.5"), &decimal("2.5")).unwrap(),
        Rank::Equal
    );
}

#[test]
fn arithmetic_is_plus_minus_and_times_only() {
    let f = NoFloats;
    for op in [
        BinaryOperator::Divide,
        BinaryOperator::Modulo,
        BinaryOperator::Eq,
        BinaryOperator::And,
        BinaryOperator::Lt,
    ] {
        assert!(matches!(
            rust_graph_db::executor::eval::arithmetic_op(&f, op, &whole(1), &whole(2)),
            Err(ExecutionError::UnsupportedOperation(_))
        ));
    }
    assert_eq!(
        rust_graph_db::executor::eval::arithmetic_op(&f, BinaryOperator::Add, &whole(1), &whole(2))
            .unwrap(),
        whole(3)
    );
}
