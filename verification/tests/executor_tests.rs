use rust_graph_db::bytes::Rank;
use rust_graph_db::executor::floats::FloatOps;
use rust_graph_db::executor::query::QueryExecutor;
use rust_graph_db::executor::value::{Row, RowValue};
use rust_graph_db::parser::ast::{BinaryOperator, Expression, ReturnClause, ReturnItem, SortItem};
use rust_graph_db::storage::engine::GraphStore;
use rust_graph_db::storage::kv::MemoryKv;

struct NativeFloats;

fn number(text: &str) -> Option<f64> {
    text.parse::<f64>().ok()
}

impl FloatOps for NativeFloats {
    fn arith(&self, op: BinaryOperator, a: &str, b: &str) -> Option<String> {
        let x = number(a)?;
        let y = number(b)?;
        let r = match op {
            BinaryOperator::Add => x + y,
            BinaryOperator::Subtract => x - y,
            BinaryOperator::Multiply => x * y,
            BinaryOperator::Divide => x / y,
            _ => return None,
        };
        if r.is_finite() {
            Some(format!("{:?}", r))
        } else {
            None
        }
    }

    fn compare(&self, a: &str, b: &str) -> Option<Rank> {
        let x = number(a)?;
        let y = number(b)?;
        if x < y {
            Some(Rank::Less)
        } else if x > y {
            Some(Rank::Greater)
        } else if x == y {
            Some(Rank::Equal)
        } else {
            None
        }
    }

    fn near(&self, a: &str, b: &str) -> bool {
        match (number(a), number(b)) {
            (Some(x), Some(y)) => (x - y).abs() < f64::EPSILON,
            _ => false,
        }
    }

    fn is_zero(&self, a: &str) -> bool {
        number(a) == Some(0.0)
    }
}

fn create_test_executor() -> QueryExecutor<MemoryKv, NativeFloats> {
    QueryExecutor::new(GraphStore::new(MemoryKv::new(), "test_graph"), NativeFloats)
}

fn float_value(x: f64) -> RowValue {
    RowValue::Float(format!("{:?}", x))
}

fn variable(name: &str) -> Expression {
    Expression::Variable(name.to_string())
}

#[test]
fn test_value_conversions() {
    let v = RowValue::Integer(42);
    assert_eq!(v.as_i64().unwrap(), 42);

    let v = RowValue::String("hello".to_string());
    assert_eq!(v.as_string().unwrap(), "hello");

    let v = RowValue::Boolean(true);
    assert!(v.as_bool().unwrap());
}

#[test]
fn test_row_operations() {
    let row = Row::new()
        .with_binding("x", RowValue::Integer(42))
        .with_binding("y", RowValue::String("hello".to_string()));

    assert_eq!(row.get("x"), Some(&RowValue::Integer(42)));
    assert_eq!(row.get("y"), Some(&RowValue::String("hello".to_string())));
    assert_eq!(row.get("z"), None);
}


#[test]
fn test_order_by_integer_asc() {
    let executor = create_test_executor();

    let mut rows = vec![
        Row::new().with_binding("age", RowValue::Integer(30)),
        Row::new().with_binding("age", RowValue::Integer(25)),
        Row::new().with_binding("age", RowValue::Integer(35)),
    ];

    let sort_items = vec![SortItem {
        expression: variable("age"),
        ascending: true,
    }];

    executor.apply_order_by(&mut rows, &sort_items).unwrap();

    assert_eq!(rows[0].get("age"), Some(&RowValue::Integer(25)));
    assert_eq!(rows[1].get("age"), Some(&RowValue::Integer(30)));
    assert_eq!(rows[2].get("age"), Some(&RowValue::Integer(35)));
}

#[test]
fn test_order_by_integer_desc() {
    let executor = create_test_executor();

    let mut rows = vec![
        Row::new().with_binding("age", RowValue::Integer(30)),
        Row::new().with_binding("age", RowValue::Integer(25)),
        Row::new().with_binding("age", RowValue::Integer(35)),
    ];

    let sort_items = vec![SortItem {
        expression: variable("age"),
        ascending: false,
    }];

    executor.apply_order_by(&mut rows, &sort_items).unwrap();

    assert_eq!(rows[0].get("age"), Some(&RowValue::Integer(35)));
    assert_eq!(rows[1].get("age"), Some(&RowValue::Integer(30)));
    assert_eq!(rows[2].get("age"), Some(&RowValue::Integer(25)));
}

#[test]
fn test_order_by_string() {
    let executor = create_test_executor();

    let mut rows = vec![
        Row::new().with_binding("name", RowValue::String("Charlie".to_string())),
        Row::new().with_binding("name", RowValue::String("Alice".to_string())),
        Row::new().with_binding("name", RowValue::String("Bob".to_string())),
    ];

    let sort_items = vec![SortItem {
        expression: variable("name"),
        ascending: true,
    }];

    executor.apply_order_by(&mut rows, &sort_items).unwrap();

    assert_eq!(rows[0].get("name"), Some(&RowValue::String("Alice".to_string())));
    assert_eq!(rows[1].get("name"), Some(&RowValue::String("Bob".to_string())));
    assert_eq!(rows[2].get("name"), Some(&RowValue::String("Charlie".to_string())));
}

#[test]
fn test_order_by_with_nulls() {
    let executor = create_test_executor();

    let mut rows = vec![
        Row::new().with_binding("age", RowValue::Integer(30)),
        Row::new().with_binding("age", RowValue::Null),
        Row::new().with_binding("age", RowValue::Integer(25)),
    ];

    let sort_items = vec![SortItem {
        expression: variable("age"),
        ascending: true,
    }];

    executor.apply_order_by(&mut rows, &sort_items).unwrap();
    assert_eq!(rows[0].get("age"), Some(&RowValue::Integer(25)));
    assert_eq!(rows[1].get("age"), Some(&RowValue::Integer(30)));
    assert_eq!(rows[2].get("age"), Some(&RowValue::Null));
}

#[test]
fn test_order_by_multiple_columns() {
    let executor = create_test_executor();

    let mut rows = vec![
        Row::new()
            .with_binding("city", RowValue::String("Beijing".to_string()))
            .with_binding("age", RowValue::Integer(30)),
        Row::new()
            .with_binding("city", RowValue::String("Beijing".to_string()))
            .with_binding("age", RowValue::Integer(25)),
        Row::new()
            .with_binding("city", RowValue::String("Shanghai".to_string()))
            .with_binding("age", RowValue::Integer(28)),
    ];
    let sort_items = vec![
        SortItem {
            expression: variable("city"),
            ascending: true,
        },
        SortItem {
            expression: variable("age"),
            ascending: true,
        },
    ];

    executor.apply_order_by(&mut rows, &sort_items).unwrap();
    assert_eq!(rows[0].get("city"), Some(&RowValue::String("Beijing".to_string())));
    assert_eq!(rows[0].get("age"), Some(&RowValue::Integer(25)));
    assert_eq!(rows[1].get("city"), Some(&RowValue::String("Beijing".to_string())));
    assert_eq!(rows[1].get("age"), Some(&RowValue::Integer(30)));
    assert_eq!(rows[2].get("city"), Some(&RowValue::String("Shanghai".to_string())));
}

#[test]
fn test_limit() {
    let executor = create_test_executor();

    let mut rows = vec![
        Row::new().with_binding("n", RowValue::Integer(1)),
        Row::new().with_binding("n", RowValue::Integer(2)),
        Row::new().with_binding("n", RowValue::Integer(3)),
        Row::new().with_binding("n", RowValue::Integer(4)),
        Row::new().with_binding("n", RowValue::Integer(5)),
    ];

    let return_clause = ReturnClause {
        items: vec![ReturnItem {
            expression: variable("n"),
            alias: None,
        }],
        order_by: None,
        limit: Some(3),
    };

    executor.apply_return(&mut rows, &return_clause).unwrap();

    assert_eq!(rows.len(), 3);
    assert_eq!(rows[0].get("n"), Some(&RowValue::Integer(1)));
    assert_eq!(rows[1].get("n"), Some(&RowValue::Integer(2)));
    assert_eq!(rows[2].get("n"), Some(&RowValue::Integer(3)));
}

#[test]
fn test_order_by_and_limit() {
    let executor = create_test_executor();

    let mut rows = vec![
        Row::new().with_binding("age", RowValue::Integer(30)),
        Row::new().with_binding("age", RowValue::Integer(25)),
        Row::new().with_binding("age", RowValue::Integer(35)),
        Row::new().with_binding("age", RowValue::Integer(20)),
        Row::new().with_binding("age", RowValue::Integer(40)),
    ];
    let return_clause = ReturnClause {
        items: vec![ReturnItem {
            expression: variable("age"),
            alias: None,
        }],
        order_by: Some(vec![SortItem {
            expression: variable("age"),
            ascending: false,
        }]),
        limit: Some(3),
    };

    executor.apply_return(&mut rows, &return_clause).unwrap();

    assert_eq!(rows.len(), 3);
    assert_eq!(rows[0].get("age"), Some(&RowValue::Integer(40)));
    assert_eq!(rows[1].get("age"), Some(&RowValue::Integer(35)));
    assert_eq!(rows[2].get("age"), Some(&RowValue::Integer(30)));
}

#[test]
fn test_aggregate_count_all() {
    let executor = create_test_executor();

    let rows = vec![
        Row::new().with_binding("n", RowValue::Integer(1)),
        Row::new().with_binding("n", RowValue::Integer(2)),
        Row::new().with_binding("n", RowValue::Integer(3)),
    ];
    let result = executor.aggregate_count(&vec![], &rows).unwrap();
    assert_eq!(result, RowValue::Integer(3));
}

#[test]
fn test_aggregate_count_expr() {
    let executor = create_test_executor();

    let rows = vec![
        Row::new().with_binding("n", RowValue::Integer(1)),
        Row::new().with_binding("n", RowValue::Null),
        Row::new().with_binding("n", RowValue::Integer(3)),
    ];
    let result = executor.aggregate_count(
        &vec![variable("n")],
        &rows,
    ).unwrap();
    assert_eq!(result, RowValue::Integer(2));
}

#[test]
fn test_aggregate_sum_integers() {
    let executor = create_test_executor();

    let rows = vec![
        Row::new().with_binding("n", RowValue::Integer(10)),
        Row::new().with_binding("n", RowValue::Integer(20)),
        Row::new().with_binding("n", RowValue::Integer(30)),
    ];

    let result = executor.aggregate_sum(
        &vec![variable("n")],
        &rows,
    ).unwrap();
    assert_eq!(result, RowValue::Integer(60));
}

#[test]
fn test_aggregate_sum_floats() {
    let executor = create_test_executor();

    let rows = vec![
        Row::new().with_binding("n", float_value(1.5)),
        Row::new().with_binding("n", float_value(2.5)),
        Row::new().with_binding("n", float_value(3.0)),
    ];

    let result = executor.aggregate_sum(
        &vec![variable("n")],
        &rows,
    ).unwrap();
    assert_eq!(result, float_value(7.0));
}

#[test]
fn test_aggregate_sum_with_nulls() {
    let executor = create_test_executor();

    let rows = vec![
        Row::new().with_binding("n", RowValue::Integer(10)),
        Row::new().with_binding("n", RowValue::Null),
        Row::new().with_binding("n", RowValue::Integer(30)),
    ];

    let result = executor.aggregate_sum(
        &vec![variable("n")],
        &rows,
    ).unwrap();
    assert_eq!(result, RowValue::Integer(40));
}

#[test]
fn test_aggregate_avg() {
    let executor = create_test_executor();

    let rows = vec![
        Row::new().with_binding("n", RowValue::Integer(10)),
        Row::new().with_binding("n", RowValue::Integer(20)),
        Row::new().with_binding("n", RowValue::Integer(30)),
    ];

    let result = executor.aggregate_avg(
        &vec![variable("n")],
        &rows,
    ).unwrap();
    assert_eq!(result, float_value(20.0));
}

#[test]
fn test_aggregate_avg_with_nulls() {
    let executor = create_test_executor();

    let rows = vec![
        Row::new().with_binding("n", RowValue::Integer(10)),
        Row::new().with_binding("n", RowValue::Null),
        Row::new().with_binding("n", RowValue::Integer(20)),
    ];
    let result = executor.aggregate_avg(
        &vec![variable("n")],
        &rows,
    ).unwrap();
    assert_eq!(result, float_value(15.0));
}

#[test]
fn test_aggregate_min_integers() {
    let executor = create_test_executor();

    let rows = vec![
        Row::new().with_binding("n", RowValue::Integer(30)),
        Row::new().with_binding("n", RowValue::Integer(10)),
        Row::new().with_binding("n", RowValue::Integer(20)),
    ];

    let result = executor.aggregate_min(
        &vec![variable("n")],
        &rows,
    ).unwrap();
    assert_eq!(result, RowValue::Integer(10));
}

#[test]
fn test_aggregate_min_strings() {
    let executor = create_test_executor();

    let rows = vec![
        Row::new().with_binding("name", RowValue::String("Charlie".to_string())),
        Row::new().with_binding("name", RowValue::String("Alice".to_string())),
        Row::new().with_binding("name", RowValue::String("Bob".to_string())),
    ];

    let result = executor.aggregate_min(
        &vec![variable("name")],
        &rows,
    ).unwrap();
    assert_eq!(result, RowValue::String("Alice".to_string()));
}

#[test]
fn test_aggregate_max_integers() {
    let executor = create_test_executor();

    let rows = vec![
        Row::new().with_binding("n", RowValue::Integer(30)),
        Row::new().with_binding("n", RowValue::Integer(10)),
        Row::new().with_binding("n", RowValue::Integer(20)),
    ];

    let result = executor.aggregate_max(
        &vec![variable("n")],
        &rows,
    ).unwrap();
    assert_eq!(result, RowValue::Integer(30));
}

#[test]
fn test_aggregate_max_with_nulls() {
    let executor = create_test_executor();

    let rows = vec![
        Row::new().with_binding("n", RowValue::Integer(10)),
        Row::new().with_binding("n", RowValue::Null),
        Row::new().with_binding("n", RowValue::Integer(30)),
    ];
    let result = executor.aggregate_max(
        &vec![variable("n")],
        &rows,
    ).unwrap();
    assert_eq!(result, RowValue::Integer(30));
}

#[test]
fn test_aggregate_empty_rows() {
    let executor = create_test_executor();

    let rows: Vec<Row> = vec![];
    let result = executor.aggregate_count(&vec![], &rows).unwrap();
    assert_eq!(result, RowValue::Integer(0));
    let sum = executor.aggregate_sum(
        &vec![variable("n")],
        &rows,
    ).unwrap();
    assert_eq!(sum, RowValue::Null);

    let avg = executor.aggregate_avg(
        &vec![variable("n")],
        &rows,
    ).unwrap();
    assert_eq!(avg, RowValue::Null);

    let min = executor.aggregate_min(
        &vec![variable("n")],
        &rows,
    ).unwrap();
    assert_eq!(min, RowValue::Null);

    let max = executor.aggregate_max(
        &vec![variable("n")],
        &rows,
    ).unwrap();
    assert_eq!(max, RowValue::Null);
}

#[test]
fn test_apply_return_with_count() {
    let executor = create_test_executor();

    let mut rows = vec![
        Row::new().with_binding("n", RowValue::Integer(1)),
        Row::new().with_binding("n", RowValue::Integer(2)),
        Row::new().with_binding("n", RowValue::Integer(3)),
    ];
    let return_clause = ReturnClause {
        items: vec![ReturnItem {
            expression: Expression::FunctionCall {
                name: "COUNT".to_string(),
                args: vec![],
            },
            alias: Some("count".to_string()),
        }],
        order_by: None,
        limit: None,
    };

    executor.apply_return(&mut rows, &return_clause).unwrap();
    assert_eq!(rows.len(), 1);
    assert_eq!(rows[0].get("count"), Some(&RowValue::Integer(3)));
}

#[test]
fn test_apply_return_with_multiple_aggregates() {
    let executor = create_test_executor();

    let mut rows = vec![
        Row::new().with_binding("age", RowValue::Integer(20)),
        Row::new().with_binding("age", RowValue::Integer(30)),
        Row::new().with_binding("age", RowValue::Integer(40)),
    ];
    let return_clause = ReturnClause {
        items: vec![
            ReturnItem {
                expression: Expression::FunctionCall {
                    name: "COUNT".to_string(),
                    args: vec![],
                },
                alias: Some("cnt".to_string()),
            },
            ReturnItem {
                expression: Expression::FunctionCall {
                    name: "SUM".to_string(),
                    args: vec![variable("age")],
                },
                alias: Some("total".to_string()),
            },
            ReturnItem {
                expression: Expression::FunctionCall {
                    name: "AVG".to_string(),
                    args: vec![variable("age")],
                },
                alias: Some("average".to_string()),
            },
        ],
        order_by: None,
        limit: None,
    };

    executor.apply_return(&mut rows, &return_clause).unwrap();

    assert_eq!(rows.len(), 1);
    assert_eq!(rows[0].get("cnt"), Some(&RowValue::Integer(3)));
    assert_eq!(rows[0].get("total"), Some(&RowValue::Integer(90)));
    assert_eq!(rows[0].get("average"), Some(&float_value(30.0)));
}
