use rust_graph_db::parser::ast::{
    BinaryOperator, CypherQuery, Direction, Expression, Literal, MatchClause, NodePattern, Pattern,
    PatternElement, ReturnClause, UnaryOperator, WriteClause,
};
use rust_graph_db::parser::lexer::{tokenize, ParseError, Token};
use rust_graph_db::parser::parse::{parse_cypher, CypherParser};

#[test]
fn test_pattern_creation() {
    let node = NodePattern::simple("n");
    let pattern = Pattern::node(node);

    assert_eq!(pattern.nodes().len(), 1);
    assert_eq!(pattern.edges().len(), 0);
}

#[test]
fn test_expression_helpers() {
    let var = Expression::var("x");
    assert!(matches!(var, Expression::Variable(_)));

    let int = Expression::integer(42);
    assert!(matches!(int, Expression::Literal(Literal::Integer(42))));

    let str_expr = Expression::string("hello");
    assert!(matches!(str_expr, Expression::Literal(Literal::String(_))));
}

#[test]
fn test_query_types() {
    let read_query = CypherQuery::Read {
        match_clause: MatchClause { patterns: vec![] },
        where_clause: None,
        return_clause: ReturnClause {
            items: vec![],
            order_by: None,
            limit: None,
        },
    };

    assert!(read_query.is_read_only());
    assert!(read_query.has_return());

    let write_query = CypherQuery::Write(WriteClause::Create { patterns: vec![] });
    assert!(!write_query.is_read_only());
    assert!(!write_query.has_return());
}

#[test]
fn test_parse_simple_match() {
    let query = "MATCH (n) RETURN n;";
    let result = parse_cypher(query);
    assert!(result.is_ok());

    let ast = result.unwrap();
    assert!(ast.has_return());
}

#[test]
fn test_parse_match_with_label() {
    let query = "MATCH (n:Person) RETURN n;";
    let result = parse_cypher(query);
    assert!(result.is_ok());
}

#[test]
fn test_parse_match_with_properties() {
    let query = "MATCH (n:Person {name: 'Alice'}) RETURN n;";
    let result = parse_cypher(query);
    assert!(result.is_ok());
}

#[test]
fn test_parse_create() {
    let query = "CREATE (n:Person {name: 'Bob'});";
    let result = parse_cypher(query);
    assert!(result.is_ok());

    let ast = result.unwrap();
    assert!(!ast.is_read_only());
}

#[test]
fn test_parse_match_edge() {
    let query = "MATCH (a)-[r:KNOWS]->(b) RETURN a, r, b;";
    let result = parse_cypher(query);
    assert!(result.is_ok());
}

#[test]
fn test_parse_delete() {
    let query = "MATCH (n:Person) DELETE n;";
    let result = parse_cypher(query);
    assert!(result.is_ok());
}

#[test]
fn test_parse_set() {
    let query = "MATCH (n:Person) SET n.age = 30;";
    let result = parse_cypher(query);
    assert!(result.is_ok());
}

#[test]
fn test_parse_set_nested_property() {
    let query = "MATCH (n:Person) SET n.address.city = 'Shanghai';";
    let result = parse_cypher(query);
    assert!(result.is_ok(), "Failed to parse: {:?}", result.err());

    if let Ok(CypherQuery::Mixed {
        write_clause: WriteClause::Assign { items },
        ..
    }) = result
    {
        assert_eq!(items.len(), 1);
        let item = &items[0];
        assert_eq!(item.property.base, "n");
        assert_eq!(item.property.properties, vec!["address", "city"]);
    } else {
        panic!("Expected Mixed query with SET clause");
    }
}

#[test]
fn test_parse_set_deep_nested_property() {
    let query = "MATCH (n:Person) SET n.contact.address.city = 'Beijing';";
    let result = parse_cypher(query);
    assert!(result.is_ok(), "Failed to parse: {:?}", result.err());

    if let Ok(CypherQuery::Mixed {
        write_clause: WriteClause::Assign { items },
        ..
    }) = result
    {
        assert_eq!(items.len(), 1);
        let item = &items[0];
        assert_eq!(item.property.base, "n");
        assert_eq!(item.property.properties, vec!["contact", "address", "city"]);
    } else {
        panic!("Expected Mixed query with SET clause");
    }
}

#[test]
fn test_parse_invalid_query() {
    let query = "INVALID QUERY";
    let result = parse_cypher(query);
    assert!(result.is_err());
}

fn parsed(query: &str) -> CypherQuery {
    parse_cypher(query).unwrap()
}

fn refused(query: &str) {
    match parse_cypher(query) {
        Err(ParseError::InvalidSyntax(_)) => {}
        other => panic!("{:?} should be no query, got {:?}", query, other),
    }
}

fn condition_of(query: &str) -> Expression {
    match parsed(query) {
        CypherQuery::Read {
            where_clause: Some(w),
            ..
        } => w.condition,
        other => panic!("expected a read query with WHERE, got {:?}", other),
    }
}

fn shape(e: &Expression) -> String {
    match e {
        Expression::Literal(Literal::Null) => "null".to_string(),
        Expression::Literal(Literal::Boolean(b)) => b.to_string(),
        Expression::Literal(Literal::Integer(i)) => i.to_string(),
        Expression::Literal(Literal::Float(t)) => format!("f{}", t),
        Expression::Literal(Literal::String(s)) => format!("'{}'", s),
        Expression::Literal(Literal::List(items)) => {
            let parts: Vec<String> = items.iter().map(shape).collect();
            format!("[{}]", parts.join(","))
        }
        Expression::Literal(Literal::Mapping(entries)) => {
            let parts: Vec<String> = entries
                .iter()
                .map(|m| format!("{}:{}", m.key, shape(&m.value)))
                .collect();
            format!("{{{}}}", parts.join(","))
        }
        Expression::Variable(v) => v.clone(),
        Expression::Parameter(p) => format!("${}", p),
        Expression::BinaryOp { left, op, right } => {
            format!("({} {:?} {})", shape(left), op, shape(right))
        }
        Expression::UnaryOp { op, expr } => format!("({:?} {})", op, shape(expr)),
        Expression::Property(p) => format!("{}.{}", p.base, p.properties.join(".")),
        Expression::Index { expr, index } => format!("{}[{}]", shape(expr), shape(index)),
        Expression::FunctionCall { name, args } => {
            let parts: Vec<String> = args.iter().map(shape).collect();
            format!("{}({})", name, parts.join(","))
        }
    }
}

fn where_shape(condition: &str) -> String {
    shape(&condition_of(&format!(
        "MATCH (n) WHERE {} RETURN n",
        condition
    )))
}

#[test]
fn operators_bind_in_the_usual_order() {
    assert_eq!(where_shape("1 + 2 * 3"), "(1 Add (2 Multiply 3))");
    assert_eq!(where_shape("1 - 2 - 3"), "((1 Subtract 2) Subtract 3)");
    assert_eq!(where_shape("8 / 4 % 3"), "((8 Divide 4) Modulo 3)");
    assert_eq!(where_shape("(1 + 2) * 3"), "((1 Add 2) Multiply 3)");
    assert_eq!(
        where_shape("a OR b AND NOT c"),
        "(a Or (b And (Not c)))"
    );
    assert_eq!(
        where_shape("a.x = 1 AND b.y.z <> 2"),
        "((a.x Eq 1) And (b.y.z Neq 2))"
    );
    assert_eq!(where_shape("a < b"), "(a Lt b)");
    assert_eq!(where_shape("a <= b"), "(a Lte b)");
    assert_eq!(where_shape("a > b"), "(a Gt b)");
    assert_eq!(where_shape("a >= b"), "(a Gte b)");
    assert_eq!(where_shape("-a + +b"), "((Minus a) Add (Plus b))");
    assert_eq!(where_shape("NOT NOT a"), "(Not (Not a))");
    assert_eq!(where_shape("a + 1 < b * 2"), "((a Add 1) Lt (b Multiply 2))");
}

#[test]
fn literals_of_every_kind() {
    assert_eq!(where_shape("null"), "null");
    assert_eq!(where_shape("NULL"), "null");
    assert_eq!(where_shape("true"), "true");
    assert_eq!(where_shape("False"), "false");
    assert_eq!(where_shape("42"), "42");
    assert_eq!(where_shape("9223372036854775807"), "9223372036854775807");
    assert_eq!(where_shape("1.5"), "f1.5");
    assert_eq!(where_shape("'it'"), "'it'");
    assert_eq!(where_shape("\"it's\""), "'it's'");
    assert_eq!(where_shape("''"), "''");
    assert_eq!(where_shape("[]"), "[]");
    assert_eq!(where_shape("[1, 'a', [x]]"), "[1,'a',[x]]");
    assert_eq!(where_shape("{}"), "{}");
    assert_eq!(where_shape("{a: 1, b: {c: x.y}}"), "{a:1,b:{c:x.y}}");
    assert_eq!(where_shape("$p"), "$p");
    assert_eq!(where_shape("count(*)"), "count()");
    assert_eq!(where_shape("f(a, 1 + 2)"), "f(a,(1 Add 2))");
    assert_eq!(where_shape("f()"), "f()");
}

#[test]
fn texts_that_are_no_query() {
    refused("");
    refused(";");
    refused("MATCH");
    refused("MATCH (n)");
    refused("MATCH (n) RETURN");
    refused("MATCH (n) RETURN n n");
    refused("MATCH (n) RETURN n;;");
    refused("MATCH (n) RETURN n; MATCH (m) RETURN m");
    refused("MATCH n RETURN n");
    refused("MATCH (n RETURN n");
    refused("MATCH (n) WHERE RETURN n");
    refused("MATCH (n) WHERE 1 + RETURN n");
    refused("MATCH (n) WHERE (1 RETURN n");
    refused("MATCH (n) WHERE 'open RETURN n");
    refused("MATCH (n) WHERE 99999999999999999999 RETURN n");
    refused("MATCH (n) WHERE a = b = c RETURN n");
    refused("MATCH (n) WHERE f(1).x RETURN n");
    refused("MATCH (n) RETURN n ORDER n");
    refused("MATCH (n) RETURN n ORDER BY");
    refused("MATCH (n) RETURN n LIMIT");
    refused("MATCH (n) RETURN n LIMIT x");
    refused("MATCH (n) RETURN n LIMIT 1 ORDER BY n");
    refused("MATCH (n) RETURN n AS");
    refused("MATCH (n)-[r]->RETURN n");
    refused("MATCH (n)-[r->(m) RETURN n");
    refused("MATCH (n {a 1}) RETURN n");
    refused("MATCH (n {a: 1,}) RETURN n");
    refused("MATCH (n:) RETURN n");
    refused("MATCH (match) RETURN n");
    refused("CREATE");
    refused("CREATE (n) RETURN n");
    refused("SET n = 1");
    refused("SET n.a 1");
    refused("DETACH (n)");
    refused("MATCH (n) DETACH n");
    refused("RETURN 1");
    refused("MATCH (n) RETURN n #");
    refused("MATCH (n) RETURN @n");
}

#[test]
fn keywords_are_taken_in_any_case() {
    let q = parsed("match (n:Person) where n.age > 1 return n order by n.age desc limit 3");
    match q {
        CypherQuery::Read {
            match_clause,
            where_clause,
            return_clause,
        } => {
            assert_eq!(match_clause.patterns.len(), 1);
            assert!(where_clause.is_some());
            assert_eq!(return_clause.items.len(), 1);
            let order = return_clause.order_by.unwrap();
            assert_eq!(order.len(), 1);
            assert!(!order[0].ascending);
            assert_eq!(return_clause.limit, Some(3));
        }
        other => panic!("expected a read query, got {:?}", other),
    }
    assert!(parse_cypher("Match (n) Detach Delete n").is_ok());
    assert!(CypherParser::parse("mAtCh (n) sEt n.a = 1;").is_ok());
}

#[test]
fn return_items_sorts_and_limit() {
    let q = parsed("MATCH (n) RETURN n, n.name AS name, count(*) ORDER BY n.a, n.b ASC, c DESC");
    match q {
        CypherQuery::Read { return_clause, .. } => {
            assert_eq!(return_clause.items.len(), 3);
            assert_eq!(return_clause.items[0].alias, None);
            assert_eq!(return_clause.items[1].alias, Some("name".to_string()));
            assert_eq!(shape(&return_clause.items[1].expression), "n.name");
            assert_eq!(shape(&return_clause.items[2].expression), "count()");
            let order = return_clause.order_by.unwrap();
            let flags: Vec<bool> = order.iter().map(|s| s.ascending).collect();
            assert_eq!(flags, vec![true, true, false]);
            assert_eq!(shape(&order[2].expression), "c");
            assert_eq!(return_clause.limit, None);
        }
        other => panic!("expected a read query, got {:?}", other),
    }
    match parsed("MATCH (n) RETURN n LIMIT 0") {
        CypherQuery::Read { return_clause, .. } => {
            assert_eq!(return_clause.limit, Some(0));
            assert!(return_clause.order_by.is_none());
        }
        other => panic!("expected a read query, got {:?}", other),
    }
}

#[test]
fn patterns_hold_nodes_and_edges_in_turn() {
    let q = parsed("MATCH (a:Person {name: 'A', age: 3})<-[r:KNOWS {w: 1}]-(b)-[]-(:City)--()-->(c) RETURN a");
    let pattern = match q {
        CypherQuery::Read { mut match_clause, .. } => match_clause.patterns.remove(0),
        other => panic!("expected a read query, got {:?}", other),
    };
    assert_eq!(pattern.elements.len(), 9);
    assert_eq!(pattern.nodes().len(), 5);
    assert_eq!(pattern.edges().len(), 4);
    match &pattern.elements[0] {
        PatternElement::Node(n) => {
            assert_eq!(n.variable, Some("a".to_string()));
            assert_eq!(n.label, Some("Person".to_string()));
            let props = n.properties.as_ref().unwrap();
            let keys: Vec<&str> = props.iter().map(|m| m.key.as_str()).collect();
            assert_eq!(keys, vec!["name", "age"]);
            assert_eq!(shape(&props[0].value), "'A'");
        }
        other => panic!("expected a node, got {:?}", other),
    }
    match &pattern.elements[1] {
        PatternElement::Edge(e) => {
            assert_eq!(e.variable, Some("r".to_string()));
            assert_eq!(e.label, Some("KNOWS".to_string()));
            assert_eq!(e.direction, Direction::Left);
            assert_eq!(e.properties.as_ref().unwrap().len(), 1);
        }
        other => panic!("expected an edge, got {:?}", other),
    }
    let directions: Vec<Direction> = pattern.edges().iter().map(|e| e.direction).collect();
    assert_eq!(
        directions,
        vec![
            Direction::Left,
            Direction::Both,
            Direction::Both,
            Direction::Right
        ]
    );
    match &pattern.elements[4] {
        PatternElement::Node(n) => {
            assert_eq!(n.variable, None);
            assert_eq!(n.label, Some("City".to_string()));
            assert!(n.properties.is_none());
        }
        other => panic!("expected a node, got {:?}", other),
    }
}

#[test]
fn the_three_kinds_of_query() {
    assert!(matches!(
        parsed("MATCH (n) RETURN n"),
        CypherQuery::Read { .. }
    ));
    assert!(matches!(
        parsed("CREATE (n), (m)-[:R]->(o)"),
        CypherQuery::Write(WriteClause::Create { .. })
    ));
    assert!(matches!(
        parsed("DELETE n, m"),
        CypherQuery::Write(WriteClause::Delete { detach: false, .. })
    ));
    assert!(matches!(
        parsed("DETACH DELETE n"),
        CypherQuery::Write(WriteClause::Delete { detach: true, .. })
    ));
    assert!(matches!(
        parsed("SET n.a = 1, n.b.c = n.a + 1"),
        CypherQuery::Write(WriteClause::Assign { .. })
    ));
    let mixed = parsed("MATCH (n), (m) WHERE n.a = m.a CREATE (n)-[:R]->(m) RETURN n");
    assert!(!mixed.is_read_only());
    assert!(mixed.has_return());
    match mixed {
        CypherQuery::Mixed {
            match_clause,
            where_clause,
            write_clause,
            return_clause,
        } => {
            assert_eq!(match_clause.patterns.len(), 2);
            assert!(where_clause.is_some());
            assert!(matches!(write_clause, WriteClause::Create { .. }));
            assert!(return_clause.is_some());
        }
        other => panic!("expected a mixed query, got {:?}", other),
    }
    let mixed = parsed("MATCH (n) DETACH DELETE n");
    assert!(!mixed.has_return());
    assert!(!parsed("SET n.a = 1").has_return());
}

#[test]
fn text_is_split_into_tokens() {
    let tokens = tokenize("MATCH (n:Person)-[r]->(m) WHERE n.age >= 1.5e3 AND m.name <> 'x y' RETURN $p;")
        .unwrap();
    let printed: Vec<String> = tokens.iter().map(|t| format!("{:?}", t)).collect();
    assert_eq!(
        printed,
        vec![
            "Ident(\"MATCH\")",
            "LParen",
            "Ident(\"n\")",
            "Colon",
            "Ident(\"Person\")",
            "RParen",
            "Minus",
            "LBracket",
            "Ident(\"r\")",
            "RBracket",
            "Minus",
            "Gt",
            "LParen",
            "Ident(\"m\")",
            "RParen",
            "Ident(\"WHERE\")",
            "Ident(\"n\")",
            "Dot",
            "Ident(\"age\")",
            "Gte",
            "Float(\"1.5e3\")",
            "Ident(\"AND\")",
            "Ident(\"m\")",
            "Dot",
            "Ident(\"name\")",
            "Neq",
            "Text(\"x y\")",
            "Ident(\"RETURN\")",
            "Param(\"p\")",
            "Semicolon",
        ]
    );
    assert!(tokenize("").unwrap().is_empty());
    assert!(tokenize(" \t\r\n ").unwrap().is_empty());
    assert!(matches!(
        tokenize("a ? b"),
        Err(ParseError::InvalidSyntax(_))
    ));
    assert!(matches!(
        tokenize("'never closed"),
        Err(ParseError::InvalidSyntax(_))
    ));
    assert!(matches!(tokenize("a_1 _b"), Err(ParseError::InvalidSyntax(_))));
    assert!(matches!(
        &tokenize("x9_y").unwrap()[0],
        Token::Ident(s) if s == "x9_y"
    ));
}

#[test]
fn tree_constructors() {
    let n = NodePattern::with_label("n", "Person");
    assert_eq!(n.variable, Some("n".to_string()));
    assert_eq!(n.label, Some("Person".to_string()));
    assert!(n.properties.is_none());
    let s = NodePattern::simple("m");
    assert_eq!(s.variable, Some("m".to_string()));
    assert_eq!(s.label, None);
    assert!(matches!(Expression::null(), Expression::Literal(Literal::Null)));
    assert!(matches!(
        Expression::bool(true),
        Expression::Literal(Literal::Boolean(true))
    ));
    assert_eq!(shape(&Expression::string("hello")), "'hello'");
    assert_eq!(shape(&Expression::var("x")), "x");
    let p = Pattern::with_edges(vec![PatternElement::Node(n), PatternElement::Node(s)]);
    assert_eq!(p.nodes().len(), 2);
    assert_eq!(BinaryOperator::Add, BinaryOperator::Add);
    assert!(UnaryOperator::Not != UnaryOperator::Minus);
}
