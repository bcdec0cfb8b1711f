use rust_graph_db::bytes::{
    append_bytes, bytes_eq, compare_bytes, copy_bytes, starts_with, str_eq, Rank,
};
use rust_graph_db::json::{Json, Member};
use rust_graph_db::storage::codec::{
    decode_edge, decode_vertex, edge_from_json, edge_to_json, encode_edge, encode_vertex,
    json_from_bytes, json_to_bytes, parse_number, vertex_from_json, vertex_to_json,
};
use rust_graph_db::storage::error::StorageError;
use rust_graph_db::text::{decimal_string, parse_decimal_str, push_decimal_text};
use rust_graph_db::tools::{ExportFormat, ExportOptions, ImportOptions, ImportStats};
use rust_graph_db::types::edge::Edge;
use rust_graph_db::types::graphid::Graphid;
use rust_graph_db::types::vertex::Vertex;

fn text(s: &str) -> Json {
    Json::Str(s.to_string())
}

fn object(members: Vec<(&str, Json)>) -> Json {
    let mut o = Json::empty_object();
    for (k, v) in members {
        o.set_member(k.to_string(), v);
    }
    o
}

fn names(path: Vec<&str>) -> Vec<String> {
    path.into_iter().map(String::from).collect()
}

#[test]
fn object_members_are_kept_in_key_order() {
    let o = object(vec![
        ("b", Json::Int(2)),
        ("a", Json::Int(1)),
        ("c", Json::Int(3)),
        ("B", Json::Int(4)),
    ]);
    assert_eq!(o.keys(), vec!["B", "a", "b", "c"]);
    let same = object(vec![
        ("c", Json::Int(3)),
        ("B", Json::Int(4)),
        ("b", Json::Int(2)),
        ("a", Json::Int(1)),
    ]);
    assert_eq!(o, same);
    assert!(o.same(&same));
    match &o {
        Json::Object(ms) => {
            let keys: Vec<&str> = ms.iter().map(|m| m.key.as_str()).collect();
            assert_eq!(keys, vec!["B", "a", "b", "c"]);
        }
        other => panic!("no object: {:?}", other),
    }
}

#[test]
fn object_get_set_remove() {
    let mut o = Json::empty_object();
    assert!(o.is_object());
    assert!(o.keys().is_empty());
    assert_eq!(o.get("a"), None);
    o.set_member("a".to_string(), Json::Int(1));
    o.set_member("b".to_string(), Json::Null);
    o.set_member("a".to_string(), Json::Bool(true));
    assert_eq!(o.get("a"), Some(&Json::Bool(true)));
    assert_eq!(o.get("b"), Some(&Json::Null));
    assert!(o.has("b"));
    assert!(!o.has("c"));
    assert_eq!(o.keys().len(), 2);
    assert_eq!(o.remove_member("a"), Some(Json::Bool(true)));
    assert_eq!(o.remove_member("a"), None);
    assert_eq!(o.keys(), vec!["b"]);

    let mut n = Json::Int(1);
    assert!(!n.is_object());
    assert_eq!(n.get("a"), None);
    assert_eq!(n.remove_member("a"), None);
    assert!(n.keys().is_empty());
    n.set_member("a".to_string(), Json::Int(2));
    assert_eq!(n, Json::Int(1));
}

#[test]
fn paths_lead_through_objects() {
    let o = object(vec![
        ("a", object(vec![("b", object(vec![("c", Json::Int(7))]))])),
        ("n", Json::Int(1)),
    ]);
    assert_eq!(o.get_path(&names(vec!["a", "b", "c"])), Some(&Json::Int(7)));
    assert_eq!(o.get_path(&names(vec![])), Some(&o));
    assert_eq!(o.get_path(&names(vec!["a", "x"])), None);
    assert_eq!(o.get_path(&names(vec!["n", "x"])), None);
}

#[test]
fn values_are_equal_by_what_they_hold() {
    assert_eq!(Json::Int(1), Json::Int(1));
    assert_ne!(Json::Int(1), Json::UInt(1));
    assert_ne!(Json::Int(1), Json::Float("1.0".to_string()));
    assert_ne!(Json::Null, Json::Bool(false));
    assert_eq!(
        Json::Array(vec![Json::Int(1), text("a")]),
        Json::Array(vec![Json::Int(1), text("a")])
    );
    assert_ne!(
        Json::Array(vec![Json::Int(1), text("a")]),
        Json::Array(vec![text("a"), Json::Int(1)])
    );
    assert_ne!(Json::Array(vec![]), Json::empty_object());
    let o = object(vec![("a", Json::Array(vec![Json::Null]))]);
    assert_eq!(o.clone(), o);
    let m = Member {
        key: "k".to_string(),
        value: Json::Int(1),
    };
    assert_eq!(m.clone().key, "k");
}

#[test]
fn json_is_written_as_compact_text() {
    let v = object(vec![
        ("s", text("a\"b\n")),
        ("n", Json::Null),
        ("t", Json::Bool(true)),
        ("i", Json::Int(-5)),
        ("u", Json::UInt(u64::MAX)),
        ("f", Json::Float("2.5".to_string())),
        ("l", Json::Array(vec![Json::Int(1), Json::Array(vec![])])),
        ("o", Json::empty_object()),
    ]);
    let bytes = json_to_bytes(&v).unwrap();
    assert_eq!(
        String::from_utf8(bytes.clone()).unwrap(),
        "{\"f\":2.5,\"i\":-5,\"l\":[1,[]],\"n\":null,\"o\":{},\"s\":\"a\\\"b\\n\",\"t\":true,\
         \"u\":18446744073709551615}"
    );
    assert_eq!(json_from_bytes(&bytes), Some(v));
    assert_eq!(json_to_bytes(&Json::Float("x".to_string())), None);
    assert_eq!(
        json_to_bytes(&Json::Array(vec![Json::Float("".to_string())])),
        None
    );
}

#[test]
fn json_is_read_from_text() {
    assert_eq!(json_from_bytes(b" null "), Some(Json::Null));
    assert_eq!(json_from_bytes(b"-3"), Some(Json::Int(-3)));
    assert_eq!(
        json_from_bytes(b"9223372036854775808"),
        Some(Json::UInt(9223372036854775808))
    );
    assert_eq!(
        json_from_bytes(b"1.50"),
        Some(Json::Float("1.5".to_string()))
    );
    assert_eq!(
        json_from_bytes(b"{\"b\": [true, \"x\"], \"a\": {}}"),
        Some(object(vec![
            ("a", Json::empty_object()),
            ("b", Json::Array(vec![Json::Bool(true), text("x")])),
        ]))
    );
    assert_eq!(
        json_from_bytes(b"{\"a\": 1, \"a\": 2}"),
        Some(object(vec![("a", Json::Int(2))]))
    );
    assert_eq!(json_from_bytes(b""), None);
    assert_eq!(json_from_bytes(b"{"), None);
    assert_eq!(json_from_bytes(b"[1,]"), None);
    assert_eq!(json_from_bytes(b"nul"), None);
    assert_eq!(json_from_bytes(b"1 2"), None);
    assert_eq!(json_from_bytes(&[0xff, 0xfe]), None);
}

#[test]
fn numbers_are_read_in_stored_form() {
    assert_eq!(parse_number("12"), Some(Json::Int(12)));
    assert_eq!(parse_number("-12"), Some(Json::Int(-12)));
    assert_eq!(parse_number("1.5"), Some(Json::Float("1.5".to_string())));
    assert_eq!(parse_number("1.50"), Some(Json::Float("1.5".to_string())));
    assert_eq!(parse_number("2e2"), Some(Json::Float("200.0".to_string())));
    assert_eq!(
        parse_number("18446744073709551615"),
        Some(Json::UInt(u64::MAX))
    );
    assert_eq!(parse_number(""), None);
    assert_eq!(parse_number("abc"), None);
    assert_eq!(parse_number("1."), None);
    assert_eq!(parse_number(".5"), None);
    assert_eq!(parse_number("01"), None);
}

#[test]
fn vertex_record_has_three_members() {
    let id = Graphid::new(2, 9).unwrap();
    let v = Vertex::new(id, "Person", object(vec![("k", Json::Int(1))]));
    let j = vertex_to_json(&v);
    assert_eq!(
        j,
        object(vec![
            ("id", text(&id.as_raw().to_string())),
            ("label", text("Person")),
            ("properties", object(vec![("k", Json::Int(1))])),
        ])
    );
    assert_eq!(vertex_from_json(&j), Some(v.clone()));
    let bytes = encode_vertex(&v).unwrap();
    assert_eq!(
        String::from_utf8(bytes.clone()).unwrap(),
        format!(
            "{{\"id\":\"{}\",\"label\":\"Person\",\"properties\":{{\"k\":1}}}}",
            id.as_raw()
        )
    );
    assert_eq!(decode_vertex(&bytes).unwrap(), v);
}

#[test]
fn edge_record_has_five_members() {
    let id = Graphid::new(3, 1).unwrap();
    let a = Graphid::new(1, 1).unwrap();
    let b = Graphid::new(1, 2).unwrap();
    let e = Edge::new(id, a, b, "KNOWS", Json::empty_object());
    let j = edge_to_json(&e);
    assert_eq!(
        j,
        object(vec![
            ("id", text(&id.as_raw().to_string())),
            ("start", text(&a.as_raw().to_string())),
            ("end", text(&b.as_raw().to_string())),
            ("label", text("KNOWS")),
            ("properties", Json::empty_object()),
        ])
    );
    assert_eq!(edge_from_json(&j), Some(e.clone()));
    let bytes = encode_edge(&e).unwrap();
    assert_eq!(decode_edge(&bytes).unwrap(), e);
    assert!(decode_vertex(&bytes).is_ok());
}

#[test]
fn records_that_do_not_read_back_are_refused() {
    let id = Graphid::new(1, 1).unwrap();
    let v = Vertex::new(id, "Person", object(vec![("w", Json::Float("1.50".to_string()))]));
    assert!(matches!(
        encode_vertex(&v),
        Err(StorageError::SerializationError(_))
    ));
    let v = Vertex::new(id, "Person", object(vec![("w", Json::Float("zz".to_string()))]));
    assert!(matches!(
        encode_vertex(&v),
        Err(StorageError::SerializationError(_))
    ));
    let v = Vertex::new(id, "Person", object(vec![("w", Json::UInt(3))]));
    assert!(matches!(
        encode_vertex(&v),
        Err(StorageError::SerializationError(_))
    ));
    let v = Vertex::new(id, "Person", object(vec![("w", Json::UInt(u64::MAX))]));
    assert_eq!(decode_vertex(&encode_vertex(&v).unwrap()).unwrap(), v);
}

#[test]
fn records_with_missing_or_wrong_members_are_refused() {
    assert!(decode_vertex(b"{\"id\":\"1\",\"label\":\"L\",\"properties\":{}}").is_ok());
    let bare = decode_vertex(b"{\"id\":\"1\",\"label\":\"L\"}").unwrap();
    assert_eq!(bare.properties, Json::Null);
    assert_eq!(bare.id, Graphid::from_raw(1));
    for bad in [
        &b"{\"label\":\"L\",\"properties\":{}}"[..],
        &b"{\"id\":1,\"label\":\"L\"}"[..],
        &b"{\"id\":\"x\",\"label\":\"L\"}"[..],
        &b"{\"id\":\"\",\"label\":\"L\"}"[..],
        &b"{\"id\":\"1\"}"[..],
        &b"{\"id\":\"1\",\"label\":5}"[..],
        &b"[]"[..],
        &b"null"[..],
    ] {
        assert!(matches!(
            decode_vertex(bad),
            Err(StorageError::SerializationError(_))
        ));
    }
    assert!(decode_edge(b"{\"id\":\"1\",\"label\":\"L\",\"start\":\"2\"}").is_err());
    assert!(
        decode_edge(b"{\"id\":\"1\",\"label\":\"L\",\"start\":\"2\",\"end\":\"3\"}").is_ok()
    );
}

#[test]
fn bytes_compare_as_strings_of_bytes() {
    assert_eq!(compare_bytes(b"", b""), Rank::Equal);
    assert_eq!(compare_bytes(b"", b"a"), Rank::Less);
    assert_eq!(compare_bytes(b"a", b""), Rank::Greater);
    assert_eq!(compare_bytes(b"ab", b"b"), Rank::Less);
    assert_eq!(compare_bytes(b"ab", b"a"), Rank::Greater);
    assert_eq!(compare_bytes(b"10", b"2"), Rank::Less);
    assert_eq!(compare_bytes(&[255], &[0, 255]), Rank::Greater);
    assert_eq!(Rank::Less.reverse(), Rank::Greater);
    assert_eq!(Rank::Greater.reverse(), Rank::Less);
    assert_eq!(Rank::Equal.reverse(), Rank::Equal);
    assert!(bytes_eq(b"abc", b"abc"));
    assert!(!bytes_eq(b"abc", b"abd"));
    assert!(!bytes_eq(b"abc", b"ab"));
    assert!(starts_with(b"abc", b""));
    assert!(starts_with(b"abc", b"ab"));
    assert!(starts_with(b"abc", b"abc"));
    assert!(!starts_with(b"abc", b"abcd"));
    assert!(!starts_with(b"abc", b"b"));
    assert!(str_eq("", ""));
    assert!(str_eq("héllo", "héllo"));
    assert!(!str_eq("hello", "hellO"));
    let mut v = b"ab".to_vec();
    append_bytes(&mut v, b"cd");
    append_bytes(&mut v, b"");
    assert_eq!(v, b"abcd".to_vec());
    assert_eq!(copy_bytes(b"xyz"), b"xyz".to_vec());
}

#[test]
fn decimal_text_of_numbers() {
    assert_eq!(decimal_string(0), "0");
    assert_eq!(decimal_string(7), "7");
    assert_eq!(decimal_string(10), "10");
    assert_eq!(decimal_string(281474976710655), "281474976710655");
    assert_eq!(decimal_string(u64::MAX), "18446744073709551615");
    let mut s = "n=".to_string();
    push_decimal_text(&mut s, 905);
    assert_eq!(s, "n=905");
    assert_eq!(parse_decimal_str("905"), Some(905));
    assert_eq!(parse_decimal_str("0"), Some(0));
    assert_eq!(parse_decimal_str("007"), Some(7));
    assert_eq!(parse_decimal_str(""), None);
    assert_eq!(parse_decimal_str("+1"), None);
    assert_eq!(parse_decimal_str("1 "), None);
    assert_eq!(parse_decimal_str("18446744073709551616"), None);
}

#[test]
fn options_have_their_defaults() {
    let e = ExportOptions::default();
    assert!(e.pretty_json);
    assert!(e.csv_header);
    assert_eq!(e.progress_interval, 10000);
    let i = ImportOptions::default();
    assert_eq!(i.batch_size, 1000);
    assert!(!i.skip_errors);
    assert_eq!(i.default_vertex_label, "Node");
    assert_eq!(i.default_edge_label, "RELATES_TO");
    assert_eq!(i.progress_interval, 10000);
    let mut s = ImportStats::default();
    assert_eq!(
        (
            s.vertices_imported,
            s.edges_imported,
            s.vertices_skipped,
            s.edges_skipped
        ),
        (0, 0, 0, 0)
    );
    assert!(s.errors.is_empty());
    s.add_error("first".to_string());
    s.add_error("second".to_string());
    assert_eq!(s.errors, vec!["first", "second"]);
    assert_ne!(ExportFormat::Csv, ExportFormat::Json);
    assert_eq!(ExportFormat::GraphMl, ExportFormat::GraphMl);
}
