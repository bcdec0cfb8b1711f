use rust_graph_db::json::Json;
use rust_graph_db::storage::engine::GraphStore;
use rust_graph_db::storage::error::StorageError;
use rust_graph_db::storage::keys::{
    make_counter_key, make_edge_key, make_edge_prefix, make_incoming_key, make_incoming_prefix,
    make_label_key, make_label_prefix, make_outgoing_key, make_outgoing_prefix, make_vertex_key,
    make_vertex_prefix, parse_decimal, parse_index_key, push_decimal,
};
use rust_graph_db::storage::kv::{KvStore, MemoryKv, WriteOp};
use rust_graph_db::types::graphid::{Graphid, MAX_LOCID};

fn text(s: &str) -> Json {
    Json::Str(s.to_string())
}

fn object(members: Vec<(&str, Json)>) -> Json {
    let mut o = Json::empty_object();
    for (k, v) in members {
        o.set_member(k.to_string(), v);
    }
    o
}

fn named(name: &str) -> Json {
    object(vec![("name", text(name))])
}

fn create_test_storage() -> GraphStore<MemoryKv> {
    GraphStore::new(MemoryKv::new(), "test_graph")
}

#[test]
fn test_create_and_get_vertex() {
    let mut storage = create_test_storage();

    let vertex = storage
        .create_vertex(
            "Person",
            object(vec![("name", text("Alice")), ("age", Json::Int(30))]),
        )
        .unwrap();

    assert_eq!(vertex.label, "Person");
    assert_eq!(vertex.get_property("name"), Some(&text("Alice")));

    let retrieved = storage.get_vertex(vertex.id).unwrap();
    assert!(retrieved.is_some());
    assert_eq!(retrieved.unwrap().id, vertex.id);
}

#[test]
fn test_create_and_get_edge() {
    let mut storage = create_test_storage();

    let v1 = storage.create_vertex("Person", named("Alice")).unwrap();
    let v2 = storage.create_vertex("Person", named("Bob")).unwrap();

    let edge = storage
        .create_edge(
            "KNOWS",
            v1.id,
            v2.id,
            object(vec![("since", Json::Int(2020))]),
        )
        .unwrap();

    assert_eq!(edge.label, "KNOWS");
    assert_eq!(edge.start, v1.id);
    assert_eq!(edge.end, v2.id);

    let retrieved = storage.get_edge(edge.id).unwrap();
    assert!(retrieved.is_some());
    assert_eq!(retrieved.unwrap().id, edge.id);
}

#[test]
fn test_scan_vertices() {
    let mut storage = create_test_storage();

    storage.create_vertex("Person", named("Alice")).unwrap();
    storage.create_vertex("Person", named("Bob")).unwrap();
    storage.create_vertex("Company", named("ACME")).unwrap();

    let people = storage.scan_vertices("Person").unwrap();
    assert_eq!(people.len(), 2);

    let companies = storage.scan_vertices("Company").unwrap();
    assert_eq!(companies.len(), 1);
}

#[test]
fn test_outgoing_incoming_edges() {
    let mut storage = create_test_storage();

    let v1 = storage.create_vertex("Person", named("Alice")).unwrap();
    let v2 = storage.create_vertex("Person", named("Bob")).unwrap();
    let v3 = storage.create_vertex("Person", named("Carol")).unwrap();

    storage
        .create_edge("KNOWS", v1.id, v2.id, Json::empty_object())
        .unwrap();
    storage
        .create_edge("KNOWS", v1.id, v3.id, Json::empty_object())
        .unwrap();

    let outgoing = storage.get_outgoing_edges(v1.id).unwrap();
    assert_eq!(outgoing.len(), 2);

    let incoming = storage.get_incoming_edges(v2.id).unwrap();
    assert_eq!(incoming.len(), 1);
}

#[test]
fn rocksdb_store_test_delete_vertex_with_edges_fails() {
    let mut storage = create_test_storage();

    let v1 = storage.create_vertex("Person", named("Alice")).unwrap();
    let v2 = storage.create_vertex("Person", named("Bob")).unwrap();

    storage
        .create_edge("KNOWS", v1.id, v2.id, Json::empty_object())
        .unwrap();

    let result = storage.delete_vertex(v1.id);
    assert!(result.is_err());
    assert!(matches!(result, Err(StorageError::VertexHasEdges(_, _))));
}

#[test]
fn test_delete_edge() {
    let mut storage = create_test_storage();

    let v1 = storage.create_vertex("Person", named("Alice")).unwrap();
    let v2 = storage.create_vertex("Person", named("Bob")).unwrap();

    let edge = storage
        .create_edge("KNOWS", v1.id, v2.id, Json::empty_object())
        .unwrap();

    storage.delete_edge(edge.id).unwrap();

    let retrieved = storage.get_edge(edge.id).unwrap();
    assert!(retrieved.is_none());

    let outgoing = storage.get_outgoing_edges(v1.id).unwrap();
    assert_eq!(outgoing.len(), 0);
}

#[test]
fn test_transaction_commit() {
    let mut storage = create_test_storage();

    let mut tx = storage.begin_transaction().unwrap();

    let v1 = tx.create_vertex(&storage, "Person", named("Alice")).unwrap();
    let v2 = tx.create_vertex(&storage, "Person", named("Bob")).unwrap();

    tx.create_edge(
        &storage,
        "KNOWS",
        v1.id,
        v2.id,
        object(vec![("since", Json::Int(2020))]),
    )
    .unwrap();

    tx.commit(&mut storage).unwrap();

    let retrieved_v1 = storage.get_vertex(v1.id).unwrap();
    assert!(retrieved_v1.is_some());
    assert_eq!(
        retrieved_v1.unwrap().get_property("name"),
        Some(&text("Alice"))
    );
}

#[test]
fn test_transaction_rollback() {
    let storage = create_test_storage();

    let mut tx = storage.begin_transaction().unwrap();

    let v1 = tx.create_vertex(&storage, "Person", named("Alice")).unwrap();

    tx.rollback().unwrap();

    let retrieved = storage.get_vertex(v1.id).unwrap();
    assert!(retrieved.is_none());
}

#[test]
fn test_transaction_cannot_use_after_commit() {
    let mut storage = create_test_storage();

    let mut tx = storage.begin_transaction().unwrap();

    tx.commit(&mut storage).unwrap();

    let result = tx.create_vertex(&storage, "Person", named("Bob"));
    assert!(result.is_err());
}

#[test]
fn first_vertex_of_the_first_label_is_one_dot_one() {
    let mut storage = create_test_storage();
    let props = object(vec![("name", text("Alice")), ("age", Json::Int(30))]);
    let created = storage.create_vertex("Person", props.clone()).unwrap();
    assert_eq!(created.id.labid(), 1);
    assert_eq!(created.id.locid(), 1);

    let read = storage.get_vertex(created.id).unwrap().unwrap();
    assert_eq!(read.id.labid(), 1);
    assert_eq!(read.id.locid(), 1);
    assert_eq!(read.label, "Person");
    assert_eq!(read.properties, props);
    assert_eq!(read, created);
}

#[test]
fn vertex_with_an_edge_is_deleted_only_after_the_edge() {
    let mut storage = create_test_storage();
    let a = storage.create_vertex("Person", named("A")).unwrap();
    let b = storage.create_vertex("Person", named("B")).unwrap();
    let knows = storage
        .create_edge("KNOWS", a.id, b.id, Json::empty_object())
        .unwrap();

    match storage.delete_vertex(a.id) {
        Err(StorageError::VertexHasEdges(id, n)) => {
            assert_eq!(n, 1);
            assert_eq!(id, a.id.to_string());
        }
        other => panic!("expected VertexHasEdges, got {:?}", other),
    }
    assert!(storage.get_vertex(a.id).unwrap().is_some());
    assert!(matches!(
        storage.delete_vertex(b.id),
        Err(StorageError::VertexHasEdges(_, 1))
    ));

    storage.delete_edge(knows.id).unwrap();
    storage.delete_vertex(a.id).unwrap();
    assert!(storage.get_vertex(a.id).unwrap().is_none());
    assert!(storage.get_vertex(b.id).unwrap().is_some());
}

#[test]
fn identifiers_of_a_label_ascend_and_labels_are_numbered_in_turn() {
    let mut storage = create_test_storage();
    let p1 = storage.create_vertex("Person", named("a")).unwrap();
    let c1 = storage.create_vertex("Company", named("b")).unwrap();
    let p2 = storage.create_vertex("Person", named("c")).unwrap();
    let e1 = storage
        .create_edge("KNOWS", p1.id, p2.id, Json::empty_object())
        .unwrap();
    let p3 = storage.create_vertex("Person", named("d")).unwrap();

    assert_eq!((p1.id.labid(), p1.id.locid()), (1, 1));
    assert_eq!((c1.id.labid(), c1.id.locid()), (2, 1));
    assert_eq!((p2.id.labid(), p2.id.locid()), (1, 2));
    assert_eq!((e1.id.labid(), e1.id.locid()), (3, 1));
    assert_eq!((p3.id.labid(), p3.id.locid()), (1, 3));

    assert_eq!(storage.get_label_id("Person").unwrap(), Some(1));
    assert_eq!(storage.get_label_id("Company").unwrap(), Some(2));
    assert_eq!(storage.get_label_id("KNOWS").unwrap(), Some(3));
    assert_eq!(storage.get_label_id("Nobody").unwrap(), None);
}

#[test]
fn local_ordinals_are_not_issued_again_after_a_delete() {
    let mut storage = create_test_storage();
    let p1 = storage.create_vertex("Person", named("a")).unwrap();
    let p2 = storage.create_vertex("Person", named("b")).unwrap();
    storage.delete_vertex(p2.id).unwrap();
    storage.delete_vertex(p1.id).unwrap();
    let p3 = storage.create_vertex("Person", named("c")).unwrap();
    assert_eq!((p3.id.labid(), p3.id.locid()), (1, 3));
}

#[test]
fn scan_of_a_label_never_created_is_empty() {
    let mut storage = create_test_storage();
    assert!(storage.scan_vertices("Person").unwrap().is_empty());
    assert!(storage.scan_edges("KNOWS").unwrap().is_empty());
    storage.create_vertex("Person", named("a")).unwrap();
    assert!(storage.scan_vertices("Company").unwrap().is_empty());
    assert!(storage.scan_edges("Person").unwrap().is_empty());
}

#[test]
fn scans_come_in_key_order() {
    let mut storage = create_test_storage();
    let mut made = Vec::new();
    for i in 0..12 {
        made.push(
            storage
                .create_vertex("Person", object(vec![("n", Json::Int(i))]))
                .unwrap(),
        );
    }
    let scanned = storage.scan_vertices("Person").unwrap();
    assert_eq!(scanned.len(), 12);
    let locids: Vec<u64> = scanned.iter().map(|v| v.id.locid()).collect();
    assert_eq!(locids, vec![1, 10, 11, 12, 2, 3, 4, 5, 6, 7, 8, 9]);
    for v in &scanned {
        assert_eq!(v, &made[(v.id.locid() - 1) as usize]);
    }
}

#[test]
fn adjacency_lists_follow_the_index_keys() {
    let mut storage = create_test_storage();
    let a = storage.create_vertex("Person", named("a")).unwrap();
    let b = storage.create_vertex("Person", named("b")).unwrap();
    let c = storage.create_vertex("Person", named("c")).unwrap();
    let ab = storage
        .create_edge("KNOWS", a.id, b.id, Json::empty_object())
        .unwrap();
    let ac = storage
        .create_edge("LIKES", a.id, c.id, Json::empty_object())
        .unwrap();
    let ca = storage
        .create_edge("KNOWS", c.id, a.id, Json::empty_object())
        .unwrap();
    let aa = storage
        .create_edge("KNOWS", a.id, a.id, Json::empty_object())
        .unwrap();

    let out: Vec<Graphid> = storage
        .get_outgoing_edges(a.id)
        .unwrap()
        .iter()
        .map(|e| e.id)
        .collect();
    let mut expected = vec![ab.id, ac.id, aa.id];
    expected.sort_by_key(|id| id.as_raw().to_string());
    assert_eq!(out, expected);

    let inc: Vec<Graphid> = storage
        .get_incoming_edges(a.id)
        .unwrap()
        .iter()
        .map(|e| e.id)
        .collect();
    let mut expected = vec![ca.id, aa.id];
    expected.sort_by_key(|id| id.as_raw().to_string());
    assert_eq!(inc, expected);

    assert!(storage.get_outgoing_edges(b.id).unwrap().is_empty());
    assert_eq!(storage.get_incoming_edges(b.id).unwrap().len(), 1);
}

#[test]
fn deleted_edge_is_gone_from_record_and_both_indexes() {
    let mut storage = create_test_storage();
    let a = storage.create_vertex("Person", named("a")).unwrap();
    let b = storage.create_vertex("Person", named("b")).unwrap();
    let e = storage
        .create_edge("KNOWS", a.id, b.id, Json::empty_object())
        .unwrap();
    let keep = storage
        .create_edge("KNOWS", a.id, b.id, Json::empty_object())
        .unwrap();

    let ns = "test_graph";
    assert!(storage
        .kv
        .get(&make_outgoing_key(ns, a.id, e.id))
        .unwrap()
        .is_some());
    assert!(storage
        .kv
        .get(&make_incoming_key(ns, b.id, e.id))
        .unwrap()
        .is_some());

    storage.delete_edge(e.id).unwrap();

    assert!(storage.get_edge(e.id).unwrap().is_none());
    assert!(storage.kv.get(&make_edge_key(ns, e.id)).unwrap().is_none());
    assert!(storage
        .kv
        .get(&make_outgoing_key(ns, a.id, e.id))
        .unwrap()
        .is_none());
    assert!(storage
        .kv
        .get(&make_incoming_key(ns, b.id, e.id))
        .unwrap()
        .is_none());
    let left: Vec<Graphid> = storage
        .get_outgoing_edges(a.id)
        .unwrap()
        .iter()
        .map(|e| e.id)
        .collect();
    assert_eq!(left, vec![keep.id]);
    assert_eq!(storage.scan_edges("KNOWS").unwrap().len(), 1);
}

#[test]
fn deleting_what_is_not_there() {
    let mut storage = create_test_storage();
    let ghost = Graphid::new(4, 4).unwrap();
    assert!(matches!(
        storage.delete_edge(ghost),
        Err(StorageError::EdgeNotFound(_))
    ));
    assert!(storage.delete_vertex(ghost).is_ok());
    assert!(storage.get_vertex(ghost).unwrap().is_none());
    assert!(storage.get_edge(ghost).unwrap().is_none());
    assert_eq!(storage.kv.len(), 0);
}

#[test]
fn namespaces_do_not_see_each_other() {
    let mut first = GraphStore::new(MemoryKv::new(), "one");
    let a = first.create_vertex("Person", named("a")).unwrap();
    let kv = first.kv;
    let mut second = GraphStore::new(kv, "two");
    assert!(second.get_vertex(a.id).unwrap().is_none());
    assert!(second.scan_vertices("Person").unwrap().is_empty());
    let b = second.create_vertex("Person", named("b")).unwrap();
    assert_eq!(b.id, a.id);
    let first = GraphStore::new(second.kv, "one");
    assert_eq!(
        first.get_vertex(a.id).unwrap().unwrap().properties,
        named("a")
    );
}

#[test]
fn store_opened_again_continues_the_numbering() {
    let mut storage = create_test_storage();
    storage.create_vertex("Person", named("a")).unwrap();
    storage.create_vertex("Company", named("b")).unwrap();
    let mut again = GraphStore::new(storage.kv, "test_graph");
    let p = again.create_vertex("Person", named("c")).unwrap();
    let q = again.create_vertex("City", named("d")).unwrap();
    assert_eq!((p.id.labid(), p.id.locid()), (1, 2));
    assert_eq!((q.id.labid(), q.id.locid()), (3, 1));
}

#[test]
fn catalog_and_counter_values_are_little_endian() {
    let mut storage = create_test_storage();
    storage.create_vertex("Person", named("a")).unwrap();
    storage.create_vertex("Person", named("b")).unwrap();
    let ns = "test_graph";
    assert_eq!(
        storage.kv.get(&make_label_key(ns, "Person")).unwrap(),
        Some(vec![1u8, 0])
    );
    assert_eq!(
        storage.kv.get(&make_counter_key(ns, "Person")).unwrap(),
        Some(vec![2u8, 0, 0, 0, 0, 0, 0, 0])
    );
}

#[test]
fn vertex_record_is_json_with_a_decimal_identifier() {
    let mut storage = create_test_storage();
    let v = storage
        .create_vertex("Person", object(vec![("age", Json::Int(30))]))
        .unwrap();
    let bytes = storage
        .kv
        .get(&make_vertex_key("test_graph", v.id))
        .unwrap()
        .unwrap();
    let raw = v.id.as_raw();
    let expected = format!(
        "{{\"id\":\"{}\",\"label\":\"Person\",\"properties\":{{\"age\":30}}}}",
        raw
    );
    assert_eq!(String::from_utf8(bytes).unwrap(), expected);
}

#[test]
fn used_up_counter_fails_and_changes_nothing() {
    let mut kv = MemoryKv::new();
    kv.put(&make_label_key("g", "Person"), &[1, 0]);
    kv.put(&make_counter_key("g", "Person"), &MAX_LOCID.to_le_bytes());
    let mut storage = GraphStore::new(kv, "g");
    assert!(matches!(
        storage.create_vertex("Person", Json::empty_object()),
        Err(StorageError::CounterOverflow(_))
    ));
    assert_eq!(storage.kv.len(), 2);

    let mut tx = storage.begin_transaction().unwrap();
    assert!(matches!(
        tx.create_vertex(&storage, "Person", Json::empty_object()),
        Err(StorageError::CounterOverflow(_))
    ));
    assert_eq!(tx.staged_len(), 0);
}

#[test]
fn last_local_ordinal_is_still_issued() {
    let mut kv = MemoryKv::new();
    kv.put(&make_label_key("g", "Person"), &[1, 0]);
    kv.put(
        &make_counter_key("g", "Person"),
        &(MAX_LOCID - 1).to_le_bytes(),
    );
    let mut storage = GraphStore::new(kv, "g");
    let v = storage
        .create_vertex("Person", Json::empty_object())
        .unwrap();
    assert_eq!(v.id.locid(), MAX_LOCID);
    assert!(storage
        .create_vertex("Person", Json::empty_object())
        .is_err());
}

#[test]
fn used_up_label_ordinals_fail() {
    let mut kv = MemoryKv::new();
    kv.put(&make_label_key("g", "Last"), &[255, 255]);
    let mut storage = GraphStore::new(kv, "g");
    assert!(matches!(
        storage.create_vertex("Person", Json::empty_object()),
        Err(StorageError::CounterOverflow(_))
    ));
    assert_eq!(storage.kv.len(), 1);
}

#[test]
fn catalog_value_that_is_too_short_is_reported() {
    let mut kv = MemoryKv::new();
    kv.put(&make_label_key("g", "Person"), &[1]);
    let mut storage = GraphStore::new(kv, "g");
    assert!(matches!(
        storage.get_label_id("Person"),
        Err(StorageError::InvalidState(_))
    ));
    assert!(storage
        .create_vertex("Person", Json::empty_object())
        .is_err());
    assert!(storage.scan_vertices("Person").is_err());
    assert_eq!(storage.kv.len(), 1);
}

#[test]
fn record_that_is_no_json_is_a_serialization_error() {
    let mut kv = MemoryKv::new();
    let id = Graphid::new(1, 1).unwrap();
    kv.put(&make_vertex_key("g", id), b"not json");
    kv.put(&make_edge_key("g", id), b"{\"id\":\"1\"}");
    let storage = GraphStore::new(kv, "g");
    assert!(matches!(
        storage.get_vertex(id),
        Err(StorageError::SerializationError(_))
    ));
    assert!(matches!(
        storage.get_edge(id),
        Err(StorageError::SerializationError(_))
    ));
}

#[test]
fn keys_have_the_documented_shape() {
    let v = Graphid::new(3, 17).unwrap();
    let e = Graphid::new(5, 2).unwrap();
    assert_eq!(make_vertex_key("g", v), b"v:g:3:17".to_vec());
    assert_eq!(make_edge_key("g", e), b"e:g:5:2".to_vec());
    assert_eq!(make_vertex_prefix("g", 3), b"v:g:3:".to_vec());
    assert_eq!(make_edge_prefix("g", 5), b"e:g:5:".to_vec());
    assert_eq!(make_label_prefix("g"), b"l:g:".to_vec());
    assert_eq!(make_label_key("g", "Person"), b"l:g:Person".to_vec());
    assert_eq!(make_counter_key("g", "Person"), b"c:g:Person".to_vec());
    let out = format!("o:g:{}:{}", v.as_raw(), e.as_raw());
    let inc = format!("i:g:{}:{}", v.as_raw(), e.as_raw());
    assert_eq!(make_outgoing_key("g", v, e), out.into_bytes());
    assert_eq!(make_incoming_key("g", v, e), inc.into_bytes());
    let prefix = format!("o:g:{}:", v.as_raw());
    assert_eq!(make_outgoing_prefix("g", v), prefix.into_bytes());
    let prefix = format!("i:g:{}:", v.as_raw());
    assert_eq!(make_incoming_prefix("g", v), prefix.into_bytes());
    assert_eq!(v.as_raw(), (3u64 << 48) | 17);
}

#[test]
fn index_key_gives_back_the_edge() {
    let v = Graphid::new(3, 17).unwrap();
    let e = Graphid::new(5, 2).unwrap();
    let key = make_outgoing_key("g", v, e);
    let prefix = make_outgoing_prefix("g", v);
    assert_eq!(parse_index_key(&key, &prefix), Some(e));
    assert_eq!(parse_index_key(&prefix, &prefix), None);
    assert_eq!(parse_index_key(b"o:g:1:x", b"o:g:1:"), None);
    assert_eq!(parse_index_key(b"i:g:1:5", b"o:g:1:"), None);
}

#[test]
fn decimals_are_written_and_read() {
    let mut out = Vec::new();
    push_decimal(&mut out, 0);
    assert_eq!(out, b"0".to_vec());
    let mut out = b"x".to_vec();
    push_decimal(&mut out, 1234567890);
    assert_eq!(out, b"x1234567890".to_vec());
    let mut out = Vec::new();
    push_decimal(&mut out, u64::MAX);
    assert_eq!(out, b"18446744073709551615".to_vec());

    assert_eq!(parse_decimal(b"0"), Some(0));
    assert_eq!(parse_decimal(b"18446744073709551615"), Some(u64::MAX));
    assert_eq!(parse_decimal(b"18446744073709551616"), None);
    assert_eq!(parse_decimal(b""), None);
    assert_eq!(parse_decimal(b"12a"), None);
    assert_eq!(parse_decimal(b"-1"), None);
}

#[test]
fn memory_store_scans_a_prefix_in_key_order() {
    let mut kv = MemoryKv::new();
    kv.put(b"b:2", b"two");
    kv.put(b"a:1", b"one");
    kv.put(b"b:10", b"ten");
    kv.put(b"b:1", b"uno");
    kv.put(b"c", b"");
    kv.put(b"b:2", b"zwei");
    assert_eq!(kv.len(), 5);
    let found: Vec<(Vec<u8>, Vec<u8>)> = kv
        .scan_prefix(b"b:")
        .unwrap()
        .into_iter()
        .map(|e| (e.key, e.value))
        .collect();
    assert_eq!(
        found,
        vec![
            (b"b:1".to_vec(), b"uno".to_vec()),
            (b"b:10".to_vec(), b"ten".to_vec()),
            (b"b:2".to_vec(), b"zwei".to_vec()),
        ]
    );
    assert_eq!(kv.scan_prefix(b"").unwrap().len(), 5);
    assert!(kv.scan_prefix(b"d").unwrap().is_empty());
    kv.delete(b"b:10");
    kv.delete(b"nothing");
    assert_eq!(kv.get(b"b:10").unwrap(), None);
    assert_eq!(kv.get(b"b:2").unwrap(), Some(b"zwei".to_vec()));
    assert_eq!(kv.len(), 4);
}

#[test]
fn batch_is_applied_in_order() {
    let mut kv = MemoryKv::new();
    let ops = vec![
        WriteOp::Put {
            key: b"k".to_vec(),
            value: b"1".to_vec(),
        },
        WriteOp::Delete { key: b"k".to_vec() },
        WriteOp::Put {
            key: b"k".to_vec(),
            value: b"2".to_vec(),
        },
        WriteOp::Put {
            key: b"j".to_vec(),
            value: b"3".to_vec(),
        },
        WriteOp::Delete { key: b"j".to_vec() },
    ];
    kv.write_batch(&ops).unwrap();
    assert_eq!(kv.get(b"k").unwrap(), Some(b"2".to_vec()));
    assert_eq!(kv.get(b"j").unwrap(), None);
    assert_eq!(kv.len(), 1);
}

#[test]
fn lists_after_a_delete_are_the_lists_before_without_the_edge() {
    let mut storage = create_test_storage();
    let a = storage.create_vertex("Person", named("a")).unwrap();
    let b = storage.create_vertex("Person", named("b")).unwrap();
    let mut made = Vec::new();
    for _ in 0..12 {
        made.push(
            storage
                .create_edge("KNOWS", a.id, b.id, Json::empty_object())
                .unwrap(),
        );
    }
    let out0 = storage.get_outgoing_edges(a.id).unwrap();
    let in0 = storage.get_incoming_edges(b.id).unwrap();
    let scan0 = storage.scan_edges("KNOWS").unwrap();
    assert_eq!(out0.len(), 12);
    for e in &made {
        assert_eq!(out0.iter().filter(|m| *m == e).count(), 1);
        assert_eq!(in0.iter().filter(|m| *m == e).count(), 1);
    }
    assert!(out0.iter().all(|m| m.start == a.id));
    assert!(in0.iter().all(|m| m.end == b.id));

    let gone = made[4].clone();
    storage.delete_edge(gone.id).unwrap();

    let without = |l: &Vec<rust_graph_db::types::edge::Edge>| -> Vec<rust_graph_db::types::edge::Edge> {
        l.iter().filter(|m| m.id != gone.id).cloned().collect()
    };
    assert_eq!(storage.get_outgoing_edges(a.id).unwrap(), without(&out0));
    assert_eq!(storage.get_incoming_edges(b.id).unwrap(), without(&in0));
    assert_eq!(storage.scan_edges("KNOWS").unwrap(), without(&scan0));
    assert_eq!(storage.get_edge(gone.id).unwrap(), None);
}
