use rust_graph_db::json::Json;
use rust_graph_db::storage::engine::GraphStore;
use rust_graph_db::storage::error::StorageError;
use rust_graph_db::storage::keys::{make_counter_key, make_label_key, make_vertex_key};
use rust_graph_db::storage::kv::{Entry, KvStore, MemoryKv, WriteOp};
use rust_graph_db::storage::transaction::GraphTransaction;
use rust_graph_db::types::graphid::Graphid;

fn text(s: &str) -> Json {
    Json::Str(s.to_string())
}

fn named(name: &str) -> Json {
    let mut o = Json::empty_object();
    o.set_member("name".to_string(), text(name));
    o
}

fn new_store() -> GraphStore<MemoryKv> {
    GraphStore::new(MemoryKv::new(), "g")
}

struct FlakyKv {
    inner: MemoryKv,
    reads_fail: bool,
    writes_fail: bool,
}

impl KvStore for FlakyKv {
    fn get(&self, key: &[u8]) -> Result<Option<Vec<u8>>, StorageError> {
        if self.reads_fail {
            Err(StorageError::DatabaseError("read refused".to_string()))
        } else {
            self.inner.get(key)
        }
    }

    fn scan_prefix(&self, prefix: &[u8]) -> Result<Vec<Entry>, StorageError> {
        if self.reads_fail {
            Err(StorageError::DatabaseError("scan refused".to_string()))
        } else {
            self.inner.scan_prefix(prefix)
        }
    }

    fn write_batch(&mut self, ops: &Vec<WriteOp>) -> Result<(), StorageError> {
        if self.writes_fail {
            Err(StorageError::DatabaseError("write refused".to_string()))
        } else {
            self.inner.write_batch(ops)
        }
    }
}

fn flaky() -> GraphStore<FlakyKv> {
    GraphStore::new(
        FlakyKv {
            inner: MemoryKv::new(),
            reads_fail: false,
            writes_fail: false,
        },
        "g",
    )
}

#[test]
fn nothing_staged_is_seen_before_commit_and_all_of_it_after() {
    let mut store = new_store();
    let mut tx = store.begin_transaction().unwrap();
    let a = tx.create_vertex(&store, "Person", named("a")).unwrap();
    let b = tx.create_vertex(&store, "Person", named("b")).unwrap();
    let e = tx
        .create_edge(&store, "KNOWS", a.id, b.id, Json::empty_object())
        .unwrap();
    assert!(tx.staged_len() > 0);

    assert_eq!(store.kv.len(), 0);
    assert!(store.get_vertex(a.id).unwrap().is_none());
    assert!(tx.get_vertex(&store, a.id).unwrap().is_none());
    assert!(tx.get_edge(&store, e.id).unwrap().is_none());
    assert!(tx.get_outgoing_edges(&store, a.id).unwrap().is_empty());
    assert!(store.scan_vertices("Person").unwrap().is_empty());

    tx.commit(&mut store).unwrap();

    assert_eq!(store.get_vertex(a.id).unwrap(), Some(a.clone()));
    assert_eq!(store.get_vertex(b.id).unwrap(), Some(b.clone()));
    assert_eq!(store.get_edge(e.id).unwrap(), Some(e.clone()));
    assert_eq!(store.get_outgoing_edges(a.id).unwrap(), vec![e.clone()]);
    assert_eq!(store.get_incoming_edges(b.id).unwrap(), vec![e.clone()]);
    assert_eq!(tx.get_incoming_edges(&store, b.id).unwrap(), vec![e]);
    assert_eq!(store.get_label_id("Person").unwrap(), Some(1));
    assert_eq!(store.get_label_id("KNOWS").unwrap(), Some(2));
}

#[test]
fn identifiers_within_one_transaction_follow_each_other() {
    let mut store = new_store();
    store.create_vertex("Person", named("first")).unwrap();
    let mut tx = store.begin_transaction().unwrap();
    let a = tx.create_vertex(&store, "Person", named("a")).unwrap();
    let c = tx.create_vertex(&store, "City", named("c")).unwrap();
    let b = tx.create_vertex(&store, "Person", named("b")).unwrap();
    let d = tx.create_vertex(&store, "Town", named("d")).unwrap();
    assert_eq!((a.id.labid(), a.id.locid()), (1, 2));
    assert_eq!((c.id.labid(), c.id.locid()), (2, 1));
    assert_eq!((b.id.labid(), b.id.locid()), (1, 3));
    assert_eq!((d.id.labid(), d.id.locid()), (3, 1));
    tx.commit(&mut store).unwrap();
    assert_eq!(store.scan_vertices("Person").unwrap().len(), 3);
    assert_eq!(
        store.kv.get(&make_counter_key("g", "Person")).unwrap(),
        Some(3u64.to_le_bytes().to_vec())
    );
    assert_eq!(
        store.kv.get(&make_label_key("g", "Town")).unwrap(),
        Some(vec![3u8, 0])
    );
    let next = store.create_vertex("Person", named("z")).unwrap();
    assert_eq!(next.id.locid(), 4);
}

#[test]
fn rolled_back_transaction_leaves_no_trace() {
    let mut store = new_store();
    let kept = store.create_vertex("Person", named("kept")).unwrap();
    let before = store.kv.scan_prefix(b"").unwrap().len();

    let mut tx = store.begin_transaction().unwrap();
    let a = tx.create_vertex(&store, "Person", named("a")).unwrap();
    tx.create_vertex(&store, "City", named("c")).unwrap();
    tx.create_edge(&store, "KNOWS", kept.id, a.id, Json::empty_object())
        .unwrap();
    tx.update_vertex(&store, kept.id, named("changed")).unwrap();
    tx.delete_vertex(&store, kept.id).unwrap();
    tx.rollback().unwrap();
    assert_eq!(tx.staged_len(), 0);

    assert_eq!(store.kv.scan_prefix(b"").unwrap().len(), before);
    assert_eq!(store.get_vertex(kept.id).unwrap(), Some(kept.clone()));
    assert!(store.get_vertex(a.id).unwrap().is_none());
    assert_eq!(store.get_label_id("City").unwrap(), None);
    assert!(store.get_outgoing_edges(kept.id).unwrap().is_empty());

    assert!(matches!(
        tx.commit(&mut store),
        Err(StorageError::TransactionError(_))
    ));
    assert_eq!(store.kv.scan_prefix(b"").unwrap().len(), before);
}

#[test]
fn terminal_handle_refuses_every_mutation() {
    let mut store = new_store();
    let v = store.create_vertex("Person", named("v")).unwrap();
    let e = store
        .create_edge("KNOWS", v.id, v.id, Json::empty_object())
        .unwrap();

    let mut committed = store.begin_transaction().unwrap();
    committed.commit(&mut store).unwrap();
    let mut rolled = GraphTransaction::new();
    rolled.rollback().unwrap();

    for tx in [&mut committed, &mut rolled] {
        assert!(matches!(
            tx.create_vertex(&store, "Person", named("x")),
            Err(StorageError::TransactionError(_))
        ));
        assert!(matches!(
            tx.create_edge(&store, "KNOWS", v.id, v.id, Json::empty_object()),
            Err(StorageError::TransactionError(_))
        ));
        assert!(matches!(
            tx.update_vertex(&store, v.id, named("x")),
            Err(StorageError::TransactionError(_))
        ));
        assert!(matches!(
            tx.update_edge(&store, e.id, named("x")),
            Err(StorageError::TransactionError(_))
        ));
        assert!(matches!(
            tx.delete_vertex(&store, v.id),
            Err(StorageError::TransactionError(_))
        ));
        assert!(matches!(
            tx.delete_edge(&store, e.id),
            Err(StorageError::TransactionError(_))
        ));
        assert!(matches!(
            tx.rollback(),
            Err(StorageError::TransactionError(_))
        ));
        assert!(matches!(
            tx.commit(&mut store),
            Err(StorageError::TransactionError(_))
        ));
        assert_eq!(tx.staged_len(), 0);
    }
    assert_eq!(store.get_vertex(v.id).unwrap(), Some(v));
}

#[test]
fn updates_replace_the_properties_and_keep_the_rest() {
    let mut store = new_store();
    let a = store.create_vertex("Person", named("a")).unwrap();
    let b = store.create_vertex("Person", named("b")).unwrap();
    let e = store
        .create_edge("KNOWS", a.id, b.id, named("old"))
        .unwrap();

    let mut tx = store.begin_transaction().unwrap();
    tx.update_vertex(&store, a.id, named("A")).unwrap();
    tx.update_edge(&store, e.id, named("new")).unwrap();
    let ghost = Graphid::new(7, 7).unwrap();
    assert!(matches!(
        tx.update_vertex(&store, ghost, named("x")),
        Err(StorageError::VertexNotFound(_))
    ));
    assert!(matches!(
        tx.update_edge(&store, ghost, named("x")),
        Err(StorageError::EdgeNotFound(_))
    ));
    assert_eq!(tx.staged_len(), 2);
    tx.commit(&mut store).unwrap();

    let a2 = store.get_vertex(a.id).unwrap().unwrap();
    assert_eq!(a2.label, "Person");
    assert_eq!(a2.properties, named("A"));
    let e2 = store.get_edge(e.id).unwrap().unwrap();
    assert_eq!(e2.label, "KNOWS");
    assert_eq!((e2.start, e2.end), (a.id, b.id));
    assert_eq!(e2.properties, named("new"));
    assert_eq!(store.get_outgoing_edges(a.id).unwrap(), vec![e2]);
}

#[test]
fn staged_deletes_take_effect_at_commit() {
    let mut store = new_store();
    let a = store.create_vertex("Person", named("a")).unwrap();
    let b = store.create_vertex("Person", named("b")).unwrap();
    let e = store
        .create_edge("KNOWS", a.id, b.id, Json::empty_object())
        .unwrap();

    let mut tx = store.begin_transaction().unwrap();
    tx.delete_edge(&store, e.id).unwrap();
    tx.delete_vertex(&store, a.id).unwrap();
    tx.delete_edge(&store, Graphid::new(9, 9).unwrap()).unwrap();
    assert_eq!(tx.staged_len(), 4);
    assert!(store.get_edge(e.id).unwrap().is_some());
    tx.commit(&mut store).unwrap();

    assert!(store.get_edge(e.id).unwrap().is_none());
    assert!(store.get_vertex(a.id).unwrap().is_none());
    assert!(store.get_incoming_edges(b.id).unwrap().is_empty());
    assert!(store.get_vertex(b.id).unwrap().is_some());
}

#[test]
fn dropped_handle_writes_nothing() {
    let mut store = new_store();
    {
        let mut tx = store.begin_transaction().unwrap();
        tx.create_vertex(&store, "Person", named("a")).unwrap();
    }
    assert_eq!(store.kv.len(), 0);
    let v = store.create_vertex("Person", named("b")).unwrap();
    assert_eq!((v.id.labid(), v.id.locid()), (1, 1));
}

#[test]
fn record_that_cannot_be_written_stages_nothing() {
    let store = new_store();
    let mut tx = store.begin_transaction().unwrap();
    let mut props = Json::empty_object();
    props.set_member("w".to_string(), Json::Float("one".to_string()));
    assert!(matches!(
        tx.create_vertex(&store, "Person", props.clone()),
        Err(StorageError::SerializationError(_))
    ));
    assert!(tx
        .create_edge(
            &store,
            "KNOWS",
            Graphid::from_raw(1),
            Graphid::from_raw(2),
            props
        )
        .is_err());
    assert_eq!(tx.staged_len(), 0);
    let v = tx.create_vertex(&store, "Person", named("a")).unwrap();
    assert_eq!((v.id.labid(), v.id.locid()), (1, 1));
}

#[test]
fn store_that_refuses_a_write_is_left_as_it_was() {
    let mut store = flaky();
    let a = store.create_vertex("Person", named("a")).unwrap();
    store.kv.writes_fail = true;

    assert!(matches!(
        store.create_vertex("Person", named("b")),
        Err(StorageError::DatabaseError(_))
    ));
    assert!(store
        .create_edge("KNOWS", a.id, a.id, Json::empty_object())
        .is_err());
    assert!(store.delete_vertex(a.id).is_err());

    let mut tx = store.begin_transaction().unwrap();
    tx.create_vertex(&store, "Person", named("c")).unwrap();
    assert!(matches!(
        tx.commit(&mut store),
        Err(StorageError::DatabaseError(_))
    ));
    assert!(matches!(
        tx.create_vertex(&store, "Person", named("d")),
        Err(StorageError::TransactionError(_))
    ));
    assert!(matches!(
        tx.commit(&mut store),
        Err(StorageError::TransactionError(_))
    ));

    store.kv.writes_fail = false;
    assert_eq!(store.kv.inner.len(), 3);
    assert_eq!(store.scan_vertices("Person").unwrap(), vec![a]);
    let b = store.create_vertex("Person", named("b")).unwrap();
    assert_eq!(b.id.locid(), 2);
}

#[test]
fn store_that_refuses_a_read_reports_it() {
    let mut store = flaky();
    let a = store.create_vertex("Person", named("a")).unwrap();
    store.kv.reads_fail = true;
    assert!(matches!(
        store.get_vertex(a.id),
        Err(StorageError::DatabaseError(_))
    ));
    assert!(store.get_edge(a.id).is_err());
    assert!(store.scan_vertices("Person").is_err());
    assert!(store.get_outgoing_edges(a.id).is_err());
    assert!(store.get_label_id("Person").is_err());
    assert!(store.create_vertex("Person", named("b")).is_err());
    assert!(store.delete_vertex(a.id).is_err());
    assert!(store.delete_edge(a.id).is_err());
    store.kv.reads_fail = false;
    assert_eq!(store.kv.inner.len(), 3);
    assert!(store
        .kv
        .inner
        .get(&make_vertex_key("g", a.id))
        .unwrap()
        .is_some());
}

#[test]
fn terminal_handle_says_how_it_ended() {
    let mut store = new_store();
    let mut committed = store.begin_transaction().unwrap();
    committed.commit(&mut store).unwrap();
    match committed.create_vertex(&store, "Person", named("x")) {
        Err(StorageError::TransactionError(m)) => assert_eq!(m, "already committed"),
        other => panic!("expected a transaction error, got {:?}", other),
    }
    match committed.check_state() {
        Err(StorageError::TransactionError(m)) => assert_eq!(m, "already committed"),
        other => panic!("expected a transaction error, got {:?}", other),
    }
    let mut rolled = GraphTransaction::new();
    assert!(rolled.check_state().is_ok());
    rolled.rollback().unwrap();
    match rolled.commit(&mut store) {
        Err(StorageError::TransactionError(m)) => assert_eq!(m, "already rolled back"),
        other => panic!("expected a transaction error, got {:?}", other),
    }
    match rolled.delete_vertex(&store, Graphid::from_raw(1)) {
        Err(StorageError::TransactionError(m)) => assert_eq!(m, "already rolled back"),
        other => panic!("expected a transaction error, got {:?}", other),
    }
}
