//! The key-value substrate: an ordered byte-keyed store with atomic write
//! batches and prefix scans, and an in-memory store of that kind.

use crate::bytes::{compare_bytes, copy_bytes, has_prefix, lex_lt, starts_with, Rank};
use crate::storage::error::StorageError;
use vstd::prelude::*;

verus! {

/// The contents of a store: which value each key holds.
pub type KvState = Map<Seq<u8>, Seq<u8>>;

/// One write of a batch.
#[derive(Debug)]
pub enum WriteOp {
    Put { key: Vec<u8>, value: Vec<u8> },
    Delete { key: Vec<u8> },
}

/// Mathematical model of a write.
pub enum WriteOpView {
    Put { key: Seq<u8>, value: Seq<u8> },
    Delete { key: Seq<u8> },
}

impl View for WriteOp {
    type V = WriteOpView;

    open spec fn view(&self) -> WriteOpView {
        match self {
            WriteOp::Put { key, value } => WriteOpView::Put { key: key@, value: value@ },
            WriteOp::Delete { key } => WriteOpView::Delete { key: key@ },
        }
    }
}

impl Clone for WriteOp {
    fn clone(&self) -> (r: WriteOp)
        ensures
            r@ == self@,
    {
        match self {
            WriteOp::Put { key, value } => WriteOp::Put {
                key: copy_bytes(key.as_slice()),
                value: copy_bytes(value.as_slice()),
            },
            WriteOp::Delete { key } => WriteOp::Delete { key: copy_bytes(key.as_slice()) },
        }
    }
}

/// A key with its value, as a scan hands it out.
#[derive(Debug)]
pub struct Entry {
    pub key: Vec<u8>,
    pub value: Vec<u8>,
}

impl View for Entry {
    type V = (Seq<u8>, Seq<u8>);

    open spec fn view(&self) -> (Seq<u8>, Seq<u8>) {
        (self.key@, self.value@)
    }
}

/// The models of a list of writes.
pub open spec fn ops_view(ops: Seq<WriteOp>) -> Seq<WriteOpView> {
    ops.map_values(|op: WriteOp| op@)
}

/// The models of a list of entries.
pub open spec fn entries_view(entries: Seq<Entry>) -> Seq<(Seq<u8>, Seq<u8>)> {
    entries.map_values(|e: Entry| e@)
}

/// The contents after one write.
pub open spec fn apply_op(s: KvState, op: WriteOpView) -> KvState {
    match op {
        WriteOpView::Put { key, value } => s.insert(key, value),
        WriteOpView::Delete { key } => s.remove(key),
    }
}

/// The contents after a batch of writes, applied in order.
pub open spec fn apply_ops(s: KvState, ops: Seq<WriteOpView>) -> KvState
    decreases ops.len(),
{
    if ops.len() == 0 {
        s
    } else {
        apply_op(apply_ops(s, ops.drop_last()), ops.last())
    }
}

/// Applying two batches one after the other is applying their concatenation.
pub proof fn lemma_apply_ops_concat(s: KvState, a: Seq<WriteOpView>, b: Seq<WriteOpView>)
    ensures
        apply_ops(s, a + b) == apply_ops(apply_ops(s, a), b),
    decreases b.len(),
{
    if b.len() == 0 {
        assert(a + b =~= a);
    } else {
        lemma_apply_ops_concat(s, a, b.drop_last());
        assert((a + b).drop_last() =~= a + b.drop_last());
        assert((a + b).last() == b.last());
    }
}

/// Applying one more write after a batch.
pub proof fn lemma_apply_ops_push(s: KvState, a: Seq<WriteOpView>, op: WriteOpView)
    ensures
        apply_ops(s, a.push(op)) == apply_op(apply_ops(s, a), op),
{
    assert(a.push(op).drop_last() =~= a);
}

/// The keys of a sequence of entries are strictly ascending.
pub open spec fn ascending(sc: Seq<(Seq<u8>, Seq<u8>)>) -> bool {
    forall|i: int, j: int| 0 <= i < j < sc.len() ==> lex_lt(sc[i].0, sc[j].0)
}

/// `sc` is the scan of `state` under `prefix`: exactly the entries whose key
/// starts with the prefix, in ascending key order.
pub open spec fn is_scan(state: KvState, prefix: Seq<u8>, sc: Seq<(Seq<u8>, Seq<u8>)>) -> bool {
    &&& forall|i: int|
        0 <= i < sc.len() ==> has_prefix(#[trigger] sc[i].0, prefix) && state.contains_key(
            sc[i].0,
        ) && state[sc[i].0] == sc[i].1
    &&& ascending(sc)
    &&& forall|k: Seq<u8>| #[trigger]
        state.contains_key(k) && has_prefix(k, prefix) ==> exists|i: int|
            0 <= i < sc.len() && sc[i].0 == k
}

/// An ordered byte-keyed store. `state` is what it holds; `reliable` says
/// that its operations do not fail, which an in-memory store can promise and
/// a store on disk cannot. The four descriptions have defaults that promise
/// nothing, so that a store need only give the three operations; such a
/// store states no invariant, and nothing is proved of the code that uses it.
pub trait KvStore: Sized {
    /// What the store holds.
    open spec fn state(&self) -> KvState {
        Map::empty()
    }

    /// The store's own well-formedness.
    open spec fn inv(&self) -> bool {
        false
    }

    /// Whether the operations of this store never fail.
    open spec fn reliable(&self) -> bool {
        false
    }

    /// The entries under a prefix in the order in which a scan yields them.
    open spec fn scan_spec(&self, prefix: Seq<u8>) -> Seq<(Seq<u8>, Seq<u8>)> {
        Seq::empty()
    }

    /// The value under `key`, if any.
    fn get(&self, key: &[u8]) -> (r: Result<Option<Vec<u8>>, StorageError>)
        requires
            self.inv(),
        ensures
            r matches Ok(Some(v)) ==> self.state().contains_key(key@) && self.state()[key@] == v@,
            r matches Ok(None) ==> !self.state().contains_key(key@),
            self.reliable() ==> r is Ok,
    ;

    /// All entries whose key starts with `prefix`, in ascending key order.
    fn scan_prefix(&self, prefix: &[u8]) -> (r: Result<Vec<Entry>, StorageError>)
        requires
            self.inv(),
        ensures
            r matches Ok(es) ==> entries_view(es@) == self.scan_spec(prefix@),
            self.reliable() ==> r is Ok,
    ;

    /// Applies a batch of writes atomically: all of it, or on failure none.
    fn write_batch(&mut self, ops: &Vec<WriteOp>) -> (r: Result<(), StorageError>)
        requires
            old(self).inv(),
        ensures
            final(self).inv(),
            final(self).state().dom().finite(),
            forall|prefix: Seq<u8>|
                is_scan(final(self).state(), prefix, #[trigger] final(self).scan_spec(prefix)),
            final(self).reliable() == old(self).reliable(),
            r is Ok ==> final(self).state() == apply_ops(old(self).state(), ops_view(ops@)),
            r is Err ==> final(self).state() == old(self).state(),
            old(self).reliable() ==> r is Ok,
    ;
}

/// A store is ready for use: its invariant holds, it holds finitely many
/// keys, and a scan yields exactly the entries under the prefix, in key
/// order.
pub open spec fn ready<K: KvStore>(kv: &K) -> bool {
    &&& kv.inv()
    &&& kv.state().dom().finite()
    &&& forall|prefix: Seq<u8>| is_scan(kv.state(), prefix, #[trigger] kv.scan_spec(prefix))
}

/// What a scan of a ready store yields.
pub proof fn lemma_scan<K: KvStore>(kv: &K, prefix: Seq<u8>)
    requires
        ready(kv),
    ensures
        is_scan(kv.state(), prefix, kv.scan_spec(prefix)),
        kv.state().dom().finite(),
{
}

/// The entries of `es` under `prefix`, in the order of `es`.
pub open spec fn scan_of(es: Seq<(Seq<u8>, Seq<u8>)>, prefix: Seq<u8>) -> Seq<(Seq<u8>, Seq<u8>)>
    decreases es.len(),
{
    if es.len() == 0 {
        Seq::empty()
    } else if has_prefix(es.last().0, prefix) {
        scan_of(es.drop_last(), prefix).push(es.last())
    } else {
        scan_of(es.drop_last(), prefix)
    }
}

/// `state` holds exactly the entries `es`.
pub open spec fn holds_exactly(state: KvState, es: Seq<(Seq<u8>, Seq<u8>)>) -> bool {
    &&& forall|i: int|
        0 <= i < es.len() ==> state.contains_key(#[trigger] es[i].0) && state[es[i].0] == es[i].1
    &&& forall|k: Seq<u8>| #[trigger]
        state.contains_key(k) ==> exists|i: int| 0 <= i < es.len() && es[i].0 == k
}

/// `e` is one of the entries `es`.
pub open spec fn occurs(es: Seq<(Seq<u8>, Seq<u8>)>, e: (Seq<u8>, Seq<u8>)) -> bool {
    exists|j: int| 0 <= j < es.len() && #[trigger] es[j] == e
}

/// Every entry of a filtered scan is an entry of the list it was taken
/// from, with the prefix, and the scan keeps the order of the list.
proof fn lemma_scan_of(es: Seq<(Seq<u8>, Seq<u8>)>, prefix: Seq<u8>)
    requires
        ascending(es),
    ensures
        ascending(scan_of(es, prefix)),
        forall|i: int|
            0 <= i < scan_of(es, prefix).len() ==> has_prefix(
                (#[trigger] scan_of(es, prefix)[i]).0,
                prefix,
            ) && occurs(es, scan_of(es, prefix)[i]),
        forall|j: int|
            0 <= j < es.len() && has_prefix((#[trigger] es[j]).0, prefix) ==> occurs(
                scan_of(es, prefix),
                es[j],
            ),
    decreases es.len(),
{
    let sc = scan_of(es, prefix);
    if es.len() > 0 {
        let front = es.drop_last();
        let rest = scan_of(front, prefix);
        assert(ascending(front)) by {
            assert forall|i: int, j: int| 0 <= i < j < front.len() implies lex_lt(
                front[i].0,
                front[j].0,
            ) by {
                assert(lex_lt(es[i].0, es[j].0));
            }
        }
        lemma_scan_of(front, prefix);
        let n = es.len() - 1;
        assert forall|i: int| 0 <= i < sc.len() implies has_prefix((#[trigger] sc[i]).0, prefix)
            && occurs(es, sc[i]) by {
            if i < rest.len() {
                assert(sc[i] == rest[i]);
                assert(occurs(front, rest[i]));
                let j = choose|j: int| 0 <= j < front.len() && #[trigger] front[j] == rest[i];
                assert(es[j] == sc[i]);
            } else {
                assert(sc[i] == es[n]);
            }
        }
        assert forall|i: int, j: int| 0 <= i < j < sc.len() implies lex_lt(sc[i].0, sc[j].0) by {
            if j < rest.len() {
                assert(lex_lt(rest[i].0, rest[j].0));
            } else {
                assert(sc[j] == es[n]);
                assert(sc[i] == rest[i]);
                assert(occurs(front, rest[i]));
                let k = choose|k: int| 0 <= k < front.len() && #[trigger] front[k] == rest[i];
                assert(es[k] == front[k]);
                assert(lex_lt(es[k].0, es[n].0));
            }
        }
        assert forall|j: int| 0 <= j < es.len() && has_prefix((#[trigger] es[j]).0, prefix) implies
            occurs(sc, es[j]) by {
            if j < n {
                assert(front[j] == es[j]);
                assert(occurs(rest, front[j]));
                let i = choose|i: int| 0 <= i < rest.len() && #[trigger] rest[i] == front[j];
                assert(sc[i] == es[j]);
            } else {
                assert(sc[sc.len() - 1] == es[j]);
            }
        }
    }
}

/// An in-memory store: entries kept in ascending key order.
pub struct MemoryKv {
    entries: Vec<Entry>,
    state: Ghost<KvState>,
}

impl MemoryKv {
    /// The entries in ascending key order.
    pub closed spec fn sorted_entries(&self) -> Seq<(Seq<u8>, Seq<u8>)> {
        entries_view(self.entries@)
    }

    /// An empty store.
    pub fn new() -> (r: MemoryKv)
        ensures
            ready(&r),
            r.state() == Map::<Seq<u8>, Seq<u8>>::empty(),
            r.reliable(),
    {
        let r = MemoryKv { entries: Vec::new(), state: Ghost(Map::empty()) };
        proof {
            r.lemma_ready();
        }
        r
    }

    /// Position of the first entry whose key is not before `key`, and whether
    /// that entry has the key itself.
    fn locate(&self, key: &[u8]) -> (r: (usize, bool))
        requires
            self.inv(),
        ensures
            r.0 <= self.entries.len(),
            forall|j: int| 0 <= j < r.0 ==> lex_lt(self.sorted_entries()[j].0, key@),
            r.1 ==> r.0 < self.entries.len() && self.sorted_entries()[r.0 as int].0 == key@,
            !r.1 ==> forall|j: int|
                r.0 <= j < self.entries.len() ==> lex_lt(key@, self.sorted_entries()[j].0),
            r.1 == self.state().contains_key(key@),
    {
        let mut i: usize = 0;
        let ghost es = self.sorted_entries();
        while i < self.entries.len()
            invariant
                0 <= i <= self.entries.len(),
                es == self.sorted_entries(),
                self.inv(),
                forall|j: int| 0 <= j < i ==> lex_lt(es[j].0, key@),
            decreases self.entries.len() - i,
        {
            match compare_bytes(self.entries[i].key.as_slice(), key) {
                Rank::Less => {},
                Rank::Equal => {
                    return (i, true);
                },
                Rank::Greater => {
                    proof {
                        crate::bytes::lemma_lex_total(es[i as int].0, key@);
                        assert(lex_lt(key@, es[i as int].0));
                        assert forall|j: int| i <= j < es.len() implies lex_lt(key@, es[j].0) by {
                            if j > i {
                                crate::bytes::lemma_lex_lt_transitive(
                                    key@,
                                    es[i as int].0,
                                    es[j].0,
                                );
                            }
                        }
                        if self.state().contains_key(key@) {
                            let k = choose|k: int| 0 <= k < es.len() && es[k].0 == key@;
                            crate::bytes::lemma_lex_lt_asymmetric(es[k].0, key@);
                            crate::bytes::lemma_lex_lt_asymmetric(key@, es[k].0);
                        }
                    }
                    return (i, false);
                },
            }
            i += 1;
        }
        proof {
            if self.state().contains_key(key@) {
                let k = choose|k: int| 0 <= k < es.len() && es[k].0 == key@;
                crate::bytes::lemma_lex_lt_asymmetric(es[k].0, key@);
            }
        }
        (i, false)
    }

    /// Sets `key` to `value`.
    pub fn put(&mut self, key: &[u8], value: &[u8])
        requires
            old(self).inv(),
        ensures
            final(self).inv(),
            final(self).state() == old(self).state().insert(key@, value@),
    {
        let (i, found) = self.locate(key);
        let ghost before = self.sorted_entries();
        let ghost old_state = self.state();
        if found {
            self.entries[i] = Entry { key: copy_bytes(key), value: copy_bytes(value) };
        } else {
            self.entries.insert(i, Entry { key: copy_bytes(key), value: copy_bytes(value) });
        }
        self.state = Ghost(old_state.insert(key@, value@));
        proof {
            let after = self.sorted_entries();
            let st = self.state();
            if found {
                assert(after =~= before.update(i as int, (key@, value@)));
                assert forall|a: int, b: int| 0 <= a < b < after.len() implies lex_lt(
                    after[a].0,
                    after[b].0,
                ) by {
                    assert(after[a].0 == before[a].0);
                    assert(after[b].0 == before[b].0);
                }
                assert forall|k: Seq<u8>| #[trigger] st.contains_key(k) implies exists|j: int|
                    0 <= j < after.len() && after[j].0 == k by {
                    if k == key@ {
                        assert(after[i as int].0 == k);
                    } else {
                        let j = choose|j: int| 0 <= j < before.len() && before[j].0 == k;
                        assert(after[j].0 == k);
                    }
                }
                assert forall|j: int| 0 <= j < after.len() implies st.contains_key(
                    #[trigger] after[j].0,
                ) && st[after[j].0] == after[j].1 by {
                    if j != i {
                        assert(after[j] == before[j]);
                        crate::bytes::lemma_lex_lt_asymmetric(before[j].0, key@);
                        crate::bytes::lemma_lex_lt_asymmetric(key@, before[j].0);
                        if j < i {
                            assert(lex_lt(before[j].0, before[i as int].0));
                        } else {
                            assert(lex_lt(before[i as int].0, before[j].0));
                        }
                    }
                }
            } else {
                assert(after =~= before.insert(i as int, (key@, value@)));
                assert forall|a: int, b: int| 0 <= a < b < after.len() implies lex_lt(
                    after[a].0,
                    after[b].0,
                ) by {
                    if b < i {
                        assert(lex_lt(before[a].0, before[b].0));
                    } else if b == i {
                        assert(after[a] == before[a]);
                    } else if a < i {
                        assert(after[a] == before[a]);
                        assert(after[b] == before[b - 1]);
                        if b - 1 > a {
                            assert(lex_lt(before[a].0, before[b - 1].0));
                        } else {
                            crate::bytes::lemma_lex_lt_transitive(
                                before[a].0,
                                key@,
                                before[b - 1].0,
                            );
                        }
                    } else if a == i {
                        assert(after[b] == before[b - 1]);
                    } else {
                        assert(after[a] == before[a - 1]);
                        assert(after[b] == before[b - 1]);
                        assert(lex_lt(before[a - 1].0, before[b - 1].0));
                    }
                }
                assert forall|k: Seq<u8>| #[trigger] st.contains_key(k) implies exists|j: int|
                    0 <= j < after.len() && after[j].0 == k by {
                    if k == key@ {
                        assert(after[i as int].0 == k);
                    } else {
                        let j = choose|j: int| 0 <= j < before.len() && before[j].0 == k;
                        if j < i {
                            assert(after[j].0 == k);
                        } else {
                            assert(after[j + 1].0 == k);
                        }
                    }
                }
                assert forall|j: int| 0 <= j < after.len() implies st.contains_key(
                    #[trigger] after[j].0,
                ) && st[after[j].0] == after[j].1 by {
                    if j < i {
                        assert(after[j] == before[j]);
                        crate::bytes::lemma_lex_lt_asymmetric(before[j].0, key@);
                    } else if j > i {
                        assert(after[j] == before[j - 1]);
                        crate::bytes::lemma_lex_lt_asymmetric(key@, before[j - 1].0);
                    }
                }
            }
        }
    }

    /// Removes `key`, if the store holds it.
    pub fn delete(&mut self, key: &[u8])
        requires
            old(self).inv(),
        ensures
            final(self).inv(),
            final(self).state() == old(self).state().remove(key@),
    {
        let (i, found) = self.locate(key);
        let ghost before = self.sorted_entries();
        let ghost old_state = self.state();
        if found {
            let _ = self.entries.remove(i);
            self.state = Ghost(old_state.remove(key@));
            proof {
                let after = self.sorted_entries();
                let st = self.state();
                assert(after =~= before.remove(i as int));
                assert forall|a: int, b: int| 0 <= a < b < after.len() implies lex_lt(
                    after[a].0,
                    after[b].0,
                ) by {
                    let a0 = if a < i { a } else { a + 1 };
                    let b0 = if b < i { b } else { b + 1 };
                    assert(after[a] == before[a0]);
                    assert(after[b] == before[b0]);
                    assert(lex_lt(before[a0].0, before[b0].0));
                }
                assert forall|k: Seq<u8>| #[trigger] st.contains_key(k) implies exists|j: int|
                    0 <= j < after.len() && after[j].0 == k by {
                    let j = choose|j: int| 0 <= j < before.len() && before[j].0 == k;
                    if j < i {
                        assert(after[j].0 == k);
                    } else {
                        assert(after[j - 1].0 == k);
                    }
                }
                assert forall|j: int| 0 <= j < after.len() implies st.contains_key(
                    #[trigger] after[j].0,
                ) && st[after[j].0] == after[j].1 by {
                    let j0 = if j < i { j } else { j + 1 };
                    assert(after[j] == before[j0]);
                    crate::bytes::lemma_lex_lt_asymmetric(before[j0].0, key@);
                    crate::bytes::lemma_lex_lt_asymmetric(key@, before[j0].0);
                    if j0 < i {
                        assert(lex_lt(before[j0].0, before[i as int].0));
                    } else {
                        assert(lex_lt(before[i as int].0, before[j0].0));
                    }
                }
            }
        } else {
            assert(old_state.remove(key@) =~= old_state);
        }
    }

    /// A scan yields exactly the entries under the prefix, in key order.
    pub proof fn lemma_scans(&self, prefix: Seq<u8>)
        requires
            self.inv(),
        ensures
            is_scan(self.state(), prefix, self.scan_spec(prefix)),
    {
        let es = entries_view(self.entries@);
        let sc = scan_of(es, prefix);
        lemma_scan_of(es, prefix);
        assert forall|i: int| 0 <= i < sc.len() implies has_prefix(#[trigger] sc[i].0, prefix)
            && self.state@.contains_key(sc[i].0) && self.state@[sc[i].0] == sc[i].1 by {
            assert(occurs(es, sc[i]));
            let j = choose|j: int| 0 <= j < es.len() && #[trigger] es[j] == sc[i];
            assert(self.state@.contains_key(es[j].0));
        }
        assert forall|k: Seq<u8>| #[trigger]
            self.state@.contains_key(k) && has_prefix(k, prefix) implies exists|i: int|
            0 <= i < sc.len() && sc[i].0 == k by {
            let j = choose|j: int| 0 <= j < es.len() && es[j].0 == k;
            assert(has_prefix(es[j].0, prefix));
            assert(occurs(sc, es[j]));
            let i = choose|i: int| 0 <= i < sc.len() && #[trigger] sc[i] == es[j];
            assert(sc[i].0 == k);
        }
    }

    /// A well-formed in-memory store is ready for use.
    pub proof fn lemma_ready(&self)
        requires
            self.inv(),
        ensures
            ready(self),
    {
        assert forall|prefix: Seq<u8>|
            is_scan(self.state(), prefix, #[trigger] self.scan_spec(prefix)) by {
            self.lemma_scans(prefix);
        }
    }

    /// The number of keys held.
    pub fn len(&self) -> (r: usize)
        requires
            self.inv(),
        ensures
            r == self.sorted_entries().len(),
    {
        self.entries.len()
    }
}

impl KvStore for MemoryKv {
    closed spec fn state(&self) -> KvState {
        self.state@
    }

    closed spec fn inv(&self) -> bool {
        &&& ascending(entries_view(self.entries@))
        &&& holds_exactly(self.state@, entries_view(self.entries@))
        &&& self.state@.dom().finite()
    }

    open spec fn reliable(&self) -> bool {
        true
    }

    closed spec fn scan_spec(&self, prefix: Seq<u8>) -> Seq<(Seq<u8>, Seq<u8>)> {
        scan_of(entries_view(self.entries@), prefix)
    }

    fn get(&self, key: &[u8]) -> (r: Result<Option<Vec<u8>>, StorageError>) {
        let (i, found) = self.locate(key);
        if found {
            assert(self.sorted_entries()[i as int] == self.entries[i as int]@);
            Ok(Some(copy_bytes(self.entries[i].value.as_slice())))
        } else {
            Ok(None)
        }
    }

    fn scan_prefix(&self, prefix: &[u8]) -> (r: Result<Vec<Entry>, StorageError>) {
        let mut out: Vec<Entry> = Vec::new();
        let mut i: usize = 0;
        let ghost es = entries_view(self.entries@);
        assert(es.subrange(0, 0) =~= Seq::empty());
        while i < self.entries.len()
            invariant
                0 <= i <= self.entries.len(),
                es == entries_view(self.entries@),
                entries_view(out@) == scan_of(es.subrange(0, i as int), prefix@),
            decreases self.entries.len() - i,
        {
            let e = &self.entries[i];
            let ghost before = entries_view(out@);
            proof {
                let t = es.subrange(0, i as int + 1);
                assert(t.drop_last() =~= es.subrange(0, i as int));
                assert(t.last() == e@);
            }
            if starts_with(e.key.as_slice(), prefix) {
                out.push(Entry { key: copy_bytes(e.key.as_slice()), value: copy_bytes(e.value.as_slice()) });
                assert(entries_view(out@) =~= before.push(e@));
            }
            i += 1;
        }
        assert(es.subrange(0, i as int) =~= es);
        Ok(out)
    }

    fn write_batch(&mut self, ops: &Vec<WriteOp>) -> (r: Result<(), StorageError>) {
        let mut i: usize = 0;
        let ghost all = ops_view(ops@);
        assert(all.subrange(0, 0) =~= Seq::empty());
        while i < ops.len()
            invariant
                0 <= i <= ops.len(),
                all == ops_view(ops@),
                self.inv(),
                self.state() == apply_ops(old(self).state(), all.subrange(0, i as int)),
            decreases ops.len() - i,
        {
            proof {
                let t = all.subrange(0, i as int + 1);
                assert(t.drop_last() =~= all.subrange(0, i as int));
                assert(t.last() == ops[i as int]@);
            }
            match &ops[i] {
                WriteOp::Put { key, value } => {
                    self.put(key.as_slice(), value.as_slice());
                },
                WriteOp::Delete { key } => {
                    self.delete(key.as_slice());
                },
            }
            i += 1;
        }
        assert(all.subrange(0, i as int) =~= all);
        assert forall|prefix: Seq<u8>|
            is_scan(self.state(), prefix, #[trigger] self.scan_spec(prefix)) by {
            self.lemma_scans(prefix);
        }
        Ok(())
    }
}

} // verus!
