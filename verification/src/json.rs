//! JSON values as plain data: what a record's property bag holds.

use crate::bytes::{compare_bytes, lex_lt, str_eq, Rank};
use vstd::prelude::*;
use vstd::utf8::encode_utf8;

verus! {

/// One `key: value` member of a JSON object.
#[derive(Debug)]
pub struct Member {
    pub key: String,
    pub value: Json,
}

/// A JSON value. Numbers are split three ways: integers that fit `i64`,
/// integers above `i64::MAX`, and every other number, which is kept as its
/// decimal text.
#[derive(Debug)]
pub enum Json {
    Null,
    Bool(bool),
    Int(i64),
    UInt(u64),
    Float(String),
    Str(String),
    Array(Vec<Json>),
    Object(Vec<Member>),
}

/// Mathematical model of a JSON value.
pub enum JsonView {
    Null,
    Bool(bool),
    Int(i64),
    UInt(u64),
    Float(Seq<char>),
    Str(Seq<char>),
    Array(Seq<JsonView>),
    Object(Seq<(Seq<char>, JsonView)>),
}

impl View for Member {
    type V = (Seq<char>, JsonView);

    open spec fn view(&self) -> (Seq<char>, JsonView) {
        (self.key@, self.value@)
    }
}

/// The model of a value, by recursion over arrays and objects.
pub open spec fn json_model(j: Json) -> JsonView
    decreases j,
{
    match j {
        Json::Null => JsonView::Null,
        Json::Bool(b) => JsonView::Bool(b),
        Json::Int(i) => JsonView::Int(i),
        Json::UInt(u) => JsonView::UInt(u),
        Json::Float(t) => JsonView::Float(t@),
        Json::Str(s) => JsonView::Str(s@),
        Json::Array(items) => JsonView::Array(
            Seq::new(
                items.len() as nat,
                |i: int|
                    if 0 <= i < items.len() {
                        json_model(items[i])
                    } else {
                        JsonView::Null
                    },
            ),
        ),
        Json::Object(members) => JsonView::Object(
            Seq::new(
                members.len() as nat,
                |i: int|
                    if 0 <= i < members.len() {
                        (members[i].key@, json_model(members[i].value))
                    } else {
                        (Seq::empty(), JsonView::Null)
                    },
            ),
        ),
    }
}

impl View for Json {
    type V = JsonView;

    open spec fn view(&self) -> JsonView {
        json_model(*self)
    }
}

/// The members of an object as the model sees them.
pub type Members = Seq<(Seq<char>, JsonView)>;

/// `i` is the first member of `ms` whose key is `key`.
pub open spec fn is_first_match(ms: Members, key: Seq<char>, i: int) -> bool {
    &&& 0 <= i < ms.len()
    &&& ms[i].0 == key
    &&& forall|j: int| 0 <= j < i ==> ms[j].0 != key
}

/// Some member of `ms` has the key `key`.
pub open spec fn has_key(ms: Members, key: Seq<char>) -> bool {
    exists|i: int| is_first_match(ms, key, i)
}

/// Index of the first member with the key `key`.
pub open spec fn index_of(ms: Members, key: Seq<char>) -> int {
    choose|i: int| is_first_match(ms, key, i)
}

/// Keys are ordered as their UTF-8 bytes are.
pub open spec fn key_lt(a: Seq<char>, b: Seq<char>) -> bool {
    lex_lt(encode_utf8(a), encode_utf8(b))
}

/// `p` is where a new key goes: behind every member whose key comes before
/// it, in front of the first one that does not.
pub open spec fn is_insert_pos(ms: Members, key: Seq<char>, p: int) -> bool {
    &&& 0 <= p <= ms.len()
    &&& forall|j: int| 0 <= j < p ==> key_lt(ms[j].0, key)
    &&& p < ms.len() ==> !key_lt(ms[p].0, key)
}

/// The position at which a new key is inserted.
pub open spec fn insert_pos(ms: Members, key: Seq<char>) -> int {
    choose|p: int| is_insert_pos(ms, key, p)
}

/// The members after `key` has been set to `value`: an existing member is
/// replaced in place, a new one goes to its position in key order.
pub open spec fn members_set(ms: Members, key: Seq<char>, value: JsonView) -> Members {
    if has_key(ms, key) {
        ms.update(index_of(ms, key), (key, value))
    } else {
        ms.insert(insert_pos(ms, key), (key, value))
    }
}

/// The members after the first member with the key `key`, if any, is gone.
pub open spec fn members_without(ms: Members, key: Seq<char>) -> Members {
    if has_key(ms, key) {
        ms.remove(index_of(ms, key))
    } else {
        ms
    }
}

/// The keys of an object are strictly ascending, here and in every value
/// below: the form in which an object is written out and read back.
pub open spec fn canonical(v: JsonView) -> bool
    decreases v,
{
    match v {
        JsonView::Array(items) => forall|i: int|
            0 <= i < items.len() ==> canonical(#[trigger] items[i]),
        JsonView::Object(ms) => {
            &&& forall|i: int| 0 <= i < ms.len() ==> canonical((#[trigger] ms[i]).1)
            &&& forall|i: int, j: int|
                0 <= i < j < ms.len() ==> key_lt(#[trigger] ms[i].0, #[trigger] ms[j].0)
        },
        _ => true,
    }
}

impl JsonView {
    /// The members, for an object; nothing for any other value.
    pub open spec fn members(self) -> Members {
        match self {
            JsonView::Object(ms) => ms,
            _ => Seq::empty(),
        }
    }

    /// The value under `key`, where this is an object that has the key.
    pub open spec fn get(self, key: Seq<char>) -> Option<JsonView> {
        if has_key(self.members(), key) {
            Some(self.members()[index_of(self.members(), key)].1)
        } else {
            None
        }
    }

    /// This value with `key` set to `value`; a value that is no object is
    /// left as it is.
    pub open spec fn with_member(self, key: Seq<char>, value: JsonView) -> JsonView {
        match self {
            JsonView::Object(ms) => JsonView::Object(members_set(ms, key, value)),
            _ => self,
        }
    }

    /// This value without the member `key`.
    pub open spec fn without_member(self, key: Seq<char>) -> JsonView {
        match self {
            JsonView::Object(ms) => JsonView::Object(members_without(ms, key)),
            _ => self,
        }
    }

    /// The keys of an object in member order.
    pub open spec fn keys(self) -> Seq<Seq<char>> {
        self.members().map_values(|m: (Seq<char>, JsonView)| m.0)
    }

    /// The value reached by following `path` through nested objects.
    pub open spec fn get_path(self, path: Seq<Seq<char>>) -> Option<JsonView>
        decreases path.len(),
    {
        if path.len() == 0 {
            Some(self)
        } else {
            match self.get(path[0]) {
                Some(inner) => inner.get_path(path.subrange(1, path.len() as int)),
                None => None,
            }
        }
    }
}

/// The model of a vector of members.
pub open spec fn members_view(members: Seq<Member>) -> Members {
    members.map_values(|m: Member| m@)
}

/// The model of a vector of values.
pub open spec fn items_view(items: Seq<Json>) -> Seq<JsonView> {
    items.map_values(|j: Json| j@)
}

/// What the model of an array and of an object is made of.
pub proof fn lemma_view_unfold(j: Json)
    ensures
        j matches Json::Array(items) ==> j@ == JsonView::Array(items_view(items@)),
        j matches Json::Object(members) ==> j@ == JsonView::Object(members_view(members@)),
{
    match j {
        Json::Array(items) => {
            let a = j@->Array_0;
            let b = items_view(items@);
            assert(a.len() == b.len());
            assert forall|i: int| 0 <= i < a.len() implies a[i] == b[i] by {
                assert(a[i] == items[i]@);
            }
            assert(a =~= b);
        },
        Json::Object(members) => {
            let a = j@->Object_0;
            let b = members_view(members@);
            assert(a.len() == b.len());
            assert forall|i: int| 0 <= i < a.len() implies a[i] == b[i] by {
                assert(a[i] == (members[i].key@, members[i].value@));
            }
            assert(a =~= b);
        },
        _ => {},
    }
}

/// A first match is the only first match.
pub proof fn lemma_first_match_unique(ms: Members, key: Seq<char>, i: int)
    requires
        is_first_match(ms, key, i),
    ensures
        has_key(ms, key),
        index_of(ms, key) == i,
{
    let c = index_of(ms, key);
    assert(is_first_match(ms, key, c));
    if c < i {
        assert(ms[c].0 != key);
    } else if i < c {
        assert(ms[i].0 != key);
    }
}

/// Where some member has the key, a first one has it.
pub proof fn lemma_match_has_key(ms: Members, key: Seq<char>, j: int)
    requires
        0 <= j < ms.len(),
        ms[j].0 == key,
    ensures
        has_key(ms, key),
        index_of(ms, key) <= j,
    decreases j,
{
    if forall|k: int| 0 <= k < j ==> ms[k].0 != key {
        lemma_first_match_unique(ms, key, j);
    } else {
        let k = choose|k: int| 0 <= k < j && ms[k].0 == key;
        lemma_match_has_key(ms, key, k);
    }
}

/// Reading after setting: the key that was set holds the new value, every
/// other key holds what it held.
pub proof fn lemma_get_after_set(v: JsonView, key: Seq<char>, value: JsonView, other: Seq<char>)
    requires
        v is Object,
    ensures
        v.with_member(key, value).get(other) == if other == key {
            Some(value)
        } else {
            v.get(other)
        },
{
    let ms = v.members();
    let ns = members_set(ms, key, value);
    assert(v.with_member(key, value).members() == ns);
    if has_key(ms, key) {
        let i = index_of(ms, key);
        assert(is_first_match(ms, key, i));
        assert(ns == ms.update(i, (key, value)));
        assert forall|j: int| 0 <= j < ms.len() implies ns[j].0 == ms[j].0 by {}
        if other == key {
            assert(is_first_match(ns, key, i));
            lemma_first_match_unique(ns, key, i);
        } else if has_key(ms, other) {
            let j = index_of(ms, other);
            assert(is_first_match(ms, other, j));
            assert(is_first_match(ns, other, j));
            lemma_first_match_unique(ns, other, j);
        } else if has_key(ns, other) {
            let j = index_of(ns, other);
            assert(is_first_match(ns, other, j));
            assert(ms[j].0 == other);
            lemma_match_has_key(ms, other, j);
        }
    } else {
        let p = insert_pos(ms, key);
        assert(is_insert_pos(ms, key, 0) || exists|q: int| is_insert_pos(ms, key, q)) by {
            lemma_insert_pos_exists(ms, key, ms.len() as int);
        }
        assert(is_insert_pos(ms, key, p));
        assert(ns == ms.insert(p, (key, value)));
        assert forall|j: int| 0 <= j < ms.len() implies ms[j].0 != key by {
            if ms[j].0 == key {
                lemma_match_has_key(ms, key, j);
            }
        }
        if other == key {
            assert(is_first_match(ns, key, p)) by {
                assert forall|j: int| 0 <= j < p implies ns[j].0 != key by {
                    assert(ns[j] == ms[j]);
                }
            }
            lemma_first_match_unique(ns, key, p);
        } else if has_key(ms, other) {
            let j = index_of(ms, other);
            assert(is_first_match(ms, other, j));
            let j2 = if j < p { j } else { j + 1 };
            assert(is_first_match(ns, other, j2)) by {
                assert(ns[j2] == ms[j]);
                assert forall|k: int| 0 <= k < j2 implies ns[k].0 != other by {
                    if k < p {
                        assert(ns[k] == ms[k]);
                    } else if k > p {
                        assert(ns[k] == ms[k - 1]);
                    }
                }
            }
            lemma_first_match_unique(ns, other, j2);
        } else if has_key(ns, other) {
            let j = index_of(ns, other);
            assert(is_first_match(ns, other, j));
            if j < p {
                assert(ns[j] == ms[j]);
                lemma_match_has_key(ms, other, j);
            } else {
                assert(ns[j] == ms[j - 1]);
                lemma_match_has_key(ms, other, j - 1);
            }
        }
    }
}

/// Every list of members has a position for a new key.
pub proof fn lemma_insert_pos_exists(ms: Members, key: Seq<char>, n: int)
    requires
        0 <= n <= ms.len(),
    ensures
        exists|q: int| is_insert_pos(ms, key, q),
    decreases ms.len() - n,
{
    lemma_insert_pos_from(ms, key, 0);
}

proof fn lemma_insert_pos_from(ms: Members, key: Seq<char>, k: int)
    requires
        0 <= k <= ms.len(),
        forall|j: int| 0 <= j < k ==> key_lt(ms[j].0, key),
    ensures
        exists|q: int| is_insert_pos(ms, key, q),
    decreases ms.len() - k,
{
    if k == ms.len() || !key_lt(ms[k].0, key) {
        assert(is_insert_pos(ms, key, k));
    } else {
        lemma_insert_pos_from(ms, key, k + 1);
    }
}

/// Position of the first member with the given key, or the length.
fn find_member(members: &Vec<Member>, key: &str) -> (r: usize)
    ensures
        r <= members.len(),
        r < members.len() ==> is_first_match(members_view(members@), key@, r as int),
        r == members.len() ==> !has_key(members_view(members@), key@),
        r < members.len() ==> has_key(members_view(members@), key@) && index_of(
            members_view(members@),
            key@,
        ) == r,
{
    let mut i: usize = 0;
    while i < members.len()
        invariant
            0 <= i <= members.len(),
            forall|j: int| 0 <= j < i ==> members_view(members@)[j].0 != key@,
        decreases members.len() - i,
    {
        if str_eq(members[i].key.as_str(), key) {
            assert(is_first_match(members_view(members@), key@, i as int));
            return i;
        }
        i += 1;
    }
    i
}

/// Position at which a member with a new key is inserted.
fn find_insert_pos(members: &Vec<Member>, key: &str) -> (r: usize)
    ensures
        is_insert_pos(members_view(members@), key@, r as int),
        r == insert_pos(members_view(members@), key@),
{
    let mut i: usize = 0;
    let mut found = false;
    while i < members.len() && !found
        invariant
            0 <= i <= members.len(),
            forall|j: int| 0 <= j < i ==> key_lt(members_view(members@)[j].0, key@),
            found ==> i < members.len() && !key_lt(members_view(members@)[i as int].0, key@),
        decreases members.len() - i + if found { 0int } else { 1int },
    {
        let rank = compare_bytes(members[i].key.as_str().as_bytes(), key.as_bytes());
        match rank {
            Rank::Less => {
                i += 1;
            },
            _ => {
                proof {
                    crate::bytes::lemma_lex_lt_asymmetric(
                        encode_utf8(members[i as int].key@),
                        encode_utf8(key@),
                    );
                }
                found = true;
            },
        }
    }
    proof {
        let ms = members_view(members@);
        assert(is_insert_pos(ms, key@, i as int));
        let q = insert_pos(ms, key@);
        assert(is_insert_pos(ms, key@, q));
        if q < i {
            assert(key_lt(ms[q].0, key@));
        } else if i < q {
            assert(key_lt(ms[i as int].0, key@));
        }
    }
    i
}

impl Clone for Member {
    fn clone(&self) -> (r: Member)
        ensures
            r@ == self@,
        decreases self,
    {
        Member { key: self.key.clone(), value: self.value.clone() }
    }
}

impl Clone for Json {
    #[verifier::loop_isolation(false)]
    fn clone(&self) -> (r: Json)
        ensures
            r@ == self@,
        decreases self,
    {
        match self {
            Json::Null => Json::Null,
            Json::Bool(b) => Json::Bool(*b),
            Json::Int(i) => Json::Int(*i),
            Json::UInt(u) => Json::UInt(*u),
            Json::Float(t) => Json::Float(t.clone()),
            Json::Str(s) => Json::Str(s.clone()),
            Json::Array(items) => {
                let mut out: Vec<Json> = Vec::new();
                let mut i: usize = 0;
                while i < items.len()
                    invariant
                        0 <= i <= items.len(),
                        out.len() == i,
                        forall|k: int| 0 <= k < i ==> out[k]@ == items[k]@,
                    decreases items.len() - i,
                {
                    out.push(items[i].clone());
                    i += 1;
                }
                let r = Json::Array(out);
                proof {
                    lemma_view_unfold(r);
                    lemma_view_unfold(*self);
                    assert(items_view(out@) =~= items_view(items@));
                }
                r
            },
            Json::Object(members) => {
                let mut out: Vec<Member> = Vec::new();
                let mut i: usize = 0;
                while i < members.len()
                    invariant
                        0 <= i <= members.len(),
                        out.len() == i,
                        forall|k: int| 0 <= k < i ==> out[k]@ == members[k]@,
                    decreases members.len() - i,
                {
                    let m = &members[i];
                    out.push(Member { key: m.key.clone(), value: m.value.clone() });
                    i += 1;
                }
                let r = Json::Object(out);
                proof {
                    lemma_view_unfold(r);
                    lemma_view_unfold(*self);
                    assert(members_view(out@) =~= members_view(members@));
                }
                r
            },
        }
    }
}

impl Json {
    /// An object without members.
    pub fn empty_object() -> (r: Json)
        ensures
            r@ == JsonView::Object(Seq::empty()),
    {
        let r = Json::Object(Vec::new());
        proof {
            lemma_view_unfold(r);
            assert(members_view(Seq::<Member>::empty()) =~= Seq::empty());
        }
        r
    }

    /// Whether two values are the same JSON value.
    #[verifier::loop_isolation(false)]
    pub fn same(&self, other: &Json) -> (r: bool)
        ensures
            r == (self@ == other@),
        decreases self,
    {
        proof {
            lemma_view_unfold(*self);
            lemma_view_unfold(*other);
        }
        match (self, other) {
            (Json::Null, Json::Null) => true,
            (Json::Bool(a), Json::Bool(b)) => *a == *b,
            (Json::Int(a), Json::Int(b)) => *a == *b,
            (Json::UInt(a), Json::UInt(b)) => *a == *b,
            (Json::Float(a), Json::Float(b)) => str_eq(a.as_str(), b.as_str()),
            (Json::Str(a), Json::Str(b)) => str_eq(a.as_str(), b.as_str()),
            (Json::Array(a), Json::Array(b)) => {
                if a.len() != b.len() {
                    assert(items_view(a@).len() != items_view(b@).len());
                    return false;
                }
                let mut i: usize = 0;
                while i < a.len()
                    invariant
                        a.len() == b.len(),
                        0 <= i <= a.len(),
                        forall|k: int| 0 <= k < i ==> a[k]@ == b[k]@,
                    decreases a.len() - i,
                {
                    if !a[i].same(&b[i]) {
                        assert(items_view(a@)[i as int] != items_view(b@)[i as int]);
                        return false;
                    }
                    i += 1;
                }
                assert(items_view(a@) =~= items_view(b@));
                true
            },
            (Json::Object(a), Json::Object(b)) => {
                if a.len() != b.len() {
                    assert(members_view(a@).len() != members_view(b@).len());
                    return false;
                }
                let mut i: usize = 0;
                while i < a.len()
                    invariant
                        a.len() == b.len(),
                        0 <= i <= a.len(),
                        forall|k: int| 0 <= k < i ==> a[k]@ == b[k]@,
                    decreases a.len() - i,
                {
                    if !str_eq(a[i].key.as_str(), b[i].key.as_str()) || !a[i].value.same(&b[i].value) {
                        assert(members_view(a@)[i as int] != members_view(b@)[i as int]);
                        return false;
                    }
                    i += 1;
                }
                assert(members_view(a@) =~= members_view(b@));
                true
            },
            _ => false,
        }
    }

    /// The value under `key`, where this is an object that has the key.
    pub fn get(&self, key: &str) -> (r: Option<&Json>)
        ensures
            match r {
                Some(j) => self@.get(key@) == Some(j@),
                None => self@.get(key@) is None,
            },
    {
        proof {
            lemma_view_unfold(*self);
        }
        match self {
            Json::Object(members) => {
                let i = find_member(members, key);
                if i < members.len() {
                    Some(&members[i].value)
                } else {
                    None
                }
            },
            _ => {
                assert(!has_key(self@.members(), key@));
                None
            },
        }
    }

    /// Whether this is an object with a member `key`.
    pub fn has(&self, key: &str) -> (r: bool)
        ensures
            r == self@.get(key@).is_some(),
    {
        self.get(key).is_some()
    }

    /// The value reached by following `path` through nested objects.
    pub fn get_path(&self, path: &Vec<String>) -> (r: Option<&Json>)
        ensures
            match r {
                Some(j) => self@.get_path(path.deep_view()) == Some(j@),
                None => self@.get_path(path.deep_view()) is None,
            },
    {
        let mut current: &Json = self;
        let mut i: usize = 0;
        let ghost full = path.deep_view();
        assert(full.subrange(0, full.len() as int) =~= full);
        while i < path.len()
            invariant
                0 <= i <= path.len(),
                full == path.deep_view(),
                self@.get_path(full) == current@.get_path(full.subrange(i as int, full.len() as int)),
            decreases path.len() - i,
        {
            let ghost rest = full.subrange(i as int, full.len() as int);
            assert(rest[0] == path[i as int]@);
            assert(rest.subrange(1, rest.len() as int) =~= full.subrange(
                i as int + 1,
                full.len() as int,
            ));
            match current.get(path[i].as_str()) {
                Some(inner) => {
                    current = inner;
                },
                None => {
                    return None;
                },
            }
            i += 1;
        }
        Some(current)
    }

    /// Sets `key` to `value` in an object; any other value is left as it is.
    pub fn set_member(&mut self, key: String, value: Json)
        ensures
            final(self)@ == old(self)@.with_member(key@, value@),
    {
        proof {
            lemma_view_unfold(*self);
        }
        match self {
            Json::Object(members) => {
                let ghost before = members_view(members@);
                let i = find_member(members, key.as_str());
                if i < members.len() {
                    members[i] = Member { key, value };
                    assert(members_view(members@) =~= before.update(i as int, (key@, value@)));
                } else {
                    let p = find_insert_pos(members, key.as_str());
                    members.insert(p, Member { key, value });
                    assert(members_view(members@) =~= before.insert(p as int, (key@, value@)));
                }
            },
            _ => {},
        }
        proof {
            lemma_view_unfold(*self);
        }
    }

    /// Takes the member `key` out of an object and returns its value.
    pub fn remove_member(&mut self, key: &str) -> (r: Option<Json>)
        ensures
            final(self)@ == old(self)@.without_member(key@),
            match r {
                Some(j) => old(self)@.get(key@) == Some(j@),
                None => old(self)@.get(key@) is None,
            },
    {
        proof {
            lemma_view_unfold(*self);
        }
        let r = match self {
            Json::Object(members) => {
                let ghost before = members_view(members@);
                let i = find_member(members, key);
                if i < members.len() {
                    let m = members.remove(i);
                    assert(members_view(members@) =~= before.remove(i as int));
                    Some(m.value)
                } else {
                    None
                }
            },
            _ => {
                assert(!has_key(self@.members(), key@));
                None
            },
        };
        proof {
            lemma_view_unfold(*self);
        }
        r
    }

    /// The keys of an object in member order; none for any other value.
    pub fn keys(&self) -> (r: Vec<String>)
        ensures
            r.deep_view() == self@.keys(),
    {
        proof {
            lemma_view_unfold(*self);
        }
        let mut out: Vec<String> = Vec::new();
        match self {
            Json::Object(members) => {
                let mut i: usize = 0;
                while i < members.len()
                    invariant
                        0 <= i <= members.len(),
                        out.len() == i,
                        forall|k: int| 0 <= k < i ==> out[k]@ == members[k].key@,
                    decreases members.len() - i,
                {
                    out.push(members[i].key.clone());
                    i += 1;
                }
                assert(out.deep_view() =~= self@.keys());
            },
            _ => {
                assert(out.deep_view() =~= self@.keys());
            },
        }
        out
    }

    /// Whether this is an object.
    pub fn is_object(&self) -> (r: bool)
        ensures
            r == (self@ is Object),
    {
        match self {
            Json::Object(_) => true,
            _ => false,
        }
    }
}

impl PartialEq for Json {
    fn eq(&self, other: &Json) -> (r: bool) {
        self.same(other)
    }
}

impl vstd::std_specs::cmp::PartialEqSpecImpl for Json {
    open spec fn obeys_eq_spec() -> bool {
        true
    }

    open spec fn eq_spec(&self, other: &Json) -> bool {
        self@ == other@
    }
}

} // verus!
