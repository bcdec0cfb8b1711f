//! Row values: what a variable of a query can be bound to.

use crate::bytes::str_eq;
use crate::executor::error::{ExecutionError, Failure};
use crate::types::edge::{Edge, EdgeView};
use crate::types::graphid::Graphid;
use crate::types::vertex::{Vertex, VertexView};
use vstd::prelude::*;

verus! {

/// A named value: a field of a map value or a binding of a row.
#[derive(Debug)]
pub struct Field {
    pub key: String,
    pub value: RowValue,
}

/// A value in the execution context. A number that is no integer is held
/// as its decimal text.
#[derive(Debug)]
pub enum RowValue {
    Null,
    Boolean(bool),
    Integer(i64),
    Float(String),
    String(String),
    List(Vec<RowValue>),
    Mapping(Vec<Field>),
    Vertex(Vertex),
    Edge(Edge),
    /// Vertices and edges in turn.
    Path(Vec<RowValue>),
}

/// Mathematical model of a value.
pub enum ValueView {
    Null,
    Boolean(bool),
    Integer(i64),
    Float(Seq<char>),
    String(Seq<char>),
    List(Seq<ValueView>),
    Mapping(Seq<(Seq<char>, ValueView)>),
    Vertex(VertexView),
    Edge(EdgeView),
    Path(Seq<ValueView>),
}

/// The model of a value, by recursion over lists, maps and paths.
pub open spec fn value_model(v: RowValue) -> ValueView
    decreases v,
{
    match v {
        RowValue::Null => ValueView::Null,
        RowValue::Boolean(b) => ValueView::Boolean(b),
        RowValue::Integer(i) => ValueView::Integer(i),
        RowValue::Float(t) => ValueView::Float(t@),
        RowValue::String(s) => ValueView::String(s@),
        RowValue::List(items) => ValueView::List(
            Seq::new(
                items.len() as nat,
                |i: int|
                    if 0 <= i < items.len() {
                        value_model(items[i])
                    } else {
                        ValueView::Null
                    },
            ),
        ),
        RowValue::Mapping(fields) => ValueView::Mapping(
            Seq::new(
                fields.len() as nat,
                |i: int|
                    if 0 <= i < fields.len() {
                        (fields[i].key@, value_model(fields[i].value))
                    } else {
                        (Seq::empty(), ValueView::Null)
                    },
            ),
        ),
        RowValue::Vertex(x) => ValueView::Vertex(x@),
        RowValue::Edge(e) => ValueView::Edge(e@),
        RowValue::Path(items) => ValueView::Path(
            Seq::new(
                items.len() as nat,
                |i: int|
                    if 0 <= i < items.len() {
                        value_model(items[i])
                    } else {
                        ValueView::Null
                    },
            ),
        ),
    }
}

impl View for RowValue {
    type V = ValueView;

    open spec fn view(&self) -> ValueView {
        value_model(*self)
    }
}

impl View for Field {
    type V = (Seq<char>, ValueView);

    open spec fn view(&self) -> (Seq<char>, ValueView) {
        (self.key@, self.value@)
    }
}

/// The models of a list of values.
pub open spec fn values_view(vs: Seq<RowValue>) -> Seq<ValueView> {
    vs.map_values(|v: RowValue| v@)
}

/// The models of a list of fields.
pub open spec fn fields_view(fs: Seq<Field>) -> Seq<(Seq<char>, ValueView)> {
    fs.map_values(|f: Field| f@)
}

/// What the model of a list, a map and a path is made of.
pub proof fn lemma_value_unfold(v: RowValue)
    ensures
        v matches RowValue::List(items) ==> v@ == ValueView::List(values_view(items@)),
        v matches RowValue::Path(items) ==> v@ == ValueView::Path(values_view(items@)),
        v matches RowValue::Mapping(fields) ==> v@ == ValueView::Mapping(fields_view(fields@)),
{
    match v {
        RowValue::List(items) => {
            assert(v@->List_0 =~= values_view(items@));
        },
        RowValue::Path(items) => {
            assert(v@->Path_0 =~= values_view(items@));
        },
        RowValue::Mapping(fields) => {
            let a = v@->Mapping_0;
            let b = fields_view(fields@);
            assert(a.len() == b.len());
            assert forall|i: int| 0 <= i < a.len() implies a[i] == b[i] by {
                assert(a[i] == (fields[i].key@, value_model(fields[i].value)));
            }
            assert(a =~= b);
        },
        _ => {},
    }
}

/// `i` is the first of `fs` with the name `key`.
pub open spec fn first_named<T>(fs: Seq<(Seq<char>, T)>, key: Seq<char>, i: int) -> bool {
    &&& 0 <= i < fs.len()
    &&& fs[i].0 == key
    &&& forall|j: int| 0 <= j < i ==> fs[j].0 != key
}

/// Some field is named `key`.
pub open spec fn has_name<T>(fs: Seq<(Seq<char>, T)>, key: Seq<char>) -> bool {
    exists|i: int| first_named(fs, key, i)
}

/// Index of the first field that is named `key`.
pub open spec fn index_named<T>(fs: Seq<(Seq<char>, T)>, key: Seq<char>) -> int {
    choose|i: int| first_named(fs, key, i)
}

/// The value of the first field that is named `key`.
pub open spec fn lookup<T>(fs: Seq<(Seq<char>, T)>, key: Seq<char>) -> Option<T> {
    if has_name(fs, key) {
        Some(fs[index_named(fs, key)].1)
    } else {
        None
    }
}

/// The fields after `key` is bound to `value`: the first field of that
/// name is replaced, or a new field is added at the end.
pub open spec fn bind<T>(fs: Seq<(Seq<char>, T)>, key: Seq<char>, value: T) -> Seq<(Seq<char>, T)> {
    if has_name(fs, key) {
        fs.update(index_named(fs, key), (key, value))
    } else {
        fs.push((key, value))
    }
}

/// A first field of a name is the only first one.
pub proof fn lemma_first_named_unique<T>(fs: Seq<(Seq<char>, T)>, key: Seq<char>, i: int)
    requires
        first_named(fs, key, i),
    ensures
        has_name(fs, key),
        index_named(fs, key) == i,
        lookup(fs, key) == Some(fs[i].1),
{
    let c = index_named(fs, key);
    assert(first_named(fs, key, c));
    if c < i {
        assert(fs[c].0 != key);
    } else if i < c {
        assert(fs[i].0 != key);
    }
}

/// Position of the first field that is named `key`, or the length.
pub fn find_field(fields: &Vec<Field>, key: &str) -> (r: usize)
    ensures
        r <= fields.len(),
        r < fields.len() ==> first_named(fields_view(fields@), key@, r as int) && lookup(
            fields_view(fields@),
            key@,
        ) == Some(fields[r as int].value@) && index_named(fields_view(fields@), key@) == r,
        r == fields.len() ==> !has_name(fields_view(fields@), key@),
{
    let mut i: usize = 0;
    while i < fields.len()
        invariant
            0 <= i <= fields.len(),
            forall|j: int| 0 <= j < i ==> fields_view(fields@)[j].0 != key@,
        decreases fields.len() - i,
    {
        if str_eq(fields[i].key.as_str(), key) {
            proof {
                assert(first_named(fields_view(fields@), key@, i as int));
                lemma_first_named_unique(fields_view(fields@), key@, i as int);
            }
            return i;
        }
        i += 1;
    }
    i
}

impl Clone for Field {
    fn clone(&self) -> (r: Field)
        ensures
            r@ == self@,
        decreases self,
    {
        Field { key: self.key.clone(), value: self.value.clone() }
    }
}

/// A copy of a list of values.
#[verifier::loop_isolation(false)]
fn clone_values(items: &Vec<RowValue>) -> (r: Vec<RowValue>)
    ensures
        values_view(r@) == values_view(items@),
    decreases items,
{
    let mut out: Vec<RowValue> = Vec::new();
    let mut i: usize = 0;
    while i < items.len()
        invariant
            0 <= i <= items.len(),
            out.len() == i,
            forall|k: int| 0 <= k < i ==> out[k]@ == items[k]@,
        decreases items.len() - i,
    {
        out.push(items[i].clone());
        i += 1;
    }
    assert(values_view(out@) =~= values_view(items@));
    out
}

impl Clone for RowValue {
    #[verifier::loop_isolation(false)]
    fn clone(&self) -> (r: RowValue)
        ensures
            r@ == self@,
        decreases self,
    {
        proof {
            lemma_value_unfold(*self);
        }
        match self {
            RowValue::Null => RowValue::Null,
            RowValue::Boolean(b) => RowValue::Boolean(*b),
            RowValue::Integer(i) => RowValue::Integer(*i),
            RowValue::Float(t) => RowValue::Float(t.clone()),
            RowValue::String(s) => RowValue::String(s.clone()),
            RowValue::List(items) => {
                let r = RowValue::List(clone_values(items));
                proof {
                    lemma_value_unfold(r);
                }
                r
            },
            RowValue::Path(items) => {
                let r = RowValue::Path(clone_values(items));
                proof {
                    lemma_value_unfold(r);
                }
                r
            },
            RowValue::Mapping(fields) => {
                let mut out: Vec<Field> = Vec::new();
                let mut i: usize = 0;
                while i < fields.len()
                    invariant
                        0 <= i <= fields.len(),
                        out.len() == i,
                        forall|k: int| 0 <= k < i ==> out[k]@ == fields[k]@,
                    decreases fields.len() - i,
                {
                    let f = &fields[i];
                    out.push(Field { key: f.key.clone(), value: f.value.clone() });
                    i += 1;
                }
                let r = RowValue::Mapping(out);
                proof {
                    lemma_value_unfold(r);
                    assert(fields_view(out@) =~= fields_view(fields@));
                }
                r
            },
            RowValue::Vertex(x) => RowValue::Vertex(x.clone()),
            RowValue::Edge(e) => RowValue::Edge(e.clone()),
        }
    }
}

/// Whether two lists hold the same values.
#[verifier::loop_isolation(false)]
fn same_values(a: &Vec<RowValue>, b: &Vec<RowValue>) -> (r: bool)
    ensures
        r == (values_view(a@) == values_view(b@)),
    decreases a,
{
    if a.len() != b.len() {
        assert(values_view(a@).len() != values_view(b@).len());
        return false;
    }
    let mut i: usize = 0;
    while i < a.len()
        invariant
            a.len() == b.len(),
            0 <= i <= a.len(),
            forall|k: int| 0 <= k < i ==> a[k]@ == b[k]@,
        decreases a.len() - i,
    {
        if !a[i].same(&b[i]) {
            assert(values_view(a@)[i as int] != values_view(b@)[i as int]);
            return false;
        }
        i += 1;
    }
    assert(values_view(a@) =~= values_view(b@));
    true
}

impl RowValue {
    /// Whether two values are the same value.
    #[verifier::loop_isolation(false)]
    pub fn same(&self, other: &RowValue) -> (r: bool)
        ensures
            r == (self@ == other@),
        decreases self,
    {
        proof {
            lemma_value_unfold(*self);
            lemma_value_unfold(*other);
        }
        match (self, other) {
            (RowValue::Null, RowValue::Null) => true,
            (RowValue::Boolean(a), RowValue::Boolean(b)) => *a == *b,
            (RowValue::Integer(a), RowValue::Integer(b)) => *a == *b,
            (RowValue::Float(a), RowValue::Float(b)) => str_eq(a.as_str(), b.as_str()),
            (RowValue::String(a), RowValue::String(b)) => str_eq(a.as_str(), b.as_str()),
            (RowValue::List(a), RowValue::List(b)) => same_values(a, b),
            (RowValue::Path(a), RowValue::Path(b)) => same_values(a, b),
            (RowValue::Mapping(a), RowValue::Mapping(b)) => {
                if a.len() != b.len() {
                    assert(fields_view(a@).len() != fields_view(b@).len());
                    return false;
                }
                let mut i: usize = 0;
                while i < a.len()
                    invariant
                        a.len() == b.len(),
                        0 <= i <= a.len(),
                        forall|k: int| 0 <= k < i ==> a[k]@ == b[k]@,
                    decreases a.len() - i,
                {
                    if !str_eq(a[i].key.as_str(), b[i].key.as_str()) || !a[i].value.same(
                        &b[i].value,
                    ) {
                        assert(fields_view(a@)[i as int] != fields_view(b@)[i as int]);
                        return false;
                    }
                    i += 1;
                }
                assert(fields_view(a@) =~= fields_view(b@));
                true
            },
            (RowValue::Vertex(a), RowValue::Vertex(b)) => a.same(b),
            (RowValue::Edge(a), RowValue::Edge(b)) => a.same(b),
            _ => false,
        }
    }

    /// The vertex that this value is.
    pub fn as_vertex(&self) -> (r: Result<&Vertex, ExecutionError>)
        ensures
            match self@ {
                ValueView::Vertex(x) => r matches Ok(got) && got@ == x,
                _ => r matches Err(e) && e.kind() == Failure::TypeMismatch,
            },
    {
        match self {
            RowValue::Vertex(x) => Ok(x),
            _ => Err(ExecutionError::mismatch("Vertex", "another value")),
        }
    }

    /// The identifier of the vertex or edge that this value is.
    pub fn as_graphid(&self) -> (r: Result<Graphid, ExecutionError>)
        ensures
            match self@ {
                ValueView::Vertex(x) => r matches Ok(id) && id@ == x.id,
                ValueView::Edge(e) => r matches Ok(id) && id@ == e.id,
                _ => r matches Err(e) && e.kind() == Failure::TypeMismatch,
            },
    {
        match self {
            RowValue::Vertex(x) => Ok(x.id),
            RowValue::Edge(e) => Ok(e.id),
            _ => Err(ExecutionError::mismatch("Vertex or Edge", "another value")),
        }
    }

    /// The integer that this value is.
    pub fn as_i64(&self) -> (r: Result<i64, ExecutionError>)
        ensures
            match self@ {
                ValueView::Integer(i) => r matches Ok(got) && got == i,
                _ => r matches Err(e) && e.kind() == Failure::TypeMismatch,
            },
    {
        match self {
            RowValue::Integer(i) => Ok(*i),
            _ => Err(ExecutionError::mismatch("Integer", "another value")),
        }
    }

    /// The text that this value is.
    pub fn as_string(&self) -> (r: Result<&str, ExecutionError>)
        ensures
            match self@ {
                ValueView::String(s) => r matches Ok(got) && got@ == s,
                _ => r matches Err(e) && e.kind() == Failure::TypeMismatch,
            },
    {
        match self {
            RowValue::String(s) => Ok(s.as_str()),
            _ => Err(ExecutionError::mismatch("String", "another value")),
        }
    }

    /// The boolean that this value is.
    pub fn as_bool(&self) -> (r: Result<bool, ExecutionError>)
        ensures
            match self@ {
                ValueView::Boolean(b) => r matches Ok(got) && got == b,
                _ => r matches Err(e) && e.kind() == Failure::TypeMismatch,
            },
    {
        match self {
            RowValue::Boolean(b) => Ok(*b),
            _ => Err(ExecutionError::mismatch("Boolean", "another value")),
        }
    }
}

impl Default for RowValue {
    fn default() -> (r: RowValue)
        ensures
            r@ == ValueView::Null,
    {
        RowValue::Null
    }
}

impl PartialEq for RowValue {
    fn eq(&self, other: &RowValue) -> (r: bool) {
        self.same(other)
    }
}

impl vstd::std_specs::cmp::PartialEqSpecImpl for RowValue {
    open spec fn obeys_eq_spec() -> bool {
        true
    }

    open spec fn eq_spec(&self, other: &RowValue) -> bool {
        self@ == other@
    }
}

/// A row: variables bound to values.
#[derive(Debug)]
pub struct Row {
    pub bindings: Vec<Field>,
}

impl View for Row {
    type V = Seq<(Seq<char>, ValueView)>;

    open spec fn view(&self) -> Seq<(Seq<char>, ValueView)> {
        fields_view(self.bindings@)
    }
}

impl Clone for Row {
    fn clone(&self) -> (r: Row)
        ensures
            r@ == self@,
    {
        let mut out: Vec<Field> = Vec::new();
        let mut i: usize = 0;
        while i < self.bindings.len()
            invariant
                0 <= i <= self.bindings.len(),
                out.len() == i,
                forall|k: int| 0 <= k < i ==> out[k]@ == self.bindings[k]@,
            decreases self.bindings.len() - i,
        {
            out.push(self.bindings[i].clone());
            i += 1;
        }
        let r = Row { bindings: out };
        assert(r@ =~= self@);
        r
    }
}

impl Default for Row {
    fn default() -> (r: Row)
        ensures
            r@ == Seq::<(Seq<char>, ValueView)>::empty(),
    {
        Row::new()
    }
}

impl Row {
    /// A row without bindings.
    pub fn new() -> (r: Row)
        ensures
            r@ == Seq::<(Seq<char>, ValueView)>::empty(),
    {
        let r = Row { bindings: Vec::new() };
        assert(r@ =~= Seq::<(Seq<char>, ValueView)>::empty());
        r
    }

    /// The row with `name` bound to `value`.
    pub fn with_binding(self, name: &str, value: RowValue) -> (r: Row)
        ensures
            r@ == bind(self@, name@, value@),
    {
        let mut row = self;
        row.insert(name, value);
        row
    }

    /// The value that `name` is bound to.
    pub fn get(&self, name: &str) -> (r: Option<&RowValue>)
        ensures
            match r {
                Some(v) => lookup(self@, name@) == Some(v@),
                None => lookup(self@, name@) is None,
            },
    {
        let i = find_field(&self.bindings, name);
        if i < self.bindings.len() {
            Some(&self.bindings[i].value)
        } else {
            None
        }
    }

    /// Binds `name` to `value`: a binding of that name is replaced, a new
    /// one is added at the end.
    pub fn insert(&mut self, name: &str, value: RowValue)
        ensures
            final(self)@ == bind(old(self)@, name@, value@),
    {
        let ghost before = self@;
        let i = find_field(&self.bindings, name);
        if i < self.bindings.len() {
            self.bindings[i] = Field { key: name.to_owned(), value };
            assert(self@ =~= before.update(i as int, (name@, value@)));
        } else {
            self.bindings.push(Field { key: name.to_owned(), value });
            assert(self@ =~= before.push((name@, value@)));
        }
    }

    /// The number of bindings.
    pub fn len(&self) -> (r: usize)
        ensures
            r == self@.len(),
    {
        self.bindings.len()
    }

    /// Whether two rows hold the same bindings in the same order.
    pub fn same(&self, other: &Row) -> (r: bool)
        ensures
            r == (self@ == other@),
    {
        if self.bindings.len() != other.bindings.len() {
            assert(self@.len() != other@.len());
            return false;
        }
        let mut i: usize = 0;
        while i < self.bindings.len()
            invariant
                self.bindings.len() == other.bindings.len(),
                0 <= i <= self.bindings.len(),
                forall|k: int| 0 <= k < i ==> self.bindings[k]@ == other.bindings[k]@,
            decreases self.bindings.len() - i,
        {
            if !str_eq(self.bindings[i].key.as_str(), other.bindings[i].key.as_str())
                || !self.bindings[i].value.same(&other.bindings[i].value) {
                assert(self@[i as int] != other@[i as int]);
                return false;
            }
            i += 1;
        }
        assert(self@ =~= other@);
        true
    }
}

impl PartialEq for Row {
    fn eq(&self, other: &Row) -> (r: bool) {
        self.same(other)
    }
}

impl vstd::std_specs::cmp::PartialEqSpecImpl for Row {
    open spec fn obeys_eq_spec() -> bool {
        true
    }

    open spec fn eq_spec(&self, other: &Row) -> bool {
        self@ == other@
    }
}

/// The models of a list of rows.
pub open spec fn rows_view(rows: Seq<Row>) -> Seq<Seq<(Seq<char>, ValueView)>> {
    rows.map_values(|r: Row| r@)
}

} // verus!
