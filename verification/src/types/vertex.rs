//! Vertices: an identifier, a label and a bag of JSON properties.

use crate::json::{Json, JsonView, Member};
use crate::types::graphid::Graphid;
use vstd::prelude::*;

verus! {

/// A graph vertex.
#[derive(Debug)]
pub struct Vertex {
    /// Unique identifier.
    pub id: Graphid,
    /// Label name, such as `Person`.
    pub label: String,
    /// Properties; an object in every record the engine creates.
    pub properties: Json,
}

/// Mathematical model of a vertex.
pub struct VertexView {
    pub id: u64,
    pub label: Seq<char>,
    pub properties: JsonView,
}

impl View for Vertex {
    type V = VertexView;

    open spec fn view(&self) -> VertexView {
        VertexView { id: self.id@, label: self.label@, properties: self.properties@ }
    }
}

impl Clone for Vertex {
    fn clone(&self) -> (r: Vertex)
        ensures
            r@ == self@,
    {
        Vertex { id: self.id, label: self.label.clone(), properties: self.properties.clone() }
    }
}

impl Vertex {
    /// A vertex with the given parts.
    pub fn new(id: Graphid, label: &str, properties: Json) -> (r: Vertex)
        ensures
            r@ == (VertexView { id: id@, label: label@, properties: properties@ }),
    {
        Vertex { id, label: label.to_owned(), properties }
    }

    /// A vertex whose properties are the empty object.
    pub fn new_empty(id: Graphid, label: &str) -> (r: Vertex)
        ensures
            r@ == (VertexView {
                id: id@,
                label: label@,
                properties: JsonView::Object(Seq::empty()),
            }),
    {
        Vertex::new(id, label, Json::empty_object())
    }

    /// The property under `key`, if the properties are an object that has it.
    pub fn get_property(&self, key: &str) -> (r: Option<&Json>)
        ensures
            match r {
                Some(j) => self@.properties.get(key@) == Some(j@),
                None => self@.properties.get(key@) is None,
            },
    {
        self.properties.get(key)
    }

    /// Sets a property; does nothing when the properties are no object.
    pub fn set_property(&mut self, key: &str, value: Json)
        ensures
            final(self)@ == (VertexView {
                properties: old(self)@.properties.with_member(key@, value@),
                ..old(self)@
            }),
    {
        self.properties.set_member(key.to_owned(), value);
    }

    /// Removes a property and returns the value it had.
    pub fn remove_property(&mut self, key: &str) -> (r: Option<Json>)
        ensures
            final(self)@ == (VertexView {
                properties: old(self)@.properties.without_member(key@),
                ..old(self)@
            }),
            match r {
                Some(j) => old(self)@.properties.get(key@) == Some(j@),
                None => old(self)@.properties.get(key@) is None,
            },
    {
        self.properties.remove_member(key)
    }

    /// The property keys, in member order.
    pub fn property_keys(&self) -> (r: Vec<String>)
        ensures
            r.deep_view() == self@.properties.keys(),
    {
        self.properties.keys()
    }

    /// Whether the properties hold `key`.
    pub fn has_property(&self, key: &str) -> (r: bool)
        ensures
            r == self@.properties.get(key@).is_some(),
    {
        self.properties.has(key)
    }

    /// The properties as a list of members; empty when they are no object.
    pub fn properties_as_map(&self) -> (r: Vec<Member>)
        ensures
            r@.map_values(|m: Member| m@) == self@.properties.members(),
    {
        members_of(&self.properties)
    }

    /// Whether two vertices are the same record.
    pub fn same(&self, other: &Vertex) -> (r: bool)
        ensures
            r == (self@ == other@),
    {
        self.id.0 == other.id.0 && crate::bytes::str_eq(self.label.as_str(), other.label.as_str())
            && self.properties.same(&other.properties)
    }
}

/// A copy of the members of an object; nothing for any other value.
pub fn members_of(j: &Json) -> (r: Vec<Member>)
    ensures
        r@.map_values(|m: Member| m@) == j@.members(),
{
    proof {
        crate::json::lemma_view_unfold(*j);
    }
    let mut out: Vec<Member> = Vec::new();
    match j {
        Json::Object(members) => {
            let mut i: usize = 0;
            while i < members.len()
                invariant
                    0 <= i <= members.len(),
                    out.len() == i,
                    forall|k: int| 0 <= k < i ==> out[k]@ == members[k]@,
                decreases members.len() - i,
            {
                out.push(members[i].clone());
                i += 1;
            }
            assert(out@.map_values(|m: Member| m@) =~= j@.members());
        },
        _ => {
            assert(out@.map_values(|m: Member| m@) =~= j@.members());
        },
    }
    out
}

impl PartialEq for Vertex {
    fn eq(&self, other: &Vertex) -> (r: bool) {
        self.same(other)
    }
}

impl vstd::std_specs::cmp::PartialEqSpecImpl for Vertex {
    open spec fn obeys_eq_spec() -> bool {
        true
    }

    open spec fn eq_spec(&self, other: &Vertex) -> bool {
        self@ == other@
    }
}

} // verus!
