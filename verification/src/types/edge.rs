//! Edges: directed, labelled, with JSON properties.

use crate::json::{Json, JsonView, Member};
use crate::types::graphid::Graphid;
use crate::types::vertex::members_of;
use vstd::prelude::*;

verus! {

/// A directed edge from `start` to `end`. Self-loops are allowed.
#[derive(Debug)]
pub struct Edge {
    /// Unique identifier.
    pub id: Graphid,
    /// Source vertex.
    pub start: Graphid,
    /// Target vertex.
    pub end: Graphid,
    /// Label name, such as `KNOWS`.
    pub label: String,
    /// Properties; an object in every record the engine creates.
    pub properties: Json,
}

/// Mathematical model of an edge.
pub struct EdgeView {
    pub id: u64,
    pub start: u64,
    pub end: u64,
    pub label: Seq<char>,
    pub properties: JsonView,
}

impl EdgeView {
    /// The same edge with its endpoints exchanged.
    pub open spec fn reversed(self) -> EdgeView {
        EdgeView { start: self.end, end: self.start, ..self }
    }
}

impl View for Edge {
    type V = EdgeView;

    open spec fn view(&self) -> EdgeView {
        EdgeView {
            id: self.id@,
            start: self.start@,
            end: self.end@,
            label: self.label@,
            properties: self.properties@,
        }
    }
}

impl Clone for Edge {
    fn clone(&self) -> (r: Edge)
        ensures
            r@ == self@,
    {
        Edge {
            id: self.id,
            start: self.start,
            end: self.end,
            label: self.label.clone(),
            properties: self.properties.clone(),
        }
    }
}

impl Edge {
    /// An edge with the given parts.
    pub fn new(id: Graphid, start: Graphid, end: Graphid, label: &str, properties: Json) -> (r:
        Edge)
        ensures
            r@ == (EdgeView {
                id: id@,
                start: start@,
                end: end@,
                label: label@,
                properties: properties@,
            }),
    {
        Edge { id, start, end, label: label.to_owned(), properties }
    }

    /// An edge whose properties are the empty object.
    pub fn new_empty(id: Graphid, start: Graphid, end: Graphid, label: &str) -> (r: Edge)
        ensures
            r@ == (EdgeView {
                id: id@,
                start: start@,
                end: end@,
                label: label@,
                properties: JsonView::Object(Seq::empty()),
            }),
    {
        Edge::new(id, start, end, label, Json::empty_object())
    }

    /// The property under `key`, if the properties are an object that has it.
    pub fn get_property(&self, key: &str) -> (r: Option<&Json>)
        ensures
            match r {
                Some(j) => self@.properties.get(key@) == Some(j@),
                None => self@.properties.get(key@) is None,
            },
    {
        self.properties.get(key)
    }

    /// Sets a property; does nothing when the properties are no object.
    pub fn set_property(&mut self, key: &str, value: Json)
        ensures
            final(self)@ == (EdgeView {
                properties: old(self)@.properties.with_member(key@, value@),
                ..old(self)@
            }),
    {
        self.properties.set_member(key.to_owned(), value);
    }

    /// Removes a property and returns the value it had.
    pub fn remove_property(&mut self, key: &str) -> (r: Option<Json>)
        ensures
            final(self)@ == (EdgeView {
                properties: old(self)@.properties.without_member(key@),
                ..old(self)@
            }),
            match r {
                Some(j) => old(self)@.properties.get(key@) == Some(j@),
                None => old(self)@.properties.get(key@) is None,
            },
    {
        self.properties.remove_member(key)
    }

    /// The property keys, in member order.
    pub fn property_keys(&self) -> (r: Vec<String>)
        ensures
            r.deep_view() == self@.properties.keys(),
    {
        self.properties.keys()
    }

    /// Whether the properties hold `key`.
    pub fn has_property(&self, key: &str) -> (r: bool)
        ensures
            r == self@.properties.get(key@).is_some(),
    {
        self.properties.has(key)
    }

    /// The properties as a list of members; empty when they are no object.
    pub fn properties_as_map(&self) -> (r: Vec<Member>)
        ensures
            r@.map_values(|m: Member| m@) == self@.properties.members(),
    {
        members_of(&self.properties)
    }

    /// Whether the edge starts and ends at the same vertex.
    pub fn is_self_loop(&self) -> (r: bool)
        ensures
            r == (self@.start == self@.end),
    {
        self.start.0 == self.end.0
    }

    /// The same edge with its endpoints exchanged.
    pub fn reverse(&self) -> (r: Edge)
        ensures
            r@ == self@.reversed(),
    {
        Edge {
            id: self.id,
            start: self.end,
            end: self.start,
            label: self.label.clone(),
            properties: self.properties.clone(),
        }
    }

    /// Whether two edges are the same record.
    pub fn same(&self, other: &Edge) -> (r: bool)
        ensures
            r == (self@ == other@),
    {
        self.id.0 == other.id.0 && self.start.0 == other.start.0 && self.end.0 == other.end.0
            && crate::bytes::str_eq(self.label.as_str(), other.label.as_str())
            && self.properties.same(&other.properties)
    }
}

impl PartialEq for Edge {
    fn eq(&self, other: &Edge) -> (r: bool) {
        self.same(other)
    }
}

impl vstd::std_specs::cmp::PartialEqSpecImpl for Edge {
    open spec fn obeys_eq_spec() -> bool {
        true
    }

    open spec fn eq_spec(&self, other: &Edge) -> bool {
        self@ == other@
    }
}

} // verus!
