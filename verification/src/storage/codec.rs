//! The record wire format: each vertex and edge record is the UTF-8 text of
//! a JSON object, `{"id": "<raw>", "label": "...", "properties": {...}}`,
//! with `"start"` and `"end"` added for an edge. Identifiers are written as
//! decimal strings.

use crate::json::{Json, JsonView, Member};
use crate::storage::error::StorageError;
use crate::text::{decimal_string, decimal_text, parse_decimal_str, parse_text_spec};
use crate::types::edge::{Edge, EdgeView};
use crate::types::graphid::Graphid;
use crate::types::vertex::{Vertex, VertexView};
use serde_json::Value;
use vstd::prelude::*;

verus! {

#[verifier::external_type_specification]
#[verifier::external_body]
pub struct ExValue(serde_json::Value);

#[verifier::external_type_specification]
#[verifier::external_body]
pub struct ExNumber(serde_json::Number);

/// The JSON text that `serde_json::to_vec` writes for a value, where it
/// writes one.
pub uninterp spec fn json_encoding(v: JsonView) -> Option<Seq<u8>>;

/// The value that `serde_json::from_slice` reads from a text, where it
/// reads one.
pub uninterp spec fn json_decoding(bytes: Seq<u8>) -> Option<JsonView>;

/// The value that `serde_json::from_str` reads from the text of one number.
pub uninterp spec fn number_decoding(text: Seq<char>) -> Option<JsonView>;

/// Rebuilds a `serde_json::Number` as plain data: `as_i64` where it answers,
/// else `as_u64`, else the text that `to_string` prints. Nothing is claimed
/// of the result.
#[verifier::external_body]
fn number_from_outside(n: &serde_json::Number) -> Json {
    match (n.as_i64(), n.as_u64()) {
        (Some(i), _) => Json::Int(i),
        (_, Some(u)) => Json::UInt(u),
        _ => Json::Float(n.to_string()),
    }
}

/// Rebuilds a `serde_json::Value` as plain data, variant by variant; the
/// members of an object come in the order in which its map yields them.
/// Nothing is claimed of the result.
#[verifier::external_body]
fn from_outside(v: &Value) -> Json {
    match v {
        Value::Null => Json::Null,
        Value::Bool(b) => Json::Bool(*b),
        Value::Number(n) => number_from_outside(n),
        Value::String(s) => Json::Str(s.clone()),
        Value::Array(a) => Json::Array(a.iter().map(from_outside).collect()),
        Value::Object(m) => Json::Object(
            m.iter().map(|(k, x)| Member { key: k.clone(), value: from_outside(x) }).collect(),
        ),
    }
}

/// Builds the `serde_json::Value` for plain data, variant by variant. The
/// text of a number is handed to `serde_json::from_str`; there is no value
/// where that reads no number. Nothing is claimed of the result.
#[verifier::external_body]
fn to_outside(v: &Json) -> Option<Value> {
    Some(match v {
        Json::Null => Value::Null,
        Json::Bool(b) => Value::Bool(*b),
        Json::Int(i) => Value::from(*i),
        Json::UInt(u) => Value::from(*u),
        Json::Float(t) => Value::Number(serde_json::from_str::<serde_json::Number>(t).ok()?),
        Json::Str(s) => Value::String(s.clone()),
        Json::Array(a) => Value::Array(a.iter().map(to_outside).collect::<Option<_>>()?),
        Json::Object(m) => Value::Object(
            m.iter().map(|x| Some((x.key.clone(), to_outside(&x.value)?))).collect::<Option<_>>()?,
        ),
    })
}

/// Writes a value as JSON text with `serde_json::to_vec`. The contract only
/// names the text: the same value always gives the same text.
#[verifier::external_body]
fn encode_json(v: &Json) -> (r: Option<Vec<u8>>)
    ensures
        r.is_some() == json_encoding(v@).is_some(),
        r matches Some(b) ==> json_encoding(v@) == Some(b@),
{
    serde_json::to_vec(&to_outside(v)?).ok()
}

/// Reads JSON text with `serde_json::from_slice`. The contract only names
/// the value: the same text always gives the same value, or fails.
#[verifier::external_body]
fn decode_json(bytes: &[u8]) -> (r: Result<Json, String>)
    ensures
        r.is_ok() == json_decoding(bytes@).is_some(),
        r matches Ok(j) ==> json_decoding(bytes@) == Some(j@),
{
    match serde_json::from_slice::<Value>(bytes) {
        Ok(v) => Ok(from_outside(&v)),
        Err(e) => Err(e.to_string()),
    }
}

/// Reads the text of one JSON number with `serde_json::from_str` and gives
/// it in the form in which a stored number reads back. The contract only
/// names the value.
#[verifier::external_body]
fn decode_number(text: &str) -> (r: Option<Json>)
    ensures
        r.is_some() == number_decoding(text@).is_some(),
        r matches Some(j) ==> number_decoding(text@) == Some(j@),
{
    serde_json::from_str::<serde_json::Number>(text).ok().map(|n| number_from_outside(&n))
}

/// The member name of a record's identifier.
pub open spec fn key_id() -> Seq<char> {
    "id"@
}

/// The member name of a record's label.
pub open spec fn key_label() -> Seq<char> {
    "label"@
}

/// The member name of a record's properties.
pub open spec fn key_properties() -> Seq<char> {
    "properties"@
}

/// The member name of an edge's source.
pub open spec fn key_start() -> Seq<char> {
    "start"@
}

/// The member name of an edge's target.
pub open spec fn key_end() -> Seq<char> {
    "end"@
}

/// An identifier as a record holds it: a string of decimal digits.
pub open spec fn id_json(id: u64) -> JsonView {
    JsonView::Str(decimal_text(id as nat))
}

/// The identifier that a member holds, if it is a string of digits.
pub open spec fn json_id(j: Option<JsonView>) -> Option<u64> {
    match j {
        Some(JsonView::Str(t)) => parse_text_spec(t),
        _ => None,
    }
}

/// The text that a member holds, if it is a string.
pub open spec fn json_text(j: Option<JsonView>) -> Option<Seq<char>> {
    match j {
        Some(JsonView::Str(t)) => Some(t),
        _ => None,
    }
}

/// The JSON object of a vertex record.
pub open spec fn vertex_json(v: VertexView) -> JsonView {
    JsonView::Object(Seq::empty()).with_member(key_id(), id_json(v.id)).with_member(
        key_label(),
        JsonView::Str(v.label),
    ).with_member(key_properties(), v.properties)
}

/// The vertex that a JSON value stands for. A record without properties
/// reads as one whose properties are null.
pub open spec fn json_vertex(j: JsonView) -> Option<VertexView> {
    match (json_id(j.get(key_id())), json_text(j.get(key_label()))) {
        (Some(id), Some(label)) => Some(
            VertexView {
                id,
                label,
                properties: match j.get(key_properties()) {
                    Some(p) => p,
                    None => JsonView::Null,
                },
            },
        ),
        _ => None,
    }
}

/// The JSON object of an edge record.
pub open spec fn edge_json(e: EdgeView) -> JsonView {
    JsonView::Object(Seq::empty()).with_member(key_id(), id_json(e.id)).with_member(
        key_start(),
        id_json(e.start),
    ).with_member(key_end(), id_json(e.end)).with_member(
        key_label(),
        JsonView::Str(e.label),
    ).with_member(key_properties(), e.properties)
}

/// The edge that a JSON value stands for.
pub open spec fn json_edge(j: JsonView) -> Option<EdgeView> {
    match (
        json_id(j.get(key_id())),
        json_id(j.get(key_start())),
        json_id(j.get(key_end())),
        json_text(j.get(key_label())),
    ) {
        (Some(id), Some(start), Some(end), Some(label)) => Some(
            EdgeView {
                id,
                start,
                end,
                label,
                properties: match j.get(key_properties()) {
                    Some(p) => p,
                    None => JsonView::Null,
                },
            },
        ),
        _ => None,
    }
}

/// The vertex that a stored value reads as.
pub open spec fn decode_vertex_spec(bytes: Seq<u8>) -> Option<VertexView> {
    match json_decoding(bytes) {
        Some(j) => json_vertex(j),
        None => None,
    }
}

/// The edge that a stored value reads as.
pub open spec fn decode_edge_spec(bytes: Seq<u8>) -> Option<EdgeView> {
    match json_decoding(bytes) {
        Some(j) => json_edge(j),
        None => None,
    }
}

/// The bytes that a vertex is stored as: there are some exactly when the
/// record can be written and reads back as the same vertex.
pub open spec fn encode_vertex_spec(v: VertexView) -> Option<Seq<u8>> {
    match json_encoding(vertex_json(v)) {
        Some(b) => if decode_vertex_spec(b) == Some(v) {
            Some(b)
        } else {
            None
        },
        None => None,
    }
}

/// The bytes that an edge is stored as: there are some exactly when the
/// record can be written and reads back as the same edge.
pub open spec fn encode_edge_spec(e: EdgeView) -> Option<Seq<u8>> {
    match json_encoding(edge_json(e)) {
        Some(b) => if decode_edge_spec(b) == Some(e) {
            Some(b)
        } else {
            None
        },
        None => None,
    }
}

/// What is stored reads back as what was written.
pub proof fn lemma_record_round_trip(v: VertexView, e: EdgeView)
    ensures
        encode_vertex_spec(v) matches Some(b) ==> decode_vertex_spec(b) == Some(v),
        encode_edge_spec(e) matches Some(b) ==> decode_edge_spec(b) == Some(e),
{
}

/// The identifier held under `key`, if it is a string of digits.
fn read_id(j: &Json, key: &str) -> (r: Option<Graphid>)
    ensures
        r.is_some() == json_id(j@.get(key@)).is_some(),
        r matches Some(id) ==> json_id(j@.get(key@)) == Some(id@),
{
    match j.get(key) {
        Some(Json::Str(t)) => match parse_decimal_str(t.as_str()) {
            Some(raw) => Some(Graphid::from_raw(raw)),
            None => None,
        },
        _ => None,
    }
}

/// The text held under `key`, if it is a string.
fn read_text(j: &Json, key: &str) -> (r: Option<String>)
    ensures
        r.is_some() == json_text(j@.get(key@)).is_some(),
        r matches Some(t) ==> json_text(j@.get(key@)) == Some(t@),
{
    match j.get(key) {
        Some(Json::Str(t)) => Some(t.clone()),
        _ => None,
    }
}

/// The properties of a record: what `properties` holds, or null.
fn read_properties(j: &Json) -> (r: Json)
    ensures
        r@ == match j@.get(key_properties()) {
            Some(p) => p,
            None => JsonView::Null,
        },
{
    match j.get("properties") {
        Some(p) => p.clone(),
        None => Json::Null,
    }
}

/// The JSON object of a vertex record.
pub fn vertex_to_json(v: &Vertex) -> (r: Json)
    ensures
        r@ == vertex_json(v@),
{
    let mut j = Json::empty_object();
    j.set_member("id".to_owned(), Json::Str(decimal_string(v.id.as_raw())));
    j.set_member("label".to_owned(), Json::Str(v.label.clone()));
    j.set_member("properties".to_owned(), v.properties.clone());
    j
}

/// The vertex that a JSON value stands for.
pub fn vertex_from_json(j: &Json) -> (r: Option<Vertex>)
    ensures
        r.is_some() == json_vertex(j@).is_some(),
        r matches Some(v) ==> json_vertex(j@) == Some(v@),
{
    let id = read_id(j, "id");
    let label = read_text(j, "label");
    match (id, label) {
        (Some(id), Some(label)) => Some(Vertex { id, label, properties: read_properties(j) }),
        _ => None,
    }
}

/// The JSON object of an edge record.
pub fn edge_to_json(e: &Edge) -> (r: Json)
    ensures
        r@ == edge_json(e@),
{
    let mut j = Json::empty_object();
    j.set_member("id".to_owned(), Json::Str(decimal_string(e.id.as_raw())));
    j.set_member("start".to_owned(), Json::Str(decimal_string(e.start.as_raw())));
    j.set_member("end".to_owned(), Json::Str(decimal_string(e.end.as_raw())));
    j.set_member("label".to_owned(), Json::Str(e.label.clone()));
    j.set_member("properties".to_owned(), e.properties.clone());
    j
}

/// The edge that a JSON value stands for.
pub fn edge_from_json(j: &Json) -> (r: Option<Edge>)
    ensures
        r.is_some() == json_edge(j@).is_some(),
        r matches Some(e) ==> json_edge(j@) == Some(e@),
{
    let id = read_id(j, "id");
    let start = read_id(j, "start");
    let end = read_id(j, "end");
    let label = read_text(j, "label");
    match (id, start, end, label) {
        (Some(id), Some(start), Some(end), Some(label)) => Some(
            Edge { id, start, end, label, properties: read_properties(j) },
        ),
        _ => None,
    }
}

/// Reads a stored vertex record.
pub fn decode_vertex(bytes: &[u8]) -> (r: Result<Vertex, StorageError>)
    ensures
        r.is_ok() == decode_vertex_spec(bytes@).is_some(),
        r matches Ok(v) ==> decode_vertex_spec(bytes@) == Some(v@),
        r matches Err(e) ==> e is SerializationError,
{
    match decode_json(bytes) {
        Ok(j) => match vertex_from_json(&j) {
            Some(v) => Ok(v),
            None => Err(StorageError::SerializationError("not a vertex record".to_owned())),
        },
        Err(message) => Err(StorageError::SerializationError(message)),
    }
}

/// Reads a stored edge record.
pub fn decode_edge(bytes: &[u8]) -> (r: Result<Edge, StorageError>)
    ensures
        r.is_ok() == decode_edge_spec(bytes@).is_some(),
        r matches Ok(e) ==> decode_edge_spec(bytes@) == Some(e@),
        r matches Err(e) ==> e is SerializationError,
{
    match decode_json(bytes) {
        Ok(j) => match edge_from_json(&j) {
            Some(e) => Ok(e),
            None => Err(StorageError::SerializationError("not an edge record".to_owned())),
        },
        Err(message) => Err(StorageError::SerializationError(message)),
    }
}

/// Writes a vertex record. The bytes are read back before they are handed
/// out: a record that would not read back as the same vertex is refused.
pub fn encode_vertex(v: &Vertex) -> (r: Result<Vec<u8>, StorageError>)
    ensures
        r.is_ok() == encode_vertex_spec(v@).is_some(),
        r matches Ok(b) ==> encode_vertex_spec(v@) == Some(b@),
        r matches Err(e) ==> e is SerializationError,
{
    let j = vertex_to_json(v);
    match encode_json(&j) {
        Some(bytes) => {
            match decode_vertex(bytes.as_slice()) {
                Ok(back) => {
                    if back.same(v) {
                        return Ok(bytes);
                    }
                },
                Err(_) => {},
            }
            Err(StorageError::SerializationError("record does not read back".to_owned()))
        },
        None => Err(StorageError::SerializationError("record cannot be written".to_owned())),
    }
}

/// Writes an edge record. The bytes are read back before they are handed
/// out: a record that would not read back as the same edge is refused.
pub fn encode_edge(e: &Edge) -> (r: Result<Vec<u8>, StorageError>)
    ensures
        r.is_ok() == encode_edge_spec(e@).is_some(),
        r matches Ok(b) ==> encode_edge_spec(e@) == Some(b@),
        r matches Err(err) ==> err is SerializationError,
{
    let j = edge_to_json(e);
    match encode_json(&j) {
        Some(bytes) => {
            match decode_edge(bytes.as_slice()) {
                Ok(back) => {
                    if back.same(e) {
                        return Ok(bytes);
                    }
                },
                Err(_) => {},
            }
            Err(StorageError::SerializationError("record does not read back".to_owned()))
        },
        None => Err(StorageError::SerializationError("record cannot be written".to_owned())),
    }
}

/// Reads the text of a number as a JSON number in stored form: an integer
/// where it is one, else its decimal text as the codec prints it.
pub fn parse_number(text: &str) -> (r: Option<Json>)
    ensures
        r.is_some() == number_decoding(text@).is_some(),
        r matches Some(j) ==> number_decoding(text@) == Some(j@),
{
    decode_number(text)
}

/// Writes any JSON value as text.
pub fn json_to_bytes(v: &Json) -> (r: Option<Vec<u8>>)
    ensures
        r.is_some() == json_encoding(v@).is_some(),
        r matches Some(b) ==> json_encoding(v@) == Some(b@),
{
    encode_json(v)
}

/// Reads any JSON text.
pub fn json_from_bytes(bytes: &[u8]) -> (r: Option<Json>)
    ensures
        r.is_some() == json_decoding(bytes@).is_some(),
        r matches Some(j) ==> json_decoding(bytes@) == Some(j@),
{
    match decode_json(bytes) {
        Ok(j) => Some(j),
        Err(_) => None,
    }
}

} // verus!
