//! The key schema over the ordered key-value substrate.
//!
//! | kind          | key                                  |
//! |---------------|--------------------------------------|
//! | label catalog | `l:{ns}:{name}`                      |
//! | counter       | `c:{ns}:{name}`                      |
//! | vertex        | `v:{ns}:{labid}:{locid}`             |
//! | edge          | `e:{ns}:{labid}:{locid}`             |
//! | outgoing      | `o:{ns}:{src_raw_id}:{edge_raw_id}`  |
//! | incoming      | `i:{ns}:{dst_raw_id}:{edge_raw_id}`  |
//!
//! Numbers are written in decimal without leading zeros.

use crate::bytes::{append_bytes, has_prefix};
use crate::types::graphid::{spec_labid, spec_locid, Graphid};
use vstd::prelude::*;
use vstd::string::StringSliceAdditionalSpecFns;
use vstd::utf8::encode_utf8;

verus! {

pub const COLON: u8 = 58;

pub const KIND_VERTEX: u8 = 118;

pub const KIND_EDGE: u8 = 101;

pub const KIND_OUTGOING: u8 = 111;

pub const KIND_INCOMING: u8 = 105;

pub const KIND_LABEL: u8 = 108;

pub const KIND_COUNTER: u8 = 99;

/// Whether a byte is an ASCII digit.
pub open spec fn is_digit(b: u8) -> bool {
    48 <= b <= 57
}

/// Every byte is an ASCII digit.
pub open spec fn all_digits(s: Seq<u8>) -> bool {
    forall|i: int| 0 <= i < s.len() ==> is_digit(#[trigger] s[i])
}

/// The decimal digits of a number, most significant first.
pub open spec fn decimal(n: nat) -> Seq<u8>
    decreases n,
{
    if n < 10 {
        seq![(48 + n) as u8]
    } else {
        decimal(n / 10).push((48 + n % 10) as u8)
    }
}

/// The number that a string of digits denotes.
pub open spec fn decimal_value(s: Seq<u8>) -> nat
    decreases s.len(),
{
    if s.len() == 0 {
        0
    } else {
        decimal_value(s.drop_last()) * 10 + (s.last() - 48) as nat
    }
}

/// What parsing a decimal number gives: a value for a non-empty string of
/// digits that fits 64 bits, nothing otherwise.
pub open spec fn parse_decimal_spec(s: Seq<u8>) -> Option<u64> {
    if s.len() > 0 && all_digits(s) && decimal_value(s) <= u64::MAX {
        Some(decimal_value(s) as u64)
    } else {
        None
    }
}

/// The digits of a number are digits, at least one, and denote the number.
pub proof fn lemma_decimal(n: nat)
    ensures
        decimal(n).len() >= 1,
        all_digits(decimal(n)),
        decimal_value(decimal(n)) == n,
    decreases n,
{
    if n < 10 {
        let s = decimal(n);
        assert(s.drop_last() =~= Seq::<u8>::empty());
        assert(decimal_value(s.drop_last()) == 0);
    } else {
        lemma_decimal(n / 10);
        let s = decimal(n);
        assert(s.drop_last() =~= decimal(n / 10));
        assert forall|i: int| 0 <= i < s.len() implies is_digit(#[trigger] s[i]) by {
            if i < s.len() - 1 {
                assert(s[i] == decimal(n / 10)[i]);
            }
        }
    }
}

/// Parsing the digits of a 64-bit number gives the number back.
pub proof fn lemma_parse_decimal(n: u64)
    ensures
        parse_decimal_spec(decimal(n as nat)) == Some(n),
{
    lemma_decimal(n as nat);
}

/// Different numbers have different digits.
pub proof fn lemma_decimal_injective(a: nat, b: nat)
    ensures
        decimal(a) == decimal(b) ==> a == b,
{
    lemma_decimal(a);
    lemma_decimal(b);
}

/// Two numbers written with a colon between them can be told apart again.
pub proof fn lemma_pair_injective(a: nat, b: nat, c: nat, d: nat)
    requires
        decimal(a) + seq![COLON] + decimal(b) == decimal(c) + seq![COLON] + decimal(d),
    ensures
        a == c,
        b == d,
{
    let x = decimal(a);
    let y = decimal(c);
    let l = x + seq![COLON] + decimal(b);
    let r = y + seq![COLON] + decimal(d);
    lemma_decimal(a);
    lemma_decimal(b);
    lemma_decimal(c);
    lemma_decimal(d);
    if x.len() < y.len() {
        assert(l[x.len() as int] == COLON);
        assert(r[x.len() as int] == y[x.len() as int]);
        assert(is_digit(y[x.len() as int]));
    } else if y.len() < x.len() {
        assert(r[y.len() as int] == COLON);
        assert(l[y.len() as int] == x[y.len() as int]);
        assert(is_digit(x[y.len() as int]));
    }
    assert(x =~= l.subrange(0, x.len() as int));
    assert(y =~= r.subrange(0, y.len() as int));
    assert(decimal(b) =~= l.subrange(x.len() as int + 1, l.len() as int));
    assert(decimal(d) =~= r.subrange(y.len() as int + 1, r.len() as int));
    lemma_decimal_injective(a, c);
    lemma_decimal_injective(b, d);
}

/// What every key of a kind starts with: the kind, the namespace, colons.
pub open spec fn key_head(kind: u8, ns: Seq<u8>) -> Seq<u8> {
    seq![kind, COLON] + ns + seq![COLON]
}

/// Two numbers with a colon between them.
pub open spec fn pair_tail(a: nat, b: nat) -> Seq<u8> {
    decimal(a) + seq![COLON] + decimal(b)
}

/// Key of the vertex record of `id`.
pub open spec fn vertex_key(ns: Seq<u8>, id: u64) -> Seq<u8> {
    key_head(KIND_VERTEX, ns) + pair_tail(spec_labid(id) as nat, spec_locid(id) as nat)
}

/// Key of the edge record of `id`.
pub open spec fn edge_key(ns: Seq<u8>, id: u64) -> Seq<u8> {
    key_head(KIND_EDGE, ns) + pair_tail(spec_labid(id) as nat, spec_locid(id) as nat)
}

/// What the keys of all vertices of one label start with.
pub open spec fn vertex_prefix(ns: Seq<u8>, labid: u16) -> Seq<u8> {
    key_head(KIND_VERTEX, ns) + decimal(labid as nat) + seq![COLON]
}

/// What the keys of all edges of one label start with.
pub open spec fn edge_prefix(ns: Seq<u8>, labid: u16) -> Seq<u8> {
    key_head(KIND_EDGE, ns) + decimal(labid as nat) + seq![COLON]
}

/// What the index keys of all outgoing edges of `src` start with.
pub open spec fn outgoing_prefix(ns: Seq<u8>, src: u64) -> Seq<u8> {
    key_head(KIND_OUTGOING, ns) + decimal(src as nat) + seq![COLON]
}

/// Index key of the edge `eid` that leaves `src`.
pub open spec fn outgoing_key(ns: Seq<u8>, src: u64, eid: u64) -> Seq<u8> {
    outgoing_prefix(ns, src) + decimal(eid as nat)
}

/// What the index keys of all incoming edges of `dst` start with.
pub open spec fn incoming_prefix(ns: Seq<u8>, dst: u64) -> Seq<u8> {
    key_head(KIND_INCOMING, ns) + decimal(dst as nat) + seq![COLON]
}

/// Index key of the edge `eid` that enters `dst`.
pub open spec fn incoming_key(ns: Seq<u8>, dst: u64, eid: u64) -> Seq<u8> {
    incoming_prefix(ns, dst) + decimal(eid as nat)
}

/// What the catalog keys of a namespace start with.
pub open spec fn label_prefix(ns: Seq<u8>) -> Seq<u8> {
    key_head(KIND_LABEL, ns)
}

/// Catalog key of a label name.
pub open spec fn label_key(ns: Seq<u8>, name: Seq<u8>) -> Seq<u8> {
    key_head(KIND_LABEL, ns) + name
}

/// Counter key of a label name.
pub open spec fn counter_key(ns: Seq<u8>, name: Seq<u8>) -> Seq<u8> {
    key_head(KIND_COUNTER, ns) + name
}

/// The kind byte of a key: its first byte.
pub open spec fn kind_of(key: Seq<u8>) -> u8 {
    key[0]
}

/// A head followed by anything has the head's kind.
pub proof fn lemma_kind(kind: u8, ns: Seq<u8>, tail: Seq<u8>)
    ensures
        (key_head(kind, ns) + tail).len() > 0,
        kind_of(key_head(kind, ns) + tail) == kind,
{
    assert((key_head(kind, ns) + tail)[0] == kind);
}

/// Keys with one head are equal only if what follows the head is equal.
pub proof fn lemma_same_head(head: Seq<u8>, a: Seq<u8>, b: Seq<u8>)
    ensures
        (head + a == head + b) <==> (a == b),
{
    if head + a == head + b {
        assert(a =~= (head + a).subrange(head.len() as int, (head + a).len() as int));
        assert(b =~= (head + b).subrange(head.len() as int, (head + b).len() as int));
    }
}

/// Different identifiers have different vertex keys and different edge keys.
pub proof fn lemma_record_key_injective(ns: Seq<u8>, a: u64, b: u64)
    ensures
        vertex_key(ns, a) == vertex_key(ns, b) ==> a == b,
        edge_key(ns, a) == edge_key(ns, b) ==> a == b,
{
    let ta = pair_tail(spec_labid(a) as nat, spec_locid(a) as nat);
    let tb = pair_tail(spec_labid(b) as nat, spec_locid(b) as nat);
    lemma_same_head(key_head(KIND_VERTEX, ns), ta, tb);
    lemma_same_head(key_head(KIND_EDGE, ns), ta, tb);
    if ta == tb {
        lemma_pair_injective(
            spec_labid(a) as nat,
            spec_locid(a) as nat,
            spec_labid(b) as nat,
            spec_locid(b) as nat,
        );
        crate::types::graphid::lemma_unpack_pack(a);
        crate::types::graphid::lemma_unpack_pack(b);
    }
}

/// An index key tells both of its identifiers.
pub proof fn lemma_index_key_injective(ns: Seq<u8>, a: u64, e: u64, b: u64, f: u64)
    ensures
        outgoing_key(ns, a, e) == outgoing_key(ns, b, f) ==> a == b && e == f,
        incoming_key(ns, a, e) == incoming_key(ns, b, f) ==> a == b && e == f,
{
    let ta = pair_tail(a as nat, e as nat);
    let tb = pair_tail(b as nat, f as nat);
    lemma_same_head(key_head(KIND_OUTGOING, ns), ta, tb);
    lemma_same_head(key_head(KIND_INCOMING, ns), ta, tb);
    assert(outgoing_key(ns, a, e) =~= key_head(KIND_OUTGOING, ns) + ta);
    assert(outgoing_key(ns, b, f) =~= key_head(KIND_OUTGOING, ns) + tb);
    assert(incoming_key(ns, a, e) =~= key_head(KIND_INCOMING, ns) + ta);
    assert(incoming_key(ns, b, f) =~= key_head(KIND_INCOMING, ns) + tb);
    if ta == tb {
        lemma_pair_injective(a as nat, e as nat, b as nat, f as nat);
    }
}

/// Different names have different catalog keys and different counter keys.
pub proof fn lemma_name_key_injective(ns: Seq<u8>, a: Seq<u8>, b: Seq<u8>)
    ensures
        label_key(ns, a) == label_key(ns, b) ==> a == b,
        counter_key(ns, a) == counter_key(ns, b) ==> a == b,
{
    lemma_same_head(key_head(KIND_LABEL, ns), a, b);
    lemma_same_head(key_head(KIND_COUNTER, ns), a, b);
}

/// The kind byte of each key of the schema.
pub proof fn lemma_key_kinds(ns: Seq<u8>, id: u64, other: u64, name: Seq<u8>)
    ensures
        kind_of(vertex_key(ns, id)) == KIND_VERTEX,
        kind_of(edge_key(ns, id)) == KIND_EDGE,
        kind_of(outgoing_key(ns, id, other)) == KIND_OUTGOING,
        kind_of(incoming_key(ns, id, other)) == KIND_INCOMING,
        kind_of(label_key(ns, name)) == KIND_LABEL,
        kind_of(counter_key(ns, name)) == KIND_COUNTER,
{
    lemma_kind(KIND_VERTEX, ns, pair_tail(spec_labid(id) as nat, spec_locid(id) as nat));
    lemma_kind(KIND_EDGE, ns, pair_tail(spec_labid(id) as nat, spec_locid(id) as nat));
    lemma_kind(KIND_OUTGOING, ns, pair_tail(id as nat, other as nat));
    lemma_kind(KIND_INCOMING, ns, pair_tail(id as nat, other as nat));
    lemma_kind(KIND_LABEL, ns, name);
    lemma_kind(KIND_COUNTER, ns, name);
    assert(outgoing_key(ns, id, other) =~= key_head(KIND_OUTGOING, ns) + pair_tail(
        id as nat,
        other as nat,
    ));
    assert(incoming_key(ns, id, other) =~= key_head(KIND_INCOMING, ns) + pair_tail(
        id as nat,
        other as nat,
    ));
}

/// An index key starts with the prefix of its vertex, and of no other.
pub proof fn lemma_index_key_prefix(ns: Seq<u8>, src: u64, eid: u64, other: u64)
    ensures
        has_prefix(outgoing_key(ns, src, eid), outgoing_prefix(ns, src)),
        has_prefix(incoming_key(ns, src, eid), incoming_prefix(ns, src)),
        has_prefix(outgoing_key(ns, src, eid), outgoing_prefix(ns, other)) ==> src == other,
        has_prefix(incoming_key(ns, src, eid), incoming_prefix(ns, other)) ==> src == other,
{
    crate::bytes::lemma_prefix_of_concat(outgoing_prefix(ns, src), decimal(eid as nat));
    crate::bytes::lemma_prefix_of_concat(incoming_prefix(ns, src), decimal(eid as nat));
    lemma_tail_prefix(key_head(KIND_OUTGOING, ns), src, eid, other);
    lemma_tail_prefix(key_head(KIND_INCOMING, ns), src, eid, other);
    assert(outgoing_key(ns, src, eid) =~= key_head(KIND_OUTGOING, ns) + pair_tail(
        src as nat,
        eid as nat,
    ));
    assert(incoming_key(ns, src, eid) =~= key_head(KIND_INCOMING, ns) + pair_tail(
        src as nat,
        eid as nat,
    ));
    assert(outgoing_prefix(ns, other) =~= key_head(KIND_OUTGOING, ns) + (decimal(other as nat)
        + seq![COLON]));
    assert(incoming_prefix(ns, other) =~= key_head(KIND_INCOMING, ns) + (decimal(other as nat)
        + seq![COLON]));
}

proof fn lemma_tail_prefix(head: Seq<u8>, src: u64, eid: u64, other: u64)
    ensures
        has_prefix(head + pair_tail(src as nat, eid as nat), head + (decimal(other as nat) + seq![
            COLON,
        ])) ==> src == other,
{
    let key = head + pair_tail(src as nat, eid as nat);
    let x = decimal(src as nat);
    let y = decimal(other as nat);
    let p = head + (y + seq![COLON]);
    lemma_decimal(src as nat);
    lemma_decimal(other as nat);
    lemma_decimal(eid as nat);
    if has_prefix(key, p) {
        let h = head.len() as int;
        assert forall|i: int| 0 <= i < p.len() implies key[i] == p[i] by {
            assert(key.subrange(0, p.len() as int)[i] == p[i]);
        }
        if x.len() < y.len() {
            assert(key[h + x.len()] == COLON);
            assert(p[h + x.len()] == y[x.len() as int]);
            assert(is_digit(y[x.len() as int]));
        } else if y.len() < x.len() {
            assert(p[h + y.len()] == COLON);
            assert(key[h + y.len()] == x[y.len() as int]);
            assert(is_digit(x[y.len() as int]));
        }
        assert forall|i: int| 0 <= i < x.len() implies x[i] == y[i] by {
            assert(key[h + i] == x[i]);
            assert(p[h + i] == y[i]);
        }
        assert(x =~= y);
        lemma_decimal_injective(src as nat, other as nat);
    }
}

/// Appends the decimal digits of `n`.
pub fn push_decimal(out: &mut Vec<u8>, n: u64)
    ensures
        final(out)@ == old(out)@ + decimal(n as nat),
    decreases n,
{
    if n >= 10 {
        push_decimal(out, n / 10);
        let d: u8 = (n % 10) as u8;
        out.push(48 + d);
        assert(out@ =~= old(out)@ + decimal(n as nat));
    } else {
        let d: u8 = n as u8;
        out.push(48 + d);
        assert(out@ =~= old(out)@ + decimal(n as nat));
    }
}

/// The value of a string of digits grows with every digit appended.
pub proof fn lemma_value_monotone(s: Seq<u8>, k: int)
    requires
        0 <= k <= s.len(),
        all_digits(s),
    ensures
        decimal_value(s.subrange(0, k)) <= decimal_value(s),
    decreases s.len() - k,
{
    if k < s.len() {
        lemma_value_monotone(s, k + 1);
        let t = s.subrange(0, k + 1);
        assert(t.drop_last() =~= s.subrange(0, k));
        assert(is_digit(s[k]));
        assert(t.last() == s[k]);
    } else {
        assert(s.subrange(0, k) =~= s);
    }
}

/// Parses a decimal number: a non-empty string of digits whose value fits
/// 64 bits.
pub fn parse_decimal(s: &[u8]) -> (r: Option<u64>)
    ensures
        r == parse_decimal_spec(s@),
{
    if s.len() == 0 {
        return None;
    }
    let mut acc: u64 = 0;
    let mut i: usize = 0;
    assert(s@.subrange(0, 0) =~= Seq::<u8>::empty());
    while i < s.len()
        invariant
            0 <= i <= s.len(),
            all_digits(s@.subrange(0, i as int)),
            acc == decimal_value(s@.subrange(0, i as int)),
        decreases s.len() - i,
    {
        let b = s[i];
        if b < 48 || b > 57 {
            assert(!is_digit(s@[i as int]));
            return None;
        }
        let d: u64 = (b - 48) as u64;
        let ghost next = s@.subrange(0, i as int + 1);
        proof {
            assert(next.drop_last() =~= s@.subrange(0, i as int));
            assert(next.last() == b);
            assert forall|j: int| 0 <= j < next.len() implies is_digit(#[trigger] next[j]) by {
                if j < i {
                    assert(next[j] == s@.subrange(0, i as int)[j]);
                }
            }
        }
        if acc > (u64::MAX - d) / 10 {
            proof {
                assert(decimal_value(next) > u64::MAX);
                if all_digits(s@) {
                    lemma_value_monotone(s@, i as int + 1);
                }
            }
            return None;
        }
        acc = acc * 10 + d;
        i += 1;
    }
    assert(s@.subrange(0, i as int) =~= s@);
    Some(acc)
}

/// Starts a key: the kind, a colon, the namespace, a colon.
fn start_key(kind: u8, ns: &str) -> (r: Vec<u8>)
    ensures
        r@ == key_head(kind, encode_utf8(ns@)),
{
    let mut key: Vec<u8> = Vec::new();
    key.push(kind);
    key.push(COLON);
    append_bytes(&mut key, ns.as_bytes());
    key.push(COLON);
    assert(key@ =~= key_head(kind, encode_utf8(ns@)));
    key
}

/// Builds `head` followed by `a`, a colon and `b` in decimal.
fn pair_key(kind: u8, ns: &str, a: u64, b: u64) -> (r: Vec<u8>)
    ensures
        r@ == key_head(kind, encode_utf8(ns@)) + pair_tail(a as nat, b as nat),
{
    let mut key = start_key(kind, ns);
    push_decimal(&mut key, a);
    key.push(COLON);
    push_decimal(&mut key, b);
    assert(key@ =~= key_head(kind, encode_utf8(ns@)) + pair_tail(a as nat, b as nat));
    key
}

/// Builds `head` followed by `a` in decimal and a colon.
fn number_prefix(kind: u8, ns: &str, a: u64) -> (r: Vec<u8>)
    ensures
        r@ == key_head(kind, encode_utf8(ns@)) + decimal(a as nat) + seq![COLON],
{
    let mut key = start_key(kind, ns);
    push_decimal(&mut key, a);
    key.push(COLON);
    key
}

/// Key of the vertex record of `id`.
pub fn make_vertex_key(ns: &str, id: Graphid) -> (r: Vec<u8>)
    ensures
        r@ == vertex_key(encode_utf8(ns@), id@),
{
    pair_key(KIND_VERTEX, ns, id.labid() as u64, id.locid())
}

/// Key of the edge record of `id`.
pub fn make_edge_key(ns: &str, id: Graphid) -> (r: Vec<u8>)
    ensures
        r@ == edge_key(encode_utf8(ns@), id@),
{
    pair_key(KIND_EDGE, ns, id.labid() as u64, id.locid())
}

/// What the keys of all vertices of one label start with.
pub fn make_vertex_prefix(ns: &str, labid: u16) -> (r: Vec<u8>)
    ensures
        r@ == vertex_prefix(encode_utf8(ns@), labid),
{
    number_prefix(KIND_VERTEX, ns, labid as u64)
}

/// What the keys of all edges of one label start with.
pub fn make_edge_prefix(ns: &str, labid: u16) -> (r: Vec<u8>)
    ensures
        r@ == edge_prefix(encode_utf8(ns@), labid),
{
    number_prefix(KIND_EDGE, ns, labid as u64)
}

/// Index key of the edge `eid` that leaves `src`.
pub fn make_outgoing_key(ns: &str, src: Graphid, eid: Graphid) -> (r: Vec<u8>)
    ensures
        r@ == outgoing_key(encode_utf8(ns@), src@, eid@),
{
    let key = pair_key(KIND_OUTGOING, ns, src.as_raw(), eid.as_raw());
    assert(key@ =~= outgoing_key(encode_utf8(ns@), src@, eid@));
    key
}

/// What the index keys of all outgoing edges of `src` start with.
pub fn make_outgoing_prefix(ns: &str, src: Graphid) -> (r: Vec<u8>)
    ensures
        r@ == outgoing_prefix(encode_utf8(ns@), src@),
{
    number_prefix(KIND_OUTGOING, ns, src.as_raw())
}

/// Index key of the edge `eid` that enters `dst`.
pub fn make_incoming_key(ns: &str, dst: Graphid, eid: Graphid) -> (r: Vec<u8>)
    ensures
        r@ == incoming_key(encode_utf8(ns@), dst@, eid@),
{
    let key = pair_key(KIND_INCOMING, ns, dst.as_raw(), eid.as_raw());
    assert(key@ =~= incoming_key(encode_utf8(ns@), dst@, eid@));
    key
}

/// What the index keys of all incoming edges of `dst` start with.
pub fn make_incoming_prefix(ns: &str, dst: Graphid) -> (r: Vec<u8>)
    ensures
        r@ == incoming_prefix(encode_utf8(ns@), dst@),
{
    number_prefix(KIND_INCOMING, ns, dst.as_raw())
}

/// What the catalog keys of a namespace start with.
pub fn make_label_prefix(ns: &str) -> (r: Vec<u8>)
    ensures
        r@ == label_prefix(encode_utf8(ns@)),
{
    start_key(KIND_LABEL, ns)
}

/// Catalog key of a label name.
pub fn make_label_key(ns: &str, name: &str) -> (r: Vec<u8>)
    ensures
        r@ == label_key(encode_utf8(ns@), encode_utf8(name@)),
{
    let mut key = start_key(KIND_LABEL, ns);
    append_bytes(&mut key, name.as_bytes());
    key
}

/// Counter key of a label name.
pub fn make_counter_key(ns: &str, name: &str) -> (r: Vec<u8>)
    ensures
        r@ == counter_key(encode_utf8(ns@), encode_utf8(name@)),
{
    let mut key = start_key(KIND_COUNTER, ns);
    append_bytes(&mut key, name.as_bytes());
    key
}

/// The second identifier of an index key, given the prefix that the key was
/// found under: what follows the prefix, read as a decimal number.
pub open spec fn index_key_target(key: Seq<u8>, prefix: Seq<u8>) -> Option<u64> {
    if has_prefix(key, prefix) {
        parse_decimal_spec(key.subrange(prefix.len() as int, key.len() as int))
    } else {
        None
    }
}

/// Reads the edge identifier out of an index key found under `prefix`.
pub fn parse_index_key(key: &[u8], prefix: &[u8]) -> (r: Option<Graphid>)
    ensures
        r.is_some() == index_key_target(key@, prefix@).is_some(),
        r matches Some(id) ==> index_key_target(key@, prefix@) == Some(id@),
{
    if !crate::bytes::starts_with(key, prefix) {
        return None;
    }
    let rest = vstd::slice::slice_subrange(key, prefix.len(), key.len());
    match parse_decimal(rest) {
        Some(raw) => Some(Graphid::from_raw(raw)),
        None => None,
    }
}

/// Reading an index key gives back the edge identifier it was built from.
pub proof fn lemma_index_key_target(ns: Seq<u8>, src: u64, eid: u64)
    ensures
        index_key_target(outgoing_key(ns, src, eid), outgoing_prefix(ns, src)) == Some(eid),
        index_key_target(incoming_key(ns, src, eid), incoming_prefix(ns, src)) == Some(eid),
{
    lemma_index_key_prefix(ns, src, eid, src);
    lemma_parse_decimal(eid);
    let ko = outgoing_key(ns, src, eid);
    let po = outgoing_prefix(ns, src);
    assert(ko.subrange(po.len() as int, ko.len() as int) =~= decimal(eid as nat));
    let ki = incoming_key(ns, src, eid);
    let pi = incoming_prefix(ns, src);
    assert(ki.subrange(pi.len() as int, ki.len() as int) =~= decimal(eid as nat));
}

} // verus!
