//! 64-bit packed identifiers: a 16-bit label ordinal above a 48-bit local
//! ordinal.

use crate::storage::keys::{parse_decimal, parse_decimal_spec};
use crate::text::{decimal_text, push_decimal_text};
use vstd::utf8::encode_utf8;
use vstd::prelude::*;
use vstd::string::StringExecFns;

verus! {

/// Largest local ordinal: 2^48 - 1.
pub const MAX_LOCID: u64 = 0x0000_FFFF_FFFF_FFFF;

/// Largest label ordinal: 2^16 - 1.
pub const MAX_LABID: u16 = 0xFFFF;

/// The label ordinal packed in a raw identifier.
pub open spec fn spec_labid(raw: u64) -> u16 {
    (raw >> 48) as u16
}

/// The local ordinal packed in a raw identifier.
pub open spec fn spec_locid(raw: u64) -> u64 {
    raw & 0x0000_FFFF_FFFF_FFFFu64
}

/// The raw identifier that packs a label ordinal and a local ordinal.
pub open spec fn spec_pack(labid: u16, locid: u64) -> u64 {
    ((labid as u64) << 48) | locid
}

/// The display form of an identifier: `labid.locid`, both in decimal.
pub open spec fn display_text(raw: u64) -> Seq<char> {
    decimal_text(spec_labid(raw) as nat) + seq!['.'] + decimal_text(spec_locid(raw) as nat)
}

/// Why an identifier could not be built.
#[derive(Debug, Clone, Copy, PartialEq, Eq, Structural)]
pub enum GraphidError {
    /// The local ordinal needs more than 48 bits.
    LocidOutOfRange(u64),
    /// The raw value is not an identifier.
    InvalidValue(u64),
}

/// Identifier of a vertex or an edge. Identifiers are ordered by raw value.
#[derive(Debug, Clone, Copy, PartialEq, Eq, Hash, PartialOrd, Ord, Structural)]
pub struct Graphid(pub u64);

impl View for Graphid {
    type V = u64;

    open spec fn view(&self) -> u64 {
        self.0
    }
}

/// Packing then unpacking gives back both ordinals.
pub proof fn lemma_pack_unpack(labid: u16, locid: u64)
    requires
        locid <= MAX_LOCID,
    ensures
        spec_labid(spec_pack(labid, locid)) == labid,
        spec_locid(spec_pack(labid, locid)) == locid,
{
    assert(((((labid as u64) << 48) | locid) >> 48) as u16 == labid && ((((labid as u64) << 48)
        | locid) & 0x0000_FFFF_FFFF_FFFFu64) == locid) by (bit_vector)
        requires
            locid <= 0x0000_FFFF_FFFF_FFFFu64,
    ;
}

/// Every raw value is the packing of its own two ordinals, and its local
/// ordinal fits in 48 bits.
pub proof fn lemma_unpack_pack(raw: u64)
    ensures
        spec_locid(raw) <= MAX_LOCID,
        spec_pack(spec_labid(raw), spec_locid(raw)) == raw,
{
    assert((raw & 0x0000_FFFF_FFFF_FFFFu64) <= 0x0000_FFFF_FFFF_FFFFu64 && (((((raw >> 48) as u16)
        as u64) << 48) | (raw & 0x0000_FFFF_FFFF_FFFFu64)) == raw) by (bit_vector);
}

/// Packing is monotone: within one label the raw values are ordered as the
/// local ordinals are, and a smaller label ordinal always comes first.
pub proof fn lemma_pack_ordered(la: u16, a: u64, lb: u16, b: u64)
    requires
        a <= MAX_LOCID,
        b <= MAX_LOCID,
    ensures
        (la < lb || (la == lb && a < b)) <==> spec_pack(la, a) < spec_pack(lb, b),
{
    assert((la < lb || (la == lb && a < b)) <==> ((((la as u64) << 48) | a) < (((lb as u64) << 48)
        | b))) by (bit_vector)
        requires
            a <= 0x0000_FFFF_FFFF_FFFFu64,
            b <= 0x0000_FFFF_FFFF_FFFFu64,
    ;
}

impl Graphid {
    /// Builds an identifier from its two ordinals; fails exactly when the
    /// local ordinal exceeds 48 bits.
    pub fn new(labid: u16, locid: u64) -> (r: Result<Graphid, GraphidError>)
        ensures
            locid <= MAX_LOCID ==> r == Ok::<Graphid, GraphidError>(
                Graphid(spec_pack(labid, locid)),
            ),
            locid > MAX_LOCID ==> r == Err::<Graphid, GraphidError>(
                GraphidError::LocidOutOfRange(locid),
            ),
    {
        if locid > MAX_LOCID {
            return Err(GraphidError::LocidOutOfRange(locid));
        }
        Ok(Graphid(((labid as u64) << 48) | locid))
    }

    /// Wraps a raw value without any check.
    pub fn from_raw(value: u64) -> (r: Graphid)
        ensures
            r@ == value,
    {
        Graphid(value)
    }

    /// The raw 64-bit value.
    pub fn as_raw(&self) -> (r: u64)
        ensures
            r == self@,
    {
        self.0
    }

    /// The label ordinal: the high 16 bits.
    pub fn labid(&self) -> (r: u16)
        ensures
            r == spec_labid(self@),
    {
        (self.0 >> 48) as u16
    }

    /// The local ordinal: the low 48 bits.
    pub fn locid(&self) -> (r: u64)
        ensures
            r == spec_locid(self@),
            r <= MAX_LOCID,
    {
        proof {
            lemma_unpack_pack(self.0);
        }
        self.0 & MAX_LOCID
    }

    /// Whether the local ordinal fits in 48 bits, which holds of every
    /// identifier.
    pub fn is_valid(&self) -> (r: bool)
        ensures
            r,
    {
        self.locid() <= MAX_LOCID
    }

    /// The display form `labid.locid`.
    pub fn to_string(&self) -> (r: String)
        ensures
            r@ == display_text(self@),
    {
        let mut out = String::new();
        push_decimal_text(&mut out, self.labid() as u64);
        proof {
            reveal_strlit(".");
        }
        out.append(".");
        push_decimal_text(&mut out, self.locid());
        assert(out@ =~= display_text(self@));
        out
    }

    /// The raw value as a plain integer.
    pub fn into_u64(self) -> (r: u64)
        ensures
            r == self@,
    {
        self.0
    }

    /// Checked conversion from a raw value. Every raw value unpacks to a
    /// local ordinal within range, so this always succeeds.
    pub fn try_from_u64(value: u64) -> (r: Result<Graphid, GraphidError>)
        ensures
            r == Ok::<Graphid, GraphidError>(Graphid(value)),
    {
        let id = Graphid(value);
        if id.is_valid() {
            Ok(id)
        } else {
            Err(GraphidError::InvalidValue(value))
        }
    }
}

/// The first position from `pos` on that holds a full stop, or the length
/// of the text.
pub open spec fn dot_position(s: Seq<u8>, pos: int) -> int
    decreases s.len() - pos,
{
    if 0 <= pos < s.len() && s[pos] != 46 {
        dot_position(s, pos + 1)
    } else {
        pos
    }
}

/// The number that one part of a display form denotes: decimal digits,
/// with at most one plus sign in front of them.
pub open spec fn parse_part(s: Seq<u8>) -> Option<u64> {
    if s.len() > 0 && s[0] == 43 {
        parse_decimal_spec(s.subrange(1, s.len() as int))
    } else {
        parse_decimal_spec(s)
    }
}

/// The identifier that a text in display form denotes: two decimal numbers
/// with one full stop between them, the first a label ordinal and the second
/// a local ordinal. Each may have one plus sign in front.
pub open spec fn parse_display(s: Seq<u8>) -> Option<u64> {
    let dot = dot_position(s, 0);
    if dot >= s.len() {
        None
    } else {
        match (parse_part(s.subrange(0, dot)), parse_part(s.subrange(dot + 1, s.len() as int))) {
            (Some(labid), Some(locid)) => if labid <= 0xFFFF && locid <= MAX_LOCID {
                Some(spec_pack(labid as u16, locid))
            } else {
                None
            },
            _ => None,
        }
    }
}

/// Reads one part of a display form.
fn read_part(s: &[u8]) -> (r: Option<u64>)
    ensures
        r == parse_part(s@),
{
    if s.len() > 0 && s[0] == 43 {
        parse_decimal(vstd::slice::slice_subrange(s, 1, s.len()))
    } else {
        parse_decimal(s)
    }
}

/// Reads an identifier in display form, `labid.locid`.
pub fn parse_graphid(s: &str) -> (r: Result<Graphid, GraphidError>)
    ensures
        r is Ok <==> parse_display(encode_utf8(s@)) is Some,
        r matches Ok(id) ==> parse_display(encode_utf8(s@)) == Some(id@),
{
    let bytes = s.as_bytes();
    let mut dot: usize = 0;
    while dot < bytes.len() && bytes[dot] != 46
        invariant
            0 <= dot <= bytes.len(),
            dot_position(bytes@, 0) == dot_position(bytes@, dot as int),
        decreases bytes.len() - dot,
    {
        dot += 1;
    }
    if dot >= bytes.len() {
        return Err(GraphidError::InvalidValue(0));
    }
    let left = vstd::slice::slice_subrange(bytes, 0, dot);
    let right = vstd::slice::slice_subrange(bytes, dot + 1, bytes.len());
    match (read_part(left), read_part(right)) {
        (Some(labid), Some(locid)) => {
            if labid > 0xFFFF {
                return Err(GraphidError::InvalidValue(labid));
            }
            Graphid::new(labid as u16, locid)
        },
        _ => Err(GraphidError::InvalidValue(0)),
    }
}

} // verus!
