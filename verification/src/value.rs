//! The tagged value: a fixed-layout record of one type-tag byte, three
//! reserved bytes, and a four-byte payload, passed by both runtimes.
//!
//! The payload is held as a 32-bit bit pattern: for `Number` it is the
//! IEEE-754 single-precision encoding of the number, for every
//! reference-typed tag it is an opaque handle. Payload interpretation is
//! determined solely by the tag.

use vstd::prelude::*;

verus! {

/// The type tag of a boundary value.
#[derive(Clone, Copy, PartialEq, Eq, Structural, Debug)]
pub enum TypeTag {
    Null,
    Turf,
    Obj,
    Mob,
    Area,
    Client,
    Str,
    MobTypePath,
    ObjTypePath,
    TurfTypePath,
    AreaTypePath,
    Image,
    World,
    List,
    DatumTypePath,
    Datum,
    Number,
    Pointer,
}

/// The wire byte that stands for each tag.
pub open spec fn tag_code(t: TypeTag) -> u8 {
    match t {
        TypeTag::Null => 0x00,
        TypeTag::Turf => 0x01,
        TypeTag::Obj => 0x02,
        TypeTag::Mob => 0x03,
        TypeTag::Area => 0x04,
        TypeTag::Client => 0x05,
        TypeTag::Str => 0x06,
        TypeTag::MobTypePath => 0x08,
        TypeTag::ObjTypePath => 0x09,
        TypeTag::TurfTypePath => 0x0A,
        TypeTag::AreaTypePath => 0x0B,
        TypeTag::Image => 0x0D,
        TypeTag::World => 0x0E,
        TypeTag::List => 0x0F,
        TypeTag::DatumTypePath => 0x20,
        TypeTag::Datum => 0x21,
        TypeTag::Number => 0x2A,
        TypeTag::Pointer => 0x3C,
    }
}

/// The tag a wire byte stands for, if any.
pub open spec fn spec_tag_of_code(b: u8) -> Option<TypeTag> {
    match b {
        0x00u8 => Some(TypeTag::Null),
        0x01u8 => Some(TypeTag::Turf),
        0x02u8 => Some(TypeTag::Obj),
        0x03u8 => Some(TypeTag::Mob),
        0x04u8 => Some(TypeTag::Area),
        0x05u8 => Some(TypeTag::Client),
        0x06u8 => Some(TypeTag::Str),
        0x08u8 => Some(TypeTag::MobTypePath),
        0x09u8 => Some(TypeTag::ObjTypePath),
        0x0Au8 => Some(TypeTag::TurfTypePath),
        0x0Bu8 => Some(TypeTag::AreaTypePath),
        0x0Du8 => Some(TypeTag::Image),
        0x0Eu8 => Some(TypeTag::World),
        0x0Fu8 => Some(TypeTag::List),
        0x20u8 => Some(TypeTag::DatumTypePath),
        0x21u8 => Some(TypeTag::Datum),
        0x2Au8 => Some(TypeTag::Number),
        0x3Cu8 => Some(TypeTag::Pointer),
        _ => None,
    }
}

/// Decoding a tag's wire byte gives back the tag.
pub proof fn lemma_tag_code_roundtrip(t: TypeTag)
    ensures
        spec_tag_of_code(tag_code(t)) == Some(t),
{
}

/// A tag whose payload names a host-owned object (everything but `Null`
/// and `Number`).
pub open spec fn is_ref_tag(t: TypeTag) -> bool {
    t != TypeTag::Null && t != TypeTag::Number
}

/// The wire byte of a tag.
pub fn encode_tag(t: TypeTag) -> (r: u8)
    ensures
        r == tag_code(t),
{
    match t {
        TypeTag::Null => 0x00,
        TypeTag::Turf => 0x01,
        TypeTag::Obj => 0x02,
        TypeTag::Mob => 0x03,
        TypeTag::Area => 0x04,
        TypeTag::Client => 0x05,
        TypeTag::Str => 0x06,
        TypeTag::MobTypePath => 0x08,
        TypeTag::ObjTypePath => 0x09,
        TypeTag::TurfTypePath => 0x0A,
        TypeTag::AreaTypePath => 0x0B,
        TypeTag::Image => 0x0D,
        TypeTag::World => 0x0E,
        TypeTag::List => 0x0F,
        TypeTag::DatumTypePath => 0x20,
        TypeTag::Datum => 0x21,
        TypeTag::Number => 0x2A,
        TypeTag::Pointer => 0x3C,
    }
}

/// The tag a wire byte stands for, or `None` for a byte outside the tag
/// space.
pub fn decode_tag(b: u8) -> (r: Option<TypeTag>)
    ensures
        r == spec_tag_of_code(b),
{
    match b {
        0x00u8 => Some(TypeTag::Null),
        0x01u8 => Some(TypeTag::Turf),
        0x02u8 => Some(TypeTag::Obj),
        0x03u8 => Some(TypeTag::Mob),
        0x04u8 => Some(TypeTag::Area),
        0x05u8 => Some(TypeTag::Client),
        0x06u8 => Some(TypeTag::Str),
        0x08u8 => Some(TypeTag::MobTypePath),
        0x09u8 => Some(TypeTag::ObjTypePath),
        0x0Au8 => Some(TypeTag::TurfTypePath),
        0x0Bu8 => Some(TypeTag::AreaTypePath),
        0x0Du8 => Some(TypeTag::Image),
        0x0Eu8 => Some(TypeTag::World),
        0x0Fu8 => Some(TypeTag::List),
        0x20u8 => Some(TypeTag::DatumTypePath),
        0x21u8 => Some(TypeTag::Datum),
        0x2Au8 => Some(TypeTag::Number),
        0x3Cu8 => Some(TypeTag::Pointer),
        _ => None,
    }
}

/// A boundary value: a tag and a 32-bit payload bit pattern.
#[derive(Clone, Copy, PartialEq, Eq, Structural, Debug)]
pub struct TaggedValue {
    pub tag: TypeTag,
    pub payload: u32,
}

/// The distinguished null value: tag `Null`, payload all zero.
pub open spec fn spec_null() -> TaggedValue {
    TaggedValue { tag: TypeTag::Null, payload: 0 }
}

impl TaggedValue {
    /// A freshly constructed null value.
    pub fn null() -> (r: TaggedValue)
        ensures
            r == spec_null(),
    {
        TaggedValue { tag: TypeTag::Null, payload: 0 }
    }

    /// A number value carrying the given IEEE-754 single bit pattern.
    pub fn number_from_bits(bits: u32) -> (r: TaggedValue)
        ensures
            r.tag == TypeTag::Number,
            r.payload == bits,
    {
        TaggedValue { tag: TypeTag::Number, payload: bits }
    }

    /// Resets the value to the null record; the result is bit-for-bit the
    /// freshly constructed null.
    pub fn clear(&mut self)
        ensures
            *final(self) == spec_null(),
    {
        self.tag = TypeTag::Null;
        self.payload = 0;
    }

    /// The value's type tag.
    pub fn type_of(&self) -> (r: TypeTag)
        ensures
            r == self.tag,
    {
        self.tag
    }

    /// The wire byte of the value's tag.
    pub fn type_code(&self) -> (r: u8)
        ensures
            r == tag_code(self.tag),
    {
        encode_tag(self.tag)
    }

    pub fn is_null(&self) -> (r: bool)
        ensures
            r == (self.tag == TypeTag::Null),
    {
        matches!(self.tag, TypeTag::Null)
    }

    pub fn is_number(&self) -> (r: bool)
        ensures
            r == (self.tag == TypeTag::Number),
    {
        matches!(self.tag, TypeTag::Number)
    }

    pub fn is_string(&self) -> (r: bool)
        ensures
            r == (self.tag == TypeTag::Str),
    {
        matches!(self.tag, TypeTag::Str)
    }

    pub fn is_list(&self) -> (r: bool)
        ensures
            r == (self.tag == TypeTag::List),
    {
        matches!(self.tag, TypeTag::List)
    }

    /// The number payload of a `Number` value; on any other tag the
    /// defensive default, the bit pattern of zero.
    pub fn get_number_bits(&self) -> (r: u32)
        ensures
            r == (if self.tag == TypeTag::Number { self.payload } else { 0u32 }),
    {
        if matches!(self.tag, TypeTag::Number) {
            self.payload
        } else {
            0
        }
    }

    /// The handle payload of a reference-typed value; on `Null` or
    /// `Number` the defensive default zero.
    pub fn get_handle(&self) -> (r: u32)
        ensures
            r == (if is_ref_tag(self.tag) { self.payload } else { 0u32 }),
    {
        if matches!(self.tag, TypeTag::Null | TypeTag::Number) {
            0
        } else {
            self.payload
        }
    }

    /// Overwrites the value with a number carrying the given bit pattern.
    pub fn set_number_bits(&mut self, bits: u32)
        ensures
            *final(self) == (TaggedValue { tag: TypeTag::Number, payload: bits }),
    {
        self.tag = TypeTag::Number;
        self.payload = bits;
    }

    /// Overwrites the value with a reference of the given tag and handle.
    /// A tag outside the reference-typed subset is rejected and the value
    /// is left unchanged.
    pub fn set_handle(&mut self, t: TypeTag, handle: u32) -> (ok: bool)
        ensures
            ok == is_ref_tag(t),
            ok ==> *final(self) == (TaggedValue { tag: t, payload: handle }),
            !ok ==> *final(self) == *old(self),
    {
        if matches!(t, TypeTag::Null | TypeTag::Number) {
            false
        } else {
            self.tag = t;
            self.payload = handle;
            true
        }
    }

    /// Two values are equal exactly when both the tag and the payload bit
    /// pattern match; no numeric comparison across differing tags.
    pub fn equals(&self, other: &TaggedValue) -> (r: bool)
        ensures
            r == (self.tag == other.tag && self.payload == other.payload),
    {
        self.tag == other.tag && self.payload == other.payload
    }
}

/// The fixed eight-byte wire layout of a value: the tag byte, three
/// reserved zero bytes, then the payload in little-endian order.
pub open spec fn spec_wire_bytes(v: TaggedValue) -> Seq<u8> {
    seq![
        tag_code(v.tag),
        0u8,
        0u8,
        0u8,
        (v.payload & 0xff) as u8,
        ((v.payload >> 8) & 0xff) as u8,
        ((v.payload >> 16) & 0xff) as u8,
        ((v.payload >> 24) & 0xff) as u8,
    ]
}

/// Serializes a value into its fixed eight-byte wire record.
pub fn encode_value(v: &TaggedValue) -> (r: Vec<u8>)
    ensures
        r@ == spec_wire_bytes(*v),
        r@.len() == 8,
{
    let p = v.payload;
    proof {
        assert((p & 0xff) <= 0xff && ((p >> 8) & 0xff) <= 0xff && ((p >> 16) & 0xff) <= 0xff
            && ((p >> 24) & 0xff) <= 0xff) by (bit_vector);
    }
    let mut r: Vec<u8> = Vec::new();
    r.push(encode_tag(v.tag));
    r.push(0);
    r.push(0);
    r.push(0);
    r.push((p & 0xff) as u8);
    r.push(((p >> 8) & 0xff) as u8);
    r.push(((p >> 16) & 0xff) as u8);
    r.push(((p >> 24) & 0xff) as u8);
    proof {
        assert(r@ =~= spec_wire_bytes(*v));
    }
    r
}

/// The payload read back from the four little-endian payload bytes.
pub open spec fn spec_payload_of_bytes(b4: u8, b5: u8, b6: u8, b7: u8) -> u32 {
    (b4 as u32) | ((b5 as u32) << 8) | ((b6 as u32) << 16) | ((b7 as u32) << 24)
}

/// Deserializes an eight-byte wire record. Returns `None` when the record
/// is not eight bytes long or its tag byte lies outside the tag space;
/// the three reserved bytes are ignored, as both runtimes do.
pub fn decode_value(b: &[u8]) -> (r: Option<TaggedValue>)
    ensures
        match r {
            Some(v) => b@.len() == 8 && spec_tag_of_code(b@[0]) == Some(v.tag)
                && v.payload == spec_payload_of_bytes(b@[4], b@[5], b@[6], b@[7]),
            None => b@.len() != 8 || spec_tag_of_code(b@[0]) is None,
        },
{
    if b.len() != 8 {
        return None;
    }
    let tag = match decode_tag(b[0]) {
        Some(t) => t,
        None => {
            return None;
        },
    };
    let payload = (b[4] as u32) | ((b[5] as u32) << 8) | ((b[6] as u32) << 16) | (
    (b[7] as u32) << 24);
    Some(TaggedValue { tag, payload })
}

/// The wire layout is lossless: decoding an encoded value gives the value
/// back, so both runtimes read the same record identically.
pub proof fn lemma_wire_roundtrip(v: TaggedValue)
    ensures
        ({
            let b = spec_wire_bytes(v);
            spec_tag_of_code(b[0]) == Some(v.tag) && spec_payload_of_bytes(
                b[4],
                b[5],
                b[6],
                b[7],
            ) == v.payload
        }),
{
    lemma_tag_code_roundtrip(v.tag);
    let p = v.payload;
    assert(((p & 0xff) as u8 as u32) | ((((p >> 8) & 0xff) as u8 as u32) << 8) | ((((p >> 16)
        & 0xff) as u8 as u32) << 16) | ((((p >> 24) & 0xff) as u8 as u32) << 24) == p)
        by (bit_vector);
}

} // verus!
