//! Field-tag decomposition: one varint split into a field number and a
//! wire type.

use crate::varint::VarIntDecodedData;
use crate::varint::base128_nat;
use crate::varint::decode_varint;
use crate::varint::groups_of;
use vstd::prelude::*;

verus! {

/// The 32-bit value denoted by the raw bytes of one varint.
pub open spec fn varint_val32(raw: Seq<u8>) -> u32 {
    (base128_nat(groups_of(raw)) % 0x1_0000_0000) as u32
}

/// The 64-bit value denoted by the raw bytes of one varint.
pub open spec fn varint_val64(raw: Seq<u8>) -> u64 {
    (base128_nat(groups_of(raw)) % 0x1_0000_0000_0000_0000) as u64
}

/// The field number held by a tag value: the value without its low three
/// bits, by an arithmetic shift of the 32-bit signed reading.
pub open spec fn spec_tag_field_number(v: u32) -> i32 {
    (v as i32) >> 3
}

/// The wire type held by a tag value: its low three bits.
pub open spec fn spec_tag_wire_type(v: u32) -> u8 {
    (v & 7) as u8
}

/// The closed set of wire types the protobuf wire format defines.
#[derive(Debug, Clone, Copy, PartialEq, Eq, Structural)]
pub enum WireType {
    /// Wire type 0: a varint scalar.
    Varint,
    /// Wire type 1: eight bytes, little endian.
    Fixed64,
    /// Wire type 2: a varint length followed by that many payload bytes.
    LengthDelimited,
    /// Wire type 3: the start marker of a legacy group.
    GroupStart,
    /// Wire type 4: the end marker of a legacy group.
    GroupEnd,
    /// Wire type 5: four bytes, little endian.
    Fixed32,
}

/// The wire type a 3-bit tag component names, or `None` for the two values
/// outside the defined set.
pub open spec fn spec_wire_kind(w: u8) -> Option<WireType> {
    if w == 0 {
        Some(WireType::Varint)
    } else if w == 1 {
        Some(WireType::Fixed64)
    } else if w == 2 {
        Some(WireType::LengthDelimited)
    } else if w == 3 {
        Some(WireType::GroupStart)
    } else if w == 4 {
        Some(WireType::GroupEnd)
    } else if w == 5 {
        Some(WireType::Fixed32)
    } else {
        None
    }
}

/// The encoded key before a field's payload: the field number and the wire
/// type packed into one varint.
#[derive(Debug)]
pub struct ProtoKey {
    pub field_number: i32,
    pub wire_type: u8,
}

impl ProtoKey {
    /// Splits the varint given by its raw bytes into a field number (the
    /// value shifted right by three) and a wire type (its low three bits).
    pub fn from_varint(a_raw_varint: &[u8]) -> (r: Self)
        ensures
            r.field_number == spec_tag_field_number(varint_val32(a_raw_varint@)),
            r.wire_type == spec_tag_wire_type(varint_val32(a_raw_varint@)),
    {
        let decoded: VarIntDecodedData = decode_varint(a_raw_varint);
        let decoded_i32: i32 = decoded.get_value_as_i32();
        proof {
            let v = varint_val32(a_raw_varint@);
            assert(0b0000_0111u8 & (v as i32) as u8 == (v & 7) as u8) by (bit_vector);
        }
        ProtoKey { field_number: decoded_i32 >> 3u32, wire_type: 0b0000_0111 & (decoded_i32 as u8) }
    }

    /// The wire type this key names, or `None` when its 3-bit value lies
    /// outside the defined set.
    pub fn wire_kind(&self) -> (r: Option<WireType>)
        ensures
            r == spec_wire_kind(self.wire_type),
    {
        match self.wire_type {
            0 => Some(WireType::Varint),
            1 => Some(WireType::Fixed64),
            2 => Some(WireType::LengthDelimited),
            3 => Some(WireType::GroupStart),
            4 => Some(WireType::GroupEnd),
            5 => Some(WireType::Fixed32),
            _ => None,
        }
    }
}

} // verus!
