//! The recursive wire-format walker: the scan loop over a buffer, the
//! per-wire-type readers, and the heuristic that tells a length-delimited
//! payload apart as a nested message, a UTF-8 string, or opaque bytes.

use crate::error::DecodeError;
use crate::message::Field;
use crate::message::FieldView;
use crate::message::Message;
use crate::message::MessageView;
use crate::message::ReprView;
use crate::message::Value;
use crate::message::ValueRepresentation;
use crate::message::ValueView;
use crate::message::lemma_fields_view_push;
use crate::message::msgs_view;
use crate::message::spec_add_field;
use crate::message::values_view;
use crate::tag::ProtoKey;
use crate::tag::WireType;
use crate::tag::spec_tag_field_number;
use crate::tag::spec_tag_wire_type;
use crate::tag::spec_wire_kind;
use crate::tag::varint_val32;
use crate::tag::varint_val64;
use crate::text::bytes_to_hex;
use crate::text::i32_to_string;
use crate::text::i64_to_string;
use crate::text::spec_hex_string;
use crate::text::spec_i64_string;
use crate::varint::get_varint_decoded_at;
use crate::varint::get_varint_raw_at;
use crate::varint::lemma_varint_end_bounds;
use crate::varint::varint_end;
use crate::varint::zigzag_dec64;
use vstd::prelude::*;
use vstd::utf8::decode_utf8;
use vstd::utf8::valid_utf8;

verus! {

/// How many levels of nested submessages a decode follows before it gives
/// up with `DepthLimitExceeded`.
pub const MAX_DECODE_DEPTH: u32 = 64;

/// Relies on std::str::from_utf8: it returns Ok exactly when the bytes are
/// valid UTF-8, and then yields the characters those bytes encode.
#[verifier::external_body]
fn utf8_to_string(bytes: &[u8]) -> (r: Option<String>)
    ensures
        r is Some <==> valid_utf8(bytes@),
        r matches Some(s) ==> s@ == decode_utf8(bytes@),
{
    match std::str::from_utf8(bytes) {
        Ok(s) => Some(s.to_owned()),
        Err(_) => None,
    }
}

/// The 32-bit word stored little-endian in four bytes of `s` at `pos`.
pub open spec fn spec_le32(s: Seq<u8>, pos: int) -> u32 {
    (s[pos] + 256 * (s[pos + 1] + 256 * (s[pos + 2] + 256 * s[pos + 3]))) as u32
}

/// The 64-bit word stored little-endian in eight bytes of `s` at `pos`.
pub open spec fn spec_le64(s: Seq<u8>, pos: int) -> u64 {
    (s[pos] + 256 * (s[pos + 1] + 256 * (s[pos + 2] + 256 * (s[pos + 3] + 256 * (s[pos + 4] + 256
        * (s[pos + 5] + 256 * (s[pos + 6] + 256 * s[pos + 7]))))))) as u64
}

/// Reads the 32-bit little-endian word at `pos`.
fn read_u32_le(s: &[u8], pos: usize) -> (r: u32)
    requires
        pos + 4 <= s@.len(),
    ensures
        r == spec_le32(s@, pos as int),
{
    let b0 = s[pos] as u32;
    let b1 = s[pos + 1] as u32;
    let b2 = s[pos + 2] as u32;
    let b3 = s[pos + 3] as u32;
    b0 + 256 * (b1 + 256 * (b2 + 256 * b3))
}

/// Reads the 64-bit little-endian word at `pos`.
fn read_u64_le(s: &[u8], pos: usize) -> (r: u64)
    requires
        pos + 8 <= s@.len(),
    ensures
        r == spec_le64(s@, pos as int),
{
    let b0 = s[pos] as u64;
    let b1 = s[pos + 1] as u64;
    let b2 = s[pos + 2] as u64;
    let b3 = s[pos + 3] as u64;
    let b4 = s[pos + 4] as u64;
    let b5 = s[pos + 5] as u64;
    let b6 = s[pos + 6] as u64;
    let b7 = s[pos + 7] as u64;
    b0 + 256 * (b1 + 256 * (b2 + 256 * (b3 + 256 * (b4 + 256 * (b5 + 256 * (b6 + 256 * b7))))))
}

/// The field a varint scalar becomes: one value shown both as the plain
/// 64-bit integer and as its zigzag decoding.
pub open spec fn spec_varint_field(fnum: int, v: u64) -> FieldView {
    FieldView {
        field_number: fnum,
        values: seq![
            ValueView {
                value_representations: seq![
                    ReprView {
                        value: spec_i64_string((v as i64) as int),
                        format_type: "Varint(int32/int64/uint32/uint64)"@,
                    },
                    ReprView {
                        value: spec_i64_string(zigzag_dec64(v)),
                        format_type: "Varint(sint32/sint64)"@,
                    },
                ],
            },
        ],
        messages: Seq::empty(),
    }
}

/// The field eight fixed bytes become: their little-endian reading as a
/// signed 64-bit integer.
pub open spec fn spec_fixed64_field(fnum: int, raw: Seq<u8>) -> FieldView {
    FieldView {
        field_number: fnum,
        values: seq![
            ValueView {
                value_representations: seq![
                    ReprView {
                        value: spec_i64_string((spec_le64(raw, 0) as i64) as int),
                        format_type: "fixed64"@,
                    },
                ],
            },
        ],
        messages: Seq::empty(),
    }
}

/// The field four fixed bytes become: their little-endian reading as a
/// signed 32-bit integer.
pub open spec fn spec_fixed32_field(fnum: int, raw: Seq<u8>) -> FieldView {
    FieldView {
        field_number: fnum,
        values: seq![
            ValueView {
                value_representations: seq![
                    ReprView {
                        value: spec_i64_string((spec_le32(raw, 0) as i32) as int),
                        format_type: "fixed32"@,
                    },
                ],
            },
        ],
        messages: Seq::empty(),
    }
}

/// The field a length-delimited payload becomes, by the fixed priority
/// order of the heuristic: a nested message when the payload decodes as
/// one, else a string when it is valid UTF-8, else its bytes in
/// hexadecimal.
pub open spec fn spec_delimited_field(
    fnum: int,
    slice: Seq<u8>,
    sub: Result<MessageView, DecodeError>,
) -> FieldView {
    match sub {
        Ok(mv) => FieldView { field_number: fnum, values: Seq::empty(), messages: seq![mv] },
        Err(_) => {
            if valid_utf8(slice) {
                FieldView {
                    field_number: fnum,
                    values: seq![
                        ValueView {
                            value_representations: seq![
                                ReprView { value: decode_utf8(slice), format_type: "String"@ },
                            ],
                        },
                    ],
                    messages: Seq::empty(),
                }
            } else {
                FieldView {
                    field_number: fnum,
                    values: seq![
                        ValueView {
                            value_representations: seq![
                                ReprView { value: spec_hex_string(slice), format_type: "Bytes"@ },
                            ],
                        },
                    ],
                    messages: Seq::empty(),
                }
            }
        },
    }
}

/// What scanning `bytes` from `i` with `acc` already assembled yields:
/// either the fields of the whole message or the first error met. This is
/// the reference the scan loop is held to, step for step.
pub open spec fn spec_decode_fields(
    bytes: Seq<u8>,
    i: int,
    acc: Seq<FieldView>,
    depth: nat,
) -> Result<Seq<FieldView>, DecodeError>
    decreases depth, bytes.len() - i, 0int,
{
    proof {
        lemma_varint_end_bounds(bytes, i);
    }
    if i >= bytes.len() {
        Ok(acc)
    } else {
        match varint_end(bytes, i) {
            None => Err(DecodeError::BufferUnderrun),
            Some(te) => {
                let tag = varint_val32(bytes.subrange(i, te));
                let fnum = spec_tag_field_number(tag) as int;
                match spec_wire_kind(spec_tag_wire_type(tag)) {
                    Some(WireType::Varint) => {
                        proof {
                            lemma_varint_end_bounds(bytes, te);
                        }
                        match varint_end(bytes, te) {
                            None => Err(DecodeError::BufferUnderrun),
                            Some(ve) => {
                                let v = varint_val64(bytes.subrange(te, ve));
                                spec_decode_fields(
                                    bytes,
                                    ve,
                                    acc.push(spec_varint_field(fnum, v)),
                                    depth,
                                )
                            },
                        }
                    },
                    Some(WireType::Fixed64) => {
                        if te + 8 > bytes.len() {
                            Err(DecodeError::BufferUnderrun)
                        } else {
                            spec_decode_fields(
                                bytes,
                                te + 8,
                                acc.push(spec_fixed64_field(fnum, bytes.subrange(te, te + 8))),
                                depth,
                            )
                        }
                    },
                    Some(WireType::LengthDelimited) => {
                        proof {
                            lemma_varint_end_bounds(bytes, te);
                        }
                        match varint_end(bytes, te) {
                            None => Err(DecodeError::BufferUnderrun),
                            Some(le) => {
                                let lv = varint_val32(bytes.subrange(te, le)) as i32;
                                if lv < 0 || le + lv > bytes.len() {
                                    Err(DecodeError::BufferUnderrun)
                                } else {
                                    let slice = bytes.subrange(le, le + lv);
                                    let sub = if depth <= 1 {
                                        Err(DecodeError::DepthLimitExceeded)
                                    } else {
                                        spec_decode_msg(slice, (depth - 1) as nat)
                                    };
                                    spec_decode_fields(
                                        bytes,
                                        le + lv,
                                        spec_add_field(acc, spec_delimited_field(fnum, slice, sub)),
                                        depth,
                                    )
                                }
                            },
                        }
                    },
                    Some(WireType::Fixed32) => {
                        if te + 4 > bytes.len() {
                            Err(DecodeError::BufferUnderrun)
                        } else {
                            spec_decode_fields(
                                bytes,
                                te + 4,
                                acc.push(spec_fixed32_field(fnum, bytes.subrange(te, te + 4))),
                                depth,
                            )
                        }
                    },
                    Some(WireType::GroupStart) => Err(DecodeError::UnsupportedWireType),
                    Some(WireType::GroupEnd) => Err(DecodeError::UnsupportedWireType),
                    None => Err(DecodeError::InvalidWireType),
                }
            },
        }
    }
}

/// What decoding `bytes` as one whole message yields, with `depth` levels
/// of nesting still allowed.
pub open spec fn spec_decode_msg(bytes: Seq<u8>, depth: nat) -> Result<MessageView, DecodeError>
    decreases depth, bytes.len(), 1int,
{
    if depth == 0 {
        Err(DecodeError::DepthLimitExceeded)
    } else {
        match spec_decode_fields(bytes, 0, Seq::empty(), depth) {
            Ok(fs) => Ok(MessageView { fields: fs }),
            Err(e) => Err(e),
        }
    }
}

/// What decoding a buffer from the public entry point yields.
pub open spec fn spec_decode_proto(bytes: Seq<u8>) -> Result<MessageView, DecodeError> {
    spec_decode_msg(bytes, MAX_DECODE_DEPTH as nat)
}

/// Builds the field a varint scalar becomes: the plain 64-bit reading and
/// the zigzag reading of the same groups.
fn make_varint_field(field_number: i32, the_varint: &crate::varint::VarIntDecodedData) -> (f: Field)
    requires
        the_varint.wf(),
    ensures
        f@ == spec_varint_field(field_number as int, the_varint.val64()),
{
    let s1 = i64_to_string(the_varint.get_value_as_i64());
    let s2 = i64_to_string(the_varint.get_value_as_signed_i64_zigzag());
    let r1 = ValueRepresentation {
        value: s1,
        format_type: "Varint(int32/int64/uint32/uint64)".to_owned(),
    };
    let r2 = ValueRepresentation { value: s2, format_type: "Varint(sint32/sint64)".to_owned() };
    let mut reps: Vec<ValueRepresentation> = Vec::new();
    reps.push(r1);
    reps.push(r2);
    let value = Value { value_representations: reps };
    let mut values: Vec<Value> = Vec::new();
    values.push(value);
    let f = Field { field_number, values, messages: Vec::new() };
    proof {
        let sv = spec_varint_field(field_number as int, the_varint.val64());
        assert(values_view(f.values@) =~= sv.values) by {
            assert(f.values@[0]@ =~~= sv.values[0]);
        }
        assert(msgs_view(f.messages@) =~= sv.messages);
        assert(f@ =~= sv);
    }
    f
}

/// Builds the field a nested message becomes.
fn make_message_field(field_number: i32, sub: Message) -> (f: Field)
    ensures
        f@ == (FieldView {
            field_number: field_number as int,
            values: Seq::empty(),
            messages: seq![sub@],
        }),
{
    let mut messages: Vec<Message> = Vec::new();
    messages.push(sub);
    let f = Field { field_number, values: Vec::new(), messages };
    proof {
        assert(values_view(f.values@) =~= Seq::<ValueView>::empty());
        assert(f.messages@.subrange(0, 0) =~= Seq::<Message>::empty());
        assert(msgs_view(Seq::<Message>::empty()) == Seq::<MessageView>::empty());
        assert(msgs_view(f.messages@) =~= seq![f.messages@[0]@]);
        assert(f@ =~= (FieldView {
            field_number: field_number as int,
            values: Seq::empty(),
            messages: seq![f.messages@[0]@],
        }));
    }
    f
}

/// Builds the field a UTF-8 payload becomes: one value labelled `String`.
fn make_string_field(field_number: i32, text: String) -> (f: Field)
    ensures
        f@ == (FieldView {
            field_number: field_number as int,
            values: seq![
                ValueView {
                    value_representations: seq![
                        ReprView { value: text@, format_type: "String"@ },
                    ],
                },
            ],
            messages: Seq::empty(),
        }),
{
    let r = ValueRepresentation { value: text, format_type: "String".to_owned() };
    let mut reps: Vec<ValueRepresentation> = Vec::new();
    reps.push(r);
    let mut values: Vec<Value> = Vec::new();
    values.push(Value { value_representations: reps });
    let f = Field { field_number, values, messages: Vec::new() };
    proof {
        let sv = FieldView {
            field_number: field_number as int,
            values: seq![
                ValueView {
                    value_representations: seq![ReprView { value: text@, format_type: "String"@ }],
                },
            ],
            messages: Seq::empty(),
        };
        assert(values_view(f.values@) =~= sv.values) by {
            assert(f.values@[0]@ =~~= sv.values[0]);
        }
        assert(msgs_view(f.messages@) =~= sv.messages);
        assert(f@ =~= sv);
    }
    f
}

/// Builds the field an opaque payload becomes: its bytes rendered in
/// hexadecimal, labelled `Bytes`, so that nothing is discarded.
fn make_bytes_field(field_number: i32, raw: &[u8]) -> (f: Field)
    ensures
        f@ == (FieldView {
            field_number: field_number as int,
            values: seq![
                ValueView {
                    value_representations: seq![
                        ReprView { value: spec_hex_string(raw@), format_type: "Bytes"@ },
                    ],
                },
            ],
            messages: Seq::empty(),
        }),
{
    let r = ValueRepresentation { value: bytes_to_hex(raw), format_type: "Bytes".to_owned() };
    let mut reps: Vec<ValueRepresentation> = Vec::new();
    reps.push(r);
    let mut values: Vec<Value> = Vec::new();
    values.push(Value { value_representations: reps });
    let f = Field { field_number, values, messages: Vec::new() };
    proof {
        let sv = FieldView {
            field_number: field_number as int,
            values: seq![
                ValueView {
                    value_representations: seq![
                        ReprView { value: spec_hex_string(raw@), format_type: "Bytes"@ },
                    ],
                },
            ],
            messages: Seq::empty(),
        };
        assert(values_view(f.values@) =~= sv.values) by {
            assert(f.values@[0]@ =~~= sv.values[0]);
        }
        assert(msgs_view(f.messages@) =~= sv.messages);
        assert(f@ =~= sv);
    }
    f
}

/// Builds the field four fixed bytes become, from their little-endian
/// 32-bit reading.
fn make_fixed32_field(field_number: i32, word: u32) -> (f: Field)
    ensures
        f@ == (FieldView {
            field_number: field_number as int,
            values: seq![
                ValueView {
                    value_representations: seq![
                        ReprView {
                            value: spec_i64_string((word as i32) as int),
                            format_type: "fixed32"@,
                        },
                    ],
                },
            ],
            messages: Seq::empty(),
        }),
{
    let r = ValueRepresentation {
        value: i32_to_string(word as i32),
        format_type: "fixed32".to_owned(),
    };
    let mut reps: Vec<ValueRepresentation> = Vec::new();
    reps.push(r);
    let mut values: Vec<Value> = Vec::new();
    values.push(Value { value_representations: reps });
    let f = Field { field_number, values, messages: Vec::new() };
    proof {
        let sv = FieldView {
            field_number: field_number as int,
            values: seq![
                ValueView {
                    value_representations: seq![
                        ReprView {
                            value: spec_i64_string((word as i32) as int),
                            format_type: "fixed32"@,
                        },
                    ],
                },
            ],
            messages: Seq::empty(),
        };
        assert(values_view(f.values@) =~= sv.values) by {
            assert(f.values@[0]@ =~~= sv.values[0]);
        }
        assert(msgs_view(f.messages@) =~= sv.messages);
        assert(f@ =~= sv);
    }
    f
}

/// Builds the field eight fixed bytes become, from their little-endian
/// 64-bit reading.
fn make_fixed64_field(field_number: i32, word: u64) -> (f: Field)
    ensures
        f@ == (FieldView {
            field_number: field_number as int,
            values: seq![
                ValueView {
                    value_representations: seq![
                        ReprView {
                            value: spec_i64_string((word as i64) as int),
                            format_type: "fixed64"@,
                        },
                    ],
                },
            ],
            messages: Seq::empty(),
        }),
{
    let r = ValueRepresentation {
        value: i64_to_string(word as i64),
        format_type: "fixed64".to_owned(),
    };
    let mut reps: Vec<ValueRepresentation> = Vec::new();
    reps.push(r);
    let mut values: Vec<Value> = Vec::new();
    values.push(Value { value_representations: reps });
    let f = Field { field_number, values, messages: Vec::new() };
    proof {
        let sv = FieldView {
            field_number: field_number as int,
            values: seq![
                ValueView {
                    value_representations: seq![
                        ReprView {
                            value: spec_i64_string((word as i64) as int),
                            format_type: "fixed64"@,
                        },
                    ],
                },
            ],
            messages: Seq::empty(),
        };
        assert(values_view(f.values@) =~= sv.values) by {
            assert(f.values@[0]@ =~~= sv.values[0]);
        }
        assert(msgs_view(f.messages@) =~= sv.messages);
        assert(f@ =~= sv);
    }
    f
}

/// A length-delimited payload whose bytes decode as a nested message
/// yields a field with exactly that submessage and no scalar values.
pub proof fn lemma_delimited_message_field(
    fnum: int,
    slice: Seq<u8>,
    sub: Result<MessageView, DecodeError>,
)
    requires
        sub is Ok,
    ensures
        spec_delimited_field(fnum, slice, sub).messages == seq![sub->Ok_0],
        spec_delimited_field(fnum, slice, sub).values.len() == 0,
{
}

/// A length-delimited payload that is valid UTF-8 but no valid message
/// yields a field with one value labelled `String`, holding the decoded
/// characters, and no submessages.
pub proof fn lemma_delimited_string_field(
    fnum: int,
    slice: Seq<u8>,
    sub: Result<MessageView, DecodeError>,
)
    requires
        sub is Err,
        valid_utf8(slice),
    ensures
        spec_delimited_field(fnum, slice, sub).values == seq![
            ValueView {
                value_representations: seq![
                    ReprView { value: decode_utf8(slice), format_type: "String"@ },
                ],
            },
        ],
        spec_delimited_field(fnum, slice, sub).messages.len() == 0,
{
}

/// A length-delimited field whose declared length runs past the end of the
/// buffer makes the whole decode fail with `BufferUnderrun`.
pub proof fn lemma_delimited_underrun(
    bytes: Seq<u8>,
    i: int,
    acc: Seq<FieldView>,
    depth: nat,
    te: int,
    le: int,
)
    requires
        0 <= i < bytes.len(),
        varint_end(bytes, i) == Some(te),
        spec_wire_kind(spec_tag_wire_type(varint_val32(bytes.subrange(i, te)))) == Some(
            WireType::LengthDelimited,
        ),
        varint_end(bytes, te) == Some(le),
        (varint_val32(bytes.subrange(te, le)) as i32) < 0 || le + (varint_val32(
            bytes.subrange(te, le),
        ) as i32) > bytes.len(),
    ensures
        spec_decode_fields(bytes, i, acc, depth) == Err::<Seq<FieldView>, DecodeError>(
            DecodeError::BufferUnderrun,
        ),
{
}

/// Decodes a buffer as one protobuf message, following at most `depth`
/// levels of nested submessages; at depth zero the decode fails with
/// `DepthLimitExceeded`. The result is exactly what `spec_decode_msg`
/// yields on the buffer's bytes: the complete tree on success, the first
/// error met otherwise.
#[verifier::rlimit(50)]
pub fn decode_proto_with_depth(decoded_proto: &[u8], depth: u32) -> (r: Result<
    Message,
    DecodeError,
>)
    ensures
        match r {
            Ok(m) => spec_decode_msg(decoded_proto@, depth as nat) == Ok::<
                MessageView,
                DecodeError,
            >(m@),
            Err(e) => spec_decode_msg(decoded_proto@, depth as nat) == Err::<
                MessageView,
                DecodeError,
            >(e),
        },
    decreases depth,
{
    let ghost bytes = decoded_proto@;
    let ghost d = depth as nat;
    if depth == 0 {
        return Err(DecodeError::DepthLimitExceeded);
    }
    let n: usize = decoded_proto.len();
    let mut current_index: usize = 0;
    let mut proto_message: Message = Message { fields: Vec::new() };
    proof {
        assert(proto_message@.fields =~= Seq::<FieldView>::empty());
    }
    while current_index < n
        invariant
            bytes == decoded_proto@,
            n == bytes.len(),
            0 <= current_index <= n,
            1 <= depth,
            d == depth as nat,
            spec_decode_fields(bytes, current_index as int, proto_message@.fields, d)
                == spec_decode_fields(bytes, 0, Seq::<FieldView>::empty(), d),
        decreases n - current_index,
    {
        let ghost pre_i = current_index as int;
        let ghost pre_acc = proto_message@.fields;
        let varint_raw_at = match get_varint_raw_at(decoded_proto, current_index) {
            Ok(v) => v,
            Err(e) => {
                return Err(e);
            },
        };
        let key: ProtoKey = ProtoKey::from_varint(varint_raw_at.as_slice());
        current_index += varint_raw_at.len();
        let ghost te = pre_i + varint_raw_at@.len();
        let ghost tagv = varint_val32(bytes.subrange(pre_i, te));
        proof {
            lemma_varint_end_bounds(bytes, pre_i);
            assert(varint_end(bytes, pre_i) == Some(te));
            assert(key.field_number == spec_tag_field_number(tagv));
            assert(key.wire_type == spec_tag_wire_type(tagv));
            assert(current_index as int == te);
        }
        match key.wire_kind() {
            Some(WireType::Varint) => {
                let (the_varint, offset) = match get_varint_decoded_at(
                    decoded_proto,
                    current_index,
                ) {
                    Ok(p) => p,
                    Err(e) => {
                        return Err(e);
                    },
                };
                let ghost ve = te + offset;
                proof {
                    lemma_varint_end_bounds(bytes, te);
                    assert(varint_end(bytes, te) == Some(ve));
                    assert(the_varint.val64() == varint_val64(bytes.subrange(te, ve)));
                }
                let f = make_varint_field(key.field_number, &the_varint);
                current_index += offset;
                let ghost pre_vec = proto_message.fields@;
                proto_message.fields.push(f);
                proof {
                    lemma_fields_view_push(pre_vec, f);
                    assert(proto_message@.fields == pre_acc.push(f@));
                    assert(spec_decode_fields(bytes, pre_i, pre_acc, d) == spec_decode_fields(
                        bytes,
                        current_index as int,
                        proto_message@.fields,
                        d,
                    ));
                }
            },
            Some(WireType::Fixed64) => {
                if n - current_index < 8 {
                    return Err(DecodeError::BufferUnderrun);
                }
                let word = read_u64_le(decoded_proto, current_index);
                let f = make_fixed64_field(key.field_number, word);
                proof {
                    assert(spec_le64(bytes.subrange(te, te + 8), 0) == spec_le64(bytes, te)) by {
                        assert forall|k: int| 0 <= k < 8 implies #[trigger] bytes.subrange(
                            te,
                            te + 8,
                        )[k] == bytes[te + k] by {}
                    }
                    assert(f@ == spec_fixed64_field(
                        key.field_number as int,
                        bytes.subrange(te, te + 8),
                    ));
                }
                current_index += 8;
                let ghost pre_vec = proto_message.fields@;
                proto_message.fields.push(f);
                proof {
                    lemma_fields_view_push(pre_vec, f);
                    assert(proto_message@.fields == pre_acc.push(f@));
                    assert(spec_decode_fields(bytes, pre_i, pre_acc, d) == spec_decode_fields(
                        bytes,
                        current_index as int,
                        proto_message@.fields,
                        d,
                    ));
                }
            },
            Some(WireType::LengthDelimited) => {
                let (data_length, offset) = match get_varint_decoded_at(
                    decoded_proto,
                    current_index,
                ) {
                    Ok(p) => p,
                    Err(e) => {
                        return Err(e);
                    },
                };
                let ghost le = te + offset;
                proof {
                    lemma_varint_end_bounds(bytes, te);
                    assert(varint_end(bytes, te) == Some(le));
                }
                current_index += offset;
                let lv: i32 = data_length.get_value_as_i32();
                proof {
                    assert(lv == varint_val32(bytes.subrange(te, le)) as i32);
                }
                if lv < 0 {
                    return Err(DecodeError::BufferUnderrun);
                }
                let l: usize = lv as usize;
                if l > n - current_index {
                    return Err(DecodeError::BufferUnderrun);
                }
                let raw_data_bytes: &[u8] = &decoded_proto[current_index..current_index + l];
                let ghost slice = bytes.subrange(le, le + lv);
                proof {
                    assert(raw_data_bytes@ == slice);
                }
                let sub_result = decode_proto_with_depth(raw_data_bytes, depth - 1);
                let ghost sub_spec = if d <= 1 {
                    Err::<MessageView, DecodeError>(DecodeError::DepthLimitExceeded)
                } else {
                    spec_decode_msg(slice, (d - 1) as nat)
                };
                proof {
                    assert(sub_spec == spec_decode_msg(slice, (depth - 1) as nat));
                    if sub_result is Ok {
                        assert(sub_spec == Ok::<MessageView, DecodeError>(sub_result->Ok_0@));
                    } else {
                        assert(sub_spec is Err);
                    }
                }
                let f = match sub_result {
                    Ok(sub_msg) => make_message_field(key.field_number, sub_msg),
                    Err(_) => match utf8_to_string(raw_data_bytes) {
                        Some(text) => make_string_field(key.field_number, text),
                        None => make_bytes_field(key.field_number, raw_data_bytes),
                    },
                };
                proof {
                    assert(f@ == spec_delimited_field(key.field_number as int, slice, sub_spec));
                }
                proto_message.add_field(f);
                current_index += l;
                proof {
                    assert(proto_message@.fields == spec_add_field(pre_acc, f@));
                    assert(spec_decode_fields(bytes, pre_i, pre_acc, d) == spec_decode_fields(
                        bytes,
                        current_index as int,
                        proto_message@.fields,
                        d,
                    ));
                }
            },
            Some(WireType::Fixed32) => {
                if n - current_index < 4 {
                    return Err(DecodeError::BufferUnderrun);
                }
                let word = read_u32_le(decoded_proto, current_index);
                let f = make_fixed32_field(key.field_number, word);
                proof {
                    assert(spec_le32(bytes.subrange(te, te + 4), 0) == spec_le32(bytes, te)) by {
                        assert forall|k: int| 0 <= k < 4 implies #[trigger] bytes.subrange(
                            te,
                            te + 4,
                        )[k] == bytes[te + k] by {}
                    }
                    assert(f@ == spec_fixed32_field(
                        key.field_number as int,
                        bytes.subrange(te, te + 4),
                    ));
                }
                current_index += 4;
                let ghost pre_vec = proto_message.fields@;
                proto_message.fields.push(f);
                proof {
                    lemma_fields_view_push(pre_vec, f);
                    assert(proto_message@.fields == pre_acc.push(f@));
                    assert(spec_decode_fields(bytes, pre_i, pre_acc, d) == spec_decode_fields(
                        bytes,
                        current_index as int,
                        proto_message@.fields,
                        d,
                    ));
                }
            },
            Some(WireType::GroupStart) => {
                return Err(DecodeError::UnsupportedWireType);
            },
            Some(WireType::GroupEnd) => {
                return Err(DecodeError::UnsupportedWireType);
            },
            None => {
                return Err(DecodeError::InvalidWireType);
            },
        }
    }
    proof {
        assert(spec_decode_fields(bytes, current_index as int, proto_message@.fields, d) == Ok::<
            Seq<FieldView>,
            DecodeError,
        >(proto_message@.fields));
        assert(proto_message@ =~= (MessageView { fields: proto_message@.fields }));
    }
    Ok(proto_message)
}

/// Decodes a buffer believed to hold protobuf wire-format data into a
/// generic tree of fields and values, with the default bound on nesting.
/// The result is exactly what `spec_decode_proto` yields on the buffer's
/// bytes: the complete tree on success, the first error met otherwise.
pub fn decode_proto(decoded_proto: &[u8]) -> (r: Result<Message, DecodeError>)
    ensures
        match r {
            Ok(m) => spec_decode_proto(decoded_proto@) == Ok::<MessageView, DecodeError>(m@),
            Err(e) => spec_decode_proto(decoded_proto@) == Err::<MessageView, DecodeError>(e),
        },
{
    decode_proto_with_depth(decoded_proto, MAX_DECODE_DEPTH)
}

} // verus!
