use aleka::DecodeError;
use aleka::decode_proto;
use aleka::decode_proto_with_depth;
use aleka::text::bytes_to_hex;
use aleka::text::i32_to_string;
use aleka::text::i64_to_string;
use aleka::text::u64_to_string;

#[test]
fn empty_buffer_is_empty_message() {
    let msg = decode_proto(&[]).unwrap();
    assert_eq!(0, msg.fields.len());
}

#[test]
fn varint_field_has_both_representations() {
    // Field 1, wire type 0, value 23 (the zigzag encoding of -12).
    let msg = decode_proto(&[0x08, 0x17]).unwrap();
    assert_eq!(1, msg.fields.len());
    assert_eq!(1, msg.fields[0].field_number);
    let reps = &msg.fields[0].values[0].value_representations;
    assert_eq!(2, reps.len());
    assert_eq!("23", reps[0].value);
    assert_eq!("Varint(int32/int64/uint32/uint64)", reps[0].format_type);
    assert_eq!("-12", reps[1].value);
    assert_eq!("Varint(sint32/sint64)", reps[1].format_type);
}

#[test]
fn nested_message_payload_yields_submessage() {
    // Field 3, length-delimited, payload itself a message: field 1 = varint 1.
    let msg = decode_proto(&[0x1a, 0x02, 0x08, 0x01]).unwrap();
    assert_eq!(1, msg.fields.len());
    assert_eq!(3, msg.fields[0].field_number);
    assert_eq!(1, msg.fields[0].messages.len());
    assert_eq!(0, msg.fields[0].values.len());
    let sub = &msg.fields[0].messages[0];
    assert_eq!(1, sub.fields.len());
    assert_eq!(1, sub.fields[0].field_number);
}

#[test]
fn utf8_payload_yields_string_value() {
    // Field 1, length-delimited, payload "abc": no valid message, valid UTF-8.
    let msg = decode_proto(&[0x0a, 0x03, 0x61, 0x62, 0x63]).unwrap();
    assert_eq!(1, msg.fields.len());
    assert_eq!(0, msg.fields[0].messages.len());
    let reps = &msg.fields[0].values[0].value_representations;
    assert_eq!(1, reps.len());
    assert_eq!("abc", reps[0].value);
    assert_eq!("String", reps[0].format_type);
}

#[test]
fn opaque_payload_yields_hex_bytes_value() {
    // Field 1, length-delimited, payload [0xff, 0xfe]: no message, no UTF-8.
    let msg = decode_proto(&[0x0a, 0x02, 0xff, 0xfe]).unwrap();
    let reps = &msg.fields[0].values[0].value_representations;
    assert_eq!(1, reps.len());
    assert_eq!("fffe", reps[0].value);
    assert_eq!("Bytes", reps[0].format_type);
}

#[test]
fn oversized_length_fails_with_buffer_underrun() {
    // Field 1, length-delimited, declared length 5 with 1 byte remaining.
    let result = decode_proto(&[0x0a, 0x05, 0x01]);
    assert_eq!(Err(DecodeError::BufferUnderrun), result.map(|_| ()));
}

#[test]
fn truncated_varint_fails_with_buffer_underrun() {
    assert_eq!(Err(DecodeError::BufferUnderrun), decode_proto(&[0x80]).map(|_| ()));
    assert_eq!(Err(DecodeError::BufferUnderrun), decode_proto(&[0x08, 0x80]).map(|_| ()));
    assert_eq!(Err(DecodeError::BufferUnderrun), decode_proto(&[0x08]).map(|_| ()));
}

#[test]
fn repeated_delimited_strings_merge_in_order() {
    // Field 1 twice, wire type 2, payloads "A" and "B".
    let msg = decode_proto(&[0x0a, 0x01, 0x41, 0x0a, 0x01, 0x42]).unwrap();
    assert_eq!(1, msg.fields.len());
    assert_eq!(2, msg.fields[0].values.len());
    assert_eq!("A", msg.fields[0].values[0].value_representations[0].value);
    assert_eq!("B", msg.fields[0].values[1].value_representations[0].value);
}

#[test]
fn repeated_delimited_messages_merge_in_order() {
    // Field 1 twice, wire type 2, each payload a message: field 1 = varint n.
    let msg = decode_proto(&[0x0a, 0x02, 0x08, 0x01, 0x0a, 0x02, 0x08, 0x02]).unwrap();
    assert_eq!(1, msg.fields.len());
    assert_eq!(2, msg.fields[0].messages.len());
    let first = &msg.fields[0].messages[0].fields[0].values[0].value_representations[0];
    let second = &msg.fields[0].messages[1].fields[0].values[0].value_representations[0];
    assert_eq!("1", first.value);
    assert_eq!("2", second.value);
}

#[test]
fn end_to_end_three_field_message() {
    // Field 1 = varint 23 (zigzag -12), field 2 = varint 1234,
    // field 3 = string "hellooo".
    let bytes: Vec<u8> = vec![
        0x08, 0x17, 0x10, 0xd2, 0x09, 0x1a, 0x07, 0x68, 0x65, 0x6c, 0x6c, 0x6f, 0x6f, 0x6f,
    ];
    let msg = decode_proto(&bytes).unwrap();
    assert_eq!(3, msg.fields.len());

    let f1 = &msg.fields[0];
    assert_eq!(1, f1.field_number);
    assert_eq!("23", f1.values[0].value_representations[0].value);
    assert_eq!("-12", f1.values[0].value_representations[1].value);

    let f2 = &msg.fields[1];
    assert_eq!(2, f2.field_number);
    assert_eq!("1234", f2.values[0].value_representations[0].value);

    let f3 = &msg.fields[2];
    assert_eq!(3, f3.field_number);
    assert_eq!(1, f3.values.len());
    assert_eq!("hellooo", f3.values[0].value_representations[0].value);
    assert_eq!("String", f3.values[0].value_representations[0].format_type);
}

#[test]
fn fixed32_field_value() {
    // Field 1, wire type 5, bytes 1,0,0,0 little endian.
    let msg = decode_proto(&[0x0d, 0x01, 0x00, 0x00, 0x00]).unwrap();
    let reps = &msg.fields[0].values[0].value_representations;
    assert_eq!("1", reps[0].value);
    assert_eq!("fixed32", reps[0].format_type);
}

#[test]
fn fixed64_field_value() {
    // Field 1, wire type 1, all bytes 0xff: the signed reading is -1.
    let msg = decode_proto(&[0x09, 0xff, 0xff, 0xff, 0xff, 0xff, 0xff, 0xff, 0xff]).unwrap();
    let reps = &msg.fields[0].values[0].value_representations;
    assert_eq!("-1", reps[0].value);
    assert_eq!("fixed64", reps[0].format_type);
}

#[test]
fn fixed_width_underruns() {
    assert_eq!(Err(DecodeError::BufferUnderrun), decode_proto(&[0x0d, 0x01]).map(|_| ()));
    assert_eq!(
        Err(DecodeError::BufferUnderrun),
        decode_proto(&[0x09, 0x01, 0x02, 0x03]).map(|_| ())
    );
}

#[test]
fn group_wire_types_are_unsupported() {
    assert_eq!(Err(DecodeError::UnsupportedWireType), decode_proto(&[0x0b]).map(|_| ()));
    assert_eq!(Err(DecodeError::UnsupportedWireType), decode_proto(&[0x0c]).map(|_| ()));
}

#[test]
fn out_of_range_wire_types_are_invalid() {
    assert_eq!(Err(DecodeError::InvalidWireType), decode_proto(&[0x0e]).map(|_| ()));
    assert_eq!(Err(DecodeError::InvalidWireType), decode_proto(&[0x0f]).map(|_| ()));
}

#[test]
fn depth_zero_fails_at_once() {
    assert_eq!(
        Err(DecodeError::DepthLimitExceeded),
        decode_proto_with_depth(&[0x08, 0x01], 0).map(|_| ())
    );
}

#[test]
fn exhausted_depth_falls_back_to_string() {
    // With one level allowed, the nested payload [0x08, 0x01] cannot be
    // followed as a submessage; its bytes are valid UTF-8 control
    // characters, so it becomes a string value.
    let msg = decode_proto_with_depth(&[0x0a, 0x02, 0x08, 0x01], 1).unwrap();
    assert_eq!(0, msg.fields[0].messages.len());
    assert_eq!(1, msg.fields[0].values.len());
    assert_eq!("String", msg.fields[0].values[0].value_representations[0].format_type);
}

#[test]
fn decode_error_messages() {
    assert_eq!("Index out of bounds", DecodeError::BufferUnderrun.message());
    assert_eq!("Not supported type", DecodeError::UnsupportedWireType.message());
    assert_eq!("Invalid type", DecodeError::InvalidWireType.message());
    assert_eq!("Nesting too deep", DecodeError::DepthLimitExceeded.message());
}

#[test]
fn decimal_renderings() {
    assert_eq!("0", u64_to_string(0));
    assert_eq!("18446744073709551615", u64_to_string(u64::MAX));
    assert_eq!("-9223372036854775808", i64_to_string(i64::MIN));
    assert_eq!("9223372036854775807", i64_to_string(i64::MAX));
    assert_eq!("-5", i32_to_string(-5));
    assert_eq!("2147483647", i32_to_string(i32::MAX));
}

#[test]
fn hex_renderings() {
    assert_eq!("", bytes_to_hex(&[]));
    assert_eq!("00ab10ff", bytes_to_hex(&[0x00, 0xab, 0x10, 0xff]));
}
