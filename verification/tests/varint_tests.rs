use aleka::ProtoKey;
use aleka::VarIntDecodedData;
use aleka::decode_varint;
use aleka::encode_to_varint;
use aleka::get_varint_decoded_at;

#[test]
fn decode_varint_300() {
    let a_varint: Vec<u8> = vec![0b1010_1100, 0b0000_0010]; // 300 codified as varint

    let an_int: VarIntDecodedData = decode_varint(&a_varint);
    assert_eq!(300, an_int.get_value_as_i32());
}

#[test]
fn encode_varint_1984() {
    let expected_result: Vec<u8> = vec![0b11000000, 0b10001111, 0b10000000, 0b10000000, 0b00000000]; // 1984 codified as varint

    let result: Vec<u8> = encode_to_varint(1984);
    assert_eq!(expected_result, result);
}

#[test]
fn encode_and_then_decode() {
    let an_int2: VarIntDecodedData = decode_varint(&encode_to_varint(-1984));
    assert_eq!(-1984, an_int2.get_value_as_i32());
}

#[test]
fn get_varint_at_different_positions() {
    let mut index: usize = 0;
    let a_list_of_varint: Vec<u8> = vec![
        0b1010_1100,
        0b0000_0010,
        0b11000000,
        0b10001111,
        0b10000000,
        0b10000000,
        0b00000000,
        0b00001100,
        0b11010010,
        0b00001001,
    ]; //300, 1984, 12, 1234

    let mut result = get_varint_decoded_at(&a_list_of_varint, index).unwrap();
    assert_eq!(300, result.0.get_value_as_i32());

    index += result.1;
    result = get_varint_decoded_at(&a_list_of_varint, index).unwrap();
    assert_eq!(1984, result.0.get_value_as_i32());

    index += result.1;
    result = get_varint_decoded_at(&a_list_of_varint, index).unwrap();
    assert_eq!(12, result.0.get_value_as_i32());

    index += result.1;
    result = get_varint_decoded_at(&a_list_of_varint, index).unwrap();
    assert_eq!(1234, result.0.get_value_as_i32());
}

#[test]
fn proto_key_create() {
    let mut a_key_varint: Vec<u8> = vec![0b00001000];
    let mut the_key = ProtoKey::from_varint(&a_key_varint);
    assert_eq!(1, the_key.field_number);
    assert_eq!(0, the_key.wire_type);

    a_key_varint = vec![0b00010000];
    the_key = ProtoKey::from_varint(&a_key_varint);
    assert_eq!(2, the_key.field_number);
    assert_eq!(0, the_key.wire_type);

    a_key_varint = vec![0b00011010];
    the_key = ProtoKey::from_varint(&a_key_varint);
    assert_eq!(3, the_key.field_number);
    assert_eq!(2, the_key.wire_type);
}

#[test]
fn encode_negative_one_round_trip() {
    let encoded = encode_to_varint(-1);
    assert_eq!(vec![0xff, 0xff, 0xff, 0xff, 0x7f], encoded);
    assert_eq!(-1, decode_varint(&encoded).get_value_as_i32());
}

#[test]
fn zigzag_values_from_varints() {
    // 23 zigzag-decodes to -12, 24 to 12.
    assert_eq!(-12, decode_varint(&[0x17u8]).get_value_as_signed_i64_zigzag());
    assert_eq!(12, decode_varint(&[0x18u8]).get_value_as_signed_i64_zigzag());
    assert_eq!(-1, decode_varint(&[0x01u8]).get_value_as_signed_i32_zigzag());
    assert_eq!(0, decode_varint(&[0x00u8]).get_value_as_signed_i32_zigzag());
}

#[test]
fn varint_sixty_four_bit_value() {
    // Ten groups of 0x7f accumulate to the all-ones 64-bit pattern.
    let raw: Vec<u8> = vec![0xff, 0xff, 0xff, 0xff, 0xff, 0xff, 0xff, 0xff, 0xff, 0x7f];
    let decoded = decode_varint(&raw);
    assert_eq!(-1i64, decoded.get_value_as_i64());
}

#[test]
fn varint_read_fails_without_terminator() {
    let bytes: Vec<u8> = vec![0x80, 0x80];
    assert!(get_varint_decoded_at(&bytes, 0).is_err());
    assert!(get_varint_decoded_at(&bytes, 2).is_err());
}
