//! Schema-less decoding of protobuf wire-format data.
//!
//! Given a raw byte buffer believed to hold a protobuf-encoded message, the
//! crate reconstructs a generic tree of fields and values without a schema,
//! annotating each scalar with every plausible interpretation of its bytes.

pub mod decode;
pub mod error;
pub mod message;
pub mod tag;
pub mod text;
pub mod varint;

pub use crate::decode::MAX_DECODE_DEPTH;
pub use crate::decode::decode_proto;
pub use crate::decode::decode_proto_with_depth;
pub use crate::error::DecodeError;
pub use crate::message::Field;
pub use crate::message::Message;
pub use crate::message::Value;
pub use crate::message::ValueRepresentation;
pub use crate::tag::ProtoKey;
pub use crate::tag::WireType;
pub use crate::varint::VarIntDecodedData;
pub use crate::varint::decode_varint;
pub use crate::varint::encode_to_varint;
pub use crate::varint::get_varint_decoded_at;
pub use crate::varint::get_varint_raw_at;
