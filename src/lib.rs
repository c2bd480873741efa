//! Encoding and decoding of AMQP 0-9-1 wire values and frames.
pub mod error;
pub mod wire;
pub mod strings;
pub mod field;
pub mod args;
pub mod method;
pub mod arguments;
pub mod properties;
pub mod frame;
pub mod amqp_error;

pub use error::{FrameDecodeErr, SyntaxErrorKind, DecodeContext};
pub use strings::{ShortStr, LongStr, FieldName, BytesArray};
pub use field::{
    Decimal, FieldValue, FieldValueKind, FieldArray, FieldTable, Timestamp, encode_field_array,
    decode_field_array,
};
pub use method::{
    Class, Method, MethodId, ConnectionMethod, ChannelMethod, AccessMethod, ExchangeMethod,
    QueueMethod, BasicMethod, ConfirmMethod, TxMethod,
};
pub use arguments::Arguments;
pub use properties::BasicProperties;
pub use frame::{
    Frame, FrameType, Payload, MethodPayload, ContentHeaderPayload, HeartbeatPayload, Property,
    ProtocolHeader, FrameCodec, DecodedFrame,
};
pub use amqp_error::{AmqpError, AmqpErrorKind};
