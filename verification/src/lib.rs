//! Command-decoding layer for a Redis-compatible (RESP2) wire protocol.
//!
//! Three pure, stateless components, consumed in sequence by a connection
//! layer: a frame decoder that turns a byte buffer into one protocol value
//! and reports the unconsumed suffix, a command parser that validates the
//! shape and arity of a decoded value, and a frame encoder that serializes
//! a value to its exact wire bytes.

pub mod value;
pub mod encode;
pub mod decode;
pub mod text;
pub mod command;
pub mod codec_laws;
pub mod command_laws;

pub use command::CommandSpec;
pub use command::RedisCommand;
pub use command::parse_command;
pub use decode::ParseError;
pub use decode::parse_resp_with_remaining;
pub use encode::serialize_frame;
pub use value::RespSpec;
pub use value::RespValue;
