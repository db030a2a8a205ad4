//! A binary codec for a length-framed, big-endian request/response protocol.
//!
//! Every codable type states its wire form as spec functions, and its `encode`,
//! `decode` and `size` are verified against them: `size` is the length of what `encode`
//! writes, and decoding an encoding gives the value back.

pub mod containers;
pub mod envelope;
pub mod error_code;
pub mod messages;
pub mod protocol;
pub mod reader;
pub mod strings;
pub mod types;
pub mod wire;

pub use containers::WithSize;
pub use envelope::{IsRequestOrResponse, Request, RequestMessage, RequestOrResponse, Response, ResponseMessage};
pub use error_code::Error;
pub use messages::MetadataRequest;
pub use protocol::KafkaSerializable;
pub use reader::Reader;
pub use types::{ErrorKind, KafkaError};
