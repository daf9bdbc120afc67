//! An in-memory key-value server core speaking a line-oriented,
//! length-prefixed wire protocol: frame codec, command model, serialized
//! executor with expiry and replication offset tracking, and the
//! replica-side handshake state machine.

pub mod command;
pub mod config;
pub mod parser;
pub mod redis;
pub mod replica;
pub mod utilities;
pub mod value;
pub mod worker;

pub use value::RedisValue;
