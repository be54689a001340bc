//! An in-memory key-value store that speaks the Redis serialization
//! protocol: the wire codec, the keyspace with per-key expiry, command
//! dispatch and the per-connection framing decisions.

pub mod commands;
pub mod constants;
pub mod datastore;
pub mod db;
pub mod deserialize;
pub mod errors;
pub mod options;
pub mod redisconfig;
pub mod resp_value;
pub mod roundtrip;
pub mod server;
pub mod text;
