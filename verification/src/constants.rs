//! Protocol bytes and defaults shared by the codec and the server.

use vstd::prelude::*;

verus! {

/// `+`, the first byte of a simple string.
pub const SIMPLE_STRING_PREFIX: u8 = 43u8;

/// `-`, the first byte of an error.
pub const ERROR_PREFIX: u8 = 45u8;

/// `:`, the first byte of an integer.
pub const INTEGER_PREFIX: u8 = 58u8;

/// `$`, the first byte of a bulk string.
pub const BULK_STRING_PREFIX: u8 = 36u8;

/// `*`, the first byte of an array.
pub const ARRAY_PREFIX: u8 = 42u8;

/// The carriage return.
pub const CR: u8 = 13u8;

/// The line feed.
pub const LF: u8 = 10u8;

/// The file that holds the snapshot of the keyspace.
pub const DATA_FILE_PATH: &'static str = ".data.json";

/// The seconds between two snapshots.
pub const DATA_SAVE_INTERVAL_SECS: u64 = 5u64;

/// The port to listen on where the settings name none.
pub const DEFAULT_PORT: u16 = 6379u16;

/// How long an operation waits for the lock of a shard, in milliseconds.
pub const OP_TIMEOUT_MILLIS: u64 = 1000u64;

/// How long a connection may stay idle between two reads, in
/// milliseconds.
pub const READ_TIMEOUT_MILLIS: u64 = 1000u64;

/// The encoding of the null bulk string, `$-1\r\n`.
pub open spec fn null_bulk_string() -> Seq<u8> {
    seq![36u8, 45u8, 49u8, 13u8, 10u8]
}

/// The encoding of the null array, `*-1\r\n`.
pub open spec fn null_array() -> Seq<u8> {
    seq![42u8, 45u8, 49u8, 13u8, 10u8]
}

/// The line terminator, `\r\n`.
pub open spec fn crlf() -> Seq<u8> {
    seq![CR, LF]
}

} // verus!
