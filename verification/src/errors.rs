//! Error kinds of the codec, the keyspace, the server and user input, each
//! with the single-line text that is shown to a client.

use vstd::prelude::*;
use vstd::string::StringExecFns;

verus! {

/// Why a byte sequence is not a RESP frame.
#[derive(Debug, PartialEq)]
pub enum DeserializeError {
    InvalidInput(String),
    LengthMismatch(String),
    EmptyInput,
}

/// Why a keyspace operation did not succeed.
#[derive(Debug, PartialEq)]
pub enum DataStoreError {
    LockError,
    KeyNotFound,
    ExpiredKey,
    InvalidOptions(String),
    SerializeError,
    FileIOError,
    DataLoadError,
}

/// What the user asked for that cannot be done.
#[derive(Debug, PartialEq)]
pub enum UserInputError {
    InvalidInput(String),
    DataStoreError(DataStoreError),
    UnknownCommand(String),
}

/// What went wrong while serving a connection.
#[derive(Debug, PartialEq)]
pub enum ServerError {
    AcceptError,
    ReadError,
    WriteError,
    RespParseError(String),
    TypeError,
    DataStoreError(DataStoreError),
    UserInputError(UserInputError),
    ConfigError(String),
}

/// A fixed prefix followed by a detail.
fn prefixed(prefix: &str, detail: &str) -> (res: String)
    ensures
        res@ == prefix@ + detail@,
{
    let mut res = String::from_str(prefix);
    res.append(detail);
    res
}

impl DeserializeError {
    /// The text of the error.
    pub open spec fn text(self) -> Seq<char> {
        match self {
            DeserializeError::InvalidInput(s) => "Invalid input: "@ + s@,
            DeserializeError::LengthMismatch(s) => "Length mismatch: "@ + s@,
            DeserializeError::EmptyInput => "Empty input"@,
        }
    }

    /// The text of the error, as shown to a client.
    pub fn message(&self) -> (res: String)
        ensures
            res@ == self.text(),
    {
        match self {
            DeserializeError::InvalidInput(s) => prefixed("Invalid input: ", s.as_str()),
            DeserializeError::LengthMismatch(s) => prefixed("Length mismatch: ", s.as_str()),
            DeserializeError::EmptyInput => String::from_str("Empty input"),
        }
    }
}

impl DataStoreError {
    /// The text of the error.
    pub open spec fn text(self) -> Seq<char> {
        match self {
            DataStoreError::LockError => "Failed to acquire lock"@,
            DataStoreError::KeyNotFound => "Key not found"@,
            DataStoreError::ExpiredKey => "Key has expired"@,
            DataStoreError::InvalidOptions(s) => "Invalid options: "@ + s@,
            DataStoreError::SerializeError => "Failed to serialize data"@,
            DataStoreError::FileIOError => "Failed to read/write file"@,
            DataStoreError::DataLoadError => "Failed to load data"@,
        }
    }

    /// The text of the error, as shown to a client.
    pub fn message(&self) -> (res: String)
        ensures
            res@ == self.text(),
    {
        match self {
            DataStoreError::LockError => String::from_str("Failed to acquire lock"),
            DataStoreError::KeyNotFound => String::from_str("Key not found"),
            DataStoreError::ExpiredKey => String::from_str("Key has expired"),
            DataStoreError::InvalidOptions(s) => prefixed("Invalid options: ", s.as_str()),
            DataStoreError::SerializeError => String::from_str("Failed to serialize data"),
            DataStoreError::FileIOError => String::from_str("Failed to read/write file"),
            DataStoreError::DataLoadError => String::from_str("Failed to load data"),
        }
    }
}

impl UserInputError {
    /// The text of the error.
    pub open spec fn text(self) -> Seq<char> {
        match self {
            UserInputError::InvalidInput(s) => "Invalid input: "@ + s@,
            UserInputError::DataStoreError(e) => "Data store error: "@ + e.text(),
            UserInputError::UnknownCommand(c) => "Unknown command: "@ + c@,
        }
    }

    /// The text of the error, as shown to a client.
    pub fn message(&self) -> (res: String)
        ensures
            res@ == self.text(),
    {
        match self {
            UserInputError::InvalidInput(s) => prefixed("Invalid input: ", s.as_str()),
            UserInputError::DataStoreError(e) => {
                let inner = e.message();
                prefixed("Data store error: ", inner.as_str())
            },
            UserInputError::UnknownCommand(c) => prefixed("Unknown command: ", c.as_str()),
        }
    }
}

impl ServerError {
    /// The text of the error.
    pub open spec fn text(self) -> Seq<char> {
        match self {
            ServerError::AcceptError => "Failed to accept connection"@,
            ServerError::ReadError => "Failed to read from stream"@,
            ServerError::WriteError => "Failed to write to stream"@,
            ServerError::RespParseError(s) => "Failed to parse RESP "@ + s@,
            ServerError::TypeError => "Type error"@,
            ServerError::DataStoreError(e) => "Data store error: "@ + e.text(),
            ServerError::UserInputError(e) => "User input error: "@ + e.text(),
            ServerError::ConfigError(s) => "Config error: "@ + s@,
        }
    }

    /// The text of the error, as shown to a client.
    pub fn message(&self) -> (res: String)
        ensures
            res@ == self.text(),
    {
        match self {
            ServerError::AcceptError => String::from_str("Failed to accept connection"),
            ServerError::ReadError => String::from_str("Failed to read from stream"),
            ServerError::WriteError => String::from_str("Failed to write to stream"),
            ServerError::RespParseError(s) => prefixed("Failed to parse RESP ", s.as_str()),
            ServerError::TypeError => String::from_str("Type error"),
            ServerError::DataStoreError(e) => {
                let inner = e.message();
                prefixed("Data store error: ", inner.as_str())
            },
            ServerError::UserInputError(e) => {
                let inner = e.message();
                prefixed("User input error: ", inner.as_str())
            },
            ServerError::ConfigError(s) => prefixed("Config error: ", s.as_str()),
        }
    }
}

} // verus!
