//! The error taxonomy shared by the codec, the log replay and the engine.

use vstd::prelude::*;

verus! {

/// What kind of failure the byte store underneath reported.
#[derive(Clone, Copy, Debug, PartialEq, Eq, Structural)]
pub enum IoErrorKind {
    /// The bytes ended before a complete record had been read.
    UnexpectedEof,
    /// Any other read, write or seek failure.
    Other,
}

/// Every way an operation of this crate can fail.
#[derive(Clone, Copy, Debug, PartialEq, Eq, Structural)]
pub enum KvsError {
    /// A read, write or seek on the byte store failed.
    Io { kind: IoErrorKind },
    /// An application value could not be turned into bytes or back.
    Serialize,
    /// The key's UTF-8 encoding is longer than [`crate::MAX_KEY_BYTES`].
    MaxKeyBytes,
    /// The value is longer than [`crate::MAX_VALUE_BYTES`].
    MaxValueBytes,
    /// A record's state byte is neither active nor deleted.
    InvalidState(u8),
    /// The key has no live record.
    NotFound,
    /// A record's stored checksum does not match its contents.
    CorruptData,
    /// A record's key bytes are not valid UTF-8.
    InvalidKey,
    /// A failure that the layers around the engine could not name.
    Unknown,
}

impl KvsError {
    /// The error reported when bytes run out in the middle of a record.
    pub open spec fn eof() -> KvsError {
        KvsError::Io { kind: IoErrorKind::UnexpectedEof }
    }

    /// True exactly for an I/O error whose kind is end-of-stream.
    pub fn is_eof(&self) -> (b: bool)
        ensures
            b == (*self == KvsError::eof()),
    {
        match self {
            KvsError::Io { kind } => match kind {
                IoErrorKind::UnexpectedEof => true,
                IoErrorKind::Other => false,
            },
            _ => false,
        }
    }

    /// True exactly when the key was not found.
    pub fn is_not_found(&self) -> (b: bool)
        ensures
            b == (*self == KvsError::NotFound),
    {
        match self {
            KvsError::NotFound => true,
            _ => false,
        }
    }

    /// True exactly when a checksum did not match.
    pub fn is_data_corrupt(&self) -> (b: bool)
        ensures
            b == (*self == KvsError::CorruptData),
    {
        match self {
            KvsError::CorruptData => true,
            _ => false,
        }
    }

    /// The status with which the command line ends on this error: 2 when a
    /// key was not found, and 1 on any other error.
    pub fn exit_code(&self) -> (code: i32)
        ensures
            code == (if *self == KvsError::NotFound {
                2i32
            } else {
                1i32
            }),
    {
        match self {
            KvsError::NotFound => 2,
            _ => 1,
        }
    }

    /// True exactly for a value (de)serialization failure.
    pub fn is_serialize(&self) -> (b: bool)
        ensures
            b == (*self == KvsError::Serialize),
    {
        match self {
            KvsError::Serialize => true,
            _ => false,
        }
    }
}

} // verus!
