//! A persistent key-value engine over an append-only log of checksummed
//! records, with an in-memory index that is rebuilt by replaying the log.
//!
//! - [`entry`], [`index`] and [`engine`] are the store: the record format, the
//!   replay of a log, and `put`, `get`, `delete` and `keys` on top of them.
//!   [`laws`] states what holds of every log; [`wire`] holds the primitives
//!   of the format.
//! - [`protocol`] and [`server`] are the echo exchange of the store's server.
//! - [`cors`], [`router`] and [`handler`] are the rules of the todo service
//!   that keeps its tasks in the store; [`text`] is what they are made of.

use vstd::prelude::*;

pub mod cors;
pub mod engine;
pub mod entry;
pub mod error;
pub mod handler;
pub mod index;
pub mod laws;
pub mod protocol;
pub mod router;
pub mod server;
pub mod text;
pub mod wire;

pub use engine::{Engine, Keys};
pub use error::{IoErrorKind, KvsError};
pub use server::Server;

verus! {

/// Longest key, in bytes of its UTF-8 encoding, that a record can carry.
pub const MAX_KEY_BYTES: u16 = 65535;

/// Longest value, in bytes, that a record can carry.
pub const MAX_VALUE_BYTES: u32 = 4294967295;

} // verus!
