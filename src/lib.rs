//! Durable acceptor state for a CASPaxos register store: each key holds a
//! ballot and an optional value, and a write takes effect only when its
//! ballot is strictly greater than the stored one.

pub mod codec;
pub mod policy;
pub mod register;
pub mod versioned_storage;

pub use codec::{decode, encode, CorruptRecord, Record, VersionedValue};
pub use policy::{resolve, wins, Decision};
pub use versioned_storage::{StorageError, VersionedStorage};
