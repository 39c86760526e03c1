//! The durable register store, kept in a sled database.

use crate::codec::{decode, encode, opt_bytes, canonical, CorruptRecord, Record, VersionedValue};
use crate::policy::{beats, resolve, wins, Decision};
use crate::register::{accepts, after_update, current_spec, get_spec};
use vstd::prelude::*;

verus! {

/// sled's database handle, carried through unopened.
#[verifier::external_type_specification]
#[verifier::external_body]
pub struct ExDb(sled::Db);

/// sled's error type, handed back to callers as it came.
#[verifier::external_type_specification]
#[verifier::external_body]
pub struct ExSledError(sled::Error);

/// A failed store operation; distinct from a proposal that lost.
#[derive(Debug)]
pub enum StorageError {
    /// A stored record is shorter than its header.
    CorruptRecord,
    /// The storage engine failed to read, write or flush.
    StorageIo(sled::Error),
}

/// Model of an optional borrowed byte string.
pub open spec fn opt_slice(o: Option<&[u8]>) -> Option<Seq<u8>> {
    match o {
        Some(b) => Some(b@),
        None => None,
    }
}

/// Model of what `get` can return.
pub open spec fn opt_record(o: Option<VersionedValue>) -> Option<Record> {
    match o {
        Some(v) => Some(v@),
        None => None,
    }
}

/// The bytes to leave stored at a key that holds `current`, once `proposal`
/// has been weighed against it: the encoded proposal when it wins, else the
/// stored bytes unchanged (also when they are corrupt).
pub fn next_record(current: Option<&[u8]>, proposal: &VersionedValue) -> (r: Option<Vec<u8>>)
    ensures
        opt_bytes(r) == after_update(opt_slice(current), proposal@),
{
    match current {
        None => {
            if wins(proposal.ballot, 0) {
                Some(encode(proposal))
            } else {
                None
            }
        },
        Some(b) => {
            match decode(b) {
                Ok(c) => {
                    if wins(proposal.ballot, c.ballot) {
                        Some(encode(proposal))
                    } else {
                        Some(vstd::slice::slice_to_vec(b))
                    }
                },
                Err(_) => Some(vstd::slice::slice_to_vec(b)),
            }
        },
    }
}

/// Reads the register out of the bytes stored at a key, if any.
pub fn read_record(stored: Option<Vec<u8>>) -> (r: Result<Option<VersionedValue>, CorruptRecord>)
    ensures
        r is Err <==> get_spec(opt_bytes(stored)) is None,
        r matches Ok(o) ==> get_spec(opt_bytes(stored)) == Some(opt_record(o)),
        r matches Ok(Some(v)) ==> canonical(v@),
{
    match stored {
        None => Ok(None),
        Some(b) => match decode(b.as_slice()) {
            Ok(v) => Ok(Some(v)),
            Err(e) => Err(e),
        },
    }
}

/// The answer to an update, given the bytes that the atomic step replaced:
/// `Ok(())` when the proposal won, else the state that defeated it.
pub fn settle(prev: Option<Vec<u8>>, proposal: &VersionedValue) -> (r: Result<
    Result<(), VersionedValue>,
    CorruptRecord,
>)
    ensures
        r is Err <==> current_spec(opt_bytes(prev)) is None,
        r matches Ok(o) ==> (o is Ok <==> accepts(opt_bytes(prev), proposal@)),
        r matches Ok(Err(c)) ==> current_spec(opt_bytes(prev)) == Some(c@),
        r matches Ok(Err(c)) ==> !beats(proposal.ballot, c.ballot) && canonical(c@),
{
    let current = match prev {
        None => VersionedValue { ballot: 0, value: None },
        Some(b) => match decode(b.as_slice()) {
            Ok(v) => v,
            Err(e) => {
                return Err(e);
            },
        },
    };
    match resolve(current, proposal) {
        Decision::Accept => Ok(Ok(())),
        Decision::Reject(c) => Ok(Err(c)),
    }
}

/// Relies on sled's `Tree::get`: reads the bytes stored at `key`.
#[verifier::external_body]
fn db_get(db: &sled::Db, key: &[u8]) -> (r: Result<Option<Vec<u8>>, sled::Error>) {
    db.get(key).map(|o| o.map(|v| v.to_vec()))
}

/// Relies on sled's `Tree::fetch_and_update`: atomically replaces the bytes
/// stored at `key` with `next_record` of them, retrying on concurrent change,
/// and returns the bytes it replaced.
#[verifier::external_body]
fn db_fetch_and_update(db: &sled::Db, key: &[u8], proposal: &VersionedValue) -> (r: Result<
    Option<Vec<u8>>,
    sled::Error,
>) {
    db.fetch_and_update(key, |cur| next_record(cur, proposal)).map(|o| o.map(|v| v.to_vec()))
}

/// Relies on sled's `Tree::flush`: writes every pending change to stable storage.
#[verifier::external_body]
fn db_flush(db: &sled::Db) -> (r: Result<usize, sled::Error>) {
    db.flush()
}

/// A store of versioned registers, one per key.
#[derive(Debug)]
pub struct VersionedStorage {
    db: sled::Db,
}

impl VersionedStorage {
    /// A store kept in the given database.
    pub fn new(db: sled::Db) -> (r: VersionedStorage) {
        VersionedStorage { db }
    }

    /// The register stored at `key`, or `None` if it was never written.
    pub fn get(&self, key: &[u8]) -> (r: Result<Option<VersionedValue>, StorageError>)
        ensures
            r matches Ok(Some(v)) ==> canonical(v@),
    {
        match db_get(&self.db, key) {
            Err(e) => Err(StorageError::StorageIo(e)),
            Ok(stored) => match read_record(stored) {
                Ok(o) => Ok(o),
                Err(_) => Err(StorageError::CorruptRecord),
            },
        }
    }

    /// Writes `proposal` at `key` if its ballot beats the stored one, as one
    /// atomic step, then flushes. `Ok(Err(c))` carries the state `c` that
    /// defeated the proposal.
    pub fn update_if_newer(&self, key: &[u8], proposal: VersionedValue) -> (r: Result<
        Result<(), VersionedValue>,
        StorageError,
    >)
        ensures
            r matches Ok(Err(c)) ==> !beats(proposal.ballot, c.ballot) && canonical(c@),
    {
        let step = db_fetch_and_update(&self.db, key, &proposal);
        let flushed = db_flush(&self.db);
        let outcome = match step {
            Err(e) => Err(StorageError::StorageIo(e)),
            Ok(prev) => match settle(prev, &proposal) {
                Ok(o) => Ok(o),
                Err(_) => Err(StorageError::CorruptRecord),
            },
        };
        match (outcome, flushed) {
            (Err(e), _) => Err(e),
            (Ok(_), Err(e)) => Err(StorageError::StorageIo(e)),
            (Ok(o), Ok(_)) => Ok(o),
        }
    }
}

} // verus!
