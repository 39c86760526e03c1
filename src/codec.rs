//! The stored byte form of a register: eight bytes of little-endian ballot,
//! followed by the value's bytes, if any.

use vstd::bytes::{
    lemma_auto_spec_u64_to_from_le_bytes, spec_u64_from_le_bytes, spec_u64_to_le_bytes,
    u64_from_le_bytes, u64_to_le_bytes,
};
use vstd::prelude::*;

verus! {

/// Number of bytes that hold the ballot at the front of every record.
pub const HEADER_LEN: usize = 8;

/// The state of one register, as callers see it.
#[derive(Debug, Clone, PartialEq, Eq)]
pub struct VersionedValue {
    pub ballot: u64,
    pub value: Option<Vec<u8>>,
}

/// The mathematical model of a `VersionedValue`.
pub struct Record {
    pub ballot: u64,
    pub value: Option<Seq<u8>>,
}

/// Model of an optional byte vector.
pub open spec fn opt_bytes(o: Option<Vec<u8>>) -> Option<Seq<u8>> {
    match o {
        Some(v) => Some(v@),
        None => None,
    }
}

impl View for VersionedValue {
    type V = Record;

    open spec fn view(&self) -> Record {
        Record { ballot: self.ballot, value: opt_bytes(self.value) }
    }
}

/// A stored record too short to hold a ballot.
#[derive(Debug, Clone, Copy, PartialEq, Eq)]
pub struct CorruptRecord;

/// The bytes of a value, with `None` written as nothing at all.
pub open spec fn payload(value: Option<Seq<u8>>) -> Seq<u8> {
    match value {
        Some(s) => s,
        None => Seq::empty(),
    }
}

/// The byte form of a record.
pub open spec fn encode_spec(r: Record) -> Seq<u8> {
    spec_u64_to_le_bytes(r.ballot) + payload(r.value)
}

/// The record that a byte string holds; `None` when it is too short.
pub open spec fn decode_spec(b: Seq<u8>) -> Option<Record> {
    if b.len() < 8 {
        None
    } else {
        Some(
            Record {
                ballot: spec_u64_from_le_bytes(b.subrange(0, 8)),
                value: if b.len() == 8 {
                    None
                } else {
                    Some(b.subrange(8, b.len() as int))
                },
            },
        )
    }
}

/// Records that decoding maps back to themselves: an empty value is stored as
/// no bytes, so it reads back as `None`.
pub open spec fn canonical(r: Record) -> bool {
    r.value != Some(Seq::<u8>::empty())
}

/// The record that decoding returns for an encoded record: an empty value
/// occupies no bytes and so reads back as `None`.
pub open spec fn normalize(r: Record) -> Record {
    Record { ballot: r.ballot, value: if payload(r.value).len() == 0 { None } else { r.value } }
}

/// Writes a record as the ballot's eight little-endian bytes followed by the value.
pub fn encode(v: &VersionedValue) -> (r: Vec<u8>)
    ensures
        r@ == encode_spec(v@),
        r@.len() == 8 + payload(v@.value).len(),
{
    let mut out = u64_to_le_bytes(v.ballot);
    match &v.value {
        Some(bytes) => {
            let mut i: usize = 0;
            while i < bytes.len()
                invariant
                    i <= bytes@.len(),
                    out@ == spec_u64_to_le_bytes(v.ballot) + bytes@.subrange(0, i as int),
                decreases bytes@.len() - i,
            {
                out.push(bytes[i]);
                i = i + 1;
                assert(out@ =~= spec_u64_to_le_bytes(v.ballot) + bytes@.subrange(0, i as int));
            }
            assert(bytes@.subrange(0, bytes@.len() as int) =~= bytes@);
        },
        None => {
            assert(out@ =~= spec_u64_to_le_bytes(v.ballot) + Seq::<u8>::empty());
        },
    }
    out
}

/// Reads a record back; a byte string shorter than the header is corrupt.
pub fn decode(b: &[u8]) -> (r: Result<VersionedValue, CorruptRecord>)
    ensures
        r is Err <==> b@.len() < 8,
        r matches Ok(v) ==> decode_spec(b@) == Some(v@),
        r matches Ok(v) ==> canonical(v@),
{
    if b.len() < HEADER_LEN {
        return Err(CorruptRecord);
    }
    let ballot = u64_from_le_bytes(vstd::slice::slice_subrange(b, 0, HEADER_LEN));
    let value = if b.len() == HEADER_LEN {
        None
    } else {
        let rest = vstd::slice::slice_subrange(b, HEADER_LEN, b.len());
        assert(rest@.len() > 0);
        Some(vstd::slice::slice_to_vec(rest))
    };
    Ok(VersionedValue { ballot, value })
}

/// Decoding what was encoded gives the record back, for every record whose
/// value is absent or non-empty; an empty value comes back as `None`.
pub proof fn lemma_round_trip(r: Record)
    ensures
        decode_spec(encode_spec(r)) == Some(normalize(r)),
        canonical(r) ==> decode_spec(encode_spec(r)) == Some(r),
{
    lemma_auto_spec_u64_to_from_le_bytes();
    let b = encode_spec(r);
    let h = spec_u64_to_le_bytes(r.ballot);
    assert(b.subrange(0, 8) =~= h);
    assert(b.subrange(8, b.len() as int) =~= payload(r.value));
    match r.value {
        Some(s) => {
            if s.len() == 0 {
                assert(s =~= Seq::<u8>::empty());
            }
        },
        None => {},
    }
}

} // verus!
