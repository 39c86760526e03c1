use caspaxos::versioned_storage::{next_record, read_record, settle};
use caspaxos::{encode, resolve, wins, CorruptRecord, Decision, VersionedValue};

fn vv(ballot: u64, value: Option<&[u8]>) -> VersionedValue {
    VersionedValue { ballot, value: value.map(|v| v.to_vec()) }
}

#[test]
fn higher_ballot_wins() {
    assert!(wins(2, 1));
    assert!(!wins(1, 1));
    assert!(!wins(0, 1));
    assert!(wins(u64::MAX, u64::MAX - 1));
}

#[test]
fn resolve_accepts_newer_and_rejects_with_current() {
    let current = vv(4, Some(b"a"));
    assert_eq!(resolve(current.clone(), &vv(5, None)), Decision::Accept);
    assert_eq!(resolve(current.clone(), &vv(4, Some(b"b"))), Decision::Reject(current.clone()));
    assert_eq!(resolve(current.clone(), &vv(1, Some(b"b"))), Decision::Reject(current));
}

#[test]
fn next_record_writes_winning_proposal() {
    let p = vv(5, Some(b"v1"));
    assert_eq!(next_record(None, &p), Some(encode(&p)));
    let stored = encode(&vv(3, Some(b"old")));
    assert_eq!(next_record(Some(&stored), &p), Some(encode(&p)));
}

#[test]
fn next_record_keeps_stored_bytes_when_proposal_loses() {
    let stored = encode(&vv(5, Some(b"v1")));
    assert_eq!(next_record(Some(&stored), &vv(5, Some(b"v2"))), Some(stored.clone()));
    assert_eq!(next_record(Some(&stored), &vv(3, None)), Some(stored));
    assert_eq!(next_record(None, &vv(0, Some(b"x"))), None);
    let corrupt = vec![1, 2, 3];
    assert_eq!(next_record(Some(&corrupt), &vv(9, None)), Some(corrupt));
}

#[test]
fn read_record_decodes_stored_bytes() {
    assert_eq!(read_record(None), Ok(None));
    assert_eq!(read_record(Some(encode(&vv(7, Some(b"z"))))), Ok(Some(vv(7, Some(b"z")))));
    assert_eq!(read_record(Some(vec![0; 7])), Err(CorruptRecord));
}

#[test]
fn settle_reports_outcome_against_replaced_bytes() {
    assert_eq!(settle(None, &vv(1, None)), Ok(Ok(())));
    assert_eq!(settle(None, &vv(0, Some(b"x"))), Ok(Err(vv(0, None))));
    let stored = encode(&vv(5, Some(b"v1")));
    assert_eq!(settle(Some(stored.clone()), &vv(6, None)), Ok(Ok(())));
    assert_eq!(settle(Some(stored), &vv(5, None)), Ok(Err(vv(5, Some(b"v1")))));
    assert_eq!(settle(Some(vec![1]), &vv(5, None)), Err(CorruptRecord));
}
