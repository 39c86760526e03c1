//! The model of one key's register: its stored bytes, and what `get` and
//! `update_if_newer` do to them when each runs as one atomic step.

use crate::codec::{canonical, decode_spec, encode_spec, lemma_round_trip, normalize, Record};
use crate::policy::beats;
use vstd::prelude::*;

verus! {

/// The state of a key that has never been written.
pub open spec fn untouched() -> Record {
    Record { ballot: 0, value: None }
}

/// The register's current state for the policy; `None` when the stored record is corrupt.
pub open spec fn current_spec(stored: Option<Seq<u8>>) -> Option<Record> {
    match stored {
        None => Some(untouched()),
        Some(b) => decode_spec(b),
    }
}

/// What `get` reports: `None` for a corrupt record, `Some(None)` for a key
/// never written, and `Some(Some(r))` for a stored record `r`.
pub open spec fn get_spec(stored: Option<Seq<u8>>) -> Option<Option<Record>> {
    match stored {
        None => Some(None),
        Some(b) => match decode_spec(b) {
            Some(r) => Some(Some(r)),
            None => None,
        },
    }
}

/// Whether an update with proposal `p` takes effect.
pub open spec fn accepts(stored: Option<Seq<u8>>, p: Record) -> bool {
    match current_spec(stored) {
        Some(c) => beats(p.ballot, c.ballot),
        None => false,
    }
}

/// The stored bytes after an update with proposal `p`.
pub open spec fn after_update(stored: Option<Seq<u8>>, p: Record) -> Option<Seq<u8>> {
    if accepts(stored, p) {
        Some(encode_spec(p))
    } else {
        stored
    }
}

/// The stored bytes after updates with `ps`, applied one at a time in order.
pub open spec fn run(stored: Option<Seq<u8>>, ps: Seq<Record>) -> Option<Seq<u8>>
    decreases ps.len(),
{
    if ps.len() == 0 {
        stored
    } else {
        after_update(run(stored, ps.drop_last()), ps.last())
    }
}

/// Whether the update with `ps[i]` takes effect when the updates run in order.
pub open spec fn accepted_at(stored: Option<Seq<u8>>, ps: Seq<Record>, i: int) -> bool {
    accepts(run(stored, ps.take(i)), ps[i])
}

/// The stored ballot once the first `i` updates of `ps` have run.
pub open spec fn ballot_after(stored: Option<Seq<u8>>, ps: Seq<Record>, i: int) -> u64 {
    current_spec(run(stored, ps.take(i))).unwrap().ballot
}

/// Whether the ballots of `ps` strictly increase.
pub open spec fn strictly_increasing(ps: Seq<Record>) -> bool {
    forall|i: int, j: int| 0 <= i < j < ps.len() ==> ps[i].ballot < ps[j].ballot
}

/// One update leaves a readable register readable; when it takes effect the
/// register reads back as the proposal, else nothing changes.
pub proof fn lemma_update_step(stored: Option<Seq<u8>>, p: Record)
    requires
        current_spec(stored) is Some,
    ensures
        current_spec(after_update(stored, p)) is Some,
        accepts(stored, p) ==> current_spec(after_update(stored, p)) == Some(normalize(p)),
        accepts(stored, p) ==> get_spec(after_update(stored, p)) == Some(Some(normalize(p))),
        !accepts(stored, p) ==> after_update(stored, p) == stored,
{
    lemma_round_trip(p);
}

/// Running the first `i + 1` updates is running the first `i`, then `ps[i]`.
pub proof fn lemma_run_prefix(stored: Option<Seq<u8>>, ps: Seq<Record>, i: int)
    requires
        0 <= i < ps.len(),
    ensures
        run(stored, ps.take(i + 1)) == after_update(run(stored, ps.take(i)), ps[i]),
{
    assert(ps.take(i + 1).drop_last() =~= ps.take(i));
}

/// An update whose ballot does not exceed the stored one is rejected and
/// leaves the stored bytes, and so every later read, unchanged.
pub proof fn lemma_stale_rejected(stored: Option<Seq<u8>>, p: Record)
    requires
        current_spec(stored) is Some,
        p.ballot <= current_spec(stored).unwrap().ballot,
    ensures
        !accepts(stored, p),
        after_update(stored, p) == stored,
        get_spec(after_update(stored, p)) == get_spec(stored),
{
}

/// Reading does not change the stored bytes, and a read's answer depends on
/// those bytes alone: two reads with no update between them agree.
pub proof fn lemma_reads_agree(stored: Option<Seq<u8>>, later: Option<Seq<u8>>)
    requires
        later == stored,
    ensures
        get_spec(later) == get_spec(stored),
{
}

/// Updates whose ballots strictly increase, the first above the stored one,
/// all take effect, and a read afterwards returns the last of them.
pub proof fn lemma_increasing_ballots_accepted(stored: Option<Seq<u8>>, ps: Seq<Record>)
    requires
        current_spec(stored) is Some,
        ps.len() > 0,
        strictly_increasing(ps),
        current_spec(stored).unwrap().ballot < ps[0].ballot,
    ensures
        forall|i: int| 0 <= i < ps.len() ==> #[trigger] accepted_at(stored, ps, i),
        get_spec(run(stored, ps)) == Some(Some(normalize(ps.last()))),
        canonical(ps.last()) ==> get_spec(run(stored, ps)) == Some(Some(ps.last())),
    decreases ps.len(),
{
    let n = ps.len() - 1;
    let q = ps.drop_last();
    assert(ps.take(n) =~= q);
    if n == 0 {
        assert(q =~= Seq::<Record>::empty());
        assert(run(stored, q) == stored);
    } else {
        lemma_increasing_ballots_accepted(stored, q);
        assert forall|i: int| 0 <= i < n implies #[trigger] accepted_at(stored, ps, i) by {
            assert(q.take(i) =~= ps.take(i));
            assert(accepted_at(stored, q, i));
        }
        assert(q.last() == ps[n - 1]);
    }
    lemma_update_step(run(stored, q), ps.last());
    assert(accepted_at(stored, ps, n));
    if canonical(ps.last()) {
        lemma_round_trip(ps.last());
    }
}

/// What one update of a run does to the stored ballot: it rises to the
/// proposal's ballot when the update takes effect, and stays put otherwise.
pub proof fn lemma_run_step(stored: Option<Seq<u8>>, ps: Seq<Record>, i: int)
    requires
        0 <= i < ps.len(),
        current_spec(run(stored, ps.take(i))) is Some,
    ensures
        current_spec(run(stored, ps.take(i + 1))) is Some,
        accepted_at(stored, ps, i) ==> ballot_after(stored, ps, i) < ps[i].ballot
            && ballot_after(stored, ps, i + 1) == ps[i].ballot,
        !accepted_at(stored, ps, i) ==> ps[i].ballot <= ballot_after(stored, ps, i)
            && ballot_after(stored, ps, i + 1) == ballot_after(stored, ps, i),
{
    lemma_run_prefix(stored, ps, i);
    lemma_update_step(run(stored, ps.take(i)), ps[i]);
}

/// Every prefix of a run from a readable register leaves it readable, and
/// the stored ballot never falls.
pub proof fn lemma_run_monotone(stored: Option<Seq<u8>>, ps: Seq<Record>, j: int)
    requires
        current_spec(stored) is Some,
        0 <= j <= ps.len(),
    ensures
        current_spec(run(stored, ps.take(j))) is Some,
        forall|i: int| 0 <= i <= j ==> ballot_after(stored, ps, i) <= ballot_after(stored, ps, j),
        (forall|i: int| 0 <= i < j ==> !#[trigger] accepted_at(stored, ps, i)) && ballot_after(
            stored,
            ps,
            j,
        ) == current_spec(stored).unwrap().ballot || exists|k: int|
            0 <= k < j && #[trigger] accepted_at(stored, ps, k) && ps[k].ballot == ballot_after(
                stored,
                ps,
                j,
            ),
    decreases j,
{
    if j == 0 {
        assert(ps.take(0) =~= Seq::<Record>::empty());
        assert(run(stored, ps.take(0)) == stored);
    } else {
        lemma_run_monotone(stored, ps, j - 1);
        lemma_run_step(stored, ps, j - 1);
        if accepted_at(stored, ps, j - 1) {
            assert(0 <= j - 1 < j && accepted_at(stored, ps, j - 1) && ps[j - 1].ballot
                == ballot_after(stored, ps, j));
        }
    }
}

/// Updates applied one atomic step at a time, their ballots in any order:
/// those that take effect do so in strictly increasing ballot order, each
/// rejected one saw a ballot at least its own, and the final ballot is the
/// largest accepted one, or the first ballot when none was accepted.
pub proof fn lemma_linearized_updates(stored: Option<Seq<u8>>, ps: Seq<Record>)
    requires
        current_spec(stored) is Some,
    ensures
        current_spec(run(stored, ps)) is Some,
        forall|i: int, j: int|
            0 <= i < j < ps.len() && #[trigger] accepted_at(stored, ps, i) && #[trigger] accepted_at(
                stored,
                ps,
                j,
            ) ==> ps[i].ballot < ps[j].ballot,
        forall|i: int|
            0 <= i < ps.len() && !#[trigger] accepted_at(stored, ps, i) ==> ps[i].ballot
                <= ballot_after(stored, ps, i),
        forall|i: int|
            0 <= i < ps.len() && #[trigger] accepted_at(stored, ps, i) ==> ps[i].ballot
                <= current_spec(run(stored, ps)).unwrap().ballot,
        (forall|i: int| 0 <= i < ps.len() ==> !#[trigger] accepted_at(stored, ps, i))
            && current_spec(run(stored, ps)).unwrap().ballot == current_spec(stored).unwrap().ballot
            || exists|k: int|
            0 <= k < ps.len() && #[trigger] accepted_at(stored, ps, k) && ps[k].ballot
                == current_spec(run(stored, ps)).unwrap().ballot,
{
    let n = ps.len() as int;
    assert(ps.take(n) =~= ps);
    lemma_run_monotone(stored, ps, n);
    assert forall|i: int| 0 <= i < n implies current_spec(run(stored, ps.take(i))) is Some by {
        lemma_run_monotone(stored, ps, i);
    }
    assert forall|i: int, j: int|
        0 <= i < j < n && #[trigger] accepted_at(stored, ps, i) && #[trigger] accepted_at(
            stored,
            ps,
            j,
        ) implies ps[i].ballot < ps[j].ballot by {
        lemma_run_monotone(stored, ps, j);
        lemma_run_step(stored, ps, i);
        lemma_run_step(stored, ps, j);
    }
    assert forall|i: int| 0 <= i < n && !#[trigger] accepted_at(stored, ps, i) implies ps[i].ballot
        <= ballot_after(stored, ps, i) by {
        lemma_run_step(stored, ps, i);
    }
    assert forall|i: int| 0 <= i < n && #[trigger] accepted_at(stored, ps, i) implies ps[i].ballot
        <= ballot_after(stored, ps, n) by {
        lemma_run_step(stored, ps, i);
    }
}

} // verus!
