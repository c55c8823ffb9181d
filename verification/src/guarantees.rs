//! What each operation guarantees, in terms of what it is given and what can be read
//! off afterwards.
//!
//! The statements here speak of fields alone: of the stages, times, counters and
//! bytes that the tables hold before and after, and of those that a message carries.
use crate::ids::ConsensusRoundID;
use crate::ids::ProcessorIdx;
use crate::model::PeerStateView;
use crate::peer_xact::PeerReport;
use crate::peer_xact::PeerReportKind;
use crate::peer_xact::PeerXactView;
use crate::peer_xact::PendingXact;
use crate::peer_xact::PendingXactStage;
use crate::time::is_earliest;
use crate::time::Duration;
use crate::time::Instant;
use crate::types::SealTypes;
use crate::xact::ConsensusCtlSubmit;
use crate::xact::XactCommittedRound;
use crate::xact::XactEffects;
use crate::xact::XactError;
use crate::xact::XactLinPoint;
use crate::xact::XactNotify;
use crate::xact::XactNotifyState;
use crate::xact::XactSealed;
use vstd::prelude::*;

verus! {

/// Whether the clients in `b` are those in `a`, each to be told at once, in the same
/// detail as before and with no retries counted.
pub open spec fn told_afresh<P>(
    a: Map<P, PeerReport>,
    b: Map<P, PeerReport>,
    now: Instant,
) -> bool {
    &&& forall|c: P| #[trigger] a.contains_key(c) <==> b.contains_key(c)
    &&& forall|c: P| #[trigger]
        b.contains_key(c) ==> b[c].kind == a[c].kind && b[c].when == Some(now) && b[c].nretries == 0
}

/// Whether nothing but the transaction `h` differs.
pub open spec fn only_xact_differs<T: SealTypes>(
    s: PeerStateView<T>,
    t: PeerStateView<T>,
    h: T::HashID,
) -> bool {
    &&& forall|k: T::HashID|
        k != h ==> (#[trigger] t.xacts.contains_key(k) <==> s.xacts.contains_key(k))
    &&& forall|k: T::HashID|
        k != h && #[trigger] t.xacts.contains_key(k) ==> t.xacts[k] == s.xacts[k]
    &&& t.seals == s.seals
    &&& t.missing == s.missing
    &&& t.processors == s.processors
    &&& t.tombstone_duration == s.tombstone_duration
    &&& t.retry == s.retry
    &&& t.resubmit == s.resubmit
}

/// A client is told of success exactly when the transaction is complete, and of an
/// error exactly when it has failed.  Of a pending one it is told how far it has come:
/// that it is accepted exactly while it was neither submitted to consensus, nor
/// dispatched, nor committed.  A client that asked for the result gets the result or
/// the error itself, another one does not.
pub proof fn law_messages_tell_the_progress<T: SealTypes>(x: PeerXactView<T>, client: T::Prin)
    ensures
        ({
            let m = x.message(client);
            let full = x.reporting[client].kind == PeerReportKind::Result;
            &&& m is Error <==> x.state is Error
            &&& m is Success <==> x.state is Complete
            &&& m is Accept <==> (x.state is Pending && (x.state->stage is PreCommit
                && !x.state->stage->PreCommit_dispatched || x.state->stage is Commit
                && !x.state->stage->submitted))
            &&& m is Consensus <==> (x.state is Pending && x.state->stage is Commit
                && x.state->stage->submitted)
            &&& m is PrecommitDispatch <==> (x.state is Pending && x.state->stage is PreCommit
                && x.state->stage->PreCommit_dispatched)
            &&& m is Commit <==> (x.state is Pending && x.state->stage is Process
                && !x.state->stage->Process_dispatched)
            &&& m is Dispatch <==> (x.state is Pending && x.state->stage is Process
                && x.state->stage->Process_dispatched)
            &&& m matches XactNotifyState::Commit { when } ==> when == x.state->stage->lin_point
            &&& m matches XactNotifyState::Dispatch { when } ==> when == x.state->stage->lin_point
            &&& m matches XactNotifyState::PrecommitDispatch { when: Some(when) } ==> (
            x.state->xact.effects matches XactEffects::HardNone { when: Some(asked) } && asked
                == when)
            &&& m matches XactNotifyState::PrecommitDispatch { when: None } ==> !(
            x.state->xact.effects matches XactEffects::HardNone { when: Some(_) })
            &&& m matches XactNotifyState::Success { when, result } ==> {
                &&& when == x.state->Complete_lin_point
                &&& full ==> result == Some(x.state->res)
                &&& !full ==> result is None
            }
            &&& m matches XactNotifyState::Error { error } ==> {
                &&& full ==> error == Some(x.state->error)
                &&& !full ==> error is None
            }
        }),
{
}

/// A transaction that nobody has submitted before and that no round has committed
/// starts with what was asked for and with the processor that was found.  With
/// effects it waits for consensus, without it is to be tried at once.  The client is
/// told that it is accepted, with everything else as it was.
pub proof fn law_submission_starts<T: SealTypes>(
    s: PeerStateView<T>,
    client: T::Prin,
    hash: T::HashID,
    processor: ProcessorIdx,
    xact: PendingXact<T, Seq<u8>>,
    now: Instant,
)
    requires
        !s.xacts.contains_key(hash),
        !s.missing.contains_key(hash),
    ensures
        ({
            let t = s.add_xact(client, hash, Ok(processor), xact, now);
            let x = t.xacts[hash];
            &&& t.xacts.contains_key(hash)
            &&& x.state is Pending
            &&& x.state->processor == processor
            &&& x.state->xact == xact
            &&& xact.effects is Effects ==> x.state->stage == (PendingXactStage::Commit {
                submitted: false,
                when: Some(now),
                nretries: 0,
            })
            &&& !(xact.effects is Effects) ==> x.state->stage == (PendingXactStage::PreCommit {
                dispatched: false,
                when: Some(now),
                nretries: 0,
            })
            &&& forall|c: T::Prin| #[trigger] x.reporting.contains_key(c) <==> c == client
            &&& x.reporting[client].kind == PeerReportKind::Result
            &&& x.reporting[client].when == Some(now)
            &&& x.reporting[client].nretries == 0
            &&& x.message(client) == XactNotifyState::<Seq<u8>>::Accept
            &&& only_xact_differs(s, t, hash)
        }),
{
}

/// A transaction for which no processor was found fails at once with the reason, if
/// nobody has submitted it before; else nothing changes.
pub proof fn law_rejection_is_kept<T: SealTypes>(
    s: PeerStateView<T>,
    client: T::Prin,
    hash: T::HashID,
    error: XactError<Seq<u8>>,
    xact: PendingXact<T, Seq<u8>>,
    now: Instant,
)
    requires
        now.nanos + s.tombstone_duration.nanos <= u128::MAX,
    ensures
        ({
            let t = s.add_xact(client, hash, Err(error), xact, now);
            let x = t.xacts[hash];
            &&& s.xacts.contains_key(hash) ==> t == s
            &&& !s.xacts.contains_key(hash) ==> {
                &&& t.xacts.contains_key(hash)
                &&& x.state is Error
                &&& x.state->error == error
                &&& x.state->Error_expire.nanos == now.nanos + s.tombstone_duration.nanos
                &&& forall|c: T::Prin| #[trigger] x.reporting.contains_key(c) <==> c == client
                &&& x.reporting[client].kind == PeerReportKind::Result
                &&& x.reporting[client].when == Some(now)
                &&& x.reporting[client].nretries == 0
                &&& x.message(client) == (XactNotifyState::Error { error: Some(error) })
                &&& only_xact_differs(s, t, hash)
            }
        }),
{
}

/// To submit a transaction that is already here makes the client one of those who
/// are told its result, from now on; everything else is as it was.
pub proof fn law_resubmission_keeps_the_rest<T: SealTypes>(
    s: PeerStateView<T>,
    client: T::Prin,
    hash: T::HashID,
    processor: ProcessorIdx,
    xact: PendingXact<T, Seq<u8>>,
    now: Instant,
)
    requires
        s.xacts.contains_key(hash),
    ensures
        ({
            let t = s.add_xact(client, hash, Ok(processor), xact, now);
            let x = t.xacts[hash];
            &&& t.xacts.contains_key(hash)
            &&& x.state == s.xacts[hash].state
            &&& x.reporting[client].kind == PeerReportKind::Result
            &&& x.reporting[client].when == Some(now)
            &&& x.reporting[client].nretries == 0
            &&& forall|c: T::Prin| #[trigger]
                x.reporting.contains_key(c) <==> c == client
                    || s.xacts[hash].reporting.contains_key(c)
            &&& forall|c: T::Prin|
                c != client && #[trigger] x.reporting.contains_key(c) ==> x.reporting[c]
                    == s.xacts[hash].reporting[c]
            &&& only_xact_differs(s, t, hash)
        }),
{
}

/// A transaction that arrives after the round that commits it stands at the first
/// place that the round has for it.  The round knows it there from now on, and its
/// processor is to be served at once; everything else is as it was.
pub proof fn law_late_arrival_joins_its_round<T: SealTypes>(
    s: PeerStateView<T>,
    client: T::Prin,
    hash: T::HashID,
    processor: ProcessorIdx,
    xact: PendingXact<T, Seq<u8>>,
    now: Instant,
)
    requires
        s.wf(),
        !s.xacts.contains_key(hash),
        s.missing.contains_key(hash),
        s.seals[s.missing[hash].0].hashes.len() <= usize::MAX,
    ensures
        ({
            let t = s.add_xact(client, hash, Ok(processor), xact, now);
            let x = t.xacts[hash];
            let round = s.missing[hash];
            let old_round = s.seals[round.0];
            let new_round = t.seals[round.0];
            let i = x.state->stage->lin_point.idx as int;
            &&& t.xacts.contains_key(hash)
            &&& x.state is Pending
            &&& x.state->processor == processor
            &&& x.state->xact == xact
            &&& x.state->stage is Process
            &&& !x.state->stage->Process_dispatched
            &&& x.state->stage->lin_point.round == round
            &&& 0 <= i < old_round.hashes.len()
            &&& old_round.hashes[i] == hash
            &&& forall|j: int| 0 <= j < i ==> old_round.hashes[j] != hash
            &&& forall|c: T::Prin| #[trigger] x.reporting.contains_key(c) <==> c == client
            &&& x.reporting[client].kind == PeerReportKind::Result
            &&& x.reporting[client].when == Some(now)
            &&& x.reporting[client].nretries == 0
            &&& x.message(client) == (XactNotifyState::<Seq<u8>>::Commit {
                when: x.state->stage->lin_point,
            })
            &&& forall|k: T::HashID|
                k != hash ==> (#[trigger] t.xacts.contains_key(k) <==> s.xacts.contains_key(k))
            &&& forall|k: T::HashID|
                k != hash && #[trigger] t.xacts.contains_key(k) ==> t.xacts[k] == s.xacts[k]
            &&& forall|k: T::HashID| #[trigger]
                t.missing.contains_key(k) <==> k != hash && s.missing.contains_key(k)
            &&& forall|k: T::HashID| #[trigger]
                t.missing.contains_key(k) ==> t.missing[k] == s.missing[k]
            &&& forall|r: u128| #[trigger] t.seals.contains_key(r) <==> s.seals.contains_key(r)
            &&& forall|r: u128|
                r != round.0 && #[trigger] t.seals.contains_key(r) ==> t.seals[r] == s.seals[r]
            &&& new_round.hashes == old_round.hashes
            &&& new_round.seals == old_round.seals
            &&& new_round.completed == old_round.completed
            &&& new_round.known.len() == old_round.known.len()
            &&& new_round.known[i]
            &&& forall|j: int|
                0 <= j < old_round.known.len() && j != i ==> new_round.known[j]
                    == old_round.known[j]
            &&& new_round.retries[processor.0].when == Some(now)
            &&& old_round.retries.contains_key(processor.0)
                ==> new_round.retries[processor.0].nretries
                == old_round.retries[processor.0].nretries
            &&& !old_round.retries.contains_key(processor.0)
                ==> new_round.retries[processor.0].nretries == 0
            &&& forall|p: usize| #[trigger]
                new_round.retries.contains_key(p) <==> p == processor.0
                    || old_round.retries.contains_key(p)
            &&& forall|p: usize|
                p != processor.0 && #[trigger] new_round.retries.contains_key(p)
                    ==> new_round.retries[p] == old_round.retries[p]
        }),
{
    let round = s.missing[hash];
    crate::laws::lemma_first_index_exists(s.seals[round.0].hashes, hash);
}

/// A result is accepted exactly of a pending transaction that was handed to a
/// processor, at the point that the round or the client has fixed, if any.  It then
/// completes the transaction.  Any other result for a transaction that is not complete
/// makes it fail with an internal error.  A complete transaction, and an unknown one,
/// are left alone.
pub proof fn law_results_complete<T: SealTypes>(
    s: PeerStateView<T>,
    hash: T::HashID,
    lin_point: XactLinPoint,
    res: Seq<u8>,
    now: Instant,
)
    requires
        now.nanos + s.tombstone_duration.nanos <= u128::MAX,
    ensures
        ({
            let t = s.add_result(hash, lin_point, res, now);
            let old = s.xacts[hash].state;
            let new = t.xacts[hash].state;
            let tried = old is Pending && old->stage is PreCommit
                && old->stage->PreCommit_dispatched && (
            old->xact.effects matches XactEffects::HardNone { when: Some(asked) } ==> asked
                == lin_point);
            let committed = old is Pending && old->stage is Process
                && old->stage->Process_dispatched && old->stage->lin_point == lin_point;
            &&& !s.xacts.contains_key(hash) || old is Complete ==> t == s
            &&& s.xacts.contains_key(hash) && !(old is Complete) ==> {
                &&& t.xacts.contains_key(hash)
                &&& told_afresh(s.xacts[hash].reporting, t.xacts[hash].reporting, now)
                &&& only_xact_differs(s, t, hash)
                &&& new is Complete <==> tried || committed
                &&& new is Complete ==> {
                    &&& new->res == res
                    &&& new->Complete_lin_point == lin_point
                    &&& new->Complete_expire.nanos == now.nanos + s.tombstone_duration.nanos
                }
                &&& !(new is Complete) ==> {
                    &&& new is Error
                    &&& new->error == XactError::<Seq<u8>>::Internal
                    &&& new->Error_expire.nanos == now.nanos + s.tombstone_duration.nanos
                }
            }
        }),
{
}

/// An error is accepted exactly of a pending transaction that was handed to a
/// processor, which then fails with it.  An error for any other transaction that has
/// not failed makes it fail with an internal error.  A failed transaction, and an
/// unknown one, are left alone.
pub proof fn law_errors_fail<T: SealTypes>(
    s: PeerStateView<T>,
    hash: T::HashID,
    error: XactError<Seq<u8>>,
    now: Instant,
)
    requires
        now.nanos + s.tombstone_duration.nanos <= u128::MAX,
    ensures
        ({
            let t = s.add_error(hash, error, now);
            let old = s.xacts[hash].state;
            let new = t.xacts[hash].state;
            let asked = old is Pending && (old->stage is PreCommit
                && old->stage->PreCommit_dispatched || old->stage is Process
                && old->stage->Process_dispatched);
            &&& !s.xacts.contains_key(hash) || old is Error ==> t == s
            &&& s.xacts.contains_key(hash) && !(old is Error) ==> {
                &&& t.xacts.contains_key(hash)
                &&& told_afresh(s.xacts[hash].reporting, t.xacts[hash].reporting, now)
                &&& only_xact_differs(s, t, hash)
                &&& new is Error
                &&& asked ==> new->error == error
                &&& !asked ==> new->error == XactError::<Seq<u8>>::Internal
                &&& new->Error_expire.nanos == now.nanos + s.tombstone_duration.nanos
            }
        }),
{
}

/// A new round commits every pending transaction in it, at the last place that the
/// round has for it, and records those that are not here as missing.  It knows those
/// that are here, has none marked as complete, and is to be sent at once to the
/// processors of those that are pending.  Everything else is as it was.
pub proof fn law_rounds_commit<T: SealTypes>(
    s: PeerStateView<T>,
    round: ConsensusRoundID,
    hashes: Seq<T::HashID>,
    seals: Seq<T::Seal>,
    now: Instant,
    h: T::HashID,
)
    requires
        !s.seals.contains_key(round.0),
        hashes.len() <= usize::MAX,
    ensures
        ({
            let t = s.add_seal(round, hashes, seals, now);
            let old = s.xacts[h];
            let new = t.xacts[h];
            let r = t.seals[round.0];
            let i = new.state->stage->lin_point.idx as int;
            &&& t.xacts.contains_key(h) <==> s.xacts.contains_key(h)
            &&& s.xacts.contains_key(h) && (!hashes.contains(h) || !(old.state is Pending)) ==> new
                == old
            &&& s.xacts.contains_key(h) && hashes.contains(h) && old.state is Pending ==> {
                &&& new.state is Pending
                &&& new.state->processor == old.state->processor
                &&& new.state->xact == old.state->xact
                &&& new.state->stage is Process
                &&& !new.state->stage->Process_dispatched
                &&& new.state->stage->lin_point.round == round
                &&& 0 <= i < hashes.len()
                &&& hashes[i] == h
                &&& forall|j: int| i < j < hashes.len() ==> hashes[j] != h
                &&& told_afresh(old.reporting, new.reporting, now)
            }
            &&& t.missing.contains_key(h) <==> s.missing.contains_key(h) || (hashes.contains(h)
                && !s.xacts.contains_key(h))
            &&& hashes.contains(h) && !s.xacts.contains_key(h) ==> t.missing[h] == round
            &&& t.missing.contains_key(h) && (!hashes.contains(h) || s.xacts.contains_key(h))
                ==> t.missing[h] == s.missing[h]
            &&& t.seals.contains_key(round.0)
            &&& forall|q: u128|
                q != round.0 ==> (#[trigger] t.seals.contains_key(q) <==> s.seals.contains_key(q))
            &&& forall|q: u128|
                q != round.0 && #[trigger] t.seals.contains_key(q) ==> t.seals[q] == s.seals[q]
            &&& r.hashes == hashes
            &&& r.seals == seals
            &&& r.completed.len() == hashes.len()
            &&& r.known.len() == hashes.len()
            &&& forall|j: int| 0 <= j < hashes.len() ==> !#[trigger] r.completed[j]
            &&& forall|j: int|
                0 <= j < hashes.len() ==> (#[trigger] r.known[j] <==> s.xacts.contains_key(
                    hashes[j],
                ))
            &&& forall|j: int|
                0 <= j < hashes.len() && s.xacts.contains_key(#[trigger] hashes[j])
                    && s.xacts[hashes[j]].state is Pending ==> r.retries.contains_key(
                    s.xacts[hashes[j]].state->processor.0,
                )
            &&& forall|p: usize| #[trigger]
                r.retries.contains_key(p) ==> {
                    &&& r.retries[p].nretries == 0
                    &&& r.retries[p].when == Some(now)
                    &&& exists|j: int|
                        0 <= j < hashes.len() && s.xacts.contains_key(#[trigger] hashes[j])
                            && s.xacts[hashes[j]].state is Pending
                            && s.xacts[hashes[j]].state->processor.0 == p
                }
            &&& t.processors == s.processors
            &&& t.tombstone_duration == s.tombstone_duration
            &&& t.retry == s.retry
            &&& t.resubmit == s.resubmit
        }),
{
    let t = s.add_seal(round, hashes, seals, now);
    let r = t.seals[round.0];
    if hashes.contains(h) {
        crate::laws::lemma_last_index_exists(hashes, h);
    }
    assert forall|j: int|
        0 <= j < hashes.len() && s.xacts.contains_key(#[trigger] hashes[j])
            && s.xacts[hashes[j]].state is Pending implies r.retries.contains_key(
        s.xacts[hashes[j]].state->processor.0,
    ) by {
        assert(s.round_uses(hashes, j, s.xacts[hashes[j]].state->processor.0));
    }
    assert forall|p: usize| #[trigger] r.retries.contains_key(p) implies exists|j: int|
        0 <= j < hashes.len() && s.xacts.contains_key(#[trigger] hashes[j])
            && s.xacts[hashes[j]].state is Pending && s.xacts[hashes[j]].state->processor.0 == p by {
        let j = choose|j: int| s.round_uses(hashes, j, p);
        assert(s.xacts.contains_key(hashes[j]));
    }
}

/// Whether the transaction is pending and waits to be submitted to consensus by
/// `now`.
pub open spec fn awaits_consensus<T: SealTypes>(x: PeerXactView<T>, now: Instant) -> bool {
    &&& x.state is Pending
    &&& x.state->stage is Commit
    &&& x.state->stage->Commit_when matches Some(t) && t.nanos <= now.nanos
}

/// When messages to consensus are collected, every transaction that waits for it by
/// then is submitted, once, and no other; where there is none, there is no message.
/// Its next time lies ahead by what the policy says for its count of retries, which
/// goes up by one, and its clients are told afresh; everything else is as it was.
/// The time that is handed back is the earliest that was set for any of them.
pub proof fn law_consensus_gets_what_waits<
    T: SealTypes,
    F: Fn(&T::Retry, usize) -> Duration,
>(
    s: PeerStateView<T>,
    now: Instant,
    retry_delay: F,
    delays: Map<T::HashID, Duration>,
    msg: Option<ConsensusCtlSubmit<T>>,
    next: Option<Instant>,
    h: T::HashID,
)
    requires
        s.stage_delays(s.commit_due(now), retry_delay, delays),
        PeerStateView::submits(s.commit_due(now), msg),
        is_earliest(next, s.commit_times()),
        now.nanos + delays[h].nanos <= u128::MAX,
        s.xacts.contains_key(h),
        s.xacts[h].state is Pending && s.xacts[h].state->stage is Commit
            ==> s.xacts[h].state->stage->Commit_nretries < usize::MAX,
    ensures
        ({
            let t = s.submit_commits(now, delays);
            let old = s.xacts[h];
            let new = t.xacts[h];
            let waits = awaits_consensus(old, now);
            &&& waits <==> msg is Some && msg->0.hashes@.contains(h)
            &&& msg is Some ==> msg->0.hashes@.no_duplicates()
            &&& t.xacts.contains_key(h)
            &&& !waits ==> new == old
            &&& waits ==> {
                &&& new.state is Pending
                &&& new.state->processor == old.state->processor
                &&& new.state->xact == old.state->xact
                &&& new.state->stage is Commit
                &&& new.state->stage->submitted
                &&& new.state->stage->Commit_when matches Some(at) && at.nanos == now.nanos
                    + delays[h].nanos
                &&& new.state->stage->Commit_nretries == old.state->stage->Commit_nretries + 1
                &&& call_ensures(
                    retry_delay,
                    (&s.resubmit, old.state->stage->Commit_nretries),
                    delays[h],
                )
                &&& told_afresh(old.reporting, new.reporting, now)
            }
            &&& old.state is Pending && old.state->stage is Commit
                && old.state->stage->Commit_when is Some ==> next is Some && next->0.nanos
                <= old.state->stage->Commit_when->0.nanos
            &&& t.seals == s.seals
            &&& t.missing == s.missing
        }),
{
    assert(s.commit_due(now).contains(h) <==> awaits_consensus(s.xacts[h], now));
    let old = s.xacts[h];
    if old.state is Pending && old.state->stage is Commit && old.state->stage->Commit_when is Some {
        let at = old.state->stage->Commit_when->0;
        assert(s.xacts[h].state.commit_time() == Some(at));
        assert(s.commit_times().contains(at));
    }
}

/// No transaction appears or disappears when messages to consensus are collected, and
/// nothing is submitted, and no time handed back, but for a pending transaction in the
/// commit stage.
pub proof fn law_consensus_gets_nothing_else<T: SealTypes>(
    s: PeerStateView<T>,
    now: Instant,
    delays: Map<T::HashID, Duration>,
    msg: Option<ConsensusCtlSubmit<T>>,
    next: Option<Instant>,
)
    requires
        PeerStateView::submits(s.commit_due(now), msg),
        is_earliest(next, s.commit_times()),
    ensures
        forall|h: T::HashID| #[trigger]
            s.submit_commits(now, delays).xacts.contains_key(h) <==> s.xacts.contains_key(h),
        msg is Some ==> msg->0.hashes@.len() > 0 && forall|k: int|
            0 <= k < msg->0.hashes@.len() ==> s.xacts.contains_key(#[trigger] msg->0.hashes@[k]),
        next is Some ==> exists|h: T::HashID|
            {
                &&& #[trigger] s.xacts.contains_key(h)
                &&& s.xacts[h].state is Pending
                &&& s.xacts[h].state->stage is Commit
                &&& s.xacts[h].state->stage->Commit_when == next
            },
{
    if msg is Some {
        let hashes = msg->0.hashes@;
        assert forall|k: int| 0 <= k < hashes.len() implies s.xacts.contains_key(
            #[trigger] hashes[k],
        ) by {
            assert(hashes.contains(hashes[k]));
            assert(s.commit_due(now).contains(hashes[k]));
        }
    }
    if next is Some {
        assert(s.commit_times().contains(next->0));
        let h = choose|h: T::HashID| #[trigger]
            s.xacts.contains_key(h) && s.xacts[h].state.commit_time() == next;
        assert(s.xacts.contains_key(h));
    }
}

/// Whether the transaction is pending, is for the processor `target` and is to be
/// tried by it without a round by `now`.
pub open spec fn awaits_trial<T: SealTypes>(
    x: PeerXactView<T>,
    target: ProcessorIdx,
    now: Instant,
) -> bool {
    &&& x.state is Pending
    &&& x.state->processor == target
    &&& x.state->stage is PreCommit
    &&& x.state->stage->PreCommit_when matches Some(t) && t.nanos <= now.nanos
}

/// When messages to a processor are collected, it is asked, once, for every
/// transaction that it is to try without a round by then, and for no other.
pub proof fn law_trials_are_asked_for<T: SealTypes>(
    s: PeerStateView<T>,
    target: ProcessorIdx,
    now: Instant,
    reqs: Seq<XactSealed<T>>,
)
    requires
        s.asks_uncommitted(s.precommit_due(target, now), reqs),
    ensures
        forall|h: T::HashID| #[trigger]
            s.xacts.contains_key(h) && awaits_trial(s.xacts[h], target, now) ==> exists|k: int|
                0 <= k < reqs.len() && (#[trigger] reqs[k]).req.hash == h,
        forall|k: int|
            0 <= k < reqs.len() ==> s.xacts.contains_key((#[trigger] reqs[k]).req.hash)
                && awaits_trial(s.xacts[reqs[k].req.hash], target, now),
        forall|j: int, k: int|
            0 <= j < k < reqs.len() ==> (#[trigger] reqs[j]).req.hash != (
            #[trigger] reqs[k]).req.hash,
{
    let due = s.precommit_due(target, now);
    let hashes = reqs.map_values(|r: XactSealed<T>| r.req.hash);
    assert forall|h: T::HashID| #[trigger]
        s.xacts.contains_key(h) && awaits_trial(s.xacts[h], target, now) implies exists|k: int|
        0 <= k < reqs.len() && (#[trigger] reqs[k]).req.hash == h by {
        assert(due.contains(h));
        assert(hashes.contains(h));
        let k = choose|k: int| 0 <= k < hashes.len() && hashes[k] == h;
        assert(reqs[k].req.hash == h);
    }
    assert forall|k: int| 0 <= k < reqs.len() implies s.xacts.contains_key(
        (#[trigger] reqs[k]).req.hash,
    ) && awaits_trial(s.xacts[reqs[k].req.hash], target, now) by {
        assert(hashes[k] == reqs[k].req.hash);
        assert(hashes.contains(reqs[k].req.hash));
        assert(due.contains(reqs[k].req.hash));
    }
    assert forall|j: int, k: int| 0 <= j < k < reqs.len() implies (#[trigger] reqs[j]).req.hash != (
    #[trigger] reqs[k]).req.hash by {
        assert(hashes[j] != hashes[k]);
    }
}

/// A request to try a transaction without a round carries what its client has
/// submitted: the seal, the class, the version, the instance, the payload and what it
/// declares about its effects.
pub proof fn law_trials_carry_the_submission<T: SealTypes>(
    s: PeerStateView<T>,
    target: ProcessorIdx,
    now: Instant,
    reqs: Seq<XactSealed<T>>,
    k: int,
)
    requires
        s.asks_uncommitted(s.precommit_due(target, now), reqs),
        0 <= k < reqs.len(),
    ensures
        ({
            let xact = s.xacts[reqs[k].req.hash].state->xact;
            let req = reqs[k].req;
            &&& cloned(xact.seal, reqs[k].seal)
            &&& req.class == xact.class
            &&& cloned(xact.version, req.version)
            &&& req.instance == xact.instance
            &&& req.payload@ == xact.payload
            &&& match xact.effects {
                XactEffects::Effects { effects, hard } => {
                    &&& req.effects is Effects
                    &&& req.effects->effects@ == effects
                    &&& req.effects->hard == hard
                },
                XactEffects::HardNone { when } => {
                    &&& req.effects is HardNone
                    &&& req.effects->when == when
                },
                XactEffects::SoftNone => req.effects is SoftNone,
            }
        }),
{
    let sealed = reqs[k];
    assert(s.xacts[sealed.req.hash].asked_uncommitted(sealed.req.hash, sealed));
}

/// A transaction that a processor has been asked to try is dispatched from then on.
/// Its next time lies ahead by what the policy says for its count of retries, which
/// goes up by one, and its clients are told afresh; everything else is as it was.
pub proof fn law_trials_are_dispatched<T: SealTypes, F: Fn(&T::Retry, usize) -> Duration>(
    s: PeerStateView<T>,
    target: ProcessorIdx,
    now: Instant,
    retry_delay: F,
    delays: Map<T::HashID, Duration>,
    h: T::HashID,
)
    requires
        s.stage_delays(s.precommit_due(target, now), retry_delay, delays),
        now.nanos + delays[h].nanos <= u128::MAX,
        s.xacts[h].state is Pending && s.xacts[h].state->stage is PreCommit
            ==> s.xacts[h].state->stage->PreCommit_nretries < usize::MAX,
    ensures
        ({
            let t = s.submit_precommits(target, now, delays);
            let old = s.xacts[h];
            let new = t.xacts[h];
            let waits = s.xacts.contains_key(h) && awaits_trial(old, target, now);
            &&& t.xacts.contains_key(h) <==> s.xacts.contains_key(h)
            &&& s.xacts.contains_key(h) && !waits ==> new == old
            &&& waits ==> {
                &&& new.state is Pending
                &&& new.state->processor == old.state->processor
                &&& new.state->xact == old.state->xact
                &&& new.state->stage is PreCommit
                &&& new.state->stage->PreCommit_dispatched
                &&& new.state->stage->PreCommit_when matches Some(at) && at.nanos == now.nanos
                    + delays[h].nanos
                &&& new.state->stage->PreCommit_nretries == old.state->stage->PreCommit_nretries + 1
                &&& call_ensures(
                    retry_delay,
                    (&s.resubmit, old.state->stage->PreCommit_nretries),
                    delays[h],
                )
                &&& told_afresh(old.reporting, new.reporting, now)
            }
            &&& t.seals == s.seals
            &&& t.missing == s.missing
        }),
{
    assert(s.precommit_due(target, now).contains(h) <==> s.xacts.contains_key(h) && awaits_trial(
        s.xacts[h],
        target,
        now,
    ));
}

/// Whether the round `r` is here and is to be sent to the processor `target` before
/// `now`.
pub open spec fn awaits_sending<T: SealTypes>(
    s: PeerStateView<T>,
    r: u128,
    target: ProcessorIdx,
    now: Instant,
) -> bool {
    &&& s.seals.contains_key(r)
    &&& s.seals[r].retries.contains_key(target.0)
    &&& s.seals[r].retries[target.0].when matches Some(t) && t.nanos < now.nanos
}

/// Whether the round `r` has, at index `i`, a known transaction that is not marked as
/// complete, and that is here.
pub open spec fn holds_open<T: SealTypes>(s: PeerStateView<T>, r: u128, i: int) -> bool {
    &&& 0 <= i < s.seals[r].hashes.len()
    &&& !s.seals[r].completed[i]
    &&& s.seals[r].known[i]
    &&& s.xacts.contains_key(s.seals[r].hashes[i])
}

/// Whether the round `r` has, at index `i`, a transaction that is committed and is for
/// the processor `target`.
pub open spec fn holds_for<T: SealTypes>(
    s: PeerStateView<T>,
    r: u128,
    i: int,
    target: ProcessorIdx,
) -> bool {
    let state = s.xacts[s.seals[r].hashes[i]].state;
    &&& holds_open(s, r, i)
    &&& state is Pending
    &&& state->stage is Process
    &&& state->processor == target
}

/// When messages to a processor are collected, it gets a part of every round that is
/// to be sent to it before then and that has anything for it: once, without the seals
/// of the round, and of no other round.
pub proof fn law_rounds_are_sent<T: SealTypes>(
    s: PeerStateView<T>,
    target: ProcessorIdx,
    now: Instant,
    rounds: Seq<XactCommittedRound<T>>,
)
    requires
        s.asks_committed(target, now, rounds),
    ensures
        forall|r: u128, i: int|
            awaits_sending(s, r, target, now) && #[trigger] holds_for(s, r, i, target) ==> exists|
                k: int,
            |
                0 <= k < rounds.len() && (#[trigger] rounds[k]).round.0 == r,
        forall|k: int|
            0 <= k < rounds.len() ==> {
                &&& awaits_sending(s, (#[trigger] rounds[k]).round.0, target, now)
                &&& rounds[k].seal is None
                &&& rounds[k].reqs@.len() > 0
            },
        forall|j: int, k: int|
            0 <= j < k < rounds.len() ==> (#[trigger] rounds[j]).round != (
            #[trigger] rounds[k]).round,
{
    let sent = s.rounds_sent(target, now);
    let ids = rounds.map_values(|r: XactCommittedRound<T>| r.round.0);
    assert forall|r: u128, i: int|
        awaits_sending(s, r, target, now) && #[trigger] holds_for(s, r, i, target) implies exists|
        k: int,
    |
        0 <= k < rounds.len() && (#[trigger] rounds[k]).round.0 == r by {
        assert(s.seals[r].dispatches(s.xacts, target, i));
        assert(sent.contains(r));
        assert(ids.contains(r));
        let k = choose|k: int| 0 <= k < ids.len() && ids[k] == r;
        assert(rounds[k].round.0 == r);
    }
    assert forall|k: int| 0 <= k < rounds.len() implies {
        &&& awaits_sending(s, (#[trigger] rounds[k]).round.0, target, now)
        &&& rounds[k].seal is None
        &&& rounds[k].reqs@.len() > 0
    } by {
        let r = rounds[k].round.0;
        assert(ids[k] == r);
        assert(ids.contains(r));
        assert(sent.contains(r));
        assert(s.seals[r].requests(s.xacts, target, rounds[k].reqs@));
        let i = choose|i: int| s.seals[r].dispatches(s.xacts, target, i);
        assert(s.seals[r].dispatches(s.xacts, target, i));
    }
    assert forall|j: int, k: int| 0 <= j < k < rounds.len() implies (#[trigger] rounds[j]).round
        != (#[trigger] rounds[k]).round by {
        assert(ids[j] != ids[k]);
    }
}

/// The part of a round that a processor gets asks for exactly the committed
/// transactions in it that are for the processor and not over, by their index and in
/// that order.
pub proof fn law_rounds_ask_for_all<T: SealTypes>(
    s: PeerStateView<T>,
    target: ProcessorIdx,
    now: Instant,
    rounds: Seq<XactCommittedRound<T>>,
    k: int,
)
    requires
        s.asks_committed(target, now, rounds),
        0 <= k < rounds.len(),
    ensures
        ({
            let r = rounds[k].round.0;
            let reqs = rounds[k].reqs@;
            &&& forall|m: int|
                0 <= m < reqs.len() ==> holds_for(s, r, (#[trigger] reqs[m]).idx as int, target)
            &&& forall|i: int| #[trigger]
                holds_for(s, r, i, target) ==> exists|m: int|
                    0 <= m < reqs.len() && (#[trigger] reqs[m]).idx == i
            &&& forall|m: int, n: int|
                0 <= m < n < reqs.len() ==> (#[trigger] reqs[m]).idx < (#[trigger] reqs[n]).idx
        }),
{
    let r = rounds[k].round.0;
    let reqs = rounds[k].reqs@;
    let seal = s.seals[r];
    assert(seal.requests(s.xacts, target, reqs));
    assert forall|m: int| 0 <= m < reqs.len() implies holds_for(
        s,
        r,
        (#[trigger] reqs[m]).idx as int,
        target,
    ) by {
        assert(seal.dispatches(s.xacts, target, reqs[m].idx as int));
    }
    assert forall|i: int| #[trigger] holds_for(s, r, i, target) implies exists|m: int|
        0 <= m < reqs.len() && (#[trigger] reqs[m]).idx == i by {
        assert(seal.dispatches(s.xacts, target, i));
    }
}

/// A request for a committed transaction carries what its client has submitted: the
/// class, the version, the instance and the payload.  It carries effects exactly if
/// the client has declared any, and then just those bytes and that flag, whether it is
/// set or not.
pub proof fn law_rounds_carry_the_submission<T: SealTypes>(
    s: PeerStateView<T>,
    target: ProcessorIdx,
    now: Instant,
    rounds: Seq<XactCommittedRound<T>>,
    k: int,
    m: int,
)
    requires
        s.asks_committed(target, now, rounds),
        0 <= k < rounds.len(),
        0 <= m < rounds[k].reqs@.len(),
    ensures
        ({
            let req = rounds[k].reqs@[m];
            let xact = s.xacts[s.seals[rounds[k].round.0].hashes[req.idx as int]].state->xact;
            &&& req.class == xact.class
            &&& cloned(xact.version, req.version)
            &&& req.instance == xact.instance
            &&& req.payload@ == xact.payload
            &&& req.effects is Some <==> xact.effects is Effects
            &&& req.effects is Some ==> {
                &&& req.effects->0.effects@ == xact.effects->effects
                &&& req.effects->0.hard == xact.effects->hard
            }
        }),
{
    let seal = s.seals[rounds[k].round.0];
    assert(seal.requests(s.xacts, target, rounds[k].reqs@));
    let req = rounds[k].reqs@[m];
    assert(s.xacts[seal.hashes[req.idx as int]].asked_by(req.idx as int, req));
}

/// After rounds have been sent to a processor, exactly the transactions that they
/// asked for are dispatched; nothing else about transactions changes.
pub proof fn law_sent_rounds_dispatch<T: SealTypes>(
    s: PeerStateView<T>,
    target: ProcessorIdx,
    now: Instant,
    delays: Map<u128, Duration>,
    h: T::HashID,
)
    requires
        s.xacts.contains_key(h),
    ensures
        ({
            let t = s.send_rounds(target, now, delays);
            let old = s.xacts[h];
            let new = t.xacts[h];
            let asked = exists|r: u128, i: int|
                awaits_sending(s, r, target, now) && #[trigger] holds_for(s, r, i, target)
                    && s.seals[r].hashes[i] == h;
            &&& t.xacts.contains_key(h)
            &&& !asked ==> new == old
            &&& asked ==> {
                &&& new.reporting == old.reporting
                &&& new.state is Pending
                &&& new.state->processor == old.state->processor
                &&& new.state->xact == old.state->xact
                &&& new.state->stage is Process
                &&& new.state->stage->Process_dispatched
                &&& new.state->stage->lin_point == old.state->stage->lin_point
            }
            &&& t.missing == s.missing
        }),
{
    let asked = exists|r: u128, i: int|
        awaits_sending(s, r, target, now) && #[trigger] holds_for(s, r, i, target)
            && s.seals[r].hashes[i] == h;
    if asked {
        let (r, i) = choose|r: u128, i: int|
            awaits_sending(s, r, target, now) && #[trigger] holds_for(s, r, i, target)
                && s.seals[r].hashes[i] == h;
        assert(s.seals[r].dispatches(s.xacts, target, i));
        assert(s.seals[r].dispatches_hash(s.xacts, target, h));
        assert(s.round_due(r, target, now));
        assert(s.round_dispatches(target, now, h));
    }
    if s.round_dispatches(target, now, h) {
        let r = choose|r: u128| #[trigger]
            s.round_due(r, target, now) && s.seals[r].dispatches_hash(s.xacts, target, h);
        let i = choose|i: int| #[trigger]
            s.seals[r].dispatches(s.xacts, target, i) && s.seals[r].hashes[i] == h;
        assert(awaits_sending(s, r, target, now) && holds_for(s, r, i, target));
    }
}

/// After rounds have been sent to a processor, a round that was to be sent has marked
/// exactly those open transactions as complete that are over.  If it had anything for
/// the processor, it is sent again after what the policy says for its count of
/// retries, which goes up by one; else it is not to be sent again.  A round goes away
/// exactly if the processor has part in it and all of it is complete; everything else
/// is as it was.
pub proof fn law_sent_rounds_wait<T: SealTypes, F: Fn(&T::Retry, usize) -> Duration>(
    s: PeerStateView<T>,
    target: ProcessorIdx,
    now: Instant,
    retry_delay: F,
    delays: Map<u128, Duration>,
    r: u128,
)
    requires
        s.wf(),
        s.round_delays(target, now, retry_delay, delays),
        now.nanos + delays[r].nanos <= u128::MAX,
        s.seals.contains_key(r),
        s.seals[r].retries.contains_key(target.0) ==> s.seals[r].retries[target.0].nretries
            < usize::MAX,
    ensures
        ({
            let t = s.send_rounds(target, now, delays);
            let old = s.seals[r];
            let new = t.seals[r];
            let due = awaits_sending(s, r, target, now);
            let over = |i: int|
                old.completed[i] || (due && holds_open(s, r, i) && !(
                s.xacts[old.hashes[i]].state is Pending));
            let all_over = forall|i: int| 0 <= i < old.hashes.len() ==> #[trigger] over(i);
            &&& t.seals.contains_key(r) <==> !(old.retries.contains_key(target.0) && all_over)
            &&& t.seals.contains_key(r) ==> {
                &&& new.hashes == old.hashes
                &&& new.seals == old.seals
                &&& new.known == old.known
                &&& new.completed.len() == old.completed.len()
                &&& forall|i: int| 0 <= i < old.hashes.len() ==> new.completed[i] == over(i)
                &&& forall|p: usize| #[trigger]
                    new.retries.contains_key(p) <==> old.retries.contains_key(p)
                &&& forall|p: usize|
                    p != target.0 && #[trigger] new.retries.contains_key(p) ==> new.retries[p]
                        == old.retries[p]
                &&& !due && old.retries.contains_key(target.0) ==> new.retries[target.0]
                    == old.retries[target.0]
                &&& due && (exists|i: int| holds_for(s, r, i, target)) ==> {
                    &&& new.retries[target.0].nretries == old.retries[target.0].nretries + 1
                    &&& new.retries[target.0].when matches Some(at) && at.nanos == now.nanos
                        + delays[r].nanos
                    &&& call_ensures(
                        retry_delay,
                        (&s.resubmit, old.retries[target.0].nretries),
                        delays[r],
                    )
                }
                &&& due && !(exists|i: int| holds_for(s, r, i, target)) ==> {
                    &&& new.retries[target.0].nretries == old.retries[target.0].nretries
                    &&& new.retries[target.0].when is None
                }
            }
        }),
{
    let t = s.send_rounds(target, now, delays);
    let old = s.seals[r];
    let due = awaits_sending(s, r, target, now);
    let after = s.round_after(r, target, now, delays);
    let over = |i: int|
        old.completed[i] || (due && holds_open(s, r, i) && !(
        s.xacts[old.hashes[i]].state is Pending));
    assert(s.round_due(r, target, now) == due);
    assert forall|i: int| 0 <= i < old.hashes.len() implies after.completed[i] == #[trigger] over(
        i,
    ) by {}
    if forall|i: int| 0 <= i < old.hashes.len() ==> #[trigger] over(i) {
        assert(after.all_completed()) by {
            assert forall|i: int| 0 <= i < after.completed.len() implies after.completed[i] by {
                assert(over(i));
            }
        }
    } else {
        let i = choose|i: int| 0 <= i < old.hashes.len() && !#[trigger] over(i);
        assert(!after.completed[i]);
    }
    if exists|i: int| holds_for(s, r, i, target) {
        let i = choose|i: int| holds_for(s, r, i, target);
        assert(old.dispatches(s.xacts, target, i));
        if due {
            assert(s.rounds_sent(target, now).contains(r));
        }
    }
    if old.dispatches_any(s.xacts, target) {
        let i = choose|i: int| old.dispatches(s.xacts, target, i);
        assert(holds_for(s, r, i, target));
    }
}

/// No round appears when rounds are sent.
pub proof fn law_sending_adds_no_round<T: SealTypes>(
    s: PeerStateView<T>,
    target: ProcessorIdx,
    now: Instant,
    delays: Map<u128, Duration>,
    r: u128,
    h: T::HashID,
)
    requires
        !s.seals.contains_key(r),
        !s.xacts.contains_key(h),
    ensures
        !s.send_rounds(target, now, delays).seals.contains_key(r),
        !s.send_rounds(target, now, delays).xacts.contains_key(h),
{
}

/// The time that is handed back with the messages to a processor is the earliest that
/// was set for any transaction that it is to try, or for any round to be sent to it;
/// there is none where none was set.
pub proof fn law_processors_are_served_in_time<T: SealTypes>(
    s: PeerStateView<T>,
    target: ProcessorIdx,
    next: Option<Instant>,
)
    requires
        is_earliest(next, s.precommit_times(target).union(s.send_times(target))),
    ensures
        forall|h: T::HashID| #[trigger]
            s.xacts.contains_key(h) && s.xacts[h].state is Pending && s.xacts[h].state->processor
                == target && s.xacts[h].state->stage is PreCommit
                && s.xacts[h].state->stage->PreCommit_when is Some ==> next is Some && next->0.nanos
                <= s.xacts[h].state->stage->PreCommit_when->0.nanos,
        forall|r: u128| #[trigger]
            s.seals.contains_key(r) && s.seals[r].retries.contains_key(target.0)
                && s.seals[r].retries[target.0].when is Some ==> next is Some && next->0.nanos
                <= s.seals[r].retries[target.0].when->0.nanos,
        next is Some ==> (exists|h: T::HashID|
            {
                &&& #[trigger] s.xacts.contains_key(h)
                &&& s.xacts[h].state is Pending
                &&& s.xacts[h].state->processor == target
                &&& s.xacts[h].state->stage is PreCommit
                &&& s.xacts[h].state->stage->PreCommit_when == next
            }) || (exists|r: u128|
            {
                &&& #[trigger] s.seals.contains_key(r)
                &&& s.seals[r].retries.contains_key(target.0)
                &&& s.seals[r].retries[target.0].when == next
            }),
{
    let times = s.precommit_times(target).union(s.send_times(target));
    assert forall|h: T::HashID| #[trigger]
        s.xacts.contains_key(h) && s.xacts[h].state is Pending && s.xacts[h].state->processor
            == target && s.xacts[h].state->stage is PreCommit
            && s.xacts[h].state->stage->PreCommit_when is Some implies next is Some
        && next->0.nanos <= s.xacts[h].state->stage->PreCommit_when->0.nanos by {
        let at = s.xacts[h].state->stage->PreCommit_when->0;
        assert(s.xacts[h].state.precommit_time(target) == Some(at));
        assert(times.contains(at));
    }
    assert forall|r: u128| #[trigger]
        s.seals.contains_key(r) && s.seals[r].retries.contains_key(target.0)
            && s.seals[r].retries[target.0].when is Some implies next is Some && next->0.nanos
        <= s.seals[r].retries[target.0].when->0.nanos by {
        let at = s.seals[r].retries[target.0].when->0;
        assert(s.seals[r].send_time(target) == Some(at));
        assert(times.contains(at));
    }
    if next is Some {
        assert(times.contains(next->0));
        if s.precommit_times(target).contains(next->0) {
            let h = choose|h: T::HashID| #[trigger]
                s.xacts.contains_key(h) && s.xacts[h].state.precommit_time(target) == next;
            assert(s.xacts.contains_key(h));
        } else {
            let r = choose|r: u128| #[trigger]
                s.seals.contains_key(r) && s.seals[r].send_time(target) == next;
            assert(s.seals.contains_key(r));
        }
    }
}

/// Whether the transaction has a time at which it is to be told to the client.
pub open spec fn has_time<T: SealTypes>(x: PeerXactView<T>, client: T::Prin) -> bool {
    x.reporting.contains_key(client) && x.reporting[client].when is Some
}

/// Whether the transaction is to be told to the client by `now`.
pub open spec fn to_be_told<T: SealTypes>(
    x: PeerXactView<T>,
    client: T::Prin,
    now: Instant,
) -> bool {
    has_time(x, client) && x.reporting[client].when->0.nanos <= now.nanos
}

/// Whether the transaction is over and its time has come.
pub open spec fn outlived<T: SealTypes>(x: PeerXactView<T>, now: Instant) -> bool {
    ||| x.state is Complete && x.state->Complete_expire.nanos <= now.nanos
    ||| x.state is Error && x.state->Error_expire.nanos <= now.nanos
}

/// When messages to a client are collected, it is told of exactly those of its
/// subscriptions that are to be told by then, each once.
pub proof fn law_clients_are_told<T: SealTypes>(
    s: PeerStateView<T>,
    hashes: Set<T::HashID>,
    client: T::Prin,
    now: Instant,
    notifies: Seq<XactNotify<T::HashID, Vec<u8>>>,
)
    requires
        s.tells(hashes, client, now, notifies),
    ensures
        forall|h: T::HashID| #[trigger]
            hashes.contains(h) && s.xacts.contains_key(h) && to_be_told(s.xacts[h], client, now)
                ==> exists|k: int| 0 <= k < notifies.len() && (#[trigger] notifies[k]).hash == h,
        forall|k: int|
            0 <= k < notifies.len() ==> {
                &&& hashes.contains((#[trigger] notifies[k]).hash)
                &&& s.xacts.contains_key(notifies[k].hash)
                &&& to_be_told(s.xacts[notifies[k].hash], client, now)
            },
        forall|j: int, k: int|
            0 <= j < k < notifies.len() ==> (#[trigger] notifies[j]).hash != (
            #[trigger] notifies[k]).hash,
{
    let due = s.client_due(hashes, client, now);
    let told = notifies.map_values(|n: XactNotify<T::HashID, Vec<u8>>| n.hash);
    assert forall|h: T::HashID| #[trigger]
        hashes.contains(h) && s.xacts.contains_key(h) && to_be_told(
            s.xacts[h],
            client,
            now,
        ) implies exists|k: int| 0 <= k < notifies.len() && (#[trigger] notifies[k]).hash == h by {
        assert(due.contains(h));
        assert(told.contains(h));
        let k = choose|k: int| 0 <= k < told.len() && told[k] == h;
        assert(notifies[k].hash == h);
    }
    assert forall|k: int| 0 <= k < notifies.len() implies {
        &&& hashes.contains((#[trigger] notifies[k]).hash)
        &&& s.xacts.contains_key(notifies[k].hash)
        &&& to_be_told(s.xacts[notifies[k].hash], client, now)
    } by {
        assert(told[k] == notifies[k].hash);
        assert(told.contains(notifies[k].hash));
        assert(due.contains(notifies[k].hash));
    }
    assert forall|j: int, k: int| 0 <= j < k < notifies.len() implies (#[trigger] notifies[j]).hash
        != (#[trigger] notifies[k]).hash by {
        assert(told[j] != told[k]);
    }
}

/// What a client is told of a transaction is how far the transaction has come, in the
/// detail that the client has asked for.
pub proof fn law_clients_are_told_the_truth<T: SealTypes>(
    s: PeerStateView<T>,
    hashes: Set<T::HashID>,
    client: T::Prin,
    now: Instant,
    notifies: Seq<XactNotify<T::HashID, Vec<u8>>>,
    k: int,
)
    requires
        s.tells(hashes, client, now, notifies),
        0 <= k < notifies.len(),
    ensures
        ({
            let x = s.xacts[notifies[k].hash];
            let m = notifies[k].state;
            let full = x.reporting[client].kind == PeerReportKind::Result;
            &&& m is Error <==> x.state is Error
            &&& m is Success <==> x.state is Complete
            &&& m is Accept ==> x.state is Pending && !(x.state->stage is Process)
            &&& m is Consensus ==> x.state is Pending && x.state->stage is Commit
            &&& m is PrecommitDispatch ==> x.state is Pending && x.state->stage is PreCommit
            &&& m is Commit || m is Dispatch ==> x.state is Pending && x.state->stage is Process
            &&& m matches XactNotifyState::Commit { when } ==> when == x.state->stage->lin_point
            &&& m matches XactNotifyState::Dispatch { when } ==> when == x.state->stage->lin_point
            &&& m matches XactNotifyState::Success { when, result } ==> {
                &&& when == x.state->Complete_lin_point
                &&& full <==> result is Some
                &&& result is Some ==> result->0@ == x.state->res
            }
            &&& m matches XactNotifyState::Error { error } ==> {
                &&& full <==> error is Some
                &&& error is Some ==> match x.state->error {
                    XactError::UnknownClass => error->0 is UnknownClass,
                    XactError::UnknownInstance => error->0 is UnknownInstance,
                    XactError::UnknownVersion => error->0 is UnknownVersion,
                    XactError::Internal => error->0 is Internal,
                    XactError::Error { error: bytes } => error->0 is Error && error->0->error@
                        == bytes,
                }
            }
        }),
{
    law_messages_tell_the_progress(s.xacts[notifies[k].hash], client);
    assert(notifies[k].state@ == s.xacts[notifies[k].hash].message(client));
}

/// After messages to a client have been collected, a subscription of the client that
/// had a time has its next time ahead by what the policy says for its count of
/// retries, which goes up by one.  A transaction goes away exactly if the client was
/// to be told of it and its time has come.  Everything else is as it was.
pub proof fn law_clients_are_put_off<T: SealTypes, F: Fn(&T::Retry, usize) -> Duration>(
    s: PeerStateView<T>,
    hashes: Set<T::HashID>,
    client: T::Prin,
    now: Instant,
    retry_delay: F,
    delays: Map<T::HashID, Duration>,
    h: T::HashID,
)
    requires
        s.client_delays(hashes, client, retry_delay, delays),
        now.nanos + delays[h].nanos <= u128::MAX,
        s.xacts.contains_key(h),
        s.xacts[h].reporting.contains_key(client) ==> s.xacts[h].reporting[client].nretries
            < usize::MAX,
    ensures
        ({
            let t = s.serve_client(hashes, client, now, delays);
            let old = s.xacts[h];
            let new = t.xacts[h];
            &&& t.xacts.contains_key(h) <==> !(hashes.contains(h) && to_be_told(old, client, now)
                && outlived(old, now))
            &&& t.xacts.contains_key(h) ==> {
                &&& new.state == old.state
                &&& !(hashes.contains(h) && has_time(old, client)) ==> new == old
                &&& hashes.contains(h) && has_time(old, client) ==> {
                    &&& new.reporting[client].kind == old.reporting[client].kind
                    &&& new.reporting[client].when matches Some(at) && at.nanos == now.nanos
                        + delays[h].nanos
                    &&& new.reporting[client].nretries == old.reporting[client].nretries + 1
                    &&& call_ensures(
                        retry_delay,
                        (&s.resubmit, old.reporting[client].nretries),
                        delays[h],
                    )
                }
                &&& forall|c: T::Prin| #[trigger]
                    new.reporting.contains_key(c) <==> old.reporting.contains_key(c)
                &&& forall|c: T::Prin|
                    c != client && #[trigger] new.reporting.contains_key(c) ==> new.reporting[c]
                        == old.reporting[c]
            }
            &&& t.seals == s.seals
            &&& t.missing == s.missing
        }),
{
    assert(s.client_awaits(hashes, client).contains(h) <==> hashes.contains(h) && has_time(
        s.xacts[h],
        client,
    ));
}

/// A client keeps exactly those subscriptions whose transactions are here, report to
/// it, and do not go away with this message.
pub proof fn law_clients_keep_live_subscriptions<T: SealTypes>(
    s: PeerStateView<T>,
    hashes: Set<T::HashID>,
    client: T::Prin,
    now: Instant,
    delays: Map<T::HashID, Duration>,
    h: T::HashID,
)
    ensures
        s.client_keeps(hashes, client, now).contains(h) <==> {
            &&& hashes.contains(h)
            &&& s.xacts.contains_key(h)
            &&& s.xacts[h].reporting.contains_key(client)
            &&& !(to_be_told(s.xacts[h], client, now) && outlived(s.xacts[h], now))
        },
        s.client_keeps(hashes, client, now).contains(h) ==> s.serve_client(
            hashes,
            client,
            now,
            delays,
        ).xacts.contains_key(h),
        !s.xacts.contains_key(h) ==> !s.serve_client(
            hashes,
            client,
            now,
            delays,
        ).xacts.contains_key(h),
{
}

/// The time that is handed back with the messages to a client is the earliest of the
/// next times of those of its subscriptions that had one; there is none where none had.
pub proof fn law_clients_are_served_in_time<T: SealTypes>(
    s: PeerStateView<T>,
    hashes: Set<T::HashID>,
    client: T::Prin,
    now: Instant,
    delays: Map<T::HashID, Duration>,
    next: Option<Instant>,
)
    requires
        is_earliest(next, s.client_times(hashes, client, now, delays)),
        forall|h: T::HashID| #[trigger]
            hashes.contains(h) ==> now.nanos + delays[h].nanos <= u128::MAX,
    ensures
        forall|h: T::HashID| #[trigger]
            hashes.contains(h) && s.xacts.contains_key(h) && has_time(s.xacts[h], client)
                ==> next is Some && next->0.nanos <= now.nanos + delays[h].nanos,
        next is Some ==> exists|h: T::HashID|
            {
                &&& #[trigger] hashes.contains(h)
                &&& s.xacts.contains_key(h)
                &&& has_time(s.xacts[h], client)
                &&& next->0.nanos == now.nanos + delays[h].nanos
            },
{
    let times = s.client_times(hashes, client, now, delays);
    assert forall|h: T::HashID| #[trigger]
        hashes.contains(h) && s.xacts.contains_key(h) && has_time(s.xacts[h], client) implies next
        is Some && next->0.nanos <= now.nanos + delays[h].nanos by {
        assert(s.client_awaits(hashes, client).contains(h));
        assert(times.contains(now.plus(delays[h])));
    }
    if next is Some {
        assert(times.contains(next->0));
        let h = choose|h: T::HashID| #[trigger]
            s.client_awaits(hashes, client).contains(h) && next->0 == now.plus(delays[h]);
        assert(hashes.contains(h));
    }
}

/// The search for a processor says which of its three questions failed first: whether
/// the class is in the table, whether the instance is, and whether any of the ranges
/// holds the version.  It finds the processor of the instance if any of the ranges
/// surely holds the version, and none if surely none does.
pub proof fn law_search_goes_by_the_table<
    T: SealTypes,
    G: Fn(&T::VersionRange, &T::Version) -> bool,
>(
    s: PeerStateView<T>,
    accepts: G,
    class: u128,
    version: T::Version,
    instance: u64,
    r: Result<ProcessorIdx, XactError<Seq<u8>>>,
)
    requires
        s.routes(accepts, class, version, instance, r),
    ensures
        ({
            let entry = s.processors[class].instances@[instance];
            let known = s.processors.contains_key(class)
                && s.processors[class].instances@.contains_key(instance);
            &&& r matches Ok(p) ==> known && p == entry.processor
            &&& r is Ok ==> exists|i: int|
                0 <= i < entry.versions@.len() && call_ensures(
                    accepts,
                    (&#[trigger] entry.versions@[i], &version),
                    true,
                )
            &&& r is Err && known ==> forall|i: int|
                0 <= i < entry.versions@.len() ==> call_ensures(
                    accepts,
                    (&#[trigger] entry.versions@[i], &version),
                    false,
                )
            &&& !s.processors.contains_key(class) <==> r == Err::<
                ProcessorIdx,
                XactError<Seq<u8>>,
            >(XactError::UnknownClass)
            &&& s.processors.contains_key(class) && !known <==> r == Err::<
                ProcessorIdx,
                XactError<Seq<u8>>,
            >(XactError::UnknownInstance)
            &&& known && !(r is Ok) ==> r == Err::<ProcessorIdx, XactError<Seq<u8>>>(
                XactError::UnknownVersion,
            )
            &&& known && (exists|i: int|
                0 <= i < entry.versions@.len() && !call_ensures(
                    accepts,
                    (&#[trigger] entry.versions@[i], &version),
                    false,
                )) ==> r is Ok
            &&& known && (forall|i: int|
                0 <= i < entry.versions@.len() ==> !call_ensures(
                    accepts,
                    (&#[trigger] entry.versions@[i], &version),
                    true,
                )) ==> r is Err
        }),
{
}

/// The retry counters have room exactly if every one of them can go up by one.
pub proof fn law_room_for_retries<T: SealTypes>(s: PeerStateView<T>)
    ensures
        s.can_retry() <==> {
            &&& forall|h: T::HashID| #[trigger]
                s.xacts.contains_key(h) && s.xacts[h].state is Pending ==> {
                    &&& s.xacts[h].state->stage is PreCommit
                        ==> s.xacts[h].state->stage->PreCommit_nretries < usize::MAX
                    &&& s.xacts[h].state->stage is Commit
                        ==> s.xacts[h].state->stage->Commit_nretries < usize::MAX
                }
            &&& forall|h: T::HashID, c: T::Prin|
                s.xacts.contains_key(h) && #[trigger] s.xacts[h].reporting.contains_key(c)
                    ==> s.xacts[h].reporting[c].nretries < usize::MAX
            &&& forall|r: u128, p: usize|
                s.seals.contains_key(r) && #[trigger] s.seals[r].retries.contains_key(p)
                    ==> s.seals[r].retries[p].nretries < usize::MAX
        },
{
    if s.can_retry() {
        assert forall|h: T::HashID| #[trigger]
            s.xacts.contains_key(h) implies s.xacts[h].can_retry() by {}
    }
}

/// In a consistent state, every round has one bit of each kind for each of its
/// transactions, and what is missing belongs to its round, which does not know it.
pub proof fn law_consistency<T: SealTypes>(s: PeerStateView<T>)
    requires
        s.wf(),
    ensures
        forall|r: u128| #[trigger]
            s.seals.contains_key(r) ==> {
                &&& s.seals[r].known.len() == s.seals[r].hashes.len()
                &&& s.seals[r].completed.len() == s.seals[r].hashes.len()
            },
        forall|r: u128, i: int|
            s.seals.contains_key(r) && 0 <= i < s.seals[r].hashes.len()
                && #[trigger] s.seals[r].completed[i] ==> s.seals[r].known[i],
        forall|h: T::HashID| #[trigger]
            s.missing.contains_key(h) ==> {
                &&& s.seals.contains_key(s.missing[h].0)
                &&& s.seals[s.missing[h].0].hashes.contains(h)
            },
        forall|h: T::HashID, i: int|
            s.missing.contains_key(h) && 0 <= i < s.seals[s.missing[h].0].hashes.len()
                && #[trigger] s.seals[s.missing[h].0].hashes[i] == h
                ==> !s.seals[s.missing[h].0].known[i],
{
}

} // verus!
