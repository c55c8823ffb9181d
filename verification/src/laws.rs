//! Properties of the peer's state that span several events.
use crate::ids::ConsensusRoundID;
use crate::ids::ProcessorIdx;
use crate::model::first_index;
use crate::model::is_first_index;
use crate::model::is_last_index;
use crate::model::last_index;
use crate::model::PeerStateView;
use crate::model::ResultState;
use crate::peer_xact::PeerXactState;
use crate::peer_xact::PendingXact;
use crate::peer_xact::PendingXactStage;
use crate::seal_entry::ConsensusSealRetry;
use crate::seal_entry::ConsensusSealView;
use crate::time::Duration;
use crate::time::Instant;
use crate::types::SealTypes;
use crate::xact::XactCommittedRound;
use crate::xact::XactEffects;
use crate::xact::XactError;
use crate::xact::XactLinPoint;
use crate::xact::XactNotify;
use crate::xact::XactNotifyState;
use vstd::prelude::*;

verus! {

/// The first index of a hash is unique.
pub proof fn lemma_first_index<H>(hashes: Seq<H>, h: H, i: int)
    requires
        is_first_index(hashes, h, i),
    ensures
        first_index(hashes, h) == i,
{
    let k = first_index(hashes, h);
    assert(is_first_index(hashes, h, k));
    if k < i {
        assert(hashes[k] != h);
    }
    if i < k {
        assert(hashes[i] != h);
    }
}

/// A hash that occurs has a first index.
pub proof fn lemma_first_index_exists<H>(hashes: Seq<H>, h: H)
    requires
        hashes.contains(h),
    ensures
        is_first_index(hashes, h, first_index(hashes, h)),
    decreases hashes.len(),
{
    let k = choose|k: int| 0 <= k < hashes.len() && hashes[k] == h;
    assert(hashes[k] == h);
    if forall|j: int| 0 <= j < k ==> hashes[j] != h {
        assert(is_first_index(hashes, h, k));
    } else {
        let prefix = hashes.subrange(0, k);
        let j = choose|j: int| 0 <= j < k && hashes[j] == h;
        assert(prefix[j] == h);
        lemma_first_index_exists(prefix, h);
        let i = first_index(prefix, h);
        assert forall|m: int| 0 <= m < i implies hashes[m] != h by {
            assert(prefix[m] == hashes[m]);
        }
        assert(is_first_index(hashes, h, i));
    }
}

/// Recording a transaction for which there is a processor keeps the state
/// consistent.
pub proof fn lemma_add_routed_wf<T: SealTypes>(
    s: PeerStateView<T>,
    client: T::Prin,
    hash: T::HashID,
    processor: ProcessorIdx,
    xact: PendingXact<T, Seq<u8>>,
    now: Instant,
)
    requires
        s.wf(),
    ensures
        s.add_routed(client, hash, processor, xact, now).wf(),
{
    let t = s.add_routed(client, hash, processor, xact, now);
    if !s.xacts.contains_key(hash) && s.missing.contains_key(hash) {
        let round = s.missing[hash];
        let seal = s.seals[round.0];
        lemma_first_index_exists(seal.hashes, hash);
        let i = first_index(seal.hashes, hash);
        assert(t.seals[round.0].wf()) by {
            let new = t.seals[round.0];
            assert forall|k: int|
                0 <= k < new.hashes.len() && #[trigger] new.completed[k] implies new.known[k] by {
                assert(seal.completed[k]);
            }
        }
        assert forall|h: T::HashID| #[trigger] t.missing.contains_key(h) implies {
            &&& t.seals.contains_key(t.missing[h].0)
            &&& t.seals[t.missing[h].0].lacks(h)
        } by {
            assert(s.missing.contains_key(h));
            assert(s.seals[s.missing[h].0].lacks(h));
        }
    }
}

/// The last index of a hash is unique.
pub proof fn lemma_last_index<H>(hashes: Seq<H>, h: H, i: int)
    requires
        is_last_index(hashes, h, i),
    ensures
        last_index(hashes, h) == i,
{
    let k = last_index(hashes, h);
    assert(is_last_index(hashes, h, k));
    if k < i {
        assert(hashes[i] != h);
    }
    if i < k {
        assert(hashes[k] != h);
    }
}

/// A hash that occurs has a last index.
pub proof fn lemma_last_index_exists<H>(hashes: Seq<H>, h: H)
    requires
        hashes.contains(h),
    ensures
        is_last_index(hashes, h, last_index(hashes, h)),
    decreases hashes.len(),
{
    let n = hashes.len() - 1;
    if hashes[n] == h {
        assert(is_last_index(hashes, h, n));
    } else {
        let prefix = hashes.take(n);
        let k = choose|k: int| 0 <= k < hashes.len() && hashes[k] == h;
        assert(prefix[k] == h);
        lemma_last_index_exists(prefix, h);
        let i = last_index(prefix, h);
        assert forall|j: int| i < j < hashes.len() implies hashes[j] != h by {
            if j < n {
                assert(prefix[j] == hashes[j]);
            }
        }
        assert(is_last_index(hashes, h, i));
    }
}

/// The last index of a hash among the first `i + 1`, from that among the first `i`.
proof fn lemma_last_index_step<H>(hashes: Seq<H>, h: H, i: int)
    requires
        0 <= i < hashes.len(),
    ensures
        hashes.take(i + 1).contains(h) <==> hashes.take(i).contains(h) || h == hashes[i],
        h == hashes[i] ==> last_index(hashes.take(i + 1), h) == i,
        h != hashes[i] && hashes.take(i).contains(h) ==> last_index(hashes.take(i + 1), h)
            == last_index(hashes.take(i), h),
{
    let a = hashes.take(i);
    let b = hashes.take(i + 1);
    assert(b =~= a.push(hashes[i]));
    if h == hashes[i] {
        assert(b[i] == h);
        assert(is_last_index(b, h, i));
        lemma_last_index(b, h, i);
    } else {
        if b.contains(h) {
            let k = choose|k: int| 0 <= k < b.len() && b[k] == h;
            assert(a[k] == h);
        }
        if a.contains(h) {
            lemma_last_index_exists(a, h);
            let k = last_index(a, h);
            assert(b[k] == h);
            assert(is_last_index(b, h, k));
            lemma_last_index(b, h, k);
        }
    }
}

/// A round can be recorded one transaction after the other.
pub proof fn lemma_seal_step<T: SealTypes>(
    s: PeerStateView<T>,
    round: ConsensusRoundID,
    hashes: Seq<T::HashID>,
    seals: Seq<T::Seal>,
    now: Instant,
    i: int,
)
    requires
        !s.seals.contains_key(round.0),
        0 <= i < hashes.len() <= usize::MAX,
    ensures
        ({
            let h = hashes[i];
            let a = s.add_seal(round, hashes.take(i), seals, now);
            let b = s.add_seal(round, hashes.take(i + 1), seals, now);
            let a_round = s.new_round(hashes.take(i), seals, now);
            let b_round = s.new_round(hashes.take(i + 1), seals, now);
            let start = ConsensusSealRetry { nretries: 0, when: Some(now) };
            &&& b_round.known == a_round.known.push(s.xacts.contains_key(h))
            &&& if s.xacts.contains_key(h) {
                &&& b.missing == a.missing
                &&& b.xacts == a.xacts.insert(
                    h,
                    a.xacts[h].committed(XactLinPoint { round, idx: i as usize }, now),
                )
                &&& match a.xacts[h].state {
                    PeerXactState::Pending { processor, .. } => b_round.retries
                        == a_round.retries.insert(processor.0, start),
                    _ => b_round.retries == a_round.retries,
                }
            } else {
                &&& b.missing == a.missing.insert(h, round)
                &&& b.xacts == a.xacts
                &&& b_round.retries == a_round.retries
            }
        }),
{
    let h = hashes[i];
    let ah = hashes.take(i);
    let bh = hashes.take(i + 1);
    assert(bh =~= ah.push(h));
    let a = s.add_seal(round, ah, seals, now);
    let b = s.add_seal(round, bh, seals, now);
    let a_round = s.new_round(ah, seals, now);
    let b_round = s.new_round(bh, seals, now);
    assert forall|k: T::HashID| #![auto]
        bh.contains(k) <==> ah.contains(k) || k == h by {
        lemma_last_index_step(hashes, k, i);
    }
    lemma_last_index_step(hashes, h, i);
    let point = XactLinPoint { round, idx: i as usize };
    assert(b_round.known =~= a_round.known.push(s.xacts.contains_key(h)));
    if s.xacts.contains_key(h) {
        assert(a.xacts[h].committed(point, now) == s.xacts[h].committed(point, now)) by {
            let x = a.xacts[h].committed(point, now);
            let y = s.xacts[h].committed(point, now);
            assert(x.reporting =~= y.reporting);
        }
        assert(b.missing =~= a.missing);
        let expected = a.xacts.insert(h, a.xacts[h].committed(point, now));
        assert forall|k: T::HashID| #[trigger] b.xacts.contains_key(k) implies b.xacts[k]
            == expected[k] by {
            lemma_last_index_step(hashes, k, i);
        }
        assert(b.xacts =~= expected);
    } else {
        assert(b.missing =~= a.missing.insert(h, round));
        assert forall|k: T::HashID| #[trigger] b.xacts.contains_key(k) implies b.xacts[k]
            == a.xacts[k] by {
            lemma_last_index_step(hashes, k, i);
        }
        assert(b.xacts =~= a.xacts);
    }
    assert forall|p: usize| #[trigger]
        b_round.retries.contains_key(p) <==> a_round.retries.contains_key(p) || s.round_uses(
            bh,
            i,
            p,
        ) by {
        if b_round.retries.contains_key(p) {
            let j = choose|j: int| s.round_uses(bh, j, p);
            if j < i {
                assert(s.round_uses(ah, j, p));
            }
        }
        if a_round.retries.contains_key(p) {
            let j = choose|j: int| s.round_uses(ah, j, p);
            assert(s.round_uses(bh, j, p));
        }
    }
    let start = ConsensusSealRetry { nretries: 0, when: Some(now) };
    if s.xacts.contains_key(h) {
        match a.xacts[h].state {
            PeerXactState::Pending { processor, .. } => {
                assert(s.round_uses(bh, i, processor.0));
                assert(b_round.retries =~= a_round.retries.insert(processor.0, start));
            },
            _ => {
                assert(b_round.retries =~= a_round.retries);
            },
        }
    } else {
        assert(b_round.retries =~= a_round.retries);
    }
}

/// Recording a round keeps the state consistent.
pub proof fn lemma_add_seal_wf<T: SealTypes>(
    s: PeerStateView<T>,
    round: ConsensusRoundID,
    hashes: Seq<T::HashID>,
    seals: Seq<T::Seal>,
    now: Instant,
)
    requires
        s.wf(),
    ensures
        s.add_seal(round, hashes, seals, now).wf(),
{
    let t = s.add_seal(round, hashes, seals, now);
    if !s.seals.contains_key(round.0) {
        let new = s.new_round(hashes, seals, now);
        assert forall|h: T::HashID| #[trigger] t.missing.contains_key(h) implies {
            &&& t.seals.contains_key(t.missing[h].0)
            &&& t.seals[t.missing[h].0].lacks(h)
        } by {
            if hashes.contains(h) && !s.xacts.contains_key(h) {
                assert(new.lacks(h));
            } else {
                assert(s.missing.contains_key(h));
                assert(s.seals[s.missing[h].0].lacks(h));
            }
        }
    }
}

/// Sending rounds to a processor keeps the state consistent.
pub proof fn lemma_send_rounds_wf<T: SealTypes>(
    s: PeerStateView<T>,
    target: ProcessorIdx,
    now: Instant,
    delays: Map<u128, Duration>,
)
    requires
        s.wf(),
    ensures
        s.send_rounds(target, now, delays).wf(),
{
    let t = s.send_rounds(target, now, delays);
    assert forall|r: u128| #[trigger] t.seals.contains_key(r) implies t.seals[r].wf() by {
        assert(s.seals.contains_key(r));
        let old = s.seals[r];
        let new = t.seals[r];
        assert forall|i: int|
            0 <= i < new.hashes.len() && #[trigger] new.completed[i] implies new.known[i] by {
            if old.completed[i] {
                assert(old.known[i]);
            }
        }
    }
    assert forall|h: T::HashID| #[trigger] t.missing.contains_key(h) implies {
        &&& t.seals.contains_key(t.missing[h].0)
        &&& t.seals[t.missing[h].0].lacks(h)
    } by {
        assert(s.missing.contains_key(h));
        let r = s.missing[h].0;
        let old = s.seals[r];
        let new = s.round_after(r, target, now, delays);
        let i = choose|i: int| 0 <= i < old.hashes.len() && old.hashes[i] == h;
        assert(old.hashes[i] == h);
        assert(!old.known[i]);
        assert(!old.completed[i]);
        assert(!new.completed[i]);
        assert(new.hashes[i] == h);
    }
}

/// What rounds hand to a processor does not depend on the transactions that it
/// tries without a round.
pub proof fn lemma_rounds_unaffected_by_trial<T: SealTypes>(
    s: PeerStateView<T>,
    target: ProcessorIdx,
    now: Instant,
    delays: Map<T::HashID, Duration>,
)
    ensures
        ({
            let t = s.submit_precommits(target, now, delays);
            &&& forall|r: u128| #[trigger]
                t.rounds_sent(target, now).contains(r) <==> s.rounds_sent(target, now).contains(r)
            &&& forall|rounds: Seq<XactCommittedRound<T>>| #[trigger]
                t.asks_committed(target, now, rounds) ==> s.asks_committed(target, now, rounds)
        }),
{
    let t = s.submit_precommits(target, now, delays);
    assert(t.xacts.dom() =~= s.xacts.dom());
    assert forall|seal: ConsensusSealView<T>, i: int| #[trigger]
        seal.dispatches(t.xacts, target, i) <==> seal.dispatches(s.xacts, target, i) by {
        if seal.open_at(i) && s.xacts.contains_key(seal.hashes[i]) {
            assert(t.xacts.contains_key(seal.hashes[i]));
        }
    }
    assert forall|r: u128| #[trigger]
        t.rounds_sent(target, now).contains(r) <==> s.rounds_sent(target, now).contains(r) by {
        let seal = s.seals[r];
        if t.rounds_sent(target, now).contains(r) {
            let i = choose|i: int| seal.dispatches(t.xacts, target, i);
            assert(seal.dispatches(s.xacts, target, i));
        }
        if s.rounds_sent(target, now).contains(r) {
            let i = choose|i: int| seal.dispatches(s.xacts, target, i);
            assert(seal.dispatches(t.xacts, target, i));
        }
    }
    assert forall|rounds: Seq<XactCommittedRound<T>>| #[trigger]
        t.asks_committed(target, now, rounds) implies s.asks_committed(target, now, rounds) by {
        let ids = rounds.map_values(|r: XactCommittedRound<T>| r.round.0);
        assert forall|r: u128| #[trigger]
            s.rounds_sent(target, now).contains(r) <==> ids.contains(r) by {
            assert(t.rounds_sent(target, now).contains(r) <==> ids.contains(r));
        }
        assert forall|k: int| 0 <= k < rounds.len() implies {
            &&& (#[trigger] rounds[k]).seal is None
            &&& s.seals[rounds[k].round.0].requests(s.xacts, target, rounds[k].reqs@)
        } by {
            let seal = s.seals[rounds[k].round.0];
            let reqs = rounds[k].reqs@;
            assert(seal.requests(t.xacts, target, reqs));
            assert forall|m: int| 0 <= m < reqs.len() implies {
                &&& seal.dispatches(s.xacts, target, (#[trigger] reqs[m]).idx as int)
                &&& s.xacts[seal.hashes[reqs[m].idx as int]].asked_by(reqs[m].idx as int, reqs[m])
            } by {
                assert(seal.dispatches(t.xacts, target, reqs[m].idx as int));
            }
            assert forall|i: int| #[trigger] seal.dispatches(s.xacts, target, i) implies exists|
                m: int,
            |
                0 <= m < reqs.len() && (#[trigger] reqs[m]).idx == i by {
                assert(seal.dispatches(t.xacts, target, i));
            }
        }
    }
}

/// A round that was seen before changes nothing, whatever it says.
pub proof fn law_round_counts_once<T: SealTypes>(
    s: PeerStateView<T>,
    round: ConsensusRoundID,
    hashes: Seq<T::HashID>,
    seals: Seq<T::Seal>,
    now: Instant,
    hashes2: Seq<T::HashID>,
    seals2: Seq<T::Seal>,
    now2: Instant,
)
    ensures
        ({
            let t = s.add_seal(round, hashes, seals, now);
            t.add_seal(round, hashes2, seals2, now2) == t
        }),
{
}

/// To submit a transaction that is already here only subscribes the client, which
/// is due for a message at once; nothing else changes.
pub proof fn law_resubmission_subscribes<T: SealTypes>(
    s: PeerStateView<T>,
    client: T::Prin,
    hash: T::HashID,
    processor: ProcessorIdx,
    xact: PendingXact<T, Seq<u8>>,
    now: Instant,
)
    requires
        s.xacts.contains_key(hash),
    ensures
        ({
            let t = s.add_xact(client, hash, Ok(processor), xact, now);
            &&& t.xacts[hash].state == s.xacts[hash].state
            &&& t.xacts[hash].due(client, now)
            &&& t.xacts[hash].reporting.remove(client) == s.xacts[hash].reporting.remove(client)
            &&& t.xacts.remove(hash) == s.xacts.remove(hash)
            &&& t.seals == s.seals
            &&& t.missing == s.missing
        }),
{
    let t = s.add_xact(client, hash, Ok(processor), xact, now);
    assert(t.xacts[hash].reporting.remove(client) =~= s.xacts[hash].reporting.remove(client));
    assert(t.xacts.remove(hash) =~= s.xacts.remove(hash));
}

/// A transaction that no processor takes is reported to its client as an error.
pub proof fn law_rejection_is_reported<T: SealTypes>(
    s: PeerStateView<T>,
    client: T::Prin,
    hash: T::HashID,
    error: XactError<Seq<u8>>,
    xact: PendingXact<T, Seq<u8>>,
    now: Instant,
    later: Instant,
    notifies: Seq<XactNotify<T::HashID, Vec<u8>>>,
    hashes: Set<T::HashID>,
)
    requires
        !s.xacts.contains_key(hash),
        hashes.contains(hash),
        now.nanos <= later.nanos,
        s.add_xact(client, hash, Err(error), xact, now).tells(hashes, client, later, notifies),
    ensures
        exists|k: int|
            0 <= k < notifies.len() && (#[trigger] notifies[k]).hash == hash && notifies[k].state@
                == (XactNotifyState::Error { error: Some(error) }),
{
    let t = s.add_xact(client, hash, Err(error), xact, now);
    assert(t.client_due(hashes, client, later).contains(hash));
    lemma_told(t, hashes, client, later, notifies, hash);
}

/// What a client is due for is among what it is told.
proof fn lemma_told<T: SealTypes>(
    s: PeerStateView<T>,
    hashes: Set<T::HashID>,
    client: T::Prin,
    now: Instant,
    notifies: Seq<XactNotify<T::HashID, Vec<u8>>>,
    h: T::HashID,
)
    requires
        s.tells(hashes, client, now, notifies),
        s.client_due(hashes, client, now).contains(h),
    ensures
        exists|k: int|
            0 <= k < notifies.len() && (#[trigger] notifies[k]).hash == h && notifies[k].state@
                == s.xacts[h].message(client),
{
    let told = notifies.map_values(|n: XactNotify<T::HashID, Vec<u8>>| n.hash);
    assert(told.contains(h));
    let k = choose|k: int| 0 <= k < told.len() && told[k] == h;
    assert(notifies[k].hash == h);
}

/// Once a result is accepted, every client that asked for the result and is
/// subscribed is told the result and the linearization point, the next time its
/// messages are collected.
pub proof fn law_result_is_reported<T: SealTypes>(
    s: PeerStateView<T>,
    hash: T::HashID,
    lin_point: XactLinPoint,
    res: Seq<u8>,
    now: Instant,
    client: T::Prin,
    hashes: Set<T::HashID>,
    later: Instant,
    notifies: Seq<XactNotify<T::HashID, Vec<u8>>>,
)
    requires
        s.result_check(hash, lin_point) == ResultState::Accept,
        s.xacts[hash].reporting.contains_key(client),
        s.xacts[hash].reporting[client].kind is Result,
        hashes.contains(hash),
        now.nanos <= later.nanos,
        s.add_result(hash, lin_point, res, now).tells(hashes, client, later, notifies),
    ensures
        exists|k: int|
            0 <= k < notifies.len() && (#[trigger] notifies[k]).hash == hash && notifies[k].state@
                == (XactNotifyState::Success { when: lin_point, result: Some(res) }),
{
    let t = s.add_result(hash, lin_point, res, now);
    assert(t.client_due(hashes, client, later).contains(hash));
    lemma_told(t, hashes, client, later, notifies, hash);
}

/// Once an error is accepted, every client that asked for the result and is
/// subscribed is told the error, the next time its messages are collected.
pub proof fn law_error_is_reported<T: SealTypes>(
    s: PeerStateView<T>,
    hash: T::HashID,
    error: XactError<Seq<u8>>,
    now: Instant,
    client: T::Prin,
    hashes: Set<T::HashID>,
    later: Instant,
    notifies: Seq<XactNotify<T::HashID, Vec<u8>>>,
)
    requires
        s.error_check(hash) == ResultState::Accept,
        s.xacts[hash].reporting.contains_key(client),
        s.xacts[hash].reporting[client].kind is Result,
        hashes.contains(hash),
        now.nanos <= later.nanos,
        s.add_error(hash, error, now).tells(hashes, client, later, notifies),
    ensures
        exists|k: int|
            0 <= k < notifies.len() && (#[trigger] notifies[k]).hash == hash && notifies[k].state@
                == (XactNotifyState::Error { error: Some(error) }),
{
    let t = s.add_error(hash, error, now);
    assert(t.client_due(hashes, client, later).contains(hash));
    lemma_told(t, hashes, client, later, notifies, hash);
}

/// A transaction that is over is remembered for the configured time: until then,
/// nothing removes it.
pub proof fn law_tombstone_lasts<T: SealTypes>(
    s: PeerStateView<T>,
    hash: T::HashID,
    lin_point: XactLinPoint,
    res: Seq<u8>,
    now: Instant,
    hashes: Set<T::HashID>,
    client: T::Prin,
    later: Instant,
    delays: Map<T::HashID, Duration>,
)
    requires
        s.result_check(hash, lin_point) == ResultState::Accept,
        now.can_add(s.tombstone_duration),
        later.nanos < now.nanos + s.tombstone_duration.nanos,
    ensures
        ({
            let t = s.add_result(hash, lin_point, res, now);
            let u = t.serve_client(hashes, client, later, delays);
            u.xacts.contains_key(hash) && u.xacts[hash].state == t.xacts[hash].state
        }),
{
}

/// The round trip of a transaction that is tried without a round: it is due for its
/// processor at once, the processor is asked for it, and its result completes it.
/// Every client that is subscribed is due for a message then.
pub proof fn law_trial_round_trip<T: SealTypes>(
    s: PeerStateView<T>,
    client: T::Prin,
    hash: T::HashID,
    processor: ProcessorIdx,
    xact: PendingXact<T, Seq<u8>>,
    now: Instant,
    polled: Instant,
    delays: Map<T::HashID, Duration>,
    round_delays: Map<u128, Duration>,
    lin_point: XactLinPoint,
    res: Seq<u8>,
    done: Instant,
)
    requires
        !s.xacts.contains_key(hash),
        !s.missing.contains_key(hash),
        !(xact.effects is Effects),
        xact.effects matches XactEffects::HardNone { when: Some(requested) } ==> requested
            == lin_point,
        now.nanos <= polled.nanos,
    ensures
        ({
            let t = s.add_xact(client, hash, Ok(processor), xact, now);
            let u = t.submit_precommits(processor, polled, delays).send_rounds(
                processor,
                polled,
                round_delays,
            );
            let v = u.add_result(hash, lin_point, res, done);
            &&& t.precommit_due(processor, polled).contains(hash)
            &&& u.result_check(hash, lin_point) == ResultState::Accept
            &&& v.xacts[hash].state == (PeerXactState::<T, Seq<u8>>::Complete {
                res,
                lin_point,
                expire: done.plus(s.tombstone_duration),
            })
            &&& v.xacts[hash].due(client, done)
            &&& v.xacts[hash].message(client) == (XactNotifyState::Success {
                when: lin_point,
                result: Some(res),
            })
        }),
{
}

/// The round trip of a transaction with effects: it is due for consensus at once.
/// The round that commits it makes it due for its processor, which is asked for it
/// at the index that it has in the round, and its result there completes it.
pub proof fn law_commit_round_trip<T: SealTypes>(
    s: PeerStateView<T>,
    client: T::Prin,
    hash: T::HashID,
    processor: ProcessorIdx,
    xact: PendingXact<T, Seq<u8>>,
    now: Instant,
    submitted: Instant,
    delays: Map<T::HashID, Duration>,
    round: ConsensusRoundID,
    hashes: Seq<T::HashID>,
    seals: Seq<T::Seal>,
    sealed: Instant,
    polled: Instant,
    tried_delays: Map<T::HashID, Duration>,
    round_delays: Map<u128, Duration>,
    rounds: Seq<XactCommittedRound<T>>,
    res: Seq<u8>,
    done: Instant,
)
    requires
        !s.xacts.contains_key(hash),
        !s.missing.contains_key(hash),
        xact.effects is Effects,
        !s.seals.contains_key(round.0),
        hashes.contains(hash),
        hashes.len() <= usize::MAX,
        now.nanos <= submitted.nanos,
        sealed.nanos < polled.nanos,
        s.add_xact(client, hash, Ok(processor), xact, now).submit_commits(
            submitted,
            delays,
        ).add_seal(round, hashes, seals, sealed).asks_committed(processor, polled, rounds),
    ensures
        ({
            let t = s.add_xact(client, hash, Ok(processor), xact, now);
            let u = t.submit_commits(submitted, delays).add_seal(round, hashes, seals, sealed);
            let v = u.submit_precommits(processor, polled, tried_delays).send_rounds(
                processor,
                polled,
                round_delays,
            );
            let lin_point = XactLinPoint { round, idx: last_index(hashes, hash) as usize };
            let w = v.add_result(hash, lin_point, res, done);
            &&& t.commit_due(submitted).contains(hash)
            &&& exists|k: int, m: int|
                {
                    &&& 0 <= k < rounds.len()
                    &&& #[trigger] rounds[k].round == round
                    &&& 0 <= m < rounds[k].reqs@.len()
                    &&& (#[trigger] rounds[k].reqs@[m]).idx == lin_point.idx
                    &&& rounds[k].reqs@[m].class == xact.class
                    &&& rounds[k].reqs@[m].instance == xact.instance
                    &&& rounds[k].reqs@[m].payload@ == xact.payload
                    &&& cloned(xact.version, rounds[k].reqs@[m].version)
                    &&& rounds[k].reqs@[m].effects matches Some(e) && e.effects@
                        == xact.effects->effects && e.hard == xact.effects->hard
                }
            &&& v.result_check(hash, lin_point) == ResultState::Accept
            &&& w.xacts[hash].state == (PeerXactState::<T, Seq<u8>>::Complete {
                res,
                lin_point,
                expire: done.plus(s.tombstone_duration),
            })
            &&& w.xacts[hash].due(client, done)
            &&& w.xacts[hash].message(client) == (XactNotifyState::Success {
                when: lin_point,
                result: Some(res),
            })
        }),
{
    let t = s.add_xact(client, hash, Ok(processor), xact, now);
    let c = t.submit_commits(submitted, delays);
    let u = c.add_seal(round, hashes, seals, sealed);
    let tried = u.submit_precommits(processor, polled, tried_delays);
    let v = tried.send_rounds(processor, polled, round_delays);
    let i = last_index(hashes, hash);
    lemma_last_index_exists(hashes, hash);
    assert(c.xacts.contains_key(hash));
    assert(c.round_uses(hashes, i, processor.0));
    let seal = u.seals[round.0];
    assert(seal.retries.contains_key(processor.0));
    assert(u.round_due(round.0, processor, polled));
    assert(seal.dispatches(u.xacts, processor, i));
    assert(u.rounds_sent(processor, polled).contains(round.0));
    let ids = rounds.map_values(|r: XactCommittedRound<T>| r.round.0);
    assert(ids.contains(round.0));
    let k = choose|k: int| 0 <= k < ids.len() && ids[k] == round.0;
    assert(rounds[k].round.0 == round.0);
    assert(rounds[k].round == round);
    assert(seal.requests(u.xacts, processor, rounds[k].reqs@));
    let m = choose|m: int|
        0 <= m < rounds[k].reqs@.len() && (#[trigger] rounds[k].reqs@[m]).idx == i;
    assert(u.xacts[hash].asked_by(i, rounds[k].reqs@[m]));
    assert(tried.seals[round.0] == seal);
    assert(seal.dispatches(tried.xacts, processor, i));
    assert(tried.round_due(round.0, processor, polled));
    assert(seal.dispatches_hash(tried.xacts, processor, hash));
    assert(tried.round_dispatches(processor, polled, hash));
}

/// A transaction that arrives after the round that commits it takes its place in
/// that round at once.
pub proof fn law_late_arrival_takes_its_place<T: SealTypes>(
    s: PeerStateView<T>,
    client: T::Prin,
    hash: T::HashID,
    processor: ProcessorIdx,
    xact: PendingXact<T, Seq<u8>>,
    now: Instant,
)
    requires
        s.wf(),
        !s.xacts.contains_key(hash),
        s.missing.contains_key(hash),
    ensures
        ({
            let t = s.add_xact(client, hash, Ok(processor), xact, now);
            let round = s.missing[hash];
            let i = first_index(s.seals[round.0].hashes, hash);
            &&& is_first_index(s.seals[round.0].hashes, hash, i)
            &&& !t.missing.contains_key(hash)
            &&& t.seals[round.0].open_at(i)
            &&& t.xacts[hash].state->processor == processor
            &&& t.xacts[hash].state->stage == (PendingXactStage::Process {
                dispatched: false,
                lin_point: XactLinPoint { round, idx: i as usize },
            })
            &&& t.seals[round.0].send_time(processor) == Some(now)
        }),
{
    let round = s.missing[hash];
    let seal = s.seals[round.0];
    assert(seal.lacks(hash));
    lemma_first_index_exists(seal.hashes, hash);
    let i = first_index(seal.hashes, hash);
    assert(seal.hashes[i] == hash);
    assert(!seal.known[i]);
    assert(!seal.completed[i]);
}

/// A transaction that arrives after the round that commits it is sent to its
/// processor, at its index in that round, when the processor's messages are next
/// collected.
pub proof fn law_late_arrival_is_sent<T: SealTypes>(
    s: PeerStateView<T>,
    client: T::Prin,
    hash: T::HashID,
    processor: ProcessorIdx,
    xact: PendingXact<T, Seq<u8>>,
    now: Instant,
    polled: Instant,
)
    requires
        s.wf(),
        !s.xacts.contains_key(hash),
        s.missing.contains_key(hash),
        now.nanos < polled.nanos,
    ensures
        ({
            let t = s.add_xact(client, hash, Ok(processor), xact, now);
            let round = s.missing[hash];
            let i = first_index(s.seals[round.0].hashes, hash);
            &&& t.rounds_sent(processor, polled).contains(round.0)
            &&& t.seals[round.0].dispatches(t.xacts, processor, i)
            &&& t.round_dispatches(processor, polled, hash)
        }),
{
    law_late_arrival_takes_its_place(s, client, hash, processor, xact, now);
    let t = s.add_xact(client, hash, Ok(processor), xact, now);
    let r = s.missing[hash].0;
    let i = first_index(s.seals[r].hashes, hash);
    assert(t.seals[r].dispatches(t.xacts, processor, i));
    assert(t.round_due(r, processor, polled));
    assert(t.seals[r].dispatches_hash(t.xacts, processor, hash));
}

/// The round trip of a transaction that arrives after the round that commits it:
/// its processor is asked for it, and its result at its place in the round completes
/// it.
pub proof fn law_late_arrival_round_trip<T: SealTypes>(
    s: PeerStateView<T>,
    client: T::Prin,
    hash: T::HashID,
    processor: ProcessorIdx,
    xact: PendingXact<T, Seq<u8>>,
    now: Instant,
    polled: Instant,
    delays: Map<T::HashID, Duration>,
    round_delays: Map<u128, Duration>,
    res: Seq<u8>,
    done: Instant,
)
    requires
        s.wf(),
        !s.xacts.contains_key(hash),
        s.missing.contains_key(hash),
        now.nanos < polled.nanos,
    ensures
        ({
            let t = s.add_xact(client, hash, Ok(processor), xact, now);
            let u = t.submit_precommits(processor, polled, delays).send_rounds(
                processor,
                polled,
                round_delays,
            );
            let round = s.missing[hash];
            let lin_point = XactLinPoint {
                round,
                idx: first_index(s.seals[round.0].hashes, hash) as usize,
            };
            let v = u.add_result(hash, lin_point, res, done);
            &&& u.result_check(hash, lin_point) == ResultState::Accept
            &&& v.xacts[hash].state == (PeerXactState::<T, Seq<u8>>::Complete {
                res,
                lin_point,
                expire: done.plus(s.tombstone_duration),
            })
            &&& v.xacts[hash].due(client, done)
            &&& v.xacts[hash].message(client) == (XactNotifyState::Success {
                when: lin_point,
                result: Some(res),
            })
        }),
{
    law_late_arrival_takes_its_place(s, client, hash, processor, xact, now);
    let t = s.add_xact(client, hash, Ok(processor), xact, now);
    let tried = t.submit_precommits(processor, polled, delays);
    let r = s.missing[hash].0;
    let i = first_index(s.seals[r].hashes, hash);
    assert(tried.seals[r].dispatches(tried.xacts, processor, i));
    assert(tried.round_due(r, processor, polled));
    assert(tried.seals[r].dispatches_hash(tried.xacts, processor, hash));
    assert(tried.round_dispatches(processor, polled, hash));
}

/// What has been submitted to consensus is due again exactly when its delay is
/// over.
pub proof fn law_resubmission_waits<T: SealTypes>(
    s: PeerStateView<T>,
    now: Instant,
    delays: Map<T::HashID, Duration>,
    h: T::HashID,
    later: Instant,
)
    requires
        s.commit_due(now).contains(h),
        now.can_add(delays[h]),
    ensures
        s.submit_commits(now, delays).commit_due(later).contains(h) <==> now.nanos
            + delays[h].nanos <= later.nanos,
{
}

/// What has been tried without a round is due again exactly when its delay is over.
pub proof fn law_retrial_waits<T: SealTypes>(
    s: PeerStateView<T>,
    target: ProcessorIdx,
    now: Instant,
    delays: Map<T::HashID, Duration>,
    h: T::HashID,
    later: Instant,
)
    requires
        s.precommit_due(target, now).contains(h),
        now.can_add(delays[h]),
    ensures
        s.submit_precommits(target, now, delays).precommit_due(target, later).contains(h)
            <==> now.nanos + delays[h].nanos <= later.nanos,
{
}

/// A round is forgotten only when every transaction in it is over: it has been
/// marked before, or it is known and neither pending nor gone now.
pub proof fn law_rounds_last<T: SealTypes>(
    s: PeerStateView<T>,
    target: ProcessorIdx,
    now: Instant,
    delays: Map<u128, Duration>,
    r: u128,
    i: int,
)
    requires
        s.wf(),
        s.seals.contains_key(r),
        !s.send_rounds(target, now, delays).seals.contains_key(r),
        0 <= i < s.seals[r].hashes.len(),
    ensures
        s.seals[r].completed[i] || s.seals[r].finds_over(s.xacts, i),
{
    let new = s.round_after(r, target, now, delays);
    assert(new.all_completed());
    assert(new.completed[i]);
}

/// A round of which a part has been sent to a processor is due for it again exactly
/// when its delay is over; one of which there was nothing to send is not due again.
pub proof fn law_rounds_wait<T: SealTypes>(
    s: PeerStateView<T>,
    target: ProcessorIdx,
    now: Instant,
    delays: Map<u128, Duration>,
    r: u128,
    later: Instant,
)
    requires
        s.round_due(r, target, now),
        now.can_add(delays[r]),
        s.send_rounds(target, now, delays).seals.contains_key(r),
    ensures
        s.send_rounds(target, now, delays).round_due(r, target, later) <==> s.rounds_sent(
            target,
            now,
        ).contains(r) && now.nanos + delays[r].nanos < later.nanos,
{
}

/// A result or an error for a transaction that no processor was asked for is not
/// believed: the transaction fails with an internal error.
pub proof fn law_unasked_reports_are_errors<T: SealTypes>(
    s: PeerStateView<T>,
    hash: T::HashID,
    lin_point: XactLinPoint,
    res: Seq<u8>,
    error: XactError<Seq<u8>>,
    now: Instant,
)
    requires
        s.pending(hash),
        match s.xacts[hash].state->stage {
            PendingXactStage::PreCommit { dispatched, .. } => !dispatched,
            PendingXactStage::Commit { .. } => true,
            PendingXactStage::Process { dispatched, .. } => !dispatched,
        },
    ensures
        s.add_result(hash, lin_point, res, now) == s.fail(hash, XactError::Internal, now),
        s.add_error(hash, error, now) == s.fail(hash, XactError::Internal, now),
{
}

/// A committed transaction accepts a result at its own linearization point only.
pub proof fn law_results_keep_the_order<T: SealTypes>(
    s: PeerStateView<T>,
    hash: T::HashID,
    lin_point: XactLinPoint,
    res: Seq<u8>,
    now: Instant,
)
    requires
        s.pending(hash),
        s.xacts[hash].state->stage is Process,
        s.add_result(hash, lin_point, res, now).xacts[hash].state is Complete,
    ensures
        s.xacts[hash].state->stage->Process_lin_point == lin_point,
{
}

} // verus!
