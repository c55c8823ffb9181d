//! Everything that can happen to a peer's state, and what holds whatever happens.
use crate::ids::ConsensusRoundID;
use crate::ids::ProcessorIdx;
use crate::laws::lemma_add_routed_wf;
use crate::laws::lemma_add_seal_wf;
use crate::laws::lemma_send_rounds_wf;
use crate::model::PeerStateView;
use crate::peer_xact::PendingXact;
use crate::time::Duration;
use crate::time::Instant;
use crate::types::SealTypes;
use crate::xact::XactError;
use crate::xact::XactLinPoint;
use vstd::prelude::*;

verus! {

/// What can happen to a peer's state.
#[allow(inconsistent_fields)]
pub enum Event<T: SealTypes> {
    /// A client submits a transaction.
    Submission {
        client: T::Prin,
        hash: T::HashID,
        route: Result<ProcessorIdx, XactError<Seq<u8>>>,
        xact: PendingXact<T, Seq<u8>>,
        now: Instant,
    },
    /// A processor reports the result of a transaction.
    Outcome { hash: T::HashID, lin_point: XactLinPoint, res: Seq<u8>, now: Instant },
    /// A processor reports that a transaction failed.
    Failure { hash: T::HashID, error: XactError<Seq<u8>>, now: Instant },
    /// Consensus commits a round.
    Round {
        round: ConsensusRoundID,
        hashes: Seq<T::HashID>,
        seals: Seq<T::Seal>,
        now: Instant,
    },
    /// Messages to consensus are collected.
    PollConsensus { now: Instant, delays: Map<T::HashID, Duration> },
    /// Messages to a processor are collected.
    PollProcessor {
        target: ProcessorIdx,
        now: Instant,
        delays: Map<T::HashID, Duration>,
        round_delays: Map<u128, Duration>,
    },
    /// Messages to a client are collected.
    PollClient {
        hashes: Set<T::HashID>,
        client: T::Prin,
        now: Instant,
        delays: Map<T::HashID, Duration>,
    },
}

impl<T: SealTypes> PeerStateView<T> {
    /// The state after an event.
    pub open spec fn after(self, e: Event<T>) -> PeerStateView<T> {
        match e {
            Event::Submission { client, hash, route, xact, now } => self.add_xact(
                client,
                hash,
                route,
                xact,
                now,
            ),
            Event::Outcome { hash, lin_point, res, now } => self.add_result(
                hash,
                lin_point,
                res,
                now,
            ),
            Event::Failure { hash, error, now } => self.add_error(hash, error, now),
            Event::Round { round, hashes, seals, now } => self.add_seal(round, hashes, seals, now),
            Event::PollConsensus { now, delays } => self.submit_commits(now, delays),
            Event::PollProcessor {
                target,
                now,
                delays,
                round_delays,
            } => self.submit_precommits(target, now, delays).send_rounds(target, now, round_delays),
            Event::PollClient { hashes, client, now, delays } => self.serve_client(
                hashes,
                client,
                now,
                delays,
            ),
        }
    }

    /// Whether every transaction that is tried without a round declares that it has
    /// no effects.
    pub open spec fn effects_wait(self) -> bool {
        forall|h: T::HashID| #[trigger]
            self.pending(h) && self.xacts[h].state->stage is PreCommit ==> !(
            self.xacts[h].state->xact.effects is Effects)
    }

    /// Whether every pending transaction is for the processor that the table of
    /// processors gives for its class and instance.
    pub open spec fn routed(self) -> bool {
        forall|h: T::HashID| #[trigger]
            self.pending(h) ==> {
                let xact = self.xacts[h].state->xact;
                &&& self.processors.contains_key(xact.class)
                &&& self.processors[xact.class].instances@.contains_key(xact.instance)
                &&& self.xacts[h].state->processor
                    == self.processors[xact.class].instances@[xact.instance].processor
            }
    }
}

/// The state is consistent, whatever happens.
pub proof fn law_state_stays_consistent<T: SealTypes>(s: PeerStateView<T>, e: Event<T>)
    requires
        s.wf(),
    ensures
        s.after(e).wf(),
{
    match e {
        Event::Submission { client, hash, route, xact, now } => {
            match route {
                Ok(processor) => lemma_add_routed_wf(s, client, hash, processor, xact, now),
                Err(_) => {},
            }
        },
        Event::Round { round, hashes, seals, now } => {
            lemma_add_seal_wf(s, round, hashes, seals, now);
        },
        Event::PollProcessor { target, now, delays, round_delays } => {
            let tried = s.submit_precommits(target, now, delays);
            assert(tried.wf());
            lemma_send_rounds_wf(tried, target, now, round_delays);
        },
        _ => {},
    }
}

/// The processors, the time for which transactions are remembered and the retry
/// policies never change.
pub proof fn law_configuration_is_fixed<T: SealTypes>(s: PeerStateView<T>, e: Event<T>)
    ensures
        s.after(e).processors == s.processors,
        s.after(e).tombstone_duration == s.tombstone_duration,
        s.after(e).retry == s.retry,
        s.after(e).resubmit == s.resubmit,
{
}

/// A transaction that is over never becomes pending again.
pub proof fn law_over_stays_over<T: SealTypes>(s: PeerStateView<T>, e: Event<T>, h: T::HashID)
    requires
        s.xacts.contains_key(h),
        s.xacts[h].state !is Pending,
        s.after(e).xacts.contains_key(h),
    ensures
        s.after(e).xacts[h].state !is Pending,
{
}

/// What a complete transaction has returned is never replaced by another result: it
/// stays as it is, unless its processor contradicts it with an error.
pub proof fn law_first_result_stands<T: SealTypes>(s: PeerStateView<T>, e: Event<T>, h: T::HashID)
    requires
        s.xacts.contains_key(h),
        s.xacts[h].state is Complete,
        s.after(e).xacts.contains_key(h),
        !(e matches Event::Failure { hash, .. } && hash == h),
    ensures
        s.after(e).xacts[h].state == s.xacts[h].state,
{
}

/// A transaction is forgotten only when its time is over, while a client that is to
/// be told of it is told.
pub proof fn law_only_expiry_removes<T: SealTypes>(s: PeerStateView<T>, e: Event<T>, h: T::HashID)
    requires
        s.xacts.contains_key(h),
        !s.after(e).xacts.contains_key(h),
    ensures
        e matches Event::PollClient { hashes, client, now, .. } && s.client_due(
            hashes,
            client,
            now,
        ).contains(h) && s.xacts[h].state.expired(now),
{
}

/// A transaction comes into being only when a client submits it.
pub proof fn law_only_submission_adds<T: SealTypes>(s: PeerStateView<T>, e: Event<T>, h: T::HashID)
    requires
        !s.xacts.contains_key(h),
        s.after(e).xacts.contains_key(h),
    ensures
        e matches Event::Submission { client, hash, now, .. } && hash == h && s.after(
            e,
        ).xacts[h].due(client, now),
{
}

/// While a transaction is pending, neither what it asks for nor its processor
/// changes.
pub proof fn law_pending_keeps_its_request<T: SealTypes>(
    s: PeerStateView<T>,
    e: Event<T>,
    h: T::HashID,
)
    requires
        s.pending(h),
        s.after(e).pending(h),
    ensures
        s.after(e).xacts[h].state->processor == s.xacts[h].state->processor,
        s.after(e).xacts[h].state->xact == s.xacts[h].state->xact,
{
}

/// A transaction that a round has committed is never tried without a round, nor
/// submitted to consensus, again.
pub proof fn law_committed_stays_committed<T: SealTypes>(
    s: PeerStateView<T>,
    e: Event<T>,
    h: T::HashID,
)
    requires
        s.pending(h),
        s.xacts[h].state->stage is Process,
        s.after(e).pending(h),
    ensures
        s.after(e).xacts[h].state->stage is Process,
{
}

/// Only a round commits a transaction.
pub proof fn law_only_rounds_commit<T: SealTypes>(s: PeerStateView<T>, e: Event<T>, h: T::HashID)
    requires
        s.pending(h),
        !(s.xacts[h].state->stage is Process),
        s.after(e).pending(h),
        s.after(e).xacts[h].state->stage is Process,
    ensures
        e matches Event::Round { round, hashes, .. } && hashes.contains(h)
            && s.after(e).xacts[h].state->stage->lin_point.round == round,
{
}

/// A transaction with effects is never tried without a round.
pub proof fn law_effects_wait_for_consensus<T: SealTypes>(s: PeerStateView<T>, e: Event<T>)
    requires
        s.effects_wait(),
    ensures
        s.after(e).effects_wait(),
{
    let t = s.after(e);
    assert forall|h: T::HashID| #[trigger]
        t.pending(h) && t.xacts[h].state->stage is PreCommit implies !(
    t.xacts[h].state->xact.effects is Effects) by {
        if s.xacts.contains_key(h) {
            assert(s.pending(h));
        }
    }
}

/// Every pending transaction is for the processor that the table of processors gives
/// for its class and instance, whatever happens; what is submitted goes where the
/// search for a processor says.
pub proof fn law_pending_is_routed_by_the_table<
    T: SealTypes,
    G: Fn(&T::VersionRange, &T::Version) -> bool,
>(s: PeerStateView<T>, e: Event<T>, accepts: G)
    requires
        s.routed(),
        e matches Event::Submission { route, xact, .. } ==> s.routes(
            accepts,
            xact.class,
            xact.version,
            xact.instance,
            route,
        ),
    ensures
        s.after(e).routed(),
{
    let t = s.after(e);
    assert forall|h: T::HashID| #[trigger] t.pending(h) implies {
        let xact = t.xacts[h].state->xact;
        &&& t.processors.contains_key(xact.class)
        &&& t.processors[xact.class].instances@.contains_key(xact.instance)
        &&& t.xacts[h].state->processor
            == t.processors[xact.class].instances@[xact.instance].processor
    } by {
        if s.xacts.contains_key(h) {
            assert(s.pending(h));
        }
    }
}

/// What is tried without a round declares that it has no effects.
pub proof fn law_trials_have_no_effects<T: SealTypes>(
    s: PeerStateView<T>,
    target: ProcessorIdx,
    now: Instant,
    h: T::HashID,
)
    requires
        s.effects_wait(),
        s.precommit_due(target, now).contains(h),
    ensures
        s.pending(h),
        !(s.xacts[h].state->xact.effects is Effects),
{
    assert(s.pending(h));
}

/// A transaction that rounds lack is recorded by a round and found by its
/// submission, and in no other way.
pub proof fn law_missing_transactions<T: SealTypes>(s: PeerStateView<T>, e: Event<T>, h: T::HashID)
    ensures
        !s.missing.contains_key(h) && s.after(e).missing.contains_key(h) ==> (e matches Event::Round {
            hashes,
            ..
        } && hashes.contains(h) && !s.xacts.contains_key(h)),
        s.missing.contains_key(h) && !s.after(e).missing.contains_key(h) ==> (
        e matches Event::Submission { hash, route, .. } && hash == h && route is Ok),
{
}

} // verus!
