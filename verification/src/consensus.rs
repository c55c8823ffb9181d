//! The session with consensus: it is handed transactions and reports the rounds in
//! which they are committed.
use crate::model::PeerStateView;
use crate::peer_xact::can_delay;
use crate::state::PeerState;
use crate::time::is_earliest;
use crate::time::Duration;
use crate::time::Instant;
use crate::types::SealTypes;
use crate::xact::ConsensusCtl;
use crate::xact::XactConsensusSeal;
use vstd::prelude::*;

verus! {

/// The messages that come from consensus.
pub struct ConsensusRecv;

/// The messages that go to consensus.
pub struct ConsensusMsgs;

/// The state after a message from consensus: a round is recorded, with no seals
/// where it comes without; anything else is passed over.
pub open spec fn add_ctl<T: SealTypes>(
    s: PeerStateView<T>,
    msg: ConsensusCtl<T>,
    now: Instant,
) -> PeerStateView<T> {
    match msg {
        ConsensusCtl::Round(round) => s.add_seal(
            round.round,
            round.hashes@,
            match round.seals {
                Some(seals) => seals@,
                None => Seq::empty(),
            },
            now,
        ),
        ConsensusCtl::Submit(_) => s,
    }
}

impl ConsensusRecv {
    /// Take a message from consensus.  Returns whether those who wait for changes
    /// are to be notified.
    pub fn recv_auth_msg<T: SealTypes>(
        &self,
        state: &mut PeerState<T>,
        msg: ConsensusCtl<T>,
        now: Instant,
    ) -> (notify: bool)
        requires
            old(state).wf(),
            msg matches ConsensusCtl::Round(round) ==> round.hashes@.len() <= usize::MAX / 8,
        ensures
            final(state).wf(),
            final(state)@ == add_ctl(old(state)@, msg, now),
            notify == (msg matches ConsensusCtl::Round(round)
                && !old(state)@.seals.contains_key(round.round.0)),
    {
        match msg {
            ConsensusCtl::Round(round) => {
                let seals = match round.seals {
                    Some(seals) => seals,
                    None => vec![],
                };
                state.add_consensus_seal(
                    round.round,
                    XactConsensusSeal { hashes: round.hashes, seals },
                    now,
                )
            },
            ConsensusCtl::Submit(_) => false,
        }
    }
}

impl ConsensusMsgs {
    /// Collect the message that is to be sent to consensus, and the time at which to
    /// do so again; there is neither where there is nothing to submit.
    pub fn add_msgs<T: SealTypes, F: Fn(&T::Retry, usize) -> Duration>(
        &self,
        state: &mut PeerState<T>,
        now: Instant,
        retry_delay: &F,
    ) -> (r: (Option<ConsensusCtl<T>>, Option<Instant>))
        requires
            old(state).wf(),
            old(state)@.xacts_can_retry(),
            can_delay(*retry_delay, old(state)@.resubmit, now),
        ensures
            final(state).wf(),
            exists|delays: Map<T::HashID, Duration>|
                {
                    &&& #[trigger] old(state)@.stage_delays(
                        old(state)@.commit_due(now),
                        *retry_delay,
                        delays,
                    )
                    &&& final(state)@ == old(state)@.submit_commits(now, delays)
                },
            match r.0 {
                Some(msg) => {
                    &&& msg matches ConsensusCtl::Submit(submit)
                    &&& PeerStateView::submits(old(state)@.commit_due(now), Some(submit))
                    &&& is_earliest(r.1, old(state)@.commit_times())
                },
                None => {
                    &&& r.1 is None
                    &&& PeerStateView::<T>::submits(old(state)@.commit_due(now), None)
                },
            },
    {
        let (submit, next) = state.get_consensus_msgs(now, retry_delay);
        match submit {
            Some(submit) => (Some(ConsensusCtl::Submit(submit)), next),
            None => (None, None),
        }
    }
}

/// A message from consensus counts only if it is a round that is new.  It is then
/// recorded with its transactions in their order and with its seals, or with none, and
/// commits every transaction in it that is pending.
pub proof fn law_only_rounds_count<T: SealTypes>(
    s: PeerStateView<T>,
    msg: ConsensusCtl<T>,
    now: Instant,
    h: T::HashID,
)
    requires
        msg matches ConsensusCtl::Round(round) ==> round.hashes@.len() <= usize::MAX,
    ensures
        ({
            let t = add_ctl(s, msg, now);
            match msg {
                ConsensusCtl::Submit(_) => t == s,
                ConsensusCtl::Round(round) => if s.seals.contains_key(round.round.0) {
                    t == s
                } else {
                    let new = t.seals[round.round.0];
                    &&& t.seals.contains_key(round.round.0)
                    &&& new.hashes == round.hashes@
                    &&& round.seals is Some ==> new.seals == round.seals->0@
                    &&& round.seals is None ==> new.seals.len() == 0
                    &&& s.xacts.contains_key(h) && s.xacts[h].state is Pending
                        && round.hashes@.contains(h) ==> {
                        &&& t.xacts[h].state is Pending
                        &&& t.xacts[h].state->stage is Process
                        &&& t.xacts[h].state->stage->lin_point.round == round.round
                        &&& round.hashes@[t.xacts[h].state->stage->lin_point.idx as int] == h
                    }
                    &&& !s.xacts.contains_key(h) && round.hashes@.contains(h)
                        ==> t.missing.contains_key(h) && t.missing[h] == round.round
                },
            }
        }),
{
    match msg {
        ConsensusCtl::Round(round) => {
            if !s.seals.contains_key(round.round.0) {
                let seals = match round.seals {
                    Some(seals) => seals@,
                    None => Seq::empty(),
                };
                crate::guarantees::law_rounds_commit(
                    s,
                    round.round,
                    round.hashes@,
                    seals,
                    now,
                    h,
                );
            }
        },
        ConsensusCtl::Submit(_) => {},
    }
}

} // verus!
