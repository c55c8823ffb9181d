//! What the peer's state holds, and how each event changes it.
use crate::ids::ConsensusRoundID;
use crate::ids::ProcessorIdx;
use crate::keys::lists;
use crate::peer_xact::delays_by;
use crate::peer_xact::PeerReport;
use crate::peer_xact::PeerReportKind;
use crate::peer_xact::PeerXactState;
use crate::peer_xact::PeerXactView;
use crate::peer_xact::PendingXact;
use crate::peer_xact::PendingXactStage;
use crate::seal_entry::ConsensusSealRetry;
use crate::seal_entry::ConsensusSealView;
use crate::time::reached;
use crate::time::Duration;
use crate::time::Instant;
use crate::types::SealTypes;
use crate::xact::ConsensusCtlSubmit;
use crate::xact::XactCommittedRound;
use crate::xact::XactEffects;
use crate::xact::XactError;
use crate::xact::XactLinPoint;
use crate::xact::XactNotify;
use crate::xact::XactSealed;
use std::collections::HashMap;
use vstd::prelude::*;

verus! {

/// The processor of one instance of a transaction class.
pub struct InstanceEntry<R> {
    /// Local processor ID.
    pub processor: ProcessorIdx,
    /// Supported versions.
    pub versions: Vec<R>,
}

/// The processors of a transaction class.
pub struct ProcessorEntry<R> {
    /// Local processor IDs for all specific instances.
    pub instances: HashMap<u64, InstanceEntry<R>>,
}

/// The content of a peer's state.
pub struct PeerStateView<T: SealTypes> {
    /// Current state of transactions.
    pub xacts: Map<T::HashID, PeerXactView<T>>,
    /// Pending consensus seals.
    pub seals: Map<u128, ConsensusSealView<T>>,
    /// Record of missing transactions in rounds.
    pub missing: Map<T::HashID, ConsensusRoundID>,
    /// Map from service information to local processor IDs.
    pub processors: Map<u128, ProcessorEntry<T::VersionRange>>,
    /// Period at which tombstones should be expired.
    pub tombstone_duration: Duration,
    /// Retry configuration.
    pub retry: T::Retry,
    /// Resubmission configuration.
    pub resubmit: T::Retry,
}

/// What to do when a result or an error is recorded.
#[derive(Clone, Copy, Debug, PartialEq, Eq, Structural)]
pub enum ResultState {
    /// The result can be reported.
    Accept,
    /// The message is just ignored.
    Ignore,
    /// Something went wrong, and an internal error should be reported.
    Fail,
}

/// The index at which `h` first occurs.
pub open spec fn first_index<H>(hashes: Seq<H>, h: H) -> int {
    choose|i: int| #[trigger] is_first_index(hashes, h, i)
}

/// Whether `h` occurs at `i` and nowhere before.
pub open spec fn is_first_index<H>(hashes: Seq<H>, h: H, i: int) -> bool {
    &&& 0 <= i < hashes.len()
    &&& hashes[i] == h
    &&& forall|j: int| 0 <= j < i ==> hashes[j] != h
}

/// The index at which `h` last occurs.
pub open spec fn last_index<H>(hashes: Seq<H>, h: H) -> int {
    choose|i: int| #[trigger] is_last_index(hashes, h, i)
}

/// Whether `h` occurs at `i` and nowhere after.
pub open spec fn is_last_index<H>(hashes: Seq<H>, h: H, i: int) -> bool {
    &&& 0 <= i < hashes.len()
    &&& hashes[i] == h
    &&& forall|j: int| i < j < hashes.len() ==> hashes[j] != h
}

/// The stage at which a new transaction starts: one with effects goes straight to
/// consensus, any other is tried without a round.
pub open spec fn first_stage(effects: XactEffects<Seq<u8>>, now: Instant) -> PendingXactStage {
    match effects {
        XactEffects::Effects { .. } => PendingXactStage::Commit {
            submitted: false,
            when: Some(now),
            nretries: 0,
        },
        _ => PendingXactStage::PreCommit { dispatched: false, when: Some(now), nretries: 0 },
    }
}

/// An entry for a transaction that one client has just submitted.
pub open spec fn fresh<T: SealTypes>(
    state: PeerXactState<T, Seq<u8>>,
    client: T::Prin,
    now: Instant,
) -> PeerXactView<T> {
    PeerXactView {
        reporting: Map::empty().insert(
            client,
            PeerReport { kind: PeerReportKind::Result, when: Some(now), nretries: 0 },
        ),
        state,
    }
}

impl<T: SealTypes> PeerXactState<T, Seq<u8>> {
    /// What to do with a result for a transaction in this state.  A result is
    /// accepted of a transaction that was dispatched, at the linearization point
    /// that was asked for, if any.
    pub open spec fn check_result(self, lin_point: XactLinPoint) -> ResultState {
        match self {
            PeerXactState::Pending { stage, xact, .. } => {
                let accepted = match stage {
                    PendingXactStage::PreCommit { dispatched, .. } => dispatched
                        && !(xact.effects matches XactEffects::HardNone { when: Some(requested) }
                        && requested != lin_point),
                    PendingXactStage::Commit { .. } => false,
                    PendingXactStage::Process {
                        dispatched,
                        lin_point: requested,
                    } => dispatched && requested == lin_point,
                };
                if accepted {
                    ResultState::Accept
                } else {
                    ResultState::Fail
                }
            },
            PeerXactState::Complete { .. } => ResultState::Ignore,
            PeerXactState::Error { .. } => ResultState::Fail,
        }
    }

    /// What to do with an error for a transaction in this state.  An error is
    /// accepted of a transaction that was dispatched.
    pub open spec fn check_error(self) -> ResultState {
        match self {
            PeerXactState::Pending { stage, .. } => {
                let accepted = match stage {
                    PendingXactStage::PreCommit { dispatched, .. } => dispatched,
                    PendingXactStage::Commit { .. } => false,
                    PendingXactStage::Process { dispatched, .. } => dispatched,
                };
                if accepted {
                    ResultState::Accept
                } else {
                    ResultState::Fail
                }
            },
            PeerXactState::Complete { .. } => ResultState::Fail,
            PeerXactState::Error { .. } => ResultState::Ignore,
        }
    }

    /// When a transaction that waits for consensus is to be submitted.
    pub open spec fn commit_time(self) -> Option<Instant> {
        match self {
            PeerXactState::Pending { stage: PendingXactStage::Commit { when, .. }, .. } => when,
            _ => None,
        }
    }

    /// When a transaction is to be tried without a round by the processor
    /// `target`.
    pub open spec fn precommit_time(self, target: ProcessorIdx) -> Option<Instant> {
        match self {
            PeerXactState::Pending {
                processor,
                stage: PendingXactStage::PreCommit { when, .. },
                ..
            } if processor == target => when,
            _ => None,
        }
    }

    /// How often the present stage has been retried.
    pub open spec fn stage_retries(self) -> usize {
        match self {
            PeerXactState::Pending {
                stage: PendingXactStage::PreCommit { nretries, .. },
                ..
            } => nretries,
            PeerXactState::Pending {
                stage: PendingXactStage::Commit { nretries, .. },
                ..
            } => nretries,
            _ => 0,
        }
    }
}

impl<T: SealTypes> PeerXactView<T> {
    /// The entry in another state, of which every client is to be told at once.
    pub open spec fn moved(self, state: PeerXactState<T, Seq<u8>>, now: Instant) -> PeerXactView<
        T,
    > {
        PeerXactView { reporting: self.reporting, state }.reset(now)
    }

    /// The entry after it was submitted to consensus or dispatched without a round;
    /// the next attempt is due at `next`.
    pub open spec fn attempted(self, now: Instant, next: Instant) -> PeerXactView<T> {
        match self.state {
            PeerXactState::Pending { processor, stage, xact } => self.moved(
                PeerXactState::Pending {
                    processor,
                    stage: match stage {
                        PendingXactStage::PreCommit { nretries, .. } => PendingXactStage::PreCommit {
                            dispatched: true,
                            when: Some(next),
                            nretries: (nretries + 1) as usize,
                        },
                        PendingXactStage::Commit { nretries, .. } => PendingXactStage::Commit {
                            submitted: true,
                            when: Some(next),
                            nretries: (nretries + 1) as usize,
                        },
                        PendingXactStage::Process { .. } => stage,
                    },
                    xact,
                },
                now,
            ),
            _ => self,
        }
    }

    /// The entry after a round has committed it at `lin_point`.
    pub open spec fn committed(self, lin_point: XactLinPoint, now: Instant) -> PeerXactView<T> {
        match self.state {
            PeerXactState::Pending { processor, xact, .. } => self.moved(
                PeerXactState::Pending {
                    processor,
                    stage: PendingXactStage::Process { dispatched: false, lin_point },
                    xact,
                },
                now,
            ),
            _ => self,
        }
    }

    /// Whether `sealed` asks for this transaction, whose hash is `h`.
    pub open spec fn asked_uncommitted(self, h: T::HashID, sealed: XactSealed<T>) -> bool {
        &&& self.state matches PeerXactState::Pending { xact, .. }
        &&& cloned(xact.seal, sealed.seal)
        &&& sealed.req.hash == h
        &&& sealed.req.class == xact.class
        &&& cloned(xact.version, sealed.req.version)
        &&& sealed.req.instance == xact.instance
        &&& sealed.req.payload@ == xact.payload
        &&& sealed.req.effects@ == xact.effects
    }
}

impl<T: SealTypes> ConsensusSealView<T> {
    /// When the round is to be sent to the processor `target`.
    pub open spec fn send_time(self, target: ProcessorIdx) -> Option<Instant> {
        if self.retries.contains_key(target.0) {
            self.retries[target.0].when
        } else {
            None
        }
    }

    /// Whether the round is due for the processor `target`.
    pub open spec fn send_due(self, target: ProcessorIdx, now: Instant) -> bool {
        self.send_time(target) matches Some(t) && t.nanos < now.nanos
    }

    /// The round after the processor `target` was served: the transactions that
    /// are over are marked, and the next time is `next`, or none where there was
    /// nothing to send.
    pub open spec fn sent(
        self,
        xacts: Map<T::HashID, PeerXactView<T>>,
        target: ProcessorIdx,
        next: Instant,
    ) -> ConsensusSealView<T> {
        let retry = self.retries[target.0];
        ConsensusSealView {
            retries: self.retries.insert(
                target.0,
                if self.dispatches_any(xacts, target) {
                    ConsensusSealRetry {
                        nretries: (retry.nretries + 1) as usize,
                        when: Some(next),
                    }
                } else {
                    ConsensusSealRetry { nretries: retry.nretries, when: None }
                },
            ),
            ..self.marked(xacts)
        }
    }

    /// The round after its transaction at index `i` has become known; the processor
    /// `p` is to be served at once.
    pub open spec fn learned(self, i: int, p: ProcessorIdx, now: Instant) -> ConsensusSealView<T> {
        ConsensusSealView {
            known: self.known.update(i, true),
            retries: self.retries.insert(
                p.0,
                ConsensusSealRetry {
                    nretries: if self.retries.contains_key(p.0) {
                        self.retries[p.0].nretries
                    } else {
                        0
                    },
                    when: Some(now),
                },
            ),
            ..self
        }
    }
}

impl<T: SealTypes> PeerStateView<T> {
    /// Every round is well formed, and every transaction that is recorded as
    /// missing occurs in the round that it is recorded for, where it is not known
    /// anywhere.
    pub open spec fn wf(self) -> bool {
        &&& forall|r: u128| #[trigger] self.seals.contains_key(r) ==> self.seals[r].wf()
        &&& forall|h: T::HashID| #[trigger]
            self.missing.contains_key(h) ==> {
                &&& self.seals.contains_key(self.missing[h].0)
                &&& self.seals[self.missing[h].0].lacks(h)
            }
    }

    /// Whether no retry counter of a transaction is at the end of its range.
    pub open spec fn xacts_can_retry(self) -> bool {
        forall|h: T::HashID| #[trigger]
            self.xacts.contains_key(h) ==> self.xacts[h].can_retry()
    }

    /// Whether no retry counter of a round is at the end of its range.
    pub open spec fn rounds_can_retry(self) -> bool {
        forall|r: u128| #[trigger] self.seals.contains_key(r) ==> self.seals[r].can_retry()
    }

    /// Whether no retry counter is at the end of its range.
    pub open spec fn can_retry(self) -> bool {
        self.xacts_can_retry() && self.rounds_can_retry()
    }

    /// Whether `r` is an answer to the question which processor takes a
    /// transaction of the given class, version and instance, where `accepts` says
    /// whether a range contains a version.
    pub open spec fn routes<G: Fn(&T::VersionRange, &T::Version) -> bool>(
        self,
        accepts: G,
        class: u128,
        version: T::Version,
        instance: u64,
        r: Result<ProcessorIdx, XactError<Seq<u8>>>,
    ) -> bool {
        if !self.processors.contains_key(class) {
            r == Err::<ProcessorIdx, XactError<Seq<u8>>>(XactError::UnknownClass)
        } else if !self.processors[class].instances@.contains_key(instance) {
            r == Err::<ProcessorIdx, XactError<Seq<u8>>>(XactError::UnknownInstance)
        } else {
            let entry = self.processors[class].instances@[instance];
            match r {
                Ok(p) => {
                    &&& p == entry.processor
                    &&& exists|i: int|
                        0 <= i < entry.versions@.len() && call_ensures(
                            accepts,
                            (&#[trigger] entry.versions@[i], &version),
                            true,
                        )
                },
                Err(e) => {
                    &&& e == XactError::<Seq<u8>>::UnknownVersion
                    &&& forall|i: int|
                        0 <= i < entry.versions@.len() ==> call_ensures(
                            accepts,
                            (&#[trigger] entry.versions@[i], &version),
                            false,
                        )
                },
            }
        }
    }

    /// A client has submitted a transaction for which there is a processor.
    ///
    /// A transaction that is already here gets one more subscriber.  One that a
    /// round has committed before it came takes its place in that round.  Any other
    /// starts at its first stage.
    pub open spec fn add_routed(
        self,
        client: T::Prin,
        hash: T::HashID,
        processor: ProcessorIdx,
        xact: PendingXact<T, Seq<u8>>,
        now: Instant,
    ) -> PeerStateView<T> {
        if self.xacts.contains_key(hash) {
            PeerStateView {
                xacts: self.xacts.insert(hash, self.xacts[hash].subscribed(client, now)),
                ..self
            }
        } else if self.missing.contains_key(hash) {
            let round = self.missing[hash];
            let seal = self.seals[round.0];
            let i = first_index(seal.hashes, hash);
            PeerStateView {
                xacts: self.xacts.insert(
                    hash,
                    fresh(
                        PeerXactState::Pending {
                            processor,
                            stage: PendingXactStage::Process {
                                dispatched: false,
                                lin_point: XactLinPoint { round, idx: i as usize },
                            },
                            xact,
                        },
                        client,
                        now,
                    ),
                ),
                seals: self.seals.insert(round.0, seal.learned(i, processor, now)),
                missing: self.missing.remove(hash),
                ..self
            }
        } else {
            PeerStateView {
                xacts: self.xacts.insert(
                    hash,
                    fresh(
                        PeerXactState::Pending {
                            processor,
                            stage: first_stage(xact.effects, now),
                            xact,
                        },
                        client,
                        now,
                    ),
                ),
                ..self
            }
        }
    }

    /// A client has submitted a transaction for which there is no processor: the
    /// error is recorded, unless the transaction is already here.
    pub open spec fn add_rejected(
        self,
        client: T::Prin,
        hash: T::HashID,
        error: XactError<Seq<u8>>,
        now: Instant,
    ) -> PeerStateView<T> {
        if self.xacts.contains_key(hash) {
            self
        } else {
            PeerStateView {
                xacts: self.xacts.insert(
                    hash,
                    fresh(
                        PeerXactState::Error { error, expire: now.plus(self.tombstone_duration) },
                        client,
                        now,
                    ),
                ),
                ..self
            }
        }
    }

    /// A client has submitted a transaction, and `route` is what the search for a
    /// processor gave.
    pub open spec fn add_xact(
        self,
        client: T::Prin,
        hash: T::HashID,
        route: Result<ProcessorIdx, XactError<Seq<u8>>>,
        xact: PendingXact<T, Seq<u8>>,
        now: Instant,
    ) -> PeerStateView<T> {
        match route {
            Ok(processor) => self.add_routed(client, hash, processor, xact, now),
            Err(error) => self.add_rejected(client, hash, error, now),
        }
    }

    /// The transaction `hash` is over with an error.
    pub open spec fn fail(self, hash: T::HashID, error: XactError<Seq<u8>>, now: Instant) -> PeerStateView<
        T,
    > {
        PeerStateView {
            xacts: self.xacts.insert(
                hash,
                self.xacts[hash].moved(
                    PeerXactState::Error { error, expire: now.plus(self.tombstone_duration) },
                    now,
                ),
            ),
            ..self
        }
    }

    /// What is to be done with a result for the transaction `hash`.
    pub open spec fn result_check(self, hash: T::HashID, lin_point: XactLinPoint) -> ResultState {
        if self.xacts.contains_key(hash) {
            self.xacts[hash].state.check_result(lin_point)
        } else {
            ResultState::Ignore
        }
    }

    /// What is to be done with an error for the transaction `hash`.
    pub open spec fn error_check(self, hash: T::HashID) -> ResultState {
        if self.xacts.contains_key(hash) {
            self.xacts[hash].state.check_error()
        } else {
            ResultState::Ignore
        }
    }

    /// A processor has reported the result of a transaction.
    pub open spec fn add_result(
        self,
        hash: T::HashID,
        lin_point: XactLinPoint,
        res: Seq<u8>,
        now: Instant,
    ) -> PeerStateView<T> {
        match self.result_check(hash, lin_point) {
            ResultState::Accept => PeerStateView {
                xacts: self.xacts.insert(
                    hash,
                    self.xacts[hash].moved(
                        PeerXactState::Complete {
                            res,
                            lin_point,
                            expire: now.plus(self.tombstone_duration),
                        },
                        now,
                    ),
                ),
                ..self
            },
            ResultState::Fail => self.fail(hash, XactError::Internal, now),
            ResultState::Ignore => self,
        }
    }

    /// A processor has reported that a transaction failed.
    pub open spec fn add_error(
        self,
        hash: T::HashID,
        error: XactError<Seq<u8>>,
        now: Instant,
    ) -> PeerStateView<T> {
        match self.error_check(hash) {
            ResultState::Accept => self.fail(hash, error, now),
            ResultState::Fail => self.fail(hash, XactError::Internal, now),
            ResultState::Ignore => self,
        }
    }

    /// Whether `h` is here and neither complete nor failed.
    pub open spec fn pending(self, h: T::HashID) -> bool {
        self.xacts.contains_key(h) && self.xacts[h].state is Pending
    }

    /// A new round, as it is recorded when its seal arrives.
    pub open spec fn new_round(
        self,
        hashes: Seq<T::HashID>,
        seals: Seq<T::Seal>,
        now: Instant,
    ) -> ConsensusSealView<T> {
        ConsensusSealView {
            hashes,
            seals,
            completed: Seq::new(hashes.len(), |i: int| false),
            known: Seq::new(hashes.len(), |i: int| self.xacts.contains_key(hashes[i])),
            retries: Map::new(
                |p: usize| exists|i: int| self.round_uses(hashes, i, p),
                |p: usize| ConsensusSealRetry { nretries: 0, when: Some(now) },
            ),
        }
    }

    /// Whether the `i`th of `hashes` is pending and is for the processor `p`.
    pub open spec fn round_uses(self, hashes: Seq<T::HashID>, i: int, p: usize) -> bool {
        &&& 0 <= i < hashes.len()
        &&& self.xacts.contains_key(hashes[i])
        &&& self.xacts[hashes[i]].state matches PeerXactState::Pending { processor, .. }
            && processor.0 == p
    }

    /// Consensus has committed a round.  Every pending transaction in it is ready
    /// to be processed, and the transactions that are not here are missing.  A
    /// round that was seen before changes nothing.
    pub open spec fn add_seal(
        self,
        round: ConsensusRoundID,
        hashes: Seq<T::HashID>,
        seals: Seq<T::Seal>,
        now: Instant,
    ) -> PeerStateView<T> {
        if self.seals.contains_key(round.0) {
            self
        } else {
            PeerStateView {
                xacts: Map::new(
                    |h: T::HashID| self.xacts.contains_key(h),
                    |h: T::HashID|
                        if hashes.contains(h) {
                            self.xacts[h].committed(
                                XactLinPoint { round, idx: last_index(hashes, h) as usize },
                                now,
                            )
                        } else {
                            self.xacts[h]
                        },
                ),
                missing: Map::new(
                    |h: T::HashID|
                        self.missing.contains_key(h) || (hashes.contains(h)
                            && !self.xacts.contains_key(h)),
                    |h: T::HashID|
                        if hashes.contains(h) && !self.xacts.contains_key(h) {
                            round
                        } else {
                            self.missing[h]
                        },
                ),
                seals: self.seals.insert(round.0, self.new_round(hashes, seals, now)),
                ..self
            }
        }
    }

    /// The times at which transactions are to be submitted to consensus.
    pub open spec fn commit_times(self) -> Set<Instant> {
        Set::new(
            |t: Instant|
                exists|h: T::HashID| #[trigger]
                    self.xacts.contains_key(h) && self.xacts[h].state.commit_time() == Some(t),
        )
    }

    /// The transactions that are to be submitted to consensus.
    pub open spec fn commit_due(self, now: Instant) -> Set<T::HashID> {
        Set::new(
            |h: T::HashID|
                self.xacts.contains_key(h) && reached(self.xacts[h].state.commit_time(), now),
        )
    }

    /// Every transaction that is due has been submitted to consensus, and the next
    /// attempt is due after `delays`.
    pub open spec fn submit_commits(self, now: Instant, delays: Map<T::HashID, Duration>) -> PeerStateView<
        T,
    > {
        PeerStateView {
            xacts: Map::new(
                |h: T::HashID| self.xacts.contains_key(h),
                |h: T::HashID|
                    if self.commit_due(now).contains(h) {
                        self.xacts[h].attempted(now, now.plus(delays[h]))
                    } else {
                        self.xacts[h]
                    },
            ),
            ..self
        }
    }

    /// Whether `retry_delay` gave `delays` for the transactions in `due`.
    pub open spec fn stage_delays<F: Fn(&T::Retry, usize) -> Duration>(
        self,
        due: Set<T::HashID>,
        retry_delay: F,
        delays: Map<T::HashID, Duration>,
    ) -> bool {
        forall|h: T::HashID| #[trigger]
            due.contains(h) ==> delays_by(
                retry_delay,
                self.resubmit,
                self.xacts[h].state.stage_retries(),
                delays[h],
            )
    }

    /// Whether `msg` submits exactly the transactions in `due`; there is no message
    /// where there are none.
    pub open spec fn submits(due: Set<T::HashID>, msg: Option<ConsensusCtlSubmit<T>>) -> bool {
        match msg {
            Some(submit) => submit.hashes@.len() > 0 && lists(submit.hashes@, due),
            None => forall|h: T::HashID| !#[trigger] due.contains(h),
        }
    }

    /// The times at which transactions are to be tried without a round by the
    /// processor `target`.
    pub open spec fn precommit_times(self, target: ProcessorIdx) -> Set<Instant> {
        Set::new(
            |t: Instant|
                exists|h: T::HashID| #[trigger]
                    self.xacts.contains_key(h) && self.xacts[h].state.precommit_time(target)
                        == Some(t),
        )
    }

    /// The transactions that are to be tried without a round by the processor
    /// `target`.
    pub open spec fn precommit_due(self, target: ProcessorIdx, now: Instant) -> Set<T::HashID> {
        Set::new(
            |h: T::HashID|
                self.xacts.contains_key(h) && reached(
                    self.xacts[h].state.precommit_time(target),
                    now,
                ),
        )
    }

    /// Every transaction that is due has been dispatched to the processor
    /// `target` without a round, and the next attempt is due after `delays`.
    pub open spec fn submit_precommits(
        self,
        target: ProcessorIdx,
        now: Instant,
        delays: Map<T::HashID, Duration>,
    ) -> PeerStateView<T> {
        PeerStateView {
            xacts: Map::new(
                |h: T::HashID| self.xacts.contains_key(h),
                |h: T::HashID|
                    if self.precommit_due(target, now).contains(h) {
                        self.xacts[h].attempted(now, now.plus(delays[h]))
                    } else {
                        self.xacts[h]
                    },
            ),
            ..self
        }
    }

    /// Whether `reqs` asks for exactly the transactions in `due`, each once.
    pub open spec fn asks_uncommitted(self, due: Set<T::HashID>, reqs: Seq<XactSealed<T>>) -> bool {
        &&& lists(reqs.map_values(|r: XactSealed<T>| r.req.hash), due)
        &&& forall|k: int|
            0 <= k < reqs.len() ==> self.xacts[(#[trigger] reqs[k]).req.hash].asked_uncommitted(
                reqs[k].req.hash,
                reqs[k],
            )
    }

    /// The times at which rounds are to be sent to the processor `target`.
    pub open spec fn send_times(self, target: ProcessorIdx) -> Set<Instant> {
        Set::new(
            |t: Instant|
                exists|r: u128| #[trigger]
                    self.seals.contains_key(r) && self.seals[r].send_time(target) == Some(t),
        )
    }

    /// Whether the round `r` is due for the processor `target`.
    pub open spec fn round_due(self, r: u128, target: ProcessorIdx, now: Instant) -> bool {
        self.seals.contains_key(r) && self.seals[r].send_due(target, now)
    }

    /// The rounds of which a part is sent to the processor `target`.
    pub open spec fn rounds_sent(self, target: ProcessorIdx, now: Instant) -> Set<u128> {
        Set::new(
            |r: u128|
                self.round_due(r, target, now) && self.seals[r].dispatches_any(self.xacts, target),
        )
    }

    /// Whether a due round hands the transaction `h` to the processor `target`.
    pub open spec fn round_dispatches(
        self,
        target: ProcessorIdx,
        now: Instant,
        h: T::HashID,
    ) -> bool {
        exists|r: u128| #[trigger]
            self.round_due(r, target, now) && self.seals[r].dispatches_hash(self.xacts, target, h)
    }

    /// The round `r` after the processor `target` was served.
    pub open spec fn round_after(
        self,
        r: u128,
        target: ProcessorIdx,
        now: Instant,
        delays: Map<u128, Duration>,
    ) -> ConsensusSealView<T> {
        if self.round_due(r, target, now) {
            self.seals[r].sent(self.xacts, target, now.plus(delays[r]))
        } else {
            self.seals[r]
        }
    }

    /// Every due round has been sent to the processor `target`; a round that the
    /// processor takes part in and that is complete is forgotten.
    pub open spec fn send_rounds(
        self,
        target: ProcessorIdx,
        now: Instant,
        delays: Map<u128, Duration>,
    ) -> PeerStateView<T> {
        PeerStateView {
            xacts: Map::new(
                |h: T::HashID| self.xacts.contains_key(h),
                |h: T::HashID|
                    if self.round_dispatches(target, now, h) {
                        self.xacts[h].dispatch()
                    } else {
                        self.xacts[h]
                    },
            ),
            seals: Map::new(
                |r: u128|
                    self.seals.contains_key(r) && !(self.seals[r].retries.contains_key(target.0)
                        && self.round_after(r, target, now, delays).all_completed()),
                |r: u128| self.round_after(r, target, now, delays),
            ),
            ..self
        }
    }

    /// Whether `retry_delay` gave `delays` for the rounds that were sent to the
    /// processor `target`.
    pub open spec fn round_delays<F: Fn(&T::Retry, usize) -> Duration>(
        self,
        target: ProcessorIdx,
        now: Instant,
        retry_delay: F,
        delays: Map<u128, Duration>,
    ) -> bool {
        forall|r: u128| #[trigger]
            self.rounds_sent(target, now).contains(r) ==> delays_by(
                retry_delay,
                self.resubmit,
                self.seals[r].retries[target.0].nretries,
                delays[r],
            )
    }

    /// Whether `rounds` holds exactly the parts of due rounds that are for the
    /// processor `target`, each round once.
    pub open spec fn asks_committed(
        self,
        target: ProcessorIdx,
        now: Instant,
        rounds: Seq<XactCommittedRound<T>>,
    ) -> bool {
        &&& lists(
            rounds.map_values(|r: XactCommittedRound<T>| r.round.0),
            self.rounds_sent(target, now),
        )
        &&& forall|k: int|
            0 <= k < rounds.len() ==> {
                &&& (#[trigger] rounds[k]).seal is None
                &&& self.seals[rounds[k].round.0].requests(self.xacts, target, rounds[k].reqs@)
            }
    }

    /// The subscriptions of a client for which a time is set.
    pub open spec fn client_awaits(self, hashes: Set<T::HashID>, client: T::Prin) -> Set<T::HashID> {
        Set::new(
            |h: T::HashID|
                hashes.contains(h) && self.xacts.contains_key(h) && self.xacts[h].awaits(client),
        )
    }

    /// The subscriptions of a client for which a message is due.
    pub open spec fn client_due(
        self,
        hashes: Set<T::HashID>,
        client: T::Prin,
        now: Instant,
    ) -> Set<T::HashID> {
        Set::new(
            |h: T::HashID|
                hashes.contains(h) && self.xacts.contains_key(h) && self.xacts[h].due(client, now),
        )
    }

    /// The transactions that expire once a client has been told of them.
    pub open spec fn client_expires(
        self,
        hashes: Set<T::HashID>,
        client: T::Prin,
        now: Instant,
    ) -> Set<T::HashID> {
        Set::new(
            |h: T::HashID|
                self.client_due(hashes, client, now).contains(h) && self.xacts[h].state.expired(
                    now,
                ),
        )
    }

    /// The subscriptions that a client keeps: those to transactions that are still
    /// here and that report to it.
    pub open spec fn client_keeps(
        self,
        hashes: Set<T::HashID>,
        client: T::Prin,
        now: Instant,
    ) -> Set<T::HashID> {
        Set::new(
            |h: T::HashID|
                {
                    &&& hashes.contains(h)
                    &&& self.xacts.contains_key(h)
                    &&& self.xacts[h].reporting.contains_key(client)
                    &&& !self.client_expires(hashes, client, now).contains(h)
                },
        )
    }

    /// A client has been served: what it was waiting for is put off by `delays`,
    /// and what has expired is gone.
    pub open spec fn serve_client(
        self,
        hashes: Set<T::HashID>,
        client: T::Prin,
        now: Instant,
        delays: Map<T::HashID, Duration>,
    ) -> PeerStateView<T> {
        PeerStateView {
            xacts: Map::new(
                |h: T::HashID|
                    self.xacts.contains_key(h) && !self.client_expires(hashes, client, now).contains(
                        h,
                    ),
                |h: T::HashID|
                    if self.client_awaits(hashes, client).contains(h) {
                        self.xacts[h].served(client, now.plus(delays[h]))
                    } else {
                        self.xacts[h]
                    },
            ),
            ..self
        }
    }

    /// Whether `retry_delay` gave `delays` for what a client was waiting for.
    pub open spec fn client_delays<F: Fn(&T::Retry, usize) -> Duration>(
        self,
        hashes: Set<T::HashID>,
        client: T::Prin,
        retry_delay: F,
        delays: Map<T::HashID, Duration>,
    ) -> bool {
        forall|h: T::HashID| #[trigger]
            self.client_awaits(hashes, client).contains(h) ==> delays_by(
                retry_delay,
                self.resubmit,
                self.xacts[h].reporting[client].nretries,
                delays[h],
            )
    }

    /// The times at which a client is to be served again.
    pub open spec fn client_times(
        self,
        hashes: Set<T::HashID>,
        client: T::Prin,
        now: Instant,
        delays: Map<T::HashID, Duration>,
    ) -> Set<Instant> {
        Set::new(
            |t: Instant|
                exists|h: T::HashID| #[trigger]
                    self.client_awaits(hashes, client).contains(h) && t == now.plus(delays[h]),
        )
    }

    /// Whether `notifies` tells a client of exactly what is due, each transaction
    /// once.
    pub open spec fn tells(
        self,
        hashes: Set<T::HashID>,
        client: T::Prin,
        now: Instant,
        notifies: Seq<XactNotify<T::HashID, Vec<u8>>>,
    ) -> bool {
        &&& lists(
            notifies.map_values(|n: XactNotify<T::HashID, Vec<u8>>| n.hash),
            self.client_due(hashes, client, now),
        )
        &&& forall|k: int|
            0 <= k < notifies.len() ==> (#[trigger] notifies[k]).state@
                == self.xacts[notifies[k].hash].message(client)
    }
}

impl<T: SealTypes> PeerXactView<T> {
    /// Whether no retry counter is at the end of its range.
    pub open spec fn can_retry(self) -> bool {
        &&& self.state.stage_retries() < usize::MAX
        &&& forall|c: T::Prin| #[trigger]
            self.reporting.contains_key(c) ==> self.reporting[c].nretries < usize::MAX
    }
}

impl<T: SealTypes> ConsensusSealView<T> {
    /// Whether no retry counter is at the end of its range.
    pub open spec fn can_retry(self) -> bool {
        forall|p: usize| #[trigger]
            self.retries.contains_key(p) ==> self.retries[p].nretries < usize::MAX
    }

    /// Whether the transaction `h` belongs to the round and is not known at any of
    /// its places.
    pub open spec fn lacks(self, h: T::HashID) -> bool {
        &&& self.hashes.contains(h)
        &&& forall|i: int| 0 <= i < self.hashes.len() && #[trigger] self.hashes[i] == h ==> !self.known[i]
    }
}

} // verus!
