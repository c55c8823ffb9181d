//! The peer's state: the tables of transactions, of rounds and of processors.
use crate::bits::Bits;
use crate::config::PeerStateConfig;
pub use crate::ids::ConsensusRoundID;
pub use crate::ids::ProcessorIdx;
use crate::keys::copy_key;
use crate::keys::lists;
use crate::keys::map_keys;
use crate::keys::same_key;
use crate::keys::set_elements;
use crate::model::first_index;
use crate::model::fresh;
use crate::model::is_first_index;
pub use crate::model::InstanceEntry;
pub use crate::model::PeerStateView;
pub use crate::model::ProcessorEntry;
use crate::model::ResultState;
use crate::peer_xact::can_delay;
use crate::peer_xact::delays_by;
use crate::peer_xact::DeleteAction;
use crate::peer_xact::PeerReport;
use crate::peer_xact::PeerReportKind;
use crate::peer_xact::PeerXact;
use crate::peer_xact::PeerXactState;
use crate::peer_xact::PendingXact;
use crate::peer_xact::PendingXactStage;
use crate::seal_entry::lemma_round_unaffected;
use crate::seal_entry::some_dispatched;
use crate::seal_entry::xact_views;
use crate::seal_entry::ConsensusSealEntry;
use crate::seal_entry::ConsensusSealRetry;
use crate::seal_entry::ConsensusSealView;
use crate::time::earlier;
use crate::time::is_earliest;
use crate::time::is_reached;
use crate::time::Duration;
use crate::time::Instant;
use crate::types::keys_ok;
use crate::types::SealTypes;
use crate::xact::ConsensusCtlSubmit;
use crate::xact::XactCommittedRound;
use crate::xact::XactConsensusSeal;
use crate::xact::XactEffects;
use crate::xact::XactError;
use crate::xact::XactLinPoint;
use crate::xact::XactNotify;
use crate::xact::XactSealed;
use crate::xact::XactUncommittedHashReq;
use std::collections::HashMap;
use std::collections::HashSet;
use vstd::prelude::*;

verus! {

impl<R> InstanceEntry<R> {
    /// The processor of an instance, with the versions that it supports.
    pub fn new(processor: ProcessorIdx, versions: Vec<R>) -> (entry: Self)
        ensures
            entry.processor == processor,
            entry.versions == versions,
    {
        InstanceEntry { processor, versions }
    }
}

impl<R> ProcessorEntry<R> {
    /// The processors of a class, by instance.
    pub fn new(instances: HashMap<u64, InstanceEntry<R>>) -> (entry: Self)
        ensures
            entry.instances == instances,
    {
        ProcessorEntry { instances }
    }
}

/// The state of a peer.
pub struct PeerState<T: SealTypes> {
    /// Current state of transactions.
    xacts: HashMap<T::HashID, PeerXact<T>>,
    /// Map from service information to local processor IDs.
    processors: HashMap<u128, ProcessorEntry<T::VersionRange>>,
    /// Period at which tombstones should be expired.
    tombstone_duration: Duration,
    /// Pending consensus seals.
    seals: HashMap<u128, ConsensusSealEntry<T>>,
    /// Record of missing transactions in rounds.
    missing: HashMap<T::HashID, ConsensusRoundID>,
    /// Retry configuration.
    retry: T::Retry,
    /// Resubmission configuration.
    resubmit: T::Retry,
}

/// The contents of a table of rounds.
spec fn seal_views<T: SealTypes>(m: Map<u128, ConsensusSealEntry<T>>) -> Map<
    u128,
    ConsensusSealView<T>,
> {
    m.map_values(|s: ConsensusSealEntry<T>| s@)
}

impl<T: SealTypes> View for PeerState<T> {
    type V = PeerStateView<T>;

    closed spec fn view(&self) -> PeerStateView<T> {
        PeerStateView {
            xacts: xact_views(self.xacts@),
            seals: seal_views(self.seals@),
            missing: self.missing@,
            processors: self.processors@,
            tombstone_duration: self.tombstone_duration,
            retry: self.retry,
            resubmit: self.resubmit,
        }
    }
}

impl<T: SealTypes> PeerState<T> {
    /// Whether the tables can be keyed and what they hold is consistent.
    pub open spec fn wf(&self) -> bool {
        &&& keys_ok::<T>()
        &&& self@.wf()
    }

    /// A state without transactions and rounds, for the given processors.
    pub fn new(
        config: PeerStateConfig<T::Retry>,
        processors: HashMap<u128, ProcessorEntry<T::VersionRange>>,
    ) -> (state: Self)
        requires
            keys_ok::<T>(),
        ensures
            state.wf(),
            state@.effects_wait(),
            state@.routed(),
            state@ == (PeerStateView::<T> {
                xacts: Map::empty(),
                seals: Map::empty(),
                missing: Map::empty(),
                processors: processors@,
                tombstone_duration: config.tombstone_duration,
                retry: config.retry,
                resubmit: config.resubmit,
            }),
    {
        let (tombstone_duration, xacts_size_hint, seals_size_hint, retry, resubmit) = config.take();
        let (xacts, missing) = match xacts_size_hint {
            Some(size) => (HashMap::with_capacity(size), HashMap::with_capacity(size)),
            None => (HashMap::new(), HashMap::new()),
        };
        let seals = match seals_size_hint {
            Some(size) => HashMap::with_capacity(size),
            None => HashMap::new(),
        };
        let state = PeerState {
            xacts,
            processors,
            tombstone_duration,
            seals,
            missing,
            retry,
            resubmit,
        };
        assert(state@.xacts =~= Map::empty());
        assert(state@.seals =~= Map::empty());
        state
    }

    /// Whether no retry counter of a transaction is at the end of its range.
    fn xacts_can_retry(&self) -> (r: bool)
        requires
            self.wf(),
        ensures
            r == self@.xacts_can_retry(),
    {
        let keys = map_keys(&self.xacts);
        let mut i: usize = 0;
        while i < keys.len()
            invariant
                self.wf(),
                i <= keys.len(),
                lists(keys@, self@.xacts.dom()),
                forall|j: int| 0 <= j < i ==> self@.xacts[#[trigger] keys@[j]].can_retry(),
            decreases keys.len() - i,
        {
            assert(keys@.contains(keys@[i as int]));
            assert(self@.xacts.dom().contains(keys@[i as int]));
            match self.xacts.get(&keys[i]) {
                Some(entry) => {
                    assert(entry@ == self@.xacts[keys@[i as int]]);
                    if !entry.can_retry() {
                        assert(self@.xacts.contains_key(keys@[i as int]));
                        return false;
                    }
                },
                None => {},
            }
            i += 1;
        }
        assert forall|h: T::HashID| #[trigger]
            self@.xacts.contains_key(h) implies self@.xacts[h].can_retry() by {
            assert(self@.xacts.dom().contains(h));
            assert(keys@.contains(h));
        }
        true
    }

    /// Whether no retry counter is at the end of its range, as those who collect
    /// messages need it.
    pub fn can_retry(&self) -> (r: bool)
        requires
            self.wf(),
        ensures
            r == self@.can_retry(),
    {
        if !self.xacts_can_retry() {
            return false;
        }
        proof {
            crate::keys::lemma_integers_are_keys();
        }
        let keys = map_keys(&self.seals);
        let mut i: usize = 0;
        while i < keys.len()
            invariant
                self.wf(),
                i <= keys.len(),
                self@.xacts_can_retry(),
                lists(keys@, self@.seals.dom()),
                forall|j: int| 0 <= j < i ==> self@.seals[#[trigger] keys@[j]].can_retry(),
            decreases keys.len() - i,
        {
            assert(keys@.contains(keys@[i as int]));
            assert(self@.seals.dom().contains(keys@[i as int]));
            match self.seals.get(&keys[i]) {
                Some(entry) => {
                    assert(entry@ == self@.seals[keys@[i as int]]);
                    if !entry.can_retry() {
                        assert(self@.seals.contains_key(keys@[i as int]));
                        return false;
                    }
                },
                None => {},
            }
            i += 1;
        }
        assert forall|r: u128| #[trigger]
            self@.seals.contains_key(r) implies self@.seals[r].can_retry() by {
            assert(self@.seals.dom().contains(r));
            assert(keys@.contains(r));
        }
        true
    }

    /// Whether `accepts` says of any of the ranges that it contains the version.
    fn any_accepts<G: Fn(&T::VersionRange, &T::Version) -> bool>(
        versions: &Vec<T::VersionRange>,
        version: &T::Version,
        accepts: &G,
    ) -> (r: bool)
        requires
            forall|range: &T::VersionRange| call_requires(*accepts, (range, version)),
        ensures
            r ==> exists|i: int|
                0 <= i < versions@.len() && call_ensures(
                    *accepts,
                    (&#[trigger] versions@[i], version),
                    true,
                ),
            !r ==> forall|i: int|
                0 <= i < versions@.len() ==> call_ensures(
                    *accepts,
                    (&#[trigger] versions@[i], version),
                    false,
                ),
    {
        let mut i: usize = 0;
        while i < versions.len()
            invariant
                i <= versions.len(),
                forall|range: &T::VersionRange| call_requires(*accepts, (range, version)),
                forall|j: int|
                    0 <= j < i ==> call_ensures(
                        *accepts,
                        (&#[trigger] versions@[j], version),
                        false,
                    ),
            decreases versions.len() - i,
        {
            if accepts(&versions[i], version) {
                assert(call_ensures(*accepts, (&versions@[i as int], version), true));
                return true;
            }
            i += 1;
        }
        false
    }

    /// Which processor takes a transaction of the given class, version and
    /// instance; `accepts` says whether a range contains a version.
    pub fn get_processor<G: Fn(&T::VersionRange, &T::Version) -> bool>(
        &self,
        class: u128,
        version: &T::Version,
        instance: u64,
        accepts: &G,
    ) -> (r: Result<ProcessorIdx, XactError<Vec<u8>>>)
        requires
            forall|range: &T::VersionRange| call_requires(*accepts, (range, version)),
        ensures
            self@.routes(
                *accepts,
                class,
                *version,
                instance,
                match r {
                    Ok(p) => Ok(p),
                    Err(e) => Err(e@),
                },
            ),
    {
        match self.processors.get(&class) {
            Some(entry) => match entry.instances.get(&instance) {
                Some(entry) => {
                    if Self::any_accepts(&entry.versions, version, accepts) {
                        Ok(entry.processor)
                    } else {
                        Err(XactError::UnknownVersion)
                    }
                },
                None => Err(XactError::UnknownInstance),
            },
            None => Err(XactError::UnknownClass),
        }
    }

    /// Record a transaction that `client` has submitted, for which the search for a
    /// processor gave `route`.  Returns whether the peer's state has changed, so
    /// that those who wait for changes are to be notified.
    pub fn add_xact_routed(
        &mut self,
        client: &T::Prin,
        hash: T::HashID,
        route: Result<ProcessorIdx, XactError<Vec<u8>>>,
        xact: PendingXact<T, Vec<u8>>,
        now: Instant,
    ) -> (notify: bool)
        requires
            old(self).wf(),
            route is Err ==> now.can_add(old(self)@.tombstone_duration),
        ensures
            final(self).wf(),
            final(self)@ == old(self)@.add_xact(
                *client,
                hash,
                match route {
                    Ok(p) => Ok(p),
                    Err(e) => Err(e@),
                },
                xact@,
                now,
            ),
            notify == (route is Ok || !old(self)@.xacts.contains_key(hash)),
    {
        let report = PeerReport { kind: PeerReportKind::Result, when: Some(now), nretries: 0 };
        let ghost before = self@;
        match route {
            Ok(processor) => {
                match self.xacts.remove(&hash) {
                    Some(mut entry) => {
                        let ghost was = entry@;
                        entry.reporting.insert(copy_key(client), report);
                        assert(entry@ == was.subscribed(*client, now));
                        self.xacts.insert(hash, entry);
                        assert(self@.xacts =~= before.xacts.insert(hash, was.subscribed(*client, now)));
                        assert(self@.seals =~= before.seals);
                        assert(self@.missing =~= before.missing);
                        assert(self@.wf());
                    },
                    None => {
                        assert(self.xacts@ =~= old(self).xacts@);
                        self.insert_new(client, hash, processor, xact, report, now);
                    },
                }
                true
            },
            Err(error) => {
                if self.xacts.contains_key(&hash) {
                    return false;
                }
                let expire = now.after(self.tombstone_duration);
                let mut reporting: HashMap<T::Prin, PeerReport> = HashMap::new();
                reporting.insert(copy_key(client), report);
                let entry = PeerXact {
                    reporting,
                    state: PeerXactState::Error { error, expire },
                };
                assert(entry@ == fresh(entry@.state, *client, now));
                self.xacts.insert(hash, entry);
                assert(self@.xacts =~= before.xacts.insert(hash, entry@));
                assert(self@.seals =~= before.seals);
                assert(self@.wf());
                true
            },
        }
    }

    /// Record a transaction that is not here yet: at its place in the round that
    /// has already committed it, or at its first stage.
    fn insert_new(
        &mut self,
        client: &T::Prin,
        hash: T::HashID,
        processor: ProcessorIdx,
        xact: PendingXact<T, Vec<u8>>,
        report: PeerReport,
        now: Instant,
    )
        requires
            old(self).wf(),
            !old(self)@.xacts.contains_key(hash),
            report == (PeerReport { kind: PeerReportKind::Result, when: Some(now), nretries: 0 }),
        ensures
            final(self).wf(),
            final(self)@ == old(self)@.add_routed(*client, hash, processor, xact@, now),
    {
        let ghost before = self@;
        let ghost request = xact@;
        let mut reporting: HashMap<T::Prin, PeerReport> = HashMap::new();
        reporting.insert(copy_key(client), report);
        match self.missing.remove(&hash) {
            Some(round) => {
                assert(before.missing.contains_key(hash));
                assert(before.seals.contains_key(round.0));
                match self.seals.remove(&round.0) {
                    Some(mut seal) => {
                        let ghost was = seal@;
                        assert(was == before.seals[round.0]);
                        assert(was.lacks(hash));
                        let i = Self::position(&seal.seal.hashes, &hash);
                        let entry = PeerXact {
                            reporting,
                            state: PeerXactState::Pending {
                                processor,
                                stage: PendingXactStage::Process {
                                    dispatched: false,
                                    lin_point: XactLinPoint { round, idx: i },
                                },
                                xact,
                            },
                        };
                        seal.known.set(i, true);
                        let nretries = match seal.retries.get(&processor.0) {
                            Some(retry) => retry.nretries,
                            None => 0,
                        };
                        seal.retries.insert(
                            processor.0,
                            ConsensusSealRetry { nretries, when: Some(now) },
                        );
                        assert(seal@ == was.learned(i as int, processor, now));
                        self.seals.insert(round.0, seal);
                        self.xacts.insert(hash, entry);
                        proof {
                            assert(entry@ == fresh(entry@.state, *client, now));
                            assert(self@.xacts =~= before.xacts.insert(hash, entry@));
                            assert(self@.seals =~= before.seals.insert(round.0, seal@));
                            assert(self@ == before.add_routed(*client, hash, processor, request, now));
                            crate::laws::lemma_add_routed_wf(
                                before,
                                *client,
                                hash,
                                processor,
                                request,
                                now,
                            );
                        }
                    },
                    None => {
                        assert(false);
                    },
                }
            },
            None => {
                assert(self.missing@ =~= old(self).missing@);
                let stage = match &xact.effects {
                    XactEffects::Effects { .. } => PendingXactStage::Commit {
                        submitted: false,
                        when: Some(now),
                        nretries: 0,
                    },
                    XactEffects::HardNone { .. } | XactEffects::SoftNone => {
                        PendingXactStage::PreCommit {
                            dispatched: false,
                            when: Some(now),
                            nretries: 0,
                        }
                    },
                };
                let entry = PeerXact {
                    reporting,
                    state: PeerXactState::Pending { processor, stage, xact },
                };
                assert(entry@ == fresh(entry@.state, *client, now));
                self.xacts.insert(hash, entry);
                assert(self@.xacts =~= before.xacts.insert(hash, entry@));
                assert(self@.seals =~= before.seals);
                assert(self@.missing =~= before.missing);
                assert(self@.wf());
            },
        }
    }

    /// The index at which `hash` first occurs.
    fn position(hashes: &Vec<T::HashID>, hash: &T::HashID) -> (r: usize)
        requires
            keys_ok::<T>(),
            hashes@.contains(*hash),
        ensures
            r == first_index(hashes@, *hash),
            is_first_index(hashes@, *hash, r as int),
    {
        let mut i: usize = 0;
        while !same_key(&hashes[i], hash)
            invariant
                keys_ok::<T>(),
                hashes@.contains(*hash),
                i < hashes.len(),
                forall|j: int| 0 <= j < i ==> hashes@[j] != *hash,
            decreases hashes.len() - i,
        {
            proof {
                let k = choose|k: int| 0 <= k < hashes@.len() && hashes@[k] == *hash;
                assert(hashes@[k] == *hash);
                assert(k > i);
            }
            i += 1;
        }
        proof {
            crate::laws::lemma_first_index(hashes@, *hash, i as int);
        }
        i
    }

    /// Record a transaction that `client` has submitted; `accepts` says whether a
    /// range contains a version.  Returns whether the peer's state has changed.
    pub fn add_xact<G: Fn(&T::VersionRange, &T::Version) -> bool>(
        &mut self,
        client: &T::Prin,
        class: u128,
        version: T::Version,
        instance: u64,
        hash: T::HashID,
        effects: XactEffects<Vec<u8>>,
        payload: Vec<u8>,
        seal: T::Seal,
        now: Instant,
        accepts: &G,
    ) -> (notify: bool)
        requires
            old(self).wf(),
            now.can_add(old(self)@.tombstone_duration),
            forall|range: &T::VersionRange| call_requires(*accepts, (range, &version)),
        ensures
            final(self).wf(),
            exists|route: Result<ProcessorIdx, XactError<Seq<u8>>>|
                {
                    &&& #[trigger] old(self)@.routes(*accepts, class, version, instance, route)
                    &&& notify == (route is Ok || !old(self)@.xacts.contains_key(hash))
                    &&& final(self)@ == old(self)@.add_xact(
                        *client,
                        hash,
                        route,
                        PendingXact {
                            class,
                            version,
                            instance,
                            effects: effects@,
                            payload: payload@,
                            seal,
                        },
                        now,
                    )
                },
    {
        let route = self.get_processor(class, &version, instance, accepts);
        let xact = PendingXact {
            class,
            version,
            instance,
            effects,
            payload,
            seal,
        };
        self.add_xact_routed(client, hash, route, xact, now)
    }

    /// The entry of a transaction gets another state, of which every client is to
    /// be told at once.
    fn move_to(&mut self, hash: T::HashID, state: PeerXactState<T, Vec<u8>>, now: Instant)
        requires
            old(self).wf(),
            old(self)@.xacts.contains_key(hash),
        ensures
            final(self).wf(),
            final(self)@ == (PeerStateView {
                xacts: old(self)@.xacts.insert(
                    hash,
                    old(self)@.xacts[hash].moved(state@, now),
                ),
                ..old(self)@
            }),
    {
        let ghost before = self@;
        match self.xacts.remove(&hash) {
            Some(mut entry) => {
                let ghost was = entry@;
                entry.state = state;
                entry.reset_reporting(now);
                assert(entry@ == was.moved(state@, now));
                self.xacts.insert(hash, entry);
                assert(self@.xacts =~= before.xacts.insert(hash, was.moved(state@, now)));
                assert(self@.seals =~= before.seals);
            },
            None => {
                assert(false);
            },
        }
    }

    /// What is to be done with a result for the transaction `hash`.
    fn check_result(&self, hash: &T::HashID, lin_point: XactLinPoint) -> (r: ResultState)
        requires
            self.wf(),
        ensures
            r == self@.result_check(*hash, lin_point),
    {
        match self.xacts.get(hash) {
            Some(entry) => match &entry.state {
                PeerXactState::Pending { stage: PendingXactStage::Commit { .. }, .. } => {
                    ResultState::Fail
                },
                PeerXactState::Pending {
                    stage: PendingXactStage::PreCommit { dispatched, .. },
                    xact,
                    ..
                } => {
                    if !*dispatched {
                        ResultState::Fail
                    } else {
                        match &xact.effects {
                            XactEffects::HardNone { when: Some(requested) } => {
                                if *requested != lin_point {
                                    ResultState::Fail
                                } else {
                                    ResultState::Accept
                                }
                            },
                            _ => ResultState::Accept,
                        }
                    }
                },
                PeerXactState::Pending {
                    stage: PendingXactStage::Process { dispatched, lin_point: requested },
                    ..
                } => {
                    if !*dispatched || *requested != lin_point {
                        ResultState::Fail
                    } else {
                        ResultState::Accept
                    }
                },
                PeerXactState::Error { .. } => ResultState::Fail,
                PeerXactState::Complete { .. } => ResultState::Ignore,
            },
            None => ResultState::Ignore,
        }
    }

    /// Record the result that a processor has reported.  Returns whether the
    /// peer's state has changed.
    pub fn add_result(
        &mut self,
        hash: T::HashID,
        lin_point: XactLinPoint,
        res: Vec<u8>,
        now: Instant,
    ) -> (notify: bool)
        requires
            old(self).wf(),
            now.can_add(old(self)@.tombstone_duration),
        ensures
            final(self).wf(),
            final(self)@ == old(self)@.add_result(hash, lin_point, res@, now),
            notify == (old(self)@.result_check(hash, lin_point) != ResultState::Ignore),
    {
        match self.check_result(&hash, lin_point) {
            ResultState::Accept => {
                let expire = now.after(self.tombstone_duration);
                self.move_to(hash, PeerXactState::Complete { res, lin_point, expire }, now);
                true
            },
            ResultState::Fail => {
                let expire = now.after(self.tombstone_duration);
                self.move_to(
                    hash,
                    PeerXactState::Error { error: XactError::Internal, expire },
                    now,
                );
                true
            },
            ResultState::Ignore => false,
        }
    }

    /// What is to be done with an error for the transaction `hash`.
    fn check_error(&self, hash: &T::HashID) -> (r: ResultState)
        requires
            self.wf(),
        ensures
            r == self@.error_check(*hash),
    {
        match self.xacts.get(hash) {
            Some(entry) => match &entry.state {
                PeerXactState::Pending { stage, .. } => {
                    let accepted = match *stage {
                        PendingXactStage::PreCommit { dispatched, .. } => dispatched,
                        PendingXactStage::Commit { .. } => false,
                        PendingXactStage::Process { dispatched, .. } => dispatched,
                    };
                    if accepted {
                        ResultState::Accept
                    } else {
                        ResultState::Fail
                    }
                },
                PeerXactState::Complete { .. } => ResultState::Fail,
                PeerXactState::Error { .. } => ResultState::Ignore,
            },
            None => ResultState::Ignore,
        }
    }

    /// Record the error that a processor has reported.  Returns whether the peer's
    /// state has changed.
    pub fn add_error(&mut self, hash: T::HashID, error: XactError<Vec<u8>>, now: Instant) -> (notify:
        bool)
        requires
            old(self).wf(),
            now.can_add(old(self)@.tombstone_duration),
        ensures
            final(self).wf(),
            final(self)@ == old(self)@.add_error(hash, error@, now),
            notify == (old(self)@.error_check(hash) != ResultState::Ignore),
    {
        match self.check_error(&hash) {
            ResultState::Accept => {
                let expire = now.after(self.tombstone_duration);
                self.move_to(hash, PeerXactState::Error { error, expire }, now);
                true
            },
            ResultState::Fail => {
                let expire = now.after(self.tombstone_duration);
                self.move_to(
                    hash,
                    PeerXactState::Error { error: XactError::Internal, expire },
                    now,
                );
                true
            },
            ResultState::Ignore => false,
        }
    }

    /// A pending transaction has been submitted to consensus or dispatched without
    /// a round; the next attempt is due at `next`.
    fn attempt(entry: &mut PeerXact<T>, now: Instant, next: Instant)
        requires
            keys_ok::<T>(),
            old(entry)@.state.stage_retries() < usize::MAX,
        ensures
            final(entry)@ == old(entry)@.attempted(now, next),
    {
        let stage = match &entry.state {
            PeerXactState::Pending { stage, .. } => *stage,
            _ => return,
        };
        let stage = match stage {
            PendingXactStage::PreCommit { nretries, .. } => PendingXactStage::PreCommit {
                dispatched: true,
                when: Some(next),
                nretries: nretries + 1,
            },
            PendingXactStage::Commit { nretries, .. } => PendingXactStage::Commit {
                submitted: true,
                when: Some(next),
                nretries: nretries + 1,
            },
            PendingXactStage::Process { .. } => stage,
        };
        Self::set_stage(entry, stage);
        entry.reset_reporting(now);
    }

    /// A pending transaction gets another stage.
    fn set_stage(entry: &mut PeerXact<T>, stage: PendingXactStage)
        ensures
            final(entry).reporting == old(entry).reporting,
            old(entry)@.state matches PeerXactState::Pending { processor, xact, .. }
                ==> final(entry)@.state == (PeerXactState::Pending { processor, stage, xact }),
            old(entry)@.state !is Pending ==> *final(entry) == *old(entry),
    {
        match &mut entry.state {
            PeerXactState::Pending { stage: current, .. } => {
                *current = stage;
            },
            _ => {},
        }
    }

    /// Collect the transactions that are to be submitted to consensus, and the
    /// time of the next submission as it was before this one.
    pub fn get_consensus_msgs<F: Fn(&T::Retry, usize) -> Duration>(
        &mut self,
        now: Instant,
        retry_delay: &F,
    ) -> (r: (Option<ConsensusCtlSubmit<T>>, Option<Instant>))
        requires
            old(self).wf(),
            old(self)@.xacts_can_retry(),
            can_delay(*retry_delay, old(self)@.resubmit, now),
        ensures
            final(self).wf(),
            exists|delays: Map<T::HashID, Duration>|
                {
                    &&& #[trigger] old(self)@.stage_delays(
                        old(self)@.commit_due(now),
                        *retry_delay,
                        delays,
                    )
                    &&& final(self)@ == old(self)@.submit_commits(now, delays)
                },
            PeerStateView::submits(old(self)@.commit_due(now), r.0),
            is_earliest(r.1, old(self)@.commit_times()),
    {
        let keys = map_keys(&self.xacts);
        let mut hashes: Vec<T::HashID> = Vec::new();
        let mut curr: Option<Instant> = None;
        let ghost before = self@;
        let ghost due = before.commit_due(now);
        let ghost time = |h: T::HashID| before.xacts[h].state.commit_time();
        let ghost mut delays: Map<T::HashID, Duration> = Map::empty();
        let mut i: usize = 0;
        while i < keys.len()
            invariant
                keys_ok::<T>(),
                i <= keys.len(),
                before == old(self)@,
                before.xacts_can_retry(),
                can_delay(*retry_delay, before.resubmit, now),
                due == before.commit_due(now),
                time == (|h: T::HashID| before.xacts[h].state.commit_time()),
                lists(keys@, before.xacts.dom()),
                self.processors == old(self).processors,
                self.tombstone_duration == old(self).tombstone_duration,
                self.seals == old(self).seals,
                self.missing == old(self).missing,
                self.retry == old(self).retry,
                self.resubmit == before.resubmit,
                self.resubmit == old(self).resubmit,
                self@.xacts.dom() == before.xacts.dom(),
                forall|j: int|
                    0 <= j < i ==> self@.xacts[#[trigger] keys@[j]] == (if due.contains(keys@[j]) {
                        before.xacts[keys@[j]].attempted(now, now.plus(delays[keys@[j]]))
                    } else {
                        before.xacts[keys@[j]]
                    }),
                forall|j: int|
                    i <= j < keys@.len() ==> self@.xacts[#[trigger] keys@[j]]
                        == before.xacts[keys@[j]],
                forall|j: int|
                    0 <= j < i && due.contains(#[trigger] keys@[j]) ==> delays_by(
                        *retry_delay,
                        before.resubmit,
                        before.xacts[keys@[j]].state.stage_retries(),
                        delays[keys@[j]],
                    ),
                listed(hashes@, keys@, i as int, due),
                is_earliest(curr, crate::time::times_of(keys@, i as int, time)),
            decreases keys.len() - i,
        {
            let hash = copy_key(&keys[i]);
            assert(keys@.contains(hash));
            assert(before.xacts.contains_key(hash));
            let ghost was = self@.xacts;
            proof {
                crate::time::lemma_earliest_step(keys@, i as int, time, curr);
                lemma_listed_step(hashes@, keys@, i as int, due);
                assert(was.contains_key(hash));
            }
            let (when, nretries) = match self.xacts.get(&hash) {
                Some(entry) => match &entry.state {
                    PeerXactState::Pending {
                        stage: PendingXactStage::Commit { when, nretries, .. },
                        ..
                    } => (*when, *nretries),
                    _ => (None, 0),
                },
                None => (None, 0),
            };
            assert(when == time(hash));
            curr = earlier(curr, when);
            if is_reached(when, now) {
                assert(due.contains(hash));
                let delay = retry_delay(&self.resubmit, nretries);
                assert(delays_by(*retry_delay, before.resubmit, nretries, delay));
                let next = now.after(delay);
                match self.xacts.remove(&hash) {
                    Some(mut entry) => {
                        Self::attempt(&mut entry, now, next);
                        assert(entry@ == before.xacts[hash].attempted(now, next));
                        self.xacts.insert(copy_key(&hash), entry);
                    },
                    None => {
                        assert(false);
                    },
                }
                proof {
                    delays = delays.insert(hash, delay);
                    assert(self@.xacts =~= was.insert(
                        hash,
                        before.xacts[hash].attempted(now, next),
                    ));
                }
                hashes.push(hash);
            }
            i += 1;
        }
        proof {
            assert forall|h: T::HashID| #[trigger] before.xacts.contains_key(h) implies exists|j: int|
                0 <= j < keys@.len() && keys@[j] == h by {
                assert(before.xacts.dom().contains(h));
            }
            assert(self@.xacts =~= before.submit_commits(now, delays).xacts) by {
                assert forall|h: T::HashID| #[trigger]
                    before.xacts.contains_key(h) implies self@.xacts[h]
                    == before.submit_commits(now, delays).xacts[h] by {
                    let j = choose|j: int| 0 <= j < keys@.len() && keys@[j] == h;
                    assert(keys@[j] == h);
                }
            }
            assert(self@ == before.submit_commits(now, delays));
            assert(before.stage_delays(due, *retry_delay, delays)) by {
                assert forall|h: T::HashID| #[trigger] due.contains(h) implies delays_by(
                    *retry_delay,
                    before.resubmit,
                    before.xacts[h].state.stage_retries(),
                    delays[h],
                ) by {
                    let j = choose|j: int| 0 <= j < keys@.len() && keys@[j] == h;
                    assert(keys@[j] == h);
                }
            }
            crate::time::lemma_earliest_all(keys@, time, curr, before.commit_times());
            lemma_listed_all(hashes@, keys@, due);
        }
        let msg = if hashes.len() > 0 {
            Some(ConsensusCtlSubmit { hashes })
        } else {
            None
        };
        (msg, curr)
    }

    /// Dispatch the transactions that are to be tried without a round by the
    /// processor `target`; also the earliest of their times as they were before.
    fn precommit_reqs<F: Fn(&T::Retry, usize) -> Duration>(
        &mut self,
        target: ProcessorIdx,
        now: Instant,
        retry_delay: &F,
    ) -> (r: (Vec<XactSealed<T>>, Option<Instant>))
        requires
            old(self).wf(),
            old(self)@.xacts_can_retry(),
            can_delay(*retry_delay, old(self)@.resubmit, now),
        ensures
            exists|delays: Map<T::HashID, Duration>|
                {
                    &&& #[trigger] old(self)@.stage_delays(
                        old(self)@.precommit_due(target, now),
                        *retry_delay,
                        delays,
                    )
                    &&& final(self)@ == old(self)@.submit_precommits(target, now, delays)
                },
            old(self)@.asks_uncommitted(old(self)@.precommit_due(target, now), r.0@),
            is_earliest(r.1, old(self)@.precommit_times(target)),
    {
        let keys = map_keys(&self.xacts);
        let mut reqs: Vec<XactSealed<T>> = Vec::new();
        let mut curr: Option<Instant> = None;
        let ghost before = self@;
        let ghost due = before.precommit_due(target, now);
        let ghost time = |h: T::HashID| before.xacts[h].state.precommit_time(target);
        let ghost mut delays: Map<T::HashID, Duration> = Map::empty();
        let ghost hash_of = |r: XactSealed<T>| r.req.hash;
        let mut i: usize = 0;
        assert(reqs@.map_values(hash_of) =~= Seq::empty());
        while i < keys.len()
            invariant
                keys_ok::<T>(),
                i <= keys.len(),
                before == old(self)@,
                before.xacts_can_retry(),
                can_delay(*retry_delay, before.resubmit, now),
                due == before.precommit_due(target, now),
                time == (|h: T::HashID| before.xacts[h].state.precommit_time(target)),
                hash_of == (|r: XactSealed<T>| r.req.hash),
                lists(keys@, before.xacts.dom()),
                self.processors == old(self).processors,
                self.tombstone_duration == old(self).tombstone_duration,
                self.seals == old(self).seals,
                self.missing == old(self).missing,
                self.retry == old(self).retry,
                self.resubmit == before.resubmit,
                self.resubmit == old(self).resubmit,
                self@.xacts.dom() == before.xacts.dom(),
                forall|j: int|
                    0 <= j < i ==> self@.xacts[#[trigger] keys@[j]] == (if due.contains(keys@[j]) {
                        before.xacts[keys@[j]].attempted(now, now.plus(delays[keys@[j]]))
                    } else {
                        before.xacts[keys@[j]]
                    }),
                forall|j: int|
                    i <= j < keys@.len() ==> self@.xacts[#[trigger] keys@[j]]
                        == before.xacts[keys@[j]],
                forall|j: int|
                    0 <= j < i && due.contains(#[trigger] keys@[j]) ==> delays_by(
                        *retry_delay,
                        before.resubmit,
                        before.xacts[keys@[j]].state.stage_retries(),
                        delays[keys@[j]],
                    ),
                listed(reqs@.map_values(hash_of), keys@, i as int, due),
                forall|k: int|
                    0 <= k < reqs@.len() ==> before.xacts[(#[trigger] reqs@[k]).req.hash].asked_uncommitted(
                    reqs@[k].req.hash, reqs@[k]),
                is_earliest(curr, crate::time::times_of(keys@, i as int, time)),
            decreases keys.len() - i,
        {
            let hash = copy_key(&keys[i]);
            assert(keys@.contains(hash));
            assert(before.xacts.contains_key(hash));
            let ghost was = self@.xacts;
            proof {
                crate::time::lemma_earliest_step(keys@, i as int, time, curr);
                lemma_listed_step(reqs@.map_values(hash_of), keys@, i as int, due);
                assert(was.contains_key(hash));
            }
            let (when, nretries) = match self.xacts.get(&hash) {
                Some(entry) => match &entry.state {
                    PeerXactState::Pending {
                        processor,
                        stage: PendingXactStage::PreCommit { when, nretries, .. },
                        ..
                    } => if *processor == target {
                        (*when, *nretries)
                    } else {
                        (None, 0)
                    },
                    _ => (None, 0),
                },
                None => (None, 0),
            };
            assert(when == time(hash));
            curr = earlier(curr, when);
            if is_reached(when, now) {
                assert(due.contains(hash));
                let delay = retry_delay(&self.resubmit, nretries);
                assert(delays_by(*retry_delay, before.resubmit, nretries, delay));
                let next = now.after(delay);
                match self.xacts.remove(&hash) {
                    Some(mut entry) => {
                        if let PeerXactState::Pending { xact, .. } = &entry.state {
                            let ghost asked = reqs@;
                            let req = Self::uncommitted_req(&hash, xact);
                            reqs.push(req);
                            assert(reqs@.map_values(hash_of) =~= asked.map_values(hash_of).push(
                                hash,
                            ));
                        }
                        Self::attempt(&mut entry, now, next);
                        assert(entry@ == before.xacts[hash].attempted(now, next));
                        self.xacts.insert(copy_key(&hash), entry);
                    },
                    None => {
                        assert(false);
                    },
                }
                proof {
                    delays = delays.insert(hash, delay);
                    assert(self@.xacts =~= was.insert(
                        hash,
                        before.xacts[hash].attempted(now, next),
                    ));
                }
            }
            i += 1;
        }
        proof {
            assert forall|h: T::HashID| #[trigger] before.xacts.contains_key(h) implies exists|j: int|
                0 <= j < keys@.len() && keys@[j] == h by {
                assert(before.xacts.dom().contains(h));
            }
            assert(self@.xacts =~= before.submit_precommits(target, now, delays).xacts) by {
                assert forall|h: T::HashID| #[trigger]
                    before.xacts.contains_key(h) implies self@.xacts[h]
                    == before.submit_precommits(target, now, delays).xacts[h] by {
                    let j = choose|j: int| 0 <= j < keys@.len() && keys@[j] == h;
                    assert(keys@[j] == h);
                }
            }
            assert(self@ == before.submit_precommits(target, now, delays));
            assert(before.stage_delays(due, *retry_delay, delays)) by {
                assert forall|h: T::HashID| #[trigger] due.contains(h) implies delays_by(
                    *retry_delay,
                    before.resubmit,
                    before.xacts[h].state.stage_retries(),
                    delays[h],
                ) by {
                    let j = choose|j: int| 0 <= j < keys@.len() && keys@[j] == h;
                    assert(keys@[j] == h);
                }
            }
            crate::time::lemma_earliest_all(keys@, time, curr, before.precommit_times(target));
            lemma_listed_all(reqs@.map_values(hash_of), keys@, due);
        }
        (reqs, curr)
    }

    /// The request to process a transaction before it is committed.
    fn uncommitted_req(hash: &T::HashID, xact: &PendingXact<T, Vec<u8>>) -> (sealed: XactSealed<T>)
        requires
            keys_ok::<T>(),
        ensures
            cloned(xact.seal, sealed.seal),
            sealed.req.hash == *hash,
            sealed.req.class == xact.class,
            cloned(xact.version, sealed.req.version),
            sealed.req.instance == xact.instance,
            sealed.req.payload@ == xact.payload@,
            sealed.req.effects@ == xact.effects@,
    {
        let version = xact.version.clone();
        assert(cloned(xact.version, version));
        let seal = xact.seal.clone();
        assert(cloned(xact.seal, seal));
        XactSealed {
            seal,
            req: XactUncommittedHashReq {
                hash: copy_key(hash),
                class: xact.class,
                version,
                instance: xact.instance,
                payload: crate::xact::copy_bytes(&xact.payload),
                effects: xact.effects.copy(),
            },
        }
    }

    /// Collect what due rounds hand to the processor `target`, and forget the
    /// rounds that are complete; also the earliest of the rounds' times as they
    /// were before.
    fn committed_rounds<F: Fn(&T::Retry, usize) -> Duration>(
        &mut self,
        target: ProcessorIdx,
        now: Instant,
        retry_delay: &F,
    ) -> (r: (Vec<XactCommittedRound<T>>, Option<Instant>))
        requires
            old(self).wf(),
            old(self)@.rounds_can_retry(),
            can_delay(*retry_delay, old(self)@.resubmit, now),
        ensures
            exists|delays: Map<u128, Duration>|
                {
                    &&& #[trigger] old(self)@.round_delays(target, now, *retry_delay, delays)
                    &&& final(self)@ == old(self)@.send_rounds(target, now, delays)
                },
            old(self)@.asks_committed(target, now, r.0@),
            is_earliest(r.1, old(self)@.send_times(target)),
    {
        proof {
            crate::keys::lemma_integers_are_keys();
        }
        let keys = map_keys(&self.seals);
        let mut rounds: Vec<XactCommittedRound<T>> = Vec::new();
        let mut curr: Option<Instant> = None;
        let ghost before = self@;
        let ghost due = before.rounds_sent(target, now);
        let ghost time = |r: u128| before.seals[r].send_time(target);
        let ghost mut delays: Map<u128, Duration> = Map::empty();
        let ghost round_of = |r: XactCommittedRound<T>| r.round.0;
        let mut i: usize = 0;
        assert(rounds@.map_values(round_of) =~= Seq::empty());
        while i < keys.len()
            invariant
                keys_ok::<T>(),
                i <= keys.len(),
                before == old(self)@,
                before.wf(),
                before.rounds_can_retry(),
                can_delay(*retry_delay, before.resubmit, now),
                due == before.rounds_sent(target, now),
                time == (|r: u128| before.seals[r].send_time(target)),
                round_of == (|r: XactCommittedRound<T>| r.round.0),
                lists(keys@, before.seals.dom()),
                self.processors == old(self).processors,
                self.tombstone_duration == old(self).tombstone_duration,
                self.missing == old(self).missing,
                self.retry == old(self).retry,
                self.resubmit == before.resubmit,
                self.resubmit == old(self).resubmit,
                some_dispatched(before.xacts, self@.xacts),
                forall|h: T::HashID| #[trigger]
                    before.xacts.contains_key(h) ==> self@.xacts[h] == (if handed(
                        before,
                        keys@,
                        i as int,
                        target,
                        now,
                        h,
                    ) {
                        before.xacts[h].dispatch()
                    } else {
                        before.xacts[h]
                    }),
                forall|r: u128| #[trigger]
                    self@.seals.contains_key(r) ==> before.seals.contains_key(r),
                forall|j: int|
                    0 <= j < i ==> {
                        let r = #[trigger] keys@[j];
                        &&& self@.seals.contains_key(r) <==> before.send_rounds(
                            target,
                            now,
                            delays,
                        ).seals.contains_key(r)
                        &&& self@.seals.contains_key(r) ==> self@.seals[r] == before.round_after(
                            r,
                            target,
                            now,
                            delays,
                        )
                    },
                forall|j: int|
                    i <= j < keys@.len() ==> self@.seals.contains_key(#[trigger] keys@[j])
                        && self@.seals[keys@[j]] == before.seals[keys@[j]],
                forall|j: int|
                    0 <= j < i && due.contains(#[trigger] keys@[j]) ==> delays_by(
                        *retry_delay,
                        before.resubmit,
                        before.seals[keys@[j]].retries[target.0].nretries,
                        delays[keys@[j]],
                    ),
                listed(rounds@.map_values(round_of), keys@, i as int, due),
                forall|k: int|
                    0 <= k < rounds@.len() ==> {
                        &&& (#[trigger] rounds@[k]).seal is None
                        &&& before.seals[rounds@[k].round.0].requests(
                            before.xacts,
                            target,
                            rounds@[k].reqs@,
                        )
                    },
                is_earliest(curr, crate::time::times_of(keys@, i as int, time)),
            decreases keys.len() - i,
        {
            let round = keys[i];
            assert(keys@.contains(round));
            assert(before.seals.contains_key(round));
            assert(self@.seals.contains_key(keys@[i as int]));
            let ghost xacts = self@.xacts;
            let ghost seals = self@.seals;
            let ghost delays_before = delays;
            let ghost sent_before = rounds@;
            let ghost was = before.seals[round];
            proof {
                crate::time::lemma_earliest_step(keys@, i as int, time, curr);
                lemma_listed_step(rounds@.map_values(round_of), keys@, i as int, due);
                lemma_round_unaffected(was, before.xacts, xacts, target);
                lemma_handed_step(before, keys@, i as int, target, now);
            }
            match self.seals.remove(&round) {
                Some(mut entry) => {
                    assert(entry@ == was);
                    let retry = match entry.retries.get(&target.0) {
                        Some(retry) => Some(*retry),
                        None => None,
                    };
                    match retry {
                        Some(retry) => {
                            curr = earlier(curr, retry.when);
                            let due_now = match retry.when {
                                Some(when) => when.nanos < now.nanos,
                                None => false,
                            };
                            assert(due_now == was.send_due(target, now));
                            if due_now {
                                assert(before.round_due(round, target, now));
                                match entry.get_processor_reqs(&mut self.xacts, target) {
                                    Some(reqs) => {
                                        assert(due.contains(round));
                                        rounds.push(
                                            XactCommittedRound {
                                                round: ConsensusRoundID(round),
                                                seal: None,
                                                reqs,
                                            },
                                        );
                                        assert(rounds@.map_values(round_of)
                                            =~= sent_before.map_values(round_of).push(round));
                                        let delay = retry_delay(&self.resubmit, retry.nretries);
                                        assert(delays_by(
                                            *retry_delay,
                                            before.resubmit,
                                            retry.nretries,
                                            delay,
                                        ));
                                        proof {
                                            delays = delays.insert(round, delay);
                                        }
                                        entry.retries.insert(
                                            target.0,
                                            ConsensusSealRetry {
                                                nretries: retry.nretries + 1,
                                                when: Some(now.after(delay)),
                                            },
                                        );
                                    },
                                    None => {
                                        assert(!due.contains(round));
                                        entry.retries.insert(
                                            target.0,
                                            ConsensusSealRetry {
                                                nretries: retry.nretries,
                                                when: None,
                                            },
                                        );
                                    },
                                }
                                assert(entry@.retries =~= was.sent(
                                    before.xacts,
                                    target,
                                    now.plus(delays[round]),
                                ).retries);
                                assert(entry@ == was.sent(
                                    before.xacts,
                                    target,
                                    now.plus(delays[round]),
                                ));
                                assert(self@.xacts =~= was.after_dispatch(xacts, target));
                            } else {
                                assert(!before.round_due(round, target, now));
                                assert(!due.contains(round));
                            }
                            assert(entry@ == before.round_after(round, target, now, delays));
                            if !entry.completed.all() {
                                proof {
                                    let k = choose|k: int|
                                        0 <= k < entry.completed@.len() && !entry.completed@[k];
                                    assert(!entry@.completed[k]);
                                }
                                self.seals.insert(round, entry);
                                assert(self@.seals =~= seals.insert(round, entry@));
                            } else {
                                assert(entry@.all_completed());
                                assert(self@.seals =~= seals.remove(round));
                            }
                        },
                        None => {
                            assert(!before.round_due(round, target, now));
                            assert(!due.contains(round));
                            self.seals.insert(round, entry);
                            assert(self@.seals =~= seals.insert(round, entry@));
                        },
                    }
                },
                None => {
                    assert(false);
                },
            }
            proof {
                assert(self@.xacts.dom() =~= before.xacts.dom());
                assert forall|h: T::HashID| #[trigger]
                    before.xacts.contains_key(h) implies self@.xacts[h] == (if handed(
                    before,
                    keys@,
                    i + 1,
                    target,
                    now,
                    h,
                ) {
                    before.xacts[h].dispatch()
                } else {
                    before.xacts[h]
                }) by {
                    assert(xacts.dom().contains(h));
                    assert(was.dispatches_hash(xacts, target, h) <==> was.dispatches_hash(
                        before.xacts,
                        target,
                        h,
                    ));
                }
                let after = before.send_rounds(target, now, delays);
                assert(self@.seals.contains_key(round) <==> after.seals.contains_key(round));
                assert forall|j: int| 0 <= j < i implies #[trigger] keys@[j] != round by {}
                assert forall|j: int| 0 <= j < i implies {
                    let r = #[trigger] keys@[j];
                    before.round_after(r, target, now, delays) == before.round_after(
                        r,
                        target,
                        now,
                        delays_before,
                    )
                } by {}
            }
            i += 1;
        }
        proof {
            assert forall|r: u128| #[trigger] before.seals.contains_key(r) implies exists|j: int|
                0 <= j < keys@.len() && keys@[j] == r by {
                assert(before.seals.dom().contains(r));
            }
            let after = before.send_rounds(target, now, delays);
            assert forall|h: T::HashID| #[trigger]
                handed(before, keys@, keys@.len() as int, target, now, h)
                    <==> before.round_dispatches(target, now, h) by {
                if before.round_dispatches(target, now, h) {
                    let r = choose|r: u128| #[trigger]
                        before.round_due(r, target, now) && before.seals[r].dispatches_hash(
                            before.xacts,
                            target,
                            h,
                        );
                    let j = choose|j: int| 0 <= j < keys@.len() && keys@[j] == r;
                    assert(keys@[j] == r);
                }
            }
            assert(self@.xacts =~= after.xacts) by {
                assert forall|h: T::HashID| #[trigger]
                    before.xacts.contains_key(h) implies self@.xacts[h] == after.xacts[h] by {
                    assert(handed(before, keys@, keys@.len() as int, target, now, h)
                        <==> before.round_dispatches(target, now, h));
                }
            }
            assert(self@.seals =~= after.seals) by {
                assert forall|r: u128|
                    self@.seals.contains_key(r) <==> #[trigger] after.seals.contains_key(r) by {
                    if before.seals.contains_key(r) {
                        let j = choose|j: int| 0 <= j < keys@.len() && keys@[j] == r;
                        assert(keys@[j] == r);
                    }
                }
                assert forall|r: u128| #[trigger] after.seals.contains_key(r) implies self@.seals[r]
                    == after.seals[r] by {
                    let j = choose|j: int| 0 <= j < keys@.len() && keys@[j] == r;
                    assert(keys@[j] == r);
                }
            }
            assert(self@ == after);
            assert(before.round_delays(target, now, *retry_delay, delays)) by {
                assert forall|r: u128| #[trigger]
                    before.rounds_sent(target, now).contains(r) implies delays_by(
                    *retry_delay,
                    before.resubmit,
                    before.seals[r].retries[target.0].nretries,
                    delays[r],
                ) by {
                    let j = choose|j: int| 0 <= j < keys@.len() && keys@[j] == r;
                    assert(due.contains(keys@[j]));
                }
            }
            crate::time::lemma_earliest_all(keys@, time, curr, before.send_times(target));
            lemma_listed_all(rounds@.map_values(round_of), keys@, due);
        }
        (rounds, curr)
    }

    /// Collect what the processor `target` is to be sent: its parts of committed
    /// rounds, and the transactions that it is to try without a round; and the time
    /// of the next dispatch as it was before this one.
    pub fn get_processor_msgs<F: Fn(&T::Retry, usize) -> Duration>(
        &mut self,
        target: ProcessorIdx,
        now: Instant,
        retry_delay: &F,
    ) -> (r: (Vec<XactCommittedRound<T>>, Vec<XactSealed<T>>, Option<Instant>))
        requires
            old(self).wf(),
            old(self)@.can_retry(),
            can_delay(*retry_delay, old(self)@.resubmit, now),
        ensures
            final(self).wf(),
            exists|delays: Map<T::HashID, Duration>, round_delays: Map<u128, Duration>|
                {
                    let tried = old(self)@.submit_precommits(target, now, delays);
                    &&& #[trigger] old(self)@.stage_delays(
                        old(self)@.precommit_due(target, now),
                        *retry_delay,
                        delays,
                    )
                    &&& #[trigger] old(self)@.round_delays(
                        target,
                        now,
                        *retry_delay,
                        round_delays,
                    )
                    &&& final(self)@ == tried.send_rounds(target, now, round_delays)
                },
            old(self)@.asks_committed(target, now, r.0@),
            old(self)@.asks_uncommitted(old(self)@.precommit_due(target, now), r.1@),
            is_earliest(
                r.2,
                old(self)@.precommit_times(target).union(old(self)@.send_times(target)),
            ),
    {
        let ghost before = self@;
        let (reqs, curr) = self.precommit_reqs(target, now, retry_delay);
        let ghost tried = self@;
        let ghost delays = choose|delays: Map<T::HashID, Duration>|
            {
                &&& #[trigger] before.stage_delays(
                    before.precommit_due(target, now),
                    *retry_delay,
                    delays,
                )
                &&& tried == before.submit_precommits(target, now, delays)
            };
        assert(tried.wf());
        let (rounds, next) = self.committed_rounds(target, now, retry_delay);
        proof {
            let round_delays = choose|round_delays: Map<u128, Duration>|
                {
                    &&& #[trigger] tried.round_delays(target, now, *retry_delay, round_delays)
                    &&& self@ == tried.send_rounds(target, now, round_delays)
                };
            crate::laws::lemma_rounds_unaffected_by_trial(before, target, now, delays);
            assert(before.round_delays(target, now, *retry_delay, round_delays)) by {
                assert forall|r: u128| #[trigger]
                    before.rounds_sent(target, now).contains(r) implies delays_by(
                    *retry_delay,
                    before.resubmit,
                    before.seals[r].retries[target.0].nretries,
                    round_delays[r],
                ) by {
                    assert(tried.rounds_sent(target, now).contains(r));
                }
            }
            crate::laws::lemma_send_rounds_wf(tried, target, now, round_delays);
        }
        (rounds, reqs, earlier(curr, next))
    }

    /// Collect outbound messages for a client, which is subscribed to the
    /// transactions `hashes`, and the time at which it is to be served again.
    pub fn get_client_msgs<F: Fn(&T::Retry, usize) -> Duration>(
        &mut self,
        hashes: &mut HashSet<T::HashID>,
        client: &T::Prin,
        now: Instant,
        retry_delay: &F,
    ) -> (r: (Vec<XactNotify<T::HashID, Vec<u8>>>, Option<Instant>))
        requires
            old(self).wf(),
            old(self)@.xacts_can_retry(),
            can_delay(*retry_delay, old(self)@.resubmit, now),
        ensures
            final(self).wf(),
            exists|delays: Map<T::HashID, Duration>|
                {
                    &&& #[trigger] old(self)@.client_delays(
                        old(hashes)@,
                        *client,
                        *retry_delay,
                        delays,
                    )
                    &&& final(self)@ == old(self)@.serve_client(
                        old(hashes)@,
                        *client,
                        now,
                        delays,
                    )
                    &&& is_earliest(
                        r.1,
                        old(self)@.client_times(old(hashes)@, *client, now, delays),
                    )
                },
            final(hashes)@ == old(self)@.client_keeps(old(hashes)@, *client, now),
            old(self)@.tells(old(hashes)@, *client, now, r.0@),
    {
        let keys = set_elements(hashes);
        let mut notifies: Vec<XactNotify<T::HashID, Vec<u8>>> = Vec::new();
        let mut min: Option<Instant> = None;
        let ghost before = self@;
        let ghost subscribed = hashes@;
        let ghost awaits = before.client_awaits(subscribed, *client);
        let ghost due = before.client_due(subscribed, *client, now);
        let ghost expires = before.client_expires(subscribed, *client, now);
        let ghost keeps = before.client_keeps(subscribed, *client, now);
        let ghost mut delays: Map<T::HashID, Duration> = Map::empty();
        let ghost hash_of = |n: XactNotify<T::HashID, Vec<u8>>| n.hash;
        let mut i: usize = 0;
        assert(notifies@.map_values(hash_of) =~= Seq::empty());
        while i < keys.len()
            invariant
                keys_ok::<T>(),
                i <= keys.len(),
                before == old(self)@,
                before.xacts_can_retry(),
                can_delay(*retry_delay, before.resubmit, now),
                subscribed == old(hashes)@,
                awaits == before.client_awaits(subscribed, *client),
                due == before.client_due(subscribed, *client, now),
                expires == before.client_expires(subscribed, *client, now),
                keeps == before.client_keeps(subscribed, *client, now),
                hash_of == (|n: XactNotify<T::HashID, Vec<u8>>| n.hash),
                lists(keys@, subscribed),
                self.processors == old(self).processors,
                self.tombstone_duration == old(self).tombstone_duration,
                self.seals == old(self).seals,
                self.missing == old(self).missing,
                self.retry == old(self).retry,
                self.resubmit == before.resubmit,
                self.resubmit == old(self).resubmit,
                forall|h: T::HashID| #[trigger]
                    self@.xacts.contains_key(h) ==> before.xacts.contains_key(h),
                forall|h: T::HashID| #[trigger]
                    before.xacts.contains_key(h) && !subscribed.contains(h)
                        ==> self@.xacts.contains_key(h) && self@.xacts[h] == before.xacts[h],
                forall|j: int|
                    0 <= j < i ==> {
                        let h = #[trigger] keys@[j];
                        &&& self@.xacts.contains_key(h) <==> before.xacts.contains_key(h)
                            && !expires.contains(h)
                        &&& self@.xacts.contains_key(h) ==> self@.xacts[h] == (if awaits.contains(
                            h,
                        ) {
                            before.xacts[h].served(*client, now.plus(delays[h]))
                        } else {
                            before.xacts[h]
                        })
                        &&& hashes@.contains(h) <==> keeps.contains(h)
                        &&& awaits.contains(h) ==> delays_by(
                            *retry_delay,
                            before.resubmit,
                            before.xacts[h].reporting[*client].nretries,
                            delays[h],
                        )
                    },
                forall|j: int|
                    i <= j < keys@.len() ==> {
                        let h = #[trigger] keys@[j];
                        &&& self@.xacts.contains_key(h) <==> before.xacts.contains_key(h)
                        &&& self@.xacts.contains_key(h) ==> self@.xacts[h] == before.xacts[h]
                        &&& hashes@.contains(h)
                    },
                forall|h: T::HashID| #[trigger] hashes@.contains(h) ==> subscribed.contains(h),
                listed(notifies@.map_values(hash_of), keys@, i as int, due),
                forall|k: int|
                    0 <= k < notifies@.len() ==> (#[trigger] notifies@[k]).state@
                        == before.xacts[notifies@[k].hash].message(*client),
                is_earliest(
                    min,
                    crate::time::times_of(keys@, i as int, next_time(awaits, now, delays)),
                ),
            decreases keys.len() - i,
        {
            let hash = copy_key(&keys[i]);
            assert(keys@.contains(hash));
            assert(subscribed.contains(hash));
            let ghost was = self@.xacts;
            let ghost told = notifies@;
            let ghost delays_before = delays;
            let ghost kept = hashes@;
            proof {
                lemma_listed_step(notifies@.map_values(hash_of), keys@, i as int, due);
            }
            let mut next: Option<Instant> = None;
            match self.xacts.remove(&hash) {
                Some(mut entry) => {
                    assert(was.contains_key(hash));
                    assert(before.xacts.contains_key(hash));
                    let ghost old_entry = entry@;
                    assert(old_entry == before.xacts[hash]);
                    let (action, time) = entry.get_client_msg(
                        &hash,
                        now,
                        client,
                        &self.resubmit,
                        retry_delay,
                        &mut notifies,
                    );
                    next = time;
                    proof {
                        if awaits.contains(hash) {
                            let delay = choose|d: Duration|
                                next->0 == now.plus(d) && #[trigger] delays_by(
                                    *retry_delay,
                                    before.resubmit,
                                    old_entry.reporting[*client].nretries,
                                    d,
                                );
                            delays = delays.insert(hash, delay);
                        }
                        if due.contains(hash) {
                            assert(notifies@.map_values(hash_of) =~= told.map_values(hash_of).push(
                                hash,
                            )) by {
                                assert(notifies@ =~= told.push(notifies@.last()));
                                assert(notifies@.last()@.hash == hash);
                            }
                            assert forall|k: int| 0 <= k < notifies@.len() implies (
                            #[trigger] notifies@[k]).state@ == before.xacts[notifies@[k].hash].message(
                                *client,
                            ) by {
                                if k < told.len() {
                                    assert(notifies@[k] == notifies@.drop_last()[k]);
                                    assert(notifies@[k] == told[k]);
                                } else {
                                    assert(notifies@[k] == notifies@.last());
                                    assert(notifies@.last()@.state == old_entry.message(*client));
                                }
                            }
                        }
                    }
                    match action {
                        DeleteAction::Unsubscribe => {
                            assert(!keeps.contains(hash));
                            self.xacts.insert(copy_key(&hash), entry);
                            assert(self@.xacts =~= was.insert(hash, entry@));
                            hashes.remove(&hash);
                        },
                        DeleteAction::Expire => {
                            assert(expires.contains(hash));
                            assert(self@.xacts =~= was.remove(hash));
                            hashes.remove(&hash);
                        },
                        DeleteAction::Retain => {
                            assert(!expires.contains(hash));
                            assert(keeps.contains(hash));
                            self.xacts.insert(copy_key(&hash), entry);
                            assert(self@.xacts =~= was.insert(hash, entry@));
                        },
                    }
                },
                None => {
                    assert(!was.contains_key(hash));
                    assert(self@.xacts =~= was);
                    assert(!keeps.contains(hash));
                    hashes.remove(&hash);
                },
            }
            proof {
                assert forall|j: int| 0 <= j < keys@.len() && j != i implies #[trigger] keys@[j]
                    != hash by {}
                let time_before = next_time(awaits, now, delays_before);
                let time = next_time(awaits, now, delays);
                assert(next == time(hash));
                crate::time::lemma_times_same(keys@, i as int, time_before, time);
                crate::time::lemma_earliest_step(keys@, i as int, time, min);
            }
            min = earlier(min, next);
            i += 1;
        }
        proof {
            let after = before.serve_client(subscribed, *client, now, delays);
            assert forall|h: T::HashID| #[trigger] subscribed.contains(h) implies exists|j: int|
                0 <= j < keys@.len() && keys@[j] == h by {
                assert(keys@.contains(h));
            }
            assert(self@.xacts =~= after.xacts) by {
                assert forall|h: T::HashID|
                    self@.xacts.contains_key(h) <==> #[trigger] after.xacts.contains_key(h) by {
                    if subscribed.contains(h) {
                        let j = choose|j: int| 0 <= j < keys@.len() && keys@[j] == h;
                        assert(keys@[j] == h);
                    }
                }
                assert forall|h: T::HashID| #[trigger]
                    after.xacts.contains_key(h) implies self@.xacts[h] == after.xacts[h] by {
                    if subscribed.contains(h) {
                        let j = choose|j: int| 0 <= j < keys@.len() && keys@[j] == h;
                        assert(keys@[j] == h);
                    }
                }
            }
            assert(self@ == after);
            assert(hashes@ =~= keeps) by {
                assert forall|h: T::HashID| hashes@.contains(h) <==> keeps.contains(h) by {
                    if subscribed.contains(h) {
                        let j = choose|j: int| 0 <= j < keys@.len() && keys@[j] == h;
                        assert(keys@[j] == h);
                    }
                }
            }
            assert(before.client_delays(subscribed, *client, *retry_delay, delays)) by {
                assert forall|h: T::HashID| #[trigger]
                    before.client_awaits(subscribed, *client).contains(h) implies delays_by(
                    *retry_delay,
                    before.resubmit,
                    before.xacts[h].reporting[*client].nretries,
                    delays[h],
                ) by {
                    let j = choose|j: int| 0 <= j < keys@.len() && keys@[j] == h;
                    assert(awaits.contains(keys@[j]));
                }
            }
            let time = next_time(awaits, now, delays);
            let times = before.client_times(subscribed, *client, now, delays);
            assert forall|t: Instant| #[trigger] times.contains(t) <==> exists|h: T::HashID|
                #[trigger] keys@.contains(h) && time(h) == Some(t) by {
                if times.contains(t) {
                    let h = choose|h: T::HashID| #[trigger]
                        before.client_awaits(subscribed, *client).contains(h) && t == now.plus(
                            delays[h],
                        );
                    assert(subscribed.contains(h));
                    assert(keys@.contains(h) && time(h) == Some(t));
                }
                if exists|h: T::HashID| #[trigger] keys@.contains(h) && time(h) == Some(t) {
                    let h = choose|h: T::HashID| #[trigger]
                        keys@.contains(h) && time(h) == Some(t);
                    assert(before.client_awaits(subscribed, *client).contains(h));
                }
            }
            crate::time::lemma_earliest_all(keys@, time, min, times);
            lemma_listed_all(notifies@.map_values(hash_of), keys@, due);
        }
        (notifies, min)
    }

    /// A round has committed a transaction at `lin_point`.  Returns whether the
    /// transaction is here, and the processor that it is for where it is pending.
    fn commit(&mut self, hash: &T::HashID, lin_point: XactLinPoint, now: Instant) -> (r: (
        bool,
        Option<ProcessorIdx>,
    ))
        requires
            keys_ok::<T>(),
        ensures
            final(self).processors == old(self).processors,
            final(self).tombstone_duration == old(self).tombstone_duration,
            final(self).seals == old(self).seals,
            final(self).missing == old(self).missing,
            final(self).retry == old(self).retry,
            final(self).resubmit == old(self).resubmit,
            r.0 == old(self)@.xacts.contains_key(*hash),
            r.0 ==> final(self)@.xacts == old(self)@.xacts.insert(
                *hash,
                old(self)@.xacts[*hash].committed(lin_point, now),
            ),
            !r.0 ==> final(self)@.xacts == old(self)@.xacts,
            r.1 == (match old(self)@.xacts[*hash].state {
                PeerXactState::Pending { processor, .. } if r.0 => Some(processor),
                _ => None,
            }),
    {
        let ghost before = self@.xacts;
        match self.xacts.remove(hash) {
            Some(mut entry) => {
                let ghost was = entry@;
                assert(was == before[*hash]);
                let processor = match &entry.state {
                    PeerXactState::Pending { processor, .. } => Some(*processor),
                    _ => None,
                };
                if processor.is_some() {
                    let stage = PendingXactStage::Process { dispatched: false, lin_point };
                    Self::set_stage(&mut entry, stage);
                    entry.reset_reporting(now);
                }
                assert(entry@ == was.committed(lin_point, now));
                self.xacts.insert(copy_key(hash), entry);
                assert(self@.xacts =~= before.insert(*hash, was.committed(lin_point, now)));
                (true, processor)
            },
            None => {
                assert(self@.xacts =~= before);
                (false, None)
            },
        }
    }

    /// Record a round that consensus has committed.  Returns whether the round is
    /// new, so that those who wait for changes are to be notified.
    pub fn add_consensus_seal(
        &mut self,
        round: ConsensusRoundID,
        seal: XactConsensusSeal<T>,
        now: Instant,
    ) -> (notify: bool)
        requires
            old(self).wf(),
            seal.hashes@.len() <= usize::MAX / 8,
        ensures
            final(self).wf(),
            final(self)@ == old(self)@.add_seal(round, seal.hashes@, seal.seals@, now),
            notify == !old(self)@.seals.contains_key(round.0),
    {
        let ghost before = self@;
        let ghost seals = seal.seals@;
        let ghost hashes = seal.hashes@;
        proof {
            crate::laws::lemma_add_seal_wf(before, round, hashes, seals, now);
        }
        if self.seals.contains_key(&round.0) {
            return false;
        }
        let nents = seal.hashes.len();
        let completed = Bits::repeat(false, nents);
        let mut known = Bits::repeat(true, nents);
        let mut retries: HashMap<usize, ConsensusSealRetry> = HashMap::new();
        let mut i: usize = 0;
        proof {
            let none = hashes.take(0);
            assert(self@.xacts =~= before.add_seal(round, none, seals, now).xacts);
            assert(self@.missing =~= before.add_seal(round, none, seals, now).missing);
            assert(retries@ =~= before.new_round(none, seals, now).retries);
        }
        while i < nents
            invariant
                keys_ok::<T>(),
                i <= nents,
                nents == hashes.len(),
                hashes == seal.hashes@,
                seals == seal.seals@,
                before == old(self)@,
                !before.seals.contains_key(round.0),
                self.processors == old(self).processors,
                self.tombstone_duration == old(self).tombstone_duration,
                self.seals == old(self).seals,
                self.retry == old(self).retry,
                self.resubmit == old(self).resubmit,
                self@.xacts == before.add_seal(round, hashes.take(i as int), seals, now).xacts,
                self@.missing == before.add_seal(round, hashes.take(i as int), seals, now).missing,
                retries@ == before.new_round(hashes.take(i as int), seals, now).retries,
                known@.len() == nents,
                forall|j: int|
                    0 <= j < nents ==> #[trigger] known@[j] == (j >= i
                        || before.xacts.contains_key(hashes[j])),
            decreases nents - i,
        {
            proof {
                crate::laws::lemma_seal_step(before, round, hashes, seals, now, i as int);
            }
            let hash = &seal.hashes[i];
            let ghost was = self@.missing;
            let (present, processor) = self.commit(hash, XactLinPoint { round, idx: i }, now);
            if present {
                match processor {
                    Some(processor) => {
                        let start = ConsensusSealRetry { nretries: 0, when: Some(now) };
                        retries.insert(processor.0, start);
                    },
                    None => {},
                }
            } else {
                known.set(i, false);
                self.missing.insert(copy_key(hash), round);
                assert(self@.missing =~= was.insert(*hash, round));
            }
            i += 1;
        }
        let entry = ConsensusSealEntry { seal, completed, known, retries };
        proof {
            assert(hashes.take(nents as int) =~= hashes);
            let new = before.new_round(hashes, seals, now);
            assert(entry@.completed =~= new.completed);
            assert(entry@.known =~= new.known);
        }
        self.seals.insert(round.0, entry);
        assert(self@.seals =~= before.seals.insert(round.0, entry@));
        assert(self@ == before.add_seal(round, hashes, seals, now));
        true
    }
}

impl<T: SealTypes> PeerXact<T> {
    /// Whether no retry counter is at the end of its range.
    fn can_retry(&self) -> (r: bool)
        requires
            keys_ok::<T>(),
        ensures
            r == self@.can_retry(),
    {
        let at_end = match &self.state {
            PeerXactState::Pending { stage, .. } => match stage {
                PendingXactStage::PreCommit { nretries, .. } => *nretries == usize::MAX,
                PendingXactStage::Commit { nretries, .. } => *nretries == usize::MAX,
                PendingXactStage::Process { .. } => false,
            },
            _ => false,
        };
        if at_end {
            return false;
        }
        let keys = map_keys(&self.reporting);
        let mut i: usize = 0;
        while i < keys.len()
            invariant
                keys_ok::<T>(),
                i <= keys.len(),
                lists(keys@, self.reporting@.dom()),
                forall|j: int|
                    0 <= j < i ==> self.reporting@[#[trigger] keys@[j]].nretries < usize::MAX,
            decreases keys.len() - i,
        {
            assert(keys@.contains(keys@[i as int]));
            match self.reporting.get(&keys[i]) {
                Some(report) => {
                    if report.nretries == usize::MAX {
                        assert(self@.reporting.contains_key(keys@[i as int]));
                        return false;
                    }
                },
                None => {},
            }
            i += 1;
        }
        assert forall|c: T::Prin| #[trigger]
            self@.reporting.contains_key(c) implies self@.reporting[c].nretries < usize::MAX by {
            assert(self.reporting@.dom().contains(c));
            assert(keys@.contains(c));
        }
        true
    }
}

impl<T: SealTypes> ConsensusSealEntry<T> {
    /// Whether no retry counter is at the end of its range.
    fn can_retry(&self) -> (r: bool)
        ensures
            r == self@.can_retry(),
    {
        proof {
            crate::keys::lemma_integers_are_keys();
        }
        let keys = map_keys(&self.retries);
        let mut i: usize = 0;
        while i < keys.len()
            invariant
                i <= keys.len(),
                lists(keys@, self.retries@.dom()),
                forall|j: int|
                    0 <= j < i ==> self.retries@[#[trigger] keys@[j]].nretries < usize::MAX,
            decreases keys.len() - i,
        {
            assert(keys@.contains(keys@[i as int]));
            match self.retries.get(&keys[i]) {
                Some(retry) => {
                    if retry.nretries == usize::MAX {
                        assert(self@.retries.contains_key(keys@[i as int]));
                        return false;
                    }
                },
                None => {},
            }
            i += 1;
        }
        assert forall|p: usize| #[trigger]
            self@.retries.contains_key(p) implies self@.retries[p].nretries < usize::MAX by {
            assert(self.retries@.dom().contains(p));
            assert(keys@.contains(p));
        }
        true
    }
}

/// When each of the transactions in `awaits` is to be reported next.
spec fn next_time<H>(awaits: Set<H>, now: Instant, delays: Map<H, Duration>) -> spec_fn(
    H,
) -> Option<Instant> {
    |h: H|
        if awaits.contains(h) {
            Some(now.plus(delays[h]))
        } else {
            None
        }
}

/// Whether one of the first `n` of `keys` is a due round that hands `h` to the
/// processor `target`.
spec fn handed<T: SealTypes>(
    s: PeerStateView<T>,
    keys: Seq<u128>,
    n: int,
    target: ProcessorIdx,
    now: Instant,
    h: T::HashID,
) -> bool {
    exists|j: int|
        0 <= j < n && s.round_due(#[trigger] keys[j], target, now)
            && s.seals[keys[j]].dispatches_hash(s.xacts, target, h)
}

/// What one more round hands out.
proof fn lemma_handed_step<T: SealTypes>(
    s: PeerStateView<T>,
    keys: Seq<u128>,
    n: int,
    target: ProcessorIdx,
    now: Instant,
)
    requires
        0 <= n < keys.len(),
    ensures
        forall|h: T::HashID| #[trigger]
            handed(s, keys, n + 1, target, now, h) <==> handed(s, keys, n, target, now, h) || (
            s.round_due(keys[n], target, now) && s.seals[keys[n]].dispatches_hash(
                s.xacts,
                target,
                h,
            )),
{
    assert forall|h: T::HashID| #[trigger]
        handed(s, keys, n + 1, target, now, h) <==> handed(s, keys, n, target, now, h) || (
        s.round_due(keys[n], target, now) && s.seals[keys[n]].dispatches_hash(
            s.xacts,
            target,
            h,
        )) by {
        if handed(s, keys, n, target, now, h) {
            let j = choose|j: int|
                0 <= j < n && s.round_due(#[trigger] keys[j], target, now)
                    && s.seals[keys[j]].dispatches_hash(s.xacts, target, h);
            assert(s.round_due(keys[j], target, now));
        }
        if handed(s, keys, n + 1, target, now, h) {
            let j = choose|j: int|
                0 <= j < n + 1 && s.round_due(#[trigger] keys[j], target, now)
                    && s.seals[keys[j]].dispatches_hash(s.xacts, target, h);
            assert(s.round_due(keys[j], target, now));
        }
    }
}

/// Whether `list` holds those of the first `n` of `keys` that are in `due`, each
/// once.
spec fn listed<H>(list: Seq<H>, keys: Seq<H>, n: int, due: Set<H>) -> bool {
    &&& list.no_duplicates()
    &&& forall|h: H| #[trigger]
        list.contains(h) <==> due.contains(h) && exists|j: int|
            0 <= j < n && #[trigger] keys[j] == h
}

/// One more key is listed where it is due.
proof fn lemma_listed_step<H>(list: Seq<H>, keys: Seq<H>, n: int, due: Set<H>)
    requires
        0 <= n < keys.len(),
        keys.no_duplicates(),
        listed(list, keys, n, due),
    ensures
        due.contains(keys[n]) ==> listed(list.push(keys[n]), keys, n + 1, due),
        !due.contains(keys[n]) ==> listed(list, keys, n + 1, due),
{
    let more = if due.contains(keys[n]) {
        list.push(keys[n])
    } else {
        list
    };
    assert forall|h: H| #[trigger]
        more.contains(h) <==> due.contains(h) && exists|j: int|
            0 <= j < n + 1 && #[trigger] keys[j] == h by {
        if more.contains(h) {
            let k = choose|k: int| 0 <= k < more.len() && more[k] == h;
            if k < list.len() {
                assert(list[k] == h);
                assert(list.contains(h));
            } else {
                assert(keys[n] == h);
            }
        }
        if due.contains(h) && exists|j: int| 0 <= j < n + 1 && #[trigger] keys[j] == h {
            let j = choose|j: int| 0 <= j < n + 1 && #[trigger] keys[j] == h;
            if j < n {
                assert(list.contains(h));
                let k = choose|k: int| 0 <= k < list.len() && list[k] == h;
                assert(more[k] == h);
            } else {
                assert(more[list.len() as int] == h);
            }
        }
    }
    if due.contains(keys[n]) && list.contains(keys[n]) {
        let j = choose|j: int| 0 <= j < n && #[trigger] keys[j] == keys[n];
        assert(false);
    }
}

/// Once all keys are through, everything that is due is listed.
proof fn lemma_listed_all<H>(list: Seq<H>, keys: Seq<H>, due: Set<H>)
    requires
        listed(list, keys, keys.len() as int, due),
        forall|h: H| #[trigger] due.contains(h) ==> keys.contains(h),
    ensures
        lists(list, due),
        list.len() == 0 ==> forall|h: H| !#[trigger] due.contains(h),
{
    assert forall|h: H| #[trigger] due.contains(h) implies list.contains(h) by {
        assert(keys.contains(h));
    }
    if list.len() == 0 {
        assert forall|h: H| !#[trigger] due.contains(h) by {
            if due.contains(h) {
                assert(list.contains(h));
            }
        }
    }
}

} // verus!
