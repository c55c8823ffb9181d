//! A committed round as the peer holds it: which of its transactions are known,
//! which are over, and when each processor is to be sent its part.
use crate::bits::Bits;
use crate::ids::ProcessorIdx;
use crate::keys::copy_key;
use crate::peer_xact::PeerXact;
use crate::peer_xact::PeerXactState;
use crate::peer_xact::PeerXactView;
use crate::peer_xact::PendingXactStage;
use crate::time::Instant;
use crate::types::keys_ok;
use crate::types::SealTypes;
use crate::xact::copy_bytes;
use crate::xact::XactCommittedEffects;
use crate::xact::XactCommittedReq;
use crate::xact::XactConsensusSeal;
use crate::xact::XactEffects;
use std::collections::HashMap;
use vstd::prelude::*;

verus! {

/// When a round is to be sent to a processor again.
#[derive(Clone, Copy, Debug, PartialEq, Eq, Structural)]
pub struct ConsensusSealRetry {
    pub nretries: usize,
    pub when: Option<Instant>,
}

/// A committed round.
pub struct ConsensusSealEntry<T: SealTypes> {
    /// Consensus seal data.
    pub seal: XactConsensusSeal<T>,
    /// Which transactions have been completed.
    pub completed: Bits,
    /// Which transactions are presently known to the peer.
    pub known: Bits,
    /// Retry information, indexed by the processor.
    pub retries: HashMap<usize, ConsensusSealRetry>,
}

/// The content of a [`ConsensusSealEntry`].
pub struct ConsensusSealView<T: SealTypes> {
    pub hashes: Seq<T::HashID>,
    pub seals: Seq<T::Seal>,
    pub completed: Seq<bool>,
    pub known: Seq<bool>,
    pub retries: Map<usize, ConsensusSealRetry>,
}

impl<T: SealTypes> View for ConsensusSealEntry<T> {
    type V = ConsensusSealView<T>;

    open spec fn view(&self) -> ConsensusSealView<T> {
        ConsensusSealView {
            hashes: self.seal.hashes@,
            seals: self.seal.seals@,
            completed: self.completed@,
            known: self.known@,
            retries: self.retries@,
        }
    }
}

/// The contents of a table of transactions.
pub open spec fn xact_views<T: SealTypes>(m: Map<T::HashID, PeerXact<T>>) -> Map<
    T::HashID,
    PeerXactView<T>,
> {
    m.map_values(|x: PeerXact<T>| x@)
}

impl<T: SealTypes> PeerXactState<T, Seq<u8>> {
    /// Whether the transaction is committed and is for the processor `target`.
    pub open spec fn ready_for(self, target: ProcessorIdx) -> bool {
        self matches PeerXactState::Pending {
            processor,
            stage: PendingXactStage::Process { .. },
            ..
        } && processor == target
    }
}

impl<T: SealTypes> PeerXactView<T> {
    /// A committed transaction has been handed to its processor.
    pub open spec fn dispatch(self) -> PeerXactView<T> {
        match self.state {
            PeerXactState::Pending {
                processor,
                stage: PendingXactStage::Process { lin_point, .. },
                xact,
            } => PeerXactView {
                reporting: self.reporting,
                state: PeerXactState::Pending {
                    processor,
                    stage: PendingXactStage::Process { dispatched: true, lin_point },
                    xact,
                },
            },
            _ => self,
        }
    }

    /// Whether `req` asks for this transaction as the one at index `i` of a round.
    pub open spec fn asked_by(self, i: int, req: XactCommittedReq<T>) -> bool {
        &&& self.state matches PeerXactState::Pending { xact, .. }
        &&& req.class == xact.class
        &&& cloned(xact.version, req.version)
        &&& req.instance == xact.instance
        &&& req.idx == i
        &&& req.payload@ == xact.payload
        &&& match xact.effects {
            XactEffects::Effects { effects, hard } => {
                &&& req.effects matches Some(e)
                &&& e.hard == hard
                &&& e.effects@ == effects
            },
            _ => req.effects is None,
        }
    }
}

impl<T: SealTypes> ConsensusSealView<T> {
    /// One bit of each kind for every transaction, and only what is known can be
    /// complete.
    pub open spec fn wf(self) -> bool {
        &&& self.completed.len() == self.hashes.len()
        &&& self.known.len() == self.hashes.len()
        &&& forall|i: int| 0 <= i < self.hashes.len() && #[trigger] self.completed[i] ==> self.known[i]
    }

    /// Whether the transaction at index `i` is known and not yet complete.
    pub open spec fn open_at(self, i: int) -> bool {
        0 <= i < self.hashes.len() && !self.completed[i] && self.known[i]
    }

    /// Whether the transaction at index `i` is to be handed to the processor
    /// `target`.
    pub open spec fn dispatches(
        self,
        xacts: Map<T::HashID, PeerXactView<T>>,
        target: ProcessorIdx,
        i: int,
    ) -> bool {
        &&& self.open_at(i)
        &&& xacts.contains_key(self.hashes[i])
        &&& xacts[self.hashes[i]].state.ready_for(target)
    }

    /// Whether the transaction at index `i` has turned out to be over.
    pub open spec fn finds_over(self, xacts: Map<T::HashID, PeerXactView<T>>, i: int) -> bool {
        &&& self.open_at(i)
        &&& xacts.contains_key(self.hashes[i])
        &&& xacts[self.hashes[i]].state !is Pending
    }

    /// Whether any transaction is to be handed to the processor `target`.
    pub open spec fn dispatches_any(
        self,
        xacts: Map<T::HashID, PeerXactView<T>>,
        target: ProcessorIdx,
    ) -> bool {
        exists|i: int| self.dispatches(xacts, target, i)
    }

    /// Whether the transaction `h` is to be handed to the processor `target`.
    pub open spec fn dispatches_hash(
        self,
        xacts: Map<T::HashID, PeerXactView<T>>,
        target: ProcessorIdx,
        h: T::HashID,
    ) -> bool {
        exists|i: int| #[trigger] self.dispatches(xacts, target, i) && self.hashes[i] == h
    }

    /// Whether `reqs` asks for exactly the transactions that are to be handed to
    /// the processor `target`, in the order of the round.
    pub open spec fn requests(
        self,
        xacts: Map<T::HashID, PeerXactView<T>>,
        target: ProcessorIdx,
        reqs: Seq<XactCommittedReq<T>>,
    ) -> bool {
        &&& forall|j: int, k: int| 0 <= j < k < reqs.len() ==> reqs[j].idx < reqs[k].idx
        &&& forall|k: int|
            0 <= k < reqs.len() ==> {
                &&& self.dispatches(xacts, target, (#[trigger] reqs[k]).idx as int)
                &&& xacts[self.hashes[reqs[k].idx as int]].asked_by(reqs[k].idx as int, reqs[k])
            }
        &&& forall|i: int| #[trigger]
            self.dispatches(xacts, target, i) ==> exists|k: int|
                0 <= k < reqs.len() && (#[trigger] reqs[k]).idx == i
    }

    /// The round after the transactions that are over have been marked.
    pub open spec fn marked(self, xacts: Map<T::HashID, PeerXactView<T>>) -> ConsensusSealView<T> {
        ConsensusSealView {
            completed: Seq::new(
                self.completed.len(),
                |i: int| self.completed[i] || self.finds_over(xacts, i),
            ),
            ..self
        }
    }

    /// The transactions after this round was handed to the processor `target`.
    pub open spec fn after_dispatch(
        self,
        xacts: Map<T::HashID, PeerXactView<T>>,
        target: ProcessorIdx,
    ) -> Map<T::HashID, PeerXactView<T>> {
        Map::new(
            |h: T::HashID| xacts.contains_key(h),
            |h: T::HashID|
                if self.dispatches_hash(xacts, target, h) {
                    xacts[h].dispatch()
                } else {
                    xacts[h]
                },
        )
    }

    /// Whether every transaction is complete.
    pub open spec fn all_completed(self) -> bool {
        forall|i: int| 0 <= i < self.completed.len() ==> self.completed[i]
    }
}

/// Whether `b` holds the transactions of `a`, of which some may have been handed
/// to their processors.
pub open spec fn some_dispatched<T: SealTypes>(
    a: Map<T::HashID, PeerXactView<T>>,
    b: Map<T::HashID, PeerXactView<T>>,
) -> bool {
    &&& a.dom() == b.dom()
    &&& forall|h: T::HashID| #[trigger]
        a.contains_key(h) ==> b[h] == a[h] || b[h] == a[h].dispatch()
}

/// What a round hands to a processor does not depend on what has been handed out
/// before.
pub proof fn lemma_round_unaffected<T: SealTypes>(
    seal: ConsensusSealView<T>,
    a: Map<T::HashID, PeerXactView<T>>,
    b: Map<T::HashID, PeerXactView<T>>,
    target: ProcessorIdx,
)
    requires
        some_dispatched(a, b),
    ensures
        forall|i: int| #[trigger] seal.dispatches(b, target, i) <==> seal.dispatches(a, target, i),
        seal.dispatches_any(b, target) <==> seal.dispatches_any(a, target),
        forall|h: T::HashID| #[trigger]
            seal.dispatches_hash(b, target, h) <==> seal.dispatches_hash(a, target, h),
        seal.marked(b) == seal.marked(a),
        forall|reqs: Seq<XactCommittedReq<T>>| #[trigger]
            seal.requests(b, target, reqs) ==> seal.requests(a, target, reqs),
{
    assert forall|i: int| #[trigger]
        seal.dispatches(b, target, i) <==> seal.dispatches(a, target, i) by {
        if seal.open_at(i) {
            assert(a.dom().contains(seal.hashes[i]) <==> b.dom().contains(seal.hashes[i]));
            if a.contains_key(seal.hashes[i]) {
                assert(b[seal.hashes[i]] == a[seal.hashes[i]] || b[seal.hashes[i]]
                    == a[seal.hashes[i]].dispatch());
            }
        }
    }
    if seal.dispatches_any(a, target) {
        let i = choose|i: int| seal.dispatches(a, target, i);
        assert(seal.dispatches(b, target, i));
    }
    if seal.dispatches_any(b, target) {
        let i = choose|i: int| seal.dispatches(b, target, i);
        assert(seal.dispatches(a, target, i));
    }
    assert forall|h: T::HashID| #[trigger]
        seal.dispatches_hash(b, target, h) <==> seal.dispatches_hash(a, target, h) by {
        if seal.dispatches_hash(a, target, h) {
            let i = choose|i: int| #[trigger]
                seal.dispatches(a, target, i) && seal.hashes[i] == h;
            assert(seal.dispatches(b, target, i));
        }
        if seal.dispatches_hash(b, target, h) {
            let i = choose|i: int| #[trigger]
                seal.dispatches(b, target, i) && seal.hashes[i] == h;
            assert(seal.dispatches(a, target, i));
        }
    }
    assert forall|i: int| #[trigger] seal.finds_over(b, i) <==> seal.finds_over(a, i) by {
        if seal.open_at(i) {
            assert(a.dom().contains(seal.hashes[i]) <==> b.dom().contains(seal.hashes[i]));
            if a.contains_key(seal.hashes[i]) {
                assert(b[seal.hashes[i]] == a[seal.hashes[i]] || b[seal.hashes[i]]
                    == a[seal.hashes[i]].dispatch());
            }
        }
    }
    assert(seal.marked(b).completed =~= seal.marked(a).completed);
    assert forall|reqs: Seq<XactCommittedReq<T>>| #[trigger]
        seal.requests(b, target, reqs) implies seal.requests(a, target, reqs) by {
        assert forall|k: int| 0 <= k < reqs.len() implies {
            &&& seal.dispatches(a, target, (#[trigger] reqs[k]).idx as int)
            &&& a[seal.hashes[reqs[k].idx as int]].asked_by(reqs[k].idx as int, reqs[k])
        } by {
            assert(seal.dispatches(b, target, reqs[k].idx as int));
            let h = seal.hashes[reqs[k].idx as int];
            assert(a.contains_key(h));
            assert(b[h].asked_by(reqs[k].idx as int, reqs[k]));
        }
        assert forall|i: int| #[trigger] seal.dispatches(a, target, i) implies exists|k: int|
            0 <= k < reqs.len() && (#[trigger] reqs[k]).idx == i by {
            assert(seal.dispatches(b, target, i));
        }
    }
}

/// What is to be done about one open transaction of a round.
enum RoundStep<T: SealTypes> {
    /// Hand it to the processor.
    Dispatch { req: XactCommittedReq<T> },
    /// Mark it complete.
    Over,
    /// Leave it.
    Skip,
}

impl<T: SealTypes> ConsensusSealEntry<T> {
    /// Decide what is to be done about the open transaction at index `i`.
    fn round_step(
        xacts: &HashMap<T::HashID, PeerXact<T>>,
        hash: &T::HashID,
        target: ProcessorIdx,
        i: usize,
    ) -> (step: RoundStep<T>)
        requires
            keys_ok::<T>(),
        ensures
            match step {
                RoundStep::Dispatch { req } => {
                    &&& xacts@.contains_key(*hash)
                    &&& xacts@[*hash]@.state.ready_for(target)
                    &&& xacts@[*hash]@.asked_by(i as int, req)
                },
                RoundStep::Over => xacts@.contains_key(*hash) && xacts@[*hash]@.state !is Pending,
                RoundStep::Skip => xacts@.contains_key(*hash) ==> {
                    &&& xacts@[*hash]@.state is Pending
                    &&& !xacts@[*hash]@.state.ready_for(target)
                },
            },
    {
        match xacts.get(hash) {
            Some(entry) => match &entry.state {
                PeerXactState::Pending {
                    processor,
                    stage: PendingXactStage::Process { .. },
                    xact,
                } => {
                    if *processor == target {
                        let effects = match &xact.effects {
                            XactEffects::Effects { effects, hard } => Some(
                                XactCommittedEffects { hard: *hard, effects: copy_bytes(effects) },
                            ),
                            XactEffects::SoftNone => None,
                            XactEffects::HardNone { .. } => None,
                        };
                        let version = xact.version.clone();
                        assert(cloned(xact.version, version));
                        RoundStep::Dispatch {
                            req: XactCommittedReq {
                                class: xact.class,
                                version,
                                instance: xact.instance,
                                idx: i,
                                payload: copy_bytes(&xact.payload),
                                effects,
                            },
                        }
                    } else {
                        RoundStep::Skip
                    }
                },
                PeerXactState::Pending { .. } => RoundStep::Skip,
                _ => RoundStep::Over,
            },
            None => RoundStep::Skip,
        }
    }

    /// Collect the requests of this round for the processor `target`, mark the
    /// transactions that they ask for as dispatched, and mark the transactions that
    /// are over as completed.
    pub fn get_processor_reqs(
        &mut self,
        xacts: &mut HashMap<T::HashID, PeerXact<T>>,
        target: ProcessorIdx,
    ) -> (r: Option<Vec<XactCommittedReq<T>>>)
        requires
            keys_ok::<T>(),
            old(self)@.wf(),
        ensures
            final(self)@ == old(self)@.marked(xact_views(old(xacts)@)),
            final(self)@.wf(),
            xact_views(final(xacts)@) == old(self)@.after_dispatch(
                xact_views(old(xacts)@),
                target,
            ),
            r is Some <==> old(self)@.dispatches_any(xact_views(old(xacts)@), target),
            r matches Some(reqs) ==> old(self)@.requests(
                xact_views(old(xacts)@),
                target,
                reqs@,
            ),
    {
        let ghost views = xact_views(xacts@);
        let ghost entry = self@;
        let mask = self.completed.duplicate().complement().intersect(&self.known);
        assert forall|i: int| 0 <= i < mask@.len() implies #[trigger] mask@[i] == entry.open_at(
            i,
        ) by {}
        let mut reqs: Vec<XactCommittedReq<T>> = Vec::new();
        if mask.any() {
            let ones = mask.ones();
            let mut n: usize = 0;
            while n < ones.len()
                invariant
                    keys_ok::<T>(),
                    n <= ones.len(),
                    entry == old(self)@,
                    entry.wf(),
                    views == xact_views(old(xacts)@),
                    mask@.len() == entry.hashes.len(),
                    forall|i: int|
                        0 <= i < mask@.len() ==> #[trigger] mask@[i] == entry.open_at(i),
                    crate::bits::lists_ones(mask@, ones@),
                    self.seal == old(self).seal,
                    self.known == old(self).known,
                    self.retries == old(self).retries,
                    self.completed@.len() == entry.completed.len(),
                    forall|i: int|
                        0 <= i < entry.completed.len() ==> #[trigger] self.completed@[i] == (
                        entry.completed[i] || (entry.finds_over(views, i) && passed(ones@, n as int, i))),
                    xact_views(xacts@).dom() == views.dom(),
                    forall|h: T::HashID| #[trigger]
                        views.contains_key(h) ==> xact_views(xacts@)[h] == (if exists|i: int|
                            #[trigger] entry.dispatches(views, target, i) && entry.hashes[i] == h
                                && passed(ones@, n as int, i) {
                            views[h].dispatch()
                        } else {
                            views[h]
                        }),
                    forall|j: int, k: int|
                        0 <= j < k < reqs@.len() ==> reqs@[j].idx < reqs@[k].idx,
                    forall|k: int|
                        0 <= k < reqs@.len() ==> {
                            &&& entry.dispatches(views, target, (#[trigger] reqs@[k]).idx as int)
                            &&& views[entry.hashes[reqs@[k].idx as int]].asked_by(
                                reqs@[k].idx as int,
                                reqs@[k],
                            )
                            &&& passed(ones@, n as int, reqs@[k].idx as int)
                        },
                    forall|i: int| #[trigger]
                        entry.dispatches(views, target, i) && passed(ones@, n as int, i)
                            ==> exists|k: int|
                            0 <= k < reqs@.len() && (#[trigger] reqs@[k]).idx == i,
                decreases ones.len() - n,
            {
                let i = ones[n];
                assert(mask@[i as int]);
                assert(entry.open_at(i as int));
                assert forall|k: int| #[trigger]
                    passed(ones@, n + 1, k) <==> passed(ones@, n as int, k) || k == i by {
                    if passed(ones@, n + 1, k) {
                        let m = choose|m: int| 0 <= m < n + 1 && ones@[m] == k;
                        if m < n {
                            assert(ones@[m] == k);
                        }
                    }
                    if passed(ones@, n as int, k) {
                        let m = choose|m: int| 0 <= m < n && ones@[m] == k;
                        assert(ones@[m] == k);
                    }
                    if k == i {
                        assert(ones@[n as int] == k);
                    }
                }
                let ghost before = xact_views(xacts@);
                let ghost reqs_before = reqs@;
                let hash = copy_key(&self.seal.hashes[i]);
                let step = Self::round_step(xacts, &hash, target, i);
                proof {
                    if xacts@.contains_key(hash) {
                        assert(before.contains_key(hash));
                        assert(before[hash] == xacts@[hash]@);
                        assert(views.contains_key(hash));
                    }
                }
                match step {
                    RoundStep::Dispatch { req } => {
                        assert(entry.dispatches(views, target, i as int));
                        reqs.push(req);
                        match xacts.remove(&hash) {
                            Some(mut entry) => {
                                let ghost was = entry@;
                                if let PeerXactState::Pending { processor, stage, xact } = entry.state {
                                    let stage = match stage {
                                        PendingXactStage::Process { lin_point, .. } => {
                                            PendingXactStage::Process {
                                                dispatched: true,
                                                lin_point,
                                            }
                                        },
                                        other => other,
                                    };
                                    entry.state = PeerXactState::Pending { processor, stage, xact };
                                }
                                assert(entry@ == was.dispatch());
                                xacts.insert(copy_key(&hash), entry);
                            },
                            None => {},
                        }
                        assert(xact_views(xacts@) =~= before.insert(hash, before[hash].dispatch()));
                        assert(before[hash].dispatch() == views[hash].dispatch());
                    },
                    RoundStep::Over => {
                        assert(entry.finds_over(views, i as int));
                        self.completed.set(i, true);
                    },
                    RoundStep::Skip => {},
                }
                proof {
                    assert(entry.hashes[i as int] == hash);
                    assert forall|k: int|
                        #[trigger] entry.dispatches(views, target, k) && passed(ones@, n + 1, k)
                            implies exists|m: int|
                        0 <= m < reqs@.len() && (#[trigger] reqs@[m]).idx == k by {
                        if passed(ones@, n as int, k) {
                            let m = choose|m: int|
                                0 <= m < reqs_before.len() && (#[trigger] reqs_before[m]).idx == k;
                            assert(reqs@[m].idx == k);
                        } else {
                            assert(reqs@[reqs@.len() - 1].idx == k);
                        }
                    }
                }
                n += 1;
            }
            proof {
                assert forall|k: int| entry.open_at(k) implies #[trigger] passed(
                    ones@,
                    ones@.len() as int,
                    k,
                ) by {
                    assert(mask@[k]);
                }
            }
        }
        proof {
            assert forall|k: int| entry.open_at(k) implies exists|i: int| 0 <= i < mask@.len() && mask@[i] by {
                assert(mask@[k]);
            }
            assert(self.completed@ =~= entry.marked(views).completed);
            assert(xact_views(xacts@) =~= entry.after_dispatch(views, target));
            if reqs@.len() > 0 {
                assert(entry.dispatches(views, target, reqs@[0].idx as int));
            }
            if entry.dispatches_any(views, target) {
                let i = choose|i: int| entry.dispatches(views, target, i);
                assert(exists|k: int| 0 <= k < reqs@.len() && (#[trigger] reqs@[k]).idx == i);
            }
        }
        if reqs.len() > 0 {
            Some(reqs)
        } else {
            None
        }
    }
}

/// Whether the index `i` is among the first `n` of `ones`.
spec fn passed(ones: Seq<usize>, n: int, i: int) -> bool {
    exists|m: int| 0 <= m < n && #[trigger] ones[m] == i
}

} // verus!
