//! One transaction as the peer holds it: how far it has come, and who is told.
use crate::ids::ProcessorIdx;
use crate::keys::copy_key;
use crate::keys::map_keys;
use crate::time::Duration;
use crate::time::Instant;
use crate::types::keys_ok;
use crate::types::SealTypes;
use crate::xact::copy_bytes;
use crate::xact::XactEffects;
use crate::xact::XactError;
use crate::xact::XactLinPoint;
use crate::xact::XactNotify;
use crate::xact::XactNotifyState;
use std::collections::HashMap;
use vstd::prelude::*;

verus! {

/// Stage of a pending transaction.
#[derive(Clone, Copy, Debug, PartialEq, Eq, Structural)]
pub enum PendingXactStage {
    /// Pre-commit phase.
    PreCommit {
        /// Whether or not the transaction has been dispatched to a processor.
        dispatched: bool,
        when: Option<Instant>,
        nretries: usize,
    },
    /// Submitted to consensus.
    Commit { submitted: bool, when: Option<Instant>, nretries: usize },
    /// Post-commit, submitted for processing.
    Process {
        dispatched: bool,
        /// Linearization point of the transaction.
        lin_point: XactLinPoint,
    },
}

/// Type of reporting to be done.
#[derive(Clone, Copy, Debug, PartialEq, Eq, Structural)]
pub enum PeerReportKind {
    /// Full result reporting.
    Result,
    /// Notify-only reporting.
    Notify,
}

/// Reporting entry for transactions.
#[derive(Clone, Copy, Debug, PartialEq, Eq, Structural)]
pub struct PeerReport {
    /// Kind of reporting to be done.
    pub kind: PeerReportKind,
    /// When the next message should be sent.
    pub when: Option<Instant>,
    /// Number of retries.
    pub nretries: usize,
}

/// What a pending transaction asks for.
pub struct PendingXact<T: SealTypes, B> {
    /// Class of transactions.
    pub class: u128,
    /// Version of the transaction class.
    pub version: T::Version,
    /// Instance of the transaction class.
    pub instance: u64,
    /// Transaction effects.
    pub effects: XactEffects<B>,
    /// Transaction payload.
    pub payload: B,
    /// Authorization seal.
    pub seal: T::Seal,
}

/// How far a transaction has come.
pub enum PeerXactState<T: SealTypes, B> {
    /// Neither complete nor failed yet.
    Pending {
        /// Processor to use.
        processor: ProcessorIdx,
        /// Current stage of the transaction.
        stage: PendingXactStage,
        /// The transaction.
        xact: PendingXact<T, B>,
    },
    /// Request is complete.
    Complete {
        /// Result from the transaction.
        res: B,
        /// Linearization point of the transaction.
        lin_point: XactLinPoint,
        /// When to expire the entry.
        expire: Instant,
    },
    /// Request had an error.
    Error {
        /// Error from the transaction.
        error: XactError<B>,
        /// When to expire the entry.
        expire: Instant,
    },
}

/// A transaction and the clients that are told about it.
pub struct PeerXact<T: SealTypes> {
    /// Reporting information.
    pub reporting: HashMap<T::Prin, PeerReport>,
    /// State of the transaction.
    pub state: PeerXactState<T, Vec<u8>>,
}

/// The content of a [`PeerXact`].
pub struct PeerXactView<T: SealTypes> {
    pub reporting: Map<T::Prin, PeerReport>,
    pub state: PeerXactState<T, Seq<u8>>,
}

/// What is to happen to a subscription after its client has been served.
#[derive(Clone, Copy, Debug, PartialEq, Eq, Structural)]
pub enum DeleteAction {
    /// Retain everything.
    Retain,
    /// Drop the subscription, but retain the entry.
    Unsubscribe,
    /// Expire the entry.
    Expire,
}

impl<T: SealTypes> View for PendingXact<T, Vec<u8>> {
    type V = PendingXact<T, Seq<u8>>;

    open spec fn view(&self) -> PendingXact<T, Seq<u8>> {
        PendingXact {
            class: self.class,
            version: self.version,
            instance: self.instance,
            effects: self.effects@,
            payload: self.payload@,
            seal: self.seal,
        }
    }
}

impl<T: SealTypes> View for PeerXactState<T, Vec<u8>> {
    type V = PeerXactState<T, Seq<u8>>;

    open spec fn view(&self) -> PeerXactState<T, Seq<u8>> {
        match *self {
            PeerXactState::Pending { processor, stage, xact } => PeerXactState::Pending {
                processor,
                stage,
                xact: xact@,
            },
            PeerXactState::Complete { res, lin_point, expire } => PeerXactState::Complete {
                res: res@,
                lin_point,
                expire,
            },
            PeerXactState::Error { error, expire } => PeerXactState::Error { error: error@, expire },
        }
    }
}

impl<T: SealTypes> View for PeerXact<T> {
    type V = PeerXactView<T>;

    open spec fn view(&self) -> PeerXactView<T> {
        PeerXactView { reporting: self.reporting@, state: self.state@ }
    }
}

/// Whether `retry_delay` may answer `d` when it is asked how long `policy` waits
/// after `n` retries.
pub open spec fn delays_by<R, F: Fn(&R, usize) -> Duration>(
    retry_delay: F,
    policy: R,
    n: usize,
    d: Duration,
) -> bool {
    call_ensures(retry_delay, (&policy, n), d)
}

/// Whether `retry_delay` can be asked about `policy`, and the clock can represent
/// the end of every delay that starts at `now`.
pub open spec fn can_delay<R, F: Fn(&R, usize) -> Duration>(
    retry_delay: F,
    policy: R,
    now: Instant,
) -> bool {
    &&& forall|n: usize| call_requires(retry_delay, (&policy, n))
    &&& forall|n: usize, d: Duration| #[trigger]
        delays_by(retry_delay, policy, n, d) ==> now.can_add(d)
}

impl<T: SealTypes> PeerXactState<T, Seq<u8>> {
    /// What a notification says of a transaction in this state; `full` asks for
    /// the result or the error itself.
    pub open spec fn notify_state(self, full: bool) -> XactNotifyState<Seq<u8>> {
        match self {
            PeerXactState::Pending { stage, xact, .. } => match stage {
                PendingXactStage::PreCommit { dispatched: false, .. } => XactNotifyState::Accept,
                PendingXactStage::PreCommit {
                    dispatched: true,
                    ..
                } => XactNotifyState::PrecommitDispatch {
                    when: match xact.effects {
                        XactEffects::HardNone { when } => when,
                        _ => None,
                    },
                },
                PendingXactStage::Commit { submitted: false, .. } => XactNotifyState::Accept,
                PendingXactStage::Commit { submitted: true, .. } => XactNotifyState::Consensus,
                PendingXactStage::Process {
                    dispatched: false,
                    lin_point,
                } => XactNotifyState::Commit { when: lin_point },
                PendingXactStage::Process {
                    dispatched: true,
                    lin_point,
                } => XactNotifyState::Dispatch { when: lin_point },
            },
            PeerXactState::Complete { res, lin_point, .. } => XactNotifyState::Success {
                when: lin_point,
                result: if full {
                    Some(res)
                } else {
                    None
                },
            },
            PeerXactState::Error { error, .. } => XactNotifyState::Error {
                error: if full {
                    Some(error)
                } else {
                    None
                },
            },
        }
    }

    /// Whether the transaction is over and its entry has outlived its time.
    pub open spec fn expired(self, now: Instant) -> bool {
        match self {
            PeerXactState::Pending { .. } => false,
            PeerXactState::Complete { expire, .. } => expire.nanos <= now.nanos,
            PeerXactState::Error { expire, .. } => expire.nanos <= now.nanos,
        }
    }
}

impl PeerReport {
    /// The entry after its client was served: the next message is due at `next`.
    pub open spec fn served(self, next: Instant) -> PeerReport {
        PeerReport { kind: self.kind, when: Some(next), nretries: (self.nretries + 1) as usize }
    }

    /// The entry after the transaction moved on: a message is due at once.
    pub open spec fn restarted(self, now: Instant) -> PeerReport {
        PeerReport { kind: self.kind, when: Some(now), nretries: 0 }
    }
}

impl<T: SealTypes> PeerXactView<T> {
    /// Every client is due for a message at once.
    pub open spec fn reset(self, now: Instant) -> PeerXactView<T> {
        PeerXactView {
            reporting: self.reporting.map_values(|r: PeerReport| r.restarted(now)),
            state: self.state,
        }
    }

    /// A client is told about the transaction from now on, with its result.
    pub open spec fn subscribed(self, client: T::Prin, now: Instant) -> PeerXactView<T> {
        PeerXactView {
            reporting: self.reporting.insert(
                client,
                PeerReport { kind: PeerReportKind::Result, when: Some(now), nretries: 0 },
            ),
            state: self.state,
        }
    }

    /// The next message to a client is due at `next`.
    pub open spec fn served(self, client: T::Prin, next: Instant) -> PeerXactView<T> {
        PeerXactView {
            reporting: self.reporting.insert(client, self.reporting[client].served(next)),
            state: self.state,
        }
    }

    /// Whether a time is set for the next message to a client.
    pub open spec fn awaits(self, client: T::Prin) -> bool {
        self.reporting.contains_key(client) && self.reporting[client].when is Some
    }

    /// Whether a message to a client is due.
    pub open spec fn due(self, client: T::Prin, now: Instant) -> bool {
        self.awaits(client) && self.reporting[client].when->0.nanos <= now.nanos
    }

    /// The message that a subscribed client gets.
    pub open spec fn message(self, client: T::Prin) -> XactNotifyState<Seq<u8>> {
        self.state.notify_state(self.reporting[client].kind is Result)
    }
}

impl<T: SealTypes> PeerXact<T> {
    /// Reset the reporting times.
    pub fn reset_reporting(&mut self, now: Instant)
        requires
            keys_ok::<T>(),
        ensures
            final(self)@ == old(self)@.reset(now),
            final(self).state == old(self).state,
    {
        let clients = map_keys(&self.reporting);
        let ghost before = self.reporting@;
        let mut i: usize = 0;
        while i < clients.len()
            invariant
                keys_ok::<T>(),
                i <= clients.len(),
                crate::keys::lists(clients@, before.dom()),
                self.state == old(self).state,
                self.reporting@.dom() == before.dom(),
                forall|j: int|
                    0 <= j < i ==> self.reporting@[#[trigger] clients@[j]] == before[clients@[j]].restarted(now),
                forall|j: int|
                    i <= j < clients.len() ==> self.reporting@[#[trigger] clients@[j]]
                        == before[clients@[j]],
            decreases clients.len() - i,
        {
            assert(clients@.contains(clients@[i as int]));
            let kind = match self.reporting.get(&clients[i]) {
                Some(report) => report.kind,
                None => PeerReportKind::Result,
            };
            self.reporting.insert(
                copy_key(&clients[i]),
                PeerReport { kind, when: Some(now), nretries: 0 },
            );
            i += 1;
        }
        proof {
            assert(self.reporting@ =~= before.map_values(|r: PeerReport| r.restarted(now))) by {
                assert forall|c: T::Prin| #[trigger] before.contains_key(c) implies self.reporting@[c]
                    == before[c].restarted(now) by {
                    assert(before.dom().contains(c));
                    let j = choose|j: int| 0 <= j < clients@.len() && clients@[j] == c;
                    assert(clients@[j] == c);
                }
            }
        }
    }

    /// Generate a notify message.
    ///
    /// Returns whether or not to expire this entry.
    pub fn get_notify_msg(
        &self,
        hash: &T::HashID,
        now: Instant,
        full: bool,
        notifies: &mut Vec<XactNotify<T::HashID, Vec<u8>>>,
    ) -> (delete: bool)
        requires
            keys_ok::<T>(),
        ensures
            final(notifies)@.len() == old(notifies)@.len() + 1,
            final(notifies)@.drop_last() == old(notifies)@,
            final(notifies)@.last()@ == (XactNotify {
                hash: *hash,
                state: self@.state.notify_state(full),
            }),
            delete == self@.state.expired(now),
    {
        let (state, delete) = match &self.state {
            PeerXactState::Pending { stage, xact, .. } => match *stage {
                PendingXactStage::PreCommit { dispatched: false, .. } => (
                    XactNotifyState::Accept,
                    false,
                ),
                PendingXactStage::PreCommit { dispatched: true, .. } => match &xact.effects {
                    XactEffects::HardNone { when } => (
                        XactNotifyState::PrecommitDispatch { when: *when },
                        false,
                    ),
                    _ => (XactNotifyState::PrecommitDispatch { when: None }, false),
                },
                PendingXactStage::Commit { submitted: false, .. } => (
                    XactNotifyState::Accept,
                    false,
                ),
                PendingXactStage::Commit { submitted: true, .. } => (
                    XactNotifyState::Consensus,
                    false,
                ),
                PendingXactStage::Process { dispatched: false, lin_point } => (
                    XactNotifyState::Commit { when: lin_point },
                    false,
                ),
                PendingXactStage::Process { dispatched: true, lin_point } => (
                    XactNotifyState::Dispatch { when: lin_point },
                    false,
                ),
            },
            PeerXactState::Complete { res, lin_point, expire } => {
                let result = if full {
                    Some(copy_bytes(res))
                } else {
                    None
                };
                (
                    XactNotifyState::Success { when: *lin_point, result },
                    expire.nanos <= now.nanos,
                )
            },
            PeerXactState::Error { error, expire } => {
                let error = if full {
                    Some(error.copy())
                } else {
                    None
                };
                (XactNotifyState::Error { error }, expire.nanos <= now.nanos)
            },
        };
        notifies.push(XactNotify { hash: copy_key(hash), state });
        assert(notifies@.drop_last() =~= old(notifies)@);
        delete
    }

    /// Generate messages for a specific client.
    ///
    /// This returns whether or not to delete the entry, and when the client is to
    /// be served next.  The time of the next message is put off whether or not a
    /// message was due.
    pub fn get_client_msg<F: Fn(&T::Retry, usize) -> Duration>(
        &mut self,
        hash: &T::HashID,
        now: Instant,
        client: &T::Prin,
        resubmit: &T::Retry,
        retry_delay: &F,
        notifies: &mut Vec<XactNotify<T::HashID, Vec<u8>>>,
    ) -> (r: (DeleteAction, Option<Instant>))
        requires
            keys_ok::<T>(),
            can_delay(*retry_delay, *resubmit, now),
            old(self)@.awaits(*client) ==> old(self)@.reporting[*client].nretries < usize::MAX,
        ensures
            old(self)@.awaits(*client) ==> {
                &&& r.1 matches Some(next)
                &&& exists|d: Duration|
                    next == now.plus(d) && #[trigger] delays_by(
                        *retry_delay,
                        *resubmit,
                        old(self)@.reporting[*client].nretries,
                        d,
                    )
                &&& final(self)@ == old(self)@.served(*client, next)
            },
            !old(self)@.awaits(*client) ==> r.1 is None && *final(self) == *old(self),
            r.0 == (if !old(self)@.reporting.contains_key(*client) {
                DeleteAction::Unsubscribe
            } else if old(self)@.due(*client, now) && old(self)@.state.expired(now) {
                DeleteAction::Expire
            } else {
                DeleteAction::Retain
            }),
            old(self)@.due(*client, now) ==> {
                &&& final(notifies)@.len() == old(notifies)@.len() + 1
                &&& final(notifies)@.drop_last() == old(notifies)@
                &&& final(notifies)@.last()@ == (XactNotify {
                    hash: *hash,
                    state: old(self)@.message(*client),
                })
            },
            !old(self)@.due(*client, now) ==> final(notifies)@ == old(notifies)@,
    {
        let report = match self.reporting.get(client) {
            Some(report) => *report,
            None => return (DeleteAction::Unsubscribe, None),
        };
        let when = match report.when {
            Some(when) => when,
            None => return (DeleteAction::Retain, None),
        };
        let delay = retry_delay(resubmit, report.nretries);
        assert(delays_by(*retry_delay, *resubmit, report.nretries, delay));
        let next = now.after(delay);
        self.reporting.insert(
            copy_key(client),
            PeerReport { kind: report.kind, when: Some(next), nretries: report.nretries + 1 },
        );
        let expire = if when.nanos <= now.nanos {
            match report.kind {
                PeerReportKind::Result => self.get_notify_msg(hash, now, true, notifies),
                PeerReportKind::Notify => self.get_notify_msg(hash, now, false, notifies),
            }
        } else {
            false
        };
        let action = if expire {
            DeleteAction::Expire
        } else {
            DeleteAction::Retain
        };
        (action, Some(next))
    }
}

} // verus!
