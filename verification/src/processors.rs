//! Sessions with processors: they are handed transactions and report the results.
use crate::ids::ProcessorIdx;
use crate::keys::copy_key;
use crate::model::PeerStateView;
use crate::model::ResultState;
use crate::peer_xact::can_delay;
use crate::sessions::ErrorScope;
use crate::state::PeerState;
use crate::text::join;
use crate::time::is_earliest;
use crate::time::Duration;
use crate::time::Instant;
use crate::types::keys_ok;
use crate::types::SealTypes;
use crate::xact::XactBlobBatch;
use crate::xact::XactNotify;
use crate::xact::XactNotifyState;
use std::collections::HashMap;
use std::collections::HashSet;
use vstd::prelude::*;
use vstd::string::StringExecFns;

verus! {

/// The sessions with processors, and which principal stands for which processor.
pub struct ProcessorSessionDispatch<T: SealTypes> {
    sessions: HashSet<T::Prin>,
    processors: HashMap<T::Prin, ProcessorIdx>,
}

/// The content of a [`ProcessorSessionDispatch`].
pub struct ProcessorSessionsView<T: SealTypes> {
    /// The principals with a session.
    pub sessions: Set<T::Prin>,
    /// The processors.
    pub processors: Map<T::Prin, ProcessorIdx>,
}

impl<T: SealTypes> View for ProcessorSessionDispatch<T> {
    type V = ProcessorSessionsView<T>;

    closed spec fn view(&self) -> ProcessorSessionsView<T> {
        ProcessorSessionsView { sessions: self.sessions@, processors: self.processors@ }
    }
}

/// The messages that go to one processor.
pub struct ProcessorSessionMsgs {
    pub idx: ProcessorIdx,
}

/// Why a session with a processor could not be opened.
#[derive(Debug)]
pub enum ProcessorSessionDispatchError<Prin> {
    /// The processor has a session already.
    Exists { prin: Prin },
    /// The principal does not stand for any processor.
    Unknown { prin: Prin },
    /// A lock is in an unknown state.
    MutexPoison,
}

/// Why a batch from a processor was refused.
#[derive(Debug)]
pub enum ProcessorSessionRecvError<Prin> {
    /// The processor has no session.
    NotFound { prin: Prin },
    /// A lock is in an unknown state.
    MutexPoison,
}

/// The state after a processor has sent one notification: a result or an error is
/// recorded, anything else is passed over.
pub open spec fn add_notify<T: SealTypes>(
    s: PeerStateView<T>,
    notify: XactNotify<T::HashID, Seq<u8>>,
    now: Instant,
) -> PeerStateView<T> {
    match notify.state {
        XactNotifyState::Success { when, result: Some(result) } => s.add_result(
            notify.hash,
            when,
            result,
            now,
        ),
        XactNotifyState::Error { error: Some(error) } => s.add_error(notify.hash, error, now),
        _ => s,
    }
}

/// Whether one notification is a change of which those who wait are to be notified.
pub open spec fn notify_notifies<T: SealTypes>(
    s: PeerStateView<T>,
    notify: XactNotify<T::HashID, Seq<u8>>,
) -> bool {
    match notify.state {
        XactNotifyState::Success { when, result: Some(_) } => s.result_check(notify.hash, when)
            != ResultState::Ignore,
        XactNotifyState::Error { error: Some(_) } => s.error_check(notify.hash)
            != ResultState::Ignore,
        _ => false,
    }
}

/// The state after a processor has sent `notifies`, one after the other.
pub open spec fn add_notifies<T: SealTypes>(
    s: PeerStateView<T>,
    notifies: Seq<XactNotify<T::HashID, Vec<u8>>>,
    now: Instant,
) -> PeerStateView<T>
    decreases notifies.len(),
{
    if notifies.len() == 0 {
        s
    } else {
        add_notify(add_notifies(s, notifies.drop_last(), now), notifies.last()@, now)
    }
}

/// Whether `notifies` is a change of which those who wait are to be notified.
pub open spec fn notifies_notify<T: SealTypes>(
    s: PeerStateView<T>,
    notifies: Seq<XactNotify<T::HashID, Vec<u8>>>,
    now: Instant,
) -> bool
    decreases notifies.len(),
{
    notifies.len() > 0 && (notifies_notify(s, notifies.drop_last(), now) || notify_notifies(
        add_notifies(s, notifies.drop_last(), now),
        notifies.last()@,
    ))
}

impl<T: SealTypes> ProcessorSessionDispatch<T> {
    /// No sessions, with the given processors.
    pub fn new(processors: HashMap<T::Prin, ProcessorIdx>) -> (dispatch: Self)
        requires
            keys_ok::<T>(),
        ensures
            dispatch@ == (ProcessorSessionsView::<T> {
                sessions: Set::empty(),
                processors: processors@,
            }),
    {
        ProcessorSessionDispatch { sessions: HashSet::new(), processors }
    }

    /// Open a session with the processor for which a principal stands.
    pub fn session(&mut self, prin: &T::Prin) -> (r: Result<
        ProcessorSessionMsgs,
        ProcessorSessionDispatchError<T::Prin>,
    >)
        requires
            keys_ok::<T>(),
        ensures
            final(self)@.processors == old(self)@.processors,
            match r {
                Ok(msgs) => {
                    &&& old(self)@.processors.contains_key(*prin)
                    &&& !old(self)@.sessions.contains(*prin)
                    &&& msgs.idx == old(self)@.processors[*prin]
                    &&& final(self)@.sessions == old(self)@.sessions.insert(*prin)
                },
                Err(e) => {
                    &&& final(self)@.sessions == old(self)@.sessions
                    &&& if old(self)@.processors.contains_key(*prin) {
                        &&& old(self)@.sessions.contains(*prin)
                        &&& e == (ProcessorSessionDispatchError::Exists { prin: *prin })
                    } else {
                        e == (ProcessorSessionDispatchError::Unknown { prin: *prin })
                    }
                },
            },
    {
        match self.processors.get(prin) {
            Some(idx) => {
                if self.sessions.contains(prin) {
                    return Err(ProcessorSessionDispatchError::Exists { prin: copy_key(prin) });
                }
                self.sessions.insert(copy_key(prin));
                Ok(ProcessorSessionMsgs { idx: *idx })
            },
            None => Err(ProcessorSessionDispatchError::Unknown { prin: copy_key(prin) }),
        }
    }

    /// Take a batch from a processor: the results and the errors that it reports are
    /// recorded.  Whatever else is in the batch is discarded.  Returns whether those
    /// who wait for changes are to be notified.
    pub fn recv_auth_msg(
        &self,
        state: &mut PeerState<T>,
        prin: &T::Prin,
        msg: XactBlobBatch<T>,
        now: Instant,
    ) -> (r: Result<bool, ProcessorSessionRecvError<T::Prin>>)
        requires
            old(state).wf(),
            now.can_add(old(state)@.tombstone_duration),
        ensures
            final(state).wf(),
            match r {
                Ok(notify) => {
                    &&& self@.sessions.contains(*prin)
                    &&& final(state)@ == add_notifies(old(state)@, msg.notifies@, now)
                    &&& notify == notifies_notify(old(state)@, msg.notifies@, now)
                },
                Err(e) => {
                    &&& !self@.sessions.contains(*prin)
                    &&& e == (ProcessorSessionRecvError::NotFound { prin: *prin })
                    &&& final(state)@ == old(state)@
                },
            },
    {
        if !self.sessions.contains(prin) {
            return Err(ProcessorSessionRecvError::NotFound { prin: copy_key(prin) });
        }
        let ghost start = state@;
        let ghost notifies = msg.notifies@;
        let mut notify: bool = false;
        for report in it: msg.notifies.into_iter()
            invariant
                it.seq() == notifies,
                state.wf(),
                start == old(state)@,
                now.can_add(start.tombstone_duration),
                state@.tombstone_duration == start.tombstone_duration,
                state@ == add_notifies(start, notifies.take(it.index() as int), now),
                notify == notifies_notify(start, notifies.take(it.index() as int), now),
        {
            let ghost next = notifies.take(it.index() + 1);
            assert(next.drop_last() =~= notifies.take(it.index() as int));
            assert(next.last() == report);
            let XactNotify { hash, state: outcome } = report;
            let changed = match outcome {
                XactNotifyState::Success { when, result: Some(result) } => state.add_result(
                    hash,
                    when,
                    result,
                    now,
                ),
                XactNotifyState::Error { error: Some(error) } => state.add_error(hash, error, now),
                _ => false,
            };
            notify = notify || changed;
        }
        assert(notifies.take(notifies.len() as int) =~= notifies);
        Ok(notify)
    }
}

impl ProcessorSessionMsgs {
    /// Collect the batch that is to be sent to the processor, and the time at which
    /// to do so again; there is neither where there is nothing to send.
    pub fn add_msgs<T: SealTypes, F: Fn(&T::Retry, usize) -> Duration>(
        &self,
        state: &mut PeerState<T>,
        now: Instant,
        retry_delay: &F,
    ) -> (r: (Option<XactBlobBatch<T>>, Option<Instant>))
        requires
            old(state).wf(),
            old(state)@.can_retry(),
            can_delay(*retry_delay, old(state)@.resubmit, now),
        ensures
            final(state).wf(),
            exists|delays: Map<T::HashID, Duration>, round_delays: Map<u128, Duration>|
                {
                    let tried = old(state)@.submit_precommits(self.idx, now, delays);
                    &&& #[trigger] old(state)@.stage_delays(
                        old(state)@.precommit_due(self.idx, now),
                        *retry_delay,
                        delays,
                    )
                    &&& #[trigger] old(state)@.round_delays(
                        self.idx,
                        now,
                        *retry_delay,
                        round_delays,
                    )
                    &&& final(state)@ == tried.send_rounds(self.idx, now, round_delays)
                },
            match r.0 {
                Some(batch) => {
                    &&& batch.notifies@.len() == 0
                    &&& batch.committed@.len() > 0 || batch.reqs@.len() > 0
                    &&& old(state)@.asks_committed(self.idx, now, batch.committed@)
                    &&& old(state)@.asks_uncommitted(
                        old(state)@.precommit_due(self.idx, now),
                        batch.reqs@,
                    )
                    &&& is_earliest(
                        r.1,
                        old(state)@.precommit_times(self.idx).union(
                            old(state)@.send_times(self.idx),
                        ),
                    )
                },
                None => {
                    &&& r.1 is None
                    &&& forall|h: T::HashID|
                        !#[trigger] old(state)@.precommit_due(self.idx, now).contains(h)
                    &&& forall|round: u128|
                        !#[trigger] old(state)@.rounds_sent(self.idx, now).contains(round)
                },
            },
    {
        let (committed, reqs, next) = state.get_processor_msgs(self.idx, now, retry_delay);
        if committed.len() > 0 || reqs.len() > 0 {
            (Some(XactBlobBatch { committed, reqs, notifies: vec![] }), next)
        } else {
            (None, None)
        }
    }
}

impl<Prin> ProcessorSessionRecvError<Prin> {
    /// A processor without a session has only its session to lose.
    pub fn scope(&self) -> (scope: ErrorScope)
        ensures
            scope == (match *self {
                ProcessorSessionRecvError::NotFound { .. } => ErrorScope::Session,
                ProcessorSessionRecvError::MutexPoison => ErrorScope::Unrecoverable,
            }),
    {
        match self {
            ProcessorSessionRecvError::NotFound { .. } => ErrorScope::Session,
            ProcessorSessionRecvError::MutexPoison => ErrorScope::Unrecoverable,
        }
    }

    /// The error as text; `show` writes a principal.
    pub fn text<S: Fn(&Prin) -> String>(&self, show: &S) -> (text: String)
        requires
            forall|prin: &Prin| call_requires(*show, (prin,)),
        ensures
            match *self {
                ProcessorSessionRecvError::NotFound { prin } => exists|name: String|
                    call_ensures(*show, (&prin,), name) && text@
                        == "no processor session exists for "@ + #[trigger] name@,
                ProcessorSessionRecvError::MutexPoison => text@ == "mutex poisoned"@,
            },
    {
        match self {
            ProcessorSessionRecvError::NotFound { prin } => {
                let name = show(prin);
                join("no processor session exists for ", name.as_str())
            },
            ProcessorSessionRecvError::MutexPoison => String::from_str("mutex poisoned"),
        }
    }
}

impl<Prin> ProcessorSessionDispatchError<Prin> {
    /// There is no way to go on.
    pub fn scope(&self) -> (scope: ErrorScope)
        ensures
            scope == ErrorScope::Unrecoverable,
    {
        ErrorScope::Unrecoverable
    }

    /// The error as text; `show` writes a principal.
    pub fn text<S: Fn(&Prin) -> String>(&self, show: &S) -> (text: String)
        requires
            forall|prin: &Prin| call_requires(*show, (prin,)),
        ensures
            match *self {
                ProcessorSessionDispatchError::Unknown { prin } => exists|name: String|
                    call_ensures(*show, (&prin,), name) && text@
                        == "no processor associated with "@ + #[trigger] name@,
                ProcessorSessionDispatchError::Exists { prin } => exists|name: String|
                    call_ensures(*show, (&prin,), name) && text@
                        == "processor session already exists for "@ + #[trigger] name@,
                ProcessorSessionDispatchError::MutexPoison => text@ == "mutex poisoned"@,
            },
    {
        match self {
            ProcessorSessionDispatchError::Unknown { prin } => {
                let name = show(prin);
                join("no processor associated with ", name.as_str())
            },
            ProcessorSessionDispatchError::Exists { prin } => {
                let name = show(prin);
                join("processor session already exists for ", name.as_str())
            },
            ProcessorSessionDispatchError::MutexPoison => String::from_str("mutex poisoned"),
        }
    }
}

/// A batch of which nobody is to be notified has changed nothing.
pub proof fn law_quiet_notifies_change_nothing<T: SealTypes>(
    s: PeerStateView<T>,
    notifies: Seq<XactNotify<T::HashID, Vec<u8>>>,
    now: Instant,
)
    requires
        !notifies_notify(s, notifies, now),
    ensures
        add_notifies(s, notifies, now) == s,
    decreases notifies.len(),
{
    if notifies.len() > 0 {
        law_quiet_notifies_change_nothing(s, notifies.drop_last(), now);
    }
}

/// A batch from a processor neither adds nor removes transactions, and touches
/// neither rounds nor what they lack.
pub proof fn law_notifies_only_complete<T: SealTypes>(
    s: PeerStateView<T>,
    notifies: Seq<XactNotify<T::HashID, Vec<u8>>>,
    now: Instant,
)
    ensures
        add_notifies(s, notifies, now).xacts.dom() == s.xacts.dom(),
        add_notifies(s, notifies, now).seals == s.seals,
        add_notifies(s, notifies, now).missing == s.missing,
    decreases notifies.len(),
{
    if notifies.len() > 0 {
        law_notifies_only_complete(s, notifies.drop_last(), now);
        let prior = add_notifies(s, notifies.drop_last(), now);
        let hash = notifies.last()@.hash;
        if prior.xacts.contains_key(hash) {
            assert(prior.xacts.dom().insert(hash) =~= prior.xacts.dom());
        }
        assert(add_notifies(s, notifies, now).xacts.dom() =~= prior.xacts.dom());
    }
}

/// To take a batch is to take any first part of it and then the rest as a batch of
/// its own.
pub proof fn law_report_batches_concatenate<T: SealTypes>(
    s: PeerStateView<T>,
    a: Seq<XactNotify<T::HashID, Vec<u8>>>,
    b: Seq<XactNotify<T::HashID, Vec<u8>>>,
    now: Instant,
)
    ensures
        add_notifies(s, a + b, now) == add_notifies(add_notifies(s, a, now), b, now),
        notifies_notify(s, a + b, now) <==> notifies_notify(s, a, now) || notifies_notify(
            add_notifies(s, a, now),
            b,
            now,
        ),
    decreases b.len(),
{
    if b.len() == 0 {
        assert(a + b =~= a);
    } else {
        law_report_batches_concatenate(s, a, b.drop_last(), now);
        assert((a + b).drop_last() =~= a + b.drop_last());
        assert((a + b).last() == b.last());
    }
}

/// A batch of one report records the result or the error in it, and nothing where it
/// holds neither.  Those who wait are notified exactly if the transaction is here and
/// is not over in just that way already.
pub proof fn law_one_report<T: SealTypes>(
    s: PeerStateView<T>,
    report: XactNotify<T::HashID, Vec<u8>>,
    now: Instant,
)
    ensures
        ({
            let t = add_notifies(s, seq![report], now);
            match report.state {
                XactNotifyState::Success { when, result: Some(result) } => {
                    &&& t == s.add_result(report.hash, when, result@, now)
                    &&& notifies_notify(s, seq![report], now) <==> s.xacts.contains_key(
                        report.hash,
                    ) && !(s.xacts[report.hash].state is Complete)
                },
                XactNotifyState::Error { error: Some(error) } => {
                    &&& t == s.add_error(report.hash, error@, now)
                    &&& notifies_notify(s, seq![report], now) <==> s.xacts.contains_key(
                        report.hash,
                    ) && !(s.xacts[report.hash].state is Error)
                },
                _ => t == s && !notifies_notify(s, seq![report], now),
            }
        }),
{
    let one = seq![report];
    assert(one.drop_last() =~= Seq::empty());
    reveal_with_fuel(add_notifies, 2);
    reveal_with_fuel(notifies_notify, 2);
}

/// A batch leaves a transaction alone of which it does not report.
proof fn lemma_unreported<T: SealTypes>(
    s: PeerStateView<T>,
    notifies: Seq<XactNotify<T::HashID, Vec<u8>>>,
    now: Instant,
    h: T::HashID,
)
    requires
        forall|k: int| 0 <= k < notifies.len() ==> (#[trigger] notifies[k]).hash != h,
    ensures
        ({
            let t = add_notifies(s, notifies, now);
            &&& t.xacts.contains_key(h) <==> s.xacts.contains_key(h)
            &&& t.xacts[h] == s.xacts[h]
            &&& t.tombstone_duration == s.tombstone_duration
        }),
    decreases notifies.len(),
{
    if notifies.len() > 0 {
        let rest = notifies.drop_last();
        assert forall|k: int| 0 <= k < rest.len() implies (#[trigger] rest[k]).hash != h by {
            assert(rest[k] == notifies[k]);
        }
        lemma_unreported(s, rest, now, h);
        assert(notifies.last() == notifies[notifies.len() - 1]);
    }
}

/// Every report counts, wherever it stands in its batch and whatever else is there: a
/// result for a transaction that was handed to its processor completes it, at the
/// point that is fixed for it, if any; an error makes it fail.
pub proof fn law_every_report_counts<T: SealTypes>(
    s: PeerStateView<T>,
    notifies: Seq<XactNotify<T::HashID, Vec<u8>>>,
    now: Instant,
    k: int,
)
    requires
        0 <= k < notifies.len(),
        forall|j: int|
            0 <= j < notifies.len() && j != k ==> (#[trigger] notifies[j]).hash
                != notifies[k].hash,
        s.xacts.contains_key(notifies[k].hash),
        s.xacts[notifies[k].hash].state is Pending,
        now.nanos + s.tombstone_duration.nanos <= u128::MAX,
    ensures
        ({
            let h = notifies[k].hash;
            let old = s.xacts[h].state;
            let new = add_notifies(s, notifies, now).xacts[h].state;
            let tried = old->stage is PreCommit && old->stage->PreCommit_dispatched;
            let committed = old->stage is Process && old->stage->Process_dispatched;
            &&& add_notifies(s, notifies, now).xacts.contains_key(h)
            &&& notifies[k].state matches XactNotifyState::Success { when, result: Some(res) } ==> {
                &&& notifies_notify(s, notifies, now)
                &&& tried && (old->xact.effects matches crate::xact::XactEffects::HardNone {
                    when: Some(asked),
                } ==> asked == when) || committed && old->stage->lin_point == when ==> {
                    &&& new is Complete
                    &&& new->res == res@
                    &&& new->Complete_lin_point == when
                    &&& new->Complete_expire.nanos == now.nanos + s.tombstone_duration.nanos
                }
            }
            &&& notifies[k].state matches XactNotifyState::Error { error: Some(error) } ==> {
                &&& notifies_notify(s, notifies, now)
                &&& new is Error
                &&& tried || committed ==> new->error == error@
                &&& new->Error_expire.nanos == now.nanos + s.tombstone_duration.nanos
            }
            &&& !(notifies[k].state is Success) && !(notifies[k].state is Error) ==> new == old
        }),
{
    let h = notifies[k].hash;
    let a = notifies.take(k);
    let one = seq![notifies[k]];
    let b = notifies.skip(k + 1);
    assert(notifies =~= a + (one + b));
    law_report_batches_concatenate(s, a, one + b, now);
    let t = add_notifies(s, a, now);
    assert forall|j: int| 0 <= j < a.len() implies (#[trigger] a[j]).hash != h by {
        assert(a[j] == notifies[j]);
    }
    lemma_unreported(s, a, now, h);
    law_report_batches_concatenate(t, one, b, now);
    law_one_report(t, notifies[k], now);
    let u = add_notifies(t, one, now);
    assert forall|j: int| 0 <= j < b.len() implies (#[trigger] b[j]).hash != h by {
        assert(b[j] == notifies[k + 1 + j]);
    }
    lemma_unreported(u, b, now, h);
    match notifies[k].state {
        XactNotifyState::Success { when, result: Some(res) } => {
            crate::guarantees::law_results_complete(t, h, when, res@, now);
            if !notifies_notify(t, one, now) {
                law_quiet_notifies_change_nothing(t, one, now);
            }
        },
        XactNotifyState::Error { error: Some(error) } => {
            crate::guarantees::law_errors_fail(t, h, error@, now);
            if !notifies_notify(t, one, now) {
                law_quiet_notifies_change_nothing(t, one, now);
            }
        },
        _ => {},
    }
}

} // verus!
