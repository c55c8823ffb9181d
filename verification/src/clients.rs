//! Sessions with clients: they submit transactions and are told what becomes of
//! them.
use crate::ids::ProcessorIdx;
use crate::keys::copy_key;
use crate::model::PeerStateView;
use crate::peer_xact::can_delay;
use crate::peer_xact::PendingXact;
use crate::sessions::ErrorScope;
use crate::state::PeerState;
use crate::text::join;
use crate::time::is_earliest;
use crate::time::Duration;
use crate::time::Instant;
use crate::types::keys_ok;
use crate::types::SealTypes;
use crate::xact::XactBlobBatch;
use crate::xact::XactEffects;
use crate::xact::XactError;
use crate::xact::XactNotify;
use crate::xact::XactNotifyState;
use crate::xact::XactSealed;
use std::collections::HashMap;
use std::collections::HashSet;
use vstd::prelude::*;
use vstd::string::StringExecFns;

verus! {

/// The sessions with clients: for each, the transactions of which it is to be told.
pub struct ClientSessionDispatch<T: SealTypes> {
    sessions: HashMap<T::Prin, HashSet<T::HashID>>,
}

impl<T: SealTypes> View for ClientSessionDispatch<T> {
    type V = Map<T::Prin, Set<T::HashID>>;

    closed spec fn view(&self) -> Map<T::Prin, Set<T::HashID>> {
        self.sessions@.map_values(|s: HashSet<T::HashID>| s@)
    }
}

/// Why a session with a client could not be opened.
#[derive(Debug)]
pub enum ClientSessionDispatchError<Prin> {
    /// The client has a session already.
    Exists { prin: Prin },
    /// A lock is in an unknown state.
    MutexPoison,
}

/// Why a batch from a client was refused.
#[derive(Debug)]
pub enum ClientSessionRecvError<Prin> {
    /// The client has no session.
    NotFound { prin: Prin },
    /// A lock is in an unknown state.
    MutexPoison,
}

impl<T: SealTypes> XactSealed<T> {
    /// The transaction that is asked for.
    pub open spec fn xact(self) -> PendingXact<T, Seq<u8>> {
        PendingXact {
            class: self.req.class,
            version: self.req.version,
            instance: self.req.instance,
            effects: self.req.effects@,
            payload: self.req.payload@,
            seal: self.seal,
        }
    }
}

/// Whether `routes` answers, for every one of `reqs`, which processor takes it.
pub open spec fn routes_all<T: SealTypes, G: Fn(&T::VersionRange, &T::Version) -> bool>(
    s: PeerStateView<T>,
    accepts: G,
    reqs: Seq<XactSealed<T>>,
    routes: Seq<Result<ProcessorIdx, XactError<Seq<u8>>>>,
) -> bool {
    &&& routes.len() == reqs.len()
    &&& forall|k: int|
        0 <= k < reqs.len() ==> s.routes(
            accepts,
            reqs[k].req.class,
            reqs[k].req.version,
            reqs[k].req.instance,
            #[trigger] routes[k],
        )
}

/// The state after a client has submitted `reqs`, one after the other.
pub open spec fn add_requests<T: SealTypes>(
    s: PeerStateView<T>,
    client: T::Prin,
    reqs: Seq<XactSealed<T>>,
    routes: Seq<Result<ProcessorIdx, XactError<Seq<u8>>>>,
    now: Instant,
) -> PeerStateView<T>
    decreases reqs.len(),
{
    if reqs.len() == 0 {
        s
    } else {
        add_requests(s, client, reqs.drop_last(), routes.drop_last(), now).add_xact(
            client,
            reqs.last().req.hash,
            routes.last(),
            reqs.last().xact(),
            now,
        )
    }
}

/// The hashes of the transactions that are asked for.
pub open spec fn requested<T: SealTypes>(reqs: Seq<XactSealed<T>>) -> Set<T::HashID> {
    Set::new(
        |h: T::HashID| exists|k: int| 0 <= k < reqs.len() && (#[trigger] reqs[k]).req.hash == h,
    )
}

/// Whether recording `reqs` is a change of which those who wait are to be notified.
pub open spec fn requests_notify<T: SealTypes>(
    s: PeerStateView<T>,
    client: T::Prin,
    reqs: Seq<XactSealed<T>>,
    routes: Seq<Result<ProcessorIdx, XactError<Seq<u8>>>>,
    now: Instant,
) -> bool
    decreases reqs.len(),
{
    reqs.len() > 0 && (requests_notify(s, client, reqs.drop_last(), routes.drop_last(), now)
        || routes.last() is Ok || !add_requests(
        s,
        client,
        reqs.drop_last(),
        routes.drop_last(),
        now,
    ).xacts.contains_key(reqs.last().req.hash))
}

impl<T: SealTypes> ClientSessionDispatch<T> {
    /// No sessions.
    pub fn new() -> (dispatch: Self)
        requires
            keys_ok::<T>(),
        ensures
            dispatch@ == Map::<T::Prin, Set<T::HashID>>::empty(),
    {
        let dispatch = ClientSessionDispatch { sessions: HashMap::new() };
        assert(dispatch@ =~= Map::empty());
        dispatch
    }

    /// Open a session with a client, which is not to be told of anything yet.
    pub fn session(&mut self, prin: &T::Prin) -> (r: Result<
        (),
        ClientSessionDispatchError<T::Prin>,
    >)
        requires
            keys_ok::<T>(),
        ensures
            match r {
                Ok(()) => {
                    &&& !old(self)@.contains_key(*prin)
                    &&& final(self)@ == old(self)@.insert(*prin, Set::empty())
                },
                Err(e) => {
                    &&& old(self)@.contains_key(*prin)
                    &&& e == (ClientSessionDispatchError::Exists { prin: *prin })
                    &&& final(self)@ == old(self)@
                },
            },
    {
        if self.sessions.contains_key(prin) {
            return Err(ClientSessionDispatchError::Exists { prin: copy_key(prin) });
        }
        let ghost before = self@;
        self.sessions.insert(copy_key(prin), HashSet::new());
        assert(self@ =~= before.insert(*prin, Set::empty()));
        Ok(())
    }

    /// Take a batch from a client: every transaction that it asks for is recorded,
    /// and the client is told of it from now on.  Whatever else is in the batch is
    /// discarded.  Returns whether those who wait for changes are to be notified.
    pub fn recv_auth_msg<G: Fn(&T::VersionRange, &T::Version) -> bool>(
        &mut self,
        state: &mut PeerState<T>,
        prin: &T::Prin,
        msg: XactBlobBatch<T>,
        now: Instant,
        accepts: &G,
    ) -> (r: Result<bool, ClientSessionRecvError<T::Prin>>)
        requires
            old(state).wf(),
            now.can_add(old(state)@.tombstone_duration),
            forall|range: &T::VersionRange, version: &T::Version|
                call_requires(*accepts, (range, version)),
        ensures
            final(state).wf(),
            match r {
                Ok(notify) => {
                    &&& old(self)@.contains_key(*prin)
                    &&& final(self)@ == old(self)@.insert(
                        *prin,
                        old(self)@[*prin].union(requested(msg.reqs@)),
                    )
                    &&& exists|routes: Seq<Result<ProcessorIdx, XactError<Seq<u8>>>>|
                        {
                            &&& #[trigger] routes_all(old(state)@, *accepts, msg.reqs@, routes)
                            &&& final(state)@ == add_requests(
                                old(state)@,
                                *prin,
                                msg.reqs@,
                                routes,
                                now,
                            )
                            &&& notify == requests_notify(
                                old(state)@,
                                *prin,
                                msg.reqs@,
                                routes,
                                now,
                            )
                        }
                },
                Err(e) => {
                    &&& !old(self)@.contains_key(*prin)
                    &&& e == (ClientSessionRecvError::NotFound { prin: *prin })
                    &&& final(self)@ == old(self)@
                    &&& final(state)@ == old(state)@
                },
            },
    {
        let ghost before = self@;
        let ghost start = state@;
        match self.sessions.remove(prin) {
            None => {
                assert(self@ =~= before);
                Err(ClientSessionRecvError::NotFound { prin: copy_key(prin) })
            },
            Some(mut subscriptions) => {
                let ghost subscribed = subscriptions@;
                assert(subscribed == before[*prin]);
                let ghost mut routes: Seq<Result<ProcessorIdx, XactError<Seq<u8>>>> = Seq::empty();
                let ghost reqs = msg.reqs@;
                let mut notify: bool = false;
                assert(requested(reqs.take(0)) =~= Set::empty());
                assert(subscribed.union(Set::empty()) =~= subscribed);
                for sealed in it: msg.reqs.into_iter()
                    invariant
                        it.seq() == reqs,
                        state.wf(),
                        start == old(state)@,
                        now.can_add(start.tombstone_duration),
                        state@.tombstone_duration == start.tombstone_duration,
                        state@.processors == start.processors,
                        forall|range: &T::VersionRange, version: &T::Version|
                            call_requires(*accepts, (range, version)),
                        subscriptions@ == subscribed.union(requested(reqs.take(it.index() as int))),
                        routes_all(start, *accepts, reqs.take(it.index() as int), routes),
                        state@ == add_requests(
                            start,
                            *prin,
                            reqs.take(it.index() as int),
                            routes,
                            now,
                        ),
                        notify == requests_notify(
                            start,
                            *prin,
                            reqs.take(it.index() as int),
                            routes,
                            now,
                        ),
                {
                    let ghost k = it.index() as int;
                    let ghost prior = reqs.take(k);
                    let ghost next = reqs.take(k + 1);
                    let ghost prev = state@;
                    let ghost had = subscriptions@;
                    assert(sealed == reqs[k]);
                    assert(next.drop_last() =~= prior);
                    assert(next.last() == sealed);
                    let XactSealed { seal, req } = sealed;
                    subscriptions.insert(copy_key(&req.hash));
                    let changed = state.add_xact(
                        prin,
                        req.class,
                        req.version,
                        req.instance,
                        req.hash,
                        req.effects,
                        req.payload,
                        seal,
                        now,
                        accepts,
                    );
                    proof {
                        let route = choose|route: Result<ProcessorIdx, XactError<Seq<u8>>>|
                            {
                                &&& #[trigger] prev.routes(
                                    *accepts,
                                    req.class,
                                    req.version,
                                    req.instance,
                                    route,
                                )
                                &&& changed == (route is Ok || !prev.xacts.contains_key(req.hash))
                                &&& state@ == prev.add_xact(*prin, req.hash, route, sealed.xact(), now)
                            };
                        let more = routes.push(route);
                        assert(more.drop_last() =~= routes);
                        assert(routes_all(start, *accepts, next, more)) by {
                            assert forall|m: int| 0 <= m < next.len() implies start.routes(
                                *accepts,
                                next[m].req.class,
                                next[m].req.version,
                                next[m].req.instance,
                                #[trigger] more[m],
                            ) by {
                                if m < prior.len() {
                                    assert(prior[m] == next[m]);
                                    assert(more[m] == routes[m]);
                                } else {
                                    assert(start.processors == prev.processors);
                                }
                            }
                        }
                        assert(subscriptions@ =~= subscribed.union(requested(next))) by {
                            assert forall|h: T::HashID|
                                requested(next).contains(h) <==> requested(prior).contains(h) || h
                                    == req.hash by {
                                if requested(next).contains(h) {
                                    let m = choose|m: int|
                                        0 <= m < next.len() && (#[trigger] next[m]).req.hash == h;
                                    if m < k {
                                        assert(prior[m].req.hash == h);
                                    }
                                }
                                if requested(prior).contains(h) {
                                    let m = choose|m: int|
                                        0 <= m < prior.len() && (#[trigger] prior[m]).req.hash == h;
                                    assert(next[m].req.hash == h);
                                }
                                if h == req.hash {
                                    assert(next[k].req.hash == h);
                                }
                            }
                        }
                        routes = more;
                    }
                    notify = notify || changed;
                }
                assert(reqs.take(reqs.len() as int) =~= reqs);
                self.sessions.insert(copy_key(prin), subscriptions);
                assert(self@ =~= before.insert(*prin, subscribed.union(requested(reqs))));
                Ok(notify)
            },
        }
    }

    /// Collect the batch that is to be sent to a client, and the time at which to
    /// do so again; there is neither where there is nothing to tell.
    pub fn add_msgs<F: Fn(&T::Retry, usize) -> Duration>(
        &mut self,
        state: &mut PeerState<T>,
        prin: &T::Prin,
        now: Instant,
        retry_delay: &F,
    ) -> (r: (Option<XactBlobBatch<T>>, Option<Instant>))
        requires
            old(state).wf(),
            old(state)@.xacts_can_retry(),
            can_delay(*retry_delay, old(state)@.resubmit, now),
        ensures
            final(state).wf(),
            !old(self)@.contains_key(*prin) ==> {
                &&& final(self)@ == old(self)@
                &&& final(state)@ == old(state)@
                &&& r == (None::<XactBlobBatch<T>>, None::<Instant>)
            },
            old(self)@.contains_key(*prin) ==> {
                let hashes = old(self)@[*prin];
                &&& final(self)@ == old(self)@.insert(
                    *prin,
                    old(state)@.client_keeps(hashes, *prin, now),
                )
                &&& exists|delays: Map<T::HashID, Duration>|
                    {
                        &&& #[trigger] old(state)@.client_delays(hashes, *prin, *retry_delay, delays)
                        &&& final(state)@ == old(state)@.serve_client(hashes, *prin, now, delays)
                        &&& r.0 is Some ==> is_earliest(
                            r.1,
                            old(state)@.client_times(hashes, *prin, now, delays),
                        )
                    }
                &&& match r.0 {
                    Some(batch) => {
                        &&& batch.committed@.len() == 0
                        &&& batch.reqs@.len() == 0
                        &&& batch.notifies@.len() > 0
                        &&& old(state)@.tells(hashes, *prin, now, batch.notifies@)
                    },
                    None => {
                        &&& r.1 is None
                        &&& forall|h: T::HashID|
                            !#[trigger] old(state)@.client_due(hashes, *prin, now).contains(h)
                    },
                }
            },
    {
        let ghost before = self@;
        match self.sessions.remove(prin) {
            None => {
                assert(self@ =~= before);
                (None, None)
            },
            Some(mut subscriptions) => {
                let ghost hashes = subscriptions@;
                assert(hashes == before[*prin]);
                let (notifies, next) = state.get_client_msgs(
                    &mut subscriptions,
                    prin,
                    now,
                    retry_delay,
                );
                self.sessions.insert(copy_key(prin), subscriptions);
                assert(self@ =~= before.insert(
                    *prin,
                    old(state)@.client_keeps(hashes, *prin, now),
                ));
                if notifies.len() > 0 {
                    (Some(XactBlobBatch { committed: vec![], reqs: vec![], notifies }), next)
                } else {
                    (None, None)
                }
            },
        }
    }
}

impl<Prin> ClientSessionRecvError<Prin> {
    /// A client without a session has only its session to lose.
    pub fn scope(&self) -> (scope: ErrorScope)
        ensures
            scope == (match *self {
                ClientSessionRecvError::NotFound { .. } => ErrorScope::Session,
                ClientSessionRecvError::MutexPoison => ErrorScope::Unrecoverable,
            }),
    {
        match self {
            ClientSessionRecvError::NotFound { .. } => ErrorScope::Session,
            ClientSessionRecvError::MutexPoison => ErrorScope::Unrecoverable,
        }
    }

    /// The error as text; `show` writes a principal.
    pub fn text<S: Fn(&Prin) -> String>(&self, show: &S) -> (text: String)
        requires
            forall|prin: &Prin| call_requires(*show, (prin,)),
        ensures
            match *self {
                ClientSessionRecvError::NotFound { prin } => exists|name: String|
                    call_ensures(*show, (&prin,), name) && text@
                        == "no client session exists for "@ + #[trigger] name@,
                ClientSessionRecvError::MutexPoison => text@ == "mutex poisoned"@,
            },
    {
        match self {
            ClientSessionRecvError::NotFound { prin } => {
                let name = show(prin);
                join("no client session exists for ", name.as_str())
            },
            ClientSessionRecvError::MutexPoison => String::from_str("mutex poisoned"),
        }
    }
}

impl<Prin> ClientSessionDispatchError<Prin> {
    /// There is no way to go on.
    pub fn scope(&self) -> (scope: ErrorScope)
        ensures
            scope == ErrorScope::Unrecoverable,
    {
        ErrorScope::Unrecoverable
    }

    /// The error as text; `show` writes a principal.
    pub fn text<S: Fn(&Prin) -> String>(&self, show: &S) -> (text: String)
        requires
            forall|prin: &Prin| call_requires(*show, (prin,)),
        ensures
            match *self {
                ClientSessionDispatchError::Exists { prin } => exists|name: String|
                    call_ensures(*show, (&prin,), name) && text@
                        == "client session already exists for "@ + #[trigger] name@,
                ClientSessionDispatchError::MutexPoison => text@ == "mutex poisoned"@,
            },
    {
        match self {
            ClientSessionDispatchError::Exists { prin } => {
                let name = show(prin);
                join("client session already exists for ", name.as_str())
            },
            ClientSessionDispatchError::MutexPoison => String::from_str("mutex poisoned"),
        }
    }
}

/// A batch of which nobody is to be notified has changed nothing.
pub proof fn law_quiet_requests_change_nothing<T: SealTypes>(
    s: PeerStateView<T>,
    client: T::Prin,
    reqs: Seq<XactSealed<T>>,
    routes: Seq<Result<ProcessorIdx, XactError<Seq<u8>>>>,
    now: Instant,
)
    requires
        !requests_notify(s, client, reqs, routes, now),
    ensures
        add_requests(s, client, reqs, routes, now) == s,
    decreases reqs.len(),
{
    if reqs.len() > 0 {
        law_quiet_requests_change_nothing(s, client, reqs.drop_last(), routes.drop_last(), now);
    }
}

/// After a batch, every transaction that it asks for is here.
pub proof fn law_requests_are_recorded<T: SealTypes>(
    s: PeerStateView<T>,
    client: T::Prin,
    reqs: Seq<XactSealed<T>>,
    routes: Seq<Result<ProcessorIdx, XactError<Seq<u8>>>>,
    now: Instant,
    h: T::HashID,
)
    requires
        routes.len() == reqs.len(),
        requested(reqs).contains(h) || s.xacts.contains_key(h),
    ensures
        add_requests(s, client, reqs, routes, now).xacts.contains_key(h),
    decreases reqs.len(),
{
    if reqs.len() > 0 {
        if requested(reqs).contains(h) && reqs.last().req.hash != h {
            let k = choose|k: int| 0 <= k < reqs.len() && (#[trigger] reqs[k]).req.hash == h;
            assert(reqs.drop_last()[k].req.hash == h);
            assert(requested(reqs.drop_last()).contains(h));
        }
        if requested(reqs.drop_last()).contains(h) || s.xacts.contains_key(h) {
            law_requests_are_recorded(
                s,
                client,
                reqs.drop_last(),
                routes.drop_last(),
                now,
                h,
            );
        }
    }
}

/// To take a batch is to take any first part of it and then the rest as a batch of
/// its own.
pub proof fn law_request_batches_concatenate<T: SealTypes>(
    s: PeerStateView<T>,
    client: T::Prin,
    a: Seq<XactSealed<T>>,
    routes_a: Seq<Result<ProcessorIdx, XactError<Seq<u8>>>>,
    b: Seq<XactSealed<T>>,
    routes_b: Seq<Result<ProcessorIdx, XactError<Seq<u8>>>>,
    now: Instant,
)
    requires
        routes_a.len() == a.len(),
        routes_b.len() == b.len(),
    ensures
        add_requests(s, client, a + b, routes_a + routes_b, now) == add_requests(
            add_requests(s, client, a, routes_a, now),
            client,
            b,
            routes_b,
            now,
        ),
        requests_notify(s, client, a + b, routes_a + routes_b, now) <==> requests_notify(
            s,
            client,
            a,
            routes_a,
            now,
        ) || requests_notify(add_requests(s, client, a, routes_a, now), client, b, routes_b, now),
    decreases b.len(),
{
    if b.len() == 0 {
        assert(a + b =~= a);
        assert(routes_a + routes_b =~= routes_a);
    } else {
        law_request_batches_concatenate(
            s,
            client,
            a,
            routes_a,
            b.drop_last(),
            routes_b.drop_last(),
            now,
        );
        assert((a + b).drop_last() =~= a + b.drop_last());
        assert((routes_a + routes_b).drop_last() =~= routes_a + routes_b.drop_last());
        assert((a + b).last() == b.last());
        assert((routes_a + routes_b).last() == routes_b.last());
    }
}

/// A batch of one request records the transaction that it asks for: its class, its
/// version, its instance, what it declares about its effects, its payload and its seal.
pub proof fn law_one_request<T: SealTypes>(
    s: PeerStateView<T>,
    client: T::Prin,
    sealed: XactSealed<T>,
    route: Result<ProcessorIdx, XactError<Seq<u8>>>,
    now: Instant,
)
    ensures
        add_requests(s, client, seq![sealed], seq![route], now) == s.add_xact(
            client,
            sealed.req.hash,
            route,
            PendingXact {
                class: sealed.req.class,
                version: sealed.req.version,
                instance: sealed.req.instance,
                effects: match sealed.req.effects {
                    XactEffects::Effects { effects, hard } => XactEffects::Effects {
                        effects: effects@,
                        hard,
                    },
                    XactEffects::HardNone { when } => XactEffects::HardNone { when },
                    XactEffects::SoftNone => XactEffects::SoftNone,
                },
                payload: sealed.req.payload@,
                seal: sealed.seal,
            },
            now,
        ),
        requests_notify(s, client, seq![sealed], seq![route], now) <==> route is Ok
            || !s.xacts.contains_key(sealed.req.hash),
{
    let reqs = seq![sealed];
    let routes = seq![route];
    assert(reqs.drop_last() =~= Seq::empty());
    assert(routes.drop_last() =~= Seq::empty());
    reveal_with_fuel(add_requests, 2);
    reveal_with_fuel(requests_notify, 2);
}

/// A batch subscribes its client to every transaction in it, whatever it declares, and
/// to no other.
pub proof fn law_requests_subscribe<T: SealTypes>(reqs: Seq<XactSealed<T>>)
    ensures
        forall|k: int|
            0 <= k < reqs.len() ==> requested(reqs).contains((#[trigger] reqs[k]).req.hash),
        forall|h: T::HashID| #[trigger]
            requested(reqs).contains(h) ==> exists|k: int|
                0 <= k < reqs.len() && (#[trigger] reqs[k]).req.hash == h,
{
    assert forall|k: int| 0 <= k < reqs.len() implies requested(reqs).contains(
        (#[trigger] reqs[k]).req.hash,
    ) by {
        assert(reqs[k].req.hash == reqs[k].req.hash);
    }
}

/// Each request of a batch goes where the table of processors says for its own class
/// and instance.
pub proof fn law_requests_are_routed<
    T: SealTypes,
    G: Fn(&T::VersionRange, &T::Version) -> bool,
>(
    s: PeerStateView<T>,
    accepts: G,
    reqs: Seq<XactSealed<T>>,
    routes: Seq<Result<ProcessorIdx, XactError<Seq<u8>>>>,
    k: int,
)
    requires
        routes_all(s, accepts, reqs, routes),
        0 <= k < reqs.len(),
    ensures
        ({
            let class = reqs[k].req.class;
            let instance = reqs[k].req.instance;
            let entry = s.processors[class].instances@[instance];
            let known = s.processors.contains_key(class)
                && s.processors[class].instances@.contains_key(instance);
            &&& routes.len() == reqs.len()
            &&& routes[k] matches Ok(p) ==> known && p == entry.processor
            &&& !s.processors.contains_key(class) ==> routes[k] == Err::<
                ProcessorIdx,
                XactError<Seq<u8>>,
            >(XactError::UnknownClass)
            &&& s.processors.contains_key(class) && !known ==> routes[k] == Err::<
                ProcessorIdx,
                XactError<Seq<u8>>,
            >(XactError::UnknownInstance)
            &&& known && (exists|i: int|
                0 <= i < entry.versions@.len() && !call_ensures(
                    accepts,
                    (&#[trigger] entry.versions@[i], &reqs[k].req.version),
                    false,
                )) ==> routes[k] is Ok
            &&& known && (forall|i: int|
                0 <= i < entry.versions@.len() ==> !call_ensures(
                    accepts,
                    (&#[trigger] entry.versions@[i], &reqs[k].req.version),
                    true,
                )) ==> routes[k] == Err::<ProcessorIdx, XactError<Seq<u8>>>(
                XactError::UnknownVersion,
            )
        }),
{
    crate::guarantees::law_search_goes_by_the_table(
        s,
        accepts,
        reqs[k].req.class,
        reqs[k].req.version,
        reqs[k].req.instance,
        routes[k],
    );
}

/// A batch leaves a transaction alone for which it does not ask.
proof fn lemma_not_requested<T: SealTypes>(
    s: PeerStateView<T>,
    client: T::Prin,
    reqs: Seq<XactSealed<T>>,
    routes: Seq<Result<ProcessorIdx, XactError<Seq<u8>>>>,
    now: Instant,
    h: T::HashID,
)
    requires
        routes.len() == reqs.len(),
        forall|k: int| 0 <= k < reqs.len() ==> (#[trigger] reqs[k]).req.hash != h,
    ensures
        ({
            let t = add_requests(s, client, reqs, routes, now);
            &&& t.xacts.contains_key(h) <==> s.xacts.contains_key(h)
            &&& t.xacts.contains_key(h) ==> t.xacts[h] == s.xacts[h]
            &&& t.missing.contains_key(h) <==> s.missing.contains_key(h)
            &&& t.tombstone_duration == s.tombstone_duration
        }),
    decreases reqs.len(),
{
    if reqs.len() > 0 {
        let rest = reqs.drop_last();
        assert forall|k: int| 0 <= k < rest.len() implies (#[trigger] rest[k]).req.hash != h by {
            assert(rest[k] == reqs[k]);
        }
        lemma_not_requested(s, client, rest, routes.drop_last(), now, h);
        assert(reqs.last() == reqs[reqs.len() - 1]);
    }
}

/// Once a client is due for a transaction, further requests of its batch keep it so.
proof fn lemma_stays_due<T: SealTypes>(
    s: PeerStateView<T>,
    client: T::Prin,
    reqs: Seq<XactSealed<T>>,
    routes: Seq<Result<ProcessorIdx, XactError<Seq<u8>>>>,
    now: Instant,
    h: T::HashID,
)
    requires
        routes.len() == reqs.len(),
        s.xacts.contains_key(h),
        s.xacts[h].reporting.contains_key(client),
        s.xacts[h].reporting[client].when == Some(now),
    ensures
        ({
            let t = add_requests(s, client, reqs, routes, now);
            &&& t.xacts.contains_key(h)
            &&& t.xacts[h].reporting.contains_key(client)
            &&& t.xacts[h].reporting[client].when == Some(now)
        }),
    decreases reqs.len(),
{
    if reqs.len() > 0 {
        lemma_stays_due(s, client, reqs.drop_last(), routes.drop_last(), now, h);
    }
}

/// Every request counts, wherever it stands in its batch and whatever else is there:
/// if a processor was found for it, or it is new, those who wait are notified, and the
/// next messages to the client hold one for it.
pub proof fn law_every_request_counts<T: SealTypes>(
    s: PeerStateView<T>,
    client: T::Prin,
    reqs: Seq<XactSealed<T>>,
    routes: Seq<Result<ProcessorIdx, XactError<Seq<u8>>>>,
    now: Instant,
    subscribed: Set<T::HashID>,
    later: Instant,
    notifies: Seq<XactNotify<T::HashID, Vec<u8>>>,
    k: int,
)
    requires
        routes.len() == reqs.len(),
        0 <= k < reqs.len(),
        routes[k] is Ok || !s.xacts.contains_key(reqs[k].req.hash),
        now.nanos <= later.nanos,
        add_requests(s, client, reqs, routes, now).tells(
            subscribed.union(requested(reqs)),
            client,
            later,
            notifies,
        ),
    ensures
        requests_notify(s, client, reqs, routes, now),
        exists|m: int|
            0 <= m < notifies.len() && (#[trigger] notifies[m]).hash == reqs[k].req.hash,
{
    let h = reqs[k].req.hash;
    // The first request for the transaction, or this one, makes the client due.
    let n = if s.xacts.contains_key(h) {
        k
    } else {
        let hashes = reqs.map_values(|q: XactSealed<T>| q.req.hash);
        assert(hashes[k] == h);
        crate::laws::lemma_first_index_exists(hashes, h);
        let n = crate::model::first_index(hashes, h);
        assert(hashes[n] == h);
        assert forall|j: int| 0 <= j < n implies (#[trigger] reqs[j]).req.hash != h by {
            assert(hashes[j] != h);
        }
        n
    };
    let a = reqs.take(n);
    let ra = routes.take(n);
    let one = seq![reqs[n]];
    let ro = seq![routes[n]];
    let b = reqs.skip(n + 1);
    let rb = routes.skip(n + 1);
    assert(reqs =~= a + (one + b));
    assert(routes =~= ra + (ro + rb));
    law_request_batches_concatenate(s, client, a, ra, one + b, ro + rb, now);
    let t = add_requests(s, client, a, ra, now);
    law_request_batches_concatenate(t, client, one, ro, b, rb, now);
    law_one_request(t, client, reqs[n], routes[n], now);
    let u = add_requests(t, client, one, ro, now);
    if s.xacts.contains_key(h) {
        law_requests_are_recorded(s, client, a, ra, now, h);
    } else {
        assert forall|j: int| 0 <= j < a.len() implies (#[trigger] a[j]).req.hash != h by {
            assert(a[j] == reqs[j]);
        }
        lemma_not_requested(s, client, a, ra, now, h);
    }
    assert(u.xacts.contains_key(h));
    assert(u.xacts[h].reporting[client].when == Some(now));
    lemma_stays_due(u, client, b, rb, now, h);
    let v = add_requests(s, client, reqs, routes, now);
    law_requests_subscribe(reqs);
    let hashes = subscribed.union(requested(reqs));
    assert(hashes.contains(h));
    crate::guarantees::law_clients_are_told(v, hashes, client, later, notifies);
}

/// A client that submits a transaction which nobody has submitted before, and which no
/// round has committed, is next told that it is accepted, whatever it declares about
/// its effects; or why there is no processor for it.
pub proof fn law_new_requests_are_acknowledged<T: SealTypes>(
    s: PeerStateView<T>,
    client: T::Prin,
    reqs: Seq<XactSealed<T>>,
    routes: Seq<Result<ProcessorIdx, XactError<Seq<u8>>>>,
    now: Instant,
    subscribed: Set<T::HashID>,
    later: Instant,
    notifies: Seq<XactNotify<T::HashID, Vec<u8>>>,
    k: int,
)
    requires
        routes.len() == reqs.len(),
        0 <= k < reqs.len(),
        forall|j: int|
            0 <= j < reqs.len() && j != k ==> (#[trigger] reqs[j]).req.hash != reqs[k].req.hash,
        !s.xacts.contains_key(reqs[k].req.hash),
        !s.missing.contains_key(reqs[k].req.hash),
        now.nanos <= later.nanos,
        add_requests(s, client, reqs, routes, now).tells(
            subscribed.union(requested(reqs)),
            client,
            later,
            notifies,
        ),
    ensures
        exists|m: int|
            {
                &&& 0 <= m < notifies.len()
                &&& (#[trigger] notifies[m]).hash == reqs[k].req.hash
                &&& match routes[k] {
                    Ok(_) => notifies[m].state is Accept,
                    Err(error) => notifies[m].state@ == (XactNotifyState::Error {
                        error: Some(error),
                    }),
                }
            },
{
    let h = reqs[k].req.hash;
    let a = reqs.take(k);
    let ra = routes.take(k);
    let one = seq![reqs[k]];
    let ro = seq![routes[k]];
    let b = reqs.skip(k + 1);
    let rb = routes.skip(k + 1);
    assert(reqs =~= a + (one + b));
    assert(routes =~= ra + (ro + rb));
    law_request_batches_concatenate(s, client, a, ra, one + b, ro + rb, now);
    let t = add_requests(s, client, a, ra, now);
    law_request_batches_concatenate(t, client, one, ro, b, rb, now);
    law_one_request(t, client, reqs[k], routes[k], now);
    let u = add_requests(t, client, one, ro, now);
    let v = add_requests(s, client, reqs, routes, now);
    assert forall|j: int| 0 <= j < a.len() implies (#[trigger] a[j]).req.hash != h by {
        assert(a[j] == reqs[j]);
    }
    lemma_not_requested(s, client, a, ra, now, h);
    assert forall|j: int| 0 <= j < b.len() implies (#[trigger] b[j]).req.hash != h by {
        assert(b[j] == reqs[k + 1 + j]);
    }
    lemma_not_requested(u, client, b, rb, now, h);
    assert(v.xacts[h] == u.xacts[h]);
    law_every_request_counts(s, client, reqs, routes, now, subscribed, later, notifies, k);
    let m = choose|m: int|
        0 <= m < notifies.len() && (#[trigger] notifies[m]).hash == reqs[k].req.hash;
    assert(notifies[m].state@ == v.xacts[h].message(client));
}

} // verus!
