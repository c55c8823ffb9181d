use constellation_peer::clients::ClientSessionDispatch;
use constellation_peer::clients::ClientSessionDispatchError;
use constellation_peer::clients::ClientSessionRecvError;
use constellation_peer::config::PeerStateConfig;
use constellation_peer::consensus::ConsensusMsgs;
use constellation_peer::consensus::ConsensusRecv;
use constellation_peer::ids::ConsensusRoundID;
use constellation_peer::ids::ProcessorIdx;
use constellation_peer::processors::ProcessorSessionDispatch;
use constellation_peer::processors::ProcessorSessionDispatchError;
use constellation_peer::processors::ProcessorSessionMsgs;
use constellation_peer::processors::ProcessorSessionRecvError;
use constellation_peer::sessions::ErrorScope;
use constellation_peer::state::InstanceEntry;
use constellation_peer::state::PeerState;
use constellation_peer::state::ProcessorEntry;
use constellation_peer::time::Duration;
use constellation_peer::time::Instant;
use constellation_peer::types::SealTypes;
use constellation_peer::xact::ConsensusCtl;
use constellation_peer::xact::ConsensusCtlRound;
use constellation_peer::xact::ConsensusCtlSubmit;
use constellation_peer::xact::XactBlobBatch;
use constellation_peer::xact::XactEffects;
use constellation_peer::xact::XactError;
use constellation_peer::xact::XactLinPoint;
use constellation_peer::xact::XactNotify;
use constellation_peer::xact::XactNotifyState;
use constellation_peer::xact::XactSealed;
use constellation_peer::xact::XactUncommittedHashReq;
use std::collections::HashMap;

struct Types;

impl SealTypes for Types {
    type Prin = u32;
    type Seal = u8;
    type HashID = u64;
    type Version = u32;
    type VersionRange = (u32, u32);
    type Retry = u128;
}

const CLASS: u128 = 77;

fn at(nanos: u128) -> Instant {
    Instant { nanos }
}

fn delay(policy: &u128, nretries: usize) -> Duration {
    Duration {
        nanos: policy * (nretries as u128 + 1),
    }
}

fn accepts(range: &(u32, u32), version: &u32) -> bool {
    range.0 <= *version && *version <= range.1
}

/// Instance 0 goes to processor 0, instance 1 to processor 1; both take versions 1
/// to 3 and 7.  A transaction that is over is remembered for 1000 ticks, and what is
/// not answered is repeated after 10, 20, 30, .. ticks.
fn peer() -> PeerState<Types> {
    let mut instances = HashMap::new();

    for i in 0..2 {
        instances.insert(
            i as u64,
            InstanceEntry::new(ProcessorIdx::from(i), vec![(1, 3), (7, 7)]),
        );
    }

    let mut processors = HashMap::new();

    processors.insert(CLASS, ProcessorEntry::new(instances));
    PeerState::new(
        PeerStateConfig::new(Duration { nanos: 1000 }, Some(4), None, 5, 10),
        processors,
    )
}

fn request(hash: u64, instance: u64, effects: XactEffects<Vec<u8>>) -> XactSealed<Types> {
    XactSealed {
        seal: 9,
        req: XactUncommittedHashReq {
            hash,
            class: CLASS,
            version: 2,
            instance,
            payload: vec![hash as u8],
            effects,
        },
    }
}

fn requests(reqs: Vec<XactSealed<Types>>) -> XactBlobBatch<Types> {
    XactBlobBatch {
        committed: vec![],
        reqs,
        notifies: vec![],
    }
}

fn reports(notifies: Vec<(u64, XactNotifyState<Vec<u8>>)>) -> XactBlobBatch<Types> {
    XactBlobBatch {
        committed: vec![],
        reqs: vec![],
        notifies: notifies
            .into_iter()
            .map(|(hash, state)| XactNotify { hash, state })
            .collect(),
    }
}

fn point() -> XactLinPoint {
    XactLinPoint {
        round: ConsensusRoundID::from(3),
        idx: 0,
    }
}

fn show(prin: &u32) -> String {
    format!("<{}>", prin)
}

#[test]
fn a_client_has_one_session() {
    let mut clients: ClientSessionDispatch<Types> = ClientSessionDispatch::new();

    assert!(clients.session(&1).is_ok());
    assert!(clients.session(&2).is_ok());
    assert!(matches!(
        clients.session(&1),
        Err(ClientSessionDispatchError::Exists { prin: 1 })
    ));
}

#[test]
fn a_client_needs_a_session() {
    let mut peer = peer();
    let mut clients: ClientSessionDispatch<Types> = ClientSessionDispatch::new();
    let batch = requests(vec![request(50, 0, XactEffects::SoftNone)]);

    assert!(matches!(
        clients.recv_auth_msg(&mut peer, &1, batch, at(100), &accepts),
        Err(ClientSessionRecvError::NotFound { prin: 1 })
    ));

    let (batch, next) = clients.add_msgs(&mut peer, &1, at(100), &delay);

    assert!(batch.is_none());
    assert!(next.is_none());
    assert!(peer
        .get_processor_msgs(ProcessorIdx::from(0), at(100), &delay)
        .1
        .is_empty());
}

#[test]
fn a_client_is_told_of_what_it_asked_for() {
    let mut peer = peer();
    let mut clients: ClientSessionDispatch<Types> = ClientSessionDispatch::new();

    clients.session(&1).unwrap();

    let mut batch = requests(vec![
        request(50, 0, XactEffects::SoftNone),
        request(51, 8, XactEffects::SoftNone),
    ]);

    batch.notifies = reports(vec![(60, XactNotifyState::Consensus)]).notifies;
    assert!(matches!(
        clients.recv_auth_msg(&mut peer, &1, batch, at(100), &accepts),
        Ok(true)
    ));
    // A transaction that no processor takes, and that is already here.
    assert!(matches!(
        clients.recv_auth_msg(
            &mut peer,
            &1,
            requests(vec![request(51, 8, XactEffects::SoftNone)]),
            at(100),
            &accepts
        ),
        Ok(false)
    ));

    let (batch, next) = clients.add_msgs(&mut peer, &1, at(100), &delay);
    let mut notifies = batch.unwrap().notifies;

    notifies.sort_by_key(|n| n.hash);
    assert_eq!(next, Some(at(110)));
    assert_eq!(notifies.len(), 2);
    assert_eq!(notifies[0].hash, 50);
    assert!(matches!(notifies[0].state, XactNotifyState::Accept));
    assert_eq!(notifies[1].hash, 51);
    assert!(matches!(
        notifies[1].state,
        XactNotifyState::Error {
            error: Some(XactError::UnknownInstance)
        }
    ));

    // Nothing is due, so there is nothing to wait for either.
    let (batch, next) = clients.add_msgs(&mut peer, &1, at(101), &delay);

    assert!(batch.is_none());
    assert!(next.is_none());
}

#[test]
fn a_processor_has_one_session() {
    let mut processors: ProcessorSessionDispatch<Types> =
        ProcessorSessionDispatch::new(HashMap::from([(7, ProcessorIdx::from(1))]));

    assert!(matches!(
        processors.session(&8),
        Err(ProcessorSessionDispatchError::Unknown { prin: 8 })
    ));
    assert!(matches!(
        processors.session(&7),
        Ok(ProcessorSessionMsgs {
            idx: ProcessorIdx(1)
        })
    ));
    assert!(matches!(
        processors.session(&7),
        Err(ProcessorSessionDispatchError::Exists { prin: 7 })
    ));
}

#[test]
fn a_processor_is_asked_and_answers() {
    let mut peer = peer();
    let mut clients: ClientSessionDispatch<Types> = ClientSessionDispatch::new();
    let mut processors: ProcessorSessionDispatch<Types> =
        ProcessorSessionDispatch::new(HashMap::from([(7, ProcessorIdx::from(1))]));

    clients.session(&1).unwrap();
    clients
        .recv_auth_msg(
            &mut peer,
            &1,
            requests(vec![
                request(50, 1, XactEffects::SoftNone),
                request(51, 1, XactEffects::SoftNone),
            ]),
            at(100),
            &accepts,
        )
        .unwrap();
    assert!(matches!(
        processors.recv_auth_msg(&mut peer, &7, reports(vec![]), at(100)),
        Err(ProcessorSessionRecvError::NotFound { prin: 7 })
    ));

    let msgs = processors.session(&7).unwrap();
    let (batch, next) = msgs.add_msgs(&mut peer, at(100), &delay);
    let batch = batch.unwrap();

    assert_eq!(batch.reqs.len(), 2);
    assert!(batch.committed.is_empty());
    assert!(batch.notifies.is_empty());
    assert_eq!(next, Some(at(100)));

    let (batch, next) = msgs.add_msgs(&mut peer, at(101), &delay);

    assert!(batch.is_none());
    assert!(next.is_none());

    // What says neither result nor error is passed over.
    let idle = reports(vec![
        (50, XactNotifyState::Accept),
        (50, XactNotifyState::PrecommitDispatch { when: None }),
        (50, XactNotifyState::Consensus),
        (50, XactNotifyState::Commit { when: point() }),
        (50, XactNotifyState::Dispatch { when: point() }),
        (
            50,
            XactNotifyState::Success {
                when: point(),
                result: None,
            },
        ),
        (50, XactNotifyState::Error { error: None }),
    ]);

    assert!(matches!(
        processors.recv_auth_msg(&mut peer, &7, idle, at(102)),
        Ok(false)
    ));

    let done = reports(vec![
        (
            50,
            XactNotifyState::Success {
                when: point(),
                result: Some(vec![1, 2]),
            },
        ),
        (
            51,
            XactNotifyState::Error {
                error: Some(XactError::Error { error: vec![3] }),
            },
        ),
    ]);

    assert!(matches!(
        processors.recv_auth_msg(&mut peer, &7, done, at(103)),
        Ok(true)
    ));

    let mut notifies = clients
        .add_msgs(&mut peer, &1, at(103), &delay)
        .0
        .unwrap()
        .notifies;

    notifies.sort_by_key(|n| n.hash);
    assert!(matches!(
        &notifies[0].state,
        XactNotifyState::Success { when, result: Some(result) }
            if *when == point() && *result == vec![1, 2]
    ));
    assert!(matches!(
        &notifies[1].state,
        XactNotifyState::Error { error: Some(XactError::Error { error }) } if *error == vec![3]
    ));
}

#[test]
fn consensus_is_handed_transactions_and_commits_rounds() {
    let mut peer = peer();
    let mut clients: ClientSessionDispatch<Types> = ClientSessionDispatch::new();
    let effects = XactEffects::Effects {
        effects: vec![],
        hard: false,
    };

    clients.session(&1).unwrap();
    clients
        .recv_auth_msg(
            &mut peer,
            &1,
            requests(vec![request(50, 0, effects)]),
            at(100),
            &accepts,
        )
        .unwrap();

    let (msg, next) = ConsensusMsgs.add_msgs(&mut peer, at(100), &delay);

    assert!(matches!(
        msg,
        Some(ConsensusCtl::Submit(submit)) if submit.hashes == vec![50]
    ));
    assert_eq!(next, Some(at(100)));

    let (msg, next) = ConsensusMsgs.add_msgs(&mut peer, at(101), &delay);

    assert!(msg.is_none());
    assert!(next.is_none());

    // Consensus does not submit to the peer.
    assert!(!ConsensusRecv.recv_auth_msg(
        &mut peer,
        ConsensusCtl::Submit(ConsensusCtlSubmit { hashes: vec![50] }),
        at(102)
    ));

    for (seals, new) in [(None, true), (Some(vec![1]), false)] {
        let round = ConsensusCtl::Round(ConsensusCtlRound {
            round: ConsensusRoundID::from(3),
            hashes: vec![50],
            seals,
        });

        assert_eq!(ConsensusRecv.recv_auth_msg(&mut peer, round, at(103)), new);
    }

    let notifies = clients
        .add_msgs(&mut peer, &1, at(103), &delay)
        .0
        .unwrap()
        .notifies;

    assert!(matches!(
        notifies[0].state,
        XactNotifyState::Commit { when } if when == point()
    ));
}

#[test]
fn client_errors_have_scope_and_text() {
    let missing = ClientSessionRecvError::NotFound { prin: 4u32 };
    let exists = ClientSessionDispatchError::Exists { prin: 4u32 };

    assert_eq!(missing.scope(), ErrorScope::Session);
    assert_eq!(missing.text(&show), "no client session exists for <4>");
    assert_eq!(
        ClientSessionRecvError::<u32>::MutexPoison.scope(),
        ErrorScope::Unrecoverable
    );
    assert_eq!(
        ClientSessionRecvError::<u32>::MutexPoison.text(&show),
        "mutex poisoned"
    );
    assert_eq!(exists.scope(), ErrorScope::Unrecoverable);
    assert_eq!(exists.text(&show), "client session already exists for <4>");
    assert_eq!(
        ClientSessionDispatchError::<u32>::MutexPoison.scope(),
        ErrorScope::Unrecoverable
    );
    assert_eq!(
        ClientSessionDispatchError::<u32>::MutexPoison.text(&show),
        "mutex poisoned"
    );
}

#[test]
fn processor_errors_have_scope_and_text() {
    let missing = ProcessorSessionRecvError::NotFound { prin: 4u32 };
    let exists = ProcessorSessionDispatchError::Exists { prin: 4u32 };
    let unknown = ProcessorSessionDispatchError::Unknown { prin: 4u32 };

    assert_eq!(missing.scope(), ErrorScope::Session);
    assert_eq!(missing.text(&show), "no processor session exists for <4>");
    assert_eq!(
        ProcessorSessionRecvError::<u32>::MutexPoison.scope(),
        ErrorScope::Unrecoverable
    );
    assert_eq!(
        ProcessorSessionRecvError::<u32>::MutexPoison.text(&show),
        "mutex poisoned"
    );
    assert_eq!(exists.scope(), ErrorScope::Unrecoverable);
    assert_eq!(exists.text(&show), "processor session already exists for <4>");
    assert_eq!(unknown.scope(), ErrorScope::Unrecoverable);
    assert_eq!(unknown.text(&show), "no processor associated with <4>");
    assert_eq!(
        ProcessorSessionDispatchError::<u32>::MutexPoison.text(&show),
        "mutex poisoned"
    );
}
