use constellation_peer::config::PeerStateConfig;
use constellation_peer::ids::ConsensusRoundID;
use constellation_peer::ids::ProcessorIdx;
use constellation_peer::state::InstanceEntry;
use constellation_peer::state::PeerState;
use constellation_peer::state::ProcessorEntry;
use constellation_peer::time::Duration;
use constellation_peer::time::Instant;
use constellation_peer::types::SealTypes;
use constellation_peer::xact::XactConsensusSeal;
use constellation_peer::xact::XactEffects;
use constellation_peer::xact::XactError;
use constellation_peer::xact::XactLinPoint;
use constellation_peer::xact::XactNotify;
use constellation_peer::xact::XactNotifyState;
use std::collections::HashMap;
use std::collections::HashSet;

struct Types;

impl SealTypes for Types {
    type Prin = u32;
    type Seal = u8;
    type HashID = u64;
    type Version = u32;
    type VersionRange = (u32, u32);
    type Retry = u128;
}

const CLASS: u128 = 77;

fn at(nanos: u128) -> Instant {
    Instant { nanos }
}

fn delay(policy: &u128, nretries: usize) -> Duration {
    Duration {
        nanos: policy * (nretries as u128 + 1),
    }
}

fn accepts(range: &(u32, u32), version: &u32) -> bool {
    range.0 <= *version && *version <= range.1
}

/// Instance 0 goes to processor 0, instance 1 to processor 1; both take versions 1
/// to 3 and 7.  A transaction that is over is remembered for 1000 ticks, and what is
/// not answered is repeated after 10, 20, 30, .. ticks.
fn peer() -> PeerState<Types> {
    let mut instances = HashMap::new();

    for i in 0..2 {
        instances.insert(
            i as u64,
            InstanceEntry::new(ProcessorIdx::from(i), vec![(1, 3), (7, 7)]),
        );
    }

    let mut processors = HashMap::new();

    processors.insert(CLASS, ProcessorEntry::new(instances));
    PeerState::new(
        PeerStateConfig::new(Duration { nanos: 1000 }, Some(4), None, 5, 10),
        processors,
    )
}

fn submit(
    peer: &mut PeerState<Types>,
    client: u32,
    hash: u64,
    instance: u64,
    effects: XactEffects<Vec<u8>>,
    now: u128,
) -> bool {
    peer.add_xact(
        &client,
        CLASS,
        2,
        instance,
        hash,
        effects,
        vec![hash as u8],
        9,
        at(now),
        &accepts,
    )
}

fn with_effects() -> XactEffects<Vec<u8>> {
    XactEffects::Effects {
        effects: vec![4, 5],
        hard: true,
    }
}

fn seal(peer: &mut PeerState<Types>, round: u128, hashes: &[u64], now: u128) -> bool {
    peer.add_consensus_seal(
        ConsensusRoundID::from(round),
        XactConsensusSeal {
            hashes: hashes.to_vec(),
            seals: vec![],
        },
        at(now),
    )
}

fn point(round: u128, idx: usize) -> XactLinPoint {
    XactLinPoint {
        round: ConsensusRoundID::from(round),
        idx,
    }
}

fn poll(
    peer: &mut PeerState<Types>,
    client: u32,
    hashes: &mut HashSet<u64>,
    now: u128,
) -> (Vec<XactNotify<u64, Vec<u8>>>, Option<Instant>) {
    peer.get_client_msgs(hashes, &client, at(now), &delay)
}

/// What the client is told of the one transaction to which it is subscribed.
fn told(peer: &mut PeerState<Types>, client: u32, hash: u64, now: u128) -> XactNotifyState<Vec<u8>> {
    let mut hashes = HashSet::from([hash]);
    let (mut notifies, _) = poll(peer, client, &mut hashes, now);

    assert_eq!(notifies.len(), 1);

    let notify = notifies.pop().unwrap();

    assert_eq!(notify.hash, hash);
    notify.state
}

/// The hashes that are tried without a round, and the indices that are asked for by
/// round.
fn asked(
    peer: &mut PeerState<Types>,
    target: usize,
    now: u128,
) -> (Vec<u64>, Vec<(u128, Vec<usize>)>) {
    let (rounds, reqs, _) = peer.get_processor_msgs(ProcessorIdx::from(target), at(now), &delay);
    let mut hashes: Vec<u64> = reqs.iter().map(|r| r.req.hash).collect();
    let mut indices: Vec<(u128, Vec<usize>)> = rounds
        .iter()
        .map(|r| (r.round.0, r.reqs.iter().map(|q| q.idx).collect()))
        .collect();

    hashes.sort();
    indices.sort();
    (hashes, indices)
}

#[test]
fn processors_are_found_by_class_instance_and_version() {
    let peer = peer();

    assert!(matches!(
        peer.get_processor(CLASS, &2, 1, &accepts),
        Ok(ProcessorIdx(1))
    ));
    assert!(matches!(
        peer.get_processor(CLASS, &7, 0, &accepts),
        Ok(ProcessorIdx(0))
    ));
    assert!(matches!(
        peer.get_processor(CLASS, &4, 0, &accepts),
        Err(XactError::UnknownVersion)
    ));
    assert!(matches!(
        peer.get_processor(CLASS, &2, 2, &accepts),
        Err(XactError::UnknownInstance)
    ));
    assert!(matches!(
        peer.get_processor(1, &2, 0, &accepts),
        Err(XactError::UnknownClass)
    ));
}

#[test]
fn a_rejected_transaction_is_reported_as_an_error() {
    let mut peer = peer();

    assert!(submit(&mut peer, 1, 50, 9, XactEffects::SoftNone, 100));
    assert!(matches!(
        told(&mut peer, 1, 50, 100),
        XactNotifyState::Error {
            error: Some(XactError::UnknownInstance)
        }
    ));
    // It is already here, so nothing changes.
    assert!(!submit(&mut peer, 2, 50, 9, XactEffects::SoftNone, 101));

    let mut hashes = HashSet::from([50]);
    let (notifies, next) = poll(&mut peer, 2, &mut hashes, 101);

    assert!(notifies.is_empty());
    assert!(next.is_none());
    assert!(hashes.is_empty());
}

#[test]
fn a_transaction_without_effects_is_tried_without_a_round() {
    let mut peer = peer();

    assert!(submit(&mut peer, 1, 50, 1, XactEffects::SoftNone, 100));
    assert!(matches!(told(&mut peer, 1, 50, 100), XactNotifyState::Accept));

    // Consensus has nothing to do with it, nor has the other processor.
    let (msg, next) = peer.get_consensus_msgs(at(100), &delay);

    assert!(msg.is_none());
    assert!(next.is_none());
    assert_eq!(asked(&mut peer, 0, 100), (vec![], vec![]));

    let (rounds, reqs, next) = peer.get_processor_msgs(ProcessorIdx::from(1), at(100), &delay);

    assert!(rounds.is_empty());
    assert_eq!(next, Some(at(100)));
    assert_eq!(reqs.len(), 1);
    assert_eq!(reqs[0].seal, 9);
    assert_eq!(reqs[0].req.hash, 50);
    assert_eq!(reqs[0].req.class, CLASS);
    assert_eq!(reqs[0].req.version, 2);
    assert_eq!(reqs[0].req.instance, 1);
    assert_eq!(reqs[0].req.payload, vec![50]);
    assert!(matches!(reqs[0].req.effects, XactEffects::SoftNone));

    assert!(matches!(
        told(&mut peer, 1, 50, 100),
        XactNotifyState::PrecommitDispatch { when: None }
    ));
    assert!(peer.add_result(50, point(3, 4), vec![8, 9], at(120)));
    assert!(matches!(
        told(&mut peer, 1, 50, 120),
        XactNotifyState::Success { when, result: Some(result) }
            if when == point(3, 4) && result == vec![8, 9]
    ));
}

#[test]
fn a_requested_linearization_point_is_binding() {
    for (reported, accepted) in [(point(1, 1), true), (point(1, 2), false)] {
        let mut peer = peer();

        submit(
            &mut peer,
            1,
            50,
            0,
            XactEffects::HardNone {
                when: Some(point(1, 1)),
            },
            100,
        );
        assert_eq!(asked(&mut peer, 0, 100), (vec![50], vec![]));
        assert!(matches!(
            told(&mut peer, 1, 50, 100),
            XactNotifyState::PrecommitDispatch { when: Some(when) } if when == point(1, 1)
        ));
        assert!(peer.add_result(50, reported, vec![], at(101)));

        let state = told(&mut peer, 1, 50, 101);

        if accepted {
            assert!(matches!(state, XactNotifyState::Success { .. }));
        } else {
            assert!(matches!(
                state,
                XactNotifyState::Error {
                    error: Some(XactError::Internal)
                }
            ));
        }
    }
}

#[test]
fn trials_are_repeated_after_growing_delays() {
    let mut peer = peer();

    submit(&mut peer, 1, 50, 0, XactEffects::HardNone { when: None }, 100);
    assert_eq!(asked(&mut peer, 0, 99), (vec![], vec![]));
    assert_eq!(asked(&mut peer, 0, 100), (vec![50], vec![]));
    assert_eq!(asked(&mut peer, 0, 109), (vec![], vec![]));
    assert_eq!(asked(&mut peer, 0, 110), (vec![50], vec![]));
    assert_eq!(asked(&mut peer, 0, 129), (vec![], vec![]));

    let (_, reqs, next) = peer.get_processor_msgs(ProcessorIdx::from(0), at(129), &delay);

    assert!(reqs.is_empty());
    assert_eq!(next, Some(at(130)));
    assert_eq!(asked(&mut peer, 0, 130), (vec![50], vec![]));
}

#[test]
fn a_transaction_with_effects_goes_through_consensus() {
    let mut peer = peer();

    assert!(submit(&mut peer, 1, 50, 1, with_effects(), 100));
    assert_eq!(asked(&mut peer, 1, 100), (vec![], vec![]));

    let (msg, next) = peer.get_consensus_msgs(at(100), &delay);

    assert_eq!(msg.unwrap().hashes, vec![50]);
    assert_eq!(next, Some(at(100)));
    assert!(matches!(
        told(&mut peer, 1, 50, 100),
        XactNotifyState::Consensus
    ));

    // It is submitted again after ten ticks.
    let (msg, next) = peer.get_consensus_msgs(at(109), &delay);

    assert!(msg.is_none());
    assert_eq!(next, Some(at(110)));
    assert!(peer.get_consensus_msgs(at(110), &delay).0.is_some());

    // The round commits it at index 1.
    assert!(seal(&mut peer, 5, &[40, 50], 115));
    assert!(!seal(&mut peer, 5, &[50], 116));
    assert!(matches!(
        told(&mut peer, 1, 50, 115),
        XactNotifyState::Commit { when } if when == point(5, 1)
    ));
    assert!(peer.get_consensus_msgs(at(200), &delay).0.is_none());

    // A round is sent strictly after the time that is set for it.
    assert_eq!(asked(&mut peer, 1, 115), (vec![], vec![]));
    assert_eq!(asked(&mut peer, 0, 116), (vec![], vec![]));

    let (rounds, reqs, next) = peer.get_processor_msgs(ProcessorIdx::from(1), at(116), &delay);

    assert!(reqs.is_empty());
    assert_eq!(next, Some(at(115)));
    assert_eq!(rounds.len(), 1);
    assert_eq!(rounds[0].round, ConsensusRoundID::from(5));
    assert!(rounds[0].seal.is_none());
    assert_eq!(rounds[0].reqs.len(), 1);

    let req = &rounds[0].reqs[0];

    assert_eq!(req.class, CLASS);
    assert_eq!(req.version, 2);
    assert_eq!(req.instance, 1);
    assert_eq!(req.idx, 1);
    assert_eq!(req.payload, vec![50]);
    assert!(req.effects.as_ref().unwrap().hard);
    assert_eq!(req.effects.as_ref().unwrap().effects, vec![4, 5]);

    let mut hashes = HashSet::from([50]);
    let (notifies, _) = poll(&mut peer, 1, &mut hashes, 200);

    assert!(matches!(
        notifies[0].state,
        XactNotifyState::Dispatch { when } if when == point(5, 1)
    ));

    assert!(peer.add_result(50, point(5, 1), vec![1], at(210)));
    assert!(matches!(
        told(&mut peer, 1, 50, 210),
        XactNotifyState::Success { when, result: Some(_) } if when == point(5, 1)
    ));
}

#[test]
fn a_round_is_repeated_after_its_delay() {
    let mut peer = peer();

    submit(&mut peer, 1, 50, 0, with_effects(), 100);
    seal(&mut peer, 5, &[50], 100);
    assert_eq!(asked(&mut peer, 0, 101), (vec![], vec![(5, vec![0])]));
    assert_eq!(asked(&mut peer, 0, 111), (vec![], vec![]));
    assert_eq!(asked(&mut peer, 0, 112), (vec![], vec![(5, vec![0])]));
    assert_eq!(asked(&mut peer, 0, 132), (vec![], vec![]));
    assert_eq!(asked(&mut peer, 0, 133), (vec![], vec![(5, vec![0])]));
}

#[test]
fn a_round_is_forgotten_when_all_is_over() {
    let mut peer = peer();

    submit(&mut peer, 1, 50, 0, with_effects(), 100);
    submit(&mut peer, 1, 51, 0, with_effects(), 100);
    seal(&mut peer, 5, &[50, 51], 100);
    assert_eq!(asked(&mut peer, 0, 101), (vec![], vec![(5, vec![0, 1])]));
    peer.add_result(50, point(5, 0), vec![], at(102));
    assert_eq!(asked(&mut peer, 0, 112), (vec![], vec![(5, vec![1])]));
    peer.add_error(51, XactError::Error { error: vec![7] }, at(113));
    assert!(!seal(&mut peer, 5, &[50, 51], 114));
    // The other processor has no part in the round, so the round stays.
    assert_eq!(asked(&mut peer, 1, 140), (vec![], vec![]));
    assert!(!seal(&mut peer, 5, &[50, 51], 140));
    assert_eq!(asked(&mut peer, 0, 140), (vec![], vec![]));
    assert!(seal(&mut peer, 5, &[50, 51], 141));
    assert!(matches!(
        told(&mut peer, 1, 51, 141),
        XactNotifyState::Error { error: Some(XactError::Error { error }) } if error == vec![7]
    ));
}

#[test]
fn large_rounds_are_split_by_processor() {
    let mut peer = peer();
    let hashes: Vec<u64> = (0..150).collect();

    for hash in &hashes {
        submit(&mut peer, 1, *hash, *hash % 2, with_effects(), 100);
    }

    seal(&mut peer, 5, &hashes, 100);

    let even: Vec<usize> = (0..150).step_by(2).collect();
    let odd: Vec<usize> = (1..150).step_by(2).collect();

    assert_eq!(asked(&mut peer, 0, 101), (vec![], vec![(5, even)]));
    assert_eq!(asked(&mut peer, 1, 101), (vec![], vec![(5, odd)]));

    for hash in &hashes {
        if *hash % 3 != 0 {
            peer.add_result(*hash, point(5, *hash as usize), vec![], at(102));
        }
    }

    let rest: Vec<usize> = (0..150).step_by(6).collect();

    assert_eq!(asked(&mut peer, 0, 120), (vec![], vec![(5, rest)]));
}

#[test]
fn the_last_place_in_a_round_counts() {
    let mut peer = peer();

    submit(&mut peer, 1, 50, 0, with_effects(), 100);
    seal(&mut peer, 5, &[50, 40, 50], 100);
    assert!(matches!(
        told(&mut peer, 1, 50, 100),
        XactNotifyState::Commit { when } if when == point(5, 2)
    ));
    assert_eq!(asked(&mut peer, 0, 101), (vec![], vec![(5, vec![0, 2])]));
}

#[test]
fn a_transaction_that_comes_late_takes_its_place() {
    let mut peer = peer();

    assert!(seal(&mut peer, 5, &[40, 50], 100));
    assert_eq!(asked(&mut peer, 1, 101), (vec![], vec![]));
    assert!(submit(&mut peer, 1, 50, 1, with_effects(), 110));
    assert!(matches!(
        told(&mut peer, 1, 50, 110),
        XactNotifyState::Commit { when } if when == point(5, 1)
    ));
    assert!(peer.get_consensus_msgs(at(110), &delay).0.is_none());
    assert_eq!(asked(&mut peer, 1, 111), (vec![], vec![(5, vec![1])]));
    assert!(peer.add_result(50, point(5, 1), vec![6], at(112)));
    assert!(matches!(
        told(&mut peer, 1, 50, 112),
        XactNotifyState::Success { .. }
    ));
}

#[test]
fn a_late_transaction_goes_to_its_processor_wherever_it_stands() {
    let mut peer = peer();

    seal(&mut peer, 5, &[50, 40], 100);
    submit(&mut peer, 1, 50, 1, with_effects(), 110);
    assert_eq!(asked(&mut peer, 0, 111), (vec![], vec![]));
    assert_eq!(asked(&mut peer, 1, 111), (vec![], vec![(5, vec![0])]));
    assert!(peer.add_result(50, point(5, 0), vec![6], at(112)));
    assert!(matches!(
        told(&mut peer, 1, 50, 112),
        XactNotifyState::Success { when, result: Some(result) }
            if when == point(5, 0) && result == vec![6]
    ));

    // The position need not be the index of any processor.
    seal(&mut peer, 6, &[41, 42, 43, 60], 120);
    submit(&mut peer, 1, 60, 0, XactEffects::SoftNone, 130);
    assert_eq!(asked(&mut peer, 1, 131), (vec![], vec![]));
    assert_eq!(asked(&mut peer, 0, 131), (vec![], vec![(6, vec![3])]));
}

#[test]
fn resubmission_only_subscribes() {
    let mut peer = peer();

    submit(&mut peer, 1, 50, 0, XactEffects::SoftNone, 100);
    assert_eq!(asked(&mut peer, 0, 100), (vec![50], vec![]));
    assert!(submit(&mut peer, 2, 50, 0, with_effects(), 105));
    assert_eq!(asked(&mut peer, 0, 105), (vec![], vec![]));
    assert!(peer.get_consensus_msgs(at(105), &delay).0.is_none());
    peer.add_result(50, point(1, 0), vec![3], at(106));

    for client in [1, 2] {
        assert!(matches!(
            told(&mut peer, client, 50, 106),
            XactNotifyState::Success { result: Some(result), .. } if result == vec![3]
        ));
    }
}

#[test]
fn reports_that_nobody_asked_for_are_errors() {
    for early in [true, false] {
        let mut peer = peer();
        let effects = if early {
            XactEffects::SoftNone
        } else {
            with_effects()
        };

        submit(&mut peer, 1, 50, 0, effects, 100);
        assert!(peer.add_result(50, point(1, 0), vec![], at(101)));
        assert!(matches!(
            told(&mut peer, 1, 50, 101),
            XactNotifyState::Error {
                error: Some(XactError::Internal)
            }
        ));
    }

    let mut peer = peer();

    submit(&mut peer, 1, 50, 0, XactEffects::SoftNone, 100);
    assert!(peer.add_error(50, XactError::Error { error: vec![] }, at(101)));
    assert!(matches!(
        told(&mut peer, 1, 50, 101),
        XactNotifyState::Error {
            error: Some(XactError::Internal)
        }
    ));
    // Reports on unknown transactions are ignored.
    assert!(!peer.add_result(99, point(1, 0), vec![], at(101)));
    assert!(!peer.add_error(99, XactError::Internal, at(101)));
}

#[test]
fn the_first_report_stands_unless_contradicted() {
    let mut peer = peer();

    submit(&mut peer, 1, 50, 0, XactEffects::SoftNone, 100);
    asked(&mut peer, 0, 100);
    assert!(peer.add_result(50, point(1, 0), vec![1], at(101)));
    assert!(!peer.add_result(50, point(1, 0), vec![2], at(102)));
    assert!(matches!(
        told(&mut peer, 1, 50, 102),
        XactNotifyState::Success { result: Some(result), .. } if result == vec![1]
    ));
    assert!(peer.add_error(50, XactError::Error { error: vec![] }, at(103)));
    assert!(matches!(
        told(&mut peer, 1, 50, 103),
        XactNotifyState::Error {
            error: Some(XactError::Internal)
        }
    ));
    // Another error is ignored, but a result contradicts the error.
    assert!(!peer.add_error(50, XactError::Error { error: vec![] }, at(104)));
    assert!(peer.add_result(50, point(1, 0), vec![], at(105)));
}

#[test]
fn what_is_over_is_remembered_for_a_while() {
    let mut peer = peer();

    submit(&mut peer, 1, 50, 0, XactEffects::SoftNone, 100);
    asked(&mut peer, 0, 100);
    peer.add_result(50, point(1, 0), vec![1], at(200));

    let mut hashes = HashSet::from([50]);
    let (notifies, next) = poll(&mut peer, 1, &mut hashes, 1199);

    assert_eq!(notifies.len(), 1);
    assert_eq!(next, Some(at(1209)));
    assert!(hashes.contains(&50));
    assert!(!peer.add_result(50, point(1, 0), vec![1], at(1200)));

    // The last report, and then it is gone.
    let (notifies, _) = poll(&mut peer, 1, &mut hashes, 1209);

    assert_eq!(notifies.len(), 1);
    assert!(hashes.is_empty());

    // A new submission starts afresh.
    assert!(submit(&mut peer, 1, 50, 0, XactEffects::SoftNone, 1300));
    assert!(matches!(
        told(&mut peer, 1, 50, 1300),
        XactNotifyState::Accept
    ));
}

#[test]
fn subscriptions_to_nothing_are_dropped() {
    let mut peer = peer();

    submit(&mut peer, 1, 50, 0, XactEffects::SoftNone, 100);

    let mut hashes = HashSet::from([50, 60]);
    let (notifies, next) = poll(&mut peer, 1, &mut hashes, 100);

    assert_eq!(notifies.len(), 1);
    assert_eq!(next, Some(at(110)));
    assert_eq!(hashes, HashSet::from([50]));
    // Another client is not subscribed to it.
    assert!(poll(&mut peer, 2, &mut hashes, 100).0.is_empty());
    assert!(hashes.is_empty());
}

#[test]
fn collecting_early_puts_a_report_off() {
    let mut peer = peer();

    submit(&mut peer, 1, 50, 0, XactEffects::SoftNone, 100);

    let mut hashes = HashSet::from([50]);
    let (notifies, next) = poll(&mut peer, 1, &mut hashes, 95);

    assert!(notifies.is_empty());
    assert_eq!(next, Some(at(105)));
    assert!(poll(&mut peer, 1, &mut hashes, 100).0.is_empty());
    assert_eq!(poll(&mut peer, 1, &mut hashes, 120).0.len(), 1);
}

#[test]
fn a_client_is_told_again_after_growing_delays() {
    let mut peer = peer();

    submit(&mut peer, 1, 50, 0, XactEffects::SoftNone, 100);

    let mut hashes = HashSet::from([50]);

    assert_eq!(poll(&mut peer, 1, &mut hashes, 100).1, Some(at(110)));
    assert_eq!(poll(&mut peer, 1, &mut hashes, 110).1, Some(at(130)));
    assert_eq!(poll(&mut peer, 1, &mut hashes, 130).1, Some(at(160)));
}

#[test]
fn retry_counters_have_room() {
    let mut peer = peer();

    assert!(peer.can_retry());
    submit(&mut peer, 1, 50, 0, with_effects(), 100);
    seal(&mut peer, 5, &[50], 100);
    asked(&mut peer, 0, 101);
    assert!(peer.can_retry());
}
