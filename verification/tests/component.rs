use constellation_peer::component::assign_credentials;
use constellation_peer::component::build_processors;
use constellation_peer::component::DuplicateProcessor;
use constellation_peer::component::MissingCredential;
use constellation_peer::component::PrincipalCredentials;
use constellation_peer::component::TestSeal;
use constellation_peer::component::TestSealCodec;
use constellation_peer::config::ClassConfig;
use constellation_peer::config::ClassIDConfig;
use constellation_peer::config::ProcessorConfig;
use constellation_peer::ids::ProcessorIdx;

fn class(uuid: u128, instances: &[usize], version: u8) -> ClassConfig<u8> {
    ClassConfig::new(ClassIDConfig::UUID { uuid }, instances.to_vec(), vec![version])
}

fn processor(principal: &str, classes: Vec<ClassConfig<u8>>) -> ProcessorConfig<String, u8> {
    ProcessorConfig::new(String::from(principal), classes)
}

fn range(version: &u8) -> u32 {
    100 + *version as u32
}

#[test]
fn principals_are_numbered_as_they_occur() {
    let configs = vec![
        processor("b", vec![class(1, &[0], 1)]),
        processor("a", vec![class(1, &[1], 2)]),
        processor("b", vec![class(2, &[5, 6], 3)]),
        processor("c", vec![]),
    ];
    let (ids, table) = match build_processors(&configs, &range) {
        Ok(tables) => tables,
        Err(_) => panic!("unexpected duplicate"),
    };

    assert_eq!(ids.get("b"), Some(&ProcessorIdx::from(0)));
    assert_eq!(ids.get("a"), Some(&ProcessorIdx::from(1)));
    assert_eq!(ids.get("c"), Some(&ProcessorIdx::from(2)));
    assert_eq!(ids.get("d"), None);
    assert_eq!(table.len(), 2);

    let first = &table[&1].instances;

    assert_eq!(first.len(), 2);
    assert_eq!(first[&0].processor, ProcessorIdx::from(0));
    assert_eq!(first[&0].versions, vec![101]);
    assert_eq!(first[&1].processor, ProcessorIdx::from(1));
    assert_eq!(first[&1].versions, vec![102]);

    let second = &table[&2].instances;

    assert_eq!(second.len(), 2);
    assert_eq!(second[&5].processor, ProcessorIdx::from(0));
    assert_eq!(second[&6].versions, vec![103]);
}

#[test]
fn named_classes_are_keyed_by_their_uuid() {
    let configs = vec![processor(
        "a",
        vec![ClassConfig::new(
            ClassIDConfig::Name {
                name: String::from("rust-lang.org"),
            },
            vec![0],
            vec![1],
        )],
    )];
    let (_, table) = match build_processors(&configs, &range) {
        Ok(tables) => tables,
        Err(_) => panic!("unexpected duplicate"),
    };

    assert!(table.contains_key(&0xc66bbb60_d62e_5f17_a399_3a0bd237c503));
}

#[test]
fn two_processors_for_one_instance_conflict() {
    let configs = vec![
        processor("a", vec![class(1, &[0, 1], 1)]),
        processor("b", vec![class(2, &[0], 1), class(1, &[2, 1, 0], 1)]),
    ];

    match build_processors(&configs, &range) {
        Ok(_) => panic!("expected a duplicate"),
        Err(duplicate) => assert_eq!(
            duplicate,
            DuplicateProcessor {
                class: 1,
                instance: 1,
            }
        ),
    }
}

#[test]
fn repetitions_count_from_the_second_mention_of_a_class() {
    let once = vec![processor("a", vec![class(1, &[0, 0], 1)])];

    match build_processors(&once, &range) {
        Ok((_, table)) => assert_eq!(table[&1].instances.len(), 1),
        Err(_) => panic!("unexpected duplicate"),
    }

    let twice = vec![processor("a", vec![class(1, &[], 1), class(1, &[3, 3], 1)])];

    match build_processors(&twice, &range) {
        Ok(_) => panic!("expected a duplicate"),
        Err(duplicate) => assert_eq!(
            duplicate,
            DuplicateProcessor {
                class: 1,
                instance: 3,
            }
        ),
    }
}

fn credentials(principal: &str, creds: Vec<Option<u64>>) -> PrincipalCredentials<u64> {
    PrincipalCredentials {
        principal: String::from(principal),
        creds,
    }
}

#[test]
fn credentials_stand_for_processors() {
    let configs = vec![processor("a", vec![]), processor("b", vec![])];
    let (ids, _) = match build_processors(&configs, &range) {
        Ok(tables) => tables,
        Err(_) => panic!("unexpected duplicate"),
    };
    let auth = vec![
        credentials("b", vec![Some(10), Some(11)]),
        credentials("unknown", vec![None, Some(12)]),
        credentials("a", vec![Some(11)]),
    ];
    let creds = assign_credentials(&auth, &ids).unwrap();

    assert_eq!(creds.len(), 2);
    assert_eq!(creds[&10], ProcessorIdx::from(1));
    assert_eq!(creds[&11], ProcessorIdx::from(0));
}

#[test]
fn a_missing_credential_is_an_error() {
    let configs = vec![processor("a", vec![])];
    let (ids, _) = match build_processors(&configs, &range) {
        Ok(tables) => tables,
        Err(_) => panic!("unexpected duplicate"),
    };
    let auth = vec![
        credentials("unknown", vec![None]),
        credentials("a", vec![Some(1), None, None]),
    ];

    assert_eq!(
        assign_credentials(&auth, &ids),
        Err(MissingCredential {
            entry: 1,
            credential: 1,
        })
    );
}

#[test]
fn test_seals_take_no_bytes() {
    let mut codec = TestSealCodec::create();
    let mut buf = [1u8, 2, 3];

    assert_eq!(codec.buf_size(&TestSeal), 0);
    assert_eq!(codec.encode(&TestSeal, &mut buf), 0);
    assert_eq!(buf, [1, 2, 3]);
    assert_eq!(codec.decode(&buf).1, 0);
}
