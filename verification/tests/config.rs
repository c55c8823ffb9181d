use constellation_peer::config::ClassConfig;
use constellation_peer::config::ClassIDConfig;
use constellation_peer::config::ClientsConfig;
use constellation_peer::config::ConsensusConfig;
use constellation_peer::config::PeerConfig;
use constellation_peer::config::PeerStateConfig;
use constellation_peer::config::ProcessorClassesConfig;
use constellation_peer::config::ProcessorConfig;
use constellation_peer::config::ProcessorsConfig;
use constellation_peer::config::StandaloneConfig;
use constellation_peer::time::Duration;
use serde_yaml::Value;
use uuid::Uuid;

fn parse(yaml: &str) -> Value {
    serde_yaml::from_str(yaml).unwrap()
}

fn class_id(value: &Value) -> ClassIDConfig {
    match value.get("uuid") {
        Some(uuid) => ClassIDConfig::UUID {
            uuid: Uuid::parse_str(uuid.as_str().unwrap()).unwrap().as_u128(),
        },
        None => ClassIDConfig::Name {
            name: String::from(value.get("name").unwrap().as_str().unwrap()),
        },
    }
}

fn class(value: &Value) -> ClassConfig<String> {
    let instances = match value.get("instances") {
        Some(list) => list
            .as_sequence()
            .unwrap()
            .iter()
            .map(|i| i.as_u64().unwrap() as usize)
            .collect(),
        None => ClassConfig::<String>::default_instances(),
    };
    let versions = value
        .get("versions")
        .unwrap()
        .as_sequence()
        .unwrap()
        .iter()
        .map(|v| String::from(v.as_str().unwrap()))
        .collect();

    ClassConfig::new(class_id(value), instances, versions)
}

fn processor(value: &Value) -> ProcessorConfig<String, String> {
    let classes = value
        .get("classes")
        .unwrap()
        .as_sequence()
        .unwrap()
        .iter()
        .map(class)
        .collect();

    ProcessorConfig::new(
        String::from(value.get("principal").unwrap().as_str().unwrap()),
        classes,
    )
}

#[test]
fn test_class_id_uuid() {
    let yaml = "uuid: 67e55044-10b1-426f-9247-bb680e5fe0c8";
    let expected = ClassIDConfig::UUID {
        uuid: Uuid::parse_str("67e55044-10b1-426f-9247-bb680e5fe0c8")
            .unwrap()
            .as_u128(),
    };
    let actual = class_id(&parse(yaml));

    assert_eq!(expected, actual);
    assert_eq!(u128::from(actual), 0x67e55044_10b1_426f_9247_bb680e5fe0c8);
}

#[test]
fn test_class_id_name() {
    let yaml = "name: org.constellation.test";
    let expected = ClassIDConfig::Name {
        name: String::from("org.constellation.test"),
    };
    let actual = class_id(&parse(yaml));

    assert_eq!(expected, actual)
}

#[test]
fn test_class_config_no_instances() {
    let version = String::from("<=1");
    let yaml = "name: org.constellation.test\nversions:\n  - \"<=1\"\n";
    let expected = ClassConfig {
        id: ClassIDConfig::Name {
            name: String::from("org.constellation.test"),
        },
        instances: vec![0],
        versions: vec![version],
    };
    let actual = class(&parse(yaml));

    assert_eq!(expected, actual)
}

#[test]
fn test_class_config_instances() {
    let version = String::from("<=1");
    let yaml = "name: org.constellation.test\ninstances:\n  - 0\n  - 1\nversions:\n  - \"<=1\"\n";
    let expected = ClassConfig {
        id: ClassIDConfig::Name {
            name: String::from("org.constellation.test"),
        },
        instances: vec![0, 1],
        versions: vec![version],
    };
    let actual = class(&parse(yaml));

    assert_eq!(expected, actual)
}

#[test]
fn test_processor_config() {
    let version = String::from("<=1");
    let yaml = "principal: test-principal\nclasses:\n  - name: org.constellation.test\n    instances:\n      - 0\n      - 1\n    versions:\n      - \"<=1\"\n";
    let expected = ProcessorConfig {
        principal: String::from("test-principal"),
        classes: vec![ClassConfig {
            id: ClassIDConfig::Name {
                name: String::from("org.constellation.test"),
            },
            instances: vec![0, 1],
            versions: vec![version],
        }],
    };
    let actual = processor(&parse(yaml));

    assert_eq!(expected, actual)
}

#[test]
fn test_static_processor_configs() {
    let version = String::from("*");
    let yaml = "static:\n  - principal: test-processor\n    classes:\n      - name: org.constellation.test\n        versions:\n          - \"*\"\n";
    let expected = ProcessorClassesConfig::Static {
        stat: vec![ProcessorConfig {
            principal: String::from("test-processor"),
            classes: vec![ClassConfig {
                id: ClassIDConfig::Name {
                    name: String::from("org.constellation.test"),
                },
                instances: vec![0],
                versions: vec![version],
            }],
        }],
    };
    let value = parse(yaml);
    let actual = ProcessorClassesConfig::Static {
        stat: value
            .get("static")
            .unwrap()
            .as_sequence()
            .unwrap()
            .iter()
            .map(processor)
            .collect(),
    };

    assert_eq!(expected, actual)
}

#[test]
fn named_classes_have_their_dns_uuid() {
    let name = ClassIDConfig::Name {
        name: String::from("rust-lang.org"),
    };

    assert_eq!(name.uuid(), 0xc66bbb60_d62e_5f17_a399_3a0bd237c503);
    assert_eq!(u128::from(name), 0xc66bbb60_d62e_5f17_a399_3a0bd237c503);

    let name = ClassIDConfig::Name {
        name: String::from("example.org"),
    };

    assert_eq!(u128::from(name), 0xaad03681_8b63_5304_89e0_8ca8f49461b5);
}

#[test]
fn named_classes_are_version_five() {
    for name in ["", "a", "org.constellation.test", "\u{e9}\u{4e2d}"] {
        let uuid = Uuid::from_u128(
            ClassIDConfig::Name {
                name: String::from(name),
            }
            .uuid(),
        );

        assert_eq!(uuid.get_version_num(), 5);
        assert_eq!(uuid, Uuid::new_v5(&Uuid::NAMESPACE_DNS, name.as_bytes()));
    }
}

#[test]
fn state_config_keeps_its_parts() {
    let duration = Duration::from_secs(7);
    let config = PeerStateConfig::new(duration, Some(3), None, 'r', 's');

    assert_eq!(config.tombstone_duration(), duration);
    assert_eq!(config.take(), (duration, Some(3), None, 'r', 's'));
}

#[test]
fn state_config_defaults() {
    assert_eq!(
        PeerStateConfig::<char>::default_tombstone_duration().nanos,
        30_000_000_000
    );
    assert_eq!(
        PeerStateConfig::with_policies('r', 's').take(),
        (Duration::from_secs(30), None, None, 'r', 's')
    );
}

#[test]
fn class_and_processor_configs_keep_their_parts() {
    let id = ClassIDConfig::UUID { uuid: 12 };
    let class = ClassConfig::new(id.clone(), vec![4, 2], vec!["a", "b"]);

    assert_eq!(class.id(), &id);
    assert_eq!(class.instances(), &[4, 2]);
    assert_eq!(class.versions(), &["a", "b"]);
    assert_eq!(class.clone().take(), (id, vec![4, 2], vec!["a", "b"]));

    let processor = ProcessorConfig::new("p", vec![class.clone()]);

    assert_eq!(processor.principal(), &"p");
    assert_eq!(processor.classes(), &[class.clone()]);
    assert_eq!(processor.take(), ("p", vec![class]));
}

#[test]
fn peer_configs_keep_their_parts() {
    let clients = ClientsConfig::new("registry", 1, 'l', true);

    assert_eq!(clients.registry(), &"registry");
    assert_eq!(clients.bus(), &1);
    assert_eq!(clients.large_obj(), &'l');
    assert_eq!(clients.authn(), &true);
    assert_eq!(clients.clone().take(), ("registry", 1, 'l', true));

    let consensus = ConsensusConfig::new("registry", 2u8, 'm');

    assert_eq!(consensus.registry(), &"registry");
    assert_eq!(consensus.multicast(), &2);
    assert_eq!(consensus.large_obj(), &'m');
    assert_eq!(consensus.clone().take(), ("registry", 2, 'm'));

    let classes = ProcessorClassesConfig::Static {
        stat: vec![ProcessorConfig::<String, u8>::new(String::from("p"), vec![])],
    };
    let processors = ProcessorsConfig::new("other", 3, 'n', classes.clone(), false);

    assert_eq!(processors.registry(), &"other");
    assert_eq!(processors.bus(), &3);
    assert_eq!(processors.large_obj(), &'n');
    assert_eq!(processors.processors(), &classes);
    assert_eq!(processors.authn(), &false);
    assert_eq!(
        processors.clone().take(),
        ("other", 3, 'n', classes, false)
    );

    let state = PeerStateConfig::with_policies(1u64, 2u64);
    let peer = PeerConfig::new(
        clients.clone(),
        processors.clone(),
        consensus.clone(),
        state.clone(),
    );

    assert_eq!(peer.clients(), &clients);
    assert_eq!(peer.processors(), &processors);
    assert_eq!(peer.consensus(), &consensus);
    assert_eq!(peer.state(), &state);
    assert_eq!(
        peer.clone().take(),
        (clients, processors, consensus, state)
    );

    let standalone = StandaloneConfig::new("caches", peer.clone());

    assert_eq!(standalone.name_caches(), &"caches");
    assert_eq!(standalone.peer(), &peer);
    assert_eq!(standalone.take(), ("caches", peer));
}
