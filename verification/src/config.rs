//! Configuration of a peer.
//!
//! What other components define (registries of channels, buses, authenticators,
//! large-object protocols, retry policies, version ranges) is carried through, so
//! the types here take those as parameters.
use crate::time::Duration;
use uuid::Uuid;
use vstd::prelude::*;

verus! {

/// The UUID that `Uuid::new_v5` derives from a name in a namespace.
pub uninterp spec fn uuid_v5(namespace: u128, name: Seq<u8>) -> u128;

/// Whether `uuid` is marked as a UUID of version 5, by the four bits that hold the
/// version and the two that hold the variant.
pub open spec fn is_v5(uuid: u128) -> bool {
    &&& uuid / 0x1000_0000_0000_0000_0000 % 0x10 == 5
    &&& uuid / 0x4000_0000_0000_0000 % 4 == 2
}

/// `Uuid::new_v5`: the UUID of version 5 for a name in a namespace, which depends
/// on these two alone.
#[verifier::external_body]
fn new_v5(namespace: u128, name: &[u8]) -> (uuid: u128)
    ensures
        uuid == uuid_v5(namespace, name@),
        is_v5(uuid),
{
    Uuid::new_v5(&Uuid::from_u128(namespace), name).as_u128()
}

/// `Uuid::NAMESPACE_DNS`: the namespace for names of the domain name system.
#[verifier::external_body]
fn namespace_dns() -> (uuid: u128)
    ensures
        uuid == 0x6ba7b810_9dad_11d1_80b4_00c04fd430c8u128,
{
    Uuid::NAMESPACE_DNS.as_u128()
}

/// Configuration of the peer's state.
#[derive(Clone, Debug, PartialEq)]
pub struct PeerStateConfig<R> {
    /// How long a transaction that is over is remembered.
    pub tombstone_duration: Duration,
    /// How many transactions to expect.
    pub transactions_size_hint: Option<usize>,
    /// How many rounds to expect.
    pub seals_size_hint: Option<usize>,
    pub retry: R,
    pub resubmit: R,
}

/// How a class of transactions is identified.
#[derive(Clone, Debug, Eq, Hash, Ord, PartialEq, PartialOrd)]
pub enum ClassIDConfig {
    /// A UUID identifying the service.
    ///
    /// This is the method used to transmit on the wire.
    UUID { uuid: u128 },
    /// A string name identifying the service.
    ///
    /// This will be used to produce a v5 UUID for transmission on the wire.
    Name { name: String },
}

/// A class of transactions that a processor handles.
#[derive(Clone, Debug, PartialEq)]
pub struct ClassConfig<V> {
    /// Name of the service.
    pub id: ClassIDConfig,
    /// Instances supported by this entry.
    pub instances: Vec<usize>,
    /// Supported versions.
    pub versions: Vec<V>,
}

/// A processor.
#[derive(Clone, Debug, PartialEq)]
pub struct ProcessorConfig<Prin, V> {
    /// Services handled by this processor.
    pub classes: Vec<ClassConfig<V>>,
    /// Principal associated with this processor.
    pub principal: Prin,
}

/// Where the processors of the transaction classes come from.
#[derive(Clone, Debug, PartialEq)]
pub enum ProcessorClassesConfig<Prin, V> {
    /// A fixed list.
    Static { stat: Vec<ProcessorConfig<Prin, V>> },
}

/// Configuration for processors.
#[derive(Clone, Debug, PartialEq)]
pub struct ProcessorsConfig<Prin, V, Registry, Bus, LargeObj, AuthN> {
    /// Channel registry configuration.
    pub registry: Registry,
    /// Configuration for the dispatch comm subsystem.
    pub bus: Bus,
    pub large_obj: LargeObj,
    /// Processors for transaction classes.
    pub processors: ProcessorClassesConfig<Prin, V>,
    pub authn: AuthN,
}

/// Configuration for incoming client connections.
#[derive(Clone, Debug, PartialEq, PartialOrd)]
pub struct ClientsConfig<Registry, Bus, LargeObj, AuthN> {
    /// Channel registry configuration.
    pub registry: Registry,
    /// Configuration for the dispatch comm subsystem.
    pub bus: Bus,
    pub large_obj: LargeObj,
    pub authn: AuthN,
}

/// Configuration for consensus.
#[derive(Clone, Debug, PartialEq, PartialOrd)]
pub struct ConsensusConfig<Registry, Multicast, LargeObj> {
    /// Channel registry configuration.
    pub registry: Registry,
    /// Configuration for the multicast comm subsystem.
    pub multicast: Multicast,
    pub large_obj: LargeObj,
}

/// Configuration of a peer.
#[derive(Clone, Debug, PartialEq)]
pub struct PeerConfig<Prin, V, Registry, Bus, Multicast, LargeObj, AuthN, R> {
    /// Configuration for incoming client connections.
    pub clients: ClientsConfig<Registry, Bus, LargeObj, AuthN>,
    /// Configuration for processors.
    pub processors: ProcessorsConfig<Prin, V, Registry, Bus, LargeObj, AuthN>,
    /// Configuration for consensus.
    pub consensus: ConsensusConfig<Registry, Multicast, LargeObj>,
    /// Configuration for the peer state.
    pub state: PeerStateConfig<R>,
}

/// Configuration of a peer that runs on its own, whose principals are named by
/// strings.
#[derive(Clone, Debug, PartialEq)]
pub struct StandaloneConfig<NameCaches, V, Registry, Bus, Multicast, LargeObj, AuthN, R> {
    /// Name cache configuration.
    pub name_caches: NameCaches,
    pub peer: PeerConfig<String, V, Registry, Bus, Multicast, LargeObj, AuthN, R>,
}

impl<R> PeerStateConfig<R> {
    /// A configuration from its parts.
    pub fn new(
        tombstone_duration: Duration,
        transactions_size_hint: Option<usize>,
        seals_size_hint: Option<usize>,
        retry: R,
        resubmit: R,
    ) -> (config: Self)
        ensures
            config == (PeerStateConfig {
                tombstone_duration,
                transactions_size_hint,
                seals_size_hint,
                retry,
                resubmit,
            }),
    {
        PeerStateConfig {
            tombstone_duration,
            transactions_size_hint,
            seals_size_hint,
            retry,
            resubmit,
        }
    }

    /// The configuration that leaves everything but the retry policies open.
    pub fn with_policies(retry: R, resubmit: R) -> (config: Self)
        ensures
            config.tombstone_duration.nanos == 30_000_000_000,
            config.transactions_size_hint is None,
            config.seals_size_hint is None,
            config.retry == retry,
            config.resubmit == resubmit,
    {
        PeerStateConfig {
            tombstone_duration: Self::default_tombstone_duration(),
            transactions_size_hint: None,
            seals_size_hint: None,
            retry,
            resubmit,
        }
    }

    /// How long a transaction that is over is remembered.
    pub fn tombstone_duration(&self) -> (duration: Duration)
        ensures
            duration == self.tombstone_duration,
    {
        self.tombstone_duration
    }

    /// Half a minute.
    pub fn default_tombstone_duration() -> (duration: Duration)
        ensures
            duration.nanos == 30_000_000_000,
    {
        Duration::from_secs(30)
    }

    /// The parts of the configuration.
    pub fn take(self) -> (parts: (Duration, Option<usize>, Option<usize>, R, R))
        ensures
            parts == (
                self.tombstone_duration,
                self.transactions_size_hint,
                self.seals_size_hint,
                self.retry,
                self.resubmit,
            ),
    {
        (
            self.tombstone_duration,
            self.transactions_size_hint,
            self.seals_size_hint,
            self.retry,
            self.resubmit,
        )
    }
}

impl ClassIDConfig {
    /// The UUID of the class: the one that is given, or the one that its name has
    /// in the namespace of the domain name system.
    pub open spec fn class(self) -> u128 {
        match self {
            ClassIDConfig::UUID { uuid } => uuid,
            ClassIDConfig::Name { name } => uuid_v5(
                0x6ba7b810_9dad_11d1_80b4_00c04fd430c8u128,
                vstd::utf8::encode_utf8(name@),
            ),
        }
    }

    /// The UUID of the class, which for a class with a name is marked as version 5.
    pub fn uuid(&self) -> (uuid: u128)
        ensures
            uuid == self.class(),
            self is Name ==> is_v5(uuid),
    {
        match self {
            ClassIDConfig::UUID { uuid } => *uuid,
            ClassIDConfig::Name { name } => new_v5(namespace_dns(), name.as_str().as_bytes()),
        }
    }
}

impl vstd::std_specs::convert::FromSpecImpl<ClassIDConfig> for u128 {
    open spec fn obeys_from_spec() -> bool {
        true
    }

    open spec fn from_spec(val: ClassIDConfig) -> u128 {
        val.class()
    }
}

impl From<ClassIDConfig> for u128 {
    fn from(val: ClassIDConfig) -> (uuid: u128) {
        val.uuid()
    }
}

impl<V> ClassConfig<V> {
    /// A class from its parts.
    pub fn new(id: ClassIDConfig, instances: Vec<usize>, versions: Vec<V>) -> (config: Self)
        ensures
            config == (ClassConfig { id, instances, versions }),
    {
        ClassConfig { id, instances, versions }
    }

    /// Name of the service.
    pub fn id(&self) -> (id: &ClassIDConfig)
        ensures
            *id == self.id,
    {
        &self.id
    }

    /// Instances supported by this entry.
    pub fn instances(&self) -> (instances: &[usize])
        ensures
            instances@ == self.instances@,
    {
        self.instances.as_slice()
    }

    /// Supported versions.
    pub fn versions(&self) -> (versions: &[V])
        ensures
            versions@ == self.versions@,
    {
        self.versions.as_slice()
    }

    /// The parts of the configuration.
    pub fn take(self) -> (parts: (ClassIDConfig, Vec<usize>, Vec<V>))
        ensures
            parts == (self.id, self.instances, self.versions),
    {
        (self.id, self.instances, self.versions)
    }

    /// The instances of a class for which none are given: instance 0 alone.
    pub fn default_instances() -> (instances: Vec<usize>)
        ensures
            instances@ == seq![0usize],
    {
        vec![0]
    }
}

impl<Prin, V> ProcessorConfig<Prin, V> {
    /// A processor from its parts.
    pub fn new(principal: Prin, classes: Vec<ClassConfig<V>>) -> (config: Self)
        ensures
            config == (ProcessorConfig { classes, principal }),
    {
        ProcessorConfig { classes, principal }
    }

    /// Principal associated with this processor.
    pub fn principal(&self) -> (principal: &Prin)
        ensures
            *principal == self.principal,
    {
        &self.principal
    }

    /// Services handled by this processor.
    pub fn classes(&self) -> (classes: &[ClassConfig<V>])
        ensures
            classes@ == self.classes@,
    {
        self.classes.as_slice()
    }

    /// The parts of the configuration.
    pub fn take(self) -> (parts: (Prin, Vec<ClassConfig<V>>))
        ensures
            parts == (self.principal, self.classes),
    {
        (self.principal, self.classes)
    }
}

impl<Prin, V, Registry, Bus, Multicast, LargeObj, AuthN, R> PeerConfig<Prin, V, Registry, Bus, Multicast, LargeObj, AuthN, R> {
    /// A configuration from its parts.
    pub fn new(
        clients: ClientsConfig<Registry, Bus, LargeObj, AuthN>,
        processors: ProcessorsConfig<Prin, V, Registry, Bus, LargeObj, AuthN>,
        consensus: ConsensusConfig<Registry, Multicast, LargeObj>,
        state: PeerStateConfig<R>,
    ) -> (config: Self)
        ensures
            config == (PeerConfig { clients, processors, consensus, state }),
    {
        PeerConfig { clients, processors, consensus, state }
    }

    /// Configuration for incoming client connections.
    pub fn clients(&self) -> (clients: &ClientsConfig<Registry, Bus, LargeObj, AuthN>)
        ensures
            *clients == self.clients,
    {
        &self.clients
    }

    /// Processors for transaction classes.
    pub fn processors(&self) -> (processors: &ProcessorsConfig<Prin, V, Registry, Bus, LargeObj, AuthN>)
        ensures
            *processors == self.processors,
    {
        &self.processors
    }

    /// Configuration for consensus.
    pub fn consensus(&self) -> (consensus: &ConsensusConfig<Registry, Multicast, LargeObj>)
        ensures
            *consensus == self.consensus,
    {
        &self.consensus
    }

    /// Configuration for the peer state.
    pub fn state(&self) -> (state: &PeerStateConfig<R>)
        ensures
            *state == self.state,
    {
        &self.state
    }

    /// The parts of the configuration.
    pub fn take(self) -> (parts: (
        ClientsConfig<Registry, Bus, LargeObj, AuthN>,
        ProcessorsConfig<Prin, V, Registry, Bus, LargeObj, AuthN>,
        ConsensusConfig<Registry, Multicast, LargeObj>,
        PeerStateConfig<R>,
    ))
        ensures
            parts == (self.clients, self.processors, self.consensus, self.state),
    {
        (self.clients, self.processors, self.consensus, self.state)
    }
}

impl<Registry, Multicast, LargeObj> ConsensusConfig<Registry, Multicast, LargeObj> {
    /// A configuration from its parts.
    pub fn new(
        registry: Registry,
        multicast: Multicast,
        large_obj: LargeObj,
    ) -> (config: Self)
        ensures
            config == (ConsensusConfig { registry, multicast, large_obj }),
    {
        ConsensusConfig { registry, multicast, large_obj }
    }

    /// Channel registry configuration.
    pub fn registry(&self) -> (registry: &Registry)
        ensures
            *registry == self.registry,
    {
        &self.registry
    }

    /// Configuration for the multicast comm subsystem.
    pub fn multicast(&self) -> (multicast: &Multicast)
        ensures
            *multicast == self.multicast,
    {
        &self.multicast
    }

    /// Configuration of the large-object protocol.
    pub fn large_obj(&self) -> (large_obj: &LargeObj)
        ensures
            *large_obj == self.large_obj,
    {
        &self.large_obj
    }

    /// The parts of the configuration.
    pub fn take(self) -> (parts: (
        Registry,
        Multicast,
        LargeObj,
    ))
        ensures
            parts == (self.registry, self.multicast, self.large_obj),
    {
        (self.registry, self.multicast, self.large_obj)
    }
}

impl<Registry, Bus, LargeObj, AuthN> ClientsConfig<Registry, Bus, LargeObj, AuthN> {
    /// A configuration from its parts.
    pub fn new(
        registry: Registry,
        bus: Bus,
        large_obj: LargeObj,
        authn: AuthN,
    ) -> (config: Self)
        ensures
            config == (ClientsConfig { registry, bus, large_obj, authn }),
    {
        ClientsConfig { registry, bus, large_obj, authn }
    }

    /// Channel registry configuration.
    pub fn registry(&self) -> (registry: &Registry)
        ensures
            *registry == self.registry,
    {
        &self.registry
    }

    /// Configuration for the dispatch comm subsystem.
    pub fn bus(&self) -> (bus: &Bus)
        ensures
            *bus == self.bus,
    {
        &self.bus
    }

    /// Configuration of the large-object protocol.
    pub fn large_obj(&self) -> (large_obj: &LargeObj)
        ensures
            *large_obj == self.large_obj,
    {
        &self.large_obj
    }

    /// Configuration of the authenticator.
    pub fn authn(&self) -> (authn: &AuthN)
        ensures
            *authn == self.authn,
    {
        &self.authn
    }

    /// The parts of the configuration.
    pub fn take(self) -> (parts: (
        Registry,
        Bus,
        LargeObj,
        AuthN,
    ))
        ensures
            parts == (self.registry, self.bus, self.large_obj, self.authn),
    {
        (self.registry, self.bus, self.large_obj, self.authn)
    }
}

impl<Prin, V, Registry, Bus, LargeObj, AuthN> ProcessorsConfig<Prin, V, Registry, Bus, LargeObj, AuthN> {
    /// A configuration from its parts.
    pub fn new(
        registry: Registry,
        bus: Bus,
        large_obj: LargeObj,
        processors: ProcessorClassesConfig<Prin, V>,
        authn: AuthN,
    ) -> (config: Self)
        ensures
            config == (ProcessorsConfig { registry, bus, large_obj, processors, authn }),
    {
        ProcessorsConfig { registry, bus, large_obj, processors, authn }
    }

    /// Channel registry configuration.
    pub fn registry(&self) -> (registry: &Registry)
        ensures
            *registry == self.registry,
    {
        &self.registry
    }

    /// Configuration for the dispatch comm subsystem.
    pub fn bus(&self) -> (bus: &Bus)
        ensures
            *bus == self.bus,
    {
        &self.bus
    }

    /// Configuration of the large-object protocol.
    pub fn large_obj(&self) -> (large_obj: &LargeObj)
        ensures
            *large_obj == self.large_obj,
    {
        &self.large_obj
    }

    /// Processors for transaction classes.
    pub fn processors(&self) -> (processors: &ProcessorClassesConfig<Prin, V>)
        ensures
            *processors == self.processors,
    {
        &self.processors
    }

    /// Configuration of the authenticator.
    pub fn authn(&self) -> (authn: &AuthN)
        ensures
            *authn == self.authn,
    {
        &self.authn
    }

    /// The parts of the configuration.
    pub fn take(self) -> (parts: (
        Registry,
        Bus,
        LargeObj,
        ProcessorClassesConfig<Prin, V>,
        AuthN,
    ))
        ensures
            parts == (self.registry, self.bus, self.large_obj, self.processors, self.authn),
    {
        (self.registry, self.bus, self.large_obj, self.processors, self.authn)
    }
}

impl<NameCaches, V, Registry, Bus, Multicast, LargeObj, AuthN, R> StandaloneConfig<NameCaches, V, Registry, Bus, Multicast, LargeObj, AuthN, R> {
    /// A configuration from its parts.
    pub fn new(
        name_caches: NameCaches,
        peer: PeerConfig<String, V, Registry, Bus, Multicast, LargeObj, AuthN, R>,
    ) -> (config: Self)
        ensures
            config == (StandaloneConfig { name_caches, peer }),
    {
        StandaloneConfig { name_caches, peer }
    }

    /// Name cache configuration.
    pub fn name_caches(&self) -> (name_caches: &NameCaches)
        ensures
            *name_caches == self.name_caches,
    {
        &self.name_caches
    }

    /// Configuration of the peer itself.
    pub fn peer(&self) -> (peer: &PeerConfig<String, V, Registry, Bus, Multicast, LargeObj, AuthN, R>)
        ensures
            *peer == self.peer,
    {
        &self.peer
    }

    /// The parts of the configuration.
    pub fn take(self) -> (parts: (
        NameCaches,
        PeerConfig<String, V, Registry, Bus, Multicast, LargeObj, AuthN, R>,
    ))
        ensures
            parts == (self.name_caches, self.peer),
    {
        (self.name_caches, self.peer)
    }
}

/// A class that is given by its UUID has that UUID, and one that is given by its name
/// has a UUID that depends on the bytes of the name alone, in the namespace of the
/// domain name system.
pub proof fn law_class_uuids(uuid: u128, a: String, b: String)
    ensures
        (ClassIDConfig::UUID { uuid }).class() == uuid,
        (ClassIDConfig::Name { name: a }).class() == uuid_v5(
            0x6ba7b810_9dad_11d1_80b4_00c04fd430c8u128,
            vstd::utf8::encode_utf8(a@),
        ),
        a@ == b@ ==> (ClassIDConfig::Name { name: a }).class() == (ClassIDConfig::Name {
            name: b,
        }).class(),
{
}

} // verus!
