//! Transactions and the messages about them, as plain values.
//!
//! The types that carry bytes take the type of those bytes as a parameter `B`:
//! values hold a `Vec<u8>`, and their views hold a `Seq<u8>`.
use crate::ids::ConsensusRoundID;
use crate::types::SealTypes;
use vstd::prelude::*;

verus! {

/// The place of a transaction in the committed order: a round, and an index within
/// it.
#[derive(Clone, Copy, Debug, PartialEq, Eq, Hash, Structural)]
pub struct XactLinPoint {
    pub round: ConsensusRoundID,
    pub idx: usize,
}

/// What a transaction declares about its effects.
#[derive(Debug)]
pub enum XactEffects<B> {
    /// The transaction has effects.
    Effects { effects: B, hard: bool },
    /// The transaction has none, which is binding; it may ask for a linearization
    /// point.
    HardNone { when: Option<XactLinPoint> },
    /// The transaction expects to have none.
    SoftNone,
}

/// Why a transaction failed.
#[derive(Debug)]
pub enum XactError<B> {
    /// No processor handles the class.
    UnknownClass,
    /// No processor handles the instance of the class.
    UnknownInstance,
    /// The processor of the instance does not support the version.
    UnknownVersion,
    /// The peer found its own records inconsistent with what it was told.
    Internal,
    /// The processor reported an error.
    Error { error: B },
}

/// What a notification says of a transaction.
#[allow(inconsistent_fields)]
#[derive(Debug)]
pub enum XactNotifyState<B> {
    Accept,
    PrecommitDispatch { when: Option<XactLinPoint> },
    Consensus,
    Commit { when: XactLinPoint },
    Dispatch { when: XactLinPoint },
    Success { when: XactLinPoint, result: Option<B> },
    Error { error: Option<XactError<B>> },
}

/// A notification about one transaction.
#[derive(Debug)]
pub struct XactNotify<H, B> {
    pub hash: H,
    pub state: XactNotifyState<B>,
}

/// A request to process a transaction before it is committed.
pub struct XactUncommittedHashReq<T: SealTypes> {
    pub hash: T::HashID,
    pub class: u128,
    pub version: T::Version,
    pub instance: u64,
    pub payload: Vec<u8>,
    pub effects: XactEffects<Vec<u8>>,
}

/// A request with the seal that authorizes it.
pub struct XactSealed<T: SealTypes> {
    pub seal: T::Seal,
    pub req: XactUncommittedHashReq<T>,
}

/// The declared effects of a committed transaction.
#[derive(Debug)]
pub struct XactCommittedEffects<B> {
    pub hard: bool,
    pub effects: B,
}

/// A request to process a committed transaction, by its index within the round.
pub struct XactCommittedReq<T: SealTypes> {
    pub class: u128,
    pub version: T::Version,
    pub instance: u64,
    pub idx: usize,
    pub payload: Vec<u8>,
    pub effects: Option<XactCommittedEffects<Vec<u8>>>,
}

/// The transactions of a round and the seals that attest it.
pub struct XactConsensusSeal<T: SealTypes> {
    pub hashes: Vec<T::HashID>,
    pub seals: Vec<T::Seal>,
}

/// The requests that a round hands to one processor.
pub struct XactCommittedRound<T: SealTypes> {
    pub round: ConsensusRoundID,
    pub seal: Option<XactConsensusSeal<T>>,
    pub reqs: Vec<XactCommittedReq<T>>,
}

/// A batch of messages between a peer and a client or a processor.
pub struct XactBlobBatch<T: SealTypes> {
    pub committed: Vec<XactCommittedRound<T>>,
    pub reqs: Vec<XactSealed<T>>,
    pub notifies: Vec<XactNotify<T::HashID, Vec<u8>>>,
}

/// Transactions that a peer submits to consensus.
pub struct ConsensusCtlSubmit<T: SealTypes> {
    pub hashes: Vec<T::HashID>,
}

/// A round that consensus has reached.
pub struct ConsensusCtlRound<T: SealTypes> {
    pub round: ConsensusRoundID,
    pub hashes: Vec<T::HashID>,
    pub seals: Option<Vec<T::Seal>>,
}

/// A message between a peer and the consensus component.
pub enum ConsensusCtl<T: SealTypes> {
    Submit(ConsensusCtlSubmit<T>),
    Round(ConsensusCtlRound<T>),
}

/// A second vector with the same bytes.
pub fn copy_bytes(bytes: &Vec<u8>) -> (c: Vec<u8>)
    ensures
        c@ == bytes@,
{
    let c = bytes.clone();
    assert(c@ =~= bytes@);
    c
}

impl View for XactEffects<Vec<u8>> {
    type V = XactEffects<Seq<u8>>;

    open spec fn view(&self) -> XactEffects<Seq<u8>> {
        match *self {
            XactEffects::Effects { effects, hard } => XactEffects::Effects {
                effects: effects@,
                hard,
            },
            XactEffects::HardNone { when } => XactEffects::HardNone { when },
            XactEffects::SoftNone => XactEffects::SoftNone,
        }
    }
}

impl XactEffects<Vec<u8>> {
    /// A second value with the same content.
    pub fn copy(&self) -> (c: Self)
        ensures
            c@ == self@,
    {
        match self {
            XactEffects::Effects { effects, hard } => XactEffects::Effects {
                effects: copy_bytes(effects),
                hard: *hard,
            },
            XactEffects::HardNone { when } => XactEffects::HardNone { when: *when },
            XactEffects::SoftNone => XactEffects::SoftNone,
        }
    }
}

impl View for XactError<Vec<u8>> {
    type V = XactError<Seq<u8>>;

    open spec fn view(&self) -> XactError<Seq<u8>> {
        match *self {
            XactError::UnknownClass => XactError::UnknownClass,
            XactError::UnknownInstance => XactError::UnknownInstance,
            XactError::UnknownVersion => XactError::UnknownVersion,
            XactError::Internal => XactError::Internal,
            XactError::Error { error } => XactError::Error { error: error@ },
        }
    }
}

impl XactError<Vec<u8>> {
    /// A second value with the same content.
    pub fn copy(&self) -> (c: Self)
        ensures
            c@ == self@,
    {
        match self {
            XactError::UnknownClass => XactError::UnknownClass,
            XactError::UnknownInstance => XactError::UnknownInstance,
            XactError::UnknownVersion => XactError::UnknownVersion,
            XactError::Internal => XactError::Internal,
            XactError::Error { error } => XactError::Error { error: copy_bytes(error) },
        }
    }
}

impl View for XactNotifyState<Vec<u8>> {
    type V = XactNotifyState<Seq<u8>>;

    open spec fn view(&self) -> XactNotifyState<Seq<u8>> {
        match *self {
            XactNotifyState::Accept => XactNotifyState::Accept,
            XactNotifyState::PrecommitDispatch { when } => XactNotifyState::PrecommitDispatch {
                when,
            },
            XactNotifyState::Consensus => XactNotifyState::Consensus,
            XactNotifyState::Commit { when } => XactNotifyState::Commit { when },
            XactNotifyState::Dispatch { when } => XactNotifyState::Dispatch { when },
            XactNotifyState::Success { when, result } => XactNotifyState::Success {
                when,
                result: match result {
                    Some(bytes) => Some(bytes@),
                    None => None,
                },
            },
            XactNotifyState::Error { error } => XactNotifyState::Error {
                error: match error {
                    Some(e) => Some(e@),
                    None => None,
                },
            },
        }
    }
}

impl<H> View for XactNotify<H, Vec<u8>> {
    type V = XactNotify<H, Seq<u8>>;

    open spec fn view(&self) -> XactNotify<H, Seq<u8>> {
        XactNotify { hash: self.hash, state: self.state@ }
    }
}

/// What a transaction declares about its effects is seen in full.
pub proof fn law_effects_are_seen(a: XactEffects<Vec<u8>>)
    ensures
        match a {
            XactEffects::Effects { effects, hard } => {
                &&& a@ is Effects
                &&& a@->effects == effects@
                &&& a@->hard == hard
            },
            XactEffects::HardNone { when } => a@ is HardNone && a@->when == when,
            XactEffects::SoftNone => a@ is SoftNone,
        },
{
}

/// Why a transaction failed is seen in full.
pub proof fn law_errors_are_seen(a: XactError<Vec<u8>>)
    ensures
        match a {
            XactError::UnknownClass => a@ is UnknownClass,
            XactError::UnknownInstance => a@ is UnknownInstance,
            XactError::UnknownVersion => a@ is UnknownVersion,
            XactError::Internal => a@ is Internal,
            XactError::Error { error } => a@ is Error && a@->error == error@,
        },
{
}

/// What a notification says is seen in full.
pub proof fn law_notifications_are_seen<H>(a: XactNotify<H, Vec<u8>>)
    ensures
        a@.hash == a.hash,
        match a.state {
            XactNotifyState::Accept => a@.state is Accept,
            XactNotifyState::PrecommitDispatch { when } => a@.state
                == (XactNotifyState::<Seq<u8>>::PrecommitDispatch { when }),
            XactNotifyState::Consensus => a@.state is Consensus,
            XactNotifyState::Commit { when } => a@.state
                == (XactNotifyState::<Seq<u8>>::Commit { when }),
            XactNotifyState::Dispatch { when } => a@.state
                == (XactNotifyState::<Seq<u8>>::Dispatch { when }),
            XactNotifyState::Success { when, result: Some(result) } => a@.state
                == (XactNotifyState::Success { when, result: Some(result@) }),
            XactNotifyState::Success { when, result: None } => a@.state
                == (XactNotifyState::<Seq<u8>>::Success { when, result: None }),
            XactNotifyState::Error { error: Some(error) } => a@.state is Error
                && a@.state->error == Some(error@),
            XactNotifyState::Error { error: None } => a@.state is Error && a@.state->error is None,
        },
{
}

} // verus!
