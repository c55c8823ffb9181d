//! The types that a user of the library chooses.
use crate::keys::is_key;
use std::hash::Hash;
use vstd::prelude::*;

verus! {

/// The types over which a peer's state is built.
pub trait SealTypes {
    /// Principals: clients and processors as the authenticator names them.
    type Prin: Clone + Eq + Hash;

    /// Authorization seals of transactions.
    type Seal: Clone;

    /// Hashes that identify transactions.
    type HashID: Clone + Eq + Hash;

    /// Versions of a transaction class.
    type Version: Clone;

    /// Ranges of versions that a processor supports.
    type VersionRange;

    /// Retry policies, which say how long to wait before the next attempt.
    type Retry;
}

/// Whether principals and transaction hashes can key the peer's tables.
pub open spec fn keys_ok<T: SealTypes>() -> bool {
    &&& is_key::<T::Prin>()
    &&& is_key::<T::HashID>()
}

} // verus!
