//! What the sessions of clients, of processors and of consensus have in common.
use vstd::prelude::*;

verus! {

/// How far an error reaches.
#[derive(Clone, Copy, Debug, Eq, PartialEq, Structural)]
pub enum ErrorScope {
    /// The session in which it occurred is over.
    Session,
    /// There is no way to go on.
    Unrecoverable,
}

} // verus!
