//! Identifiers of processors and of consensus rounds.
use crate::text::append_decimal;
use crate::text::append_hex;
use crate::text::decimal;
use crate::text::hex;
use vstd::prelude::*;
use vstd::string::StringExecFns;

verus! {

/// Local index of a transaction processor.
#[derive(Clone, Copy, Debug, Eq, Hash, Ord, PartialEq, PartialOrd, Structural)]
pub struct ProcessorIdx(pub usize);

/// Identifier of a round of consensus.
#[derive(Clone, Copy, Debug, Eq, Hash, PartialEq, Structural)]
pub struct ConsensusRoundID(pub u128);

impl vstd::std_specs::convert::FromSpecImpl<u128> for ConsensusRoundID {
    open spec fn obeys_from_spec() -> bool {
        true
    }

    open spec fn from_spec(val: u128) -> ConsensusRoundID {
        ConsensusRoundID(val)
    }
}

impl From<u128> for ConsensusRoundID {
    fn from(val: u128) -> (r: ConsensusRoundID) {
        ConsensusRoundID(val)
    }
}

impl vstd::std_specs::convert::FromSpecImpl<ConsensusRoundID> for u128 {
    open spec fn obeys_from_spec() -> bool {
        true
    }

    open spec fn from_spec(val: ConsensusRoundID) -> u128 {
        val.0
    }
}

impl From<ConsensusRoundID> for u128 {
    fn from(val: ConsensusRoundID) -> (r: u128) {
        val.0
    }
}

impl vstd::std_specs::convert::FromSpecImpl<usize> for ProcessorIdx {
    open spec fn obeys_from_spec() -> bool {
        true
    }

    open spec fn from_spec(val: usize) -> ProcessorIdx {
        ProcessorIdx(val)
    }
}

impl From<usize> for ProcessorIdx {
    fn from(val: usize) -> (r: ProcessorIdx) {
        ProcessorIdx(val)
    }
}

impl vstd::std_specs::convert::FromSpecImpl<ProcessorIdx> for usize {
    open spec fn obeys_from_spec() -> bool {
        true
    }

    open spec fn from_spec(val: ProcessorIdx) -> usize {
        val.0
    }
}

impl From<ProcessorIdx> for usize {
    fn from(val: ProcessorIdx) -> (r: usize) {
        val.0
    }
}

impl ProcessorIdx {
    /// The index as text.
    pub fn text(&self) -> (text: String)
        ensures
            text@ == "processor #"@ + decimal(self.0 as nat),
    {
        let mut text = String::from_str("processor #");
        append_decimal(&mut text, self.0);
        text
    }
}

impl ConsensusRoundID {
    /// The identifier as text, with all of its 32 hexadecimal digits.
    pub fn text(&self) -> (text: String)
        ensures
            text@ == "consensus round #"@ + hex(self.0 as nat, 32),
    {
        let mut text = String::from_str("consensus round #");
        append_hex(&mut text, self.0, 32);
        text
    }
}

} // verus!
