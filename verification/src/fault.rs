//! Faults are misbehaviour attributable to a remote node: they are recorded
//! in a step's fault log and never abort the engine. Errors are local
//! failures that end the current call and are returned to the caller.

use vstd::prelude::*;
use crate::key_gen::{AckFault, PartFault};

verus! {

/// A fault of the atomic broadcast, attributed to a sender.
#[derive(Clone, Copy, PartialEq, Eq, Structural, Debug)]
pub enum HbFaultKind {
    UnexpectedEpoch,
    MultipleProposals,
}

/// Misbehaviour kinds the engine attributes to remote nodes.
#[derive(Clone, Copy, PartialEq, Eq, Structural, Debug)]
pub enum FaultKind {
    UnknownSender,
    UnexpectedDhbMessageEra,
    InvalidKeyGenMessageSignature,
    UnexpectedKeyGenMessage,
    TooManyKeyGenMessages,
    InvalidKeyGenMessageEra,
    SyncKeyGenPart(PartFault),
    SyncKeyGenAck(AckFault),
    UnexpectedKeyGenPart,
    UnexpectedKeyGenAck,
    InvalidVoteSignature,
    InvalidCommittedVote,
    HbFault(HbFaultKind),
}

/// One fault: the offending node and what it did.
#[derive(Clone, Copy, PartialEq, Eq, Structural, Debug)]
pub struct Fault {
    pub node_id: u64,
    pub kind: FaultKind,
}

/// The fault log of one step, in the order the faults were found.
#[derive(PartialEq, Eq, Debug)]
pub struct FaultLog {
    pub entries: Vec<Fault>,
}

impl FaultLog {
    pub open spec fn sq(self) -> Seq<Fault> {
        self.entries@
    }

    /// An empty log.
    pub fn new() -> (r: Self)
        ensures
            r.sq() =~= Seq::<Fault>::empty(),
    {
        FaultLog { entries: Vec::new() }
    }

    /// A log holding one fault.
    pub fn init(node_id: u64, kind: FaultKind) -> (r: Self)
        ensures
            r.sq() =~= seq![Fault { node_id, kind }],
    {
        let mut entries: Vec<Fault> = Vec::new();
        entries.push(Fault { node_id, kind });
        FaultLog { entries }
    }

    pub fn append(&mut self, node_id: u64, kind: FaultKind)
        ensures
            final(self).sq() == old(self).sq().push(Fault { node_id, kind }),
    {
        self.entries.push(Fault { node_id, kind });
    }

    /// Moves every fault of `other` to the end of this log.
    pub fn extend(&mut self, other: FaultLog)
        ensures
            final(self).sq() == old(self).sq() + other.sq(),
    {
        let mut o = other;
        self.entries.append(&mut o.entries);
    }

    pub fn is_empty(&self) -> (b: bool)
        ensures
            b <==> self.sq().len() == 0,
    {
        self.entries.len() == 0
    }
}

/// A local failure of one key generation run.
#[derive(Clone, Copy, PartialEq, Eq, Structural, Debug)]
pub enum KgError {
    InvalidKeyShare,
}

/// A local failure of the atomic broadcast.
#[derive(Clone, Copy, PartialEq, Eq, Structural, Debug)]
pub enum HbError {
    NotAValidator,
    AlreadyProposed,
}

/// Local failures that end the current call; they never record a fault and
/// leave the engine as the failure point found it.
#[derive(Clone, Copy, PartialEq, Eq, Structural, Debug)]
pub enum Error {
    InvalidJoinPlan,
    SerializeVote,
    SerializeKeyGen,
    SyncKeyGen(KgError),
    ProposeHoneyBadger(HbError),
    HandleHoneyBadgerMessage(HbError),
    UnknownSender,
}

} // verus!
