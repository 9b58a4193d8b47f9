//! What one engine call produces: messages to send, batches emitted, and
//! the faults found along the way.

use vstd::prelude::*;
use crate::batch::Batch;
use crate::fault::{Fault, FaultKind, FaultLog};
use crate::messages::Message;

verus! {

/// Where a message goes: to every peer, or to one node.
#[derive(Clone, Copy, PartialEq, Eq, Structural, Debug)]
pub enum Target {
    All,
    Node(u64),
}

impl Target {
    /// The broadcast target.
    pub fn all() -> (t: Target)
        ensures
            t == Target::All,
    {
        Target::All
    }
}

/// A message with its destination.
pub struct TargetedMessage {
    pub target: Target,
    pub message: Message,
}

/// The outward effect of one engine call.
pub struct Step {
    pub messages: Vec<TargetedMessage>,
    pub output: Vec<Batch>,
    pub fault_log: FaultLog,
}

impl Step {
    pub open spec fn is_empty_spec(self) -> bool {
        self.messages@ == Seq::<TargetedMessage>::empty() && self.output@ == Seq::<
            Batch,
        >::empty() && self.fault_log.sq() == Seq::<Fault>::empty()
    }

    /// A step with nothing to send, no batches and no faults.
    pub fn empty() -> (r: Self)
        ensures
            r.messages@ =~= Seq::<TargetedMessage>::empty(),
            r.output@ =~= Seq::<Batch>::empty(),
            r.fault_log.sq() =~= Seq::<Fault>::empty(),
    {
        Step { messages: Vec::new(), output: Vec::new(), fault_log: FaultLog::new() }
    }

    /// A step recording one fault.
    pub fn from_fault(node_id: u64, kind: FaultKind) -> (r: Self)
        ensures
            r.messages@ =~= Seq::<TargetedMessage>::empty(),
            r.output@ =~= Seq::<Batch>::empty(),
            r.fault_log.sq() =~= seq![Fault { node_id, kind }],
    {
        Step { messages: Vec::new(), output: Vec::new(), fault_log: FaultLog::init(node_id, kind) }
    }

    /// A step broadcasting one message.
    pub fn from_broadcast(message: Message) -> (r: Self)
        ensures
            r.messages@ =~= seq![TargetedMessage { target: Target::All, message }],
            r.output@ =~= Seq::<Batch>::empty(),
            r.fault_log.sq() =~= Seq::<Fault>::empty(),
    {
        let mut messages: Vec<TargetedMessage> = Vec::new();
        messages.push(TargetedMessage { target: Target::all(), message });
        Step { messages, output: Vec::new(), fault_log: FaultLog::new() }
    }

    /// Appends everything another step produced.
    pub fn extend(&mut self, other: Step)
        ensures
            final(self).messages@ == old(self).messages@ + other.messages@,
            final(self).output@ == old(self).output@ + other.output@,
            final(self).fault_log.sq() == old(self).fault_log.sq() + other.fault_log.sq(),
    {
        let mut o = other;
        self.messages.append(&mut o.messages);
        self.output.append(&mut o.output);
        self.fault_log.extend(o.fault_log);
    }
}

impl Default for Step {
    /// The empty step.
    fn default() -> (r: Self)
        ensures
            r.messages@ =~= Seq::<TargetedMessage>::empty(),
            r.output@ =~= Seq::<Batch>::empty(),
            r.fault_log.sq() =~= Seq::<Fault>::empty(),
    {
        Step::empty()
    }
}

} // verus!
