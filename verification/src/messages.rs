//! The messages the engine exchanges with its peers, and the contribution
//! shape it hands to the atomic broadcast: the user payload with membership
//! bookkeeping piggybacked on it.

use vstd::prelude::*;
use crate::change::{Change, ChangeState, ChangeStateV, PubKeyMap};
use crate::crypto::{PublicKey, PublicKeySet, Signature};
use crate::params::Params;
use crate::honey_badger::{HbMessage, HbMessageV};
use crate::key_gen::{Ack, Part};
use crate::votes::{SignedVote, SignedVoteV};

verus! {

/// A key generation message: a dealer's part or a validator's ack.
#[derive(Clone, Copy, PartialEq, Eq, Structural, Debug)]
pub enum KeyGenMessage {
    Part(Part),
    Ack(Ack),
}

/// A key generation message as committed inside a contribution:
/// the era it belongs to, its sender, and the sender's signature over the
/// canonical encoding of the message.
#[derive(Clone, Copy, PartialEq, Eq, Structural, Debug)]
pub struct SignedKeyGenMsg {
    pub era: u64,
    pub sender: u64,
    pub msg: KeyGenMessage,
    pub sig: Signature,
}

impl SignedKeyGenMsg {
    /// The era this message belongs to.
    pub fn era(&self) -> (e: u64)
        ensures
            e == self.era,
    {
        self.era
    }
}

/// What the atomic broadcast actually carries for one proposer: the user
/// contribution plus pending votes and buffered key generation messages.
#[derive(PartialEq, Eq, Debug)]
pub struct InternalContrib {
    pub payload: Vec<u8>,
    pub key_gen_messages: Vec<SignedKeyGenMsg>,
    pub votes: Vec<SignedVote>,
}

pub struct InternalContribV {
    pub payload: Seq<u8>,
    pub key_gen_messages: Seq<SignedKeyGenMsg>,
    pub votes: Seq<SignedVoteV>,
}

pub open spec fn internal_contrib_v_wf(c: InternalContribV) -> bool {
    forall|i: int|
        0 <= i < c.votes.len() ==> crate::votes::signed_vote_v_wf(#[trigger] c.votes[i])
}

impl InternalContrib {
    pub open spec fn view(self) -> InternalContribV {
        InternalContribV {
            payload: self.payload@,
            key_gen_messages: self.key_gen_messages@,
            votes: self.votes@.map_values(|v: SignedVote| v.view()),
        }
    }

    pub open spec fn wf(self) -> bool {
        internal_contrib_v_wf(self.view())
    }

    /// A copy with the same mathematical value.
    pub fn duplicate(&self) -> (r: Self)
        ensures
            r.view() == self.view(),
    {
        let mut payload: Vec<u8> = Vec::new();
        let n1 = self.payload.len();
        let mut i: usize = 0;
        while i < n1
            invariant
                n1 == self.payload@.len(),
                i <= n1,
                payload@ =~= self.payload@.take(i as int),
            decreases n1 - i,
        {
            payload.push(self.payload[i]);
            i = i + 1;
        }
        let mut key_gen_messages: Vec<SignedKeyGenMsg> = Vec::new();
        let n2 = self.key_gen_messages.len();
        let mut j: usize = 0;
        while j < n2
            invariant
                n2 == self.key_gen_messages@.len(),
                j <= n2,
                key_gen_messages@ =~= self.key_gen_messages@.take(j as int),
            decreases n2 - j,
        {
            key_gen_messages.push(self.key_gen_messages[j]);
            j = j + 1;
        }
        let mut votes: Vec<SignedVote> = Vec::new();
        let n3 = self.votes.len();
        let mut k: usize = 0;
        while k < n3
            invariant
                n3 == self.votes@.len(),
                k <= n3,
                votes@ =~= self.votes@.take(k as int),
            decreases n3 - k,
        {
            votes.push(self.votes[k].duplicate());
            k = k + 1;
        }
        let r = InternalContrib { payload, key_gen_messages, votes };
        proof {
            assert(payload@ =~= self.payload@);
            assert(key_gen_messages@ =~= self.key_gen_messages@);
            assert(votes@ =~= self.votes@);
            assert(r.view().votes =~= self.view().votes);
        }
        r
    }
}

/// A message between engines. Every variant carries the era it belongs to.
#[derive(PartialEq, Eq, Debug)]
pub enum Message {
    HoneyBadger(u64, HbMessage),
    KeyGen(u64, KeyGenMessage, Signature),
    SignedVote(SignedVote),
}

pub enum MessageV {
    HoneyBadger(u64, HbMessageV),
    KeyGen(u64, KeyGenMessage, Signature),
    SignedVote(SignedVoteV),
}

pub open spec fn message_v_wf(m: MessageV) -> bool {
    match m {
        MessageV::HoneyBadger(_, hb) => crate::honey_badger::hb_message_v_wf(hb),
        MessageV::KeyGen(_, _, _) => true,
        MessageV::SignedVote(sv) => crate::votes::signed_vote_v_wf(sv),
    }
}

impl Message {
    pub open spec fn view(self) -> MessageV {
        match self {
            Message::HoneyBadger(era, m) => MessageV::HoneyBadger(era, m.view()),
            Message::KeyGen(era, m, sig) => MessageV::KeyGen(era, m, sig),
            Message::SignedVote(sv) => MessageV::SignedVote(sv.view()),
        }
    }

    pub open spec fn wf(self) -> bool {
        message_v_wf(self.view())
    }

    pub open spec fn spec_era(self) -> u64 {
        match self {
            Message::HoneyBadger(era, _) => era,
            Message::KeyGen(era, _, _) => era,
            Message::SignedVote(sv) => sv.vote.era,
        }
    }

    /// The era a message belongs to.
    pub fn era(&self) -> (e: u64)
        ensures
            e == self.spec_era(),
    {
        match self {
            Message::HoneyBadger(era, _) => *era,
            Message::KeyGen(era, _, _) => *era,
            Message::SignedVote(sv) => sv.era(),
        }
    }

    /// A copy with the same mathematical value.
    pub fn duplicate(&self) -> (r: Self)
        ensures
            r.view() == self.view(),
    {
        match self {
            Message::HoneyBadger(era, m) => Message::HoneyBadger(*era, m.duplicate()),
            Message::KeyGen(era, m, sig) => Message::KeyGen(*era, *m, *sig),
            Message::SignedVote(sv) => Message::SignedVote(sv.duplicate()),
        }
    }
}

/// Local input to the engine: a user contribution or a change proposal.
pub enum Input {
    User(Vec<u8>),
    Change(Change),
}

/// Enough state for a new node to attach to the network in a given era:
/// the era, the change in flight, the validator key map, the threshold key
/// set and the configuration. Its canonical encoding keeps the fields in
/// exactly this order.
#[derive(PartialEq, Eq, Debug)]
pub struct JoinPlan {
    pub era: u64,
    pub change: ChangeState,
    pub pub_keys: PubKeyMap,
    pub pub_key_set: PublicKeySet,
    pub params: Params,
}

pub struct JoinPlanV {
    pub era: u64,
    pub change: ChangeStateV,
    pub pub_keys: Seq<(u64, PublicKey)>,
    pub pub_key_set: PublicKeySet,
    pub params: Params,
}

pub open spec fn join_plan_v_wf(p: JoinPlanV) -> bool {
    crate::change::change_state_v_wf(p.change) && crate::ordmap::kseq_sorted(p.pub_keys)
}

impl JoinPlan {
    pub open spec fn view(self) -> JoinPlanV {
        JoinPlanV {
            era: self.era,
            change: self.change.view(),
            pub_keys: self.pub_keys.sq(),
            pub_key_set: self.pub_key_set,
            params: self.params,
        }
    }

    pub open spec fn wf(self) -> bool {
        join_plan_v_wf(self.view())
    }

    /// The epoch at which the new node's engine starts: the plan's era.
    pub fn next_epoch(&self) -> (e: u64)
        ensures
            e == self.era,
    {
        self.era
    }
}

} // verus!
