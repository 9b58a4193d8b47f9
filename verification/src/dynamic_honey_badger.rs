//! The dynamic consensus engine: one deterministic state machine per node
//! that wraps the atomic broadcast with a signed-vote counter and a key
//! generation run, so that the validator set and the encryption policy can
//! change in band while consensus continues.

use vstd::prelude::*;
use std::sync::Arc;
use crate::batch::Batch;
use crate::change::{key_map_eq, Change, ChangeState, PubKeyMap};
use crate::codec::kg_msg_bytes;
use crate::crypto::{spec_sign, spec_verify, PublicKey, SecretKey, Signature};
use crate::fault::{Error, FaultKind};
use crate::honey_badger::{HbBatch, HoneyBadger};
use crate::key_gen::{AckOutcome, KeyGenState, PartOutcome, SyncKeyGen};
use crate::messages::{Input, InternalContrib, JoinPlan, KeyGenMessage, Message, SignedKeyGenMsg};
use crate::network_info::NetworkInfo;
use crate::ordmap::OrderedMap;
use crate::params::{EncryptionSchedule, Params};
use crate::step::Step;
use crate::util::{max_faulty, spec_max_faulty};
use crate::votes::{SignedVote, VoteCounter};

verus! {

/// Why a key generation run is underway: either a change won the vote — the
/// committed votes and the key map that set the threshold are the witness —
/// or the engine was built from a join plan that named the run.
pub enum DkgReason {
    Absent,
    Joined,
    Voted { committed: Seq<(u64, crate::votes::Vote)>, keys: Seq<(u64, PublicKey)> },
}

/// Whether a reason justifies a run towards the key map `new_keys`: a vote
/// witness must show `new_keys` as the winner over its committed votes.
pub open spec fn reason_justifies(reason: DkgReason, new_keys: Seq<(u64, PublicKey)>) -> bool {
    match reason {
        DkgReason::Absent => false,
        DkgReason::Joined => true,
        DkgReason::Voted { committed, keys } => crate::votes::spec_winner(
            committed,
            spec_max_faulty(keys.len()),
        ) == Some(crate::change::ChangeV::NodeChange(new_keys)),
    }
}

/// The engine's state for one node: the long-term key, the era's validator
/// keys, the vote counter, the buffered key generation messages, the
/// atomic broadcast instance, and the key generation run in flight.
pub struct DynamicHoneyBadger {
    pub secret_key: SecretKey,
    pub pub_keys: PubKeyMap,
    pub max_future_epochs: u64,
    pub era: u64,
    pub vote_counter: VoteCounter,
    pub key_gen_msg_buffer: Vec<SignedKeyGenMsg>,
    pub honey_badger: HoneyBadger,
    pub key_gen_state: Option<KeyGenState>,
    /// Why the run in flight, if any, was started.
    pub dkg_reason: Ghost<DkgReason>,
}

impl DynamicHoneyBadger {
    pub open spec fn spec_our_id(self) -> u64 {
        self.honey_badger.netinfo.our_id
    }

    /// The epoch the next emitted batch will carry.
    pub open spec fn spec_next_epoch(self) -> int {
        self.era + self.honey_badger.epoch
    }

    pub open spec fn wf(self) -> bool {
        &&& self.pub_keys.wf()
        &&& self.honey_badger.wf()
        &&& self.honey_badger.session_id == self.era
        &&& self.honey_badger.params.max_future_epochs == self.max_future_epochs
        &&& self.honey_badger.netinfo.validators@ == self.pub_keys.spec_keys()
        &&& self.vote_counter.wf()
        &&& self.vote_counter.era == self.era
        &&& self.vote_counter.our_id == self.spec_our_id()
        &&& self.vote_counter.secret_key == self.secret_key
        &&& self.vote_counter.pub_keys == self.pub_keys
        &&& forall|k: int|
            0 <= k < self.key_gen_msg_buffer@.len() ==> (#[trigger] self.key_gen_msg_buffer@[
            k]).era == self.era
        &&& match self.key_gen_state {
            Some(kgs) => kgs.wf() && kgs.key_gen.our_id == self.spec_our_id()
                && reason_justifies(self.dkg_reason@, kgs.key_gen.pub_keys.sq()),
            None => true,
        }
    }

    /// The vote witness for starting a key generation run now: the
    /// committed votes and the key map that set the threshold.
    pub open spec fn spec_vote_reason(self) -> DkgReason {
        DkgReason::Voted {
            committed: self.vote_counter.committed.sq(),
            keys: self.pub_keys.sq(),
        }
    }

    /// Enough numeric room for the epochs and eras one call can reach.
    pub open spec fn headroom(self) -> bool {
        self.era + self.honey_badger.epoch + self.max_future_epochs + 2 <= u64::MAX
    }

    /// An engine for a validator or observer of an existing era. Every
    /// validator of the network snapshot must have a public key in the map.
    pub fn new(
        secret_key: SecretKey,
        pub_keys: PubKeyMap,
        netinfo: Arc<NetworkInfo>,
        params: Params,
        era: u64,
        epoch: u64,
    ) -> (r: Self)
        requires
            netinfo.wf(),
            pub_keys.wf(),
            netinfo.validators@ == pub_keys.spec_keys(),
        ensures
            r.wf(),
            r.secret_key == secret_key,
            r.pub_keys == pub_keys,
            r.max_future_epochs == params.max_future_epochs,
            r.era == era,
            r.honey_badger.netinfo == netinfo,
            r.honey_badger.params == params,
            r.honey_badger.epoch == epoch,
            !r.honey_badger.has_input_flag,
            r.key_gen_state is None,
            r.key_gen_msg_buffer@ == Seq::<SignedKeyGenMsg>::empty(),
            r.vote_counter.pending.sq() == Seq::<(u64, SignedVote)>::empty(),
            r.vote_counter.committed.sq() == Seq::<(u64, crate::votes::Vote)>::empty(),
            r.spec_our_id() == netinfo.our_id,
    {
        let our_id = netinfo.our_id();
        let honey_badger = HoneyBadger::new(netinfo, era, params, epoch);
        let vote_counter = VoteCounter::new(our_id, secret_key, pub_keys.clone(), era);
        DynamicHoneyBadger {
            secret_key,
            pub_keys,
            max_future_epochs: params.max_future_epochs,
            era,
            vote_counter,
            key_gen_msg_buffer: Vec::new(),
            honey_badger,
            key_gen_state: None,
            dkg_reason: Ghost(DkgReason::Absent),
        }
    }

    pub fn our_id(&self) -> (id: u64)
        ensures
            id == self.spec_our_id(),
    {
        self.honey_badger.netinfo().our_id()
    }

    /// The engine never terminates on its own.
    pub fn terminated(&self) -> (b: bool)
        ensures
            b == false,
    {
        false
    }

    pub fn secret_key(&self) -> (k: &SecretKey)
        ensures
            k == &self.secret_key,
    {
        &self.secret_key
    }

    /// The public keys of the current era's validators.
    pub fn public_key(&self) -> (p: &PubKeyMap)
        ensures
            p == &self.pub_keys,
    {
        &self.pub_keys
    }

    pub fn netinfo(&self) -> (n: &Arc<NetworkInfo>)
        ensures
            n == &self.honey_badger.netinfo,
    {
        self.honey_badger.netinfo()
    }

    pub fn honey_badger(&self) -> (h: &HoneyBadger)
        ensures
            h == &self.honey_badger,
    {
        &self.honey_badger
    }

    pub fn max_future_epochs(&self) -> (m: u64)
        ensures
            m == self.max_future_epochs,
    {
        self.max_future_epochs
    }

    pub fn has_input(&self) -> (b: bool)
        ensures
            b == self.honey_badger.has_input_flag,
    {
        self.honey_badger.has_input()
    }

    /// The epoch of the next batch: the era plus the broadcast's internal
    /// epoch.
    pub fn next_epoch(&self) -> (e: u64)
        requires
            self.era + self.honey_badger.epoch <= u64::MAX,
        ensures
            e == self.spec_next_epoch(),
    {
        self.era + self.honey_badger.epoch()
    }

    /// Signature check against the current era's key map.
    pub open spec fn valid_under_current(self, node_id: u64, sig: Signature, m: Seq<u8>) -> bool {
        match crate::ordmap::kseq_get(self.pub_keys.sq(), node_id) {
            Some(pk) => spec_verify(pk, sig, m),
            None => false,
        }
    }

    /// Signature check against the candidate key map of the key generation
    /// run in flight, if one is running.
    pub open spec fn valid_under_candidate(self, node_id: u64, sig: Signature, m: Seq<u8>) -> bool {
        match self.key_gen_state {
            Some(kgs) => match crate::ordmap::kseq_get(kgs.key_gen.pub_keys.sq(), node_id) {
                Some(pk) => spec_verify(pk, sig, m),
                None => false,
            },
            None => false,
        }
    }

    /// Verifies a key generation message signature against the node's key
    /// in the current key map or in the candidate key map: an incoming
    /// validator whose key is only in the new map must be able to
    /// authenticate during the transition.
    fn verify_signature(&self, node_id: u64, sig: &Signature, kg_msg: &KeyGenMessage) -> (b: bool)
        requires
            self.wf(),
        ensures
            b <==> self.valid_under_current(node_id, *sig, crate::codec::enc_kg_msg(*kg_msg))
                || self.valid_under_candidate(node_id, *sig, crate::codec::enc_kg_msg(*kg_msg)),
    {
        let ser = kg_msg_bytes(kg_msg);
        let cur = match self.pub_keys.get(node_id) {
            Some(pk) => pk.verify(sig, &ser),
            None => false,
        };
        if cur {
            return true;
        }
        match &self.key_gen_state {
            Some(kgs) => match kgs.key_gen.pub_keys.get(node_id) {
                Some(pk) => pk.verify(sig, &ser),
                None => false,
            },
            None => false,
        }
    }

    /// Signs and broadcasts a key generation message; a validator also
    /// buffers a copy so that its own next proposal carries it.
    fn send_transaction(&mut self, kg_msg: KeyGenMessage) -> (r: Result<Step, Error>)
        requires
            old(self).wf(),
        ensures
            final(self).wf(),
            final(self).era == old(self).era,
            final(self).pub_keys == old(self).pub_keys,
            final(self).secret_key == old(self).secret_key,
            final(self).vote_counter == old(self).vote_counter,
            final(self).honey_badger == old(self).honey_badger,
            final(self).key_gen_state == old(self).key_gen_state,
            final(self).max_future_epochs == old(self).max_future_epochs,
            final(self).dkg_reason == old(self).dkg_reason,
            final(self).key_gen_msg_buffer@ == (if old(self).honey_badger.netinfo.spec_is_validator(old(self).spec_our_id()) {
                old(self).key_gen_msg_buffer@.push(
                    SignedKeyGenMsg {
                        era: old(self).era,
                        sender: old(self).spec_our_id(),
                        msg: kg_msg,
                        sig: spec_sign(old(self).secret_key, crate::codec::enc_kg_msg(kg_msg)),
                    },
                )
            } else {
                old(self).key_gen_msg_buffer@
            }),
            match r {
                Ok(step) => {
                    &&& step.output@.len() == 0
                    &&& step.fault_log.sq().len() == 0
                    &&& step.messages@.len() == 1
                    &&& step.messages@[0].target == crate::step::Target::All
                    &&& step.messages@[0].message == Message::KeyGen(
                        old(self).era,
                        kg_msg,
                        spec_sign(old(self).secret_key, crate::codec::enc_kg_msg(kg_msg)),
                    )
                },
                Err(_) => false,
            },
    {
        let ser = kg_msg_bytes(&kg_msg);
        let sig = self.secret_key.sign(&ser);
        if self.honey_badger.netinfo().is_validator() {
            let our_id = self.our_id();
            let signed = SignedKeyGenMsg { era: self.era, sender: our_id, msg: kg_msg, sig };
            self.key_gen_msg_buffer.push(signed);
        }
        let msg = Message::KeyGen(self.era, kg_msg, sig);
        Ok(Step::from_broadcast(msg))
    }

    /// Starts a new era: prunes the buffer, resets the vote counter
    /// (votes do not carry across eras) and starts a fresh broadcast
    /// instance whose session is the era and whose epochs restart at zero.
    fn restart_honey_badger(&mut self, era: u64, params: Params, netinfo: Arc<NetworkInfo>)
        requires
            old(self).pub_keys.wf(),
            netinfo.wf(),
            netinfo.validators@ == old(self).pub_keys.spec_keys(),
            netinfo.our_id == old(self).spec_our_id(),
            era > old(self).era || (era == old(self).era && old(self).key_gen_msg_buffer@.len()
                == 0),
            forall|k: int|
                0 <= k < old(self).key_gen_msg_buffer@.len() ==> (#[trigger] old(self).key_gen_msg_buffer@[k]).era == old(self).era,
            match old(self).key_gen_state {
                Some(kgs) => kgs.wf() && kgs.key_gen.our_id == old(self).spec_our_id()
                    && reason_justifies(old(self).dkg_reason@, kgs.key_gen.pub_keys.sq()),
                None => true,
            },
        ensures
            final(self).wf(),
            final(self).dkg_reason == old(self).dkg_reason,
            final(self).era == era,
            final(self).pub_keys == old(self).pub_keys,
            final(self).secret_key == old(self).secret_key,
            final(self).max_future_epochs == params.max_future_epochs,
            final(self).key_gen_state == old(self).key_gen_state,
            final(self).honey_badger.netinfo == netinfo,
            final(self).honey_badger.params == params,
            final(self).honey_badger.epoch == 0,
            !final(self).honey_badger.has_input_flag,
            final(self).key_gen_msg_buffer@.len() == 0 || era == old(self).era,
            final(self).vote_counter.pending.sq() == Seq::<(u64, SignedVote)>::empty(),
            final(self).vote_counter.committed.sq() == Seq::<(u64, crate::votes::Vote)>::empty(),
            old(self).key_gen_state is None ==> final(self).key_gen_state is None,
    {
        self.era = era;
        self.max_future_epochs = params.max_future_epochs;
        let mut kept: Vec<SignedKeyGenMsg> = Vec::new();
        let mut tmp: Vec<SignedKeyGenMsg> = Vec::new();
        core::mem::swap(&mut tmp, &mut self.key_gen_msg_buffer);
        let tn = tmp.len();
        let mut i: usize = 0;
        while i < tn
            invariant
                tn == tmp@.len(),
                i <= tn,
                forall|k: int| 0 <= k < tmp@.len() ==> (#[trigger] tmp@[k]).era == old(self).era,
                era > old(self).era || tmp@.len() == 0,
                kept@.len() == 0,
            decreases tn - i,
        {
            if tmp[i].era >= era {
                kept.push(tmp[i]);
            }
            i = i + 1;
        }
        self.key_gen_msg_buffer = kept;
        let our_id = self.our_id();
        self.vote_counter = VoteCounter::new(our_id, self.secret_key, self.pub_keys.clone(), era);
        self.honey_badger = HoneyBadger::new(netinfo, era, params, 0);
    }

    /// Begins (or continues) a key generation run for a new key map. If a
    /// run for exactly this map is already underway nothing happens;
    /// otherwise the era restarts — membership has not changed yet — and a
    /// fresh run begins, our part going out at once.
    fn update_key_gen(
        &mut self,
        era: u64,
        new_pub_keys: PubKeyMap,
        Ghost(reason): Ghost<DkgReason>,
    ) -> (r: Result<Step, Error>)
        requires
            old(self).wf(),
            new_pub_keys.wf(),
            reason_justifies(reason, new_pub_keys.sq()),
            era > old(self).era || (era == old(self).era && old(self).key_gen_msg_buffer@.len()
                == 0),
        ensures
            final(self).wf(),
            final(self).pub_keys == old(self).pub_keys,
            final(self).secret_key == old(self).secret_key,
            final(self).spec_our_id() == old(self).spec_our_id(),
            match r {
                Ok(step) => {
                    &&& step.output@.len() == 0
                    &&& step.fault_log.sq().len() == 0
                    &&& (match final(self).key_gen_state {
                        Some(kgs) => kgs.key_gen.pub_keys.sq() == new_pub_keys.sq(),
                        None => false,
                    })
                    &&& ({
                        ||| (final(self).era == old(self).era && *final(self) == *old(self)
                            && step.messages@.len() == 0)
                        ||| (final(self).era == era && final(self).honey_badger.epoch == 0
                            && final(self).honey_badger.params == old(self).honey_badger.params
                            && final(self).honey_badger.netinfo == old(self).honey_badger.netinfo
                            && (if new_pub_keys.spec_contains_key(old(self).spec_our_id()) {
                                let part = crate::key_gen::Part {
                                    commit: crate::key_gen::spec_commit(old(self).secret_key),
                                };
                                step.messages@.len() == 1 && step.messages@[0].target
                                    == crate::step::Target::All && step.messages@[0].message
                                    == Message::KeyGen(
                                    era,
                                    KeyGenMessage::Part(part),
                                    spec_sign(
                                        old(self).secret_key,
                                        crate::codec::enc_kg_msg(KeyGenMessage::Part(part)),
                                    ),
                                )
                            } else {
                                step.messages@.len() == 0
                            }))
                    })
                },
                Err(_) => false,
            },
    {
        match &self.key_gen_state {
            Some(kgs) => {
                if key_map_eq(kgs.key_gen.public_keys(), &new_pub_keys) {
                    proof {
                        assert(match self.key_gen_state {
                            Some(kgs2) => kgs2.key_gen.pub_keys.sq() == new_pub_keys.sq(),
                            None => false,
                        });
                    }
                    return Ok(Step::empty());
                }
            },
            None => {},
        }
        let params = self.honey_badger.params();
        let netinfo = self.honey_badger.netinfo().clone();
        self.restart_honey_badger(era, params, netinfo);
        let threshold = max_faulty(new_pub_keys.len()) as u64;
        let our_id = self.our_id();
        let sk = self.secret_key;
        let (key_gen, part) = SyncKeyGen::new(our_id, sk, new_pub_keys, threshold);
        self.dkg_reason = Ghost(reason);
        self.key_gen_state = Some(KeyGenState::new(key_gen));
        match part {
            Some(p) => self.send_transaction(KeyGenMessage::Part(p)),
            None => Ok(Step::empty()),
        }
    }

    /// Switches the encryption schedule: the era restarts with the same
    /// validators and the new schedule; no key generation is needed.
    fn update_encryption_schedule(&mut self, era: u64, schedule: EncryptionSchedule)
        requires
            old(self).wf(),
            era > old(self).era,
        ensures
            final(self).wf(),
            final(self).era == era,
            final(self).pub_keys == old(self).pub_keys,
            final(self).secret_key == old(self).secret_key,
            final(self).spec_our_id() == old(self).spec_our_id(),
            final(self).honey_badger.epoch == 0,
            final(self).honey_badger.params.encryption_schedule == schedule,
            final(self).honey_badger.params.max_future_epochs == old(self).honey_badger.params.max_future_epochs,
            final(self).key_gen_state == old(self).key_gen_state,
    {
        let mut params = self.honey_badger.params();
        params.encryption_schedule = schedule;
        let netinfo = self.honey_badger.netinfo().clone();
        self.restart_honey_badger(era, params, netinfo);
    }

    /// Takes the key generation run out of the engine if it is ready.
    fn take_ready_key_gen(&mut self) -> (r: Option<KeyGenState>)
        requires
            old(self).wf(),
        ensures
            final(self).wf(),
            final(self).era == old(self).era,
            final(self).pub_keys == old(self).pub_keys,
            final(self).secret_key == old(self).secret_key,
            final(self).max_future_epochs == old(self).max_future_epochs,
            final(self).vote_counter == old(self).vote_counter,
            final(self).honey_badger == old(self).honey_badger,
            final(self).key_gen_msg_buffer == old(self).key_gen_msg_buffer,
            final(self).dkg_reason == old(self).dkg_reason,
            match r {
                Some(kgs) => {
                    &&& old(self).key_gen_state == Some(kgs)
                    &&& reason_justifies(old(self).dkg_reason@, kgs.key_gen.pub_keys.sq())
                    &&& kgs.wf()
                    &&& kgs.spec_ready()
                    &&& final(self).key_gen_state is None
                },
                None => final(self).key_gen_state == old(self).key_gen_state && (match old(self).key_gen_state {
                    Some(kgs) => !kgs.spec_ready(),
                    None => true,
                }),
            },
    {
        let ready = match &self.key_gen_state {
            Some(kgs) => kgs.is_ready(),
            None => false,
        };
        if ready {
            let mut taken: Option<KeyGenState> = None;
            core::mem::swap(&mut taken, &mut self.key_gen_state);
            taken
        } else {
            None
        }
    }

    /// Accepts a peer's key generation message for this era: the signature
    /// must verify under the current or the candidate key map, a run must
    /// be underway, and the sender must stay within its message budget;
    /// then the message joins the buffer for our next proposal.
    fn handle_key_gen_message(&mut self, sender_id: u64, kg_msg: KeyGenMessage, sig: Signature) -> (
        r: Result<Step, Error>)
        requires
            old(self).wf(),
        ensures
            final(self).wf(),
            final(self).era == old(self).era,
            final(self).pub_keys == old(self).pub_keys,
            final(self).secret_key == old(self).secret_key,
            final(self).vote_counter == old(self).vote_counter,
            final(self).honey_badger == old(self).honey_badger,
            final(self).dkg_reason == old(self).dkg_reason,
            match r {
                Ok(step) => {
                    &&& step.output@.len() == 0
                    &&& step.messages@.len() == 0
                    &&& ({
                        let valid = old(self).valid_under_current(
                            sender_id,
                            sig,
                            crate::codec::enc_kg_msg(kg_msg),
                        ) || old(self).valid_under_candidate(
                            sender_id,
                            sig,
                            crate::codec::enc_kg_msg(kg_msg),
                        );
                        if !valid {
                            step.fault_log.sq() == seq![
                                crate::fault::Fault {
                                    node_id: sender_id,
                                    kind: FaultKind::InvalidKeyGenMessageSignature,
                                },
                            ] && *final(self) == *old(self)
                        } else if old(self).key_gen_state is None {
                            step.fault_log.sq() == seq![
                                crate::fault::Fault {
                                    node_id: sender_id,
                                    kind: FaultKind::UnexpectedKeyGenMessage,
                                },
                            ] && *final(self) == *old(self)
                        } else {
                            let kgs = old(self).key_gen_state->Some_0;
                            let prior = match kgs.msg_count.spec_get(sender_id) {
                                Some(p) => p,
                                None => 0u64,
                            };
                            let now = if prior < u64::MAX {
                                (prior + 1) as u64
                            } else {
                                u64::MAX
                            };
                            &&& (match final(self).key_gen_state {
                                Some(k2) => {
                                    &&& k2.key_gen == kgs.key_gen
                                    &&& k2.msg_count.spec_get(sender_id) == Some(now)
                                    &&& (forall|v: u64|
                                        v != sender_id ==> k2.msg_count.spec_get(v)
                                            == kgs.msg_count.spec_get(v))
                                },
                                None => false,
                            })
                            &&& (if now > kgs.key_gen.pub_keys.sq().len() + 1 {
                                step.fault_log.sq() == seq![
                                    crate::fault::Fault {
                                        node_id: sender_id,
                                        kind: FaultKind::TooManyKeyGenMessages,
                                    },
                                ] && final(self).key_gen_msg_buffer == old(self).key_gen_msg_buffer
                            } else {
                                step.fault_log.sq().len() == 0 && final(self).key_gen_msg_buffer@ == old(self).key_gen_msg_buffer@.push(
                                    SignedKeyGenMsg {
                                        era: old(self).era,
                                        sender: sender_id,
                                        msg: kg_msg,
                                        sig,
                                    },
                                )
                            })
                        }
                    })
                },
                Err(_) => false,
            },
    {
        if !self.verify_signature(sender_id, &sig, &kg_msg) {
            return Ok(Step::from_fault(sender_id, FaultKind::InvalidKeyGenMessageSignature));
        }
        let (count, nodes) = match &mut self.key_gen_state {
            Some(kgs) => {
                let c = kgs.count_messages(sender_id);
                let n = kgs.key_gen.num_nodes();
                (c, n)
            },
            None => {
                return Ok(Step::from_fault(sender_id, FaultKind::UnexpectedKeyGenMessage));
            },
        };
        if (count as u128) > (nodes as u128) + 1 {
            return Ok(Step::from_fault(sender_id, FaultKind::TooManyKeyGenMessages));
        }
        let signed = SignedKeyGenMsg { era: self.era, sender: sender_id, msg: kg_msg, sig };
        self.key_gen_msg_buffer.push(signed);
        Ok(Step::empty())
    }

    /// Dispatches one committed part to the key generation run: with no run
    /// underway the proposer of an unexpected part is at fault; otherwise
    /// the run records the part exactly as its own contract says, and a
    /// fresh valid part from a dealer makes us answer with a broadcast
    /// acknowledgement when we are a validator of the new key map.
    fn handle_part_committed(&mut self, s_id: u64, part: crate::key_gen::Part) -> (r: Result<
        Step,
        Error,
    >)
        requires
            old(self).wf(),
        ensures
            final(self).wf(),
            final(self).era == old(self).era,
            final(self).pub_keys == old(self).pub_keys,
            final(self).secret_key == old(self).secret_key,
            final(self).max_future_epochs == old(self).max_future_epochs,
            final(self).honey_badger == old(self).honey_badger,
            final(self).vote_counter == old(self).vote_counter,
            final(self).dkg_reason == old(self).dkg_reason,
            match r {
                Ok(step) => {
                    &&& step.output@.len() == 0
                    &&& (match old(self).key_gen_state {
                        None => step.messages@.len() == 0 && step.fault_log.sq() == seq![
                            crate::fault::Fault {
                                node_id: s_id,
                                kind: FaultKind::UnexpectedKeyGenPart,
                            },
                        ] && *final(self) == *old(self),
                        Some(kgs) => {
                            let known = kgs.key_gen.pub_keys.spec_contains_key(s_id);
                            let prior = kgs.key_gen.parts.spec_get(s_id);
                            if !known {
                                step.messages@.len() == 0 && step.fault_log.sq() == seq![
                                    crate::fault::Fault {
                                        node_id: s_id,
                                        kind: FaultKind::SyncKeyGenPart(
                                            crate::key_gen::PartFault::UnknownSender,
                                        ),
                                    },
                                ] && *final(self) == *old(self)
                            } else if prior == Some(part.commit) {
                                step.is_empty_spec() && *final(self) == *old(self)
                            } else if prior is Some {
                                step.messages@.len() == 0 && step.fault_log.sq() == seq![
                                    crate::fault::Fault {
                                        node_id: s_id,
                                        kind: FaultKind::SyncKeyGenPart(
                                            crate::key_gen::PartFault::MismatchedPart,
                                        ),
                                    },
                                ] && *final(self) == *old(self)
                            } else {
                                &&& step.fault_log.sq().len() == 0
                                &&& (match final(self).key_gen_state {
                                    Some(k2) => {
                                        &&& k2.key_gen.parts.spec_get(s_id) == Some(part.commit)
                                        &&& (forall|v: u64|
                                            v != s_id ==> k2.key_gen.parts.spec_get(v)
                                                == kgs.key_gen.parts.spec_get(v))
                                        &&& k2.key_gen.pub_keys == kgs.key_gen.pub_keys
                                        &&& k2.key_gen.acks == kgs.key_gen.acks
                                        &&& k2.key_gen.threshold == kgs.key_gen.threshold
                                        &&& k2.msg_count == kgs.msg_count
                                    },
                                    None => false,
                                })
                                &&& (if kgs.key_gen.pub_keys.spec_contains_key(
                                    old(self).spec_our_id(),
                                ) {
                                    let ack = crate::key_gen::Ack {
                                        part_owner: s_id,
                                        echo: part.commit,
                                    };
                                    step.messages@.len() == 1 && step.messages@[0].target
                                        == crate::step::Target::All && step.messages@[0].message
                                        == Message::KeyGen(
                                        old(self).era,
                                        KeyGenMessage::Ack(ack),
                                        spec_sign(
                                            old(self).secret_key,
                                            crate::codec::enc_kg_msg(KeyGenMessage::Ack(ack)),
                                        ),
                                    )
                                } else {
                                    step.messages@.len() == 0 && final(self).key_gen_msg_buffer
                                        == old(self).key_gen_msg_buffer
                                })
                            }
                        },
                    })
                },
                Err(_) => false,
            },
    {
        let outcome = match &mut self.key_gen_state {
            Some(kgs) => kgs.key_gen.handle_part(s_id, part),
            None => {
                return Ok(Step::from_fault(s_id, FaultKind::UnexpectedKeyGenPart));
            },
        };
        match outcome {
            PartOutcome::Valid(Some(ack)) => self.send_transaction(KeyGenMessage::Ack(ack)),
            PartOutcome::Valid(None) => Ok(Step::empty()),
            PartOutcome::Invalid(f) => Ok(Step::from_fault(s_id, FaultKind::SyncKeyGenPart(f))),
        }
    }

    /// Dispatches one committed acknowledgement to the key generation run:
    /// with no run underway the proposer of an unexpected acknowledgement
    /// is at fault; otherwise the run records the sender in the part's
    /// acknowledgement set exactly as its own contract says.
    fn handle_ack_committed(&mut self, s_id: u64, ack: crate::key_gen::Ack) -> (r: Result<
        Step,
        Error,
    >)
        requires
            old(self).wf(),
        ensures
            final(self).wf(),
            final(self).era == old(self).era,
            final(self).pub_keys == old(self).pub_keys,
            final(self).secret_key == old(self).secret_key,
            final(self).max_future_epochs == old(self).max_future_epochs,
            final(self).honey_badger == old(self).honey_badger,
            final(self).vote_counter == old(self).vote_counter,
            final(self).key_gen_msg_buffer == old(self).key_gen_msg_buffer,
            final(self).dkg_reason == old(self).dkg_reason,
            match r {
                Ok(step) => {
                    &&& step.output@.len() == 0
                    &&& step.messages@.len() == 0
                    &&& (match old(self).key_gen_state {
                        None => step.fault_log.sq() == seq![
                            crate::fault::Fault {
                                node_id: s_id,
                                kind: FaultKind::UnexpectedKeyGenAck,
                            },
                        ] && *final(self) == *old(self),
                        Some(kgs) => {
                            let known = kgs.key_gen.pub_keys.spec_contains_key(s_id);
                            let part = kgs.key_gen.parts.spec_get(ack.part_owner);
                            if !known {
                                step.fault_log.sq() == seq![
                                    crate::fault::Fault {
                                        node_id: s_id,
                                        kind: FaultKind::SyncKeyGenAck(
                                            crate::key_gen::AckFault::UnknownSender,
                                        ),
                                    },
                                ] && *final(self) == *old(self)
                            } else if part is None {
                                step.fault_log.sq() == seq![
                                    crate::fault::Fault {
                                        node_id: s_id,
                                        kind: FaultKind::SyncKeyGenAck(
                                            crate::key_gen::AckFault::UnknownPartOwner,
                                        ),
                                    },
                                ] && *final(self) == *old(self)
                            } else if part != Some(ack.echo) {
                                step.fault_log.sq() == seq![
                                    crate::fault::Fault {
                                        node_id: s_id,
                                        kind: FaultKind::SyncKeyGenAck(
                                            crate::key_gen::AckFault::WrongEcho,
                                        ),
                                    },
                                ] && *final(self) == *old(self)
                            } else {
                                &&& step.fault_log.sq().len() == 0
                                &&& (match final(self).key_gen_state {
                                    Some(k2) => {
                                        &&& k2.key_gen.parts == kgs.key_gen.parts
                                        &&& k2.key_gen.pub_keys == kgs.key_gen.pub_keys
                                        &&& k2.key_gen.threshold == kgs.key_gen.threshold
                                        &&& k2.msg_count == kgs.msg_count
                                        &&& (match k2.key_gen.acks.spec_get(ack.part_owner) {
                                            Some(m) => m.spec_get(s_id) == Some(true) && (forall|
                                                v: u64,
                                            |
                                                v != s_id ==> m.spec_get(v) == (match kgs
                                                    .key_gen
                                                    .acks
                                                    .spec_get(ack.part_owner) {
                                                    Some(m0) => m0.spec_get(v),
                                                    None => None::<bool>,
                                                })),
                                            None => false,
                                        })
                                        &&& (forall|o: u64|
                                            o != ack.part_owner ==> k2.key_gen.acks.spec_get(o)
                                                == kgs.key_gen.acks.spec_get(o))
                                    },
                                    None => false,
                                })
                            }
                        },
                    })
                },
                Err(_) => false,
            },
    {
        let outcome = match &mut self.key_gen_state {
            Some(kgs) => kgs.key_gen.handle_ack(s_id, ack),
            None => {
                return Ok(Step::from_fault(s_id, FaultKind::UnexpectedKeyGenAck));
            },
        };
        match outcome {
            AckOutcome::Valid => Ok(Step::empty()),
            AckOutcome::Invalid(f) => Ok(Step::from_fault(s_id, FaultKind::SyncKeyGenAck(f))),
        }
    }

    /// Drops every buffered key generation message that a committed
    /// contribution already carried: committed, no longer pending.
    fn prune_buffer(&mut self, committed: &Vec<SignedKeyGenMsg>)
        requires
            old(self).wf(),
        ensures
            final(self).wf(),
            final(self).era == old(self).era,
            final(self).pub_keys == old(self).pub_keys,
            final(self).secret_key == old(self).secret_key,
            final(self).max_future_epochs == old(self).max_future_epochs,
            final(self).vote_counter == old(self).vote_counter,
            final(self).honey_badger == old(self).honey_badger,
            final(self).key_gen_state == old(self).key_gen_state,
            final(self).dkg_reason == old(self).dkg_reason,
            forall|k: int|
                0 <= k < final(self).key_gen_msg_buffer@.len() ==> (#[trigger] final(self).key_gen_msg_buffer@[k]).era == final(self).era,
    {
        let mut kept: Vec<SignedKeyGenMsg> = Vec::new();
        let mut tmp: Vec<SignedKeyGenMsg> = Vec::new();
        core::mem::swap(&mut tmp, &mut self.key_gen_msg_buffer);
        let tn = tmp.len();
        let cn = committed.len();
        let mut i: usize = 0;
        while i < tn
            invariant
                tn == tmp@.len(),
                cn == committed@.len(),
                i <= tn,
                forall|k: int| 0 <= k < tmp@.len() ==> (#[trigger] tmp@[k]).era == old(self).era,
                forall|k: int| 0 <= k < kept@.len() ==> (#[trigger] kept@[k]).era == old(self).era,
            decreases tn - i,
        {
            let m = tmp[i];
            let mut found = false;
            let mut j: usize = 0;
            while j < cn
                invariant
                    cn == committed@.len(),
                    j <= cn,
                decreases cn - j,
            {
                if committed[j] == m {
                    found = true;
                }
                j = j + 1;
            }
            if !found {
                kept.push(m);
            }
            i = i + 1;
        }
        self.key_gen_msg_buffer = kept;
    }

    /// Turns the rounds the atomic broadcast closed into engine batches:
    /// commits the piggybacked votes and key generation messages of every
    /// contribution, decides the batch's change state, and starts a new era
    /// when a change wins or a key generation run finishes.
    fn process_output(&mut self, hb_batches: Vec<HbBatch>, Ghost(e0): Ghost<u64>) -> (r: Result<
        Step,
        Error,
    >)
        requires
            old(self).wf(),
            hb_batches@.len() <= 1,
            forall|k: int|
                0 <= k < hb_batches@.len() ==> (#[trigger] hb_batches@[k]).wf() && hb_batches@[
                k].epoch == e0 + k && hb_batches@[k].contributions.spec_keys() == old(self).honey_badger.netinfo.validators@,
            old(self).honey_badger.epoch == e0 + hb_batches@.len(),
            old(self).era + e0 + old(self).max_future_epochs + 2 <= u64::MAX,
        ensures
            final(self).wf(),
            final(self).secret_key == old(self).secret_key,
            final(self).spec_our_id() == old(self).spec_our_id(),
            final(self).era >= old(self).era,
            final(self).spec_next_epoch() >= old(self).spec_next_epoch(),
            hb_batches@.len() == 0 ==> *final(self) == *old(self),
            hb_batches@.len() == 0 ==> (r matches Ok(step) && step.is_empty_spec()),
            match r {
                Ok(step) => {
                    &&& step.output@.len() == hb_batches@.len()
                    &&& (forall|k: int|
                        0 <= k < step.output@.len() ==> {
                            let b = #[trigger] step.output@[k];
                            &&& b.wf()
                            &&& b.epoch == old(self).era + e0 + k
                            &&& b.era == old(self).era
                            &&& b.contributions.spec_keys() == hb_batches@[
                                k].contributions.spec_keys()
                            &&& b.contributions.sq().len() == hb_batches@[
                                k].contributions.sq().len()
                            &&& (forall|j: int|
                                0 <= j < b.contributions.sq().len() ==> (
                                #[trigger] b.contributions.sq()[j]).1 == hb_batches@[
                                    k].contributions.sq()[j].1.payload)
                            &&& b.epoch < final(self).era + final(self).honey_badger.epoch
                            &&& b.pub_keys == final(self).pub_keys
                            &&& b.params == final(self).honey_badger.params
                            &&& b.netinfo == final(self).honey_badger.netinfo
                            &&& (b.change matches ChangeState::Complete(_) ==> final(self).era
                                == b.epoch + 1)
                            &&& (b.change matches ChangeState::NoChange ==> final(self).era == old(self).era)
                            &&& (b.change matches ChangeState::Complete(Change::NodeChange(pks))
                                ==> pks.sq() == b.pub_keys.sq() && reason_justifies(
                                old(self).dkg_reason@,
                                pks.sq(),
                            ))
                            &&& (b.change matches ChangeState::InProgress(Change::NodeChange(pks))
                                ==> reason_justifies(final(self).dkg_reason@, pks.sq()))
                            &&& (b.change matches ChangeState::NoChange ==> (match final(self).key_gen_state {
                                Some(kgs) => !kgs.spec_ready(),
                                None => true,
                            }) && crate::votes::spec_winner(
                                final(self).vote_counter.committed.sq(),
                                spec_max_faulty(final(self).pub_keys.sq().len()),
                            ) is None)
                        })
                },
                Err(_) => false,
            },
    {
        let mut step = Step::empty();
        let mut batches = hb_batches;
        if batches.len() == 0 {
            proof {
                assert(self.era + self.honey_badger.epoch <= u64::MAX);
            }
            return Ok(step);
        }
        let hb_batch = match batches.pop() {
            Some(b) => b,
            None => {
                return Ok(step);
            },
        };
        let batch_era = self.era;
        let batch_epoch = hb_batch.epoch + batch_era;
        let ghost hb_sq = hb_batch.contributions.sq();
        let mut batch_contributions: OrderedMap<Vec<u8>> = OrderedMap::new();
        let mut entries = hb_batch.contributions.into_entries();
        let ghost prev = *self;
        let en = entries.len();
        let mut i: usize = 0;
        while i < en
            invariant
                self.wf(),
                en == hb_sq.len(),
                i <= en,
                entries@ == hb_sq.skip(i as int),
                crate::ordmap::kseq_sorted(hb_sq),
                forall|k: int| 0 <= k < hb_sq.len() ==> (#[trigger] hb_sq[k]).1.wf(),
                self.era == prev.era,
                self.pub_keys == prev.pub_keys,
                self.secret_key == prev.secret_key,
                self.max_future_epochs == prev.max_future_epochs,
                self.honey_badger == prev.honey_badger,
                self.dkg_reason == prev.dkg_reason,
                batch_contributions.wf(),
                batch_contributions.sq().len() == i,
                forall|j: int|
                    0 <= j < i ==> (#[trigger] batch_contributions.sq()[j]).0 == hb_sq[j].0
                        && batch_contributions.sq()[j].1 == hb_sq[j].1.payload,
                step.output@.len() == 0,
            decreases en - i,
        {
            proof {
                assert(hb_sq.skip(i as int)[0] == hb_sq[i as int]);
            }
            let entry = entries.remove(0);
            proof {
                assert(entry == hb_sq[i as int]);
            }
            let (id, ic) = entry;
            let ghost ic0 = ic;
            let InternalContrib { payload, key_gen_messages, votes } = ic;
            proof {
                assert(ic0.wf());
                assert forall|j: int| 0 <= j < votes@.len() implies (#[trigger] votes@[
                j]).wf() by {
                    assert(ic0.view().votes[j] == votes@[j].view());
                }
            }
            let log = match self.vote_counter.add_committed_votes(id, votes) {
                Ok(l) => l,
                Err(e) => {
                    return Err(e);
                },
            };
            step.fault_log.extend(log);
            proof {
                assert forall|j: int|
                    0 <= j < batch_contributions.sq().len() implies (
                #[trigger] batch_contributions.sq()[j]).0 < id by {
                    assert(batch_contributions.sq()[j].0 == hb_sq[j].0);
                    assert(hb_sq[j].0 < hb_sq[i as int].0);
                }
            }
            batch_contributions.append(id, payload);
            self.prune_buffer(&key_gen_messages);
            let kn = key_gen_messages.len();
            let mut j: usize = 0;
            while j < kn
                invariant
                    self.wf(),
                    kn == key_gen_messages@.len(),
                    j <= kn,
                    self.era == prev.era,
                    self.pub_keys == prev.pub_keys,
                    self.secret_key == prev.secret_key,
                    self.max_future_epochs == prev.max_future_epochs,
                    self.honey_badger == prev.honey_badger,
                    self.dkg_reason == prev.dkg_reason,
                    step.output@.len() == 0,
                decreases kn - j,
            {
                let skgm = key_gen_messages[j];
                if skgm.era != self.era {
                    step.fault_log.append(id, FaultKind::InvalidKeyGenMessageEra);
                } else if !self.verify_signature(skgm.sender, &skgm.sig, &skgm.msg) {
                    step.fault_log.append(id, FaultKind::InvalidKeyGenMessageSignature);
                } else {
                    let sub = match skgm.msg {
                        KeyGenMessage::Part(p) => self.handle_part_committed(skgm.sender, p),
                        KeyGenMessage::Ack(a) => self.handle_ack_committed(skgm.sender, a),
                    };
                    match sub {
                        Ok(s) => step.extend(s),
                        Err(e) => {
                            return Err(e);
                        },
                    }
                }
                j = j + 1;
            }
            proof {
                assert(entries@ =~= hb_sq.skip(i + 1));
            }
            i = i + 1;
        }
        proof {
            assert forall|j: int| 0 <= j < hb_sq.len() implies (
            #[trigger] batch_contributions.spec_keys()[j]) == hb_sq[j].0 by {
                assert(batch_contributions.spec_keys()[j] == batch_contributions.sq()[j].0);
            }
            assert(batch_contributions.spec_keys() =~= prev.honey_badger.netinfo.validators@);
        }
        // Decide this batch's change state.
        let change: ChangeState;
        match self.take_ready_key_gen() {
            Some(kgs) => {
                let kg = kgs.key_gen;
                proof {
                    if kg.parts.sq().len() == 0 {
                        assert(kg.spec_count_complete() == 0);
                    }
                    assert(kg.pub_keys.spec_contains_key(kg.parts.sq()[0].0));
                    assert(kg.pub_keys.sq().len() >= 1);
                    assert(kg.pub_keys.spec_keys().len() == kg.pub_keys.sq().len());
                    assert forall|a: int, b: int|
                        0 <= a < b < kg.pub_keys.spec_keys().len() implies kg.pub_keys.spec_keys()[
                        a] < kg.pub_keys.spec_keys()[b] by {
                        assert(kg.pub_keys.spec_keys()[a] == kg.pub_keys.sq()[a].0);
                        assert(kg.pub_keys.spec_keys()[b] == kg.pub_keys.sq()[b].0);
                    }
                }
                self.pub_keys = kg.public_keys().clone();
                let (pk_set, sk_share) = match kg.generate() {
                    Ok(t) => t,
                    Err(e) => {
                        return Err(Error::SyncKeyGen(e));
                    },
                };
                let our_id = self.our_id();
                let keys = self.pub_keys.keys_vec();
                let netinfo = Arc::new(NetworkInfo::new(our_id, sk_share, pk_set, keys));
                let params = self.honey_badger.params();
                self.restart_honey_badger(batch_epoch + 1, params, netinfo);
                change = ChangeState::Complete(Change::NodeChange(self.pub_keys.clone()));
            },
            None => {
                match self.vote_counter.compute_winner() {
                    Some(Change::NodeChange(pks)) => {
                        let ghost reason = self.spec_vote_reason();
                        let sub = match self.update_key_gen(
                            batch_epoch + 1,
                            pks.clone(),
                            Ghost(reason),
                        ) {
                            Ok(s) => s,
                            Err(e) => {
                                return Err(e);
                            },
                        };
                        step.extend(sub);
                        change = ChangeState::InProgress(Change::NodeChange(pks));
                    },
                    Some(Change::EncryptionSchedule(s)) => {
                        self.update_encryption_schedule(batch_epoch + 1, s);
                        change = ChangeState::Complete(Change::EncryptionSchedule(s));
                    },
                    None => {
                        change = ChangeState::NoChange;
                    },
                }
            },
        }
        let out_batch = Batch {
            epoch: batch_epoch,
            era: batch_era,
            contributions: batch_contributions,
            change,
            pub_keys: self.pub_keys.clone(),
            netinfo: self.honey_badger.netinfo().clone(),
            params: self.honey_badger.params(),
        };
        step.output.push(out_batch);
        Ok(step)
    }

    /// Proposes a user contribution for the next batch. The contribution is
    /// wrapped together with the buffered key generation messages of this
    /// era and our still-unpropagated pending votes, and handed to the
    /// atomic broadcast.
    pub fn propose(&mut self, payload: Vec<u8>) -> (r: Result<Step, Error>)
        requires
            old(self).wf(),
            old(self).headroom(),
        ensures
            final(self).wf(),
            final(self).secret_key == old(self).secret_key,
            final(self).spec_our_id() == old(self).spec_our_id(),
            final(self).era >= old(self).era,
            final(self).spec_next_epoch() >= old(self).spec_next_epoch(),
            match r {
                Ok(step) => {
                    &&& !old(self).honey_badger.has_input_flag
                    &&& old(self).honey_badger.netinfo.spec_is_validator(old(self).spec_our_id())
                    &&& step.output@.len() <= 1
                    &&& (step.output@.len() == 0 ==> final(self).honey_badger.has_input_flag)
                    &&& ((forall|v: u64|
                        old(self).honey_badger.netinfo.validators@.contains(v) ==> v == old(
                            self,
                        ).spec_our_id() || old(self).honey_badger.received.spec_contains_key(v))
                        ==> step.output@.len() == 1)
                    &&& (forall|k: int|
                        0 <= k < step.output@.len() ==> {
                            let b = #[trigger] step.output@[k];
                            &&& b.wf()
                            &&& b.epoch == old(self).spec_next_epoch() + k
                            &&& b.era == old(self).era
                            &&& b.contributions.spec_keys() == old(self).honey_badger.netinfo.validators@
                            &&& b.epoch < final(self).spec_next_epoch()
                            &&& b.pub_keys == final(self).pub_keys
                            &&& b.params == final(self).honey_badger.params
                            &&& (b.change matches ChangeState::Complete(_) ==> final(self).era
                                == b.epoch + 1)
                            &&& (b.change matches ChangeState::Complete(Change::NodeChange(pks))
                                ==> pks.sq() == b.pub_keys.sq())
                            &&& (b.change matches ChangeState::NoChange ==> final(self).era == old(self).era && (match final(self).key_gen_state {
                                Some(kgs) => !kgs.spec_ready(),
                                None => true,
                            }) && crate::votes::spec_winner(
                                final(self).vote_counter.committed.sq(),
                                spec_max_faulty(final(self).pub_keys.sq().len()),
                            ) is None)
                        })
                    &&& step.messages@.len() >= 1
                    &&& (step.messages@[0].message.view()
                        matches crate::messages::MessageV::HoneyBadger(e, hbv) && e == old(self).era && (hbv matches crate::honey_badger::HbMessageV::Propose(ep, c) && {
                        &&& ep == old(self).honey_badger.epoch
                        &&& c.payload == payload@
                        &&& c.key_gen_messages == old(self).key_gen_msg_buffer@
                        &&& c.votes == crate::codec::sv_views(
                            crate::votes::spec_pending_votes(
                                old(self).vote_counter.pending.sq(),
                                old(self).vote_counter.committed.sq(),
                            ),
                        )
                    }))
                },
                Err(e) => e matches Error::ProposeHoneyBadger(_) && (old(self).honey_badger.has_input_flag || !old(self).honey_badger.netinfo.spec_is_validator(
                    old(self).spec_our_id(),
                )),
            },
    {
        let mut key_gen_messages: Vec<SignedKeyGenMsg> = Vec::new();
        let bn = self.key_gen_msg_buffer.len();
        let mut i: usize = 0;
        while i < bn
            invariant
                *self == *old(self),
                self.wf(),
                bn == self.key_gen_msg_buffer@.len(),
                i <= bn,
                key_gen_messages@ == self.key_gen_msg_buffer@.take(i as int),
            decreases bn - i,
        {
            if self.key_gen_msg_buffer[i].era == self.era {
                key_gen_messages.push(self.key_gen_msg_buffer[i]);
            }
            proof {
                assert(key_gen_messages@ =~= self.key_gen_msg_buffer@.take(i + 1));
            }
            i = i + 1;
        }
        proof {
            assert(key_gen_messages@ =~= self.key_gen_msg_buffer@);
        }
        let votes = self.vote_counter.pending_votes();
        let contribution = InternalContrib { payload, key_gen_messages, votes };
        proof {
            assert forall|j: int|
                0 <= j < contribution.view().votes.len() implies crate::votes::signed_vote_v_wf(
                #[trigger] contribution.view().votes[j],
            ) by {
                assert(contribution.view().votes[j] == contribution.votes@[j].view());
            }
        }
        let ghost e0 = self.honey_badger.epoch;
        match self.honey_badger.propose(contribution) {
            Ok((msg, batches)) => {
                let m = Message::HoneyBadger(self.era, msg);
                let mut step = Step::from_broadcast(m);
                let rest = match self.process_output(batches, Ghost(e0)) {
                    Ok(s) => s,
                    Err(e) => {
                        return Err(e);
                    },
                };
                step.extend(rest);
                Ok(step)
            },
            Err(e) => Err(Error::ProposeHoneyBadger(e)),
        }
    }

    /// Casts our vote for a change. A node that is not a validator of the
    /// current era produces an empty step; a validator signs the vote and
    /// broadcasts it.
    pub fn vote_for(&mut self, change: Change) -> (r: Result<Step, Error>)
        requires
            old(self).wf(),
            change.wf(),
            match old(self).vote_counter.pending.spec_get(old(self).spec_our_id()) {
                Some(sv) => sv.vote.num < u64::MAX,
                None => true,
            },
        ensures
            final(self).wf(),
            final(self).era == old(self).era,
            final(self).pub_keys == old(self).pub_keys,
            final(self).secret_key == old(self).secret_key,
            final(self).honey_badger == old(self).honey_badger,
            final(self).key_gen_state == old(self).key_gen_state,
            final(self).vote_counter.committed == old(self).vote_counter.committed,
            match r {
                Ok(step) => {
                    &&& step.output@.len() == 0
                    &&& step.fault_log.sq().len() == 0
                    &&& (if old(self).honey_badger.netinfo.spec_is_validator(
                        old(self).spec_our_id(),
                    ) {
                        &&& step.messages@.len() == 1
                        &&& step.messages@[0].target == crate::step::Target::All
                        &&& (step.messages@[0].message matches Message::SignedVote(sv) && {
                            &&& sv.vote.change == change
                            &&& sv.vote.era == old(self).era
                            &&& sv.voter == old(self).spec_our_id()
                            &&& sv.vote.num == (match old(self).vote_counter.pending.spec_get(
                                old(self).spec_our_id(),
                            ) {
                                Some(p) => (p.vote.num + 1) as u64,
                                None => 0u64,
                            })
                            &&& final(self).vote_counter.pending.spec_get(old(self).spec_our_id())
                                == Some(sv)
                        })
                    } else {
                        step.messages@.len() == 0 && *final(self) == *old(self)
                    })
                },
                Err(_) => false,
            },
    {
        if !self.honey_badger.netinfo().is_validator() {
            return Ok(Step::empty());
        }
        let sv = match self.vote_counter.sing_vote_for(change) {
            Ok(sv) => sv,
            Err(e) => {
                return Err(e);
            },
        };
        Ok(Step::from_broadcast(Message::SignedVote(sv)))
    }

    /// Votes to add a node: our vote names the current key map with the
    /// node's key inserted.
    pub fn vote_to_add(&mut self, node_id: u64, pub_key: PublicKey) -> (r: Result<Step, Error>)
        requires
            old(self).wf(),
            match old(self).vote_counter.pending.spec_get(old(self).spec_our_id()) {
                Some(sv) => sv.vote.num < u64::MAX,
                None => true,
            },
        ensures
            final(self).wf(),
            final(self).era == old(self).era,
            final(self).pub_keys == old(self).pub_keys,
            final(self).honey_badger == old(self).honey_badger,
            match r {
                Ok(step) => {
                    &&& step.output@.len() == 0
                    &&& (old(self).honey_badger.netinfo.spec_is_validator(old(self).spec_our_id())
                        ==> step.messages@.len() == 1 && (step.messages@[0].message
                        matches Message::SignedVote(sv) && sv.vote.era == old(self).era
                        && sv.voter == old(self).spec_our_id() && (sv.vote.change
                        matches Change::NodeChange(m) && m.wf() && m.spec_get(node_id) == Some(
                        pub_key,
                    ) && (forall|v: u64|
                        v != node_id ==> m.spec_get(v) == old(self).pub_keys.spec_get(v)))))
                    &&& (!old(self).honey_badger.netinfo.spec_is_validator(
                        old(self).spec_our_id(),
                    ) ==> step.messages@.len() == 0)
                },
                Err(_) => false,
            },
    {
        let mut new_keys = self.pub_keys.duplicate();
        new_keys.insert(node_id, pub_key);
        self.vote_for(Change::NodeChange(Arc::new(new_keys)))
    }

    /// Votes to remove a node: our vote names the current key map with the
    /// node's key taken out.
    pub fn vote_to_remove(&mut self, node_id: u64) -> (r: Result<Step, Error>)
        requires
            old(self).wf(),
            match old(self).vote_counter.pending.spec_get(old(self).spec_our_id()) {
                Some(sv) => sv.vote.num < u64::MAX,
                None => true,
            },
        ensures
            final(self).wf(),
            final(self).era == old(self).era,
            final(self).pub_keys == old(self).pub_keys,
            final(self).honey_badger == old(self).honey_badger,
            match r {
                Ok(step) => {
                    &&& step.output@.len() == 0
                    &&& (old(self).honey_badger.netinfo.spec_is_validator(old(self).spec_our_id())
                        ==> step.messages@.len() == 1 && (step.messages@[0].message
                        matches Message::SignedVote(sv) && sv.vote.era == old(self).era
                        && sv.voter == old(self).spec_our_id() && (sv.vote.change
                        matches Change::NodeChange(m) && m.wf() && !m.spec_contains_key(node_id)
                        && (forall|v: u64|
                        v != node_id ==> m.spec_get(v) == old(self).pub_keys.spec_get(v)))))
                    &&& (!old(self).honey_badger.netinfo.spec_is_validator(
                        old(self).spec_our_id(),
                    ) ==> step.messages@.len() == 0)
                },
                Err(_) => false,
            },
    {
        let mut new_keys = self.pub_keys.duplicate();
        new_keys.remove(node_id);
        self.vote_for(Change::NodeChange(Arc::new(new_keys)))
    }

    /// Local input: a user contribution becomes a proposal, a change
    /// becomes a vote.
    pub fn handle_input(&mut self, input: Input) -> (r: Result<Step, Error>)
        requires
            old(self).wf(),
            old(self).headroom(),
            match input {
                Input::User(_) => true,
                Input::Change(c) => c.wf() && (match old(self).vote_counter.pending.spec_get(
                    old(self).spec_our_id(),
                ) {
                    Some(sv) => sv.vote.num < u64::MAX,
                    None => true,
                }),
            },
        ensures
            final(self).wf(),
            final(self).secret_key == old(self).secret_key,
            final(self).spec_our_id() == old(self).spec_our_id(),
            final(self).era >= old(self).era,
            final(self).spec_next_epoch() >= old(self).spec_next_epoch(),
            match r {
                Ok(step) => {
                    &&& step.output@.len() <= 1
                    &&& (forall|k: int|
                        0 <= k < step.output@.len() ==> {
                            let b = #[trigger] step.output@[k];
                            &&& b.wf()
                            &&& b.epoch == old(self).spec_next_epoch() + k
                            &&& b.era == old(self).era
                            &&& b.epoch < final(self).spec_next_epoch()
                            &&& b.pub_keys == final(self).pub_keys
                            &&& b.params == final(self).honey_badger.params
                            &&& (b.change matches ChangeState::Complete(_) ==> final(self).era
                                == b.epoch + 1)
                            &&& (b.change matches ChangeState::Complete(Change::NodeChange(pks))
                                ==> pks.sq() == b.pub_keys.sq())
                        })
                },
                Err(_) => true,
            },
            // A user contribution behaves exactly as a proposal.
            match input {
                Input::User(_) => match r {
                    Ok(step) => {
                        &&& !old(self).honey_badger.has_input_flag
                        &&& old(self).honey_badger.netinfo.spec_is_validator(
                            old(self).spec_our_id(),
                        )
                        &&& step.messages@.len() >= 1
                        &&& (step.output@.len() == 0 ==> final(self).honey_badger.has_input_flag)
                        &&& (step.messages@[0].message matches Message::HoneyBadger(e, _) && e
                            == old(self).era)
                    },
                    Err(e) => e matches Error::ProposeHoneyBadger(_) && (old(
                        self,
                    ).honey_badger.has_input_flag
                        || !old(self).honey_badger.netinfo.spec_is_validator(
                        old(self).spec_our_id(),
                    )),
                },
                // A change proposal behaves exactly as a vote and never fails.
                Input::Change(c) => match r {
                    Ok(step) => {
                        &&& step.output@.len() == 0
                        &&& step.fault_log.sq().len() == 0
                        &&& final(self).honey_badger == old(self).honey_badger
                        &&& final(self).vote_counter.committed == old(self).vote_counter.committed
                        &&& (if old(self).honey_badger.netinfo.spec_is_validator(
                            old(self).spec_our_id(),
                        ) {
                            &&& step.messages@.len() == 1
                            &&& (step.messages@[0].message matches Message::SignedVote(sv) && {
                                &&& sv.vote.change == c
                                &&& sv.vote.era == old(self).era
                                &&& sv.voter == old(self).spec_our_id()
                                &&& final(self).vote_counter.pending.spec_get(
                                    old(self).spec_our_id(),
                                ) == Some(sv)
                            })
                        } else {
                            step.messages@.len() == 0 && *final(self) == *old(self)
                        })
                    },
                    Err(_) => false,
                },
            },
    {
        match input {
            Input::User(payload) => self.propose(payload),
            Input::Change(change) => self.vote_for(change),
        }
    }

    /// Handles a message from a peer. A message from a future era is a
    /// fault against the sender; one from a finished era is silently
    /// dropped; one for the current era is dispatched by kind.
    pub fn handle_message(&mut self, sender_id: u64, message: Message) -> (r: Result<Step, Error>)
        requires
            old(self).wf(),
            old(self).headroom(),
            message.wf(),
        ensures
            final(self).wf(),
            final(self).secret_key == old(self).secret_key,
            final(self).spec_our_id() == old(self).spec_our_id(),
            final(self).era >= old(self).era,
            final(self).spec_next_epoch() >= old(self).spec_next_epoch(),
            message.spec_era() > old(self).era ==> *final(self) == *old(self) && (r matches Ok(
                step,
            ) && step.messages@.len() == 0 && step.output@.len() == 0 && step.fault_log.sq()
                == seq![
                crate::fault::Fault {
                    node_id: sender_id,
                    kind: FaultKind::UnexpectedDhbMessageEra,
                },
            ]),
            message.spec_era() < old(self).era ==> *final(self) == *old(self) && (r matches Ok(
                step,
            ) && step.is_empty_spec()),
            message.spec_era() == old(self).era ==> match r {
                Ok(step) => {
                    &&& step.output@.len() <= 1
                    &&& (forall|k: int|
                        0 <= k < step.output@.len() ==> {
                            let b = #[trigger] step.output@[k];
                            &&& b.wf()
                            &&& b.epoch == old(self).spec_next_epoch() + k
                            &&& b.era == old(self).era
                            &&& b.epoch < final(self).spec_next_epoch()
                            &&& b.pub_keys == final(self).pub_keys
                            &&& b.params == final(self).honey_badger.params
                            &&& (b.change matches ChangeState::Complete(_) ==> final(self).era
                                == b.epoch + 1)
                            &&& (b.change matches ChangeState::Complete(Change::NodeChange(pks))
                                ==> pks.sq() == b.pub_keys.sq())
                            &&& (b.change matches ChangeState::NoChange ==> (match final(self).key_gen_state {
                                Some(kgs) => !kgs.spec_ready(),
                                None => true,
                            }) && crate::votes::spec_winner(
                                final(self).vote_counter.committed.sq(),
                                spec_max_faulty(final(self).pub_keys.sq().len()),
                            ) is None)
                        })
                    &&& (message matches Message::HoneyBadger(_, hbm) ==> {
                        if !old(self).honey_badger.netinfo.spec_is_validator(sender_id) {
                            r == Err::<Step, Error>(Error::UnknownSender) && *final(self) == *old(self)
                        } else {
                            let e = hbm->Propose_0;
                            let c = hbm->Propose_1;
                            let hb0 = old(self).honey_badger;
                            &&& (e < hb0.epoch ==> step.is_empty_spec() && *final(self) == *old(self))
                            &&& (e > hb0.epoch + hb0.params.max_future_epochs ==> step.output@.len()
                                == 0 && step.messages@.len() == 0 && step.fault_log.sq() == seq![
                                crate::fault::Fault {
                                    node_id: sender_id,
                                    kind: FaultKind::HbFault(
                                        crate::fault::HbFaultKind::UnexpectedEpoch,
                                    ),
                                },
                            ] && *final(self) == *old(self))
                            &&& (e == hb0.epoch && hb0.received.spec_contains_key(sender_id)
                                ==> step.output@.len() == 0 && step.messages@.len() == 0
                                && step.fault_log.sq() == seq![
                                crate::fault::Fault {
                                    node_id: sender_id,
                                    kind: FaultKind::HbFault(
                                        crate::fault::HbFaultKind::MultipleProposals,
                                    ),
                                },
                            ] && *final(self) == *old(self))
                            &&& (e == hb0.epoch && !hb0.received.spec_contains_key(sender_id)
                                ==> step.output@.len() == 1 || final(self).honey_badger.received.spec_get(sender_id) == Some(c))
                            &&& (e == hb0.epoch && !hb0.received.spec_contains_key(sender_id) && (
                            forall|v: u64|
                                hb0.netinfo.validators@.contains(v) ==> v == sender_id
                                    || hb0.received.spec_contains_key(v)) ==> step.output@.len()
                                == 1)
                            &&& (hb0.epoch < e <= hb0.epoch + hb0.params.max_future_epochs ==> {
                                &&& step.output@.len() == 0
                                &&& step.messages@.len() == 0
                                &&& (if exists|k: int|
                                    0 <= k < hb0.buffered@.len() && (#[trigger] hb0.buffered@[
                                    k]).0 == e && hb0.buffered@[k].1 == sender_id {
                                    step.fault_log.sq() == seq![
                                        crate::fault::Fault {
                                            node_id: sender_id,
                                            kind: FaultKind::HbFault(
                                                crate::fault::HbFaultKind::MultipleProposals,
                                            ),
                                        },
                                    ] && *final(self) == *old(self)
                                } else {
                                    step.fault_log.sq().len() == 0 && final(self).honey_badger.buffered@ == hb0.buffered@.push((e, sender_id, c))
                                })
                            })
                        }
                    })
                    &&& (message matches Message::KeyGen(_, kg, sig) ==> {
                        &&& step.output@.len() == 0
                        &&& step.messages@.len() == 0
                        &&& ({
                            let valid = old(self).valid_under_current(
                                sender_id,
                                sig,
                                crate::codec::enc_kg_msg(kg),
                            ) || old(self).valid_under_candidate(
                                sender_id,
                                sig,
                                crate::codec::enc_kg_msg(kg),
                            );
                            if !valid {
                                step.fault_log.sq() == seq![
                                    crate::fault::Fault {
                                        node_id: sender_id,
                                        kind: FaultKind::InvalidKeyGenMessageSignature,
                                    },
                                ] && *final(self) == *old(self)
                            } else if old(self).key_gen_state is None {
                                step.fault_log.sq() == seq![
                                    crate::fault::Fault {
                                        node_id: sender_id,
                                        kind: FaultKind::UnexpectedKeyGenMessage,
                                    },
                                ] && *final(self) == *old(self)
                            } else {
                                step.fault_log.sq() == Seq::<crate::fault::Fault>::empty()
                                    || step.fault_log.sq() == seq![
                                    crate::fault::Fault {
                                        node_id: sender_id,
                                        kind: FaultKind::TooManyKeyGenMessages,
                                    },
                                ]
                            }
                        })
                    })
                    &&& (message matches Message::SignedVote(sv) ==> {
                        &&& step.output@.len() == 0
                        &&& step.messages@.len() == 0
                        &&& final(self).vote_counter.committed == old(self).vote_counter.committed
                        &&& ({
                            let stale = sv.vote.era != old(self).era || (match old(self).vote_counter.pending.spec_get(sv.voter) {
                                Some(p) => p.vote.num >= sv.vote.num,
                                None => false,
                            });
                            let valid = crate::votes::sv_valid(old(self).pub_keys.sq(), sv.view());
                            if stale {
                                step.fault_log.sq().len() == 0 && final(self).vote_counter.pending
                                    == old(self).vote_counter.pending
                            } else if !valid {
                                step.fault_log.sq() == seq![
                                    crate::fault::Fault {
                                        node_id: sender_id,
                                        kind: FaultKind::InvalidVoteSignature,
                                    },
                                ] && final(self).vote_counter.pending == old(self).vote_counter.pending
                            } else {
                                final(self).vote_counter.pending.spec_get(sv.voter) == Some(sv)
                            }
                        })
                    })
                },
                Err(e) => e == Error::UnknownSender && (message matches Message::HoneyBadger(_, _))
                    && !old(self).honey_badger.netinfo.spec_is_validator(sender_id) && *final(self)
                    == *old(self),
            },
            message.spec_era() == old(self).era && (message matches Message::HoneyBadger(_, _))
                ==> (r is Err <==> !old(self).honey_badger.netinfo.spec_is_validator(sender_id)),
    {
        let era = message.era();
        if era > self.era {
            return Ok(Step::from_fault(sender_id, FaultKind::UnexpectedDhbMessageEra));
        }
        if era < self.era {
            return Ok(Step::empty());
        }
        match message {
            Message::HoneyBadger(_, hb_msg) => {
                if !self.honey_badger.netinfo().is_node_validator(sender_id) {
                    return Err(Error::UnknownSender);
                }
                let ghost e0 = self.honey_badger.epoch;
                let (fault, batches) = self.honey_badger.handle_message(sender_id, hb_msg);
                let mut step = match fault {
                    Some(k) => Step::from_fault(sender_id, FaultKind::HbFault(k)),
                    None => Step::empty(),
                };
                let rest = match self.process_output(batches, Ghost(e0)) {
                    Ok(s) => s,
                    Err(e) => {
                        return Err(e);
                    },
                };
                step.extend(rest);
                Ok(step)
            },
            Message::KeyGen(_, kg, sig) => self.handle_key_gen_message(sender_id, kg, sig),
            Message::SignedVote(sv) => {
                let log = match self.vote_counter.add_pending_vote(sender_id, sv) {
                    Ok(l) => l,
                    Err(e) => {
                        return Err(e);
                    },
                };
                let mut step = Step::empty();
                step.fault_log.extend(log);
                Ok(step)
            },
        }
    }

    /// Whether it is worth proposing now: we have no proposal in flight,
    /// and either enough peers have proposed that we are not first, or we
    /// hold unpropagated votes, or buffered key generation messages wait to
    /// ride along.
    pub fn should_propose(&self) -> (b: bool)
        requires
            self.wf(),
        ensures
            b <==> !self.honey_badger.has_input_flag && (self.honey_badger.received.sq().len()
                > spec_max_faulty(self.honey_badger.netinfo.validators@.len()) || (exists|i: int|
                0 <= i < crate::votes::spec_pending_votes(
                    self.vote_counter.pending.sq(),
                    self.vote_counter.committed.sq(),
                ).len() && (#[trigger] crate::votes::spec_pending_votes(
                    self.vote_counter.pending.sq(),
                    self.vote_counter.committed.sq(),
                )[i]).voter == self.spec_our_id()) || self.key_gen_msg_buffer@.len() > 0),
    {
        if self.honey_badger.has_input() {
            return false;
        }
        if self.honey_badger.received_proposals() > self.honey_badger.netinfo().num_faulty() {
            return true;
        }
        let our_id = self.our_id();
        let pv = self.vote_counter.pending_votes();
        let n = pv.len();
        let mut i: usize = 0;
        while i < n
            invariant
                n == pv@.len(),
                i <= n,
                our_id == self.spec_our_id(),
                !self.honey_badger.has_input_flag,
                pv@ == crate::votes::spec_pending_votes(
                    self.vote_counter.pending.sq(),
                    self.vote_counter.committed.sq(),
                ),
                forall|j: int| 0 <= j < i ==> (#[trigger] pv@[j]).voter != our_id,
            decreases n - i,
        {
            if pv[i].voter == our_id {
                proof {
                    assert((#[trigger] crate::votes::spec_pending_votes(
                        self.vote_counter.pending.sq(),
                        self.vote_counter.committed.sq(),
                    )[i as int]).voter == self.spec_our_id());
                }
                return true;
            }
            i = i + 1;
        }
        proof {
            assert(forall|j: int|
                0 <= j < pv@.len() ==> (#[trigger] pv@[j]).voter != self.spec_our_id());
        }
        self.key_gen_msg_buffer.len() > 0
    }

    /// An engine for a node joining at the era a join plan describes. The
    /// plan is validated first: a completed change must be consistent with
    /// the plan itself. The joiner has no threshold key share yet; if the
    /// plan says a key generation run is in progress, the joiner starts its
    /// own run against the new key map at once.
    pub fn new_joining(our_id: u64, secret_key: SecretKey, join_plan: JoinPlan) -> (r: Result<
        (Self, Step),
        Error,
    >)
        requires
            join_plan.wf(),
            join_plan.pub_keys.sq().len() >= 1,
        ensures
            match r {
                Ok(t) => {
                    &&& t.0.wf()
                    &&& t.0.era == join_plan.era
                    &&& t.0.pub_keys.sq() == join_plan.pub_keys.sq()
                    &&& t.0.honey_badger.params == join_plan.params
                    &&& t.0.honey_badger.epoch == 0
                    &&& t.0.secret_key == secret_key
                    &&& t.0.spec_our_id() == our_id
                    &&& t.0.honey_badger.netinfo.public_key_set == join_plan.pub_key_set
                    &&& t.0.honey_badger.netinfo.secret_key_share is None
                    &&& (match join_plan.change {
                        ChangeState::InProgress(Change::NodeChange(pks)) => match t
                            .0
                            .key_gen_state {
                            Some(kgs) => kgs.key_gen.pub_keys.sq() == pks.sq(),
                            None => false,
                        },
                        _ => t.0.key_gen_state is None,
                    })
                    &&& t.1.output@.len() == 0
                    &&& t.1.fault_log.sq().len() == 0
                    &&& (match join_plan.change {
                        ChangeState::InProgress(Change::NodeChange(pks)) => (if pks.spec_contains_key(our_id) {
                            let part = crate::key_gen::Part {
                                commit: crate::key_gen::spec_commit(secret_key),
                            };
                            t.1.messages@.len() == 1 && t.1.messages@[0].target
                                == crate::step::Target::All && t.1.messages@[0].message
                                == Message::KeyGen(
                                join_plan.era,
                                KeyGenMessage::Part(part),
                                spec_sign(
                                    secret_key,
                                    crate::codec::enc_kg_msg(KeyGenMessage::Part(part)),
                                ),
                            )
                        } else {
                            t.1.messages@.len() == 0
                        }),
                        _ => t.1.messages@.len() == 0,
                    })
                },
                Err(e) => e == Error::InvalidJoinPlan && (match join_plan.change {
                    ChangeState::Complete(Change::EncryptionSchedule(s)) => s
                        != join_plan.params.encryption_schedule,
                    ChangeState::Complete(Change::NodeChange(pks)) => pks.sq()
                        != join_plan.pub_keys.sq(),
                    _ => false,
                }),
            },
    {
        let JoinPlan { era, change, pub_keys, pub_key_set, params } = join_plan;
        let new_pub_keys_opt: Option<PubKeyMap> = match &change {
            ChangeState::InProgress(Change::EncryptionSchedule(_)) => None,
            ChangeState::NoChange => None,
            ChangeState::InProgress(Change::NodeChange(pks)) => Some(pks.clone()),
            ChangeState::Complete(c) => {
                let valid = match c {
                    Change::EncryptionSchedule(schedule) => *schedule
                        == params.encryption_schedule,
                    Change::NodeChange(new_pub_keys) => key_map_eq(new_pub_keys, &pub_keys),
                };
                if !valid {
                    return Err(Error::InvalidJoinPlan);
                }
                None
            },
        };
        proof {
            assert forall|a: int, b: int|
                0 <= a < b < pub_keys.spec_keys().len() implies pub_keys.spec_keys()[a]
                < pub_keys.spec_keys()[b] by {
                assert(pub_keys.spec_keys()[a] == pub_keys.sq()[a].0);
                assert(pub_keys.spec_keys()[b] == pub_keys.sq()[b].0);
            }
        }
        let validators = pub_keys.keys_vec();
        let netinfo = Arc::new(NetworkInfo::new(our_id, None, pub_key_set, validators));
        let mut dhb = DynamicHoneyBadger::new(secret_key, pub_keys, netinfo, params, era, 0);
        let step = match new_pub_keys_opt {
            Some(new_pub_keys) => {
                match dhb.update_key_gen(era, new_pub_keys, Ghost(DkgReason::Joined)) {
                    Ok(s) => s,
                    Err(e) => {
                        return Err(e);
                    },
                }
            },
            None => Step::empty(),
        };
        Ok((dhb, step))
    }
}

/// A node that builds its engine from a batch's join plan reaches exactly
/// the world the batch published: the era right after the batch, the
/// batch's validator key map, its threshold key set and its configuration.
/// The hypotheses are exactly what `Batch::join_plan` and `new_joining`
/// ensure, so the two calls compose into this round trip.
pub proof fn lemma_join_plan_round_trip(b: Batch, p: JoinPlan, e: DynamicHoneyBadger)
    requires
        p.era == b.epoch + 1,
        p.change.view() == b.change.view(),
        p.pub_keys.sq() == b.pub_keys.sq(),
        p.pub_key_set == b.netinfo.public_key_set,
        p.params == b.params,
        e.era == p.era,
        e.pub_keys.sq() == p.pub_keys.sq(),
        e.honey_badger.params == p.params,
        e.honey_badger.netinfo.public_key_set == p.pub_key_set,
    ensures
        e.era == b.epoch + 1,
        e.pub_keys.sq() == b.pub_keys.sq(),
        e.honey_badger.params == b.params,
        e.honey_badger.netinfo.public_key_set == b.netinfo.public_key_set,
{
}

/// A node change appears as in progress or complete only with backing:
/// the run behind it was started either by a join plan naming it, or by a
/// vote witness — and a vote witness always holds strictly more committed
/// votes naming exactly that key map than the number of faulty validators
/// the witnessed key map tolerates. The vote counter's contracts add that
/// every committed vote carried a verified signature for the right era and
/// that each voter holds at most one committed vote.
pub proof fn lemma_change_needs_backing(reason: DkgReason, new_keys: Seq<(u64, PublicKey)>)
    requires
        reason_justifies(reason, new_keys),
    ensures
        reason matches DkgReason::Voted { committed, keys } ==> crate::votes::count_votes_for(
            committed,
            crate::change::ChangeV::NodeChange(new_keys),
        ) > spec_max_faulty(keys.len()),
{
    match reason {
        DkgReason::Voted { committed, keys } => {
            crate::votes::lemma_winner_count(
                committed,
                spec_max_faulty(keys.len()),
                committed.len() as nat,
                crate::change::ChangeV::NodeChange(new_keys),
            );
        },
        _ => {},
    }
}

/// Batches are emitted in strictly increasing epoch over the engine's whole
/// life: every batch of one call lies strictly below the engine's next
/// epoch afterwards, and every batch of a later call lies at or above it.
/// So any batch emitted earlier has a strictly smaller epoch than any batch
/// emitted later, and epochs within one call already increase strictly.
pub proof fn lemma_epochs_strictly_increase(
    mid: DynamicHoneyBadger,
    out1: Seq<Batch>,
    out2: Seq<Batch>,
)
    requires
        forall|k: int| 0 <= k < out1.len() ==> (#[trigger] out1[k]).epoch < mid.spec_next_epoch(),
        forall|k: int| 0 <= k < out2.len() ==> (#[trigger] out2[k]).epoch >= mid.spec_next_epoch(),
    ensures
        forall|i: int, j: int|
            0 <= i < out1.len() && 0 <= j < out2.len() ==> (#[trigger] out1[i]).epoch < (
            #[trigger] out2[j]).epoch,
{
}

/// The era never exceeds the epoch in any well-formed batch, and between a
/// batch that completes a change and every batch after it the era strictly
/// increases: the completing batch's era is its emission era, while the
/// engine's era right afterwards is already one above the batch's epoch.
pub proof fn lemma_era_advances_on_complete(
    after: DynamicHoneyBadger,
    b: Batch,
    later: Seq<Batch>,
)
    requires
        b.wf(),
        b.change matches ChangeState::Complete(_),
        after.era == b.epoch + 1,
        forall|k: int| 0 <= k < later.len() ==> (#[trigger] later[k]).era >= after.era,
    ensures
        b.era <= b.epoch,
        forall|k: int| 0 <= k < later.len() ==> (#[trigger] later[k]).era > b.era,
{
}

} // verus!
