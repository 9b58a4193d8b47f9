//! One run of synchronous distributed key generation. The run is a
//! deterministic state machine over committed `Part` and `Ack` messages: every
//! correct node feeds it the same messages in the same order, so every node
//! derives the same threshold key set. The dealing itself is a stand-in:
//! a part carries one commitment word and an ack echoes it back, which keeps
//! the bookkeeping — budgets, readiness, completion counting — exact.

use vstd::prelude::*;
use crate::change::PubKeyMap;
use crate::crypto::{PublicKeySet, SecretKey, SecretKeyShare};
use crate::fault::KgError;
use crate::ordmap::OrderedMap;

verus! {

/// A dealer's opening message in a key generation run.
#[derive(Clone, Copy, PartialEq, Eq, Structural, Debug)]
pub struct Part {
    pub commit: u64,
}

/// A validator's acknowledgement of one dealer's part.
#[derive(Clone, Copy, PartialEq, Eq, Structural, Debug)]
pub struct Ack {
    pub part_owner: u64,
    pub echo: u64,
}

/// Why a part was rejected; attributed to its sender.
#[derive(Clone, Copy, PartialEq, Eq, Structural, Debug)]
pub enum PartFault {
    UnknownSender,
    MismatchedPart,
}

/// Why an ack was rejected; attributed to its sender.
#[derive(Clone, Copy, PartialEq, Eq, Structural, Debug)]
pub enum AckFault {
    UnknownSender,
    UnknownPartOwner,
    WrongEcho,
}

pub enum PartOutcome {
    Valid(Option<Ack>),
    Invalid(PartFault),
}

pub enum AckOutcome {
    Valid,
    Invalid(AckFault),
}

/// The commitment a dealer derives from its long-term secret key. A real
/// dealing would commit to a fresh polynomial; one word keeps the
/// bookkeeping exact while staying deterministic per dealer.
pub open spec fn spec_commit(sk: SecretKey) -> u64 {
    sk.val
}

/// One synchronous key generation run over committed messages.
pub struct SyncKeyGen {
    pub our_id: u64,
    pub sec_key: SecretKey,
    pub pub_keys: PubKeyMap,
    pub threshold: u64,
    /// Each dealer's committed part, by dealer id.
    pub parts: OrderedMap<u64>,
    /// Per dealer, the set of validators that acknowledged its part.
    pub acks: OrderedMap<OrderedMap<bool>>,
}

impl SyncKeyGen {
    pub open spec fn wf(self) -> bool {
        &&& self.pub_keys.wf()
        &&& self.parts.wf()
        &&& self.acks.wf()
        &&& forall|i: int| 0 <= i < self.acks.sq().len() ==> (#[trigger] self.acks.sq()[i]).1.wf()
        &&& forall|i: int|
            0 <= i < self.parts.sq().len() ==> self.pub_keys.spec_contains_key(
                (#[trigger] self.parts.sq()[i]).0,
            )
    }

    /// How many validators acknowledged a dealer's part.
    pub open spec fn spec_ack_count(self, owner: u64) -> nat {
        match self.acks.spec_get(owner) {
            Some(m) => m.sq().len() as nat,
            None => 0,
        }
    }

    /// A dealer's part is complete once strictly more than `threshold`
    /// validators acknowledged it.
    pub open spec fn spec_complete(self, owner: u64) -> bool {
        self.parts.spec_contains_key(owner) && self.spec_ack_count(owner) > self.threshold
    }

    /// How many dealers among the first `n` parts are complete.
    pub open spec fn count_complete_upto(self, n: nat) -> nat
        decreases n,
    {
        if n == 0 || n > self.parts.sq().len() {
            0
        } else {
            self.count_complete_upto((n - 1) as nat) + (if self.spec_complete(
                self.parts.sq()[n - 1].0,
            ) {
                1nat
            } else {
                0nat
            })
        }
    }

    pub open spec fn spec_count_complete(self) -> nat {
        self.count_complete_upto(self.parts.sq().len() as nat)
    }

    /// The group value: the exclusive-or of the commitments of all
    /// complete dealers, scanned in dealer order.
    pub open spec fn group_val_upto(self, n: nat) -> u64
        decreases n,
    {
        if n == 0 || n > self.parts.sq().len() {
            0
        } else {
            let acc = self.group_val_upto((n - 1) as nat);
            if self.spec_complete(self.parts.sq()[n - 1].0) {
                acc ^ self.parts.sq()[n - 1].1
            } else {
                acc
            }
        }
    }

    pub open spec fn spec_group_val(self) -> u64 {
        self.group_val_upto(self.parts.sq().len() as nat)
    }

    /// Starts a run. The returned part is our opening message; a node that
    /// is not a validator of the new key map observes without dealing.
    pub fn new(our_id: u64, sec_key: SecretKey, pub_keys: PubKeyMap, threshold: u64) -> (r: (
        Self,
        Option<Part>,
    ))
        requires
            pub_keys.wf(),
        ensures
            r.0.wf(),
            r.0.our_id == our_id,
            r.0.sec_key == sec_key,
            r.0.pub_keys == pub_keys,
            r.0.threshold == threshold,
            r.0.parts.sq() == Seq::<(u64, u64)>::empty(),
            r.0.acks.sq() == Seq::<(u64, OrderedMap<bool>)>::empty(),
            r.1 == if pub_keys.spec_contains_key(our_id) {
                Some(Part { commit: spec_commit(sec_key) })
            } else {
                None::<Part>
            },
    {
        let part = if pub_keys.contains_key(our_id) {
            Some(Part { commit: sec_key.val })
        } else {
            None
        };
        let kg = SyncKeyGen {
            our_id,
            sec_key,
            pub_keys,
            threshold,
            parts: OrderedMap::new(),
            acks: OrderedMap::new(),
        };
        (kg, part)
    }

    pub fn public_keys(&self) -> (r: &PubKeyMap)
        ensures
            r == &self.pub_keys,
    {
        &self.pub_keys
    }

    pub fn num_nodes(&self) -> (n: usize)
        ensures
            n == self.pub_keys.sq().len(),
    {
        self.pub_keys.len()
    }

    /// Handles one dealer's committed part. An unknown dealer is a fault; a
    /// changed re-deal is a fault; a repeat of the same part is ignored;
    /// otherwise the part is recorded, and if we are a validator of the new
    /// key map we answer with an acknowledgement.
    pub fn handle_part(&mut self, sender_id: u64, part: Part) -> (r: PartOutcome)
        requires
            old(self).wf(),
        ensures
            final(self).wf(),
            final(self).our_id == old(self).our_id,
            final(self).sec_key == old(self).sec_key,
            final(self).pub_keys == old(self).pub_keys,
            final(self).threshold == old(self).threshold,
            final(self).acks == old(self).acks,
            ({
                let known = old(self).pub_keys.spec_contains_key(sender_id);
                let prior = old(self).parts.spec_get(sender_id);
                match r {
                    PartOutcome::Valid(ack) => {
                        &&& known
                        &&& (match prior {
                            Some(c) => c == part.commit && *final(self) == *old(self) && ack
                                is None,
                            None => {
                                &&& final(self).parts.spec_get(sender_id) == Some(part.commit)
                                &&& (forall|v: u64|
                                    v != sender_id ==> final(self).parts.spec_get(v) == old(self).parts.spec_get(v))
                                &&& ack == if old(self).pub_keys.spec_contains_key(
                                    old(self).our_id,
                                ) {
                                    Some(Ack { part_owner: sender_id, echo: part.commit })
                                } else {
                                    None::<Ack>
                                }
                            },
                        })
                    },
                    PartOutcome::Invalid(f) => {
                        &&& *final(self) == *old(self)
                        &&& (match f {
                            PartFault::UnknownSender => !known,
                            PartFault::MismatchedPart => known && prior is Some && prior
                                != Some(part.commit),
                        })
                    },
                }
            }),
    {
        if !self.pub_keys.contains_key(sender_id) {
            return PartOutcome::Invalid(PartFault::UnknownSender);
        }
        match self.parts.get(sender_id) {
            Some(c) => {
                if *c == part.commit {
                    PartOutcome::Valid(None)
                } else {
                    PartOutcome::Invalid(PartFault::MismatchedPart)
                }
            },
            None => {
                let ghost parts0 = self.parts;
                self.parts.insert(sender_id, part.commit);
                proof {
                    self.parts.lemma_all_entries();
                    assert forall|i: int|
                        0 <= i < self.parts.sq().len() implies self.pub_keys.spec_contains_key(
                        (#[trigger] self.parts.sq()[i]).0,
                    ) by {
                        let k = self.parts.sq()[i].0;
                        if k != sender_id {
                            assert(self.parts.spec_get(k) == parts0.spec_get(k));
                            assert(parts0.spec_contains_key(k));
                            let j = parts0.spec_index_of(k);
                            assert(0 <= j < parts0.sq().len() && parts0.sq()[j].0 == k);
                            crate::ordmap::lemma_kseq_index_unique(parts0.sq(), k, j);
                        }
                    }
                }
                if self.pub_keys.contains_key(self.our_id) {
                    PartOutcome::Valid(Some(Ack { part_owner: sender_id, echo: part.commit }))
                } else {
                    PartOutcome::Valid(None)
                }
            },
        }
    }

    /// Handles one validator's committed acknowledgement. Unknown senders,
    /// acknowledgements for parts we have not seen, and echoes that do not
    /// match the recorded part are faults; otherwise the sender joins the
    /// part's acknowledgement set.
    pub fn handle_ack(&mut self, sender_id: u64, ack: Ack) -> (r: AckOutcome)
        requires
            old(self).wf(),
        ensures
            final(self).wf(),
            final(self).our_id == old(self).our_id,
            final(self).sec_key == old(self).sec_key,
            final(self).pub_keys == old(self).pub_keys,
            final(self).threshold == old(self).threshold,
            final(self).parts == old(self).parts,
            ({
                let known = old(self).pub_keys.spec_contains_key(sender_id);
                let part = old(self).parts.spec_get(ack.part_owner);
                match r {
                    AckOutcome::Valid => {
                        &&& known
                        &&& part == Some(ack.echo)
                        &&& (match final(self).acks.spec_get(ack.part_owner) {
                            Some(m) => {
                                &&& m.wf()
                                &&& m.spec_get(sender_id) == Some(true)
                                &&& (forall|v: u64|
                                    v != sender_id ==> m.spec_get(v) == (match old(self).acks.spec_get(ack.part_owner) {
                                        Some(m0) => m0.spec_get(v),
                                        None => None::<bool>,
                                    }))
                                &&& m.sq().len() == (match old(self).acks.spec_get(
                                    ack.part_owner,
                                ) {
                                    Some(m0) => m0.sq().len() + (if m0.spec_contains_key(
                                        sender_id,
                                    ) {
                                        0int
                                    } else {
                                        1int
                                    }),
                                    None => 1int,
                                })
                            },
                            None => false,
                        })
                        &&& (forall|o: u64|
                            o != ack.part_owner ==> final(self).acks.spec_get(o) == old(self).acks.spec_get(o))
                    },
                    AckOutcome::Invalid(f) => {
                        &&& *final(self) == *old(self)
                        &&& (match f {
                            AckFault::UnknownSender => !known,
                            AckFault::UnknownPartOwner => known && part is None,
                            AckFault::WrongEcho => known && part is Some && part != Some(
                                ack.echo,
                            ),
                        })
                    },
                }
            }),
    {
        if !self.pub_keys.contains_key(sender_id) {
            return AckOutcome::Invalid(AckFault::UnknownSender);
        }
        let part = match self.parts.get(ack.part_owner) {
            Some(c) => *c,
            None => {
                return AckOutcome::Invalid(AckFault::UnknownPartOwner);
            },
        };
        if part != ack.echo {
            return AckOutcome::Invalid(AckFault::WrongEcho);
        }
        let mut set = match self.acks.get(ack.part_owner) {
            Some(m) => m.duplicate(),
            None => OrderedMap::new(),
        };
        let ghost set0 = set;
        set.insert(sender_id, true);
        let ghost acks0 = self.acks;
        let owner = ack.part_owner;
        self.acks.insert(owner, set);
        proof {
            self.acks.lemma_all_entries();
            assert forall|i: int| 0 <= i < self.acks.sq().len() implies (#[trigger] self
                .acks
                .sq()[i]).1.wf() by {
                let k = self.acks.sq()[i].0;
                if k == owner {
                } else {
                    assert(self.acks.spec_get(k) == acks0.spec_get(k));
                    assert(acks0.spec_contains_key(k));
                    let j = acks0.spec_index_of(k);
                    assert(0 <= j < acks0.sq().len() && acks0.sq()[j].0 == k);
                    crate::ordmap::lemma_kseq_index_unique(acks0.sq(), k, j);
                }
            }
        }
        AckOutcome::Valid
    }

    /// How many dealers have a complete part.
    pub fn count_complete(&self) -> (n: usize)
        requires
            self.wf(),
        ensures
            n == self.spec_count_complete(),
            n <= self.parts.sq().len(),
    {
        let pn = self.parts.len();
        let mut count: usize = 0;
        let mut i: usize = 0;
        while i < pn
            invariant
                self.wf(),
                pn == self.parts.sq().len(),
                i <= pn,
                count == self.count_complete_upto(i as nat),
                count <= i,
            decreases pn - i,
        {
            let owner = self.parts.key_at(i);
            let complete = match self.acks.get(owner) {
                Some(m) => {
                    let c = m.len() as u128;
                    c > self.threshold as u128
                },
                None => false,
            };
            proof {
                assert(complete == self.spec_complete(owner)) by {
                    crate::ordmap::lemma_kseq_index_unique(self.parts.sq(), owner, i as int);
                }
            }
            if complete {
                count = count + 1;
            }
            i = i + 1;
        }
        count
    }

    /// Whether the run itself considers key generation finished: strictly
    /// more complete dealers than the tolerated number of faulty nodes.
    pub fn is_ready(&self) -> (b: bool)
        requires
            self.wf(),
        ensures
            b <==> self.spec_count_complete() > self.threshold,
    {
        let c = self.count_complete();
        (c as u128) > (self.threshold as u128)
    }

    /// Derives the era's threshold key set, and our share of its secret
    /// key when we are a validator of the new key map. Every node that
    /// processed the same committed messages derives the same key set.
    pub fn generate(&self) -> (r: Result<(PublicKeySet, Option<SecretKeyShare>), KgError>)
        requires
            self.wf(),
        ensures
            match r {
                Ok(t) => {
                    &&& t.0 == (PublicKeySet {
                        threshold: self.threshold,
                        val: self.spec_group_val(),
                    })
                    &&& t.1 == if self.pub_keys.spec_contains_key(self.our_id) {
                        Some(SecretKeyShare { val: self.spec_group_val() ^ self.our_id })
                    } else {
                        None::<SecretKeyShare>
                    }
                },
                Err(_) => false,
            },
    {
        let pn = self.parts.len();
        let mut val: u64 = 0;
        let mut i: usize = 0;
        while i < pn
            invariant
                self.wf(),
                pn == self.parts.sq().len(),
                i <= pn,
                val == self.group_val_upto(i as nat),
            decreases pn - i,
        {
            let owner = self.parts.key_at(i);
            let commit = *self.parts.val_at(i);
            let complete = match self.acks.get(owner) {
                Some(m) => {
                    let c = m.len() as u128;
                    c > self.threshold as u128
                },
                None => false,
            };
            proof {
                assert(complete == self.spec_complete(owner)) by {
                    crate::ordmap::lemma_kseq_index_unique(self.parts.sq(), owner, i as int);
                }
            }
            if complete {
                val = val ^ commit;
            }
            i = i + 1;
        }
        let pk_set = PublicKeySet { threshold: self.threshold, val };
        let share = if self.pub_keys.contains_key(self.our_id) {
            Some(SecretKeyShare { val: val ^ self.our_id })
        } else {
            None
        };
        Ok((pk_set, share))
    }
}

/// One key generation run together with per-sender message budgets.
pub struct KeyGenState {
    pub key_gen: SyncKeyGen,
    pub msg_count: OrderedMap<u64>,
}

impl KeyGenState {
    pub open spec fn wf(self) -> bool {
        self.key_gen.wf() && self.msg_count.wf()
    }

    /// Readiness of the whole run: the run itself reports ready, and
    /// complete dealers are over two thirds of the participants.
    pub open spec fn spec_ready(self) -> bool {
        self.key_gen.spec_count_complete() > self.key_gen.threshold && 3
            * self.key_gen.spec_count_complete() > 2 * self.key_gen.pub_keys.sq().len()
    }

    pub fn new(key_gen: SyncKeyGen) -> (r: Self)
        requires
            key_gen.wf(),
        ensures
            r.wf(),
            r.key_gen == key_gen,
            r.msg_count.sq() == Seq::<(u64, u64)>::empty(),
    {
        KeyGenState { key_gen, msg_count: OrderedMap::new() }
    }

    /// Ready means the run reports itself ready and, more strictly,
    /// complete dealers are over two thirds of the participants.
    pub fn is_ready(&self) -> (b: bool)
        requires
            self.wf(),
        ensures
            b <==> self.spec_ready(),
    {
        if !self.key_gen.is_ready() {
            return false;
        }
        let c = self.key_gen.count_complete();
        let n = self.key_gen.num_nodes();
        (c as u128) * 3 > (n as u128) * 2
    }

    pub fn public_keys(&self) -> (r: &PubKeyMap)
        ensures
            r == &self.key_gen.pub_keys,
    {
        self.key_gen.public_keys()
    }

    /// Counts one more message from a sender and returns the new count;
    /// the count pins down message budgets per run. The count stops at the
    /// machine's limit.
    pub fn count_messages(&mut self, node_id: u64) -> (c: u64)
        requires
            old(self).wf(),
        ensures
            final(self).wf(),
            final(self).key_gen == old(self).key_gen,
            ({
                let prior = match old(self).msg_count.spec_get(node_id) {
                    Some(p) => p,
                    None => 0u64,
                };
                let now = if prior < u64::MAX {
                    (prior + 1) as u64
                } else {
                    u64::MAX
                };
                c == now && final(self).msg_count.spec_get(node_id) == Some(now) && (forall|v: u64|
                    v != node_id ==> final(self).msg_count.spec_get(v) == old(self).msg_count.spec_get(v))
            }),
    {
        let prior: u64 = match self.msg_count.get(node_id) {
            Some(p) => *p,
            None => 0,
        };
        let now: u64 = if prior < u64::MAX {
            prior + 1
        } else {
            u64::MAX
        };
        self.msg_count.insert(node_id, now);
        now
    }
}

} // verus!
