//! The atomic broadcast the engine composes over. This is a deliberately
//! small, deterministic instance: in each internal epoch every validator
//! broadcasts one proposal, and a batch is emitted once proposals from all
//! validators of the era have arrived, in validator order. The engine treats
//! it as a black box that accepts contributions and emits batches with an
//! internal epoch counter; a deployment would put a full asynchronous
//! protocol behind the same interface.

use vstd::prelude::*;
use std::sync::Arc;
use crate::fault::{HbError, HbFaultKind};
use crate::messages::{InternalContrib, InternalContribV};
use crate::network_info::NetworkInfo;
use crate::ordmap::OrderedMap;
use crate::params::Params;

verus! {

/// A message of the atomic broadcast: one validator's proposal for one
/// internal epoch.
#[derive(PartialEq, Eq, Debug)]
pub enum HbMessage {
    Propose(u64, InternalContrib),
}

pub enum HbMessageV {
    Propose(u64, InternalContribV),
}

pub open spec fn hb_message_v_wf(m: HbMessageV) -> bool {
    match m {
        HbMessageV::Propose(_, c) => crate::messages::internal_contrib_v_wf(c),
    }
}

impl HbMessage {
    pub open spec fn view(self) -> HbMessageV {
        match self {
            HbMessage::Propose(epoch, c) => HbMessageV::Propose(epoch, c.view()),
        }
    }

    pub open spec fn wf(self) -> bool {
        hb_message_v_wf(self.view())
    }

    /// A copy with the same mathematical value.
    pub fn duplicate(&self) -> (r: Self)
        ensures
            r.view() == self.view(),
    {
        match self {
            HbMessage::Propose(epoch, c) => HbMessage::Propose(*epoch, c.duplicate()),
        }
    }
}

/// One emitted round of the atomic broadcast: the internal epoch and every
/// validator's contribution, in validator order.
pub struct HbBatch {
    pub epoch: u64,
    pub contributions: OrderedMap<InternalContrib>,
}

impl HbBatch {
    pub open spec fn wf(self) -> bool {
        &&& self.contributions.wf()
        &&& forall|i: int|
            0 <= i < self.contributions.sq().len() ==> (#[trigger] self.contributions.sq()[
            i]).1.wf()
    }
}

/// A well-formed proposal map whose keys all sit among the validators and
/// which covers every validator has exactly the validator list as its keys.
proof fn lemma_keys_complete(m: OrderedMap<InternalContrib>, validators: Seq<u64>)
    requires
        m.wf(),
        crate::network_info::ids_sorted(validators),
        forall|i: int|
            0 <= i < m.sq().len() ==> validators.contains((#[trigger] m.sq()[i]).0),
        forall|v: u64| validators.contains(v) ==> m.spec_contains_key(v),
    ensures
        m.spec_keys() == validators,
{
    assert forall|a: int, b: int|
        0 <= a < b < m.spec_keys().len() implies m.spec_keys()[a] < m.spec_keys()[b] by {
        assert(m.spec_keys()[a] == m.sq()[a].0);
        assert(m.spec_keys()[b] == m.sq()[b].0);
    }
    assert forall|t: int|
        0 <= t < m.spec_keys().len() implies validators.contains(#[trigger] m.spec_keys()[t]) by {
        assert(m.spec_keys()[t] == m.sq()[t].0);
    }
    assert forall|t: int|
        0 <= t < validators.len() implies m.spec_keys().contains(#[trigger] validators[t]) by {
        let v = validators[t];
        assert(validators.contains(v));
        assert(m.spec_contains_key(v));
        let i = choose|i: int| 0 <= i < m.sq().len() && m.sq()[i].0 == v;
        assert(m.spec_keys()[i] == v);
    }
    crate::network_info::lemma_sorted_mutual_subset_eq(m.spec_keys(), validators);
}

/// The atomic broadcast instance for one era. Agreement holds as long as
/// every validator proposes at most one contribution per internal epoch;
/// a validator that proposes twice is reported as faulty and only its
/// first proposal counts.
pub struct HoneyBadger {
    pub netinfo: Arc<NetworkInfo>,
    pub session_id: u64,
    pub params: Params,
    /// The internal epoch the next batch will carry.
    pub epoch: u64,
    /// Whether we proposed in the current internal epoch.
    pub has_input_flag: bool,
    /// Proposals received for the current internal epoch, by proposer.
    pub received: OrderedMap<InternalContrib>,
    /// Proposals for future internal epochs: `(epoch, proposer, payload)`.
    pub buffered: Vec<(u64, u64, InternalContrib)>,
}

impl HoneyBadger {
    pub open spec fn wf(self) -> bool {
        &&& self.netinfo.wf()
        &&& self.received.wf()
        &&& forall|i: int|
            0 <= i < self.received.sq().len() ==> (#[trigger] self.received.sq()[i]).1.wf()
                && self.netinfo.validators@.contains(self.received.sq()[i].0)
        &&& forall|k: int|
            0 <= k < self.buffered@.len() ==> (#[trigger] self.buffered@[k]).0 > self.epoch
                && self.buffered@[k].0 <= self.epoch + self.params.max_future_epochs
                && self.netinfo.validators@.contains(self.buffered@[k].1)
                && self.buffered@[k].2.wf()
    }

    /// A fresh instance for one era.
    pub fn new(netinfo: Arc<NetworkInfo>, session_id: u64, params: Params, epoch: u64) -> (r: Self)
        requires
            netinfo.wf(),
        ensures
            r.wf(),
            r.netinfo == netinfo,
            r.session_id == session_id,
            r.params == params,
            r.epoch == epoch,
            !r.has_input_flag,
            r.received.sq() == Seq::<(u64, InternalContrib)>::empty(),
            r.buffered@ == Seq::<(u64, u64, InternalContrib)>::empty(),
    {
        HoneyBadger {
            netinfo,
            session_id,
            params,
            epoch,
            has_input_flag: false,
            received: OrderedMap::new(),
            buffered: Vec::new(),
        }
    }

    pub fn netinfo(&self) -> (r: &Arc<NetworkInfo>)
        ensures
            r == &self.netinfo,
    {
        &self.netinfo
    }

    pub fn params(&self) -> (p: Params)
        ensures
            p == self.params,
    {
        self.params
    }

    /// The internal epoch the next batch will carry.
    pub fn epoch(&self) -> (e: u64)
        ensures
            e == self.epoch,
    {
        self.epoch
    }

    /// Whether we already proposed in the current internal epoch.
    pub fn has_input(&self) -> (b: bool)
        ensures
            b == self.has_input_flag,
    {
        self.has_input_flag
    }

    /// How many proposals the current internal epoch has so far.
    pub fn received_proposals(&self) -> (n: usize)
        ensures
            n == self.received.sq().len(),
    {
        self.received.len()
    }

    /// Whether the current epoch has a proposal from every validator.
    fn ready_to_emit(&self) -> (b: bool)
        requires
            self.wf(),
        ensures
            b <==> self.received.spec_keys() == self.netinfo.validators@,
    {
        let n = self.netinfo.num_nodes();
        if self.received.len() != n {
            proof {
                assert(self.received.spec_keys().len() == self.received.sq().len());
            }
            return false;
        }
        let mut i: usize = 0;
        while i < n
            invariant
                self.wf(),
                n == self.netinfo.validators@.len(),
                n == self.received.sq().len(),
                i <= n,
                forall|j: int|
                    0 <= j < i ==> self.received.spec_keys()[j] == self.netinfo.validators@[j],
            decreases n - i,
        {
            if self.received.key_at(i) != self.netinfo.validators[i] {
                proof {
                    assert(self.received.spec_keys()[i as int] != self.netinfo.validators@[
                        i as int]);
                }
                return false;
            }
            i = i + 1;
        }
        proof {
            assert(self.received.spec_keys() =~= self.netinfo.validators@);
        }
        true
    }

    /// Closes the current round if it is complete: when every validator's
    /// proposal for the current epoch is in, the round becomes a batch, the
    /// next epoch opens and buffered proposals for it move in. At most one
    /// round closes per call; the next call closes the next one.
    fn pump(&mut self) -> (batches: Vec<HbBatch>)
        requires
            old(self).wf(),
            old(self).epoch < u64::MAX,
        ensures
            final(self).wf(),
            final(self).netinfo == old(self).netinfo,
            final(self).session_id == old(self).session_id,
            final(self).params == old(self).params,
            final(self).epoch == old(self).epoch + batches@.len(),
            batches@.len() <= 1,
            final(self).has_input_flag ==> old(self).has_input_flag && batches@.len() == 0,
            batches@.len() == 0 ==> *final(self) == *old(self),
            batches@.len() == 1 ==> batches@[0].contributions == old(self).received && !final(self).has_input_flag,
            old(self).received.spec_keys() == old(self).netinfo.validators@ ==> batches@.len()
                == 1,
            forall|k: int|
                0 <= k < batches@.len() ==> (#[trigger] batches@[k]).epoch == old(self).epoch + k
                    && batches@[k].wf() && batches@[k].contributions.spec_keys() == old(self).netinfo.validators@,
    {
        let ghost epoch0 = self.epoch;
        let ghost mfe = self.params.max_future_epochs;
        let mut batches: Vec<HbBatch> = Vec::new();
        if !self.ready_to_emit() {
            return batches;
        }
        proof {
            assert(self.received.spec_keys().len() == self.received.sq().len());
        }
        let mut contributions: OrderedMap<InternalContrib> = OrderedMap::new();
        core::mem::swap(&mut contributions, &mut self.received);
        let b = HbBatch { epoch: self.epoch, contributions };
        batches.push(b);
        self.epoch = self.epoch + 1;
        self.has_input_flag = false;
        let mut tmp: Vec<(u64, u64, InternalContrib)> = Vec::new();
        core::mem::swap(&mut tmp, &mut self.buffered);
        let ghost tmp0 = tmp@;
        let tn = tmp.len();
        let mut i: usize = 0;
        while i < tn
            invariant
                tn == tmp0.len(),
                i <= tn,
                tmp@ == tmp0,
                self.netinfo == old(self).netinfo,
                self.session_id == old(self).session_id,
                self.params == old(self).params,
                epoch0 == old(self).epoch,
                mfe == self.params.max_future_epochs,
                self.epoch == epoch0 + 1,
                !self.has_input_flag,
                self.netinfo.wf(),
                self.received.wf(),
                batches@.len() == 1,
                batches@[0].epoch == epoch0 && batches@[0].wf()
                    && batches@[0].contributions.spec_keys() == old(self).netinfo.validators@,
                forall|j: int|
                    0 <= j < self.received.sq().len() ==> (#[trigger] self.received.sq()[
                    j]).1.wf() && self.netinfo.validators@.contains(self.received.sq()[j].0),
                forall|k: int|
                    0 <= k < tmp0.len() ==> (#[trigger] tmp0[k]).0 > epoch0 && tmp0[k].0 <= epoch0
                        + mfe && self.netinfo.validators@.contains(tmp0[k].1) && tmp0[k].2.wf(),
                forall|k: int|
                    0 <= k < self.buffered@.len() ==> (#[trigger] self.buffered@[k]).0 > self.epoch
                        && self.buffered@[k].0 <= self.epoch + mfe
                        && self.netinfo.validators@.contains(self.buffered@[k].1)
                        && self.buffered@[k].2.wf(),
            decreases tn - i,
        {
            let e = tmp[i].0;
            let s = tmp[i].1;
            if e == self.epoch {
                if !self.received.contains_key(s) {
                    let c = tmp[i].2.duplicate();
                    let ghost rec0 = self.received;
                    self.received.insert(s, c);
                    proof {
                        self.received.lemma_all_entries();
                        assert forall|j: int|
                            0 <= j < self.received.sq().len() implies (#[trigger] self
                            .received
                            .sq()[j]).1.wf() && self.netinfo.validators@.contains(
                            self.received.sq()[j].0,
                        ) by {
                            let k = self.received.sq()[j].0;
                            if k == s {
                            } else {
                                assert(self.received.spec_get(k) == rec0.spec_get(k));
                                assert(rec0.spec_contains_key(k));
                                let jj = rec0.spec_index_of(k);
                                assert(0 <= jj < rec0.sq().len() && rec0.sq()[jj].0 == k);
                                crate::ordmap::lemma_kseq_index_unique(rec0.sq(), k, jj);
                            }
                        }
                    }
                }
            } else if e > self.epoch {
                let c = tmp[i].2.duplicate();
                self.buffered.push((e, s, c));
            }
            i = i + 1;
        }
        batches
    }

    /// Proposes our contribution for the current internal epoch. The
    /// returned message must reach every peer; any closed rounds come back
    /// as batches.
    pub fn propose(&mut self, contribution: InternalContrib) -> (r: Result<
        (HbMessage, Vec<HbBatch>),
        HbError,
    >)
        requires
            old(self).wf(),
            contribution.wf(),
            old(self).epoch + old(self).params.max_future_epochs + 1 <= u64::MAX,
        ensures
            final(self).wf(),
            final(self).netinfo == old(self).netinfo,
            final(self).session_id == old(self).session_id,
            final(self).params == old(self).params,
            match r {
                Ok(t) => {
                    &&& old(self).netinfo.spec_is_validator(old(self).netinfo.our_id)
                    &&& !old(self).has_input_flag
                    &&& t.0.view() == HbMessageV::Propose(old(self).epoch, contribution.view())
                    &&& t.1@.len() <= 1
                    &&& final(self).epoch == old(self).epoch + t.1@.len()
                    &&& (t.1@.len() == 0 ==> final(self).has_input_flag && final(self).received.spec_get(old(self).netinfo.our_id) == Some(contribution) && (forall|v: u64|
                        v != old(self).netinfo.our_id ==> final(self).received.spec_get(v) == old(self).received.spec_get(v)))
                    &&& (t.1@.len() == 1 ==> t.1@[0].contributions.spec_get(old(self).netinfo.our_id) == Some(contribution) && !final(self).has_input_flag)
                    &&& ((forall|v: u64|
                        old(self).netinfo.validators@.contains(v) ==> v == old(
                            self,
                        ).netinfo.our_id || old(self).received.spec_contains_key(v)) ==> t.1@.len()
                        == 1)
                    &&& (forall|k: int|
                        0 <= k < t.1@.len() ==> (#[trigger] t.1@[k]).epoch == old(self).epoch + k
                            && t.1@[k].wf() && t.1@[k].contributions.spec_keys() == old(self).netinfo.validators@)
                },
                Err(e) => {
                    &&& *final(self) == *old(self)
                    &&& (match e {
                        HbError::NotAValidator => !old(self).netinfo.spec_is_validator(
                            old(self).netinfo.our_id,
                        ),
                        HbError::AlreadyProposed => old(self).netinfo.spec_is_validator(
                            old(self).netinfo.our_id,
                        ) && old(self).has_input_flag,
                    })
                },
            },
    {
        if !self.netinfo.is_validator() {
            return Err(HbError::NotAValidator);
        }
        if self.has_input_flag {
            return Err(HbError::AlreadyProposed);
        }
        let msg = HbMessage::Propose(self.epoch, contribution.duplicate());
        self.has_input_flag = true;
        let our_id = self.netinfo.our_id();
        let ghost rec0 = self.received;
        self.received.insert(our_id, contribution);
        proof {
            self.received.lemma_all_entries();
            assert forall|j: int| 0 <= j < self.received.sq().len() implies (#[trigger] self
                .received
                .sq()[j]).1.wf() && self.netinfo.validators@.contains(
                self.received.sq()[j].0,
            ) by {
                let k = self.received.sq()[j].0;
                if k == our_id {
                } else {
                    assert(self.received.spec_get(k) == rec0.spec_get(k));
                    assert(rec0.spec_contains_key(k));
                    let jj = rec0.spec_index_of(k);
                    assert(0 <= jj < rec0.sq().len() && rec0.sq()[jj].0 == k);
                    crate::ordmap::lemma_kseq_index_unique(rec0.sq(), k, jj);
                }
            }
        }
        proof {
            if forall|v: u64|
                old(self).netinfo.validators@.contains(v) ==> v == old(self).netinfo.our_id || old(
                    self,
                ).received.spec_contains_key(v) {
                assert forall|v: u64|
                    self.netinfo.validators@.contains(v) implies self.received.spec_contains_key(
                    v,
                ) by {
                    assert(old(self).netinfo.validators@.contains(v));
                    assert(v == old(self).netinfo.our_id || old(self).received.spec_contains_key(
                        v,
                    ));
                    assert(self.received.spec_contains_key(v));
                }
                lemma_keys_complete(self.received, self.netinfo.validators@);
                assert(self.received.spec_keys() == self.netinfo.validators@);
            }
        }
        let batches = self.pump();
        Ok((msg, batches))
    }

    /// Handles a peer's proposal. Proposals for closed epochs are dropped;
    /// a second proposal from the same validator for the same epoch, or a
    /// proposal too far ahead, is a fault; otherwise the proposal joins its
    /// epoch, and any rounds it closes come back as batches.
    pub fn handle_message(&mut self, sender_id: u64, message: HbMessage) -> (r: (
        Option<HbFaultKind>,
        Vec<HbBatch>,
    ))
        requires
            old(self).wf(),
            message.wf(),
            old(self).netinfo.spec_is_validator(sender_id),
            old(self).epoch + old(self).params.max_future_epochs + 1 <= u64::MAX,
        ensures
            final(self).wf(),
            final(self).netinfo == old(self).netinfo,
            final(self).session_id == old(self).session_id,
            final(self).params == old(self).params,
            final(self).epoch == old(self).epoch + r.1@.len(),
            r.1@.len() <= 1,
            forall|k: int|
                0 <= k < r.1@.len() ==> (#[trigger] r.1@[k]).epoch == old(self).epoch + k
                    && r.1@[k].wf() && r.1@[k].contributions.spec_keys() == old(self).netinfo.validators@,
            ({
                let e = message->Propose_0;
                let c = message->Propose_1;
                if e < old(self).epoch {
                    r.0 is None && *final(self) == *old(self) && r.1@.len() == 0
                } else if e > old(self).epoch + old(self).params.max_future_epochs {
                    r.0 == Some(HbFaultKind::UnexpectedEpoch) && *final(self) == *old(self)
                        && r.1@.len() == 0
                } else if e == old(self).epoch {
                    if old(self).received.spec_contains_key(sender_id) {
                        r.0 == Some(HbFaultKind::MultipleProposals) && *final(self) == *old(self)
                            && r.1@.len() == 0
                    } else {
                        &&& r.0 is None
                        &&& (r.1@.len() == 1 ==> r.1@[0].contributions.spec_get(sender_id)
                            == Some(c))
                        &&& (r.1@.len() == 0 ==> final(self).received.spec_get(sender_id) == Some(
                            c,
                        ) && (forall|v: u64|
                            v != sender_id ==> final(self).received.spec_get(v) == old(
                                self,
                            ).received.spec_get(v)) && final(self).buffered == old(self).buffered
                            && final(self).has_input_flag == old(self).has_input_flag)
                        &&& ((forall|v: u64|
                            old(self).netinfo.validators@.contains(v) ==> v == sender_id || old(
                                self,
                            ).received.spec_contains_key(v)) ==> r.1@.len() == 1)
                    }
                } else {
                    if exists|k: int|
                        0 <= k < old(self).buffered@.len() && (#[trigger] old(self).buffered@[
                        k]).0 == e && old(self).buffered@[k].1 == sender_id {
                        r.0 == Some(HbFaultKind::MultipleProposals) && *final(self) == *old(self)
                            && r.1@.len() == 0
                    } else {
                        &&& r.0 is None
                        &&& r.1@.len() == 0
                        &&& final(self).buffered@ == old(self).buffered@.push((e, sender_id, c))
                        &&& final(self).received == old(self).received
                        &&& final(self).has_input_flag == old(self).has_input_flag
                    }
                }
            }),
    {
        let HbMessage::Propose(e, c) = message;
        if e < self.epoch {
            return (None, Vec::new());
        }
        if e > self.epoch + self.params.max_future_epochs {
            return (Some(HbFaultKind::UnexpectedEpoch), Vec::new());
        }
        if e == self.epoch {
            if self.received.contains_key(sender_id) {
                return (Some(HbFaultKind::MultipleProposals), Vec::new());
            }
            let ghost rec0 = self.received;
            self.received.insert(sender_id, c);
            proof {
                self.received.lemma_all_entries();
                assert forall|j: int| 0 <= j < self.received.sq().len() implies (#[trigger] self
                    .received
                    .sq()[j]).1.wf() && self.netinfo.validators@.contains(
                    self.received.sq()[j].0,
                ) by {
                    let k = self.received.sq()[j].0;
                    if k == sender_id {
                    } else {
                        assert(self.received.spec_get(k) == rec0.spec_get(k));
                        assert(rec0.spec_contains_key(k));
                        let jj = rec0.spec_index_of(k);
                        assert(0 <= jj < rec0.sq().len() && rec0.sq()[jj].0 == k);
                        crate::ordmap::lemma_kseq_index_unique(rec0.sq(), k, jj);
                    }
                }
            }
            proof {
                if forall|v: u64|
                    old(self).netinfo.validators@.contains(v) ==> v == sender_id || old(
                        self,
                    ).received.spec_contains_key(v) {
                    assert forall|v: u64|
                        self.netinfo.validators@.contains(v) implies self
                        .received
                        .spec_contains_key(v) by {
                        assert(old(self).netinfo.validators@.contains(v));
                        assert(v == sender_id || old(self).received.spec_contains_key(v));
                        assert(self.received.spec_contains_key(v));
                    }
                    lemma_keys_complete(self.received, self.netinfo.validators@);
                    assert(self.received.spec_keys() == self.netinfo.validators@);
                }
            }
            let batches = self.pump();
            return (None, batches);
        }
        // A proposal for a coming epoch: buffer it, one per proposer.
        let bn = self.buffered.len();
        let mut i: usize = 0;
        while i < bn
            invariant
                bn == self.buffered@.len(),
                i <= bn,
                self.wf(),
                *self == *old(self),
                e == message->Propose_0,
                old(self).epoch < e <= old(self).epoch + old(self).params.max_future_epochs,
                forall|j: int|
                    0 <= j < i ==> !((#[trigger] self.buffered@[j]).0 == e && self.buffered@[
                    j].1 == sender_id),
            decreases bn - i,
        {
            if self.buffered[i].0 == e && self.buffered[i].1 == sender_id {
                return (Some(HbFaultKind::MultipleProposals), Vec::new());
            }
            i = i + 1;
        }
        self.buffered.push((e, sender_id, c));
        (None, Vec::new())
    }
}

} // verus!
