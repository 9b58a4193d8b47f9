//! Membership and encryption-policy changes, and the state a change moves
//! through: proposed, in progress, complete.

use vstd::prelude::*;
use std::sync::Arc;
use crate::crypto::PublicKey;
use crate::ordmap::OrderedMap;
use crate::params::EncryptionSchedule;

verus! {

/// The public keys of all validators of one era, in validator order.
pub type KeyMap = OrderedMap<PublicKey>;

/// A shared, immutable snapshot of a validator key map. Clones share the
/// same snapshot; published batches are never mutated through the engine.
pub type PubKeyMap = Arc<KeyMap>;

/// Compares two key maps entry by entry.
pub fn key_map_eq(a: &KeyMap, b: &KeyMap) -> (r: bool)
    ensures
        r <==> a.sq() == b.sq(),
{
    let n = a.entries.len();
    if n != b.entries.len() {
        assert(a.sq().len() != b.sq().len());
        return false;
    }
    let mut i: usize = 0;
    while i < n
        invariant
            n == a.sq().len(),
            n == b.sq().len(),
            i <= n,
            forall|j: int| 0 <= j < i ==> a.sq()[j] == b.sq()[j],
        decreases n - i,
    {
        let (ka, va) = a.entries[i];
        let (kb, vb) = b.entries[i];
        if ka != kb || va.val != vb.val {
            assert(a.sq()[i as int] != b.sq()[i as int]);
            return false;
        }
        i = i + 1;
    }
    proof {
        assert(a.sq() =~= b.sq());
    }
    true
}

/// A proposed change: swap in a new validator key map, or switch the
/// encryption schedule.
#[derive(PartialEq, Eq, Debug)]
pub enum Change {
    NodeChange(PubKeyMap),
    EncryptionSchedule(EncryptionSchedule),
}

/// The mathematical value of a `Change`: the key map as its entry sequence.
pub enum ChangeV {
    NodeChange(Seq<(u64, PublicKey)>),
    EncryptionSchedule(EncryptionSchedule),
}

/// Well-formedness of a change value: a proposed key map is sorted.
pub open spec fn change_v_wf(cv: ChangeV) -> bool {
    match cv {
        ChangeV::NodeChange(s) => crate::ordmap::kseq_sorted(s),
        ChangeV::EncryptionSchedule(_) => true,
    }
}

pub open spec fn change_state_v_wf(cv: ChangeStateV) -> bool {
    match cv {
        ChangeStateV::NoChange => true,
        ChangeStateV::InProgress(c) => change_v_wf(c),
        ChangeStateV::Complete(c) => change_v_wf(c),
    }
}

impl Change {
    pub open spec fn view(self) -> ChangeV {
        match self {
            Change::NodeChange(m) => ChangeV::NodeChange(m.sq()),
            Change::EncryptionSchedule(s) => ChangeV::EncryptionSchedule(s),
        }
    }

    pub open spec fn wf(self) -> bool {
        change_v_wf(self.view())
    }

    pub fn eq_change(&self, other: &Change) -> (r: bool)
        ensures
            r <==> self.view() == other.view(),
    {
        match (self, other) {
            (Change::NodeChange(a), Change::NodeChange(b)) => key_map_eq(a, b),
            (Change::EncryptionSchedule(a), Change::EncryptionSchedule(b)) => {
                let r = *a == *b;
                proof {
                    if r {
                        assert(self.view() == other.view());
                    }
                }
                r
            },
            _ => false,
        }
    }

    /// A copy sharing the same key map snapshot.
    pub fn duplicate(&self) -> (r: Change)
        ensures
            r == *self,
    {
        match self {
            Change::NodeChange(m) => Change::NodeChange(m.clone()),
            Change::EncryptionSchedule(s) => Change::EncryptionSchedule(*s),
        }
    }
}

/// Where a change stands: nothing afoot, a key generation run in progress,
/// or a change that takes effect in the next era.
#[derive(PartialEq, Eq, Debug)]
pub enum ChangeState {
    NoChange,
    InProgress(Change),
    Complete(Change),
}

pub enum ChangeStateV {
    NoChange,
    InProgress(ChangeV),
    Complete(ChangeV),
}

impl ChangeState {
    pub open spec fn view(self) -> ChangeStateV {
        match self {
            ChangeState::NoChange => ChangeStateV::NoChange,
            ChangeState::InProgress(c) => ChangeStateV::InProgress(c.view()),
            ChangeState::Complete(c) => ChangeStateV::Complete(c.view()),
        }
    }

    pub open spec fn wf(self) -> bool {
        change_state_v_wf(self.view())
    }

    pub fn eq_change_state(&self, other: &ChangeState) -> (r: bool)
        ensures
            r <==> self.view() == other.view(),
    {
        match (self, other) {
            (ChangeState::NoChange, ChangeState::NoChange) => true,
            (ChangeState::InProgress(a), ChangeState::InProgress(b)) => a.eq_change(b),
            (ChangeState::Complete(a), ChangeState::Complete(b)) => a.eq_change(b),
            _ => false,
        }
    }

    pub fn duplicate(&self) -> (r: ChangeState)
        ensures
            r == *self,
    {
        match self {
            ChangeState::NoChange => ChangeState::NoChange,
            ChangeState::InProgress(c) => ChangeState::InProgress(c.duplicate()),
            ChangeState::Complete(c) => ChangeState::Complete(c.duplicate()),
        }
    }

    pub fn is_none(&self) -> (r: bool)
        ensures
            r <==> self.view() == ChangeStateV::NoChange,
    {
        match self {
            ChangeState::NoChange => true,
            _ => false,
        }
    }
}

} // verus!
