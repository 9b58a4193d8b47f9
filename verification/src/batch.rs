//! The engine's output record for one epoch: the committed contributions in
//! validator order, the change status, and the era's shared snapshots.

use vstd::prelude::*;
use std::sync::Arc;
use crate::change::{key_map_eq, ChangeState, ChangeStateV, PubKeyMap};
use crate::messages::JoinPlan;
use crate::network_info::NetworkInfo;
use crate::ordmap::OrderedMap;
use crate::params::Params;

verus! {

/// Two byte strings, compared byte for byte.
pub fn bytes_eq(a: &Vec<u8>, b: &Vec<u8>) -> (r: bool)
    ensures
        r <==> a@ == b@,
{
    let n = a.len();
    if n != b.len() {
        return false;
    }
    let mut i: usize = 0;
    while i < n
        invariant
            n == a@.len(),
            n == b@.len(),
            i <= n,
            forall|j: int| 0 <= j < i ==> a@[j] == b@[j],
        decreases n - i,
    {
        if a[i] != b[i] {
            return false;
        }
        i = i + 1;
    }
    proof {
        assert(a@ =~= b@);
    }
    true
}

/// The total number of transaction bytes over all contributions.
pub open spec fn spec_total_len(s: Seq<(u64, Vec<u8>)>) -> int
    decreases s.len(),
{
    if s.len() == 0 {
        0
    } else {
        spec_total_len(s.drop_last()) + s.last().1@.len()
    }
}

/// All transaction bytes, one contribution after the other, in entry order.
pub open spec fn spec_flat_bytes(s: Seq<(u64, Vec<u8>)>) -> Seq<u8>
    decreases s.len(),
{
    if s.len() == 0 {
        Seq::empty()
    } else {
        spec_flat_bytes(s.drop_last()) + s.last().1@
    }
}

#[derive(Debug)]
pub struct Batch {
    pub epoch: u64,
    pub era: u64,
    pub contributions: OrderedMap<Vec<u8>>,
    pub change: ChangeState,
    pub pub_keys: PubKeyMap,
    pub netinfo: Arc<NetworkInfo>,
    pub params: Params,
}

impl Batch {
    pub open spec fn wf(self) -> bool {
        &&& self.contributions.wf()
        &&& self.change.wf()
        &&& self.pub_keys.wf()
        &&& self.netinfo.wf()
        &&& self.era <= self.epoch
    }

    /// The contribution entries as mathematical values.
    pub open spec fn contributions_view(self) -> Seq<(u64, Seq<u8>)> {
        self.contributions.sq().map_values(|e: (u64, Vec<u8>)| (e.0, e.1@))
    }

    /// What two batches must agree on to be interchangeable to observers.
    pub open spec fn public_eq_spec(self, other: Self) -> bool {
        &&& self.epoch == other.epoch
        &&& self.era == other.era
        &&& self.contributions_view() == other.contributions_view()
        &&& self.change.view() == other.change.view()
        &&& self.pub_keys.sq() == other.pub_keys.sq()
        &&& self.netinfo.public_key_set == other.netinfo.public_key_set
        &&& self.params == other.params
    }

    /// The externally observed output index of this batch.
    pub fn epoch(&self) -> (e: u64)
        ensures
            e == self.epoch,
    {
        self.epoch
    }

    /// The era this batch was produced in.
    pub fn era(&self) -> (e: u64)
        ensures
            e == self.era,
    {
        self.era
    }

    /// The status of the change this batch announces, if any.
    pub fn change(&self) -> (c: &ChangeState)
        ensures
            c == &self.change,
    {
        &self.change
    }

    pub fn public_keys(&self) -> (p: &PubKeyMap)
        ensures
            p == &self.pub_keys,
    {
        &self.pub_keys
    }

    pub fn network_info(&self) -> (n: &Arc<NetworkInfo>)
        ensures
            n == &self.netinfo,
    {
        &self.netinfo
    }

    /// The committed contributions, keyed and iterated in validator order.
    pub fn contributions(&self) -> (c: &OrderedMap<Vec<u8>>)
        ensures
            c == &self.contributions,
    {
        &self.contributions
    }

    /// All committed transaction bytes, one contribution after the other,
    /// in validator order.
    pub fn iter(&self) -> (r: Vec<u8>)
        ensures
            r@ == spec_flat_bytes(self.contributions.sq()),
    {
        let n = self.contributions.len();
        let mut out: Vec<u8> = Vec::new();
        let mut i: usize = 0;
        while i < n
            invariant
                n == self.contributions.sq().len(),
                i <= n,
                out@ == spec_flat_bytes(self.contributions.sq().take(i as int)),
            decreases n - i,
        {
            proof {
                assert(self.contributions.sq().take(i + 1).drop_last() =~= self.contributions.sq()
                    .take(i as int));
                assert(self.contributions.sq().take(i + 1).last() == self.contributions.sq()[
                    i as int]);
            }
            let v = self.contributions.val_at(i);
            let m = v.len();
            let ghost base = out@;
            let mut j: usize = 0;
            while j < m
                invariant
                    m == v@.len(),
                    j <= m,
                    i < n,
                    n == self.contributions.sq().len(),
                    v == &self.contributions.sq()[i as int].1,
                    base == spec_flat_bytes(self.contributions.sq().take(i as int)),
                    out@ == base + v@.take(j as int),
                decreases m - j,
            {
                out.push(v[j]);
                proof {
                    assert(out@ =~= base + v@.take(j + 1));
                }
                j = j + 1;
            }
            proof {
                assert(v@.take(m as int) =~= v@);
                assert(out@ =~= spec_flat_bytes(self.contributions.sq().take(i + 1)));
            }
            i = i + 1;
        }
        proof {
            assert(self.contributions.sq().take(n as int) =~= self.contributions.sq());
        }
        out
    }

    proof fn lemma_total_len_nonneg(s: Seq<(u64, Vec<u8>)>)
        ensures
            spec_total_len(s) >= 0,
        decreases s.len(),
    {
        if s.len() > 0 {
            Self::lemma_total_len_nonneg(s.drop_last());
        }
    }

    /// The total length over a prefix never exceeds the total length.
    proof fn lemma_total_len_mono(s: Seq<(u64, Vec<u8>)>, n: int)
        requires
            0 <= n <= s.len(),
        ensures
            spec_total_len(s.take(n)) <= spec_total_len(s),
        decreases s.len() - n,
    {
        if n == s.len() {
            assert(s.take(n) =~= s);
        } else {
            Self::lemma_total_len_mono(s, n + 1);
            assert(s.take(n + 1).drop_last() =~= s.take(n));
            assert(s.take(n + 1).last() == s[n]);
            assert(spec_total_len(s.take(n)) <= spec_total_len(s.take(n + 1)));
        }
    }

    /// All committed transaction bytes, consuming the batch.
    pub fn into_tx_iter(self) -> (r: Vec<u8>)
        ensures
            r@ == spec_flat_bytes(self.contributions.sq()),
    {
        self.iter()
    }

    /// The number of transaction bytes committed in this batch.
    pub fn len(&self) -> (n: usize)
        requires
            spec_total_len(self.contributions.sq()) <= usize::MAX,
        ensures
            n == spec_total_len(self.contributions.sq()),
    {
        let cn = self.contributions.len();
        let mut total: usize = 0;
        let mut i: usize = 0;
        while i < cn
            invariant
                cn == self.contributions.sq().len(),
                i <= cn,
                total == spec_total_len(self.contributions.sq().take(i as int)),
                spec_total_len(self.contributions.sq()) <= usize::MAX,
            decreases cn - i,
        {
            proof {
                assert(self.contributions.sq().take(i + 1).drop_last() =~= self.contributions.sq()
                    .take(i as int));
                assert(self.contributions.sq().take(i + 1).last() == self.contributions.sq()[
                    i as int]);
                Self::lemma_total_len_mono(self.contributions.sq(), i + 1);
            }
            total = total + self.contributions.val_at(i).len();
            i = i + 1;
        }
        proof {
            assert(self.contributions.sq().take(cn as int) =~= self.contributions.sq());
        }
        total
    }

    /// Whether no contribution carries any transaction bytes.
    pub fn is_empty(&self) -> (b: bool)
        ensures
            b <==> (forall|i: int|
                0 <= i < self.contributions.sq().len() ==> (#[trigger] self.contributions.sq()[
                i]).1@.len() == 0),
    {
        let cn = self.contributions.len();
        let mut i: usize = 0;
        while i < cn
            invariant
                cn == self.contributions.sq().len(),
                i <= cn,
                forall|j: int|
                    0 <= j < i ==> (#[trigger] self.contributions.sq()[j]).1@.len() == 0,
            decreases cn - i,
        {
            if self.contributions.val_at(i).len() > 0 {
                return false;
            }
            i = i + 1;
        }
        true
    }

    /// The join plan a new node needs to attach at the era after this
    /// batch, available exactly when the batch announces a change.
    pub fn join_plan(&self) -> (r: Option<JoinPlan>)
        requires
            self.epoch < u64::MAX,
        ensures
            match r {
                Some(p) => {
                    &&& self.change.view() != ChangeStateV::NoChange
                    &&& p.era == self.epoch + 1
                    &&& p.change.view() == self.change.view()
                    &&& p.pub_keys.sq() == self.pub_keys.sq()
                    &&& p.pub_key_set == self.netinfo.public_key_set
                    &&& p.params == self.params
                },
                None => self.change.view() == ChangeStateV::NoChange,
            },
    {
        if self.change.is_none() {
            return None;
        }
        Some(
            JoinPlan {
                era: self.epoch + 1,
                change: self.change.duplicate(),
                pub_keys: self.pub_keys.clone(),
                pub_key_set: self.netinfo.public_key_set(),
                params: self.params,
            },
        )
    }

    /// Whether two batches agree on everything an observer can see.
    pub fn public_eq(&self, other: &Self) -> (r: bool)
        ensures
            r <==> self.public_eq_spec(*other),
    {
        if self.epoch != other.epoch || self.era != other.era {
            return false;
        }
        if !(self.params == other.params) {
            return false;
        }
        if !(self.netinfo.public_key_set() == other.netinfo.public_key_set()) {
            return false;
        }
        if !self.change.eq_change_state(&other.change) {
            return false;
        }
        if !key_map_eq(&self.pub_keys, &other.pub_keys) {
            return false;
        }
        let n = self.contributions.len();
        if n != other.contributions.len() {
            proof {
                assert(self.contributions_view().len() != other.contributions_view().len());
            }
            return false;
        }
        let mut i: usize = 0;
        while i < n
            invariant
                n == self.contributions.sq().len(),
                n == other.contributions.sq().len(),
                i <= n,
                forall|j: int|
                    0 <= j < i ==> self.contributions_view()[j] == other.contributions_view()[j],
            decreases n - i,
        {
            if self.contributions.key_at(i) != other.contributions.key_at(i) {
                proof {
                    assert(self.contributions_view()[i as int].0 != other.contributions_view()[
                        i as int].0);
                }
                return false;
            }
            if !bytes_eq(self.contributions.val_at(i), other.contributions.val_at(i)) {
                proof {
                    assert(self.contributions_view()[i as int].1 != other.contributions_view()[
                        i as int].1);
                }
                return false;
            }
            proof {
                assert(self.contributions_view()[i as int] == other.contributions_view()[
                    i as int]);
            }
            i = i + 1;
        }
        proof {
            assert(self.contributions_view() =~= other.contributions_view());
        }
        true
    }
}

} // verus!
