//! The immutable per-era snapshot of the network: our id, our optional
//! threshold key share, the era's threshold key set and the ordered
//! validator list. A new one is built on every era change.

use vstd::prelude::*;
use crate::change::KeyMap;
use crate::crypto::{PublicKeySet, SecretKeyShare};
use crate::util::{max_faulty, spec_max_faulty};

verus! {

/// Ids strictly increase along the list.
pub open spec fn ids_sorted(s: Seq<u64>) -> bool {
    forall|i: int, j: int| 0 <= i < j < s.len() ==> s[i] < s[j]
}

/// Two strictly sorted id lists that contain each other are equal.
pub proof fn lemma_sorted_mutual_subset_eq(a: Seq<u64>, b: Seq<u64>)
    requires
        ids_sorted(a),
        ids_sorted(b),
        forall|i: int| 0 <= i < a.len() ==> b.contains(#[trigger] a[i]),
        forall|i: int| 0 <= i < b.len() ==> a.contains(#[trigger] b[i]),
    ensures
        a =~= b,
    decreases a.len(),
{
    if a.len() == 0 {
        if b.len() > 0 {
            assert(a.contains(b[0]));
        }
    } else if b.len() == 0 {
        assert(b.contains(a[0]));
    } else {
        assert(b.contains(a[0]));
        assert(a.contains(b[0]));
        let i = choose|i: int| 0 <= i < b.len() && b[i] == a[0];
        let j = choose|j: int| 0 <= j < a.len() && a[j] == b[0];
        assert(b[0] <= b[i]);
        assert(a[0] <= a[j]);
        assert(a[0] == b[0]);
        let a2 = a.drop_first();
        let b2 = b.drop_first();
        assert forall|k: int| 0 <= k < a2.len() implies b2.contains(#[trigger] a2[k]) by {
            assert(a2[k] == a[k + 1]);
            assert(b.contains(a[k + 1]));
            let m = choose|m: int| 0 <= m < b.len() && b[m] == a[k + 1];
            assert(a[0] < a[k + 1]);
            assert(m != 0);
            assert(b2[m - 1] == b[m]);
        }
        assert forall|k: int| 0 <= k < b2.len() implies a2.contains(#[trigger] b2[k]) by {
            assert(b2[k] == b[k + 1]);
            assert(a.contains(b[k + 1]));
            let m = choose|m: int| 0 <= m < a.len() && a[m] == b[k + 1];
            assert(b[0] < b[k + 1]);
            assert(m != 0);
            assert(a2[m - 1] == a[m]);
        }
        lemma_sorted_mutual_subset_eq(a2, b2);
        assert(a =~= seq![a[0]] + a2);
        assert(b =~= seq![b[0]] + b2);
    }
}

#[derive(PartialEq, Eq, Debug)]
pub struct NetworkInfo {
    pub our_id: u64,
    pub secret_key_share: Option<SecretKeyShare>,
    pub public_key_set: PublicKeySet,
    pub validators: Vec<u64>,
}

impl NetworkInfo {
    pub open spec fn wf(self) -> bool {
        ids_sorted(self.validators@) && self.validators@.len() >= 1
    }

    pub open spec fn spec_is_validator(self, id: u64) -> bool {
        self.validators@.contains(id)
    }

    /// A snapshot from its parts. The validator list must be sorted and
    /// hold at least one node.
    pub fn new(
        our_id: u64,
        secret_key_share: Option<SecretKeyShare>,
        public_key_set: PublicKeySet,
        validators: Vec<u64>,
    ) -> (r: Self)
        requires
            ids_sorted(validators@),
            validators@.len() >= 1,
        ensures
            r.wf(),
            r.our_id == our_id,
            r.secret_key_share == secret_key_share,
            r.public_key_set == public_key_set,
            r.validators == validators,
    {
        NetworkInfo { our_id, secret_key_share, public_key_set, validators }
    }

    pub fn our_id(&self) -> (id: u64)
        ensures
            id == self.our_id,
    {
        self.our_id
    }

    pub fn public_key_set(&self) -> (p: PublicKeySet)
        ensures
            p == self.public_key_set,
    {
        self.public_key_set
    }

    pub fn secret_key_share(&self) -> (s: Option<SecretKeyShare>)
        ensures
            s == self.secret_key_share,
    {
        self.secret_key_share
    }

    pub fn num_nodes(&self) -> (n: usize)
        ensures
            n == self.validators@.len(),
    {
        self.validators.len()
    }

    /// The number of faulty validators this era tolerates.
    pub fn num_faulty(&self) -> (f: usize)
        ensures
            f == spec_max_faulty(self.validators@.len()),
    {
        max_faulty(self.validators.len())
    }

    pub fn all_ids(&self) -> (ids: &Vec<u64>)
        ensures
            ids == &self.validators,
    {
        &self.validators
    }

    pub fn is_node_validator(&self, id: u64) -> (b: bool)
        ensures
            b == self.spec_is_validator(id),
    {
        let n = self.validators.len();
        let mut i: usize = 0;
        while i < n
            invariant
                n == self.validators@.len(),
                i <= n,
                forall|j: int| 0 <= j < i ==> self.validators@[j] != id,
            decreases n - i,
        {
            if self.validators[i] == id {
                return true;
            }
            i = i + 1;
        }
        proof {
            assert(!self.validators@.contains(id));
        }
        false
    }

    /// Whether this node is a validator of the era.
    pub fn is_validator(&self) -> (b: bool)
        ensures
            b == self.spec_is_validator(self.our_id),
    {
        self.is_node_validator(self.our_id)
    }

    /// Whether the validator list is exactly the key set of a key map.
    pub fn ids_match(&self, m: &KeyMap) -> (b: bool)
        ensures
            b <==> self.validators@ == m.spec_keys(),
    {
        let n = self.validators.len();
        if n != m.len() {
            proof {
                assert(m.spec_keys().len() == m.sq().len());
            }
            return false;
        }
        let mut i: usize = 0;
        while i < n
            invariant
                n == self.validators@.len(),
                n == m.sq().len(),
                i <= n,
                forall|j: int| 0 <= j < i ==> self.validators@[j] == m.spec_keys()[j],
            decreases n - i,
        {
            if self.validators[i] != m.key_at(i) {
                proof {
                    assert(self.validators@[i as int] != m.spec_keys()[i as int]);
                }
                return false;
            }
            i = i + 1;
        }
        proof {
            assert(self.validators@ =~= m.spec_keys());
        }
        true
    }
}

} // verus!
