//! Construction of engines: for a validator of an existing network, and for
//! the very first node of a new one.

use vstd::prelude::*;
use std::sync::Arc;
use crate::change::{KeyMap, PubKeyMap};
use crate::crypto::{SecretKey, SecretKeySet};
use crate::dynamic_honey_badger::DynamicHoneyBadger;
use crate::fault::Error;
use crate::network_info::NetworkInfo;
use crate::ordmap::OrderedMap;
use crate::params::{EncryptionSchedule, Params, SubsetHandlingStrategy};

verus! {

/// Relies on rand::random: draws a fresh value; nothing is promised of it.
#[verifier::external_body]
fn random_u64() -> u64 {
    rand::random::<u64>()
}

/// Builds the key map of a set of nodes from their secret keys. Ids must be
/// distinct.
pub fn to_pub_keys(pairs: &Vec<(u64, SecretKey)>) -> (r: PubKeyMap)
    requires
        forall|i: int, j: int|
            0 <= i < j < pairs@.len() ==> (#[trigger] pairs@[i]).0 != (#[trigger] pairs@[j]).0,
    ensures
        r.wf(),
        forall|i: int|
            0 <= i < pairs@.len() ==> r.spec_get((#[trigger] pairs@[i]).0) == Some(
                pairs@[i].1.spec_public_key(),
            ),
        forall|k: u64|
            #[trigger] r.spec_contains_key(k) ==> exists|i: int|
                0 <= i < pairs@.len() && (#[trigger] pairs@[i]).0 == k,
    {
    let mut m: KeyMap = OrderedMap::new();
    let n = pairs.len();
    let mut i: usize = 0;
    while i < n
        invariant
            n == pairs@.len(),
            i <= n,
            m.wf(),
            forall|a: int, b: int|
                0 <= a < b < pairs@.len() ==> (#[trigger] pairs@[a]).0 != (#[trigger] pairs@[
                b]).0,
            forall|j: int|
                0 <= j < i ==> m.spec_get((#[trigger] pairs@[j]).0) == Some(
                    pairs@[j].1.spec_public_key(),
                ),
            forall|k: u64|
                #[trigger] m.spec_contains_key(k) ==> exists|j: int|
                    0 <= j < i && (#[trigger] pairs@[j]).0 == k,
        decreases n - i,
    {
        let (id, sk) = pairs[i];
        m.insert(id, sk.public_key());
        i = i + 1;
    }
    Arc::new(m)
}

/// Configures and builds engines.
pub struct DynamicHoneyBadgerBuilder {
    pub era: u64,
    pub epoch: u64,
    pub params: Params,
}

impl Default for DynamicHoneyBadgerBuilder {
    /// Era and epoch start at zero with default configuration.
    fn default() -> (r: Self)
        ensures
            r.era == 0,
            r.epoch == 0,
            r.params == (Params {
                max_future_epochs: 3,
                encryption_schedule: EncryptionSchedule::Always,
                subset_handling_strategy: SubsetHandlingStrategy::Incremental,
            }),
    {
        DynamicHoneyBadgerBuilder { era: 0, epoch: 0, params: Params::default() }
    }
}

impl DynamicHoneyBadgerBuilder {
    pub fn new() -> (r: Self)
        ensures
            r.era == 0,
            r.epoch == 0,
            r.params == (Params {
                max_future_epochs: 3,
                encryption_schedule: EncryptionSchedule::Always,
                subset_handling_strategy: SubsetHandlingStrategy::Incremental,
            }),
    {
        Self::default()
    }

    /// Sets the era the engine starts in.
    pub fn era(&mut self, era: u64)
        ensures
            final(self).era == era,
            final(self).epoch == old(self).epoch,
            final(self).params == old(self).params,
    {
        self.era = era;
    }

    /// Sets the internal epoch the broadcast starts at.
    pub fn epoch(&mut self, epoch: u64)
        ensures
            final(self).epoch == epoch,
            final(self).era == old(self).era,
            final(self).params == old(self).params,
    {
        self.epoch = epoch;
    }

    /// Sets how far ahead of us peers may pre-send messages.
    pub fn max_future_epochs(&mut self, max_future_epochs: u64)
        ensures
            final(self).params.max_future_epochs == max_future_epochs,
            final(self).params.encryption_schedule == old(self).params.encryption_schedule,
            final(self).params.subset_handling_strategy == old(
                self,
            ).params.subset_handling_strategy,
            final(self).era == old(self).era,
            final(self).epoch == old(self).epoch,
    {
        self.params.max_future_epochs = max_future_epochs;
    }

    /// Sets how the broadcast orders its common subset.
    pub fn subset_handling_strategy(&mut self, subset_handling_strategy: SubsetHandlingStrategy)
        ensures
            final(self).params.subset_handling_strategy == subset_handling_strategy,
            final(self).params.max_future_epochs == old(self).params.max_future_epochs,
            final(self).params.encryption_schedule == old(self).params.encryption_schedule,
            final(self).era == old(self).era,
            final(self).epoch == old(self).epoch,
    {
        self.params.subset_handling_strategy = subset_handling_strategy;
    }

    /// Sets when contributions are encrypted.
    pub fn encryption_schedule(&mut self, encryption_schedule: EncryptionSchedule)
        ensures
            final(self).params.encryption_schedule == encryption_schedule,
            final(self).params.max_future_epochs == old(self).params.max_future_epochs,
            final(self).params.subset_handling_strategy == old(
                self,
            ).params.subset_handling_strategy,
            final(self).era == old(self).era,
            final(self).epoch == old(self).epoch,
    {
        self.params.encryption_schedule = encryption_schedule;
    }

    /// Sets the whole configuration at once.
    pub fn params(&mut self, params: Params)
        ensures
            final(self).params == params,
            final(self).era == old(self).era,
            final(self).epoch == old(self).epoch,
    {
        self.params = params;
    }

    /// Builds an engine from an existing network snapshot.
    pub fn build(
        &mut self,
        netinfo: NetworkInfo,
        secret_key: SecretKey,
        pub_keys: PubKeyMap,
    ) -> (r: DynamicHoneyBadger)
        requires
            netinfo.wf(),
            pub_keys.wf(),
            netinfo.validators@ == pub_keys.spec_keys(),
        ensures
            r.wf(),
            r.era == old(self).era,
            r.honey_badger.epoch == old(self).epoch,
            r.honey_badger.params == old(self).params,
            r.secret_key == secret_key,
            r.pub_keys == pub_keys,
            r.spec_our_id() == netinfo.our_id,
            r.honey_badger.netinfo.public_key_set == netinfo.public_key_set,
            r.honey_badger.netinfo.secret_key_share == netinfo.secret_key_share,
            r.honey_badger.netinfo.validators@ == netinfo.validators@,
            r.key_gen_state is None,
            *final(self) == *old(self),
    {
        DynamicHoneyBadger::new(
            secret_key,
            pub_keys,
            Arc::new(netinfo),
            self.params,
            self.era,
            self.epoch,
        )
    }

    /// Builds the very first node of a new network: it generates a fresh
    /// long-term key and a threshold key set of threshold zero, and is the
    /// only validator.
    pub fn build_first_node(&mut self, our_id: u64) -> (r: Result<DynamicHoneyBadger, Error>)
        ensures
            match r {
                Ok(e) => {
                    &&& e.wf()
                    &&& e.era == old(self).era
                    &&& e.spec_our_id() == our_id
                    &&& e.pub_keys.spec_keys() == seq![our_id]
                    &&& e.pub_keys.spec_get(our_id) == Some(e.secret_key.spec_public_key())
                    &&& e.honey_badger.netinfo.public_key_set.threshold == 0
                    &&& e.honey_badger.netinfo.secret_key_share is Some
                    &&& e.honey_badger.params == old(self).params
                    &&& e.honey_badger.epoch == old(self).epoch
                    &&& e.key_gen_state is None
                },
                Err(_) => false,
            },
    {
        let sk_set = SecretKeySet::new(0, random_u64());
        let pk_set = sk_set.public_keys();
        let sks = sk_set.secret_key_share(0);
        let sk = SecretKey::new(random_u64());
        let mut m: KeyMap = OrderedMap::new();
        m.insert(our_id, sk.public_key());
        let pub_keys = Arc::new(m);
        let mut validators: Vec<u64> = Vec::new();
        validators.push(our_id);
        proof {
            assert(pub_keys.spec_keys() =~= seq![our_id]);
            assert(validators@ =~= seq![our_id]);
        }
        let netinfo = NetworkInfo::new(our_id, Some(sks), pk_set, validators);
        Ok(self.build(netinfo, sk, pub_keys))
    }
}

impl DynamicHoneyBadger {
    /// A builder for engines.
    pub fn builder() -> (r: DynamicHoneyBadgerBuilder)
        ensures
            r.era == 0,
            r.epoch == 0,
    {
        DynamicHoneyBadgerBuilder::new()
    }
}

} // verus!
