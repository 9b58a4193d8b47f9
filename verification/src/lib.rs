//! A Byzantine-fault-tolerant consensus engine with dynamic membership.
//!
//! The engine wraps a static atomic-broadcast instance with a signed-vote
//! counter and a distributed key generation run, so that the validator set
//! and the encryption policy can change in band while consensus continues.

pub mod batch;
pub mod builder;
pub mod change;
pub mod codec;
pub mod crypto;
pub mod dynamic_honey_badger;
pub mod fault;
pub mod honey_badger;
pub mod key_gen;
pub mod messages;
pub mod network_info;
pub mod ordmap;
pub mod params;
pub mod step;
mod util;
pub mod votes;

pub use crate::util::max_faulty;
