use std::sync::Arc;

use dynamic_honey_badger::change::{Change, ChangeState};
use dynamic_honey_badger::codec::{
    join_plan_bytes, join_plan_from_bytes, kg_msg_bytes, message_bytes, message_from_bytes,
    vote_bytes,
};
use dynamic_honey_badger::crypto::{PublicKeySet, SecretKey, Signature};
use dynamic_honey_badger::honey_badger::HbMessage;
use dynamic_honey_badger::key_gen::{Ack, Part};
use dynamic_honey_badger::messages::{InternalContrib, JoinPlan, KeyGenMessage, Message, SignedKeyGenMsg};
use dynamic_honey_badger::ordmap::OrderedMap;
use dynamic_honey_badger::params::{EncryptionSchedule, Params, SubsetHandlingStrategy};
use dynamic_honey_badger::votes::{SignedVote, Vote};

fn sample_change() -> Change {
    let mut m = OrderedMap::new();
    m.insert(3, SecretKey::new(1003).public_key());
    m.insert(7, SecretKey::new(1007).public_key());
    Change::NodeChange(Arc::new(m))
}

fn sample_signed_vote() -> SignedVote {
    let vote = Vote { change: sample_change(), era: 4, num: 2 };
    let sk = SecretKey::new(1003);
    let ser = vote_bytes(&vote);
    let sig = sk.sign(&ser);
    SignedVote { vote, voter: 3, sig }
}

fn sample_signed_kg_msg() -> SignedKeyGenMsg {
    let msg = KeyGenMessage::Ack(Ack { part_owner: 3, echo: 1003 });
    let sk = SecretKey::new(1007);
    let ser = kg_msg_bytes(&msg);
    let sig = sk.sign(&ser);
    SignedKeyGenMsg { era: 4, sender: 7, msg, sig }
}

#[test]
fn message_round_trip_honey_badger() {
    let contribution = InternalContrib {
        payload: vec![1, 2, 3, 255, 0, 17],
        key_gen_messages: vec![sample_signed_kg_msg()],
        votes: vec![sample_signed_vote()],
    };
    let m = Message::HoneyBadger(4, HbMessage::Propose(9, contribution));
    let bytes = message_bytes(&m);
    let decoded = message_from_bytes(&bytes).expect("decode");
    assert_eq!(decoded, m);
}

#[test]
fn message_round_trip_key_gen() {
    let kg = KeyGenMessage::Part(Part { commit: 99 });
    let sk = SecretKey::new(1003);
    let sig = sk.sign(&kg_msg_bytes(&kg));
    let m = Message::KeyGen(6, kg, sig);
    let bytes = message_bytes(&m);
    let decoded = message_from_bytes(&bytes).expect("decode");
    assert_eq!(decoded, m);
}

#[test]
fn message_round_trip_signed_vote() {
    let m = Message::SignedVote(sample_signed_vote());
    let bytes = message_bytes(&m);
    let decoded = message_from_bytes(&bytes).expect("decode");
    assert_eq!(decoded, m);
}

#[test]
fn join_plan_round_trip() {
    let mut keys = OrderedMap::new();
    keys.insert(0, SecretKey::new(1000).public_key());
    keys.insert(1, SecretKey::new(1001).public_key());
    let plan = JoinPlan {
        era: 11,
        change: ChangeState::InProgress(sample_change()),
        pub_keys: Arc::new(keys),
        pub_key_set: PublicKeySet { threshold: 1, val: 42 },
        params: Params {
            max_future_epochs: 5,
            encryption_schedule: EncryptionSchedule::TickTock(2, 3),
            subset_handling_strategy: SubsetHandlingStrategy::AllAtEnd,
        },
    };
    let bytes = join_plan_bytes(&plan);
    let decoded = join_plan_from_bytes(&bytes).expect("decode");
    assert_eq!(decoded, plan);
}

#[test]
fn decode_rejects_garbage_and_trailing_bytes() {
    let garbage: Vec<u8> = vec![9, 9, 9, 9];
    assert!(message_from_bytes(&garbage).is_none());

    let m = Message::SignedVote(sample_signed_vote());
    let mut bytes = message_bytes(&m);
    bytes.pop();
    assert!(message_from_bytes(&bytes).is_none());

    let mut bytes2 = message_bytes(&m);
    bytes2.push(0);
    assert!(message_from_bytes(&bytes2).is_none());
}

#[test]
fn unsorted_key_map_is_refused() {
    // A forged encoding whose key map entries are out of order must not
    // decode into a change.
    let mut good = OrderedMap::new();
    good.insert(1, SecretKey::new(1001).public_key());
    good.insert(2, SecretKey::new(1002).public_key());
    let vote = Vote { change: Change::NodeChange(Arc::new(good)), era: 0, num: 0 };
    let sk = SecretKey::new(1001);
    let sig = sk.sign(&vote_bytes(&vote));
    let m = Message::SignedVote(SignedVote { vote, voter: 1, sig });
    let mut bytes = message_bytes(&m);
    // The two 16-byte key map entries start after the message tag (1),
    // change tag (1) and the key map length header (8): swap them.
    let base = 1 + 1 + 8;
    for i in 0..16 {
        bytes.swap(base + i, base + 16 + i);
    }
    assert!(message_from_bytes(&bytes).is_none());
}

#[test]
fn signature_verifies_only_under_matching_key() {
    let sk = SecretKey::new(77);
    let pk = sk.public_key();
    let other = SecretKey::new(78).public_key();
    let msg = vec![1, 2, 3];
    let sig = sk.sign(&msg);
    assert!(pk.verify(&sig, &msg));
    assert!(!other.verify(&sig, &msg));
    let tampered = vec![1, 2, 4];
    assert!(!pk.verify(&sig, &tampered));
}

#[test]
fn signature_covers_exact_vote_encoding() {
    let sv = sample_signed_vote();
    let sk = SecretKey::new(1003);
    let reser = vote_bytes(&sv.vote);
    let sig2 = sk.sign(&reser);
    assert_eq!(sv.sig, sig2);
    assert_ne!(sig2, Signature { signer: 0, digest: 0 });
}
