use std::sync::Arc;

use dynamic_honey_badger::batch::Batch;
use dynamic_honey_badger::builder::{to_pub_keys, DynamicHoneyBadgerBuilder};
use dynamic_honey_badger::change::{Change, ChangeState};
use dynamic_honey_badger::codec::{kg_msg_bytes, vote_bytes};
use dynamic_honey_badger::crypto::{PublicKeySet, SecretKey, SecretKeyShare, Signature};
use dynamic_honey_badger::dynamic_honey_badger::DynamicHoneyBadger;
use dynamic_honey_badger::fault::{Error, FaultKind, FaultLog, HbError};
use dynamic_honey_badger::honey_badger::HbMessage;
use dynamic_honey_badger::key_gen::Part;
use dynamic_honey_badger::messages::{InternalContrib, JoinPlan, KeyGenMessage, Message};
use dynamic_honey_badger::network_info::NetworkInfo;
use dynamic_honey_badger::ordmap::OrderedMap;
use dynamic_honey_badger::step::Step;
use dynamic_honey_badger::votes::{SignedVote, Vote};

fn network(n: u64) -> (Vec<DynamicHoneyBadger>, Vec<(u64, SecretKey)>) {
    let mut sec: Vec<(u64, SecretKey)> = Vec::new();
    for i in 0..n {
        sec.push((i, SecretKey::new(100 + i)));
    }
    let pub_keys = to_pub_keys(&sec);
    let pk_set = PublicKeySet { threshold: 0, val: 7 };
    let mut engines: Vec<DynamicHoneyBadger> = Vec::new();
    for (id, sk) in sec.iter() {
        let mut validators: Vec<u64> = Vec::new();
        for i in 0..n {
            validators.push(i);
        }
        let netinfo = NetworkInfo::new(*id, Some(SecretKeyShare { val: *id }), pk_set, validators);
        let mut b = DynamicHoneyBadgerBuilder::new();
        engines.push(b.build(netinfo, *sk, pub_keys.clone()));
    }
    (engines, sec)
}

fn enqueue(step: Step, from: u64, queue: &mut Vec<(u64, Message)>, outs: &mut Vec<Vec<Batch>>, idx: usize) {
    for tm in step.messages {
        queue.push((from, tm.message));
    }
    outs[idx].extend(step.output);
}

/// Delivers every queued broadcast to every other engine until quiet.
fn deliver(
    engines: &mut Vec<DynamicHoneyBadger>,
    queue: &mut Vec<(u64, Message)>,
    outs: &mut Vec<Vec<Batch>>,
) {
    while !queue.is_empty() {
        let (from, msg) = queue.remove(0);
        let n = engines.len();
        for i in 0..n {
            let to = engines[i].our_id();
            if to == from {
                continue;
            }
            let step = engines[i].handle_message(from, msg.duplicate()).expect("handle message");
            let mut fresh: Vec<(u64, Message)> = Vec::new();
            for tm in step.messages {
                fresh.push((to, tm.message));
            }
            outs[i].extend(step.output);
            queue.extend(fresh);
        }
    }
}

fn propose_round(
    engines: &mut Vec<DynamicHoneyBadger>,
    queue: &mut Vec<(u64, Message)>,
    outs: &mut Vec<Vec<Batch>>,
) {
    let n = engines.len();
    for i in 0..n {
        let from = engines[i].our_id();
        match engines[i].propose(Vec::new()) {
            Ok(step) => enqueue(step, from, queue, outs, i),
            Err(Error::ProposeHoneyBadger(HbError::AlreadyProposed)) => {}
            Err(e) => panic!("propose: {:?}", e),
        }
    }
    deliver(engines, queue, outs);
}

fn empty_outs(n: usize) -> Vec<Vec<Batch>> {
    let mut outs: Vec<Vec<Batch>> = Vec::new();
    for _ in 0..n {
        outs.push(Vec::new());
    }
    outs
}

#[test]
fn four_node_genesis_round() {
    let (mut engines, _) = network(4);
    let mut queue: Vec<(u64, Message)> = Vec::new();
    let mut outs = empty_outs(4);
    for i in 0..4 {
        let from = engines[i].our_id();
        let step = engines[i].propose(Vec::new()).expect("propose");
        enqueue(step, from, &mut queue, &mut outs, i);
    }
    deliver(&mut engines, &mut queue, &mut outs);
    for i in 0..4 {
        assert_eq!(outs[i].len(), 1);
        let b = &outs[i][0];
        assert_eq!(b.epoch(), 0);
        assert_eq!(b.era(), 0);
        assert!(matches!(b.change(), ChangeState::NoChange));
        assert_eq!(b.contributions().len(), 4);
        assert!(b.is_empty());
    }
    // All four batches are equal in everything observers see.
    for i in 1..4 {
        assert!(outs[0][0].public_eq(&outs[i][0]));
    }
}

#[test]
fn vote_to_add_fifth_node_completes() {
    let (mut engines, _) = network(4);
    let pk4 = SecretKey::new(104).public_key();
    let mut queue: Vec<(u64, Message)> = Vec::new();
    let mut outs = empty_outs(4);
    for i in 0..4 {
        let from = engines[i].our_id();
        let step = engines[i].vote_to_add(4, pk4).expect("vote");
        enqueue(step, from, &mut queue, &mut outs, i);
    }
    deliver(&mut engines, &mut queue, &mut outs);
    for _round in 0..5 {
        propose_round(&mut engines, &mut queue, &mut outs);
    }

    // The votes commit, a key generation run starts, and once it is ready
    // the change completes; the era advances past each deciding batch.
    let mut in_progress_at: Option<u64> = None;
    let mut complete_at: Option<u64> = None;
    for b in outs[0].iter() {
        match b.change() {
            ChangeState::InProgress(Change::NodeChange(m)) => {
                assert_eq!(m.keys_vec(), vec![0, 1, 2, 3, 4]);
                if in_progress_at.is_none() {
                    in_progress_at = Some(b.epoch());
                }
            }
            ChangeState::Complete(Change::NodeChange(m)) => {
                assert_eq!(m.keys_vec(), vec![0, 1, 2, 3, 4]);
                if complete_at.is_none() {
                    complete_at = Some(b.epoch());
                }
            }
            _ => {}
        }
    }
    let ip = in_progress_at.expect("a batch announces the change in progress");
    let cp = complete_at.expect("a batch completes the change");
    assert!(ip < cp);

    // Batch epochs strictly increase, eras never exceed epochs, and all
    // correct nodes emitted identical batches.
    for i in 0..4 {
        assert_eq!(outs[i].len(), outs[0].len());
        for (j, b) in outs[i].iter().enumerate() {
            assert!(b.era() <= b.epoch());
            if j > 0 {
                assert!(outs[i][j - 1].epoch() < b.epoch());
            }
            assert!(b.public_eq(&outs[0][j]));
        }
    }
    // After the completing batch the engines run in a later era with the
    // five-node validator set.
    for i in 0..4 {
        assert_eq!(engines[i].era, cp + 1);
        assert_eq!(engines[i].pub_keys.keys_vec(), vec![0, 1, 2, 3, 4]);
    }
}

#[test]
fn late_joiner_attaches_via_join_plan() {
    let (mut engines, _) = network(4);
    let pk4 = SecretKey::new(104).public_key();
    let mut queue: Vec<(u64, Message)> = Vec::new();
    let mut outs = empty_outs(4);
    for i in 0..4 {
        let from = engines[i].our_id();
        let step = engines[i].vote_to_add(4, pk4).expect("vote");
        enqueue(step, from, &mut queue, &mut outs, i);
    }
    deliver(&mut engines, &mut queue, &mut outs);
    for _round in 0..3 {
        propose_round(&mut engines, &mut queue, &mut outs);
    }
    let complete = outs[0]
        .iter()
        .find(|b| matches!(b.change(), ChangeState::Complete(Change::NodeChange(_))))
        .expect("complete batch");
    let plan = complete.join_plan().expect("join plan");
    assert_eq!(plan.next_epoch(), complete.epoch() + 1);

    let sk4 = SecretKey::new(104);
    let (engine4, step) = DynamicHoneyBadger::new_joining(4, sk4, plan).expect("join");
    // The change is complete and consistent, so the first step is empty.
    assert!(step.messages.is_empty());
    assert!(step.output.is_empty());
    assert_eq!(engine4.era, complete.epoch() + 1);
    assert_eq!(engine4.pub_keys.keys_vec(), vec![0, 1, 2, 3, 4]);

    engines.push(engine4);
    let mut outs5 = empty_outs(5);
    let mut queue5: Vec<(u64, Message)> = Vec::new();
    propose_round(&mut engines, &mut queue5, &mut outs5);
    // One proposing round later the joiner is a full validator: every node
    // emits a batch with five contributions in the new era.
    for i in 0..5 {
        assert_eq!(outs5[i].len(), 1);
        let b = &outs5[i][0];
        assert_eq!(b.era(), complete.epoch() + 1);
        assert_eq!(b.contributions().len(), 5);
        assert!(b.public_eq(&outs5[0][0]));
    }
}

#[test]
fn forged_vote_is_a_fault_against_the_sender() {
    let (mut engines, sec) = network(4);
    let mut m = OrderedMap::new();
    m.insert(1, SecretKey::new(101).public_key());
    let vote = Vote { change: Change::NodeChange(Arc::new(m)), era: 0, num: 0 };
    let ser = vote_bytes(&vote);
    // The signature is node 1's, but the content names voter 3.
    let sig = sec[1].1.sign(&ser);
    let sv = SignedVote { vote, voter: 3, sig };
    let step = engines[0].handle_message(2, Message::SignedVote(sv)).expect("handle");
    assert_eq!(step.fault_log, FaultLog::init(2, FaultKind::InvalidVoteSignature));
    assert_eq!(engines[0].vote_counter.pending.len(), 0);
}

#[test]
fn out_of_era_messages() {
    let mut sec: Vec<(u64, SecretKey)> = Vec::new();
    for i in 0..2u64 {
        sec.push((i, SecretKey::new(100 + i)));
    }
    let pub_keys = to_pub_keys(&sec);
    let netinfo = NetworkInfo::new(
        0,
        Some(SecretKeyShare { val: 0 }),
        PublicKeySet { threshold: 0, val: 7 },
        vec![0, 1],
    );
    let mut b = DynamicHoneyBadgerBuilder::new();
    b.era(5);
    let mut engine = b.build(netinfo, sec[0].1, pub_keys);
    assert_eq!(engine.era, 5);

    let kg = KeyGenMessage::Part(Part { commit: 1 });
    let sig = Signature { signer: 0, digest: 0 };
    // A message from a future era is a fault against the sender.
    let step = engine.handle_message(1, Message::KeyGen(7, kg, sig)).expect("handle");
    assert_eq!(step.fault_log, FaultLog::init(1, FaultKind::UnexpectedDhbMessageEra));
    // A message from a finished era is silently ignored.
    let step = engine.handle_message(1, Message::KeyGen(3, kg, sig)).expect("handle");
    assert!(step.fault_log.is_empty());
    assert!(step.messages.is_empty());
    assert!(step.output.is_empty());
}

#[test]
fn superseding_own_vote() {
    let (mut engines, _) = network(1);
    let pk9 = SecretKey::new(109).public_key();
    let pk8 = SecretKey::new(108).public_key();
    // Vote for change A at num 0, then for change B at num 1, before
    // either commits.
    let step_a = engines[0].vote_to_add(9, pk9).expect("vote a");
    assert_eq!(step_a.messages.len(), 1);
    let step_b = engines[0].vote_to_add(8, pk8).expect("vote b");
    assert_eq!(step_b.messages.len(), 1);
    // Only B is pending.
    assert_eq!(engines[0].vote_counter.pending.len(), 1);
    let pending = engines[0].vote_counter.pending.get(0).expect("own pending vote");
    assert_eq!(pending.vote.num, 1);
    match &pending.vote.change {
        Change::NodeChange(m) => assert_eq!(m.keys_vec(), vec![0, 8]),
        c => panic!("pending change: {:?}", c),
    }
    let pending_b = pending.duplicate();

    // A single validator commits its own proposal at once; only B can be
    // committed, and it wins outright.
    let step = engines[0].propose(Vec::new()).expect("propose");
    assert_eq!(step.output.len(), 1);
    let b = &step.output[0];
    match b.change() {
        ChangeState::InProgress(Change::NodeChange(m)) => {
            assert_eq!(m.keys_vec(), vec![0, 8]);
        }
        c => panic!("change: {:?}", c),
    }
    assert_eq!(pending_b.vote.num, 1);
}

#[test]
fn propose_twice_is_an_error() {
    let (mut engines, _) = network(2);
    engines[0].propose(Vec::new()).expect("first propose");
    match engines[0].propose(Vec::new()) {
        Err(Error::ProposeHoneyBadger(HbError::AlreadyProposed)) => {}
        _ => panic!("expected an already-proposed error"),
    }
}

#[test]
fn broadcast_message_from_non_validator_is_an_error() {
    let (mut engines, _) = network(2);
    let contribution = InternalContrib {
        payload: Vec::new(),
        key_gen_messages: Vec::new(),
        votes: Vec::new(),
    };
    let msg = Message::HoneyBadger(0, HbMessage::Propose(0, contribution));
    match engines[0].handle_message(99, msg) {
        Err(Error::UnknownSender) => {}
        _ => panic!("expected unknown sender"),
    }
}

#[test]
fn invalid_join_plan_is_rejected() {
    let mut keys = OrderedMap::new();
    keys.insert(0, SecretKey::new(100).public_key());
    let plan = JoinPlan {
        era: 1,
        change: ChangeState::Complete(Change::EncryptionSchedule(
            dynamic_honey_badger::params::EncryptionSchedule::Never,
        )),
        pub_keys: Arc::new(keys),
        pub_key_set: PublicKeySet { threshold: 0, val: 7 },
        params: dynamic_honey_badger::params::Params {
            max_future_epochs: 3,
            encryption_schedule: dynamic_honey_badger::params::EncryptionSchedule::Always,
            subset_handling_strategy:
                dynamic_honey_badger::params::SubsetHandlingStrategy::Incremental,
        },
    };
    match DynamicHoneyBadger::new_joining(9, SecretKey::new(109), plan) {
        Err(Error::InvalidJoinPlan) => {}
        _ => panic!("expected invalid join plan"),
    }
}

#[test]
fn key_gen_message_without_a_run_is_a_fault() {
    let (mut engines, sec) = network(2);
    let kg = KeyGenMessage::Part(Part { commit: 5 });
    let good_sig = sec[1].1.sign(&kg_msg_bytes(&kg));
    let step = engines[0].handle_message(1, Message::KeyGen(0, kg, good_sig)).expect("handle");
    assert_eq!(step.fault_log, FaultLog::init(1, FaultKind::UnexpectedKeyGenMessage));

    let bad_sig = Signature { signer: 12345, digest: 0 };
    let step = engines[0].handle_message(1, Message::KeyGen(0, kg, bad_sig)).expect("handle");
    assert_eq!(step.fault_log, FaultLog::init(1, FaultKind::InvalidKeyGenMessageSignature));
}

#[test]
fn first_node_builds_and_runs_alone() {
    let mut b = DynamicHoneyBadgerBuilder::new();
    let mut engine = b.build_first_node(0).expect("first node");
    assert_eq!(engine.pub_keys.keys_vec(), vec![0]);
    let step = engine.propose(vec![42]).expect("propose");
    assert_eq!(step.output.len(), 1);
    let batch = &step.output[0];
    assert_eq!(batch.epoch(), 0);
    assert_eq!(batch.era(), 0);
    assert_eq!(batch.contributions().len(), 1);
    assert_eq!(batch.len(), 1);
    assert!(!batch.is_empty());
    assert_eq!(batch.iter(), vec![42]);
}

#[test]
fn encryption_schedule_change_completes_without_key_generation() {
    let (mut engines, _) = network(1);
    let step = engines[0]
        .handle_input(dynamic_honey_badger::messages::Input::Change(Change::EncryptionSchedule(
            dynamic_honey_badger::params::EncryptionSchedule::Never,
        )))
        .expect("vote");
    assert_eq!(step.messages.len(), 1);
    let step = engines[0]
        .handle_input(dynamic_honey_badger::messages::Input::User(Vec::new()))
        .expect("propose");
    assert_eq!(step.output.len(), 1);
    let b = &step.output[0];
    // The policy switch needs no key generation: it completes at once and
    // the era advances right past the batch.
    match b.change() {
        ChangeState::Complete(Change::EncryptionSchedule(s)) => {
            assert_eq!(*s, dynamic_honey_badger::params::EncryptionSchedule::Never);
        }
        c => panic!("change: {:?}", c),
    }
    assert_eq!(engines[0].era, b.epoch() + 1);
    assert_eq!(
        engines[0].honey_badger.params.encryption_schedule,
        dynamic_honey_badger::params::EncryptionSchedule::Never
    );
}

#[test]
fn fault_threshold_values() {
    assert_eq!(dynamic_honey_badger::max_faulty(0), 0);
    assert_eq!(dynamic_honey_badger::max_faulty(1), 0);
    assert_eq!(dynamic_honey_badger::max_faulty(3), 0);
    assert_eq!(dynamic_honey_badger::max_faulty(4), 1);
    assert_eq!(dynamic_honey_badger::max_faulty(7), 2);
    assert_eq!(dynamic_honey_badger::max_faulty(10), 3);
}

#[test]
fn should_propose_tracks_votes_and_buffer() {
    let (mut engines, _) = network(2);
    // Nothing pending, nobody proposed: no reason to go first.
    assert!(!engines[0].should_propose());
    let pk = SecretKey::new(108).public_key();
    engines[0].vote_to_add(8, pk).expect("vote");
    // Our own unpropagated vote is a reason to propose.
    assert!(engines[0].should_propose());
    engines[0].propose(Vec::new()).expect("propose");
    // With a proposal in flight there is nothing to do.
    assert!(!engines[0].should_propose());
}
