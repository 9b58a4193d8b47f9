use std::sync::Arc;

use dynamic_honey_badger::builder::to_pub_keys;
use dynamic_honey_badger::change::Change;
use dynamic_honey_badger::crypto::SecretKey;
use dynamic_honey_badger::fault::{FaultKind, FaultLog};
use dynamic_honey_badger::ordmap::OrderedMap;
use dynamic_honey_badger::votes::{SignedVote, VoteCounter};

fn setup(node_num: u64, era: u64) -> (Vec<VoteCounter>, Vec<Vec<SignedVote>>) {
    let mut sec_keys: Vec<(u64, SecretKey)> = Vec::new();
    for id in 0..node_num {
        sec_keys.push((id, SecretKey::new(1000 + id)));
    }
    let pub_keys = to_pub_keys(&sec_keys);

    let mut counters: Vec<VoteCounter> = Vec::new();
    for (id, sk) in sec_keys.iter() {
        counters.push(VoteCounter::new(*id, *sk, pub_keys.clone(), era));
    }

    let mut signed_votes: Vec<Vec<SignedVote>> = Vec::new();
    for ct in counters.iter_mut() {
        let mut svs: Vec<SignedVote> = Vec::new();
        for j in 0..node_num {
            let mut m = OrderedMap::new();
            m.insert(j, SecretKey::new(1000 + j).public_key());
            let change = Change::NodeChange(Arc::new(m));
            svs.push(ct.sing_vote_for(change).expect("sign vote"));
        }
        signed_votes.push(svs);
    }
    (counters, signed_votes)
}

#[test]
fn test_pending_votes() {
    let node_num: u64 = 4;
    let era: u64 = 5;
    // Create the counter instances and the first votes.
    let (mut counters, sv) = setup(node_num, era);
    // We will only use counter number 0.
    let ct = &mut counters[0];

    // Node 1 already contributed three votes. Of these, only the last one is pending.
    let faults = ct.add_pending_vote(1, sv[1][2].duplicate()).expect("add pending");
    assert!(faults.is_empty());
    let faults = ct.add_pending_vote(2, sv[2][1].duplicate()).expect("add pending");
    assert!(faults.is_empty());
    // A vote with a wrong signature is rejected, and the sender blamed.
    let fake_vote = SignedVote {
        sig: sv[2][1].sig,
        vote: sv[3][1].vote.duplicate(),
        voter: sv[3][1].voter,
    };
    let faults = ct.add_pending_vote(1, fake_vote).expect("Add pending");
    let expected_faults = FaultLog::init(1, FaultKind::InvalidVoteSignature);
    assert_eq!(faults, expected_faults);
    // Now the counter contains three pending votes.
    assert_eq!(
        ct.pending_votes(),
        vec![sv[0][3].duplicate(), sv[1][2].duplicate(), sv[2][1].duplicate()]
    );

    // A superseded vote is ignored silently.
    let faults = ct.add_pending_vote(3, sv[1][1].duplicate()).expect("add pending");
    assert!(faults.is_empty());
    // A newer vote replaces the voter's pending vote.
    let faults = ct.add_pending_vote(1, sv[2][2].duplicate()).expect("add pending");
    assert!(faults.is_empty());
    assert_eq!(
        ct.pending_votes(),
        vec![sv[0][3].duplicate(), sv[1][2].duplicate(), sv[2][2].duplicate()]
    );

    // Once a vote is committed, it no longer counts as pending.
    let vote_batch = vec![sv[1][3].duplicate(), sv[2][1].duplicate(), sv[0][3].duplicate()];
    ct.add_committed_votes(1, vote_batch).expect("add committed");
    assert_eq!(ct.pending_votes(), vec![sv[2][2].duplicate()]);
}

#[test]
fn test_committed_votes() {
    let node_num: u64 = 4;
    let era: u64 = 5;
    let (mut counters, sv) = setup(node_num, era);
    let ct = &mut counters[0];

    let mut vote_batch = vec![sv[1][1].duplicate()];
    // A vote with a wrong signature is rejected, and the proposer blamed.
    vote_batch.push(SignedVote {
        sig: sv[2][1].sig,
        vote: sv[3][1].vote.duplicate(),
        voter: sv[3][1].voter,
    });
    let faults = ct.add_committed_votes(1, vote_batch).expect("add committed");
    let expected_faults = FaultLog::init(1, FaultKind::InvalidCommittedVote);
    assert_eq!(faults, expected_faults);
    // One committed vote is not enough to win with four nodes.
    assert!(ct.compute_winner().is_none());

    // With a second vote for the same change, the change wins.
    let faults = ct.add_committed_vote(1, sv[2][1].duplicate()).expect("add committed");
    assert!(faults.is_empty());
    match ct.compute_winner() {
        Some(Change::NodeChange(pub_keys)) => assert_eq!(pub_keys.keys_vec(), vec![1]),
        winner => panic!("Winner: {:?}", winner),
    }
}
