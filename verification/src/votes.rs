//! Votes for membership and policy changes, and the counter that collects
//! them and decides when a change has crossed the fault threshold.

use vstd::prelude::*;
use crate::change::{Change, ChangeV, PubKeyMap};
use crate::codec::{enc_vote, vote_bytes};
use crate::crypto::{spec_sign, spec_verify, PublicKey, SecretKey, Signature};
use crate::fault::{Error, Fault, FaultKind, FaultLog};
use crate::ordmap::{kseq_get, OrderedMap};
use crate::util::{max_faulty, spec_max_faulty};

verus! {

/// A vote for a change, cast in one era. `num` is a per-voter sequence
/// number; a later vote from the same voter supersedes an earlier one.
#[derive(PartialEq, Eq, Debug)]
pub struct Vote {
    pub change: Change,
    pub era: u64,
    pub num: u64,
}

/// The mathematical value of a `Vote`.
pub struct VoteV {
    pub change: ChangeV,
    pub era: u64,
    pub num: u64,
}

pub open spec fn vote_v_wf(v: VoteV) -> bool {
    crate::change::change_v_wf(v.change)
}

pub open spec fn signed_vote_v_wf(v: SignedVoteV) -> bool {
    vote_v_wf(v.vote)
}

impl Vote {
    pub open spec fn view(self) -> VoteV {
        VoteV { change: self.change.view(), era: self.era, num: self.num }
    }

    pub open spec fn wf(self) -> bool {
        vote_v_wf(self.view())
    }

    pub fn duplicate(&self) -> (r: Vote)
        ensures
            r == *self,
    {
        Vote { change: self.change.duplicate(), era: self.era, num: self.num }
    }
}

/// A vote together with its voter and the voter's signature over the
/// canonical encoding of the vote.
#[derive(PartialEq, Eq, Debug)]
pub struct SignedVote {
    pub vote: Vote,
    pub voter: u64,
    pub sig: Signature,
}

pub struct SignedVoteV {
    pub vote: VoteV,
    pub voter: u64,
    pub sig: Signature,
}

impl SignedVote {
    pub open spec fn view(self) -> SignedVoteV {
        SignedVoteV { vote: self.vote.view(), voter: self.voter, sig: self.sig }
    }

    pub open spec fn wf(self) -> bool {
        signed_vote_v_wf(self.view())
    }

    pub fn duplicate(&self) -> (r: SignedVote)
        ensures
            r == *self,
    {
        SignedVote { vote: self.vote.duplicate(), voter: self.voter, sig: self.sig }
    }

    /// The era the vote was cast in.
    pub fn era(&self) -> (e: u64)
        ensures
            e == self.vote.era,
    {
        self.vote.era
    }

    /// The node that cast the vote.
    pub fn voter(&self) -> (v: u64)
        ensures
            v == self.voter,
    {
        self.voter
    }
}

/// A signed vote is valid against a key map when its voter is a validator
/// there and the signature covers the canonical encoding of the vote.
pub open spec fn sv_valid(pub_keys: Seq<(u64, PublicKey)>, sv: SignedVoteV) -> bool {
    match kseq_get(pub_keys, sv.voter) {
        Some(pk) => spec_verify(pk, sv.sig, enc_vote(sv.vote)),
        None => false,
    }
}

/// Whether a pending signed vote is newer than what consensus has committed
/// for its voter.
pub open spec fn newer_than(committed: Seq<(u64, Vote)>, sv: SignedVote) -> bool {
    match kseq_get(committed, sv.voter) {
        Some(v) => v.num < sv.vote.num,
        None => true,
    }
}

/// The pending votes that still need to be proposed, in voter order.
pub open spec fn spec_pending_votes(
    pending: Seq<(u64, SignedVote)>,
    committed: Seq<(u64, Vote)>,
) -> Seq<SignedVote>
    decreases pending.len(),
{
    if pending.len() == 0 {
        Seq::empty()
    } else {
        let init = spec_pending_votes(pending.drop_last(), committed);
        if newer_than(committed, pending.last().1) {
            init.push(pending.last().1)
        } else {
            init
        }
    }
}

/// How committing one signed vote changes the committed vote of one voter.
pub open spec fn commit_one(
    era: u64,
    pub_keys: Seq<(u64, PublicKey)>,
    prior: Option<Vote>,
    sv: SignedVote,
    v: u64,
) -> Option<Vote> {
    if sv.voter == v && (match prior {
        Some(p) => p.num < sv.vote.num,
        None => true,
    }) && sv.vote.era == era && sv_valid(pub_keys, sv.view()) {
        Some(sv.vote)
    } else {
        prior
    }
}

/// How committing a list of signed votes, in order, changes the committed
/// vote of one voter.
pub open spec fn commit_fold(
    era: u64,
    pub_keys: Seq<(u64, PublicKey)>,
    prior: Option<Vote>,
    votes: Seq<SignedVote>,
    v: u64,
) -> Option<Vote>
    decreases votes.len(),
{
    if votes.len() == 0 {
        prior
    } else {
        commit_fold(
            era,
            pub_keys,
            commit_one(era, pub_keys, prior, votes.first(), v),
            votes.drop_first(),
            v,
        )
    }
}

/// The fault log of committing one signed vote: one fault against the
/// proposer when the vote is neither superseded nor acceptable.
pub open spec fn commit_one_log(
    era: u64,
    pub_keys: Seq<(u64, PublicKey)>,
    prior: Option<Vote>,
    sv: SignedVote,
    proposer: u64,
) -> Seq<Fault> {
    let superseded = match prior {
        Some(p) => p.num >= sv.vote.num,
        None => false,
    };
    let good = sv.vote.era == era && sv_valid(pub_keys, sv.view());
    if !superseded && !good {
        seq![Fault { node_id: proposer, kind: FaultKind::InvalidCommittedVote }]
    } else {
        Seq::empty()
    }
}

/// The fault log of committing a list of signed votes in order: the
/// concatenation of the per-vote logs, each judged against the committed
/// state the earlier votes left for its voter.
pub open spec fn commit_logs(
    era: u64,
    pub_keys: Seq<(u64, PublicKey)>,
    committed0: Seq<(u64, Vote)>,
    votes: Seq<SignedVote>,
    proposer: u64,
) -> Seq<Fault>
    decreases votes.len(),
{
    if votes.len() == 0 {
        Seq::empty()
    } else {
        let sv = votes.last();
        commit_logs(era, pub_keys, committed0, votes.drop_last(), proposer) + commit_one_log(
            era,
            pub_keys,
            commit_fold(era, pub_keys, kseq_get(committed0, sv.voter), votes.drop_last(), sv.voter),
            sv,
            proposer,
        )
    }
}

/// How many committed votes name a change.
pub open spec fn count_votes_for(committed: Seq<(u64, Vote)>, c: ChangeV) -> nat
    decreases committed.len(),
{
    if committed.len() == 0 {
        0
    } else {
        count_votes_for(committed.drop_last(), c) + (if committed.last().1.change.view() == c {
            1nat
        } else {
            0nat
        })
    }
}

/// The first change whose count among the first `n` committed votes
/// exceeds `f`, scanning in voter order.
pub open spec fn winner_upto(committed: Seq<(u64, Vote)>, f: nat, n: nat) -> Option<ChangeV>
    decreases n,
{
    if n == 0 || n > committed.len() {
        None
    } else {
        match winner_upto(committed, f, (n - 1) as nat) {
            Some(c) => Some(c),
            None => {
                let c = committed[n - 1].1.change.view();
                if count_votes_for(committed.take(n as int), c) > f {
                    Some(c)
                } else {
                    None
                }
            },
        }
    }
}

/// The winning change, if any: the first change backed by strictly more
/// committed votes than the tolerated number of faulty validators.
pub open spec fn spec_winner(committed: Seq<(u64, Vote)>, f: nat) -> Option<ChangeV> {
    winner_upto(committed, f, committed.len() as nat)
}

/// Counting votes over a prefix never counts more than over the whole.
pub proof fn lemma_count_take_le(committed: Seq<(u64, Vote)>, c: ChangeV, n: int)
    requires
        0 <= n <= committed.len(),
    ensures
        count_votes_for(committed.take(n), c) <= count_votes_for(committed, c),
    decreases committed.len() - n,
{
    if n == committed.len() {
        assert(committed.take(n) =~= committed);
    } else {
        lemma_count_take_le(committed, c, n + 1);
        assert(committed.take(n + 1).drop_last() =~= committed.take(n));
        assert(count_votes_for(committed.take(n), c) <= count_votes_for(
            committed.take(n + 1),
            c,
        ));
    }
}

/// For any voter, committing votes never lowers the committed sequence
/// number, and the committed vote changes only for a strictly larger
/// number: the engine commits at most one vote per voter and number, and
/// the committed number is monotonic per voter.
pub proof fn lemma_committed_num_monotone(
    era: u64,
    pub_keys: Seq<(u64, PublicKey)>,
    prior: Option<Vote>,
    votes: Seq<SignedVote>,
    v: u64,
)
    ensures
        ({
            let after = commit_fold(era, pub_keys, prior, votes, v);
            match (prior, after) {
                (Some(p), Some(q)) => q.num >= p.num && (q.num == p.num ==> q == p),
                (Some(p), None) => false,
                (None, _) => true,
            }
        }),
    decreases votes.len(),
{
    if votes.len() > 0 {
        lemma_committed_num_monotone(
            era,
            pub_keys,
            commit_one(era, pub_keys, prior, votes.first(), v),
            votes.drop_first(),
            v,
        );
    }
}

/// A winner is always backed by strictly more than `f` committed votes,
/// each from a distinct voter: the committed store holds one vote per
/// voter.
pub proof fn lemma_winner_count(committed: Seq<(u64, Vote)>, f: nat, n: nat, c: ChangeV)
    requires
        winner_upto(committed, f, n) == Some(c),
        n <= committed.len(),
    ensures
        count_votes_for(committed, c) > f,
    decreases n,
{
    if n > 0 {
        match winner_upto(committed, f, (n - 1) as nat) {
            Some(c2) => {
                lemma_winner_count(committed, f, (n - 1) as nat, c);
            },
            None => {
                lemma_count_take_le(committed, c, n as int);
            },
        }
    }
}

/// Collects signed votes for changes and decides when a change has crossed
/// the fault threshold.
///
/// `pending` holds, per voter, the latest signed vote seen but not yet
/// committed by consensus; `committed` holds, per voter, the latest vote
/// that appeared inside a committed batch.
pub struct VoteCounter {
    pub our_id: u64,
    pub secret_key: SecretKey,
    pub pub_keys: PubKeyMap,
    pub era: u64,
    pub pending: OrderedMap<SignedVote>,
    pub committed: OrderedMap<Vote>,
}

impl VoteCounter {
    pub open spec fn wf(self) -> bool {
        &&& self.pub_keys.wf()
        &&& self.pending.wf()
        &&& self.committed.wf()
        &&& forall|i: int|
            0 <= i < self.pending.sq().len() ==> (#[trigger] self.pending.sq()[i]).1.wf()
                && self.pending.sq()[i].1.voter == self.pending.sq()[i].0
        &&& forall|i: int|
            0 <= i < self.committed.sq().len() ==> (#[trigger] self.committed.sq()[i]).1.wf()
    }

    /// A counter with fresh pending and committed stores for one era.
    pub fn new(our_id: u64, secret_key: SecretKey, pub_keys: PubKeyMap, era: u64) -> (r: Self)
        requires
            pub_keys.wf(),
        ensures
            r.wf(),
            r.our_id == our_id,
            r.secret_key == secret_key,
            r.pub_keys == pub_keys,
            r.era == era,
            r.pending.sq() == Seq::<(u64, SignedVote)>::empty(),
            r.committed.sq() == Seq::<(u64, Vote)>::empty(),
    {
        VoteCounter {
            our_id,
            secret_key,
            pub_keys,
            era,
            pending: OrderedMap::new(),
            committed: OrderedMap::new(),
        }
    }

    /// Signs a vote for `change` in the current era, one sequence number
    /// above our own pending vote, and makes it our pending vote. The bump
    /// of the number lets us overwrite our own earlier uncommitted vote.
    pub fn sing_vote_for(&mut self, change: Change) -> (r: Result<SignedVote, Error>)
        requires
            old(self).wf(),
            change.wf(),
            match old(self).pending.spec_get(old(self).our_id) {
                Some(sv) => sv.vote.num < u64::MAX,
                None => true,
            },
        ensures
            final(self).wf(),
            ({
                let num = match old(self).pending.spec_get(old(self).our_id) {
                    Some(sv) => (sv.vote.num + 1) as u64,
                    None => 0u64,
                };
                match r {
                    Ok(sv) => {
                        &&& sv.vote.change == change
                        &&& sv.vote.era == old(self).era
                        &&& sv.vote.num == num
                        &&& sv.voter == old(self).our_id
                        &&& sv.sig == spec_sign(old(self).secret_key, enc_vote(sv.vote.view()))
                        &&& final(self).pending.spec_get(old(self).our_id) == Some(sv)
                    },
                    Err(_) => false,
                }
            }),
            forall|v: u64|
                v != old(self).our_id ==> final(self).pending.spec_get(v) == old(self).pending.spec_get(v),
            final(self).committed == old(self).committed,
            final(self).era == old(self).era,
            final(self).pub_keys == old(self).pub_keys,
            final(self).our_id == old(self).our_id,
            final(self).secret_key == old(self).secret_key,
    {
        let num: u64 = match self.pending.get(self.our_id) {
            Some(sv) => sv.vote.num + 1,
            None => 0,
        };
        let vote = Vote { change, era: self.era, num };
        let ser = vote_bytes(&vote);
        let sig = self.secret_key.sign(&ser);
        let sv = SignedVote { vote, voter: self.our_id, sig };
        let out = sv.duplicate();
        let ghost pend0 = self.pending;
        self.pending.insert(self.our_id, sv);
        proof {
            self.pending.lemma_all_entries();
            assert forall|i: int| 0 <= i < self.pending.sq().len() implies (#[trigger] self
                .pending
                .sq()[i]).1.wf() && self.pending.sq()[i].1.voter == self.pending.sq()[i].0 by {
                let k = self.pending.sq()[i].0;
                if k == self.our_id {
                } else {
                    assert(self.pending.spec_get(k) == pend0.spec_get(k));
                    assert(pend0.spec_contains_key(k));
                    let j = pend0.spec_index_of(k);
                    assert(0 <= j < pend0.sq().len() && pend0.sq()[j].0 == k);
                    crate::ordmap::lemma_kseq_index_unique(pend0.sq(), k, j);
                }
            }
        }
        Ok(out)
    }

    /// Whether a signed vote verifies under its voter's key in this era's
    /// key map.
    fn valid_sig(&self, sv: &SignedVote) -> (b: bool)
        requires
            self.wf(),
        ensures
            b == sv_valid(self.pub_keys.sq(), sv.view()),
    {
        let ser = vote_bytes(&sv.vote);
        match self.pub_keys.get(sv.voter) {
            Some(pk) => pk.verify(&sv.sig, &ser),
            None => false,
        }
    }

    /// Takes note of a peer's pending vote. A vote from another era or one
    /// that does not supersede the voter's stored pending vote is dropped
    /// silently; a bad signature is a fault against the sender; otherwise
    /// the vote replaces the voter's pending vote.
    pub fn add_pending_vote(&mut self, sender_id: u64, sv: SignedVote) -> (r: Result<
        FaultLog,
        Error,
    >)
        requires
            old(self).wf(),
            sv.wf(),
        ensures
            final(self).wf(),
            final(self).committed == old(self).committed,
            final(self).era == old(self).era,
            final(self).pub_keys == old(self).pub_keys,
            final(self).our_id == old(self).our_id,
            final(self).secret_key == old(self).secret_key,
            ({
                let stale = sv.vote.era != old(self).era || (match old(self).pending.spec_get(
                    sv.voter,
                ) {
                    Some(p) => p.vote.num >= sv.vote.num,
                    None => false,
                });
                let valid = sv_valid(old(self).pub_keys.sq(), sv.view());
                match r {
                    Ok(log) => {
                        if stale {
                            log.sq() == Seq::<crate::fault::Fault>::empty() && final(self).pending
                                == old(self).pending
                        } else if !valid {
                            log.sq() == seq![
                                crate::fault::Fault {
                                    node_id: sender_id,
                                    kind: FaultKind::InvalidVoteSignature,
                                },
                            ] && final(self).pending == old(self).pending
                        } else {
                            log.sq() == Seq::<crate::fault::Fault>::empty() && final(self).pending.spec_get(sv.voter) == Some(sv) && (forall|v: u64|
                                v != sv.voter ==> final(self).pending.spec_get(v) == old(self).pending.spec_get(v))
                        }
                    },
                    Err(_) => false,
                }
            }),
    {
        let stale = sv.vote.era != self.era || (match self.pending.get(sv.voter) {
            Some(p) => p.vote.num >= sv.vote.num,
            None => false,
        });
        if stale {
            return Ok(FaultLog::new());
        }
        if !self.valid_sig(&sv) {
            return Ok(FaultLog::init(sender_id, FaultKind::InvalidVoteSignature));
        }
        let ghost pend0 = self.pending;
        let voter = sv.voter;
        self.pending.insert(voter, sv);
        proof {
            self.pending.lemma_all_entries();
            assert forall|i: int| 0 <= i < self.pending.sq().len() implies (#[trigger] self
                .pending
                .sq()[i]).1.wf() && self.pending.sq()[i].1.voter == self.pending.sq()[i].0 by {
                let k = self.pending.sq()[i].0;
                if k == voter {
                } else {
                    assert(self.pending.spec_get(k) == pend0.spec_get(k));
                    assert(pend0.spec_contains_key(k));
                    let j = pend0.spec_index_of(k);
                    assert(0 <= j < pend0.sq().len() && pend0.sq()[j].0 == k);
                    crate::ordmap::lemma_kseq_index_unique(pend0.sq(), k, j);
                }
            }
        }
        Ok(FaultLog::new())
    }

    /// The pending votes that supersede what is already committed, in voter
    /// order: these ride along in our next proposal.
    pub fn pending_votes(&self) -> (r: Vec<SignedVote>)
        requires
            self.wf(),
        ensures
            r@ == spec_pending_votes(self.pending.sq(), self.committed.sq()),
            forall|i: int| 0 <= i < r@.len() ==> (#[trigger] r@[i]).wf(),
    {
        let mut out: Vec<SignedVote> = Vec::new();
        let n = self.pending.len();
        let mut i: usize = 0;
        while i < n
            invariant
                self.wf(),
                n == self.pending.sq().len(),
                i <= n,
                out@ == spec_pending_votes(self.pending.sq().take(i as int), self.committed.sq()),
                forall|j: int| 0 <= j < out@.len() ==> (#[trigger] out@[j]).wf(),
            decreases n - i,
        {
            let sv = self.pending.val_at(i);
            let newer = match self.committed.get(sv.voter) {
                Some(v) => v.num < sv.vote.num,
                None => true,
            };
            proof {
                assert(self.pending.sq().take(i + 1).drop_last() =~= self.pending.sq().take(
                    i as int,
                ));
                assert(self.pending.sq().take(i + 1).last() == self.pending.sq()[i as int]);
            }
            if newer {
                out.push(sv.duplicate());
            }
            i = i + 1;
        }
        proof {
            assert(self.pending.sq().take(n as int) =~= self.pending.sq());
        }
        out
    }

    /// Commits a list of votes found in a proposer's contribution, in order.
    pub fn add_committed_votes(&mut self, proposer_id: u64, signed_votes: Vec<SignedVote>) -> (r:
        Result<FaultLog, Error>)
        requires
            old(self).wf(),
            forall|i: int| 0 <= i < signed_votes@.len() ==> (#[trigger] signed_votes@[i]).wf(),
        ensures
            final(self).wf(),
            final(self).pending == old(self).pending,
            final(self).era == old(self).era,
            final(self).pub_keys == old(self).pub_keys,
            final(self).our_id == old(self).our_id,
            final(self).secret_key == old(self).secret_key,
            r matches Ok(log) && log.sq() == commit_logs(
                old(self).era,
                old(self).pub_keys.sq(),
                old(self).committed.sq(),
                signed_votes@,
                proposer_id,
            ),
            forall|v: u64|
                final(self).committed.spec_get(v) == commit_fold(
                    old(self).era,
                    old(self).pub_keys.sq(),
                    old(self).committed.spec_get(v),
                    signed_votes@,
                    v,
                ),
    {
        let mut log = FaultLog::new();
        let n = signed_votes.len();
        let mut i: usize = 0;
        let ghost c0 = *self;
        let mut rest = signed_votes;
        let ghost all = rest@;
        let mut idx: usize = 0;
        while idx < n
            invariant
                self.wf(),
                n == all.len(),
                idx <= n,
                rest@ == all,
                self.pending == c0.pending,
                self.era == c0.era,
                self.pub_keys == c0.pub_keys,
                self.our_id == c0.our_id,
                self.secret_key == c0.secret_key,
                c0.wf(),
                forall|k: int| 0 <= k < all.len() ==> (#[trigger] all[k]).wf(),
                log.sq() == commit_logs(
                    c0.era,
                    c0.pub_keys.sq(),
                    c0.committed.sq(),
                    all.take(idx as int),
                    proposer_id,
                ),
                forall|v: u64|
                    self.committed.spec_get(v) == commit_fold(
                        c0.era,
                        c0.pub_keys.sq(),
                        c0.committed.spec_get(v),
                        all.take(idx as int),
                        v,
                    ),
            decreases n - idx,
        {
            let sv = rest[idx].duplicate();
            let ghost pre = *self;
            let f = match self.add_committed_vote(proposer_id, sv) {
                Ok(f) => f,
                Err(e) => {
                    return Err(e);
                },
            };
            log.extend(f);
            proof {
                assert(all.take(idx + 1).drop_last() =~= all.take(idx as int));
                assert(all.take(idx + 1).last() == all[idx as int]);
                assert(log.sq() == commit_logs(
                    c0.era,
                    c0.pub_keys.sq(),
                    c0.committed.sq(),
                    all.take(idx + 1),
                    proposer_id,
                ));
                assert forall|v: u64|
                    self.committed.spec_get(v) == commit_fold(
                        c0.era,
                        c0.pub_keys.sq(),
                        c0.committed.spec_get(v),
                        all.take(idx + 1),
                        v,
                    ) by {
                    assert(all.take(idx + 1).drop_last() =~= all.take(idx as int));
                    Self::lemma_fold_push(
                        c0.era,
                        c0.pub_keys.sq(),
                        c0.committed.spec_get(v),
                        all.take(idx as int),
                        all[idx as int],
                        v,
                    );
                    assert(all.take(idx + 1) =~= all.take(idx as int).push(all[idx as int]));
                }
            }
            idx = idx + 1;
        }
        proof {
            assert(all.take(n as int) =~= all);
        }
        Ok(log)
    }

    /// Folding one more vote at the end is one `commit_one` step after the
    /// fold of the front.
    proof fn lemma_fold_push(
        era: u64,
        pub_keys: Seq<(u64, PublicKey)>,
        prior: Option<Vote>,
        votes: Seq<SignedVote>,
        sv: SignedVote,
        v: u64,
    )
        ensures
            commit_fold(era, pub_keys, prior, votes.push(sv), v) == commit_one(
                era,
                pub_keys,
                commit_fold(era, pub_keys, prior, votes, v),
                sv,
                v,
            ),
        decreases votes.len(),
    {
        let t = votes.push(sv);
        if votes.len() == 0 {
            assert(t.first() == sv);
            assert(t.drop_first() =~= Seq::<SignedVote>::empty());
            assert(commit_fold(
                era,
                pub_keys,
                commit_one(era, pub_keys, prior, sv, v),
                t.drop_first(),
                v,
            ) == commit_one(era, pub_keys, prior, sv, v));
            assert(commit_fold(era, pub_keys, prior, votes, v) == prior);
        } else {
            assert(t.first() == votes.first());
            assert(t.drop_first() =~= votes.drop_first().push(sv));
            Self::lemma_fold_push(
                era,
                pub_keys,
                commit_one(era, pub_keys, prior, votes.first(), v),
                votes.drop_first(),
                sv,
                v,
            );
        }
    }

    /// Commits one vote from a proposer's contribution. A superseded vote
    /// is dropped silently; a wrong era or a bad signature is a fault
    /// against the proposer; otherwise the vote becomes the voter's
    /// committed vote.
    pub fn add_committed_vote(&mut self, proposer_id: u64, signed_vote: SignedVote) -> (r: Result<
        FaultLog,
        Error,
    >)
        requires
            old(self).wf(),
            signed_vote.wf(),
        ensures
            final(self).wf(),
            final(self).pending == old(self).pending,
            final(self).era == old(self).era,
            final(self).pub_keys == old(self).pub_keys,
            final(self).our_id == old(self).our_id,
            final(self).secret_key == old(self).secret_key,
            forall|v: u64|
                final(self).committed.spec_get(v) == commit_one(
                    old(self).era,
                    old(self).pub_keys.sq(),
                    old(self).committed.spec_get(v),
                    signed_vote,
                    v,
                ),
            ({
                let superseded = match old(self).committed.spec_get(signed_vote.voter) {
                    Some(p) => p.num >= signed_vote.vote.num,
                    None => false,
                };
                let good = signed_vote.vote.era == old(self).era && sv_valid(
                    old(self).pub_keys.sq(),
                    signed_vote.view(),
                );
                match r {
                    Ok(log) => log.sq() == commit_one_log(
                        old(self).era,
                        old(self).pub_keys.sq(),
                        old(self).committed.spec_get(signed_vote.voter),
                        signed_vote,
                        proposer_id,
                    ) && log.sq() == if !superseded && !good {
                        seq![
                            crate::fault::Fault {
                                node_id: proposer_id,
                                kind: FaultKind::InvalidCommittedVote,
                            },
                        ]
                    } else {
                        Seq::<crate::fault::Fault>::empty()
                    },
                    Err(_) => false,
                }
            }),
    {
        let superseded = match self.committed.get(signed_vote.voter) {
            Some(p) => p.num >= signed_vote.vote.num,
            None => false,
        };
        if superseded {
            return Ok(FaultLog::new());
        }
        if signed_vote.vote.era != self.era || !self.valid_sig(&signed_vote) {
            return Ok(FaultLog::init(proposer_id, FaultKind::InvalidCommittedVote));
        }
        let ghost com0 = self.committed;
        let voter = signed_vote.voter;
        self.committed.insert(voter, signed_vote.vote);
        proof {
            self.committed.lemma_all_entries();
            assert forall|i: int| 0 <= i < self.committed.sq().len() implies (#[trigger] self
                .committed
                .sq()[i]).1.wf() by {
                let k = self.committed.sq()[i].0;
                if k == voter {
                } else {
                    assert(self.committed.spec_get(k) == com0.spec_get(k));
                    assert(com0.spec_contains_key(k));
                    let j = com0.spec_index_of(k);
                    assert(0 <= j < com0.sq().len() && com0.sq()[j].0 == k);
                    crate::ordmap::lemma_kseq_index_unique(com0.sq(), k, j);
                }
            }
        }
        Ok(FaultLog::new())
    }

    /// The first change backed by strictly more committed votes than the
    /// number of faulty validators the key map tolerates, if any. Voters are
    /// scanned in id order, so every correct node picks the same winner.
    pub fn compute_winner(&self) -> (r: Option<Change>)
        requires
            self.wf(),
        ensures
            ({
                let f = spec_max_faulty(self.pub_keys.sq().len());
                match r {
                    Some(c) => c.wf() && spec_winner(self.committed.sq(), f) == Some(c.view())
                        && count_votes_for(self.committed.sq(), c.view()) > f,
                    None => spec_winner(self.committed.sq(), f) is None,
                }
            }),
    {
        let f = max_faulty(self.pub_keys.len());
        let n = self.committed.len();
        let mut i: usize = 0;
        while i < n
            invariant
                self.wf(),
                f == spec_max_faulty(self.pub_keys.sq().len()),
                n == self.committed.sq().len(),
                i <= n,
                winner_upto(self.committed.sq(), f as nat, i as nat) is None,
            decreases n - i,
        {
            let c = &self.committed.val_at(i).change;
            let mut count: usize = 0;
            let mut j: usize = 0;
            while j < i + 1
                invariant
                    self.wf(),
                    i < n,
                    n == self.committed.sq().len(),
                    j <= i + 1,
                    c == &self.committed.sq()[i as int].1.change,
                    count == count_votes_for(self.committed.sq().take(j as int), c.view()),
                    count <= j,
                decreases i + 1 - j,
            {
                proof {
                    assert(self.committed.sq().take(j + 1).drop_last() =~= self.committed.sq()
                        .take(j as int));
                    assert(self.committed.sq().take(j + 1).last() == self.committed.sq()[j as int]);
                }
                if self.committed.val_at(j).change.eq_change(c) {
                    count = count + 1;
                }
                j = j + 1;
            }
            if count > f {
                proof {
                    let cs = self.committed.sq();
                    assert(winner_upto(cs, f as nat, (i + 1) as nat) == Some(c.view()));
                    Self::lemma_winner_extend(cs, f as nat, (i + 1) as nat, cs.len() as nat);
                    lemma_winner_count(cs, f as nat, cs.len() as nat, c.view());
                }
                return Some(c.duplicate());
            }
            proof {
                assert(winner_upto(self.committed.sq(), f as nat, (i + 1) as nat) is None);
            }
            i = i + 1;
        }
        None
    }

    /// Once a prefix has a winner, every longer prefix has the same winner.
    proof fn lemma_winner_extend(committed: Seq<(u64, Vote)>, f: nat, n: nat, m: nat)
        requires
            n <= m <= committed.len(),
            winner_upto(committed, f, n) is Some,
        ensures
            winner_upto(committed, f, m) == winner_upto(committed, f, n),
        decreases m - n,
    {
        if n < m {
            Self::lemma_winner_extend(committed, f, n, (m - 1) as nat);
        }
    }
}

} // verus!
