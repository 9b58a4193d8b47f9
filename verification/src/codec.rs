//! The canonical wire encoding of the engine's data. Signatures cover these
//! bytes, and peers compare batches byte for byte, so encoding is total and
//! decoding of every encoded value is proved to give the value back.
//!
//! Integers are little endian; sequences carry their length in front; sum
//! types carry a one-byte tag. Decoders take a buffer and a position and
//! return the decoded value with the position after it.

use vstd::prelude::*;
use std::sync::Arc;
use crate::change::{Change, ChangeState, ChangeStateV, ChangeV, KeyMap};
use crate::change::{change_state_v_wf, change_v_wf};
use crate::crypto::{PublicKey, PublicKeySet, Signature};
use crate::honey_badger::{hb_message_v_wf, HbMessage, HbMessageV};
use crate::key_gen::{Ack, Part};
use crate::messages::{internal_contrib_v_wf, message_v_wf, join_plan_v_wf};
use crate::messages::{InternalContrib, InternalContribV, JoinPlan, JoinPlanV, KeyGenMessage, Message, MessageV, SignedKeyGenMsg};
use crate::ordmap::{kseq_sorted, lemma_step_sorted, OrderedMap};
use crate::params::{EncryptionSchedule, Params, SubsetHandlingStrategy};
use crate::votes::{signed_vote_v_wf, vote_v_wf, SignedVote, SignedVoteV, Vote, VoteV};

verus! {

// ---------------------------------------------------------------- u64

#[verifier::opaque]
pub open spec fn enc_u64(x: u64) -> Seq<u8> {
    seq![
        (x & 0xff) as u8,
        ((x >> 8) & 0xff) as u8,
        ((x >> 16) & 0xff) as u8,
        ((x >> 24) & 0xff) as u8,
        ((x >> 32) & 0xff) as u8,
        ((x >> 40) & 0xff) as u8,
        ((x >> 48) & 0xff) as u8,
        ((x >> 56) & 0xff) as u8,
    ]
}

pub open spec fn u64_le(s: Seq<u8>) -> u64
    recommends
        s.len() >= 8,
{
    (s[0] as u64) | ((s[1] as u64) << 8) | ((s[2] as u64) << 16) | ((s[3] as u64) << 24) | ((
    s[4] as u64) << 32) | ((s[5] as u64) << 40) | ((s[6] as u64) << 48) | ((s[7] as u64) << 56)
}

#[verifier::opaque]
pub open spec fn dec_u64(s: Seq<u8>) -> Option<(u64, int)> {
    if s.len() < 8 {
        None
    } else {
        Some((u64_le(s), 8int))
    }
}

pub proof fn lemma_rt_u64(x: u64, rest: Seq<u8>)
    ensures
        enc_u64(x).len() == 8,
        dec_u64(enc_u64(x) + rest) == Some((x, 8int)),
{
    reveal(enc_u64); reveal(dec_u64);
    let s = enc_u64(x) + rest;
    assert(s[0] == (x & 0xff) as u8);
    assert(s[1] == ((x >> 8) & 0xff) as u8);
    assert(s[2] == ((x >> 16) & 0xff) as u8);
    assert(s[3] == ((x >> 24) & 0xff) as u8);
    assert(s[4] == ((x >> 32) & 0xff) as u8);
    assert(s[5] == ((x >> 40) & 0xff) as u8);
    assert(s[6] == ((x >> 48) & 0xff) as u8);
    assert(s[7] == ((x >> 56) & 0xff) as u8);
    assert((((x & 0xff) as u8) as u64) | (((((x >> 8) & 0xff) as u8) as u64) << 8) | (((((x >> 16)
        & 0xff) as u8) as u64) << 16) | (((((x >> 24) & 0xff) as u8) as u64) << 24) | (((((x >> 32)
        & 0xff) as u8) as u64) << 32) | (((((x >> 40) & 0xff) as u8) as u64) << 40) | (((((x >> 48)
        & 0xff) as u8) as u64) << 48) | (((((x >> 56) & 0xff) as u8) as u64) << 56) == x)
        by (bit_vector);
}

pub fn encode_u64(out: &mut Vec<u8>, x: u64)
    ensures
        final(out)@ == old(out)@ + enc_u64(x),
{
    reveal(enc_u64);
    out.push((x & 0xff) as u8);
    out.push(((x >> 8) & 0xff) as u8);
    out.push(((x >> 16) & 0xff) as u8);
    out.push(((x >> 24) & 0xff) as u8);
    out.push(((x >> 32) & 0xff) as u8);
    out.push(((x >> 40) & 0xff) as u8);
    out.push(((x >> 48) & 0xff) as u8);
    out.push(((x >> 56) & 0xff) as u8);
    proof {
        assert(out@ =~= old(out)@ + enc_u64(x));
    }
}

pub fn decode_u64(buf: &Vec<u8>, pos: usize) -> (r: Option<(u64, usize)>)
    requires
        pos <= buf@.len(),
    ensures
        ({
            let s = buf@.skip(pos as int);
            match r {
                Some(t) => dec_u64(s) == Some((t.0, 8int)) && t.1 == pos + 8 && t.1 <= buf@.len(),
                None => dec_u64(s) is None,
            }
        }),
{
    reveal(dec_u64);
    if buf.len() - pos < 8 {
        return None;
    }
    let x = (buf[pos] as u64) | ((buf[pos + 1] as u64) << 8) | ((buf[pos + 2] as u64) << 16) | ((
    buf[pos + 3] as u64) << 24) | ((buf[pos + 4] as u64) << 32) | ((buf[pos + 5] as u64) << 40) | ((
    buf[pos + 6] as u64) << 48) | ((buf[pos + 7] as u64) << 56);
    proof {
        let s = buf@.skip(pos as int);
        assert(s[0] == buf@[pos as int]);
        assert(s[1] == buf@[pos + 1]);
        assert(s[2] == buf@[pos + 2]);
        assert(s[3] == buf@[pos + 3]);
        assert(s[4] == buf@[pos + 4]);
        assert(s[5] == buf@[pos + 5]);
        assert(s[6] == buf@[pos + 6]);
        assert(s[7] == buf@[pos + 7]);
    }
    Some((x, pos + 8))
}

// ---------------------------------------------------------------- tags

pub open spec fn enc_tag(t: u8) -> Seq<u8> {
    seq![t]
}

pub open spec fn dec_tag(s: Seq<u8>) -> Option<(u8, int)> {
    if s.len() < 1 {
        None
    } else {
        Some((s[0], 1int))
    }
}

pub fn encode_tag(out: &mut Vec<u8>, t: u8)
    ensures
        final(out)@ == old(out)@ + enc_tag(t),
{
    out.push(t);
    proof {
        assert(out@ =~= old(out)@ + enc_tag(t));
    }
}

pub fn decode_tag(buf: &Vec<u8>, pos: usize) -> (r: Option<(u8, usize)>)
    requires
        pos <= buf@.len(),
    ensures
        ({
            let s = buf@.skip(pos as int);
            match r {
                Some(t) => dec_tag(s) == Some((t.0, 1int)) && t.1 == pos + 1 && t.1 <= buf@.len(),
                None => dec_tag(s) is None,
            }
        }),
{
    if buf.len() - pos < 1 {
        return None;
    }
    Some((buf[pos], pos + 1))
}

// ---------------------------------------------------------------- bytes

#[verifier::opaque]
pub open spec fn enc_bytes(b: Seq<u8>) -> Seq<u8> {
    enc_u64(b.len() as u64) + b
}

#[verifier::opaque]
pub open spec fn dec_bytes(s: Seq<u8>) -> Option<(Seq<u8>, int)> {
    match dec_u64(s) {
        None => None,
        Some(t) => {
            let n = t.0 as int;
            if s.len() >= 8 + n {
                Some((s.subrange(8, 8 + n), 8 + n))
            } else {
                None
            }
        },
    }
}

pub proof fn lemma_rt_bytes(b: Seq<u8>, rest: Seq<u8>)
    requires
        b.len() <= u64::MAX,
    ensures
        enc_bytes(b).len() == 8 + b.len(),
        dec_bytes(enc_bytes(b) + rest) == Some((b, 8 + b.len() as int)),
{
    reveal(enc_bytes); reveal(dec_bytes);
    let s = enc_bytes(b) + rest;
    assert(s =~= enc_u64(b.len() as u64) + (b + rest));
    lemma_rt_u64(b.len() as u64, b + rest);
    assert(s.subrange(8, 8 + b.len() as int) =~= b);
}

pub fn encode_bytes(out: &mut Vec<u8>, b: &Vec<u8>)
    ensures
        final(out)@ == old(out)@ + enc_bytes(b@),
{
    reveal(enc_bytes);
    let n = b.len();
    encode_u64(out, n as u64);
    let ghost mid = out@;
    let mut i: usize = 0;
    while i < n
        invariant
            n == b@.len(),
            i <= n,
            out@ == mid + b@.take(i as int),
        decreases n - i,
    {
        out.push(b[i]);
        proof {
            assert(out@ =~= mid + b@.take(i + 1));
        }
        i = i + 1;
    }
    proof {
        assert(b@.take(n as int) =~= b@);
        assert(out@ =~= old(out)@ + enc_bytes(b@));
    }
}

pub fn decode_bytes(buf: &Vec<u8>, pos: usize) -> (r: Option<(Vec<u8>, usize)>)
    requires
        pos <= buf@.len(),
    ensures
        ({
            let s = buf@.skip(pos as int);
            match r {
                Some(t) => dec_bytes(s) == Some((t.0@, (t.1 - pos) as int)) && pos <= t.1
                    <= buf@.len(),
                None => dec_bytes(s) is None,
            }
        }),
{
    reveal(dec_bytes);
    let (n64, p1) = match decode_u64(buf, pos) {
        Some(t) => t,
        None => {
            return None;
        },
    };
    if n64 > (buf.len() - p1) as u64 {
        proof {
            let s = buf@.skip(pos as int);
            assert(s.len() == buf@.len() - pos);
            assert(8 + n64 > s.len());
        }
        return None;
    }
    let n = n64 as usize;
    let blen = buf.len();
    let mut v: Vec<u8> = Vec::new();
    let mut i: usize = 0;
    while i < n
        invariant
            blen == buf@.len(),
            p1 + n <= blen,
            i <= n,
            v@ =~= buf@.subrange(p1 as int, p1 + i),
        decreases n - i,
    {
        assert(p1 + i < blen);
        let b = buf[p1 + i];
        v.push(b);
        proof {
            assert(v@ =~= buf@.subrange(p1 as int, p1 + i + 1));
        }
        i = i + 1;
    }
    proof {
        let s = buf@.skip(pos as int);
        assert(s.subrange(8, 8 + n as int) =~= buf@.subrange(p1 as int, p1 + n as int));
    }
    Some((v, p1 + n))
}

// ---------------------------------------------------------------- signature

#[verifier::opaque]
pub open spec fn enc_sig(sig: Signature) -> Seq<u8> {
    enc_u64(sig.signer) + enc_u64(sig.digest)
}

#[verifier::opaque]
pub open spec fn dec_sig(s: Seq<u8>) -> Option<(Signature, int)> {
    match dec_u64(s) {
        None => None,
        Some(t1) => match dec_u64(s.skip(8)) {
            None => None,
            Some(t2) => Some((Signature { signer: t1.0, digest: t2.0 }, 16int)),
        },
    }
}

pub proof fn lemma_rt_sig(sig: Signature, rest: Seq<u8>)
    ensures
        enc_sig(sig).len() == 16,
        dec_sig(enc_sig(sig) + rest) == Some((sig, 16int)),
{
    reveal(enc_sig); reveal(dec_sig);
    let s = enc_sig(sig) + rest;
    assert(s =~= enc_u64(sig.signer) + (enc_u64(sig.digest) + rest));
    lemma_rt_u64(sig.signer, enc_u64(sig.digest) + rest);
    assert(s.skip(8) =~= enc_u64(sig.digest) + rest);
    lemma_rt_u64(sig.digest, rest);
}

pub fn encode_sig(out: &mut Vec<u8>, sig: &Signature)
    ensures
        final(out)@ == old(out)@ + enc_sig(*sig),
{
    reveal(enc_sig);
    encode_u64(out, sig.signer);
    encode_u64(out, sig.digest);
    proof {
        assert(out@ =~= old(out)@ + enc_sig(*sig));
    }
}

pub fn decode_sig(buf: &Vec<u8>, pos: usize) -> (r: Option<(Signature, usize)>)
    requires
        pos <= buf@.len(),
    ensures
        ({
            let s = buf@.skip(pos as int);
            match r {
                Some(t) => dec_sig(s) == Some((t.0, 16int)) && t.1 == pos + 16 && t.1
                    <= buf@.len(),
                None => dec_sig(s) is None,
            }
        }),
{
    reveal(dec_sig);
    let (a, p1) = match decode_u64(buf, pos) {
        Some(t) => t,
        None => {
            return None;
        },
    };
    proof {
        assert(buf@.skip(pos as int).skip(8) =~= buf@.skip(p1 as int));
    }
    let (b, p2) = match decode_u64(buf, p1) {
        Some(t) => t,
        None => {
            return None;
        },
    };
    Some((Signature { signer: a, digest: b }, p2))
}

// ---------------------------------------------------------------- threshold key set

#[verifier::opaque]
pub open spec fn enc_pk_set(p: PublicKeySet) -> Seq<u8> {
    enc_u64(p.threshold) + enc_u64(p.val)
}

#[verifier::opaque]
pub open spec fn dec_pk_set(s: Seq<u8>) -> Option<(PublicKeySet, int)> {
    match dec_u64(s) {
        None => None,
        Some(t1) => match dec_u64(s.skip(8)) {
            None => None,
            Some(t2) => Some((PublicKeySet { threshold: t1.0, val: t2.0 }, 16int)),
        },
    }
}

pub proof fn lemma_rt_pk_set(p: PublicKeySet, rest: Seq<u8>)
    ensures
        enc_pk_set(p).len() == 16,
        dec_pk_set(enc_pk_set(p) + rest) == Some((p, 16int)),
{
    reveal(enc_pk_set); reveal(dec_pk_set);
    let s = enc_pk_set(p) + rest;
    assert(s =~= enc_u64(p.threshold) + (enc_u64(p.val) + rest));
    lemma_rt_u64(p.threshold, enc_u64(p.val) + rest);
    assert(s.skip(8) =~= enc_u64(p.val) + rest);
    lemma_rt_u64(p.val, rest);
}

pub fn encode_pk_set(out: &mut Vec<u8>, p: &PublicKeySet)
    ensures
        final(out)@ == old(out)@ + enc_pk_set(*p),
{
    reveal(enc_pk_set);
    encode_u64(out, p.threshold);
    encode_u64(out, p.val);
    proof {
        assert(out@ =~= old(out)@ + enc_pk_set(*p));
    }
}

pub fn decode_pk_set(buf: &Vec<u8>, pos: usize) -> (r: Option<(PublicKeySet, usize)>)
    requires
        pos <= buf@.len(),
    ensures
        ({
            let s = buf@.skip(pos as int);
            match r {
                Some(t) => dec_pk_set(s) == Some((t.0, 16int)) && t.1 == pos + 16 && t.1
                    <= buf@.len(),
                None => dec_pk_set(s) is None,
            }
        }),
{
    reveal(dec_pk_set);
    let (a, p1) = match decode_u64(buf, pos) {
        Some(t) => t,
        None => {
            return None;
        },
    };
    proof {
        assert(buf@.skip(pos as int).skip(8) =~= buf@.skip(p1 as int));
    }
    let (b, p2) = match decode_u64(buf, p1) {
        Some(t) => t,
        None => {
            return None;
        },
    };
    Some((PublicKeySet { threshold: a, val: b }, p2))
}

// ---------------------------------------------------------------- key generation messages

#[verifier::opaque]
pub open spec fn enc_kg_msg(m: KeyGenMessage) -> Seq<u8> {
    match m {
        KeyGenMessage::Part(p) => seq![0u8] + enc_u64(p.commit),
        KeyGenMessage::Ack(a) => seq![1u8] + enc_u64(a.part_owner) + enc_u64(a.echo),
    }
}

#[verifier::opaque]
pub open spec fn dec_kg_msg(s: Seq<u8>) -> Option<(KeyGenMessage, int)> {
    match dec_tag(s) {
        None => None,
        Some(t) => {
            if t.0 == 0 {
                match dec_u64(s.skip(1)) {
                    None => None,
                    Some(t1) => Some((KeyGenMessage::Part(Part { commit: t1.0 }), 9int)),
                }
            } else if t.0 == 1 {
                match dec_u64(s.skip(1)) {
                    None => None,
                    Some(t1) => match dec_u64(s.skip(9)) {
                        None => None,
                        Some(t2) => Some(
                            (KeyGenMessage::Ack(Ack { part_owner: t1.0, echo: t2.0 }), 17int),
                        ),
                    },
                }
            } else {
                None
            }
        },
    }
}

pub proof fn lemma_rt_kg_msg(m: KeyGenMessage, rest: Seq<u8>)
    ensures
        dec_kg_msg(enc_kg_msg(m) + rest) == Some((m, enc_kg_msg(m).len() as int)),
{
    reveal(enc_kg_msg); reveal(dec_kg_msg);
    let s = enc_kg_msg(m) + rest;
    match m {
        KeyGenMessage::Part(p) => {
            assert(s[0] == 0u8);
            assert(s.skip(1) =~= enc_u64(p.commit) + rest);
            lemma_rt_u64(p.commit, rest);
            assert(enc_kg_msg(m).len() == 9);
        },
        KeyGenMessage::Ack(a) => {
            assert(s[0] == 1u8);
            assert(s.skip(1) =~= enc_u64(a.part_owner) + (enc_u64(a.echo) + rest));
            lemma_rt_u64(a.part_owner, enc_u64(a.echo) + rest);
            assert(s.skip(9) =~= enc_u64(a.echo) + rest);
            lemma_rt_u64(a.echo, rest);
            assert(enc_kg_msg(m).len() == 17);
        },
    }
}

pub fn encode_kg_msg(out: &mut Vec<u8>, m: &KeyGenMessage)
    ensures
        final(out)@ == old(out)@ + enc_kg_msg(*m),
{
    reveal(enc_kg_msg);
    match m {
        KeyGenMessage::Part(p) => {
            encode_tag(out, 0);
            encode_u64(out, p.commit);
        },
        KeyGenMessage::Ack(a) => {
            encode_tag(out, 1);
            encode_u64(out, a.part_owner);
            encode_u64(out, a.echo);
        },
    }
    proof {
        assert(out@ =~= old(out)@ + enc_kg_msg(*m));
    }
}

pub fn decode_kg_msg(buf: &Vec<u8>, pos: usize) -> (r: Option<(KeyGenMessage, usize)>)
    requires
        pos <= buf@.len(),
    ensures
        ({
            let s = buf@.skip(pos as int);
            match r {
                Some(t) => dec_kg_msg(s) == Some((t.0, (t.1 - pos) as int)) && pos <= t.1
                    <= buf@.len(),
                None => dec_kg_msg(s) is None,
            }
        }),
{
    reveal(dec_kg_msg);
    let (tag, p0) = match decode_tag(buf, pos) {
        Some(t) => t,
        None => {
            return None;
        },
    };
    proof {
        assert(buf@.skip(pos as int).skip(1) =~= buf@.skip(p0 as int));
    }
    if tag == 0 {
        let (c, p1) = match decode_u64(buf, p0) {
            Some(t) => t,
            None => {
                return None;
            },
        };
        Some((KeyGenMessage::Part(Part { commit: c }), p1))
    } else if tag == 1 {
        let (a, p1) = match decode_u64(buf, p0) {
            Some(t) => t,
            None => {
                return None;
            },
        };
        proof {
            assert(buf@.skip(pos as int).skip(9) =~= buf@.skip(p1 as int));
        }
        let (b, p2) = match decode_u64(buf, p1) {
            Some(t) => t,
            None => {
                return None;
            },
        };
        Some((KeyGenMessage::Ack(Ack { part_owner: a, echo: b }), p2))
    } else {
        None
    }
}

// ---------------------------------------------------------------- signed key generation messages

#[verifier::opaque]
pub open spec fn enc_skgm(m: SignedKeyGenMsg) -> Seq<u8> {
    enc_u64(m.era) + enc_u64(m.sender) + enc_kg_msg(m.msg) + enc_sig(m.sig)
}

#[verifier::opaque]
pub open spec fn dec_skgm(s: Seq<u8>) -> Option<(SignedKeyGenMsg, int)> {
    match dec_u64(s) {
        None => None,
        Some(t1) => match dec_u64(s.skip(8)) {
            None => None,
            Some(t2) => match dec_kg_msg(s.skip(16)) {
                None => None,
                Some(t3) => match dec_sig(s.skip(16 + t3.1)) {
                    None => None,
                    Some(t4) => Some(
                        (
                            SignedKeyGenMsg { era: t1.0, sender: t2.0, msg: t3.0, sig: t4.0 },
                            16 + t3.1 + t4.1,
                        ),
                    ),
                },
            },
        },
    }
}

pub proof fn lemma_rt_skgm(m: SignedKeyGenMsg, rest: Seq<u8>)
    ensures
        dec_skgm(enc_skgm(m) + rest) == Some((m, enc_skgm(m).len() as int)),
{
    reveal(enc_skgm); reveal(dec_skgm);
    let s = enc_skgm(m) + rest;
    let r1 = enc_u64(m.sender) + (enc_kg_msg(m.msg) + (enc_sig(m.sig) + rest));
    assert(s =~= enc_u64(m.era) + r1);
    lemma_rt_u64(m.era, r1);
    assert(s.skip(8) =~= enc_u64(m.sender) + (enc_kg_msg(m.msg) + (enc_sig(m.sig) + rest)));
    lemma_rt_u64(m.sender, enc_kg_msg(m.msg) + (enc_sig(m.sig) + rest));
    assert(s.skip(16) =~= enc_kg_msg(m.msg) + (enc_sig(m.sig) + rest));
    lemma_rt_kg_msg(m.msg, enc_sig(m.sig) + rest);
    let kn = enc_kg_msg(m.msg).len() as int;
    assert(s.skip(16 + kn) =~= enc_sig(m.sig) + rest);
    lemma_rt_sig(m.sig, rest);
}

pub fn encode_skgm(out: &mut Vec<u8>, m: &SignedKeyGenMsg)
    ensures
        final(out)@ == old(out)@ + enc_skgm(*m),
{
    reveal(enc_skgm);
    encode_u64(out, m.era);
    encode_u64(out, m.sender);
    encode_kg_msg(out, &m.msg);
    encode_sig(out, &m.sig);
    proof {
        assert(out@ =~= old(out)@ + enc_skgm(*m));
    }
}

pub fn decode_skgm(buf: &Vec<u8>, pos: usize) -> (r: Option<(SignedKeyGenMsg, usize)>)
    requires
        pos <= buf@.len(),
    ensures
        ({
            let s = buf@.skip(pos as int);
            match r {
                Some(t) => dec_skgm(s) == Some((t.0, (t.1 - pos) as int)) && pos <= t.1
                    <= buf@.len(),
                None => dec_skgm(s) is None,
            }
        }),
{
    reveal(dec_skgm);
    let (era, p1) = match decode_u64(buf, pos) {
        Some(t) => t,
        None => {
            return None;
        },
    };
    proof {
        assert(buf@.skip(pos as int).skip(8) =~= buf@.skip(p1 as int));
    }
    let (sender, p2) = match decode_u64(buf, p1) {
        Some(t) => t,
        None => {
            return None;
        },
    };
    proof {
        assert(buf@.skip(pos as int).skip(16) =~= buf@.skip(p2 as int));
    }
    let (msg, p3) = match decode_kg_msg(buf, p2) {
        Some(t) => t,
        None => {
            return None;
        },
    };
    proof {
        assert(buf@.skip(pos as int).skip(16 + (p3 - p2)) =~= buf@.skip(p3 as int));
    }
    let (sig, p4) = match decode_sig(buf, p3) {
        Some(t) => t,
        None => {
            return None;
        },
    };
    Some((SignedKeyGenMsg { era, sender, msg, sig }, p4))
}

// ---------------------------------------------------------------- schedules and params

#[verifier::opaque]
pub open spec fn enc_schedule(e: EncryptionSchedule) -> Seq<u8> {
    match e {
        EncryptionSchedule::Always => seq![0u8],
        EncryptionSchedule::Never => seq![1u8],
        EncryptionSchedule::EveryNthEpoch(n) => seq![2u8] + enc_u64(n),
        EncryptionSchedule::TickTock(a, b) => seq![3u8] + enc_u64(a) + enc_u64(b),
    }
}

#[verifier::opaque]
pub open spec fn dec_schedule(s: Seq<u8>) -> Option<(EncryptionSchedule, int)> {
    match dec_tag(s) {
        None => None,
        Some(t) => {
            if t.0 == 0 {
                Some((EncryptionSchedule::Always, 1int))
            } else if t.0 == 1 {
                Some((EncryptionSchedule::Never, 1int))
            } else if t.0 == 2 {
                match dec_u64(s.skip(1)) {
                    None => None,
                    Some(t1) => Some((EncryptionSchedule::EveryNthEpoch(t1.0), 9int)),
                }
            } else if t.0 == 3 {
                match dec_u64(s.skip(1)) {
                    None => None,
                    Some(t1) => match dec_u64(s.skip(9)) {
                        None => None,
                        Some(t2) => Some((EncryptionSchedule::TickTock(t1.0, t2.0), 17int)),
                    },
                }
            } else {
                None
            }
        },
    }
}

pub proof fn lemma_rt_schedule(e: EncryptionSchedule, rest: Seq<u8>)
    ensures
        dec_schedule(enc_schedule(e) + rest) == Some((e, enc_schedule(e).len() as int)),
{
    reveal(enc_schedule); reveal(dec_schedule);
    let s = enc_schedule(e) + rest;
    match e {
        EncryptionSchedule::Always => {
            assert(s[0] == 0u8);
        },
        EncryptionSchedule::Never => {
            assert(s[0] == 1u8);
        },
        EncryptionSchedule::EveryNthEpoch(n) => {
            assert(s[0] == 2u8);
            assert(s.skip(1) =~= enc_u64(n) + rest);
            lemma_rt_u64(n, rest);
            assert(enc_schedule(e).len() == 9);
        },
        EncryptionSchedule::TickTock(a, b) => {
            assert(s[0] == 3u8);
            assert(s.skip(1) =~= enc_u64(a) + (enc_u64(b) + rest));
            lemma_rt_u64(a, enc_u64(b) + rest);
            assert(s.skip(9) =~= enc_u64(b) + rest);
            lemma_rt_u64(b, rest);
            assert(enc_schedule(e).len() == 17);
        },
    }
}

pub fn encode_schedule(out: &mut Vec<u8>, e: &EncryptionSchedule)
    ensures
        final(out)@ == old(out)@ + enc_schedule(*e),
{
    reveal(enc_schedule);
    match e {
        EncryptionSchedule::Always => encode_tag(out, 0),
        EncryptionSchedule::Never => encode_tag(out, 1),
        EncryptionSchedule::EveryNthEpoch(n) => {
            encode_tag(out, 2);
            encode_u64(out, *n);
        },
        EncryptionSchedule::TickTock(a, b) => {
            encode_tag(out, 3);
            encode_u64(out, *a);
            encode_u64(out, *b);
        },
    }
    proof {
        assert(out@ =~= old(out)@ + enc_schedule(*e));
    }
}

pub fn decode_schedule(buf: &Vec<u8>, pos: usize) -> (r: Option<(EncryptionSchedule, usize)>)
    requires
        pos <= buf@.len(),
    ensures
        ({
            let s = buf@.skip(pos as int);
            match r {
                Some(t) => dec_schedule(s) == Some((t.0, (t.1 - pos) as int)) && pos <= t.1
                    <= buf@.len(),
                None => dec_schedule(s) is None,
            }
        }),
{
    reveal(dec_schedule);
    let (tag, p0) = match decode_tag(buf, pos) {
        Some(t) => t,
        None => {
            return None;
        },
    };
    proof {
        assert(buf@.skip(pos as int).skip(1) =~= buf@.skip(p0 as int));
    }
    if tag == 0 {
        Some((EncryptionSchedule::Always, p0))
    } else if tag == 1 {
        Some((EncryptionSchedule::Never, p0))
    } else if tag == 2 {
        let (n, p1) = match decode_u64(buf, p0) {
            Some(t) => t,
            None => {
                return None;
            },
        };
        Some((EncryptionSchedule::EveryNthEpoch(n), p1))
    } else if tag == 3 {
        let (a, p1) = match decode_u64(buf, p0) {
            Some(t) => t,
            None => {
                return None;
            },
        };
        proof {
            assert(buf@.skip(pos as int).skip(9) =~= buf@.skip(p1 as int));
        }
        let (b, p2) = match decode_u64(buf, p1) {
            Some(t) => t,
            None => {
                return None;
            },
        };
        Some((EncryptionSchedule::TickTock(a, b), p2))
    } else {
        None
    }
}

#[verifier::opaque]
pub open spec fn enc_strategy(e: SubsetHandlingStrategy) -> Seq<u8> {
    match e {
        SubsetHandlingStrategy::Incremental => seq![0u8],
        SubsetHandlingStrategy::AllAtEnd => seq![1u8],
    }
}

#[verifier::opaque]
pub open spec fn dec_strategy(s: Seq<u8>) -> Option<(SubsetHandlingStrategy, int)> {
    match dec_tag(s) {
        None => None,
        Some(t) => {
            if t.0 == 0 {
                Some((SubsetHandlingStrategy::Incremental, 1int))
            } else if t.0 == 1 {
                Some((SubsetHandlingStrategy::AllAtEnd, 1int))
            } else {
                None
            }
        },
    }
}

pub proof fn lemma_rt_strategy(e: SubsetHandlingStrategy, rest: Seq<u8>)
    ensures
        enc_strategy(e).len() == 1,
        dec_strategy(enc_strategy(e) + rest) == Some((e, 1int)),
{
    reveal(enc_strategy); reveal(dec_strategy);
    let s = enc_strategy(e) + rest;
    match e {
        SubsetHandlingStrategy::Incremental => {
            assert(s[0] == 0u8);
        },
        SubsetHandlingStrategy::AllAtEnd => {
            assert(s[0] == 1u8);
        },
    }
}

pub fn encode_strategy(out: &mut Vec<u8>, e: &SubsetHandlingStrategy)
    ensures
        final(out)@ == old(out)@ + enc_strategy(*e),
{
    reveal(enc_strategy);
    match e {
        SubsetHandlingStrategy::Incremental => encode_tag(out, 0),
        SubsetHandlingStrategy::AllAtEnd => encode_tag(out, 1),
    }
    proof {
        assert(out@ =~= old(out)@ + enc_strategy(*e));
    }
}

pub fn decode_strategy(buf: &Vec<u8>, pos: usize) -> (r: Option<(SubsetHandlingStrategy, usize)>)
    requires
        pos <= buf@.len(),
    ensures
        ({
            let s = buf@.skip(pos as int);
            match r {
                Some(t) => dec_strategy(s) == Some((t.0, (t.1 - pos) as int)) && pos <= t.1
                    <= buf@.len(),
                None => dec_strategy(s) is None,
            }
        }),
{
    reveal(dec_strategy);
    let (tag, p0) = match decode_tag(buf, pos) {
        Some(t) => t,
        None => {
            return None;
        },
    };
    if tag == 0 {
        Some((SubsetHandlingStrategy::Incremental, p0))
    } else if tag == 1 {
        Some((SubsetHandlingStrategy::AllAtEnd, p0))
    } else {
        None
    }
}

#[verifier::opaque]
pub open spec fn enc_params(p: Params) -> Seq<u8> {
    enc_u64(p.max_future_epochs) + enc_schedule(p.encryption_schedule) + enc_strategy(
        p.subset_handling_strategy,
    )
}

#[verifier::opaque]
pub open spec fn dec_params(s: Seq<u8>) -> Option<(Params, int)> {
    match dec_u64(s) {
        None => None,
        Some(t1) => match dec_schedule(s.skip(8)) {
            None => None,
            Some(t2) => match dec_strategy(s.skip(8 + t2.1)) {
                None => None,
                Some(t3) => Some(
                    (
                        Params {
                            max_future_epochs: t1.0,
                            encryption_schedule: t2.0,
                            subset_handling_strategy: t3.0,
                        },
                        8 + t2.1 + t3.1,
                    ),
                ),
            },
        },
    }
}

pub proof fn lemma_rt_params(p: Params, rest: Seq<u8>)
    ensures
        dec_params(enc_params(p) + rest) == Some((p, enc_params(p).len() as int)),
{
    reveal(enc_params); reveal(dec_params);
    let s = enc_params(p) + rest;
    let r1 = enc_schedule(p.encryption_schedule) + (enc_strategy(p.subset_handling_strategy)
        + rest);
    assert(s =~= enc_u64(p.max_future_epochs) + r1);
    lemma_rt_u64(p.max_future_epochs, r1);
    assert(s.skip(8) =~= enc_schedule(p.encryption_schedule) + (enc_strategy(
        p.subset_handling_strategy,
    ) + rest));
    lemma_rt_schedule(p.encryption_schedule, enc_strategy(p.subset_handling_strategy) + rest);
    let en = enc_schedule(p.encryption_schedule).len() as int;
    assert(s.skip(8 + en) =~= enc_strategy(p.subset_handling_strategy) + rest);
    lemma_rt_strategy(p.subset_handling_strategy, rest);
}

pub fn encode_params(out: &mut Vec<u8>, p: &Params)
    ensures
        final(out)@ == old(out)@ + enc_params(*p),
{
    reveal(enc_params);
    encode_u64(out, p.max_future_epochs);
    encode_schedule(out, &p.encryption_schedule);
    encode_strategy(out, &p.subset_handling_strategy);
    proof {
        assert(out@ =~= old(out)@ + enc_params(*p));
    }
}

pub fn decode_params(buf: &Vec<u8>, pos: usize) -> (r: Option<(Params, usize)>)
    requires
        pos <= buf@.len(),
    ensures
        ({
            let s = buf@.skip(pos as int);
            match r {
                Some(t) => dec_params(s) == Some((t.0, (t.1 - pos) as int)) && pos <= t.1
                    <= buf@.len(),
                None => dec_params(s) is None,
            }
        }),
{
    reveal(dec_params);
    let (mfe, p1) = match decode_u64(buf, pos) {
        Some(t) => t,
        None => {
            return None;
        },
    };
    proof {
        assert(buf@.skip(pos as int).skip(8) =~= buf@.skip(p1 as int));
    }
    let (es, p2) = match decode_schedule(buf, p1) {
        Some(t) => t,
        None => {
            return None;
        },
    };
    proof {
        assert(buf@.skip(pos as int).skip(8 + (p2 - p1)) =~= buf@.skip(p2 as int));
    }
    let (st, p3) = match decode_strategy(buf, p2) {
        Some(t) => t,
        None => {
            return None;
        },
    };
    Some(
        (
            Params {
                max_future_epochs: mfe,
                encryption_schedule: es,
                subset_handling_strategy: st,
            },
            p3,
        ),
    )
}

// ---------------------------------------------------------------- key maps

#[verifier::opaque]
pub open spec fn enc_key_entries(s: Seq<(u64, PublicKey)>) -> Seq<u8>
    decreases s.len(),
{
    if s.len() == 0 {
        Seq::empty()
    } else {
        enc_u64(s.first().0) + enc_u64(s.first().1.val) + enc_key_entries(s.drop_first())
    }
}

#[verifier::opaque]
pub open spec fn enc_key_map(s: Seq<(u64, PublicKey)>) -> Seq<u8> {
    enc_u64(s.len() as u64) + enc_key_entries(s)
}

#[verifier::opaque]
pub open spec fn dec_key_entries(s: Seq<u8>, n: nat) -> Option<(Seq<(u64, PublicKey)>, int)>
    decreases n,
{
    if n == 0 {
        Some((Seq::empty(), 0int))
    } else {
        match dec_u64(s) {
            None => None,
            Some(t1) => match dec_u64(s.skip(8)) {
                None => None,
                Some(t2) => match dec_key_entries(s.skip(16), (n - 1) as nat) {
                    None => None,
                    Some(t3) => Some(
                        (seq![(t1.0, PublicKey { val: t2.0 })] + t3.0, 16 + t3.1),
                    ),
                },
            },
        }
    }
}

#[verifier::opaque]
pub open spec fn dec_key_map(s: Seq<u8>) -> Option<(Seq<(u64, PublicKey)>, int)> {
    match dec_u64(s) {
        None => None,
        Some(t) => match dec_key_entries(s.skip(8), t.0 as nat) {
            None => None,
            Some(t2) => if kseq_sorted(t2.0) {
                Some((t2.0, 8 + t2.1))
            } else {
                None
            },
        },
    }
}

pub proof fn lemma_enc_key_entries_push(s: Seq<(u64, PublicKey)>, e: (u64, PublicKey))
    ensures
        enc_key_entries(s.push(e)) == enc_key_entries(s) + enc_u64(e.0) + enc_u64(e.1.val),
    decreases s.len(),
{
    reveal(enc_key_entries);
    let t = s.push(e);
    if s.len() == 0 {
        assert(t.first() == e);
        assert(t.drop_first() =~= Seq::<(u64, PublicKey)>::empty());
        assert(enc_key_entries(t.drop_first()) == Seq::<u8>::empty());
        assert(enc_key_entries(t) == enc_u64(e.0) + enc_u64(e.1.val) + enc_key_entries(
            t.drop_first(),
        ));
        assert(enc_key_entries(s) == Seq::<u8>::empty());
        assert(enc_key_entries(t) =~= enc_key_entries(s) + enc_u64(e.0) + enc_u64(e.1.val));
    } else {
        assert(t.first() == s.first());
        assert(t.drop_first() =~= s.drop_first().push(e));
        lemma_enc_key_entries_push(s.drop_first(), e);
        assert(enc_key_entries(t) == enc_u64(s.first().0) + enc_u64(s.first().1.val)
            + enc_key_entries(t.drop_first()));
        assert(enc_key_entries(t.drop_first()) == enc_key_entries(s.drop_first()) + enc_u64(e.0)
            + enc_u64(e.1.val));
        assert(enc_key_entries(s) == enc_u64(s.first().0) + enc_u64(s.first().1.val)
            + enc_key_entries(s.drop_first()));
        assert(enc_key_entries(t) =~= enc_key_entries(s) + enc_u64(e.0) + enc_u64(e.1.val));
    }
}

pub proof fn lemma_rt_key_entries(es: Seq<(u64, PublicKey)>, rest: Seq<u8>)
    ensures
        enc_key_entries(es).len() == 16 * es.len(),
        dec_key_entries(enc_key_entries(es) + rest, es.len() as nat) == Some(
            (es, enc_key_entries(es).len() as int),
        ),
    decreases es.len(),
{
    reveal(enc_key_entries); reveal(dec_key_entries);
    if es.len() == 0 {
        assert(enc_key_entries(es) + rest =~= rest);
        assert(es =~= Seq::<(u64, PublicKey)>::empty());
    } else {
        let e0 = es.first();
        let s = enc_key_entries(es) + rest;
        let r1 = enc_u64(e0.1.val) + (enc_key_entries(es.drop_first()) + rest);
        assert(s =~= enc_u64(e0.0) + r1);
        lemma_rt_u64(e0.0, r1);
        assert(s.skip(8) =~= enc_u64(e0.1.val) + (enc_key_entries(es.drop_first()) + rest));
        lemma_rt_u64(e0.1.val, enc_key_entries(es.drop_first()) + rest);
        assert(s.skip(16) =~= enc_key_entries(es.drop_first()) + rest);
        lemma_rt_key_entries(es.drop_first(), rest);
        assert(PublicKey { val: e0.1.val } == e0.1);
        assert(seq![(e0.0, e0.1)] + es.drop_first() =~= es);
    }
}

pub proof fn lemma_rt_key_map(es: Seq<(u64, PublicKey)>, rest: Seq<u8>)
    requires
        kseq_sorted(es),
        es.len() <= u64::MAX,
    ensures
        dec_key_map(enc_key_map(es) + rest) == Some((es, enc_key_map(es).len() as int)),
{
    reveal(enc_key_map); reveal(enc_key_entries); reveal(dec_key_map);
    let s = enc_key_map(es) + rest;
    assert(s =~= enc_u64(es.len() as u64) + (enc_key_entries(es) + rest));
    lemma_rt_u64(es.len() as u64, enc_key_entries(es) + rest);
    assert(s.skip(8) =~= enc_key_entries(es) + rest);
    lemma_rt_key_entries(es, rest);
}

pub fn encode_key_map(out: &mut Vec<u8>, m: &KeyMap)
    ensures
        final(out)@ == old(out)@ + enc_key_map(m.sq()),
{
    reveal(enc_key_map);
    reveal(enc_key_entries);
    let n = m.entries.len();
    encode_u64(out, n as u64);
    let ghost mid = out@;
    let mut i: usize = 0;
    while i < n
        invariant
            n == m.sq().len(),
            i <= n,
            out@ == mid + enc_key_entries(m.sq().take(i as int)),
        decreases n - i,
    {
        let (k, pk) = m.entries[i];
        encode_u64(out, k);
        encode_u64(out, pk.val);
        proof {
            lemma_enc_key_entries_push(m.sq().take(i as int), m.sq()[i as int]);
            assert(m.sq().take(i + 1) =~= m.sq().take(i as int).push(m.sq()[i as int]));
            assert(out@ =~= mid + enc_key_entries(m.sq().take(i + 1)));
        }
        i = i + 1;
    }
    proof {
        assert(m.sq().take(n as int) =~= m.sq());
        assert(out@ =~= old(out)@ + enc_key_map(m.sq()));
    }
}

fn decode_key_entries(buf: &Vec<u8>, pos: usize, n: u64) -> (r: Option<
    (Vec<(u64, PublicKey)>, usize),
>)
    requires
        pos <= buf@.len(),
    ensures
        ({
            let s = buf@.skip(pos as int);
            match r {
                Some(t) => dec_key_entries(s, n as nat) == Some((t.0@, (t.1 - pos) as int)) && pos
                    <= t.1 <= buf@.len(),
                None => dec_key_entries(s, n as nat) is None,
            }
        }),
{
    reveal(dec_key_entries);
    let ghost s0 = buf@.skip(pos as int);
    let mut acc: Vec<(u64, PublicKey)> = Vec::new();
    let mut p: usize = pos;
    let mut i: u64 = 0;
    while i < n
        invariant
            pos <= p <= buf@.len(),
            i <= n,
            s0 == buf@.skip(pos as int),
            dec_key_entries(s0, n as nat) == (match dec_key_entries(
                buf@.skip(p as int),
                (n - i) as nat,
            ) {
                Some(t) => Some((acc@ + t.0, (p - pos) + t.1)),
                None => None::<(Seq<(u64, PublicKey)>, int)>,
            }),
        decreases n - i,
    {
        reveal(dec_key_entries);
        let ghost cur = buf@.skip(p as int);
        let (k, p1) = match decode_u64(buf, p) {
            Some(t) => t,
            None => {
                proof {
                    assert(dec_key_entries(cur, (n - i) as nat) is None);
                }
                return None;
            },
        };
        proof {
            assert(cur.skip(8) =~= buf@.skip(p1 as int));
        }
        let (v, p2) = match decode_u64(buf, p1) {
            Some(t) => t,
            None => {
                proof {
                    assert(dec_key_entries(cur, (n - i) as nat) is None);
                }
                return None;
            },
        };
        let ghost acc0 = acc@;
        acc.push((k, PublicKey { val: v }));
        proof {
            assert(cur.skip(16) =~= buf@.skip(p2 as int));
            let tail = dec_key_entries(buf@.skip(p2 as int), (n - i - 1) as nat);
            match tail {
                Some(t3) => {
                    assert(dec_key_entries(cur, (n - i) as nat) == Some(
                        (seq![(k, PublicKey { val: v })] + t3.0, 16 + t3.1),
                    ));
                    assert(acc@ + t3.0 =~= acc0 + (seq![(k, PublicKey { val: v })] + t3.0));
                },
                None => {
                    assert(dec_key_entries(cur, (n - i) as nat) is None);
                },
            }
        }
        p = p2;
        i = i + 1;
    }
    proof {
        assert(dec_key_entries(buf@.skip(p as int), 0nat) == Some(
            (Seq::<(u64, PublicKey)>::empty(), 0int),
        ));
        assert(acc@ + Seq::<(u64, PublicKey)>::empty() =~= acc@);
    }
    Some((acc, p))
}

#[verifier::rlimit(50)]
pub fn decode_key_map(buf: &Vec<u8>, pos: usize) -> (r: Option<(KeyMap, usize)>)
    requires
        pos <= buf@.len(),
    ensures
        ({
            let s = buf@.skip(pos as int);
            match r {
                Some(t) => dec_key_map(s) == Some((t.0.sq(), (t.1 - pos) as int)) && t.0.wf()
                    && pos <= t.1 <= buf@.len(),
                None => dec_key_map(s) is None,
            }
        }),
{
    reveal(dec_key_map);
    let (n, p1) = match decode_u64(buf, pos) {
        Some(t) => t,
        None => {
            return None;
        },
    };
    proof {
        assert(buf@.skip(pos as int).skip(8) =~= buf@.skip(p1 as int));
    }
    let (es, p2) = match decode_key_entries(buf, p1, n) {
        Some(t) => t,
        None => {
            return None;
        },
    };
    let len = es.len();
    let mut i: usize = 1;
    while i < len
        invariant
            len == es@.len(),
            1 <= i,
            forall|j: int| 0 < j < i ==> (#[trigger] es@[j]).0 > es@[j - 1].0,
            pos <= p1 <= p2 <= buf@.len(),
            p1 == pos + 8,
            dec_u64(buf@.skip(pos as int)) == Some((n, 8int)),
            dec_key_entries(buf@.skip(pos as int).skip(8), n as nat) == Some(
                (es@, (p2 - p1) as int),
            ),
        decreases len - i,
    {
        reveal(dec_key_map);
        if es[i - 1].0 >= es[i].0 {
            proof {
                assert(!kseq_sorted(es@));
                assert(dec_key_map(buf@.skip(pos as int)) is None);
            }
            return None;
        }
        i = i + 1;
    }
    proof {
        lemma_step_sorted(es@);
    }
    Some((OrderedMap { entries: es }, p2))
}

// ---------------------------------------------------------------- changes

#[verifier::opaque]
pub open spec fn enc_change(c: ChangeV) -> Seq<u8> {
    match c {
        ChangeV::NodeChange(s) => seq![0u8] + enc_key_map(s),
        ChangeV::EncryptionSchedule(e) => seq![1u8] + enc_schedule(e),
    }
}

#[verifier::opaque]
pub open spec fn dec_change(s: Seq<u8>) -> Option<(ChangeV, int)> {
    match dec_tag(s) {
        None => None,
        Some(t) => {
            if t.0 == 0 {
                match dec_key_map(s.skip(1)) {
                    None => None,
                    Some(t1) => Some((ChangeV::NodeChange(t1.0), 1 + t1.1)),
                }
            } else if t.0 == 1 {
                match dec_schedule(s.skip(1)) {
                    None => None,
                    Some(t1) => Some((ChangeV::EncryptionSchedule(t1.0), 1 + t1.1)),
                }
            } else {
                None
            }
        },
    }
}

/// How large a change value may be for its key map length to fit the length
/// header of the encoding.
pub open spec fn change_v_bounded(c: ChangeV) -> bool {
    match c {
        ChangeV::NodeChange(s) => s.len() <= u64::MAX,
        ChangeV::EncryptionSchedule(_) => true,
    }
}

pub proof fn lemma_rt_change(c: ChangeV, rest: Seq<u8>)
    requires
        change_v_wf(c),
        change_v_bounded(c),
    ensures
        dec_change(enc_change(c) + rest) == Some((c, enc_change(c).len() as int)),
{
    reveal(enc_change); reveal(dec_change);
    let s = enc_change(c) + rest;
    match c {
        ChangeV::NodeChange(km) => {
            assert(s[0] == 0u8);
            assert(s.skip(1) =~= enc_key_map(km) + rest);
            lemma_rt_key_map(km, rest);
        },
        ChangeV::EncryptionSchedule(e) => {
            assert(s[0] == 1u8);
            assert(s.skip(1) =~= enc_schedule(e) + rest);
            lemma_rt_schedule(e, rest);
        },
    }
}

pub fn encode_change(out: &mut Vec<u8>, c: &Change)
    ensures
        final(out)@ == old(out)@ + enc_change(c.view()),
{
    reveal(enc_change);
    match c {
        Change::NodeChange(m) => {
            encode_tag(out, 0);
            encode_key_map(out, m);
        },
        Change::EncryptionSchedule(e) => {
            encode_tag(out, 1);
            encode_schedule(out, e);
        },
    }
    proof {
        assert(out@ =~= old(out)@ + enc_change(c.view()));
    }
}

pub fn decode_change(buf: &Vec<u8>, pos: usize) -> (r: Option<(Change, usize)>)
    requires
        pos <= buf@.len(),
    ensures
        ({
            let s = buf@.skip(pos as int);
            match r {
                Some(t) => dec_change(s) == Some((t.0.view(), (t.1 - pos) as int)) && t.0.wf()
                    && pos <= t.1 <= buf@.len(),
                None => dec_change(s) is None,
            }
        }),
{
    reveal(dec_change);
    let (tag, p0) = match decode_tag(buf, pos) {
        Some(t) => t,
        None => {
            return None;
        },
    };
    proof {
        assert(buf@.skip(pos as int).skip(1) =~= buf@.skip(p0 as int));
    }
    if tag == 0 {
        let (km, p1) = match decode_key_map(buf, p0) {
            Some(t) => t,
            None => {
                return None;
            },
        };
        Some((Change::NodeChange(Arc::new(km)), p1))
    } else if tag == 1 {
        let (e, p1) = match decode_schedule(buf, p0) {
            Some(t) => t,
            None => {
                return None;
            },
        };
        Some((Change::EncryptionSchedule(e), p1))
    } else {
        None
    }
}

#[verifier::opaque]
pub open spec fn enc_change_state(c: ChangeStateV) -> Seq<u8> {
    match c {
        ChangeStateV::NoChange => seq![0u8],
        ChangeStateV::InProgress(ch) => seq![1u8] + enc_change(ch),
        ChangeStateV::Complete(ch) => seq![2u8] + enc_change(ch),
    }
}

#[verifier::opaque]
pub open spec fn dec_change_state(s: Seq<u8>) -> Option<(ChangeStateV, int)> {
    match dec_tag(s) {
        None => None,
        Some(t) => {
            if t.0 == 0 {
                Some((ChangeStateV::NoChange, 1int))
            } else if t.0 == 1 {
                match dec_change(s.skip(1)) {
                    None => None,
                    Some(t1) => Some((ChangeStateV::InProgress(t1.0), 1 + t1.1)),
                }
            } else if t.0 == 2 {
                match dec_change(s.skip(1)) {
                    None => None,
                    Some(t1) => Some((ChangeStateV::Complete(t1.0), 1 + t1.1)),
                }
            } else {
                None
            }
        },
    }
}

pub open spec fn change_state_v_bounded(c: ChangeStateV) -> bool {
    match c {
        ChangeStateV::NoChange => true,
        ChangeStateV::InProgress(ch) => change_v_bounded(ch),
        ChangeStateV::Complete(ch) => change_v_bounded(ch),
    }
}

pub proof fn lemma_rt_change_state(c: ChangeStateV, rest: Seq<u8>)
    requires
        change_state_v_wf(c),
        change_state_v_bounded(c),
    ensures
        dec_change_state(enc_change_state(c) + rest) == Some(
            (c, enc_change_state(c).len() as int),
        ),
{
    reveal(enc_change_state); reveal(dec_change_state);
    let s = enc_change_state(c) + rest;
    match c {
        ChangeStateV::NoChange => {
            assert(s[0] == 0u8);
        },
        ChangeStateV::InProgress(ch) => {
            assert(s[0] == 1u8);
            assert(s.skip(1) =~= enc_change(ch) + rest);
            lemma_rt_change(ch, rest);
        },
        ChangeStateV::Complete(ch) => {
            assert(s[0] == 2u8);
            assert(s.skip(1) =~= enc_change(ch) + rest);
            lemma_rt_change(ch, rest);
        },
    }
}

pub fn encode_change_state(out: &mut Vec<u8>, c: &ChangeState)
    ensures
        final(out)@ == old(out)@ + enc_change_state(c.view()),
{
    reveal(enc_change_state);
    match c {
        ChangeState::NoChange => encode_tag(out, 0),
        ChangeState::InProgress(ch) => {
            encode_tag(out, 1);
            encode_change(out, ch);
        },
        ChangeState::Complete(ch) => {
            encode_tag(out, 2);
            encode_change(out, ch);
        },
    }
    proof {
        assert(out@ =~= old(out)@ + enc_change_state(c.view()));
    }
}

pub fn decode_change_state(buf: &Vec<u8>, pos: usize) -> (r: Option<(ChangeState, usize)>)
    requires
        pos <= buf@.len(),
    ensures
        ({
            let s = buf@.skip(pos as int);
            match r {
                Some(t) => dec_change_state(s) == Some((t.0.view(), (t.1 - pos) as int))
                    && t.0.wf() && pos <= t.1 <= buf@.len(),
                None => dec_change_state(s) is None,
            }
        }),
{
    reveal(dec_change_state);
    let (tag, p0) = match decode_tag(buf, pos) {
        Some(t) => t,
        None => {
            return None;
        },
    };
    proof {
        assert(buf@.skip(pos as int).skip(1) =~= buf@.skip(p0 as int));
    }
    if tag == 0 {
        Some((ChangeState::NoChange, p0))
    } else if tag == 1 {
        let (ch, p1) = match decode_change(buf, p0) {
            Some(t) => t,
            None => {
                return None;
            },
        };
        Some((ChangeState::InProgress(ch), p1))
    } else if tag == 2 {
        let (ch, p1) = match decode_change(buf, p0) {
            Some(t) => t,
            None => {
                return None;
            },
        };
        Some((ChangeState::Complete(ch), p1))
    } else {
        None
    }
}

// ---------------------------------------------------------------- votes

#[verifier::opaque]
pub open spec fn enc_vote(v: VoteV) -> Seq<u8> {
    enc_change(v.change) + enc_u64(v.era) + enc_u64(v.num)
}

#[verifier::opaque]
pub open spec fn dec_vote(s: Seq<u8>) -> Option<(VoteV, int)> {
    match dec_change(s) {
        None => None,
        Some(t1) => match dec_u64(s.skip(t1.1)) {
            None => None,
            Some(t2) => match dec_u64(s.skip(t1.1 + 8)) {
                None => None,
                Some(t3) => Some((VoteV { change: t1.0, era: t2.0, num: t3.0 }, t1.1 + 16)),
            },
        },
    }
}

pub open spec fn vote_v_bounded(v: VoteV) -> bool {
    change_v_bounded(v.change)
}

pub proof fn lemma_rt_vote(v: VoteV, rest: Seq<u8>)
    requires
        vote_v_wf(v),
        vote_v_bounded(v),
    ensures
        dec_vote(enc_vote(v) + rest) == Some((v, enc_vote(v).len() as int)),
{
    reveal(enc_vote); reveal(dec_vote);
    let s = enc_vote(v) + rest;
    assert(s =~= enc_change(v.change) + (enc_u64(v.era) + (enc_u64(v.num) + rest)));
    lemma_rt_change(v.change, enc_u64(v.era) + (enc_u64(v.num) + rest));
    let cn = enc_change(v.change).len() as int;
    assert(s.skip(cn) =~= enc_u64(v.era) + (enc_u64(v.num) + rest));
    lemma_rt_u64(v.era, enc_u64(v.num) + rest);
    assert(s.skip(cn + 8) =~= enc_u64(v.num) + rest);
    lemma_rt_u64(v.num, rest);
}

pub fn encode_vote(out: &mut Vec<u8>, v: &Vote)
    ensures
        final(out)@ == old(out)@ + enc_vote(v.view()),
{
    reveal(enc_vote);
    encode_change(out, &v.change);
    encode_u64(out, v.era);
    encode_u64(out, v.num);
    proof {
        assert(out@ =~= old(out)@ + enc_vote(v.view()));
    }
}

pub fn decode_vote(buf: &Vec<u8>, pos: usize) -> (r: Option<(Vote, usize)>)
    requires
        pos <= buf@.len(),
    ensures
        ({
            let s = buf@.skip(pos as int);
            match r {
                Some(t) => dec_vote(s) == Some((t.0.view(), (t.1 - pos) as int)) && t.0.wf()
                    && pos <= t.1 <= buf@.len(),
                None => dec_vote(s) is None,
            }
        }),
{
    reveal(dec_vote);
    let (ch, p1) = match decode_change(buf, pos) {
        Some(t) => t,
        None => {
            return None;
        },
    };
    proof {
        assert(buf@.skip(pos as int).skip((p1 - pos) as int) =~= buf@.skip(p1 as int));
    }
    let (era, p2) = match decode_u64(buf, p1) {
        Some(t) => t,
        None => {
            return None;
        },
    };
    proof {
        assert(buf@.skip(pos as int).skip((p1 - pos) + 8) =~= buf@.skip(p2 as int));
    }
    let (num, p3) = match decode_u64(buf, p2) {
        Some(t) => t,
        None => {
            return None;
        },
    };
    Some((Vote { change: ch, era, num }, p3))
}

#[verifier::opaque]
pub open spec fn enc_signed_vote(v: SignedVoteV) -> Seq<u8> {
    enc_vote(v.vote) + enc_u64(v.voter) + enc_sig(v.sig)
}

#[verifier::opaque]
pub open spec fn dec_signed_vote(s: Seq<u8>) -> Option<(SignedVoteV, int)> {
    match dec_vote(s) {
        None => None,
        Some(t1) => match dec_u64(s.skip(t1.1)) {
            None => None,
            Some(t2) => match dec_sig(s.skip(t1.1 + 8)) {
                None => None,
                Some(t3) => Some((SignedVoteV { vote: t1.0, voter: t2.0, sig: t3.0 }, t1.1 + 24)),
            },
        },
    }
}

pub open spec fn signed_vote_v_bounded(v: SignedVoteV) -> bool {
    vote_v_bounded(v.vote)
}

pub proof fn lemma_rt_signed_vote(v: SignedVoteV, rest: Seq<u8>)
    requires
        signed_vote_v_wf(v),
        signed_vote_v_bounded(v),
    ensures
        dec_signed_vote(enc_signed_vote(v) + rest) == Some((v, enc_signed_vote(v).len() as int)),
{
    reveal(enc_signed_vote); reveal(dec_signed_vote);
    let s = enc_signed_vote(v) + rest;
    assert(s =~= enc_vote(v.vote) + (enc_u64(v.voter) + (enc_sig(v.sig) + rest)));
    lemma_rt_vote(v.vote, enc_u64(v.voter) + (enc_sig(v.sig) + rest));
    let vn = enc_vote(v.vote).len() as int;
    assert(s.skip(vn) =~= enc_u64(v.voter) + (enc_sig(v.sig) + rest));
    lemma_rt_u64(v.voter, enc_sig(v.sig) + rest);
    assert(s.skip(vn + 8) =~= enc_sig(v.sig) + rest);
    lemma_rt_sig(v.sig, rest);
}

pub fn encode_signed_vote(out: &mut Vec<u8>, v: &SignedVote)
    ensures
        final(out)@ == old(out)@ + enc_signed_vote(v.view()),
{
    reveal(enc_signed_vote);
    encode_vote(out, &v.vote);
    encode_u64(out, v.voter);
    encode_sig(out, &v.sig);
    proof {
        assert(out@ =~= old(out)@ + enc_signed_vote(v.view()));
    }
}

pub fn decode_signed_vote(buf: &Vec<u8>, pos: usize) -> (r: Option<(SignedVote, usize)>)
    requires
        pos <= buf@.len(),
    ensures
        ({
            let s = buf@.skip(pos as int);
            match r {
                Some(t) => dec_signed_vote(s) == Some((t.0.view(), (t.1 - pos) as int))
                    && t.0.wf() && pos <= t.1 <= buf@.len(),
                None => dec_signed_vote(s) is None,
            }
        }),
{
    reveal(dec_signed_vote);
    let (vote, p1) = match decode_vote(buf, pos) {
        Some(t) => t,
        None => {
            return None;
        },
    };
    proof {
        assert(buf@.skip(pos as int).skip((p1 - pos) as int) =~= buf@.skip(p1 as int));
    }
    let (voter, p2) = match decode_u64(buf, p1) {
        Some(t) => t,
        None => {
            return None;
        },
    };
    proof {
        assert(buf@.skip(pos as int).skip((p1 - pos) + 8) =~= buf@.skip(p2 as int));
    }
    let (sig, p3) = match decode_sig(buf, p2) {
        Some(t) => t,
        None => {
            return None;
        },
    };
    Some((SignedVote { vote, voter, sig }, p3))
}

// ---------------------------------------------------------------- lists of votes

pub open spec fn sv_views(s: Seq<SignedVote>) -> Seq<SignedVoteV> {
    s.map_values(|v: SignedVote| v.view())
}

#[verifier::opaque]
pub open spec fn enc_sv_items(s: Seq<SignedVoteV>) -> Seq<u8>
    decreases s.len(),
{
    if s.len() == 0 {
        Seq::empty()
    } else {
        enc_signed_vote(s.first()) + enc_sv_items(s.drop_first())
    }
}

#[verifier::opaque]
pub open spec fn enc_sv_list(s: Seq<SignedVoteV>) -> Seq<u8> {
    enc_u64(s.len() as u64) + enc_sv_items(s)
}

#[verifier::opaque]
pub open spec fn dec_sv_items(s: Seq<u8>, n: nat) -> Option<(Seq<SignedVoteV>, int)>
    decreases n,
{
    if n == 0 {
        Some((Seq::empty(), 0int))
    } else {
        match dec_signed_vote(s) {
            None => None,
            Some(t1) => match dec_sv_items(s.skip(t1.1), (n - 1) as nat) {
                None => None,
                Some(t2) => Some((seq![t1.0] + t2.0, t1.1 + t2.1)),
            },
        }
    }
}

#[verifier::opaque]
pub open spec fn dec_sv_list(s: Seq<u8>) -> Option<(Seq<SignedVoteV>, int)> {
    match dec_u64(s) {
        None => None,
        Some(t) => match dec_sv_items(s.skip(8), t.0 as nat) {
            None => None,
            Some(t2) => Some((t2.0, 8 + t2.1)),
        },
    }
}

pub proof fn lemma_enc_sv_items_push(s: Seq<SignedVoteV>, e: SignedVoteV)
    ensures
        enc_sv_items(s.push(e)) == enc_sv_items(s) + enc_signed_vote(e),
    decreases s.len(),
{
    reveal(enc_sv_items);
    let t = s.push(e);
    if s.len() == 0 {
        assert(t.first() == e);
        assert(t.drop_first() =~= Seq::<SignedVoteV>::empty());
        assert(enc_sv_items(t.drop_first()) == Seq::<u8>::empty());
        assert(enc_sv_items(t) == enc_signed_vote(e) + enc_sv_items(t.drop_first()));
        assert(enc_sv_items(s) == Seq::<u8>::empty());
        assert(enc_sv_items(t) =~= enc_sv_items(s) + enc_signed_vote(e));
    } else {
        assert(t.first() == s.first());
        assert(t.drop_first() =~= s.drop_first().push(e));
        lemma_enc_sv_items_push(s.drop_first(), e);
        assert(enc_sv_items(t) == enc_signed_vote(s.first()) + enc_sv_items(t.drop_first()));
        assert(enc_sv_items(t.drop_first()) == enc_sv_items(s.drop_first()) + enc_signed_vote(e));
        assert(enc_sv_items(s) == enc_signed_vote(s.first()) + enc_sv_items(s.drop_first()));
        assert(enc_sv_items(t) =~= enc_sv_items(s) + enc_signed_vote(e));
    }
}

#[verifier::rlimit(50)]
pub proof fn lemma_rt_sv_items(items: Seq<SignedVoteV>, rest: Seq<u8>)
    requires
        forall|i: int|
            0 <= i < items.len() ==> signed_vote_v_wf(#[trigger] items[i]) && signed_vote_v_bounded(
                items[i],
            ),
    ensures
        enc_sv_items(items).len() >= 0,
        dec_sv_items(enc_sv_items(items) + rest, items.len() as nat) == Some(
            (items, enc_sv_items(items).len() as int),
        ),
    decreases items.len(),
{
    reveal(enc_sv_items); reveal(dec_sv_items);
    if items.len() == 0 {
        assert(enc_sv_items(items) + rest =~= rest);
        assert(items =~= Seq::<SignedVoteV>::empty());
    } else {
        let e0 = items.first();
        let s = enc_sv_items(items) + rest;
        assert(s =~= enc_signed_vote(e0) + (enc_sv_items(items.drop_first()) + rest));
        lemma_rt_signed_vote(e0, enc_sv_items(items.drop_first()) + rest);
        let n0 = enc_signed_vote(e0).len() as int;
        assert(s.skip(n0) =~= enc_sv_items(items.drop_first()) + rest);
        lemma_rt_sv_items(items.drop_first(), rest);
        assert(seq![e0] + items.drop_first() =~= items);
    }
}

#[verifier::rlimit(50)]
pub fn encode_sv_list(out: &mut Vec<u8>, votes: &Vec<SignedVote>)
    ensures
        final(out)@ == old(out)@ + enc_sv_list(sv_views(votes@)),
{
    reveal(enc_sv_list); reveal(enc_sv_items);
    let n = votes.len();
    proof {
        assert(sv_views(votes@).len() == n);
    }
    encode_u64(out, n as u64);
    let ghost mid = out@;
    let mut i: usize = 0;
    while i < n
        invariant
            n == votes@.len(),
            i <= n,
            out@ == mid + enc_sv_items(sv_views(votes@).take(i as int)),
        decreases n - i,
    {
        encode_signed_vote(out, &votes[i]);
        proof {
            lemma_enc_sv_items_push(sv_views(votes@).take(i as int), sv_views(votes@)[i as int]);
            assert(sv_views(votes@).take(i + 1) =~= sv_views(votes@).take(i as int).push(
                sv_views(votes@)[i as int],
            ));
            assert(sv_views(votes@)[i as int] == votes@[i as int].view());
            assert(out@ =~= mid + enc_sv_items(sv_views(votes@).take(i + 1)));
        }
        i = i + 1;
    }
    proof {
        assert(sv_views(votes@).take(n as int) =~= sv_views(votes@));
        assert(out@ =~= old(out)@ + enc_sv_list(sv_views(votes@)));
    }
}

#[verifier::rlimit(50)]
pub fn decode_sv_list(buf: &Vec<u8>, pos: usize) -> (r: Option<(Vec<SignedVote>, usize)>)
    requires
        pos <= buf@.len(),
    ensures
        ({
            let s = buf@.skip(pos as int);
            match r {
                Some(t) => dec_sv_list(s) == Some((sv_views(t.0@), (t.1 - pos) as int)) && pos
                    <= t.1 <= buf@.len() && (forall|i: int|
                    0 <= i < t.0@.len() ==> (#[trigger] t.0@[i]).wf()),
                None => dec_sv_list(s) is None,
            }
        }),
{
    reveal(dec_sv_list); reveal(dec_sv_items);
    let (n, p0) = match decode_u64(buf, pos) {
        Some(t) => t,
        None => {
            return None;
        },
    };
    proof {
        assert(buf@.skip(pos as int).skip(8) =~= buf@.skip(p0 as int));
    }
    let ghost s0 = buf@.skip(p0 as int);
    let mut acc: Vec<SignedVote> = Vec::new();
    let mut p: usize = p0;
    let mut i: u64 = 0;
    while i < n
        invariant
            pos <= p0 <= p <= buf@.len(),
            i <= n,
            s0 == buf@.skip(p0 as int),
            dec_u64(buf@.skip(pos as int)) == Some((n, 8int)),
            buf@.skip(pos as int).skip(8) == s0,
            forall|j: int| 0 <= j < acc@.len() ==> (#[trigger] acc@[j]).wf(),
            dec_sv_items(s0, n as nat) == (match dec_sv_items(
                buf@.skip(p as int),
                (n - i) as nat,
            ) {
                Some(t) => Some((sv_views(acc@) + t.0, (p - p0) + t.1)),
                None => None::<(Seq<SignedVoteV>, int)>,
            }),
        decreases n - i,
    {
        reveal(dec_sv_items);
        reveal(dec_sv_list);
        let ghost cur = buf@.skip(p as int);
        let (sv, p1) = match decode_signed_vote(buf, p) {
            Some(t) => t,
            None => {
                proof {
                    assert(dec_sv_items(cur, (n - i) as nat) is None);
                }
                return None;
            },
        };
        let ghost acc0 = acc@;
        acc.push(sv);
        proof {
            assert(cur.skip((p1 - p) as int) =~= buf@.skip(p1 as int));
            let tail = dec_sv_items(buf@.skip(p1 as int), (n - i - 1) as nat);
            match tail {
                Some(t2) => {
                    assert(dec_sv_items(cur, (n - i) as nat) == Some(
                        (seq![sv.view()] + t2.0, (p1 - p) + t2.1),
                    ));
                    assert(sv_views(acc@) =~= sv_views(acc0).push(sv.view()));
                    assert(sv_views(acc@) + t2.0 =~= sv_views(acc0) + (seq![sv.view()] + t2.0));
                },
                None => {
                    assert(dec_sv_items(cur, (n - i) as nat) is None);
                },
            }
        }
        p = p1;
        i = i + 1;
    }
    proof {
        assert(dec_sv_items(buf@.skip(p as int), 0nat) == Some((Seq::<SignedVoteV>::empty(), 0int)));
        assert(sv_views(acc@) + Seq::<SignedVoteV>::empty() =~= sv_views(acc@));
    }
    Some((acc, p))
}

// ---------------------------------------------------------------- lists of key generation messages

#[verifier::opaque]
pub open spec fn enc_skgm_items(s: Seq<SignedKeyGenMsg>) -> Seq<u8>
    decreases s.len(),
{
    if s.len() == 0 {
        Seq::empty()
    } else {
        enc_skgm(s.first()) + enc_skgm_items(s.drop_first())
    }
}

#[verifier::opaque]
pub open spec fn enc_skgm_list(s: Seq<SignedKeyGenMsg>) -> Seq<u8> {
    enc_u64(s.len() as u64) + enc_skgm_items(s)
}

#[verifier::opaque]
pub open spec fn dec_skgm_items(s: Seq<u8>, n: nat) -> Option<(Seq<SignedKeyGenMsg>, int)>
    decreases n,
{
    if n == 0 {
        Some((Seq::empty(), 0int))
    } else {
        match dec_skgm(s) {
            None => None,
            Some(t1) => match dec_skgm_items(s.skip(t1.1), (n - 1) as nat) {
                None => None,
                Some(t2) => Some((seq![t1.0] + t2.0, t1.1 + t2.1)),
            },
        }
    }
}

#[verifier::opaque]
pub open spec fn dec_skgm_list(s: Seq<u8>) -> Option<(Seq<SignedKeyGenMsg>, int)> {
    match dec_u64(s) {
        None => None,
        Some(t) => match dec_skgm_items(s.skip(8), t.0 as nat) {
            None => None,
            Some(t2) => Some((t2.0, 8 + t2.1)),
        },
    }
}

pub proof fn lemma_enc_skgm_items_push(s: Seq<SignedKeyGenMsg>, e: SignedKeyGenMsg)
    ensures
        enc_skgm_items(s.push(e)) == enc_skgm_items(s) + enc_skgm(e),
    decreases s.len(),
{
    reveal(enc_skgm_items);
    let t = s.push(e);
    if s.len() == 0 {
        assert(t.first() == e);
        assert(t.drop_first() =~= Seq::<SignedKeyGenMsg>::empty());
        assert(enc_skgm_items(t.drop_first()) == Seq::<u8>::empty());
        assert(enc_skgm_items(t) == enc_skgm(e) + enc_skgm_items(t.drop_first()));
        assert(enc_skgm_items(s) == Seq::<u8>::empty());
        assert(enc_skgm_items(t) =~= enc_skgm_items(s) + enc_skgm(e));
    } else {
        assert(t.first() == s.first());
        assert(t.drop_first() =~= s.drop_first().push(e));
        lemma_enc_skgm_items_push(s.drop_first(), e);
        assert(enc_skgm_items(t) == enc_skgm(s.first()) + enc_skgm_items(t.drop_first()));
        assert(enc_skgm_items(t.drop_first()) == enc_skgm_items(s.drop_first()) + enc_skgm(e));
        assert(enc_skgm_items(s) == enc_skgm(s.first()) + enc_skgm_items(s.drop_first()));
        assert(enc_skgm_items(t) =~= enc_skgm_items(s) + enc_skgm(e));
    }
}

#[verifier::rlimit(50)]
pub proof fn lemma_rt_skgm_items(items: Seq<SignedKeyGenMsg>, rest: Seq<u8>)
    ensures
        dec_skgm_items(enc_skgm_items(items) + rest, items.len() as nat) == Some(
            (items, enc_skgm_items(items).len() as int),
        ),
    decreases items.len(),
{
    reveal(enc_skgm_items); reveal(dec_skgm_items);
    if items.len() == 0 {
        assert(enc_skgm_items(items) + rest =~= rest);
        assert(items =~= Seq::<SignedKeyGenMsg>::empty());
    } else {
        let e0 = items.first();
        let s = enc_skgm_items(items) + rest;
        assert(s =~= enc_skgm(e0) + (enc_skgm_items(items.drop_first()) + rest));
        lemma_rt_skgm(e0, enc_skgm_items(items.drop_first()) + rest);
        let n0 = enc_skgm(e0).len() as int;
        assert(s.skip(n0) =~= enc_skgm_items(items.drop_first()) + rest);
        lemma_rt_skgm_items(items.drop_first(), rest);
        assert(seq![e0] + items.drop_first() =~= items);
    }
}

#[verifier::rlimit(50)]
pub fn encode_skgm_list(out: &mut Vec<u8>, msgs: &Vec<SignedKeyGenMsg>)
    ensures
        final(out)@ == old(out)@ + enc_skgm_list(msgs@),
{
    reveal(enc_skgm_list); reveal(enc_skgm_items);
    let n = msgs.len();
    encode_u64(out, n as u64);
    let ghost mid = out@;
    let mut i: usize = 0;
    while i < n
        invariant
            n == msgs@.len(),
            i <= n,
            out@ == mid + enc_skgm_items(msgs@.take(i as int)),
        decreases n - i,
    {
        encode_skgm(out, &msgs[i]);
        proof {
            lemma_enc_skgm_items_push(msgs@.take(i as int), msgs@[i as int]);
            assert(msgs@.take(i + 1) =~= msgs@.take(i as int).push(msgs@[i as int]));
            assert(out@ =~= mid + enc_skgm_items(msgs@.take(i + 1)));
        }
        i = i + 1;
    }
    proof {
        assert(msgs@.take(n as int) =~= msgs@);
        assert(out@ =~= old(out)@ + enc_skgm_list(msgs@));
    }
}

#[verifier::rlimit(50)]
pub fn decode_skgm_list(buf: &Vec<u8>, pos: usize) -> (r: Option<(Vec<SignedKeyGenMsg>, usize)>)
    requires
        pos <= buf@.len(),
    ensures
        ({
            let s = buf@.skip(pos as int);
            match r {
                Some(t) => dec_skgm_list(s) == Some((t.0@, (t.1 - pos) as int)) && pos <= t.1
                    <= buf@.len(),
                None => dec_skgm_list(s) is None,
            }
        }),
{
    reveal(dec_skgm_list); reveal(dec_skgm_items);
    let (n, p0) = match decode_u64(buf, pos) {
        Some(t) => t,
        None => {
            return None;
        },
    };
    proof {
        assert(buf@.skip(pos as int).skip(8) =~= buf@.skip(p0 as int));
    }
    let ghost s0 = buf@.skip(p0 as int);
    let mut acc: Vec<SignedKeyGenMsg> = Vec::new();
    let mut p: usize = p0;
    let mut i: u64 = 0;
    while i < n
        invariant
            pos <= p0 <= p <= buf@.len(),
            i <= n,
            s0 == buf@.skip(p0 as int),
            dec_u64(buf@.skip(pos as int)) == Some((n, 8int)),
            buf@.skip(pos as int).skip(8) == s0,
            dec_skgm_items(s0, n as nat) == (match dec_skgm_items(
                buf@.skip(p as int),
                (n - i) as nat,
            ) {
                Some(t) => Some((acc@ + t.0, (p - p0) + t.1)),
                None => None::<(Seq<SignedKeyGenMsg>, int)>,
            }),
        decreases n - i,
    {
        reveal(dec_skgm_items);
        reveal(dec_skgm_list);
        let ghost cur = buf@.skip(p as int);
        let (m, p1) = match decode_skgm(buf, p) {
            Some(t) => t,
            None => {
                proof {
                    assert(dec_skgm_items(cur, (n - i) as nat) is None);
                }
                return None;
            },
        };
        let ghost acc0 = acc@;
        acc.push(m);
        proof {
            assert(cur.skip((p1 - p) as int) =~= buf@.skip(p1 as int));
            let tail = dec_skgm_items(buf@.skip(p1 as int), (n - i - 1) as nat);
            match tail {
                Some(t2) => {
                    assert(dec_skgm_items(cur, (n - i) as nat) == Some(
                        (seq![m] + t2.0, (p1 - p) + t2.1),
                    ));
                    assert(acc@ + t2.0 =~= acc0 + (seq![m] + t2.0));
                },
                None => {
                    assert(dec_skgm_items(cur, (n - i) as nat) is None);
                },
            }
        }
        p = p1;
        i = i + 1;
    }
    proof {
        assert(dec_skgm_items(buf@.skip(p as int), 0nat) == Some(
            (Seq::<SignedKeyGenMsg>::empty(), 0int),
        ));
        assert(acc@ + Seq::<SignedKeyGenMsg>::empty() =~= acc@);
    }
    Some((acc, p))
}

// ---------------------------------------------------------------- list headers

pub proof fn lemma_rt_sv_list(items: Seq<SignedVoteV>, rest: Seq<u8>)
    requires
        forall|i: int|
            0 <= i < items.len() ==> signed_vote_v_wf(#[trigger] items[i]) && signed_vote_v_bounded(
                items[i],
            ),
        items.len() <= u64::MAX,
    ensures
        dec_sv_list(enc_sv_list(items) + rest) == Some((items, enc_sv_list(items).len() as int)),
{
    reveal(enc_sv_list);
    reveal(dec_sv_list);
    let s = enc_sv_list(items) + rest;
    assert(s =~= enc_u64(items.len() as u64) + (enc_sv_items(items) + rest));
    lemma_rt_u64(items.len() as u64, enc_sv_items(items) + rest);
    assert(s.skip(8) =~= enc_sv_items(items) + rest);
    lemma_rt_sv_items(items, rest);
}

pub proof fn lemma_rt_skgm_list(items: Seq<SignedKeyGenMsg>, rest: Seq<u8>)
    requires
        items.len() <= u64::MAX,
    ensures
        dec_skgm_list(enc_skgm_list(items) + rest) == Some(
            (items, enc_skgm_list(items).len() as int),
        ),
{
    reveal(enc_skgm_list);
    reveal(dec_skgm_list);
    let s = enc_skgm_list(items) + rest;
    assert(s =~= enc_u64(items.len() as u64) + (enc_skgm_items(items) + rest));
    lemma_rt_u64(items.len() as u64, enc_skgm_items(items) + rest);
    assert(s.skip(8) =~= enc_skgm_items(items) + rest);
    lemma_rt_skgm_items(items, rest);
}

// ---------------------------------------------------------------- contributions

#[verifier::opaque]
pub open spec fn enc_internal(c: InternalContribV) -> Seq<u8> {
    enc_bytes(c.payload) + enc_skgm_list(c.key_gen_messages) + enc_sv_list(c.votes)
}

#[verifier::opaque]
pub open spec fn dec_internal(s: Seq<u8>) -> Option<(InternalContribV, int)> {
    match dec_bytes(s) {
        None => None,
        Some(t1) => match dec_skgm_list(s.skip(t1.1)) {
            None => None,
            Some(t2) => match dec_sv_list(s.skip(t1.1 + t2.1)) {
                None => None,
                Some(t3) => Some(
                    (
                        InternalContribV {
                            payload: t1.0,
                            key_gen_messages: t2.0,
                            votes: t3.0,
                        },
                        t1.1 + t2.1 + t3.1,
                    ),
                ),
            },
        },
    }
}

pub open spec fn internal_contrib_v_bounded(c: InternalContribV) -> bool {
    &&& c.payload.len() <= u64::MAX
    &&& c.key_gen_messages.len() <= u64::MAX
    &&& c.votes.len() <= u64::MAX
    &&& forall|i: int|
        0 <= i < c.votes.len() ==> signed_vote_v_bounded(#[trigger] c.votes[i])
}

pub proof fn lemma_rt_internal(c: InternalContribV, rest: Seq<u8>)
    requires
        internal_contrib_v_wf(c),
        internal_contrib_v_bounded(c),
    ensures
        dec_internal(enc_internal(c) + rest) == Some((c, enc_internal(c).len() as int)),
{
    reveal(enc_internal);
    reveal(dec_internal);
    let s = enc_internal(c) + rest;
    assert(s =~= enc_bytes(c.payload) + (enc_skgm_list(c.key_gen_messages) + (enc_sv_list(c.votes)
        + rest)));
    lemma_rt_bytes(c.payload, enc_skgm_list(c.key_gen_messages) + (enc_sv_list(c.votes) + rest));
    let n1 = enc_bytes(c.payload).len() as int;
    assert(s.skip(n1) =~= enc_skgm_list(c.key_gen_messages) + (enc_sv_list(c.votes) + rest));
    lemma_rt_skgm_list(c.key_gen_messages, enc_sv_list(c.votes) + rest);
    let n2 = enc_skgm_list(c.key_gen_messages).len() as int;
    assert(s.skip(n1 + n2) =~= enc_sv_list(c.votes) + rest);
    lemma_rt_sv_list(c.votes, rest);
}

pub fn encode_internal(out: &mut Vec<u8>, c: &InternalContrib)
    ensures
        final(out)@ == old(out)@ + enc_internal(c.view()),
{
    reveal(enc_internal);
    encode_bytes(out, &c.payload);
    encode_skgm_list(out, &c.key_gen_messages);
    encode_sv_list(out, &c.votes);
    proof {
        assert(out@ =~= old(out)@ + enc_internal(c.view()));
    }
}

pub fn decode_internal(buf: &Vec<u8>, pos: usize) -> (r: Option<(InternalContrib, usize)>)
    requires
        pos <= buf@.len(),
    ensures
        ({
            let s = buf@.skip(pos as int);
            match r {
                Some(t) => dec_internal(s) == Some((t.0.view(), (t.1 - pos) as int)) && t.0.wf()
                    && pos <= t.1 <= buf@.len(),
                None => dec_internal(s) is None,
            }
        }),
{
    reveal(dec_internal);
    let (payload, p1) = match decode_bytes(buf, pos) {
        Some(t) => t,
        None => {
            return None;
        },
    };
    proof {
        assert(buf@.skip(pos as int).skip((p1 - pos) as int) =~= buf@.skip(p1 as int));
    }
    let (kgs, p2) = match decode_skgm_list(buf, p1) {
        Some(t) => t,
        None => {
            return None;
        },
    };
    proof {
        assert(buf@.skip(pos as int).skip((p1 - pos) + (p2 - p1)) =~= buf@.skip(p2 as int));
    }
    let (votes, p3) = match decode_sv_list(buf, p2) {
        Some(t) => t,
        None => {
            return None;
        },
    };
    let c = InternalContrib { payload, key_gen_messages: kgs, votes };
    proof {
        assert(c.view().votes =~= sv_views(votes@));
    }
    Some((c, p3))
}

// ---------------------------------------------------------------- broadcast messages

#[verifier::opaque]
pub open spec fn enc_hb_msg(m: HbMessageV) -> Seq<u8> {
    match m {
        HbMessageV::Propose(epoch, c) => seq![0u8] + enc_u64(epoch) + enc_internal(c),
    }
}

#[verifier::opaque]
pub open spec fn dec_hb_msg(s: Seq<u8>) -> Option<(HbMessageV, int)> {
    match dec_tag(s) {
        None => None,
        Some(t) => {
            if t.0 == 0 {
                match dec_u64(s.skip(1)) {
                    None => None,
                    Some(t1) => match dec_internal(s.skip(9)) {
                        None => None,
                        Some(t2) => Some((HbMessageV::Propose(t1.0, t2.0), 9 + t2.1)),
                    },
                }
            } else {
                None
            }
        },
    }
}

pub open spec fn hb_message_v_bounded(m: HbMessageV) -> bool {
    match m {
        HbMessageV::Propose(_, c) => internal_contrib_v_bounded(c),
    }
}

pub proof fn lemma_rt_hb_msg(m: HbMessageV, rest: Seq<u8>)
    requires
        hb_message_v_wf(m),
        hb_message_v_bounded(m),
    ensures
        dec_hb_msg(enc_hb_msg(m) + rest) == Some((m, enc_hb_msg(m).len() as int)),
{
    reveal(enc_hb_msg);
    reveal(dec_hb_msg);
    let s = enc_hb_msg(m) + rest;
    match m {
        HbMessageV::Propose(epoch, c) => {
            assert(s[0] == 0u8);
            assert(s.skip(1) =~= enc_u64(epoch) + (enc_internal(c) + rest));
            lemma_rt_u64(epoch, enc_internal(c) + rest);
            assert(s.skip(9) =~= enc_internal(c) + rest);
            lemma_rt_internal(c, rest);
        },
    }
}

pub fn encode_hb_msg(out: &mut Vec<u8>, m: &HbMessage)
    ensures
        final(out)@ == old(out)@ + enc_hb_msg(m.view()),
{
    reveal(enc_hb_msg);
    match m {
        HbMessage::Propose(epoch, c) => {
            encode_tag(out, 0);
            encode_u64(out, *epoch);
            encode_internal(out, c);
        },
    }
    proof {
        assert(out@ =~= old(out)@ + enc_hb_msg(m.view()));
    }
}

pub fn decode_hb_msg(buf: &Vec<u8>, pos: usize) -> (r: Option<(HbMessage, usize)>)
    requires
        pos <= buf@.len(),
    ensures
        ({
            let s = buf@.skip(pos as int);
            match r {
                Some(t) => dec_hb_msg(s) == Some((t.0.view(), (t.1 - pos) as int)) && t.0.wf()
                    && pos <= t.1 <= buf@.len(),
                None => dec_hb_msg(s) is None,
            }
        }),
{
    reveal(dec_hb_msg);
    let (tag, p0) = match decode_tag(buf, pos) {
        Some(t) => t,
        None => {
            return None;
        },
    };
    proof {
        assert(buf@.skip(pos as int).skip(1) =~= buf@.skip(p0 as int));
    }
    if tag == 0 {
        let (epoch, p1) = match decode_u64(buf, p0) {
            Some(t) => t,
            None => {
                return None;
            },
        };
        proof {
            assert(buf@.skip(pos as int).skip(9) =~= buf@.skip(p1 as int));
        }
        let (c, p2) = match decode_internal(buf, p1) {
            Some(t) => t,
            None => {
                return None;
            },
        };
        Some((HbMessage::Propose(epoch, c), p2))
    } else {
        None
    }
}

#[verifier::opaque]
pub open spec fn enc_message(m: MessageV) -> Seq<u8> {
    match m {
        MessageV::HoneyBadger(era, hb) => seq![0u8] + enc_u64(era) + enc_hb_msg(hb),
        MessageV::KeyGen(era, kg, sig) => seq![1u8] + enc_u64(era) + enc_kg_msg(kg) + enc_sig(sig),
        MessageV::SignedVote(sv) => seq![2u8] + enc_signed_vote(sv),
    }
}

#[verifier::opaque]
pub open spec fn dec_message(s: Seq<u8>) -> Option<(MessageV, int)> {
    match dec_tag(s) {
        None => None,
        Some(t) => {
            if t.0 == 0 {
                match dec_u64(s.skip(1)) {
                    None => None,
                    Some(t1) => match dec_hb_msg(s.skip(9)) {
                        None => None,
                        Some(t2) => Some((MessageV::HoneyBadger(t1.0, t2.0), 9 + t2.1)),
                    },
                }
            } else if t.0 == 1 {
                match dec_u64(s.skip(1)) {
                    None => None,
                    Some(t1) => match dec_kg_msg(s.skip(9)) {
                        None => None,
                        Some(t2) => match dec_sig(s.skip(9 + t2.1)) {
                            None => None,
                            Some(t3) => Some(
                                (MessageV::KeyGen(t1.0, t2.0, t3.0), 9 + t2.1 + 16),
                            ),
                        },
                    },
                }
            } else if t.0 == 2 {
                match dec_signed_vote(s.skip(1)) {
                    None => None,
                    Some(t1) => Some((MessageV::SignedVote(t1.0), 1 + t1.1)),
                }
            } else {
                None
            }
        },
    }
}

pub open spec fn message_v_bounded(m: MessageV) -> bool {
    match m {
        MessageV::HoneyBadger(_, hb) => hb_message_v_bounded(hb),
        MessageV::KeyGen(_, _, _) => true,
        MessageV::SignedVote(sv) => signed_vote_v_bounded(sv),
    }
}

/// The round-trip law for wire messages: decoding the canonical encoding of
/// any well-formed message, with anything appended, gives the message back
/// and consumes exactly its encoding.
pub proof fn lemma_rt_message(m: MessageV, rest: Seq<u8>)
    requires
        message_v_wf(m),
        message_v_bounded(m),
    ensures
        dec_message(enc_message(m) + rest) == Some((m, enc_message(m).len() as int)),
{
    reveal(enc_message);
    reveal(dec_message);
    let s = enc_message(m) + rest;
    match m {
        MessageV::HoneyBadger(era, hb) => {
            assert(s[0] == 0u8);
            assert(s.skip(1) =~= enc_u64(era) + (enc_hb_msg(hb) + rest));
            lemma_rt_u64(era, enc_hb_msg(hb) + rest);
            assert(s.skip(9) =~= enc_hb_msg(hb) + rest);
            lemma_rt_hb_msg(hb, rest);
        },
        MessageV::KeyGen(era, kg, sig) => {
            assert(s[0] == 1u8);
            assert(s.skip(1) =~= enc_u64(era) + (enc_kg_msg(kg) + (enc_sig(sig) + rest)));
            lemma_rt_u64(era, enc_kg_msg(kg) + (enc_sig(sig) + rest));
            assert(s.skip(9) =~= enc_kg_msg(kg) + (enc_sig(sig) + rest));
            lemma_rt_kg_msg(kg, enc_sig(sig) + rest);
            let kn = enc_kg_msg(kg).len() as int;
            assert(s.skip(9 + kn) =~= enc_sig(sig) + rest);
            lemma_rt_sig(sig, rest);
        },
        MessageV::SignedVote(sv) => {
            assert(s[0] == 2u8);
            assert(s.skip(1) =~= enc_signed_vote(sv) + rest);
            lemma_rt_signed_vote(sv, rest);
        },
    }
}

pub fn encode_message(out: &mut Vec<u8>, m: &Message)
    ensures
        final(out)@ == old(out)@ + enc_message(m.view()),
{
    reveal(enc_message);
    match m {
        Message::HoneyBadger(era, hb) => {
            encode_tag(out, 0);
            encode_u64(out, *era);
            encode_hb_msg(out, hb);
        },
        Message::KeyGen(era, kg, sig) => {
            encode_tag(out, 1);
            encode_u64(out, *era);
            encode_kg_msg(out, kg);
            encode_sig(out, sig);
        },
        Message::SignedVote(sv) => {
            encode_tag(out, 2);
            encode_signed_vote(out, sv);
        },
    }
    proof {
        assert(out@ =~= old(out)@ + enc_message(m.view()));
    }
}

pub fn decode_message(buf: &Vec<u8>, pos: usize) -> (r: Option<(Message, usize)>)
    requires
        pos <= buf@.len(),
    ensures
        ({
            let s = buf@.skip(pos as int);
            match r {
                Some(t) => dec_message(s) == Some((t.0.view(), (t.1 - pos) as int)) && t.0.wf()
                    && pos <= t.1 <= buf@.len(),
                None => dec_message(s) is None,
            }
        }),
{
    reveal(dec_message);
    let (tag, p0) = match decode_tag(buf, pos) {
        Some(t) => t,
        None => {
            return None;
        },
    };
    proof {
        assert(buf@.skip(pos as int).skip(1) =~= buf@.skip(p0 as int));
    }
    if tag == 0 {
        let (era, p1) = match decode_u64(buf, p0) {
            Some(t) => t,
            None => {
                return None;
            },
        };
        proof {
            assert(buf@.skip(pos as int).skip(9) =~= buf@.skip(p1 as int));
        }
        let (hb, p2) = match decode_hb_msg(buf, p1) {
            Some(t) => t,
            None => {
                return None;
            },
        };
        Some((Message::HoneyBadger(era, hb), p2))
    } else if tag == 1 {
        let (era, p1) = match decode_u64(buf, p0) {
            Some(t) => t,
            None => {
                return None;
            },
        };
        proof {
            assert(buf@.skip(pos as int).skip(9) =~= buf@.skip(p1 as int));
        }
        let (kg, p2) = match decode_kg_msg(buf, p1) {
            Some(t) => t,
            None => {
                return None;
            },
        };
        proof {
            assert(buf@.skip(pos as int).skip(9 + (p2 - p1)) =~= buf@.skip(p2 as int));
        }
        let (sig, p3) = match decode_sig(buf, p2) {
            Some(t) => t,
            None => {
                return None;
            },
        };
        Some((Message::KeyGen(era, kg, sig), p3))
    } else if tag == 2 {
        let (sv, p1) = match decode_signed_vote(buf, p0) {
            Some(t) => t,
            None => {
                return None;
            },
        };
        Some((Message::SignedVote(sv), p1))
    } else {
        None
    }
}

// ---------------------------------------------------------------- join plans

#[verifier::opaque]
pub open spec fn enc_join_plan(p: JoinPlanV) -> Seq<u8> {
    enc_u64(p.era) + enc_change_state(p.change) + enc_key_map(p.pub_keys) + enc_pk_set(
        p.pub_key_set,
    ) + enc_params(p.params)
}

#[verifier::opaque]
pub open spec fn dec_join_plan(s: Seq<u8>) -> Option<(JoinPlanV, int)> {
    match dec_u64(s) {
        None => None,
        Some(t1) => match dec_change_state(s.skip(8)) {
            None => None,
            Some(t2) => match dec_key_map(s.skip(8 + t2.1)) {
                None => None,
                Some(t3) => match dec_pk_set(s.skip(8 + t2.1 + t3.1)) {
                    None => None,
                    Some(t4) => match dec_params(s.skip(8 + t2.1 + t3.1 + 16)) {
                        None => None,
                        Some(t5) => Some(
                            (
                                JoinPlanV {
                                    era: t1.0,
                                    change: t2.0,
                                    pub_keys: t3.0,
                                    pub_key_set: t4.0,
                                    params: t5.0,
                                },
                                8 + t2.1 + t3.1 + 16 + t5.1,
                            ),
                        ),
                    },
                },
            },
        },
    }
}

pub open spec fn join_plan_v_bounded(p: JoinPlanV) -> bool {
    change_state_v_bounded(p.change) && p.pub_keys.len() <= u64::MAX
}

/// The round-trip law for join plans: the canonical encoding keeps the era,
/// change, key map, threshold key set and configuration, in that order, and
/// decoding gives them back unchanged.
pub proof fn lemma_rt_join_plan(p: JoinPlanV, rest: Seq<u8>)
    requires
        join_plan_v_wf(p),
        join_plan_v_bounded(p),
    ensures
        dec_join_plan(enc_join_plan(p) + rest) == Some((p, enc_join_plan(p).len() as int)),
{
    reveal(enc_join_plan);
    reveal(dec_join_plan);
    let s = enc_join_plan(p) + rest;
    let r4 = enc_params(p.params) + rest;
    let r3 = enc_pk_set(p.pub_key_set) + r4;
    let r2 = enc_key_map(p.pub_keys) + r3;
    let r1 = enc_change_state(p.change) + r2;
    assert(s =~= enc_u64(p.era) + r1);
    lemma_rt_u64(p.era, r1);
    assert(s.skip(8) =~= enc_change_state(p.change) + r2);
    lemma_rt_change_state(p.change, r2);
    let n2 = enc_change_state(p.change).len() as int;
    assert(s.skip(8 + n2) =~= enc_key_map(p.pub_keys) + r3);
    lemma_rt_key_map(p.pub_keys, r3);
    let n3 = enc_key_map(p.pub_keys).len() as int;
    assert(s.skip(8 + n2 + n3) =~= enc_pk_set(p.pub_key_set) + r4);
    lemma_rt_pk_set(p.pub_key_set, r4);
    assert(s.skip(8 + n2 + n3 + 16) =~= enc_params(p.params) + rest);
    lemma_rt_params(p.params, rest);
}

pub fn encode_join_plan(out: &mut Vec<u8>, p: &JoinPlan)
    ensures
        final(out)@ == old(out)@ + enc_join_plan(p.view()),
{
    reveal(enc_join_plan);
    encode_u64(out, p.era);
    encode_change_state(out, &p.change);
    encode_key_map(out, &p.pub_keys);
    encode_pk_set(out, &p.pub_key_set);
    encode_params(out, &p.params);
    proof {
        assert(out@ =~= old(out)@ + enc_join_plan(p.view()));
    }
}

pub fn decode_join_plan(buf: &Vec<u8>, pos: usize) -> (r: Option<(JoinPlan, usize)>)
    requires
        pos <= buf@.len(),
    ensures
        ({
            let s = buf@.skip(pos as int);
            match r {
                Some(t) => dec_join_plan(s) == Some((t.0.view(), (t.1 - pos) as int)) && t.0.wf()
                    && pos <= t.1 <= buf@.len(),
                None => dec_join_plan(s) is None,
            }
        }),
{
    reveal(dec_join_plan);
    let (era, p1) = match decode_u64(buf, pos) {
        Some(t) => t,
        None => {
            return None;
        },
    };
    proof {
        assert(buf@.skip(pos as int).skip(8) =~= buf@.skip(p1 as int));
    }
    let (change, p2) = match decode_change_state(buf, p1) {
        Some(t) => t,
        None => {
            return None;
        },
    };
    proof {
        assert(buf@.skip(pos as int).skip(8 + (p2 - p1)) =~= buf@.skip(p2 as int));
    }
    let (pub_keys, p3) = match decode_key_map(buf, p2) {
        Some(t) => t,
        None => {
            return None;
        },
    };
    proof {
        assert(buf@.skip(pos as int).skip(8 + (p2 - p1) + (p3 - p2)) =~= buf@.skip(p3 as int));
    }
    let (pub_key_set, p4) = match decode_pk_set(buf, p3) {
        Some(t) => t,
        None => {
            return None;
        },
    };
    proof {
        assert(buf@.skip(pos as int).skip(8 + (p2 - p1) + (p3 - p2) + 16) =~= buf@.skip(
            p4 as int,
        ));
    }
    let (params, p5) = match decode_params(buf, p4) {
        Some(t) => t,
        None => {
            return None;
        },
    };
    Some((JoinPlan { era, change, pub_keys: Arc::new(pub_keys), pub_key_set, params }, p5))
}

// ---------------------------------------------------------------- one-shot helpers

/// The canonical bytes of a vote; what a voter signs.
pub fn vote_bytes(v: &Vote) -> (r: Vec<u8>)
    ensures
        r@ == enc_vote(v.view()),
{
    let mut out: Vec<u8> = Vec::new();
    encode_vote(&mut out, v);
    proof {
        assert(out@ =~= enc_vote(v.view()));
    }
    out
}

/// The canonical bytes of a key generation message; what its sender signs.
pub fn kg_msg_bytes(m: &KeyGenMessage) -> (r: Vec<u8>)
    ensures
        r@ == enc_kg_msg(*m),
{
    let mut out: Vec<u8> = Vec::new();
    encode_kg_msg(&mut out, m);
    proof {
        assert(out@ =~= enc_kg_msg(*m));
    }
    out
}

/// The canonical bytes of a wire message.
pub fn message_bytes(m: &Message) -> (r: Vec<u8>)
    ensures
        r@ == enc_message(m.view()),
{
    let mut out: Vec<u8> = Vec::new();
    encode_message(&mut out, m);
    proof {
        assert(out@ =~= enc_message(m.view()));
    }
    out
}

/// Decodes a whole buffer as one wire message; trailing bytes are refused.
pub fn message_from_bytes(buf: &Vec<u8>) -> (r: Option<Message>)
    ensures
        match r {
            Some(m) => m.wf() && dec_message(buf@) == Some((m.view(), buf@.len() as int)),
            None => !(dec_message(buf@) matches Some(t) && t.1 == buf@.len()),
        },
{
    proof {
        assert(buf@.skip(0) =~= buf@);
    }
    match decode_message(buf, 0) {
        Some((m, p)) => {
            if p == buf.len() {
                Some(m)
            } else {
                None
            }
        },
        None => None,
    }
}

/// The canonical bytes of a join plan.
pub fn join_plan_bytes(p: &JoinPlan) -> (r: Vec<u8>)
    ensures
        r@ == enc_join_plan(p.view()),
{
    let mut out: Vec<u8> = Vec::new();
    encode_join_plan(&mut out, p);
    proof {
        assert(out@ =~= enc_join_plan(p.view()));
    }
    out
}

/// Decodes a whole buffer as one join plan; trailing bytes are refused.
pub fn join_plan_from_bytes(buf: &Vec<u8>) -> (r: Option<JoinPlan>)
    ensures
        match r {
            Some(p) => p.wf() && dec_join_plan(buf@) == Some((p.view(), buf@.len() as int)),
            None => !(dec_join_plan(buf@) matches Some(t) && t.1 == buf@.len()),
        },
{
    proof {
        assert(buf@.skip(0) =~= buf@);
    }
    match decode_join_plan(buf, 0) {
        Some((p, q)) => {
            if q == buf.len() {
                Some(p)
            } else {
                None
            }
        },
        None => None,
    }
}

} // verus!
