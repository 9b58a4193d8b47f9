//! A deterministic stand-in for the long-term and threshold key material the
//! engine works with. Signing mixes the secret value with a digest of the
//! message; verification recomputes both. The scheme is not secret in any
//! cryptographic sense: it exists so that the signing and verification rules
//! of the engine can be stated and proved exactly, while a deployment would
//! put a real scheme behind the same interface.

use vstd::prelude::*;

verus! {

/// A node's long-term secret key.
#[derive(Clone, Copy, PartialEq, Eq, Structural, Debug)]
pub struct SecretKey {
    pub val: u64,
}

/// A node's long-term public key; derived from the secret key.
#[derive(Clone, Copy, PartialEq, Eq, Structural, Debug)]
pub struct PublicKey {
    pub val: u64,
}

/// A signature over a byte string: the signer's public value together with a
/// digest of the signed bytes.
#[derive(Clone, Copy, PartialEq, Eq, Structural, Debug)]
pub struct Signature {
    pub signer: u64,
    pub digest: u64,
}

/// The digest bound below `2^32` so that one mixing step never overflows.
pub const DIGEST_SEED: u64 = 5381;

pub const DIGEST_MOD: u64 = 0x1_0000_0000;

pub open spec fn spec_digest(s: Seq<u8>) -> u64
    decreases s.len(),
{
    if s.len() == 0 {
        DIGEST_SEED
    } else {
        ((spec_digest(s.drop_last()) * 33 + s.last() + 1) % (DIGEST_MOD as int)) as u64
    }
}

pub open spec fn spec_sign(sk: SecretKey, m: Seq<u8>) -> Signature {
    Signature { signer: sk.val, digest: spec_digest(m) }
}

pub open spec fn spec_verify(pk: PublicKey, sig: Signature, m: Seq<u8>) -> bool {
    sig.signer == pk.val && sig.digest == spec_digest(m)
}

/// Digest of a byte string; a rolling 32-bit hash.
pub fn digest(m: &Vec<u8>) -> (d: u64)
    ensures
        d == spec_digest(m@),
{
    let n = m.len();
    let mut h: u64 = DIGEST_SEED;
    let mut i: usize = 0;
    while i < n
        invariant
            n == m@.len(),
            i <= n,
            h == spec_digest(m@.take(i as int)),
            h < DIGEST_MOD,
        decreases n - i,
    {
        assert(m@.take(i + 1).drop_last() =~= m@.take(i as int));
        assert(m@.take(i + 1).last() == m@[i as int]);
        h = (h * 33 + (m[i] as u64) + 1) % DIGEST_MOD;
        i = i + 1;
    }
    assert(m@.take(n as int) =~= m@);
    h
}

impl SecretKey {
    pub fn new(val: u64) -> (sk: Self)
        ensures
            sk.val == val,
    {
        SecretKey { val }
    }

    /// The public key that belongs to this secret key.
    pub fn public_key(&self) -> (pk: PublicKey)
        ensures
            pk == self.spec_public_key(),
    {
        PublicKey { val: self.val }
    }

    pub open spec fn spec_public_key(self) -> PublicKey {
        PublicKey { val: self.val }
    }

    /// Signs a byte string.
    pub fn sign(&self, m: &Vec<u8>) -> (sig: Signature)
        ensures
            sig == spec_sign(*self, m@),
    {
        Signature { signer: self.val, digest: digest(m) }
    }
}

impl PublicKey {
    /// Checks a signature over a byte string.
    pub fn verify(&self, sig: &Signature, m: &Vec<u8>) -> (b: bool)
        ensures
            b == spec_verify(*self, *sig, m@),
    {
        sig.signer == self.val && sig.digest == digest(m)
    }
}

/// A signature by a key verifies under that key's public counterpart, and
/// under no public key with another value.
pub proof fn lemma_sign_verify(sk: SecretKey, pk: PublicKey, m: Seq<u8>)
    ensures
        spec_verify(sk.spec_public_key(), spec_sign(sk, m), m),
        pk.val != sk.val ==> !spec_verify(pk, spec_sign(sk, m), m),
{
}

/// A share of the threshold secret key for one era.
#[derive(Clone, Copy, PartialEq, Eq, Structural, Debug)]
pub struct SecretKeyShare {
    pub val: u64,
}

/// The threshold public key set for one era.
#[derive(Clone, Copy, PartialEq, Eq, Structural, Debug)]
pub struct PublicKeySet {
    pub threshold: u64,
    pub val: u64,
}

/// The dealer-side threshold key material a single genesis node starts from.
#[derive(Clone, Copy, PartialEq, Eq, Structural, Debug)]
pub struct SecretKeySet {
    pub threshold: u64,
    pub seed: u64,
}

impl SecretKeySet {
    pub fn new(threshold: u64, seed: u64) -> (s: Self)
        ensures
            s.threshold == threshold,
            s.seed == seed,
    {
        SecretKeySet { threshold, seed }
    }

    pub fn public_keys(&self) -> (p: PublicKeySet)
        ensures
            p.threshold == self.threshold,
            p.val == self.seed,
    {
        PublicKeySet { threshold: self.threshold, val: self.seed }
    }

    pub fn secret_key_share(&self, i: u64) -> (s: SecretKeyShare)
        ensures
            s.val == self.seed ^ i,
    {
        SecretKeyShare { val: self.seed ^ i }
    }
}

} // verus!
