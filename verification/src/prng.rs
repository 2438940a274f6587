//! A deterministic pseudo-random generator over the sponge.
//!
//! Given the same secret and the same nonce, `gen` returns the same
//! bytes; sessions rely on this to reproduce wire output from a fixed
//! seed.

use vstd::prelude::*;

use crate::sponge::sp_absorb;
use crate::sponge::sp_commit;
use crate::sponge::sp_init;
use crate::sponge::sp_squeeze;
use crate::sponge::sp_wf;
use crate::sponge::lemma_absorb_wf;
use crate::sponge::lemma_commit_wf;
use crate::sponge::lemma_squeeze_wf;
use crate::sponge::Sponge;

verus! {

/// What `gen` returns: a pure function of secret, nonce and length.
pub open spec fn prng_gen_spec(secret: Seq<u8>, nonce: Seq<u8>, n: nat) -> Seq<u8> {
    sp_squeeze(sp_commit(sp_absorb(sp_absorb(sp_init(), secret), nonce)), n).1
}

/// Generated bytes have the requested length.
pub proof fn lemma_prng_gen_len(secret: Seq<u8>, nonce: Seq<u8>, n: nat)
    ensures
        prng_gen_spec(secret, nonce, n).len() == n,
{
    lemma_absorb_wf(sp_init(), secret);
    lemma_absorb_wf(sp_absorb(sp_init(), secret), nonce);
    lemma_commit_wf(sp_absorb(sp_absorb(sp_init(), secret), nonce));
    lemma_squeeze_wf(sp_commit(sp_absorb(sp_absorb(sp_init(), secret), nonce)), n);
}

/// A seeded generator.
pub struct Prng {
    pub secret: Vec<u8>,
}

impl Prng {
    /// Seed a generator.
    pub fn new(secret: Vec<u8>) -> (r: Prng)
        ensures
            r.secret@ == secret@,
    {
        Prng { secret }
    }

    /// `n` bytes determined by the secret and `nonce` alone.
    pub fn gen(&self, nonce: &Vec<u8>, n: usize) -> (r: Vec<u8>)
        ensures
            r@ == prng_gen_spec(self.secret@, nonce@, n as nat),
            r@.len() == n,
    {
        let mut s = Sponge::init();
        s.absorb(&self.secret);
        s.absorb(nonce);
        s.commit();
        proof {
            lemma_absorb_wf(sp_init(), self.secret@);
            lemma_absorb_wf(sp_absorb(sp_init(), self.secret@), nonce@);
            lemma_commit_wf(sp_absorb(sp_absorb(sp_init(), self.secret@), nonce@));
            lemma_squeeze_wf(sp_commit(sp_absorb(sp_absorb(sp_init(), self.secret@), nonce@)), n as nat);
        }
        s.squeeze(n)
    }
}

} // verus!
