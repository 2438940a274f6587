//! Signing over the sponge.
//!
//! A structural placeholder for a real signature scheme, behind the
//! interface the `mssig` operator needs: keypairs, a deterministic
//! signature over a digest, and verification that rejects any other
//! signature. It offers no asymmetric security; the wider design treats
//! the signer as a swappable collaborator.

use vstd::prelude::*;

use crate::prng::Prng;
use crate::prng::prng_gen_spec;
use crate::sponge::sp_absorb;
use crate::sponge::sp_commit;
use crate::sponge::sp_init;
use crate::sponge::sp_squeeze;
use crate::sponge::lemma_absorb_wf;
use crate::sponge::lemma_commit_wf;
use crate::sponge::lemma_squeeze_wf;
use crate::sponge::Sponge;
use crate::bytes::eq_bytes;
use crate::PK_SIZE;
use crate::SIG_SIZE;
use crate::SK_SIZE;

verus! {

/// Domain separator for public-key derivation.
pub const SIG_DOM_PK: u8 = 4;

/// Domain separator for signatures.
pub const SIG_DOM_SIG: u8 = 5;

/// The verifying key derived from a signing key.
pub open spec fn sig_pk_spec(sk: Seq<u8>) -> Seq<u8> {
    sp_squeeze(sp_commit(sp_absorb(sp_absorb(sp_init(), seq![SIG_DOM_PK]), sk)), PK_SIZE as nat).1
}

/// The signature over `digest` that verifies under `pk`.
pub open spec fn sig_of_spec(pk: Seq<u8>, digest: Seq<u8>) -> Seq<u8> {
    sp_squeeze(sp_commit(sp_absorb(sp_absorb(sp_absorb(sp_init(), seq![SIG_DOM_SIG]), pk), digest)), SIG_SIZE as nat).1
}

/// A signing key.
#[derive(Clone, Debug)]
pub struct SigSecretKey(pub Vec<u8>);

/// A verifying key.
#[derive(Clone, Debug)]
pub struct SigPublicKey(pub Vec<u8>);

impl View for SigSecretKey {
    type V = Seq<u8>;

    open spec fn view(&self) -> Seq<u8> {
        self.0@
    }
}

impl View for SigPublicKey {
    type V = Seq<u8>;

    open spec fn view(&self) -> Seq<u8> {
        self.0@
    }
}

/// Derive the verifying key belonging to `sk`.
pub fn derive_pk(sk: &SigSecretKey) -> (pk: SigPublicKey)
    ensures
        pk@ == sig_pk_spec(sk@),
        pk@.len() == PK_SIZE,
{
    let dom: Vec<u8> = vec![SIG_DOM_PK];
    proof {
        assert(dom@ =~= seq![SIG_DOM_PK]);
    }
    let mut s = Sponge::init();
    s.absorb(&dom);
    s.absorb(&sk.0);
    s.commit();
    proof {
        lemma_absorb_wf(sp_init(), seq![SIG_DOM_PK]);
        lemma_absorb_wf(sp_absorb(sp_init(), seq![SIG_DOM_PK]), sk@);
        lemma_commit_wf(sp_absorb(sp_absorb(sp_init(), seq![SIG_DOM_PK]), sk@));
        lemma_squeeze_wf(sp_commit(sp_absorb(sp_absorb(sp_init(), seq![SIG_DOM_PK]), sk@)), PK_SIZE as nat);
    }
    SigPublicKey(s.squeeze(PK_SIZE))
}

/// Fresh keypair from the generator.
pub fn gen_keypair(prng: &Prng, nonce: &Vec<u8>) -> (r: (SigSecretKey, SigPublicKey))
    ensures
        r.0@ == prng_gen_spec(prng.secret@, nonce@, SK_SIZE as nat),
        r.1@ == sig_pk_spec(r.0@),
        r.1@.len() == PK_SIZE,
{
    let sk = SigSecretKey(prng.gen(nonce, SK_SIZE));
    let pk = derive_pk(&sk);
    (sk, pk)
}

/// The signature bytes over `digest`.
fn sig_bytes(pk: &SigPublicKey, digest: &Vec<u8>) -> (r: Vec<u8>)
    ensures
        r@ == sig_of_spec(pk@, digest@),
        r@.len() == SIG_SIZE,
{
    let dom: Vec<u8> = vec![SIG_DOM_SIG];
    proof {
        assert(dom@ =~= seq![SIG_DOM_SIG]);
    }
    let mut s = Sponge::init();
    s.absorb(&dom);
    s.absorb(&pk.0);
    s.absorb(digest);
    s.commit();
    proof {
        lemma_absorb_wf(sp_init(), seq![SIG_DOM_SIG]);
        lemma_absorb_wf(sp_absorb(sp_init(), seq![SIG_DOM_SIG]), pk@);
        lemma_absorb_wf(sp_absorb(sp_absorb(sp_init(), seq![SIG_DOM_SIG]), pk@), digest@);
        lemma_commit_wf(sp_absorb(sp_absorb(sp_absorb(sp_init(), seq![SIG_DOM_SIG]), pk@), digest@));
        lemma_squeeze_wf(
            sp_commit(sp_absorb(sp_absorb(sp_absorb(sp_init(), seq![SIG_DOM_SIG]), pk@), digest@)),
            SIG_SIZE as nat,
        );
    }
    s.squeeze(SIG_SIZE)
}

/// Sign `digest` with `sk`.
pub fn sign(sk: &SigSecretKey, digest: &Vec<u8>) -> (r: Vec<u8>)
    ensures
        r@ == sig_of_spec(sig_pk_spec(sk@), digest@),
        r@.len() == SIG_SIZE,
{
    let pk = derive_pk(sk);
    sig_bytes(&pk, digest)
}

/// Check a signature: accepts exactly the signature of `digest` under
/// `pk`.
pub fn verify(pk: &SigPublicKey, digest: &Vec<u8>, sig: &Vec<u8>) -> (r: bool)
    ensures
        r <==> sig@ == sig_of_spec(pk@, digest@),
{
    let expect = sig_bytes(pk, digest);
    eq_bytes(sig, &expect)
}

} // verus!
