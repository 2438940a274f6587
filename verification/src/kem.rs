//! Key encapsulation over the sponge.
//!
//! This is a structural placeholder for a real public-key KEM: it has the
//! fixed ciphertext layout, the keypair shape, the pkid digest and the
//! reject path the codec needs, and its round trip is proved, but it
//! offers no asymmetric security. The wider design treats the KEM as a
//! swappable collaborator behind exactly this interface.
//!
//! A ciphertext is `eph || (key XOR stream) || tag`, where `stream` and
//! `tag` are squeezed from a sponge fed the public key and the ephemeral
//! bytes; decapsulation recomputes both and rejects a ciphertext whose
//! tag does not match.

use vstd::prelude::*;

use crate::bytes::copy_bytes;
use crate::bytes::concat_bytes;
use crate::bytes::lemma_xor_seq_cancel;
use crate::bytes::sub_bytes;
use crate::bytes::xor_bytes;
use crate::bytes::xor_seq;
use crate::bytes::eq_bytes;
use crate::errors::CodecError;
use crate::prng::Prng;
use crate::prng::prng_gen_spec;
use crate::sponge::sp_absorb;
use crate::sponge::sp_commit;
use crate::sponge::sp_init;
use crate::sponge::sp_squeeze;
use crate::sponge::lemma_absorb_wf;
use crate::sponge::lemma_commit_wf;
use crate::sponge::lemma_squeeze_wf;
use crate::sponge::Sponge;
use crate::EKEY_SIZE;
use crate::EPH_SIZE;
use crate::KEM_TAG_SIZE;
use crate::KEY_SIZE;
use crate::PKID_SIZE;
use crate::PK_SIZE;
use crate::SK_SIZE;

verus! {

/// Domain separator for public-key derivation.
pub const KEM_DOM_PK: u8 = 1;

/// Domain separator for the pkid digest.
pub const KEM_DOM_PKID: u8 = 2;

/// Domain separator for the encapsulation stream.
pub const KEM_DOM_STREAM: u8 = 3;

/// Domain separator for the ciphertext check tag.
pub const KEM_DOM_TAG: u8 = 6;

/// The public key derived from a secret key.
pub open spec fn kem_pk_spec(sk: Seq<u8>) -> Seq<u8> {
    sp_squeeze(sp_commit(sp_absorb(sp_absorb(sp_init(), seq![KEM_DOM_PK]), sk)), PK_SIZE as nat).1
}

/// The fixed-size digest identifying a public key on the wire.
pub open spec fn kem_pkid_spec(pk: Seq<u8>) -> Seq<u8> {
    sp_squeeze(sp_commit(sp_absorb(sp_absorb(sp_init(), seq![KEM_DOM_PKID]), pk)), PKID_SIZE as nat).1
}

/// The key stream masking one encapsulated key.
pub open spec fn kem_stream_spec(pk: Seq<u8>, eph: Seq<u8>) -> Seq<u8> {
    sp_squeeze(
        sp_commit(sp_absorb(sp_absorb(sp_absorb(sp_init(), seq![KEM_DOM_STREAM]), pk), eph)),
        KEY_SIZE as nat,
    ).1
}

/// The check tag of a ciphertext: it binds the public key, the
/// ephemeral bytes and the masked key bytes, so any tampering with the
/// ciphertext is rejected.
pub open spec fn kem_tag_spec(pk: Seq<u8>, eph: Seq<u8>, masked: Seq<u8>) -> Seq<u8> {
    sp_squeeze(
        sp_commit(sp_absorb(sp_absorb(sp_absorb(sp_absorb(sp_init(), seq![KEM_DOM_TAG]), pk), eph), masked)),
        KEM_TAG_SIZE as nat,
    ).1
}

/// The ciphertext of `key` under `pk` with ephemeral bytes `eph`.
pub open spec fn kem_encaps_spec(pk: Seq<u8>, key: Seq<u8>, eph: Seq<u8>) -> Seq<u8> {
    let masked = xor_seq(key, kem_stream_spec(pk, eph));
    eph + masked + kem_tag_spec(pk, eph, masked)
}

/// What decapsulation under `sk` makes of a ciphertext: the key when the
/// check tag matches, nothing otherwise.
pub open spec fn kem_decaps_spec(sk: Seq<u8>, ct: Seq<u8>) -> Option<Seq<u8>> {
    let pk = kem_pk_spec(sk);
    let eph = ct.take(EPH_SIZE as int);
    let masked = ct.subrange(EPH_SIZE as int, (EPH_SIZE + KEY_SIZE) as int);
    if ct.skip((EPH_SIZE + KEY_SIZE) as int) == kem_tag_spec(pk, eph, masked) {
        Some(xor_seq(masked, kem_stream_spec(pk, eph)))
    } else {
        None
    }
}

/// The key stream has full length.
pub proof fn lemma_kem_stream_len(pk: Seq<u8>, eph: Seq<u8>)
    ensures
        kem_stream_spec(pk, eph).len() == KEY_SIZE,
{
    let m0 = sp_absorb(sp_absorb(sp_absorb(sp_init(), seq![KEM_DOM_STREAM]), pk), eph);
    lemma_absorb_wf(sp_init(), seq![KEM_DOM_STREAM]);
    lemma_absorb_wf(sp_absorb(sp_init(), seq![KEM_DOM_STREAM]), pk);
    lemma_absorb_wf(sp_absorb(sp_absorb(sp_init(), seq![KEM_DOM_STREAM]), pk), eph);
    lemma_commit_wf(m0);
    lemma_squeeze_wf(sp_commit(m0), KEY_SIZE as nat);
}

/// The check tag has full length.
pub proof fn lemma_kem_tag_len(pk: Seq<u8>, eph: Seq<u8>, masked: Seq<u8>)
    ensures
        kem_tag_spec(pk, eph, masked).len() == KEM_TAG_SIZE,
{
    let m0 = sp_absorb(sp_absorb(sp_absorb(sp_absorb(sp_init(), seq![KEM_DOM_TAG]), pk), eph), masked);
    lemma_absorb_wf(sp_init(), seq![KEM_DOM_TAG]);
    lemma_absorb_wf(sp_absorb(sp_init(), seq![KEM_DOM_TAG]), pk);
    lemma_absorb_wf(sp_absorb(sp_absorb(sp_init(), seq![KEM_DOM_TAG]), pk), eph);
    lemma_absorb_wf(sp_absorb(sp_absorb(sp_absorb(sp_init(), seq![KEM_DOM_TAG]), pk), eph), masked);
    lemma_commit_wf(m0);
    lemma_squeeze_wf(sp_commit(m0), KEM_TAG_SIZE as nat);
}

/// The pkid digest has its fixed length.
pub proof fn lemma_kem_pkid_len(pk: Seq<u8>)
    ensures
        kem_pkid_spec(pk).len() == PKID_SIZE,
{
    let m0 = sp_absorb(sp_absorb(sp_init(), seq![KEM_DOM_PKID]), pk);
    lemma_absorb_wf(sp_init(), seq![KEM_DOM_PKID]);
    lemma_absorb_wf(sp_absorb(sp_init(), seq![KEM_DOM_PKID]), pk);
    lemma_commit_wf(m0);
    lemma_squeeze_wf(sp_commit(m0), PKID_SIZE as nat);
}

/// A ciphertext has its fixed length.
pub proof fn lemma_kem_encaps_len(pk: Seq<u8>, key: Seq<u8>, eph: Seq<u8>)
    requires
        key.len() == KEY_SIZE,
        eph.len() == EPH_SIZE,
    ensures
        kem_encaps_spec(pk, key, eph).len() == EKEY_SIZE,
{
    lemma_kem_stream_len(pk, eph);
    lemma_kem_tag_len(pk, eph, xor_seq(key, kem_stream_spec(pk, eph)));
}

/// Decapsulating one's own encapsulation recovers the key.
pub proof fn lemma_kem_roundtrip(sk: Seq<u8>, key: Seq<u8>, eph: Seq<u8>)
    requires
        key.len() == KEY_SIZE,
        eph.len() == EPH_SIZE,
    ensures
        kem_decaps_spec(sk, kem_encaps_spec(kem_pk_spec(sk), key, eph)) == Some(key),
{
    let pk = kem_pk_spec(sk);
    let ks = kem_stream_spec(pk, eph);
    lemma_kem_stream_len(pk, eph);
    let masked = xor_seq(key, ks);
    lemma_kem_tag_len(pk, eph, masked);
    let ct = kem_encaps_spec(pk, key, eph);
    assert(ct.take(EPH_SIZE as int) =~= eph);
    assert(ct.subrange(EPH_SIZE as int, (EPH_SIZE + KEY_SIZE) as int) =~= masked);
    assert(ct.skip((EPH_SIZE + KEY_SIZE) as int) =~= kem_tag_spec(pk, eph, masked));
    lemma_xor_seq_cancel(key, ks);
}

/// A key-encapsulation secret key.
#[derive(Clone, Debug)]
pub struct KemSecretKey(pub Vec<u8>);

/// A key-encapsulation public key.
#[derive(Clone, Debug)]
pub struct KemPublicKey(pub Vec<u8>);

impl View for KemSecretKey {
    type V = Seq<u8>;

    open spec fn view(&self) -> Seq<u8> {
        self.0@
    }
}

impl View for KemPublicKey {
    type V = Seq<u8>;

    open spec fn view(&self) -> Seq<u8> {
        self.0@
    }
}

/// Derive the public key belonging to `sk`.
pub fn derive_pk(sk: &KemSecretKey) -> (pk: KemPublicKey)
    ensures
        pk@ == kem_pk_spec(sk@),
        pk@.len() == PK_SIZE,
{
    let dom: Vec<u8> = vec![KEM_DOM_PK];
    proof {
        assert(dom@ =~= seq![KEM_DOM_PK]);
    }
    let mut s = Sponge::init();
    s.absorb(&dom);
    s.absorb(&sk.0);
    s.commit();
    proof {
        lemma_absorb_wf(sp_init(), seq![KEM_DOM_PK]);
        lemma_absorb_wf(sp_absorb(sp_init(), seq![KEM_DOM_PK]), sk@);
        lemma_commit_wf(sp_absorb(sp_absorb(sp_init(), seq![KEM_DOM_PK]), sk@));
        lemma_squeeze_wf(sp_commit(sp_absorb(sp_absorb(sp_init(), seq![KEM_DOM_PK]), sk@)), PK_SIZE as nat);
    }
    KemPublicKey(s.squeeze(PK_SIZE))
}

/// Fresh keypair from the generator: the secret is `SK_SIZE` generated
/// bytes, the public key is derived from it.
pub fn gen_keypair(prng: &Prng, nonce: &Vec<u8>) -> (r: (KemSecretKey, KemPublicKey))
    ensures
        r.0@ == prng_gen_spec(prng.secret@, nonce@, SK_SIZE as nat),
        r.1@ == kem_pk_spec(r.0@),
        r.1@.len() == PK_SIZE,
{
    let sk = KemSecretKey(prng.gen(nonce, SK_SIZE));
    let pk = derive_pk(&sk);
    (sk, pk)
}

/// The wire digest of a public key.
pub fn pkid(pk: &KemPublicKey) -> (r: Vec<u8>)
    ensures
        r@ == kem_pkid_spec(pk@),
        r@.len() == PKID_SIZE,
{
    let dom: Vec<u8> = vec![KEM_DOM_PKID];
    proof {
        assert(dom@ =~= seq![KEM_DOM_PKID]);
    }
    let mut s = Sponge::init();
    s.absorb(&dom);
    s.absorb(&pk.0);
    s.commit();
    proof {
        lemma_absorb_wf(sp_init(), seq![KEM_DOM_PKID]);
        lemma_absorb_wf(sp_absorb(sp_init(), seq![KEM_DOM_PKID]), pk@);
        lemma_commit_wf(sp_absorb(sp_absorb(sp_init(), seq![KEM_DOM_PKID]), pk@));
        lemma_squeeze_wf(sp_commit(sp_absorb(sp_absorb(sp_init(), seq![KEM_DOM_PKID]), pk@)), PKID_SIZE as nat);
    }
    s.squeeze(PKID_SIZE)
}

/// The key stream masking one encapsulated key.
fn kem_stream(pk: &KemPublicKey, eph: &Vec<u8>) -> (r: Vec<u8>)
    ensures
        r@ == kem_stream_spec(pk@, eph@),
        r@.len() == KEY_SIZE,
{
    let dom: Vec<u8> = vec![KEM_DOM_STREAM];
    proof {
        assert(dom@ =~= seq![KEM_DOM_STREAM]);
    }
    let mut s = Sponge::init();
    s.absorb(&dom);
    s.absorb(&pk.0);
    s.absorb(eph);
    s.commit();
    proof {
        lemma_absorb_wf(sp_init(), seq![KEM_DOM_STREAM]);
        lemma_absorb_wf(sp_absorb(sp_init(), seq![KEM_DOM_STREAM]), pk@);
        lemma_absorb_wf(sp_absorb(sp_absorb(sp_init(), seq![KEM_DOM_STREAM]), pk@), eph@);
        lemma_commit_wf(sp_absorb(sp_absorb(sp_absorb(sp_init(), seq![KEM_DOM_STREAM]), pk@), eph@));
        lemma_squeeze_wf(
            sp_commit(sp_absorb(sp_absorb(sp_absorb(sp_init(), seq![KEM_DOM_STREAM]), pk@), eph@)),
            KEY_SIZE as nat,
        );
    }
    s.squeeze(KEY_SIZE)
}

/// The check tag over one ciphertext's parts.
fn kem_tag(pk: &KemPublicKey, eph: &Vec<u8>, masked: &Vec<u8>) -> (r: Vec<u8>)
    ensures
        r@ == kem_tag_spec(pk@, eph@, masked@),
        r@.len() == KEM_TAG_SIZE,
{
    let dom: Vec<u8> = vec![KEM_DOM_TAG];
    proof {
        assert(dom@ =~= seq![KEM_DOM_TAG]);
    }
    let mut s = Sponge::init();
    s.absorb(&dom);
    s.absorb(&pk.0);
    s.absorb(eph);
    s.absorb(masked);
    s.commit();
    proof {
        lemma_absorb_wf(sp_init(), seq![KEM_DOM_TAG]);
        lemma_absorb_wf(sp_absorb(sp_init(), seq![KEM_DOM_TAG]), pk@);
        lemma_absorb_wf(sp_absorb(sp_absorb(sp_init(), seq![KEM_DOM_TAG]), pk@), eph@);
        lemma_absorb_wf(sp_absorb(sp_absorb(sp_absorb(sp_init(), seq![KEM_DOM_TAG]), pk@), eph@), masked@);
        lemma_commit_wf(sp_absorb(sp_absorb(sp_absorb(sp_absorb(sp_init(), seq![KEM_DOM_TAG]), pk@), eph@), masked@));
        lemma_squeeze_wf(
            sp_commit(sp_absorb(sp_absorb(sp_absorb(sp_absorb(sp_init(), seq![KEM_DOM_TAG]), pk@), eph@), masked@)),
            KEM_TAG_SIZE as nat,
        );
    }
    s.squeeze(KEM_TAG_SIZE)
}

/// Encapsulate `key` under `pk` with ephemeral bytes `eph`.
pub fn encaps(pk: &KemPublicKey, key: &Vec<u8>, eph: &Vec<u8>) -> (ct: Vec<u8>)
    requires
        key@.len() == KEY_SIZE,
        eph@.len() == EPH_SIZE,
    ensures
        ct@ == kem_encaps_spec(pk@, key@, eph@),
        ct@.len() == EKEY_SIZE,
{
    let ks = kem_stream(pk, eph);
    let masked = xor_bytes(key, &ks);
    let tag = kem_tag(pk, eph, &masked);
    let head = concat_bytes(eph, &masked);
    let ct = concat_bytes(&head, &tag);
    proof {
        assert(ct@ =~= kem_encaps_spec(pk@, key@, eph@));
    }
    ct
}

/// Decapsulate `ct` under `sk`; fails with `NtruDecapFailed` exactly when
/// the check tag does not match.
pub fn decaps(sk: &KemSecretKey, ct: &Vec<u8>) -> (r: Result<Vec<u8>, CodecError>)
    requires
        ct@.len() == EKEY_SIZE,
    ensures
        r is Ok <==> kem_decaps_spec(sk@, ct@) is Some,
        r is Ok ==> kem_decaps_spec(sk@, ct@) == Some(r->Ok_0@),
        r is Ok ==> r->Ok_0@.len() == KEY_SIZE,
        r is Err ==> r == Err::<Vec<u8>, CodecError>(CodecError::NtruDecapFailed),
{
    let pk = derive_pk(sk);
    let eph = sub_bytes(ct, 0, EPH_SIZE);
    let masked = sub_bytes(ct, EPH_SIZE, EPH_SIZE + KEY_SIZE);
    proof {
        assert(eph@ =~= ct@.take(EPH_SIZE as int));
    }
    let tag = kem_tag(&pk, &eph, &masked);
    let ct_tag = sub_bytes(ct, EPH_SIZE + KEY_SIZE, EKEY_SIZE);
    proof {
        assert(ct_tag@ =~= ct@.skip((EPH_SIZE + KEY_SIZE) as int));
    }
    if !eq_bytes(&ct_tag, &tag) {
        return Err(CodecError::NtruDecapFailed);
    }
    let ks = kem_stream(&pk, &eph);
    let key = xor_bytes(&masked, &ks);
    Ok(key)
}

/// Ephemeral bytes for one encapsulation, drawn deterministically from
/// the generator, the session nonce and the recipient's pkid.
pub fn kem_eph(prng: &Prng, nonce: &Vec<u8>, pkid_bytes: &Vec<u8>) -> (r: Vec<u8>)
    ensures
        r@ == prng_gen_spec(prng.secret@, nonce@ + pkid_bytes@, EPH_SIZE as nat),
        r@.len() == EPH_SIZE,
{
    let seed = concat_bytes(nonce, pkid_bytes);
    prng.gen(&seed, EPH_SIZE)
}

/// An owned copy of a secret key, with its bytes pinned in the contract.
pub fn kem_copy_sk(sk: &KemSecretKey) -> (r: KemSecretKey)
    ensures
        r@ == sk@,
{
    KemSecretKey(copy_bytes(&sk.0))
}

} // verus!
