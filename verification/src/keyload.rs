//! The keyload message codec: distribute one session key to a set of
//! recipients, identified either by pre-shared keys or by
//! key-encapsulation public keys.
//!
//! Wire layout, in operator terms:
//!
//! ```text
//! join(prev_link)
//! absorb(nonce)
//! skip(npsks)
//! repeated npsks { fork { mask(pskid); absorb(external psk); commit; mask(key) } }
//! skip(npks)
//! repeated npks  { fork { mask(pkid); ntrukem(pk, key) } }
//! absorb(external key)
//! commit
//! ```
//!
//! Every fork starts from the same parent state, so each recipient's
//! entry is independent of the others, the parent sponge never sees the
//! entries, and an unwrapper that can read any one entry ends with the
//! same sponge state as the wrapper.

use vstd::prelude::*;

use crate::command::sizeof;
use crate::command::unwrap;
use crate::command::wrap;
use crate::errors::CodecError;
use crate::errors::KEY_NOT_FOUND_MSG;
use crate::kem::kem_pkid_spec;
use crate::kem::pkid;
use crate::kem::KemPublicKey;
use crate::kem::KemSecretKey;
use crate::linkstore::ls_find;
use crate::linkstore::LinkEntry;
use crate::linkstore::LinkStore;
use crate::prng::Prng;
use crate::sponge::sp_absorb;
use crate::sponge::sp_commit;
use crate::sponge::sp_decrypt;
use crate::sponge::sp_encrypt;
use crate::sponge::sp_from_inner;
use crate::sponge::sp_wf;
use crate::sponge::SpongeModel;
use crate::sponge::lemma_absorb_wf;
use crate::sponge::lemma_commit_wf;
use crate::sponge::lemma_encrypt_wf;
use crate::types::size_encoding;
use crate::types::size_len;
use crate::types::NBytes;
use crate::types::Size;
use crate::KEY_SIZE;
use crate::LINK_SIZE;
use crate::NONCE_SIZE;
use crate::EKEY_SIZE;
use crate::PKID_SIZE;
use crate::PSKID_SIZE;
use crate::PSK_SIZE;

verus! {

/// Type string identifying a keyload message.
pub const TYPE: &'static str = "STREAMS9CHANNEL9KEYLOAD";

/// Wire bytes of one pre-shared-key entry.
pub const PSK_ENTRY_SIZE: usize = PSKID_SIZE + KEY_SIZE;

/// Wire bytes of one public-key entry.
pub const PK_ENTRY_SIZE: usize = PKID_SIZE + EKEY_SIZE;

/// The parent state every fork starts from: the joined message's state
/// with the session nonce absorbed.
pub open spec fn keyload_s0(inner: Seq<u8>, nonce: Seq<u8>) -> SpongeModel {
    sp_absorb(sp_from_inner(inner), nonce)
}

/// The parent state after the whole message: the session key absorbed
/// externally, then committed. It depends on no recipient entry — fork
/// isolation made concrete.
pub open spec fn keyload_final(inner: Seq<u8>, nonce: Seq<u8>, key: Seq<u8>) -> SpongeModel {
    sp_commit(sp_absorb(keyload_s0(inner, nonce), key))
}

/// Wire bytes of one pre-shared-key entry: the masked identifier, then
/// the key masked after the pre-shared secret is absorbed and committed
/// in the forked child.
pub open spec fn psk_entry_bytes(s0: SpongeModel, pskid: Seq<u8>, psk: Seq<u8>, key: Seq<u8>) -> Seq<u8> {
    let s1 = sp_encrypt(s0, pskid).0;
    let c_id = sp_encrypt(s0, pskid).1;
    let s2 = sp_commit(sp_absorb(s1, psk));
    c_id + sp_encrypt(s2, key).1
}

/// Wire bytes of the whole pre-shared-key section.
pub open spec fn psk_section(s0: SpongeModel, psks: Seq<(NBytes, NBytes)>, key: Seq<u8>) -> Seq<u8>
    decreases psks.len(),
{
    if psks.len() == 0 {
        Seq::empty()
    } else {
        psk_entry_bytes(s0, psks[0].0@, psks[0].1@, key) + psk_section(s0, psks.skip(1), key)
    }
}

/// Wire bytes of one public-key entry: the masked pkid, then the
/// key-encapsulation ciphertext.
pub open spec fn pk_entry_bytes(
    s0: SpongeModel,
    secret: Seq<u8>,
    nonce: Seq<u8>,
    pk: Seq<u8>,
    key: Seq<u8>,
) -> Seq<u8> {
    sp_encrypt(s0, kem_pkid_spec(pk)).1 + wrap::ntrukem_ct_spec(secret, nonce, pk, key)
}

/// Wire bytes of the whole public-key section.
pub open spec fn pk_section(
    s0: SpongeModel,
    secret: Seq<u8>,
    nonce: Seq<u8>,
    pks: Seq<KemPublicKey>,
    key: Seq<u8>,
) -> Seq<u8>
    decreases pks.len(),
{
    if pks.len() == 0 {
        Seq::empty()
    } else {
        pk_entry_bytes(s0, secret, nonce, pks[0]@, key) + pk_section(s0, secret, nonce, pks.skip(1), key)
    }
}

/// The full wire bytes of a keyload.
pub open spec fn keyload_bytes(
    inner: Seq<u8>,
    link: Seq<u8>,
    nonce: Seq<u8>,
    key: Seq<u8>,
    psks: Seq<(NBytes, NBytes)>,
    secret: Seq<u8>,
    pks: Seq<KemPublicKey>,
) -> Seq<u8> {
    let s0 = keyload_s0(inner, nonce);
    link + nonce + size_encoding(psks.len()) + psk_section(s0, psks, key) + size_encoding(pks.len())
        + pk_section(s0, secret, nonce, pks, key)
}

/// The wire size of a keyload with the given recipient counts.
pub open spec fn keyload_size(npsks: nat, npks: nat) -> int {
    LINK_SIZE + NONCE_SIZE + size_len(npsks) + npsks * PSK_ENTRY_SIZE + size_len(npks) + npks * PK_ENTRY_SIZE
}

/// Appending a pre-shared-key entry appends its bytes.
pub proof fn lemma_psk_section_snoc(
    s0: SpongeModel,
    psks: Seq<(NBytes, NBytes)>,
    e: (NBytes, NBytes),
    key: Seq<u8>,
)
    ensures
        psk_section(s0, psks.push(e), key) == psk_section(s0, psks, key) + psk_entry_bytes(
            s0,
            e.0@,
            e.1@,
            key,
        ),
    decreases psks.len(),
{
    if psks.len() == 0 {
        assert(psks.push(e)[0] == e);
        assert(psks.push(e).skip(1) =~= Seq::<(NBytes, NBytes)>::empty());
        reveal_with_fuel(psk_section, 2);
        assert(psk_section(s0, psks.push(e), key) =~= psk_section(s0, psks, key) + psk_entry_bytes(
            s0,
            e.0@,
            e.1@,
            key,
        ));
    } else {
        assert(psks.push(e)[0] == psks[0]);
        assert(psks.push(e).skip(1) =~= psks.skip(1).push(e));
        lemma_psk_section_snoc(s0, psks.skip(1), e, key);
        assert(psk_section(s0, psks.push(e), key) =~= psk_section(s0, psks, key) + psk_entry_bytes(
            s0,
            e.0@,
            e.1@,
            key,
        ));
    }
}

/// Appending a public-key entry appends its bytes.
pub proof fn lemma_pk_section_snoc(
    s0: SpongeModel,
    secret: Seq<u8>,
    nonce: Seq<u8>,
    pks: Seq<KemPublicKey>,
    e: KemPublicKey,
    key: Seq<u8>,
)
    ensures
        pk_section(s0, secret, nonce, pks.push(e), key) == pk_section(s0, secret, nonce, pks, key)
            + pk_entry_bytes(s0, secret, nonce, e@, key),
    decreases pks.len(),
{
    if pks.len() == 0 {
        assert(pks.push(e)[0] == e);
        assert(pks.push(e).skip(1) =~= Seq::<KemPublicKey>::empty());
        reveal_with_fuel(pk_section, 2);
        assert(pk_section(s0, secret, nonce, pks.push(e), key) =~= pk_section(s0, secret, nonce, pks, key)
            + pk_entry_bytes(s0, secret, nonce, e@, key));
    } else {
        assert(pks.push(e)[0] == pks[0]);
        assert(pks.push(e).skip(1) =~= pks.skip(1).push(e));
        lemma_pk_section_snoc(s0, secret, nonce, pks.skip(1), e, key);
        assert(pk_section(s0, secret, nonce, pks.push(e), key) =~= pk_section(s0, secret, nonce, pks, key)
            + pk_entry_bytes(s0, secret, nonce, e@, key));
    }
}

/// One pre-shared-key entry takes its fixed width on the wire.
pub proof fn lemma_psk_entry_len(s0: SpongeModel, pskid: Seq<u8>, psk: Seq<u8>, key: Seq<u8>)
    requires
        sp_wf(s0),
        pskid.len() == PSKID_SIZE,
        key.len() == KEY_SIZE,
    ensures
        psk_entry_bytes(s0, pskid, psk, key).len() == PSK_ENTRY_SIZE,
        sp_wf(sp_commit(sp_absorb(sp_encrypt(s0, pskid).0, psk))),
{
    lemma_encrypt_wf(s0, pskid);
    lemma_absorb_wf(sp_encrypt(s0, pskid).0, psk);
    lemma_commit_wf(sp_absorb(sp_encrypt(s0, pskid).0, psk));
    lemma_encrypt_wf(sp_commit(sp_absorb(sp_encrypt(s0, pskid).0, psk)), key);
}

/// The pre-shared-key section's width is per-entry.
pub proof fn lemma_psk_section_len(s0: SpongeModel, psks: Seq<(NBytes, NBytes)>, key: Seq<u8>)
    requires
        sp_wf(s0),
        key.len() == KEY_SIZE,
        forall|i: int|
            0 <= i < psks.len() ==> (#[trigger] psks[i]).0@.len() == PSKID_SIZE && psks[i].1@.len()
                == PSK_SIZE,
    ensures
        psk_section(s0, psks, key).len() == psks.len() * PSK_ENTRY_SIZE,
    decreases psks.len(),
{
    if psks.len() > 0 {
        lemma_psk_entry_len(s0, psks[0].0@, psks[0].1@, key);
        lemma_psk_section_len(s0, psks.skip(1), key);
        assert((psks.len() - 1) * PSK_ENTRY_SIZE == psks.len() * PSK_ENTRY_SIZE - PSK_ENTRY_SIZE)
            by (nonlinear_arith);
    }
}

/// One public-key entry takes its fixed width on the wire.
pub proof fn lemma_pk_entry_len(s0: SpongeModel, secret: Seq<u8>, nonce: Seq<u8>, pk: Seq<u8>, key: Seq<u8>)
    requires
        sp_wf(s0),
        key.len() == KEY_SIZE,
    ensures
        pk_entry_bytes(s0, secret, nonce, pk, key).len() == PK_ENTRY_SIZE,
{
    crate::kem::lemma_kem_pkid_len(pk);
    lemma_encrypt_wf(s0, kem_pkid_spec(pk));
    crate::prng::lemma_prng_gen_len(secret, nonce + kem_pkid_spec(pk), crate::EPH_SIZE as nat);
    crate::kem::lemma_kem_encaps_len(pk, key, wrap::ntrukem_eph_spec(secret, nonce, pk));
}

/// The public-key section's width is per-entry.
pub proof fn lemma_pk_section_len(
    s0: SpongeModel,
    secret: Seq<u8>,
    nonce: Seq<u8>,
    pks: Seq<KemPublicKey>,
    key: Seq<u8>,
)
    requires
        sp_wf(s0),
        key.len() == KEY_SIZE,
    ensures
        pk_section(s0, secret, nonce, pks, key).len() == pks.len() * PK_ENTRY_SIZE,
    decreases pks.len(),
{
    if pks.len() > 0 {
        lemma_pk_entry_len(s0, secret, nonce, pks[0]@, key);
        lemma_pk_section_len(s0, secret, nonce, pks.skip(1), key);
        assert((pks.len() - 1) * PK_ENTRY_SIZE == pks.len() * PK_ENTRY_SIZE - PK_ENTRY_SIZE)
            by (nonlinear_arith);
    }
}

/// The starting state of a keyload is well-formed.
pub proof fn lemma_keyload_s0_wf(inner: Seq<u8>, nonce: Seq<u8>)
    requires
        inner.len() == crate::CAP,
    ensures
        sp_wf(keyload_s0(inner, nonce)),
{
    lemma_absorb_wf(sp_from_inner(inner), nonce);
}

/// Size agreement, stated of the wire bytes themselves: a keyload's
/// byte string has exactly the size the size mode computes from the
/// recipient counts.
pub proof fn lemma_keyload_bytes_len(
    inner: Seq<u8>,
    link: Seq<u8>,
    nonce: Seq<u8>,
    key: Seq<u8>,
    psks: Seq<(NBytes, NBytes)>,
    secret: Seq<u8>,
    pks: Seq<KemPublicKey>,
)
    requires
        inner.len() == crate::CAP,
        link.len() == LINK_SIZE,
        nonce.len() == NONCE_SIZE,
        key.len() == KEY_SIZE,
        forall|i: int|
            0 <= i < psks.len() ==> (#[trigger] psks[i]).0@.len() == PSKID_SIZE && psks[i].1@.len()
                == PSK_SIZE,
    ensures
        keyload_bytes(inner, link, nonce, key, psks, secret, pks).len() == keyload_size(
            psks.len(),
            pks.len(),
        ),
{
    let s0 = keyload_s0(inner, nonce);
    lemma_keyload_s0_wf(inner, nonce);
    lemma_psk_section_len(s0, psks, key);
    lemma_pk_section_len(s0, secret, nonce, pks, key);
    crate::types::lemma_size_be_bytes_len(psks.len());
    crate::types::lemma_size_be_bytes_len(pks.len());
}

/// The wrap side of a keyload: the linked prior message, the session
/// nonce and key, the recipient lists, and the generator that draws the
/// encapsulation ephemerals.
pub struct ContentWrap {
    pub link: NBytes,
    pub nonce: NBytes,
    pub key: NBytes,
    pub psks: Vec<(NBytes, NBytes)>,
    pub ntru_pks: Vec<KemPublicKey>,
    pub prng: Prng,
}

impl ContentWrap {
    /// All fields have their wire widths.
    pub open spec fn wf(&self) -> bool {
        &&& self.link@.len() == LINK_SIZE
        &&& self.nonce@.len() == NONCE_SIZE
        &&& self.key@.len() == KEY_SIZE
        &&& forall|i: int|
            0 <= i < self.psks@.len() ==> (#[trigger] self.psks@[i]).0@.len() == PSKID_SIZE
                && self.psks@[i].1@.len() == PSK_SIZE
    }

    /// The wire bytes this wrap emits, given the joined inner state.
    pub open spec fn bytes(&self, inner: Seq<u8>) -> Seq<u8> {
        keyload_bytes(inner, self.link@, self.nonce@, self.key@, self.psks@, self.prng.secret@, self.ntru_pks@)
    }

    /// Size mode: the fixed header plus one fixed-size block for each
    /// recipient.
    #[verifier::loop_isolation(false)]
    #[verifier::rlimit(60)]
    pub fn sizeof(&self, ctx: &mut sizeof::Context)
        requires
            self.wf(),
            old(ctx).size + keyload_size(self.psks@.len(), self.ntru_pks@.len()) <= usize::MAX,
        ensures
            final(ctx).size == old(ctx).size + keyload_size(self.psks@.len(), self.ntru_pks@.len()),
    {
        let ghost size0 = old(ctx).size as int;
        let ghost n = self.psks@.len() as int;
        let ghost m = self.ntru_pks@.len() as int;
        ctx.join();
        ctx.absorb_nbytes(&self.nonce);
        ctx.skip_size(Size(self.psks.len()));
        let ghost base = size0 + LINK_SIZE + NONCE_SIZE + size_len(self.psks@.len());
        let mut i: usize = 0;
        while i < self.psks.len()
            invariant
                i <= n,
                n == self.psks@.len(),
                self.wf(),
                base + n * PSK_ENTRY_SIZE + size_len(self.ntru_pks@.len()) + self.ntru_pks@.len()
                    * PK_ENTRY_SIZE <= usize::MAX,
                ctx.size == base + i * PSK_ENTRY_SIZE,
            decreases n - i,
        {
            proof {
                assert(i * PSK_ENTRY_SIZE + PSK_ENTRY_SIZE <= n * PSK_ENTRY_SIZE) by (nonlinear_arith)
                    requires
                        i < n,
                        PSK_ENTRY_SIZE > 0,
                ;
                assert((i + 1) * PSK_ENTRY_SIZE == i * PSK_ENTRY_SIZE + PSK_ENTRY_SIZE) by (nonlinear_arith);
            }
            ctx.mask_nbytes(&self.psks[i].0);
            ctx.mask_nbytes(&self.key);
            i = i + 1;
        }
        ctx.skip_size(Size(self.ntru_pks.len()));
        let ghost base2 = base + n * PSK_ENTRY_SIZE + size_len(self.ntru_pks@.len());
        let mut j: usize = 0;
        while j < self.ntru_pks.len()
            invariant
                j <= m,
                m == self.ntru_pks@.len(),
                self.wf(),
                base2 + m * PK_ENTRY_SIZE <= usize::MAX,
                ctx.size == base2 + j * PK_ENTRY_SIZE,
            decreases m - j,
        {
            proof {
                assert(j * PK_ENTRY_SIZE + PK_ENTRY_SIZE <= m * PK_ENTRY_SIZE) by (nonlinear_arith)
                    requires
                        j < m,
                        PK_ENTRY_SIZE > 0,
                ;
                assert((j + 1) * PK_ENTRY_SIZE == j * PK_ENTRY_SIZE + PK_ENTRY_SIZE) by (nonlinear_arith);
            }
            let id = pkid(&self.ntru_pks[j]);
            ctx.mask_nbytes(&NBytes(id));
            ctx.ntrukem();
            j = j + 1;
        }
        ctx.absorb_external_nbytes(&self.key);
        ctx.commit();
    }

    /// Wrap mode. Succeeds exactly when the store holds the prior link
    /// and the output window fits the whole message; on success the
    /// emitted bytes are [`ContentWrap::bytes`] and the sponge ends in
    /// [`keyload_final`] — a state no recipient entry enters into.
    ///
    /// A failed wrap leaves a partial prefix in the window; per the
    /// error policy the caller discards it, and the context with it.
    #[verifier::loop_isolation(false)]
    #[verifier::rlimit(100)]
    pub fn wrap(&self, store: &LinkStore, ctx: &mut wrap::Context) -> (r: Result<(), CodecError>)
        requires
            self.wf(),
            store.wf(),
            wrap::ctx_wf(old(ctx)),
        ensures
            wrap::ctx_wf(final(ctx)),
            final(ctx).stream@.buf.len() == old(ctx).stream@.buf.len(),
            r is Ok <==> (ls_find(store.entries@, self.link@) is Some && wrap::ctx_cap(old(ctx))
                >= keyload_size(self.psks@.len(), self.ntru_pks@.len())),
            r is Ok ==> ({
                let inner = ls_find(store.entries@, self.link@)->Some_0.0;
                &&& wrap::ctx_done(final(ctx)) == wrap::ctx_done(old(ctx)) + self.bytes(inner)
                &&& final(ctx).sponge@ == keyload_final(inner, self.nonce@, self.key@)
            }),
            ls_find(store.entries@, self.link@) is None ==> *final(ctx) == *old(ctx) && r == Err::<
                (),
                CodecError,
            >(CodecError::LinkNotFound),
            r is Err ==> r == Err::<(), CodecError>(CodecError::LinkNotFound) || r == Err::<(), CodecError>(
                CodecError::ShortBuffer,
            ),
    {
        let ghost n = self.psks@.len() as int;
        let ghost m = self.ntru_pks@.len() as int;
        let ghost cap0 = wrap::ctx_cap(old(ctx));
        let ghost done0 = wrap::ctx_done(old(ctx));
        let ghost buflen0 = old(ctx).stream@.buf.len() as int;
        let ghost total = keyload_size(self.psks@.len(), self.ntru_pks@.len());
        proof {
            crate::types::lemma_size_be_bytes_len(self.psks@.len());
            crate::types::lemma_size_be_bytes_len(self.ntru_pks@.len());
        }
        ctx.join(store, &self.link)?;
        let ghost inner = ls_find(store.entries@, self.link@)->Some_0.0;
        ctx.absorb_nbytes(&self.nonce)?;
        let ghost s0 = keyload_s0(inner, self.nonce@);
        proof {
            lemma_keyload_s0_wf(inner, self.nonce@);
            lemma_psk_section_len(s0, self.psks@, self.key@);
            lemma_pk_section_len(s0, self.prng.secret@, self.nonce@, self.ntru_pks@, self.key@);
        }
        ctx.skip_size(Size(self.psks.len()))?;
        let ghost hdr = self.link@ + self.nonce@ + size_encoding(self.psks@.len());
        proof {
            assert(wrap::ctx_done(ctx) =~= done0 + hdr);
            assert(psk_section(s0, self.psks@.take(0), self.key@) =~= Seq::<u8>::empty());
            assert(done0 + hdr + psk_section(s0, self.psks@.take(0), self.key@) =~= done0 + hdr);
        }
        let mut i: usize = 0;
        while i < self.psks.len()
            invariant
                i <= n,
                n == self.psks@.len(),
                m == self.ntru_pks@.len(),
                self.wf(),
                store.wf(),
                wrap::ctx_wf(ctx),
                ctx.stream@.buf.len() == buflen0,
                ctx.sponge@ == s0,
                sp_wf(s0),
                wrap::ctx_done(ctx) == done0 + hdr + psk_section(s0, self.psks@.take(i as int), self.key@),
                wrap::ctx_cap(ctx) == cap0 - (hdr.len() + i * PSK_ENTRY_SIZE),
                cap0 >= hdr.len() + i * PSK_ENTRY_SIZE,
                hdr.len() == LINK_SIZE + NONCE_SIZE + size_len(self.psks@.len()),
                total == keyload_size(self.psks@.len(), self.ntru_pks@.len()),
            decreases n - i,
        {
            proof {
                assert(i * PSK_ENTRY_SIZE + PSK_ENTRY_SIZE <= n * PSK_ENTRY_SIZE) by (nonlinear_arith)
                    requires
                        i < n,
                        PSK_ENTRY_SIZE > 0,
                ;
                assert((i + 1) * PSK_ENTRY_SIZE == i * PSK_ENTRY_SIZE + PSK_ENTRY_SIZE) by (nonlinear_arith);
                lemma_psk_entry_len(s0, self.psks@[i as int].0@, self.psks@[i as int].1@, self.key@);
            }
            let parent = ctx.fork();
            let r1 = ctx.mask_nbytes(&self.psks[i].0);
            match r1 {
                Ok(()) => (),
                Err(e) => {
                    proof {
                        lemma_wrap_short(cap0, hdr.len() + i * PSK_ENTRY_SIZE, PSKID_SIZE as int, total);
                    }
                    return Err(e);
                },
            }
            ctx.absorb_external_nbytes(&self.psks[i].1);
            ctx.commit();
            let r2 = ctx.mask_nbytes(&self.key);
            match r2 {
                Ok(()) => (),
                Err(e) => {
                    proof {
                        lemma_wrap_short(
                            cap0,
                            hdr.len() + i * PSK_ENTRY_SIZE + PSKID_SIZE,
                            KEY_SIZE as int,
                            total,
                        );
                    }
                    return Err(e);
                },
            }
            ctx.restore(parent);
            proof {
                lemma_psk_section_snoc(s0, self.psks@.take(i as int), self.psks@[i as int], self.key@);
                assert(self.psks@.take(i as int).push(self.psks@[i as int]) =~= self.psks@.take(i + 1));
                assert(wrap::ctx_done(ctx) =~= done0 + hdr + psk_section(
                    s0,
                    self.psks@.take(i + 1),
                    self.key@,
                ));
            }
            i = i + 1;
        }
        proof {
            assert(self.psks@.take(n) =~= self.psks@);
        }
        let r3 = ctx.skip_size(Size(self.ntru_pks.len()));
        match r3 {
            Ok(()) => (),
            Err(e) => {
                proof {
                    lemma_wrap_short(
                        cap0,
                        hdr.len() + n * PSK_ENTRY_SIZE,
                        size_len(self.ntru_pks@.len()) as int,
                        total,
                    );
                }
                return Err(e);
            },
        }
        let ghost hdr2 = hdr + psk_section(s0, self.psks@, self.key@) + size_encoding(self.ntru_pks@.len());
        let ghost used2 = hdr.len() + n * PSK_ENTRY_SIZE + size_len(self.ntru_pks@.len());
        proof {
            assert(wrap::ctx_done(ctx) =~= done0 + hdr2);
            assert(pk_section(s0, self.prng.secret@, self.nonce@, self.ntru_pks@.take(0), self.key@)
                =~= Seq::<u8>::empty());
            assert(done0 + hdr2 + pk_section(
                s0,
                self.prng.secret@,
                self.nonce@,
                self.ntru_pks@.take(0),
                self.key@,
            ) =~= done0 + hdr2);
        }
        let mut j: usize = 0;
        while j < self.ntru_pks.len()
            invariant
                j <= m,
                n == self.psks@.len(),
                m == self.ntru_pks@.len(),
                self.wf(),
                wrap::ctx_wf(ctx),
                ctx.stream@.buf.len() == buflen0,
                ctx.sponge@ == s0,
                sp_wf(s0),
                wrap::ctx_done(ctx) == done0 + hdr2 + pk_section(
                    s0,
                    self.prng.secret@,
                    self.nonce@,
                    self.ntru_pks@.take(j as int),
                    self.key@,
                ),
                wrap::ctx_cap(ctx) == cap0 - (used2 + j * PK_ENTRY_SIZE),
                cap0 >= used2 + j * PK_ENTRY_SIZE,
                used2 == LINK_SIZE + NONCE_SIZE + size_len(self.psks@.len()) + n * PSK_ENTRY_SIZE + size_len(
                    self.ntru_pks@.len(),
                ),
                total == keyload_size(self.psks@.len(), self.ntru_pks@.len()),
            decreases m - j,
        {
            proof {
                assert(j * PK_ENTRY_SIZE + PK_ENTRY_SIZE <= m * PK_ENTRY_SIZE) by (nonlinear_arith)
                    requires
                        j < m,
                        PK_ENTRY_SIZE > 0,
                ;
                assert((j + 1) * PK_ENTRY_SIZE == j * PK_ENTRY_SIZE + PK_ENTRY_SIZE) by (nonlinear_arith);
                crate::kem::lemma_kem_pkid_len(self.ntru_pks@[j as int]@);
                lemma_encrypt_wf(s0, kem_pkid_spec(self.ntru_pks@[j as int]@));
            }
            let parent = ctx.fork();
            let id = pkid(&self.ntru_pks[j]);
            let r1 = ctx.mask_nbytes(&NBytes(id));
            match r1 {
                Ok(()) => (),
                Err(e) => {
                    proof {
                        lemma_wrap_short(cap0, used2 + j * PK_ENTRY_SIZE, PKID_SIZE as int, total);
                    }
                    return Err(e);
                },
            }
            let r2 = ctx.ntrukem(&self.ntru_pks[j], &self.prng, &self.nonce.0, &self.key);
            match r2 {
                Ok(()) => (),
                Err(e) => {
                    proof {
                        lemma_wrap_short(
                            cap0,
                            used2 + j * PK_ENTRY_SIZE + PKID_SIZE,
                            EKEY_SIZE as int,
                            total,
                        );
                    }
                    return Err(e);
                },
            }
            ctx.restore(parent);
            proof {
                lemma_pk_section_snoc(
                    s0,
                    self.prng.secret@,
                    self.nonce@,
                    self.ntru_pks@.take(j as int),
                    self.ntru_pks@[j as int],
                    self.key@,
                );
                assert(self.ntru_pks@.take(j as int).push(self.ntru_pks@[j as int]) =~= self.ntru_pks@.take(
                    j + 1,
                ));
                assert(wrap::ctx_done(ctx) =~= done0 + hdr2 + pk_section(
                    s0,
                    self.prng.secret@,
                    self.nonce@,
                    self.ntru_pks@.take(j + 1),
                    self.key@,
                ));
            }
            j = j + 1;
        }
        proof {
            assert(self.ntru_pks@.take(m) =~= self.ntru_pks@);
        }
        ctx.absorb_external_nbytes(&self.key);
        ctx.commit();
        proof {
            assert(wrap::ctx_done(ctx) =~= done0 + self.bytes(inner));
        }
        Ok(())
    }
}


/// First pre-shared key whose identifier matches, if any.
pub open spec fn psk_find(psks: Seq<(NBytes, NBytes)>, id: Seq<u8>) -> Option<Seq<u8>>
    decreases psks.len(),
{
    if psks.len() == 0 {
        None
    } else if psks[0].0@ == id {
        Some(psks[0].1@)
    } else {
        psk_find(psks.skip(1), id)
    }
}

/// First secret key whose pkid matches, if any.
pub open spec fn sk_find(sks: Seq<(NBytes, KemSecretKey)>, id: Seq<u8>) -> Option<Seq<u8>>
    decreases sks.len(),
{
    if sks.len() == 0 {
        None
    } else if sks[0].0@ == id {
        Some(sks[0].1@)
    } else {
        sk_find(sks.skip(1), id)
    }
}

/// The pre-shared-key scan of unwrap over a section of whole entries:
/// the first matching entry yields the key; every further entry is
/// drained without effect.
pub open spec fn su_psk_scan(
    s0: SpongeModel,
    sect: Seq<u8>,
    n: int,
    psks: Seq<(NBytes, NBytes)>,
    found: Option<Seq<u8>>,
) -> Option<Seq<u8>>
    decreases n,
{
    if n <= 0 {
        found
    } else {
        let e = sect.take(PSK_ENTRY_SIZE as int);
        let tail = sect.skip(PSK_ENTRY_SIZE as int);
        if found is Some {
            su_psk_scan(s0, tail, n - 1, psks, found)
        } else {
            let id = sp_decrypt(s0, e.take(PSKID_SIZE as int)).1;
            let s1 = sp_decrypt(s0, e.take(PSKID_SIZE as int)).0;
            match psk_find(psks, id) {
                None => su_psk_scan(s0, tail, n - 1, psks, None),
                Some(psk) => {
                    let s2 = sp_commit(sp_absorb(s1, psk));
                    let key = sp_decrypt(s2, e.skip(PSKID_SIZE as int)).1;
                    su_psk_scan(s0, tail, n - 1, psks, Some(key))
                },
            }
        }
    }
}

/// The public-key scan of unwrap: like the pre-shared scan, but a
/// matching entry decapsulates, and a rejected ciphertext aborts with
/// the index of the failing entry.
pub open spec fn su_pk_scan(
    s0: SpongeModel,
    sect: Seq<u8>,
    n: int,
    sks: Seq<(NBytes, KemSecretKey)>,
    found: Option<Seq<u8>>,
) -> Result<Option<Seq<u8>>, int>
    decreases n,
{
    if n <= 0 {
        Ok(found)
    } else {
        let e = sect.take(PK_ENTRY_SIZE as int);
        let tail = sect.skip(PK_ENTRY_SIZE as int);
        if found is Some {
            pk_scan_shift(su_pk_scan(s0, tail, n - 1, sks, found))
        } else {
            let id = sp_decrypt(s0, e.take(PKID_SIZE as int)).1;
            match sk_find(sks, id) {
                None => pk_scan_shift(su_pk_scan(s0, tail, n - 1, sks, None)),
                Some(skb) => match crate::kem::kem_decaps_spec(skb, e.skip(PKID_SIZE as int)) {
                    None => Err(0),
                    Some(key) => pk_scan_shift(su_pk_scan(s0, tail, n - 1, sks, Some(key))),
                },
            }
        }
    }
}

/// Shift a scan failure one entry later.
pub open spec fn pk_scan_shift(r: Result<Option<Seq<u8>>, int>) -> Result<Option<Seq<u8>>, int> {
    match r {
        Ok(f) => Ok(f),
        Err(k) => Err(k + 1),
    }
}

/// What a keyload unwrap produces: whether it succeeded, the error
/// otherwise, the bytes it consumed either way, and on success the
/// parsed link and nonce, the recovered key, and the final parent
/// sponge. The `err` field means nothing when `ok` holds, and the
/// value fields mean nothing when it does not.
pub ghost struct KeyloadOut {
    pub ok: bool,
    pub err: CodecError,
    pub consumed: int,
    pub link: Seq<u8>,
    pub nonce: Seq<u8>,
    pub key: Seq<u8>,
    pub sponge: SpongeModel,
}

/// A failed unwrap outcome.
pub open spec fn kl_fail(err: CodecError, consumed: int) -> KeyloadOut {
    KeyloadOut {
        ok: false,
        err,
        consumed,
        link: Seq::empty(),
        nonce: Seq::empty(),
        key: Seq::empty(),
        sponge: crate::sponge::sp_init(),
    }
}

/// The whole keyload unwrap as a function of the store, the input
/// bytes, and the unwrapper's secrets. The executable unwrap is proved
/// to return exactly this.
pub open spec fn su_keyload(
    stentries: Seq<LinkEntry>,
    rest: Seq<u8>,
    psks: Seq<(NBytes, NBytes)>,
    sks: Seq<(NBytes, KemSecretKey)>,
) -> KeyloadOut {
    if rest.len() < LINK_SIZE {
        kl_fail(CodecError::ShortBuffer, 0)
    } else {
        let link = rest.take(LINK_SIZE as int);
        if ls_find(stentries, link) is None {
            kl_fail(CodecError::LinkNotFound, LINK_SIZE as int)
        } else {
            let inner = ls_find(stentries, link)->Some_0.0;
            if rest.len() < LINK_SIZE + NONCE_SIZE {
                kl_fail(CodecError::ShortBuffer, LINK_SIZE as int)
            } else {
                let nonce = rest.subrange(LINK_SIZE as int, (LINK_SIZE + NONCE_SIZE) as int);
                let s0 = keyload_s0(inner, nonce);
                let off1 = (LINK_SIZE + NONCE_SIZE) as int;
                let r1 = rest.skip(off1);
                match unwrap::size_parse(r1) {
                    Err(e) => kl_fail(e, off1 + unwrap::size_parse_err_consumed(r1)),
                    Ok((np, l1)) => {
                        let off2 = off1 + l1;
                        let r2 = rest.skip(off2);
                        if r2.len() < np * PSK_ENTRY_SIZE {
                            kl_fail(CodecError::ShortBuffer, off2)
                        } else {
                            let found1 = su_psk_scan(
                                s0,
                                r2.take((np * PSK_ENTRY_SIZE) as int),
                                np as int,
                                psks,
                                None,
                            );
                            let off3 = off2 + np * PSK_ENTRY_SIZE;
                            let r3 = rest.skip(off3);
                            match unwrap::size_parse(r3) {
                                Err(e) => kl_fail(e, off3 + unwrap::size_parse_err_consumed(r3)),
                                Ok((nk, l2)) => {
                                    let off4 = off3 + l2;
                                    let r4 = rest.skip(off4);
                                    if r4.len() < nk * PK_ENTRY_SIZE {
                                        kl_fail(CodecError::ShortBuffer, off4)
                                    } else {
                                        match su_pk_scan(
                                            s0,
                                            r4.take((nk * PK_ENTRY_SIZE) as int),
                                            nk as int,
                                            sks,
                                            found1,
                                        ) {
                                            Err(kk) => kl_fail(
                                                CodecError::NtruDecapFailed,
                                                off4 + (kk + 1) * PK_ENTRY_SIZE,
                                            ),
                                            Ok(None) => kl_fail(
                                                CodecError::Guard(KEY_NOT_FOUND_MSG),
                                                off4 + nk * PK_ENTRY_SIZE,
                                            ),
                                            Ok(Some(key)) => KeyloadOut {
                                                ok: true,
                                                err: CodecError::ShortBuffer,
                                                consumed: off4 + nk * PK_ENTRY_SIZE,
                                                link,
                                                nonce,
                                                key,
                                                sponge: sp_commit(sp_absorb(s0, key)),
                                            },
                                        }
                                    }
                                },
                            }
                        }
                    },
                }
            }
        }
    }
}

/// First pre-shared key whose identifier matches, executable side.
fn lookup_psk(psks: &Vec<(NBytes, NBytes)>, id: &Vec<u8>) -> (r: Option<NBytes>)
    ensures
        match r {
            Some(v) => psk_find(psks@, id@) == Some(v@),
            None => psk_find(psks@, id@) is None,
        },
{
    let mut i: usize = 0;
    assert(psks@.skip(0) =~= psks@);
    while i < psks.len()
        invariant
            i <= psks@.len(),
            psk_find(psks@, id@) == psk_find(psks@.skip(i as int), id@),
        decreases psks@.len() - i,
    {
        let ghost pre = psks@.skip(i as int);
        proof {
            assert(pre[0] == psks@[i as int]);
            assert(pre.skip(1) =~= psks@.skip(i + 1));
        }
        if crate::bytes::eq_bytes(&psks[i].0.0, id) {
            return Some(NBytes(crate::bytes::copy_bytes(&psks[i].1.0)));
        }
        i = i + 1;
    }
    proof {
        assert(psks@.skip(psks@.len() as int) =~= Seq::<(NBytes, NBytes)>::empty());
    }
    None
}

/// First secret key whose pkid matches, executable side.
fn lookup_sk(sks: &Vec<(NBytes, KemSecretKey)>, id: &Vec<u8>) -> (r: Option<KemSecretKey>)
    ensures
        match r {
            Some(v) => sk_find(sks@, id@) == Some(v@),
            None => sk_find(sks@, id@) is None,
        },
{
    let mut i: usize = 0;
    assert(sks@.skip(0) =~= sks@);
    while i < sks.len()
        invariant
            i <= sks@.len(),
            sk_find(sks@, id@) == sk_find(sks@.skip(i as int), id@),
        decreases sks@.len() - i,
    {
        let ghost pre = sks@.skip(i as int);
        proof {
            assert(pre[0] == sks@[i as int]);
            assert(pre.skip(1) =~= sks@.skip(i + 1));
        }
        if crate::bytes::eq_bytes(&sks[i].0.0, id) {
            return Some(crate::kem::kem_copy_sk(&sks[i].1));
        }
        i = i + 1;
    }
    proof {
        assert(sks@.skip(sks@.len() as int) =~= Seq::<(NBytes, KemSecretKey)>::empty());
    }
    None
}

/// Entry counts that pass the section bound fit it exactly.
proof fn lemma_count_fits(npv: int, rem: int, k: int)
    requires
        k > 0,
        rem >= 0,
        npv >= 0,
    ensures
        (npv > rem / k) <==> (npv * k > rem),
{
    assert((npv > rem / k) <==> (npv * k > rem)) by (nonlinear_arith)
        requires
            k > 0,
            rem >= 0,
            npv >= 0,
    ;
}


/// Shift a scan failure `j` entries later.
pub open spec fn pk_scan_shift_by(r: Result<Option<Seq<u8>>, int>, j: int) -> Result<Option<Seq<u8>>, int> {
    match r {
        Ok(f) => Ok(f),
        Err(k) => Err(k + j),
    }
}

/// The unwrap side of a keyload: the unwrapper's secrets going in, the
/// parsed link and nonce and the recovered session key coming out.
pub struct ContentUnwrap {
    pub link: NBytes,
    pub nonce: NBytes,
    pub key: NBytes,
    pub key_found: bool,
    pub psks: Vec<(NBytes, NBytes)>,
    pub ntru_sks: Vec<(NBytes, KemSecretKey)>,
}

impl ContentUnwrap {
    /// An unwrapper knowing the given pre-shared keys (by identifier)
    /// and secret keys (by pkid).
    pub fn new(psks: Vec<(NBytes, NBytes)>, ntru_sks: Vec<(NBytes, KemSecretKey)>) -> (r: ContentUnwrap)
        ensures
            r.psks == psks,
            r.ntru_sks == ntru_sks,
            r.link@ == crate::sponge::zero_seq(LINK_SIZE as nat),
            r.nonce@ == crate::sponge::zero_seq(NONCE_SIZE as nat),
            r.key@ == crate::sponge::zero_seq(KEY_SIZE as nat),
            !r.key_found,
    {
        let link: Vec<u8> = vec![0u8; LINK_SIZE];
        let nonce: Vec<u8> = vec![0u8; NONCE_SIZE];
        let key: Vec<u8> = vec![0u8; KEY_SIZE];
        proof {
            assert(link@ =~= crate::sponge::zero_seq(LINK_SIZE as nat));
            assert(nonce@ =~= crate::sponge::zero_seq(NONCE_SIZE as nat));
            assert(key@ =~= crate::sponge::zero_seq(KEY_SIZE as nat));
        }
        ContentUnwrap {
            link: NBytes(link),
            nonce: NBytes(nonce),
            key: NBytes(key),
            key_found: false,
            psks,
            ntru_sks,
        }
    }

    /// Drain the pre-shared-key section: each entry is one fork; the
    /// first entry whose identifier one of our pre-shared keys matches
    /// yields the key; the stream advances by exactly the section.
    #[verifier::loop_isolation(false)]
    #[verifier::rlimit(100)]
    fn unwrap_psk_section(
        &mut self,
        ctx: &mut unwrap::Context,
        np: usize,
        Ghost(s0): Ghost<SpongeModel>,
        Ghost(sect): Ghost<Seq<u8>>,
    ) -> (r: Result<(), CodecError>)
        requires
            unwrap::ctx_wf(old(ctx)),
            sp_wf(s0),
            old(ctx).sponge@ == s0,
            sect == unwrap::ctx_rest(old(ctx)).take(np * PSK_ENTRY_SIZE),
            unwrap::ctx_rest(old(ctx)).len() >= np * PSK_ENTRY_SIZE,
            !old(self).key_found,
        ensures
            r is Ok,
            unwrap::ctx_wf(final(ctx)),
            final(ctx).stream@.buf == old(ctx).stream@.buf,
            final(ctx).sponge@ == s0,
            unwrap::ctx_pos(final(ctx)) == unwrap::ctx_pos(old(ctx)) + np * PSK_ENTRY_SIZE,
            final(self).psks == old(self).psks,
            final(self).ntru_sks == old(self).ntru_sks,
            final(self).link == old(self).link,
            final(self).nonce == old(self).nonce,
            su_psk_scan(s0, sect, np as int, old(self).psks@, None) == (if final(self).key_found {
                Some(final(self).key@)
            } else {
                None
            }),
    {
        let ghost pos0 = unwrap::ctx_pos(old(ctx));
        let ghost np_i = np as int;
        proof {
            assert(sect.skip(0) =~= sect);
        }
        let mut i: usize = 0;
        while i < np
            invariant
                i <= np,
                unwrap::ctx_wf(ctx),
                ctx.stream@.buf == old(ctx).stream@.buf,
                ctx.sponge@ == s0,
                unwrap::ctx_pos(ctx) == pos0 + i * PSK_ENTRY_SIZE,
                self.psks == old(self).psks,
                self.ntru_sks == old(self).ntru_sks,
                self.link == old(self).link,
                self.nonce == old(self).nonce,
                su_psk_scan(s0, sect, np_i, old(self).psks@, None) == su_psk_scan(
                    s0,
                    sect.skip(i * PSK_ENTRY_SIZE),
                    np_i - i,
                    old(self).psks@,
                    if self.key_found {
                        Some(self.key@)
                    } else {
                        None
                    },
                ),
            decreases np - i,
        {
            proof {
                assert((i + 1) * PSK_ENTRY_SIZE == i * PSK_ENTRY_SIZE + PSK_ENTRY_SIZE) by (nonlinear_arith);
                assert(i * PSK_ENTRY_SIZE + PSK_ENTRY_SIZE <= np_i * PSK_ENTRY_SIZE) by (nonlinear_arith)
                    requires
                        i < np_i,
                        PSK_ENTRY_SIZE > 0,
                ;
            }
            let ghost s_i = sect.skip(i * PSK_ENTRY_SIZE);
            let ghost e = s_i.take(PSK_ENTRY_SIZE as int);
            let ghost tail = s_i.skip(PSK_ENTRY_SIZE as int);
            proof {
                assert(tail =~= sect.skip((i + 1) * PSK_ENTRY_SIZE));
                assert(unwrap::ctx_rest(ctx).take(PSKID_SIZE as int) =~= e.take(PSKID_SIZE as int));
            }
            if !self.key_found {
                let parent = ctx.fork();
                let pskid = ctx.mask_nbytes(PSKID_SIZE)?;
                let looked = lookup_psk(&self.psks, &pskid.0);
                match looked {
                    Some(psk) => {
                        ctx.absorb_external_nbytes(&psk);
                        ctx.commit();
                        proof {
                            assert(unwrap::ctx_rest(ctx).take(KEY_SIZE as int) =~= e.skip(
                                PSKID_SIZE as int,
                            ));
                        }
                        let k = ctx.mask_nbytes(KEY_SIZE)?;
                        self.key = k;
                        self.key_found = true;
                        ctx.restore(parent);
                    },
                    None => {
                        let dr = ctx.drop(KEY_SIZE);
                        proof {
                            assert(dr is Ok);
                        }
                        ctx.restore(parent);
                    },
                }
            } else {
                let dr = ctx.drop(PSK_ENTRY_SIZE);
                proof {
                    assert(dr is Ok);
                }
            }
            proof {
                assert(su_psk_scan(s0, sect, np_i, old(self).psks@, None) == su_psk_scan(
                    s0,
                    tail,
                    np_i - (i + 1),
                    old(self).psks@,
                    if self.key_found {
                        Some(self.key@)
                    } else {
                        None
                    },
                ));
            }
            i = i + 1;
        }
        proof {
            assert(sect.skip(np_i * PSK_ENTRY_SIZE).len() == 0);
        }
        Ok(())
    }

    /// Drain the public-key section: the first entry whose pkid one of
    /// our secret keys matches decapsulates the key; a rejected
    /// ciphertext aborts, everything else is drained.
    #[verifier::loop_isolation(false)]
    #[verifier::rlimit(100)]
    fn unwrap_pk_section(
        &mut self,
        ctx: &mut unwrap::Context,
        nk: usize,
        Ghost(s0): Ghost<SpongeModel>,
        Ghost(sect): Ghost<Seq<u8>>,
    ) -> (r: Result<(), CodecError>)
        requires
            unwrap::ctx_wf(old(ctx)),
            sp_wf(s0),
            old(ctx).sponge@ == s0,
            sect == unwrap::ctx_rest(old(ctx)).take(nk * PK_ENTRY_SIZE),
            unwrap::ctx_rest(old(ctx)).len() >= nk * PK_ENTRY_SIZE,
        ensures
            unwrap::ctx_wf(final(ctx)),
            final(ctx).stream@.buf == old(ctx).stream@.buf,
            final(self).psks == old(self).psks,
            final(self).ntru_sks == old(self).ntru_sks,
            final(self).link == old(self).link,
            final(self).nonce == old(self).nonce,
            ({
                let f0 = if old(self).key_found {
                    Some(old(self).key@)
                } else {
                    None
                };
                match su_pk_scan(s0, sect, nk as int, old(self).ntru_sks@, f0) {
                    Ok(f) => r is Ok && final(ctx).sponge@ == s0 && unwrap::ctx_pos(final(ctx))
                        == unwrap::ctx_pos(old(ctx)) + nk * PK_ENTRY_SIZE && f == (
                    if final(self).key_found {
                        Some(final(self).key@)
                    } else {
                        None
                    }),
                    Err(k) => r == Err::<(), CodecError>(CodecError::NtruDecapFailed) && unwrap::ctx_pos(
                        final(ctx),
                    ) == unwrap::ctx_pos(old(ctx)) + (k + 1) * PK_ENTRY_SIZE,
                }
            }),
    {
        let ghost pos0 = unwrap::ctx_pos(old(ctx));
        let ghost nk_i = nk as int;
        let ghost f0 = if old(self).key_found {
            Some(old(self).key@)
        } else {
            Option::<Seq<u8>>::None
        };
        proof {
            assert(sect.skip(0) =~= sect);
        }
        let mut j: usize = 0;
        while j < nk
            invariant
                j <= nk,
                unwrap::ctx_wf(ctx),
                ctx.stream@.buf == old(ctx).stream@.buf,
                ctx.sponge@ == s0,
                unwrap::ctx_pos(ctx) == pos0 + j * PK_ENTRY_SIZE,
                self.psks == old(self).psks,
                self.ntru_sks == old(self).ntru_sks,
                self.link == old(self).link,
                self.nonce == old(self).nonce,
                old(self).key_found ==> self.key_found,
                su_pk_scan(s0, sect, nk_i, old(self).ntru_sks@, f0) == pk_scan_shift_by(
                    su_pk_scan(
                        s0,
                        sect.skip(j * PK_ENTRY_SIZE),
                        nk_i - j,
                        old(self).ntru_sks@,
                        if self.key_found {
                            Some(self.key@)
                        } else {
                            None
                        },
                    ),
                    j as int,
                ),
            decreases nk - j,
        {
            proof {
                assert((j + 1) * PK_ENTRY_SIZE == j * PK_ENTRY_SIZE + PK_ENTRY_SIZE) by (nonlinear_arith);
                assert(j * PK_ENTRY_SIZE + PK_ENTRY_SIZE <= nk_i * PK_ENTRY_SIZE) by (nonlinear_arith)
                    requires
                        j < nk_i,
                        PK_ENTRY_SIZE > 0,
                ;
            }
            let ghost s_j = sect.skip(j * PK_ENTRY_SIZE);
            let ghost e = s_j.take(PK_ENTRY_SIZE as int);
            let ghost tail = s_j.skip(PK_ENTRY_SIZE as int);
            proof {
                assert(tail =~= sect.skip((j + 1) * PK_ENTRY_SIZE));
                assert(unwrap::ctx_rest(ctx).take(PKID_SIZE as int) =~= e.take(PKID_SIZE as int));
            }
            if !self.key_found {
                let parent = ctx.fork();
                let pkid_v = ctx.mask_nbytes(PKID_SIZE)?;
                proof {
                    assert(unwrap::ctx_rest(ctx).take(EKEY_SIZE as int) =~= e.skip(PKID_SIZE as int));
                }
                let looked = lookup_sk(&self.ntru_sks, &pkid_v.0);
                match looked {
                    Some(sk) => {
                        let got = ctx.ntrukem(&sk);
                        match got {
                            Ok(k) => {
                                self.key = k;
                                self.key_found = true;
                                ctx.restore(parent);
                            },
                            Err(err) => {
                                proof {
                                    assert(su_pk_scan(
                                        s0,
                                        s_j,
                                        nk_i - j,
                                        old(self).ntru_sks@,
                                        Option::<Seq<u8>>::None,
                                    ) == Err::<Option<Seq<u8>>, int>(0));
                                }
                                return Err(err);
                            },
                        }
                    },
                    None => {
                        let dr = ctx.drop(EKEY_SIZE);
                        proof {
                            assert(dr is Ok);
                        }
                        ctx.restore(parent);
                    },
                }
            } else {
                let dr = ctx.drop(PK_ENTRY_SIZE);
                proof {
                    assert(dr is Ok);
                }
            }
            proof {
                assert(su_pk_scan(s0, sect, nk_i, old(self).ntru_sks@, f0) == pk_scan_shift_by(
                    su_pk_scan(
                        s0,
                        tail,
                        nk_i - (j + 1),
                        old(self).ntru_sks@,
                        if self.key_found {
                            Some(self.key@)
                        } else {
                            None
                        },
                    ),
                    j + 1,
                ));
            }
            j = j + 1;
        }
        proof {
            assert(sect.skip(nk_i * PK_ENTRY_SIZE).len() == 0);
        }
        Ok(())
    }

    /// Unwrap mode. The result is exactly [`su_keyload`] of the store,
    /// the input bytes and this unwrapper's secrets: the first matching
    /// recipient entry yields the key, later entries are drained
    /// without sponge effect, and with no match the message is consumed
    /// whole and the guard fails with the key-not-found message.
    ///
    /// On failure the bytes consumed so far are still pinned by the
    /// contract; the sponge is not observable after a failure, and the
    /// caller discards the context.
    #[verifier::rlimit(100)]
    pub fn unwrap(&mut self, store: &LinkStore, ctx: &mut unwrap::Context) -> (r: Result<(), CodecError>)
        requires
            store.wf(),
            unwrap::ctx_wf(old(ctx)),
        ensures
            unwrap::ctx_wf(final(ctx)),
            final(ctx).stream@.buf == old(ctx).stream@.buf,
            final(self).psks == old(self).psks,
            final(self).ntru_sks == old(self).ntru_sks,
            ({
                let out = su_keyload(
                    store.entries@,
                    unwrap::ctx_rest(old(ctx)),
                    old(self).psks@,
                    old(self).ntru_sks@,
                );
                &&& (r is Ok <==> out.ok)
                &&& unwrap::ctx_pos(final(ctx)) == unwrap::ctx_pos(old(ctx)) + out.consumed
                &&& (r is Ok ==> final(self).link@ == out.link && final(self).nonce@ == out.nonce
                    && final(self).key@ == out.key && final(self).key_found && final(ctx).sponge@
                    == out.sponge)
                &&& (r is Err ==> r == Err::<(), CodecError>(out.err))
            }),
    {
        let ghost rest = unwrap::ctx_rest(old(ctx));
        let ghost pos0 = unwrap::ctx_pos(old(ctx));
        self.key_found = false;
        let link = ctx.join(store)?;
        self.link = link;
        let ghost inner = ls_find(store.entries@, rest.take(LINK_SIZE as int))->Some_0.0;
        proof {
            assert(unwrap::ctx_rest(ctx) =~= rest.skip(LINK_SIZE as int));
        }
        let nonce = ctx.absorb_nbytes(NONCE_SIZE)?;
        self.nonce = nonce;
        let ghost nonce_s = rest.subrange(LINK_SIZE as int, (LINK_SIZE + NONCE_SIZE) as int);
        let ghost s0 = keyload_s0(inner, nonce_s);
        proof {
            assert(rest.skip(LINK_SIZE as int).take(NONCE_SIZE as int) =~= nonce_s);
            lemma_keyload_s0_wf(inner, nonce_s);
        }
        let ghost off1 = (LINK_SIZE + NONCE_SIZE) as int;
        proof {
            assert(unwrap::ctx_rest(ctx) =~= rest.skip(off1));
        }
        let npsks = ctx.skip_size()?;
        let ghost l1 = unwrap::size_parse(rest.skip(off1))->Ok_0.1;
        let ghost off2 = off1 + l1;
        let ghost np = npsks.0 as int;
        let rem = ctx.stream.remaining();
        proof {
            assert(rem == rest.len() - off2);
            lemma_count_fits(np, rem as int, PSK_ENTRY_SIZE as int);
        }
        if npsks.0 > rem / PSK_ENTRY_SIZE {
            return Err(CodecError::ShortBuffer);
        }
        let ghost sect = rest.skip(off2).take(np * PSK_ENTRY_SIZE);
        proof {
            assert(unwrap::ctx_rest(ctx) =~= rest.skip(off2));
        }
        let r1 = self.unwrap_psk_section(ctx, npsks.0, Ghost(s0), Ghost(sect));
        proof {
            assert(r1 is Ok);
        }
        let ghost found1 = su_psk_scan(s0, sect, np, old(self).psks@, None);
        let ghost off3 = off2 + np * PSK_ENTRY_SIZE;
        proof {
            assert(unwrap::ctx_rest(ctx) =~= rest.skip(off3));
        }
        let npks = ctx.skip_size()?;
        let ghost l2 = unwrap::size_parse(rest.skip(off3))->Ok_0.1;
        let ghost off4 = off3 + l2;
        let ghost nk = npks.0 as int;
        let rem2 = ctx.stream.remaining();
        proof {
            assert(rem2 == rest.len() - off4);
            lemma_count_fits(nk, rem2 as int, PK_ENTRY_SIZE as int);
        }
        if npks.0 > rem2 / PK_ENTRY_SIZE {
            return Err(CodecError::ShortBuffer);
        }
        let ghost sect2 = rest.skip(off4).take(nk * PK_ENTRY_SIZE);
        proof {
            assert(unwrap::ctx_rest(ctx) =~= rest.skip(off4));
        }
        self.unwrap_pk_section(ctx, npks.0, Ghost(s0), Ghost(sect2))?;
        let g = ctx.guard(self.key_found, KEY_NOT_FOUND_MSG);
        match g {
            Ok(()) => (),
            Err(e) => {
                return Err(e);
            },
        }
        ctx.absorb_external_nbytes(&self.key);
        ctx.commit();
        Ok(())
    }
}


/// Whether entry `j` of the wrapper's pre-shared list is one the
/// unwrapper can look up.
pub open spec fn psk_entry_matched(psks_u: Seq<(NBytes, NBytes)>, psks_w: Seq<(NBytes, NBytes)>, j: int) -> bool {
    psk_find(psks_u, psks_w[j].0@) is Some
}

/// The unwrapper knows at least one of the wrapper's pre-shared
/// recipients.
pub open spec fn psk_has_match(psks_u: Seq<(NBytes, NBytes)>, psks_w: Seq<(NBytes, NBytes)>) -> bool {
    exists|j: int| 0 <= j < psks_w.len() && #[trigger] psk_entry_matched(psks_u, psks_w, j)
}

/// When the unwrapper holds a pre-shared key under the identifier of
/// entry `j`, it holds the wrapper's key — the two sides share the
/// secret honestly.
pub open spec fn psk_entry_honest(psks_u: Seq<(NBytes, NBytes)>, psks_w: Seq<(NBytes, NBytes)>, j: int) -> bool {
    match psk_find(psks_u, psks_w[j].0@) {
        Some(v) => v == psks_w[j].1@,
        None => true,
    }
}

/// Honest sharing over the whole pre-shared list.
pub open spec fn psks_honest(psks_u: Seq<(NBytes, NBytes)>, psks_w: Seq<(NBytes, NBytes)>) -> bool {
    forall|j: int| 0 <= j < psks_w.len() ==> #[trigger] psk_entry_honest(psks_u, psks_w, j)
}

/// Whether the unwrapper holds a secret key for recipient `j` of the
/// wrapper's public-key list.
pub open spec fn pk_entry_matched(sks_u: Seq<(NBytes, KemSecretKey)>, pks_w: Seq<KemPublicKey>, j: int) -> bool {
    sk_find(sks_u, kem_pkid_spec(pks_w[j]@)) is Some
}

/// The unwrapper holds a secret key for at least one public-key
/// recipient.
pub open spec fn pk_has_match(sks_u: Seq<(NBytes, KemSecretKey)>, pks_w: Seq<KemPublicKey>) -> bool {
    exists|j: int| 0 <= j < pks_w.len() && #[trigger] pk_entry_matched(sks_u, pks_w, j)
}

/// A secret key the unwrapper files under recipient `j`'s pkid really
/// is that recipient's secret key.
pub open spec fn pk_entry_honest(sks_u: Seq<(NBytes, KemSecretKey)>, pks_w: Seq<KemPublicKey>, j: int) -> bool {
    match sk_find(sks_u, kem_pkid_spec(pks_w[j]@)) {
        Some(skb) => crate::kem::kem_pk_spec(skb) == pks_w[j]@,
        None => true,
    }
}

/// Honest key filing over the whole public-key list.
pub open spec fn sks_honest(sks_u: Seq<(NBytes, KemSecretKey)>, pks_w: Seq<KemPublicKey>) -> bool {
    forall|j: int| 0 <= j < pks_w.len() ==> #[trigger] pk_entry_honest(sks_u, pks_w, j)
}

/// Once a key is found, the pre-shared scan only drains: the key stays.
proof fn lemma_su_psk_scan_found(
    s0: SpongeModel,
    sect: Seq<u8>,
    n: int,
    psks: Seq<(NBytes, NBytes)>,
    k: Seq<u8>,
)
    ensures
        su_psk_scan(s0, sect, n, psks, Some(k)) == Some(k),
    decreases n,
{
    if n > 0 {
        lemma_su_psk_scan_found(s0, sect.skip(PSK_ENTRY_SIZE as int), n - 1, psks, k);
    }
}

/// Once a key is found, the public-key scan only drains: the key stays
/// and nothing can abort.
proof fn lemma_su_pk_scan_found(
    s0: SpongeModel,
    sect: Seq<u8>,
    n: int,
    sks: Seq<(NBytes, KemSecretKey)>,
    k: Seq<u8>,
)
    ensures
        su_pk_scan(s0, sect, n, sks, Some(k)) == Ok::<Option<Seq<u8>>, int>(Some(k)),
    decreases n,
{
    if n > 0 {
        lemma_su_pk_scan_found(s0, sect.skip(PK_ENTRY_SIZE as int), n - 1, sks, k);
    }
}

/// The pre-shared scan over a section the wrapper produced: with honest
/// sharing it recovers exactly the wrapper's key when some entry
/// matches, and nothing otherwise.
proof fn lemma_psk_scan_wrapped(
    s0: SpongeModel,
    psks_w: Seq<(NBytes, NBytes)>,
    key: Seq<u8>,
    psks_u: Seq<(NBytes, NBytes)>,
)
    requires
        sp_wf(s0),
        key.len() == KEY_SIZE,
        forall|i: int|
            0 <= i < psks_w.len() ==> (#[trigger] psks_w[i]).0@.len() == PSKID_SIZE && psks_w[i].1@.len()
                == PSK_SIZE,
        psks_honest(psks_u, psks_w),
    ensures
        su_psk_scan(s0, psk_section(s0, psks_w, key), psks_w.len() as int, psks_u, None) == (
        if psk_has_match(psks_u, psks_w) {
            Some(key)
        } else {
            None
        }),
    decreases psks_w.len(),
{
    if psks_w.len() == 0 {
        assert(!psk_has_match(psks_u, psks_w));
    } else {
        let id0 = psks_w[0].0@;
        let psk0 = psks_w[0].1@;
        let sect = psk_section(s0, psks_w, key);
        let e0 = psk_entry_bytes(s0, id0, psk0, key);
        lemma_psk_entry_len(s0, id0, psk0, key);
        crate::sponge::lemma_encrypt_wf(s0, id0);
        assert(sect.take(PSK_ENTRY_SIZE as int) =~= e0);
        assert(sect.skip(PSK_ENTRY_SIZE as int) =~= psk_section(s0, psks_w.skip(1), key));
        assert(e0.take(PSKID_SIZE as int) =~= sp_encrypt(s0, id0).1);
        crate::sponge::lemma_decrypt_encrypt(s0, id0);
        assert(sp_decrypt(s0, e0.take(PSKID_SIZE as int)).1 == id0);
        assert(sp_decrypt(s0, e0.take(PSKID_SIZE as int)).0 == sp_encrypt(s0, id0).0);
        assert forall|x: int| 0 <= x < psks_w.skip(1).len() implies (#[trigger] psks_w.skip(1)[x]).0@.len()
            == PSKID_SIZE && psks_w.skip(1)[x].1@.len() == PSK_SIZE by {
            assert(psks_w.skip(1)[x] == psks_w[x + 1]);
        }
        assert forall|x: int| 0 <= x < psks_w.skip(1).len() implies #[trigger] psk_entry_honest(
            psks_u,
            psks_w.skip(1),
            x,
        ) by {
            assert(psks_w.skip(1)[x] == psks_w[x + 1]);
            assert(psk_entry_honest(psks_u, psks_w, x + 1));
        }
        assert(psk_entry_honest(psks_u, psks_w, 0));
        match psk_find(psks_u, id0) {
            Option::Some(v) => {
                assert(v == psk0);
                let s1 = sp_encrypt(s0, id0).0;
                let s2 = sp_commit(sp_absorb(s1, psk0));
                assert(e0.skip(PSKID_SIZE as int) =~= sp_encrypt(s2, key).1);
                crate::sponge::lemma_decrypt_encrypt(s2, key);
                assert(sp_decrypt(s2, e0.skip(PSKID_SIZE as int)).1 == key);
                lemma_su_psk_scan_found(
                    s0,
                    sect.skip(PSK_ENTRY_SIZE as int),
                    psks_w.len() - 1,
                    psks_u,
                    key,
                );
                assert(psk_entry_matched(psks_u, psks_w, 0));
                assert(psk_has_match(psks_u, psks_w));
            },
            Option::None => {
                lemma_psk_scan_wrapped(s0, psks_w.skip(1), key, psks_u);
                if psk_has_match(psks_u, psks_w) {
                    let j = choose|j: int|
                        0 <= j < psks_w.len() && #[trigger] psk_entry_matched(psks_u, psks_w, j);
                    assert(j != 0);
                    assert(psks_w.skip(1)[j - 1] == psks_w[j]);
                    assert(psk_entry_matched(psks_u, psks_w.skip(1), j - 1));
                    assert(psk_has_match(psks_u, psks_w.skip(1)));
                }
                if psk_has_match(psks_u, psks_w.skip(1)) {
                    let j = choose|j: int|
                        0 <= j < psks_w.skip(1).len() && #[trigger] psk_entry_matched(
                            psks_u,
                            psks_w.skip(1),
                            j,
                        );
                    assert(psks_w.skip(1)[j] == psks_w[j + 1]);
                    assert(psk_entry_matched(psks_u, psks_w, j + 1));
                    assert(psk_has_match(psks_u, psks_w));
                }
            },
        }
    }
}

/// The public-key scan over a section the wrapper produced: with honest
/// key filing it never aborts, and starting without a key it recovers
/// exactly the wrapper's key when some entry matches.
proof fn lemma_pk_scan_wrapped(
    s0: SpongeModel,
    secret: Seq<u8>,
    nonce: Seq<u8>,
    pks_w: Seq<KemPublicKey>,
    key: Seq<u8>,
    sks_u: Seq<(NBytes, KemSecretKey)>,
)
    requires
        sp_wf(s0),
        key.len() == KEY_SIZE,
        sks_honest(sks_u, pks_w),
    ensures
        su_pk_scan(
            s0,
            pk_section(s0, secret, nonce, pks_w, key),
            pks_w.len() as int,
            sks_u,
            None,
        ) == Ok::<Option<Seq<u8>>, int>(
            if pk_has_match(sks_u, pks_w) {
                Some(key)
            } else {
                None
            },
        ),
    decreases pks_w.len(),
{
    if pks_w.len() == 0 {
        assert(!pk_has_match(sks_u, pks_w));
    } else {
        let pk0 = pks_w[0]@;
        let pkid0 = kem_pkid_spec(pk0);
        let sect = pk_section(s0, secret, nonce, pks_w, key);
        let e0 = pk_entry_bytes(s0, secret, nonce, pk0, key);
        lemma_pk_entry_len(s0, secret, nonce, pk0, key);
        crate::kem::lemma_kem_pkid_len(pk0);
        crate::sponge::lemma_encrypt_wf(s0, pkid0);
        assert(sect.take(PK_ENTRY_SIZE as int) =~= e0);
        assert(sect.skip(PK_ENTRY_SIZE as int) =~= pk_section(s0, secret, nonce, pks_w.skip(1), key));
        assert(e0.take(PKID_SIZE as int) =~= sp_encrypt(s0, pkid0).1);
        crate::sponge::lemma_decrypt_encrypt(s0, pkid0);
        assert(sp_decrypt(s0, e0.take(PKID_SIZE as int)).1 == pkid0);
        assert forall|x: int| 0 <= x < pks_w.skip(1).len() implies #[trigger] pk_entry_honest(
            sks_u,
            pks_w.skip(1),
            x,
        ) by {
            assert(pks_w.skip(1)[x] == pks_w[x + 1]);
            assert(pk_entry_honest(sks_u, pks_w, x + 1));
        }
        assert(pk_entry_honest(sks_u, pks_w, 0));
        match sk_find(sks_u, pkid0) {
            Option::Some(skb) => {
                assert(crate::kem::kem_pk_spec(skb) == pk0);
                let eph = wrap::ntrukem_eph_spec(secret, nonce, pk0);
                crate::prng::lemma_prng_gen_len(secret, nonce + pkid0, crate::EPH_SIZE as nat);
                assert(e0.skip(PKID_SIZE as int) =~= wrap::ntrukem_ct_spec(secret, nonce, pk0, key));
                crate::kem::lemma_kem_roundtrip(skb, key, eph);
                assert(crate::kem::kem_decaps_spec(skb, e0.skip(PKID_SIZE as int)) == Some(key));
                lemma_su_pk_scan_found(
                    s0,
                    sect.skip(PK_ENTRY_SIZE as int),
                    pks_w.len() - 1,
                    sks_u,
                    key,
                );
                assert(pk_entry_matched(sks_u, pks_w, 0));
                assert(pk_has_match(sks_u, pks_w));
            },
            Option::None => {
                lemma_pk_scan_wrapped(s0, secret, nonce, pks_w.skip(1), key, sks_u);
                if pk_has_match(sks_u, pks_w) {
                    let j = choose|j: int|
                        0 <= j < pks_w.len() && #[trigger] pk_entry_matched(sks_u, pks_w, j);
                    assert(j != 0);
                    assert(pks_w.skip(1)[j - 1] == pks_w[j]);
                    assert(pk_entry_matched(sks_u, pks_w.skip(1), j - 1));
                    assert(pk_has_match(sks_u, pks_w.skip(1)));
                }
                if pk_has_match(sks_u, pks_w.skip(1)) {
                    let j = choose|j: int|
                        0 <= j < pks_w.skip(1).len() && #[trigger] pk_entry_matched(
                            sks_u,
                            pks_w.skip(1),
                            j,
                        );
                    assert(pks_w.skip(1)[j] == pks_w[j + 1]);
                    assert(pk_entry_matched(sks_u, pks_w, j + 1));
                    assert(pk_has_match(sks_u, pks_w));
                }
            },
        }
    }
}


/// The heart of the round trip: unwrapping bytes the wrapper produced.
/// With honestly shared secrets, an unwrapper that knows any one
/// recipient's secret recovers exactly the wrapper's key, nonce and
/// link, ends with the wrapper's parent sponge, and consumes exactly
/// the message; an unwrapper that knows none fails with the
/// key-not-found guard, having consumed exactly the message.
#[verifier::rlimit(100)]
pub proof fn lemma_su_on_wrapped(
    stentries: Seq<LinkEntry>,
    inner: Seq<u8>,
    link: Seq<u8>,
    nonce: Seq<u8>,
    key: Seq<u8>,
    psks_w: Seq<(NBytes, NBytes)>,
    secret: Seq<u8>,
    pks_w: Seq<KemPublicKey>,
    psks_u: Seq<(NBytes, NBytes)>,
    sks_u: Seq<(NBytes, KemSecretKey)>,
)
    requires
        inner.len() == crate::CAP,
        link.len() == LINK_SIZE,
        nonce.len() == NONCE_SIZE,
        key.len() == KEY_SIZE,
        psks_w.len() <= usize::MAX,
        pks_w.len() <= usize::MAX,
        forall|i: int|
            0 <= i < psks_w.len() ==> (#[trigger] psks_w[i]).0@.len() == PSKID_SIZE && psks_w[i].1@.len()
                == PSK_SIZE,
        ls_find(stentries, link) is Some,
        ls_find(stentries, link)->Some_0.0 == inner,
        psks_honest(psks_u, psks_w),
        sks_honest(sks_u, pks_w),
    ensures
        ({
            let out = su_keyload(
                stentries,
                keyload_bytes(inner, link, nonce, key, psks_w, secret, pks_w),
                psks_u,
                sks_u,
            );
            &&& out.consumed == keyload_size(psks_w.len(), pks_w.len())
            &&& (psk_has_match(psks_u, psks_w) || pk_has_match(sks_u, pks_w)) ==> (out.ok && out.key
                == key && out.nonce == nonce && out.link == link && out.sponge == keyload_final(
                inner,
                nonce,
                key,
            ))
            &&& !(psk_has_match(psks_u, psks_w) || pk_has_match(sks_u, pks_w)) ==> (!out.ok && out.err
                == CodecError::Guard(KEY_NOT_FOUND_MSG))
        }),
{
    let rest = keyload_bytes(inner, link, nonce, key, psks_w, secret, pks_w);
    let s0 = keyload_s0(inner, nonce);
    let n = psks_w.len() as int;
    let m = pks_w.len() as int;
    let enc1 = size_encoding(psks_w.len());
    let sect1 = psk_section(s0, psks_w, key);
    let enc2 = size_encoding(pks_w.len());
    let sect2 = pk_section(s0, secret, nonce, pks_w, key);
    lemma_keyload_s0_wf(inner, nonce);
    lemma_psk_section_len(s0, psks_w, key);
    lemma_pk_section_len(s0, secret, nonce, pks_w, key);
    crate::types::lemma_size_be_bytes_len(psks_w.len());
    crate::types::lemma_size_be_bytes_len(pks_w.len());
    assert(usize::MAX <= u64::MAX);
    crate::types::lemma_size_bytelen_max(psks_w.len());
    crate::types::lemma_size_bytelen_max(pks_w.len());
    crate::types::lemma_be_value_encoding(psks_w.len());
    crate::types::lemma_be_value_encoding(pks_w.len());
    let d1 = crate::types::size_bytelen(psks_w.len()) as int;
    let d2 = crate::types::size_bytelen(pks_w.len()) as int;

    assert(rest.take(LINK_SIZE as int) =~= link);
    assert(rest.subrange(LINK_SIZE as int, (LINK_SIZE + NONCE_SIZE) as int) =~= nonce);
    let off1 = (LINK_SIZE + NONCE_SIZE) as int;
    let r1 = rest.skip(off1);
    assert(r1 =~= enc1 + sect1 + enc2 + sect2);
    assert(r1[0] == crate::types::size_bytelen(psks_w.len()) as u8);
    assert(r1.subrange(1, 1 + d1) =~= crate::types::size_be_bytes(psks_w.len()));
    assert(unwrap::size_parse(r1) == Ok::<(nat, int), CodecError>((psks_w.len(), 1 + d1)));
    let off2 = off1 + 1 + d1;
    let r2 = rest.skip(off2);
    assert(r2 =~= sect1 + enc2 + sect2);
    assert(r2.take(n * PSK_ENTRY_SIZE) =~= sect1);
    lemma_psk_scan_wrapped(s0, psks_w, key, psks_u);
    let found1 = su_psk_scan(s0, sect1, n, psks_u, None);
    let off3 = off2 + n * PSK_ENTRY_SIZE;
    let r3 = rest.skip(off3);
    assert(r3 =~= enc2 + sect2);
    assert(r3[0] == crate::types::size_bytelen(pks_w.len()) as u8);
    assert(r3.subrange(1, 1 + d2) =~= crate::types::size_be_bytes(pks_w.len()));
    assert(unwrap::size_parse(r3) == Ok::<(nat, int), CodecError>((pks_w.len(), 1 + d2)));
    let off4 = off3 + 1 + d2;
    let r4 = rest.skip(off4);
    assert(r4 =~= sect2);
    assert(r4.take(m * PK_ENTRY_SIZE) =~= sect2);
    if psk_has_match(psks_u, psks_w) {
        assert(found1 == Some(key));
        lemma_su_pk_scan_found(s0, sect2, m, sks_u, key);
    } else {
        assert(found1 is None);
        lemma_pk_scan_wrapped(s0, secret, nonce, pks_w, key, sks_u);
    }
}

/// Round trip of the keyload: wrap then unwrap with any one matching,
/// honestly shared recipient secret recovers the wrapper's key and
/// nonce, ends in the wrapper's sponge state, and consumes exactly the
/// wire size.
pub proof fn lemma_keyload_roundtrip(
    stentries: Seq<LinkEntry>,
    inner: Seq<u8>,
    link: Seq<u8>,
    nonce: Seq<u8>,
    key: Seq<u8>,
    psks_w: Seq<(NBytes, NBytes)>,
    secret: Seq<u8>,
    pks_w: Seq<KemPublicKey>,
    psks_u: Seq<(NBytes, NBytes)>,
    sks_u: Seq<(NBytes, KemSecretKey)>,
)
    requires
        inner.len() == crate::CAP,
        link.len() == LINK_SIZE,
        nonce.len() == NONCE_SIZE,
        key.len() == KEY_SIZE,
        psks_w.len() <= usize::MAX,
        pks_w.len() <= usize::MAX,
        forall|i: int|
            0 <= i < psks_w.len() ==> (#[trigger] psks_w[i]).0@.len() == PSKID_SIZE && psks_w[i].1@.len()
                == PSK_SIZE,
        ls_find(stentries, link) is Some,
        ls_find(stentries, link)->Some_0.0 == inner,
        psks_honest(psks_u, psks_w),
        sks_honest(sks_u, pks_w),
        psk_has_match(psks_u, psks_w) || pk_has_match(sks_u, pks_w),
    ensures
        ({
            let out = su_keyload(
                stentries,
                keyload_bytes(inner, link, nonce, key, psks_w, secret, pks_w),
                psks_u,
                sks_u,
            );
            &&& out.ok
            &&& out.key == key
            &&& out.nonce == nonce
            &&& out.link == link
            &&& out.sponge == keyload_final(inner, nonce, key)
            &&& out.consumed == keyload_size(psks_w.len(), pks_w.len())
        }),
{
    lemma_su_on_wrapped(stentries, inner, link, nonce, key, psks_w, secret, pks_w, psks_u, sks_u);
}

/// An unwrapper with no secret in the recipient set fails with the
/// key-not-found guard, and has consumed exactly the whole message by
/// then: byte parity holds even for an outsider.
pub proof fn lemma_keyload_no_recipient(
    stentries: Seq<LinkEntry>,
    inner: Seq<u8>,
    link: Seq<u8>,
    nonce: Seq<u8>,
    key: Seq<u8>,
    psks_w: Seq<(NBytes, NBytes)>,
    secret: Seq<u8>,
    pks_w: Seq<KemPublicKey>,
    psks_u: Seq<(NBytes, NBytes)>,
    sks_u: Seq<(NBytes, KemSecretKey)>,
)
    requires
        inner.len() == crate::CAP,
        link.len() == LINK_SIZE,
        nonce.len() == NONCE_SIZE,
        key.len() == KEY_SIZE,
        psks_w.len() <= usize::MAX,
        pks_w.len() <= usize::MAX,
        forall|i: int|
            0 <= i < psks_w.len() ==> (#[trigger] psks_w[i]).0@.len() == PSKID_SIZE && psks_w[i].1@.len()
                == PSK_SIZE,
        ls_find(stentries, link) is Some,
        ls_find(stentries, link)->Some_0.0 == inner,
        psks_honest(psks_u, psks_w),
        sks_honest(sks_u, pks_w),
        !psk_has_match(psks_u, psks_w),
        !pk_has_match(sks_u, pks_w),
    ensures
        ({
            let out = su_keyload(
                stentries,
                keyload_bytes(inner, link, nonce, key, psks_w, secret, pks_w),
                psks_u,
                sks_u,
            );
            &&& !out.ok
            &&& out.err == CodecError::Guard(KEY_NOT_FOUND_MSG)
            &&& out.consumed == keyload_size(psks_w.len(), pks_w.len())
        }),
{
    lemma_su_on_wrapped(stentries, inner, link, nonce, key, psks_w, secret, pks_w, psks_u, sks_u);
}

/// Two different legitimate recipients derive byte-identical keys: both
/// recover exactly the key the wrapper distributed.
pub proof fn lemma_keyload_two_recipients(
    stentries: Seq<LinkEntry>,
    inner: Seq<u8>,
    link: Seq<u8>,
    nonce: Seq<u8>,
    key: Seq<u8>,
    psks_w: Seq<(NBytes, NBytes)>,
    secret: Seq<u8>,
    pks_w: Seq<KemPublicKey>,
    psks_u1: Seq<(NBytes, NBytes)>,
    sks_u1: Seq<(NBytes, KemSecretKey)>,
    psks_u2: Seq<(NBytes, NBytes)>,
    sks_u2: Seq<(NBytes, KemSecretKey)>,
)
    requires
        inner.len() == crate::CAP,
        link.len() == LINK_SIZE,
        nonce.len() == NONCE_SIZE,
        key.len() == KEY_SIZE,
        psks_w.len() <= usize::MAX,
        pks_w.len() <= usize::MAX,
        forall|i: int|
            0 <= i < psks_w.len() ==> (#[trigger] psks_w[i]).0@.len() == PSKID_SIZE && psks_w[i].1@.len()
                == PSK_SIZE,
        ls_find(stentries, link) is Some,
        ls_find(stentries, link)->Some_0.0 == inner,
        psks_honest(psks_u1, psks_w),
        sks_honest(sks_u1, pks_w),
        psk_has_match(psks_u1, psks_w) || pk_has_match(sks_u1, pks_w),
        psks_honest(psks_u2, psks_w),
        sks_honest(sks_u2, pks_w),
        psk_has_match(psks_u2, psks_w) || pk_has_match(sks_u2, pks_w),
    ensures
        ({
            let bytes = keyload_bytes(inner, link, nonce, key, psks_w, secret, pks_w);
            let out1 = su_keyload(stentries, bytes, psks_u1, sks_u1);
            let out2 = su_keyload(stentries, bytes, psks_u2, sks_u2);
            out1.ok && out2.ok && out1.key == out2.key && out1.key == key
        }),
{
    lemma_keyload_roundtrip(stentries, inner, link, nonce, key, psks_w, secret, pks_w, psks_u1, sks_u1);
    lemma_keyload_roundtrip(stentries, inner, link, nonce, key, psks_w, secret, pks_w, psks_u2, sks_u2);
}

/// Equal pre-shared sections from the same parent state carry equal
/// identifier lists: each entry's masked identifier pins the
/// identifier, position by position.
proof fn lemma_psk_section_pins_ids(
    s0: SpongeModel,
    psks1: Seq<(NBytes, NBytes)>,
    psks2: Seq<(NBytes, NBytes)>,
    key: Seq<u8>,
)
    requires
        sp_wf(s0),
        key.len() == KEY_SIZE,
        psks1.len() == psks2.len(),
        forall|i: int|
            0 <= i < psks1.len() ==> (#[trigger] psks1[i]).0@.len() == PSKID_SIZE && psks1[i].1@.len()
                == PSK_SIZE,
        forall|i: int|
            0 <= i < psks2.len() ==> (#[trigger] psks2[i]).0@.len() == PSKID_SIZE && psks2[i].1@.len()
                == PSK_SIZE,
        psk_section(s0, psks1, key) == psk_section(s0, psks2, key),
    ensures
        forall|j: int| 0 <= j < psks1.len() ==> (#[trigger] psks1[j]).0@ == psks2[j].0@,
    decreases psks1.len(),
{
    if psks1.len() > 0 {
        let id1 = psks1[0].0@;
        let id2 = psks2[0].0@;
        let sect1 = psk_section(s0, psks1, key);
        let sect2 = psk_section(s0, psks2, key);
        lemma_psk_entry_len(s0, id1, psks1[0].1@, key);
        lemma_psk_entry_len(s0, id2, psks2[0].1@, key);
        crate::sponge::lemma_encrypt_wf(s0, id1);
        crate::sponge::lemma_encrypt_wf(s0, id2);
        assert(sect1.take(PSKID_SIZE as int) =~= sp_encrypt(s0, id1).1);
        assert(sect2.take(PSKID_SIZE as int) =~= sp_encrypt(s0, id2).1);
        crate::sponge::lemma_encrypt_injective(s0, id1, id2);
        assert(sect1.skip(PSK_ENTRY_SIZE as int) =~= psk_section(s0, psks1.skip(1), key));
        assert(sect2.skip(PSK_ENTRY_SIZE as int) =~= psk_section(s0, psks2.skip(1), key));
        assert forall|x: int| 0 <= x < psks1.skip(1).len() implies (#[trigger] psks1.skip(1)[x]).0@.len()
            == PSKID_SIZE && psks1.skip(1)[x].1@.len() == PSK_SIZE by {
            assert(psks1.skip(1)[x] == psks1[x + 1]);
        }
        assert forall|x: int| 0 <= x < psks2.skip(1).len() implies (#[trigger] psks2.skip(1)[x]).0@.len()
            == PSKID_SIZE && psks2.skip(1)[x].1@.len() == PSK_SIZE by {
            assert(psks2.skip(1)[x] == psks2[x + 1]);
        }
        lemma_psk_section_pins_ids(s0, psks1.skip(1), psks2.skip(1), key);
        assert forall|j: int| 0 <= j < psks1.len() implies (#[trigger] psks1[j]).0@ == psks2[j].0@ by {
            if j > 0 {
                assert(psks1.skip(1)[j - 1] == psks1[j]);
                assert(psks2.skip(1)[j - 1] == psks2[j]);
            }
        }
    }
}

/// Recipient order shows on the wire: two keyloads that agree on
/// everything but their pre-shared recipient order produce equal bytes
/// only if the identifier lists agree position by position — so
/// reordering distinct recipients changes the wire. The recovered key
/// does not depend on the order: [`lemma_keyload_roundtrip`] yields the
/// same session key for every ordering.
pub proof fn lemma_keyload_wire_pins_psk_ids(
    inner: Seq<u8>,
    link: Seq<u8>,
    nonce: Seq<u8>,
    key: Seq<u8>,
    psks1: Seq<(NBytes, NBytes)>,
    psks2: Seq<(NBytes, NBytes)>,
    secret: Seq<u8>,
    pks: Seq<KemPublicKey>,
)
    requires
        inner.len() == crate::CAP,
        nonce.len() == NONCE_SIZE,
        key.len() == KEY_SIZE,
        psks1.len() == psks2.len(),
        forall|i: int|
            0 <= i < psks1.len() ==> (#[trigger] psks1[i]).0@.len() == PSKID_SIZE && psks1[i].1@.len()
                == PSK_SIZE,
        forall|i: int|
            0 <= i < psks2.len() ==> (#[trigger] psks2[i]).0@.len() == PSKID_SIZE && psks2[i].1@.len()
                == PSK_SIZE,
        keyload_bytes(inner, link, nonce, key, psks1, secret, pks) == keyload_bytes(
            inner,
            link,
            nonce,
            key,
            psks2,
            secret,
            pks,
        ),
    ensures
        forall|j: int| 0 <= j < psks1.len() ==> (#[trigger] psks1[j]).0@ == psks2[j].0@,
{
    let s0 = keyload_s0(inner, nonce);
    lemma_keyload_s0_wf(inner, nonce);
    lemma_psk_section_len(s0, psks1, key);
    lemma_psk_section_len(s0, psks2, key);
    let b1 = keyload_bytes(inner, link, nonce, key, psks1, secret, pks);
    let b2 = keyload_bytes(inner, link, nonce, key, psks2, secret, pks);
    let off = link.len() + nonce.len() + size_encoding(psks1.len()).len();
    let n = psks1.len() as int;
    assert(b1.subrange(off as int, off + n * PSK_ENTRY_SIZE) =~= psk_section(s0, psks1, key));
    assert(b2.subrange(off as int, off + n * PSK_ENTRY_SIZE) =~= psk_section(s0, psks2, key));
    lemma_psk_section_pins_ids(s0, psks1, psks2, key);
}

/// A failed write proves the window was too small for the whole
/// message: what was already written plus the failing operator's need
/// stays within the total.
proof fn lemma_wrap_short(cap0: int, used: int, need: int, total: int)
    requires
        cap0 - used < need,
        used + need <= total,
    ensures
        cap0 < total,
{
}

} // verus!
