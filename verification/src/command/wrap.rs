//! Wrap mode: serialize values into the output stream while driving the
//! sponge.
//!
//! Every operator states exactly which bytes it appends to the stream
//! and which tape it feeds the sponge; an operator that cannot fit its
//! bytes fails with `ShortBuffer` and leaves the context untouched.

use vstd::prelude::*;

use crate::errors::CodecError;
use crate::io::stream_done;
use crate::io::stream_wf;
use crate::io::OStream;
use crate::kem::kem_encaps_spec;
use crate::kem::kem_eph;
use crate::kem::kem_pkid_spec;
use crate::kem::encaps;
use crate::kem::pkid;
use crate::kem::KemPublicKey;
use crate::linkstore::ls_find;
use crate::linkstore::LinkStore;
use crate::prng::prng_gen_spec;
use crate::prng::Prng;
use crate::sig::sig_of_spec;
use crate::sig::sig_pk_spec;
use crate::sig::sign;
use crate::sig::SigSecretKey;
use crate::sponge::sp_absorb;
use crate::sponge::sp_commit;
use crate::sponge::sp_encrypt;
use crate::sponge::sp_from_inner;
use crate::sponge::sp_squeeze;
use crate::sponge::sp_wf;
use crate::sponge::lemma_absorb_wf;
use crate::sponge::Sponge;
use crate::types::size_encoding;
use crate::types::size_encode;
use crate::types::Bytes;
use crate::types::Mac;
use crate::types::NBytes;
use crate::types::Size;
use crate::types::Uint8;
use crate::EKEY_SIZE;
use crate::EPH_SIZE;
use crate::KEY_SIZE;
use crate::LINK_SIZE;
use crate::SIG_SIZE;

verus! {

/// A wrap context: the sponge being driven and the output window.
pub struct Context {
    pub sponge: Sponge,
    pub stream: OStream,
}

/// Both halves of the context are well-formed.
pub open spec fn ctx_wf(c: &Context) -> bool {
    &&& sp_wf(c.sponge@)
    &&& stream_wf(c.stream@)
}

/// Capacity left in the output window.
pub open spec fn ctx_cap(c: &Context) -> int {
    c.stream@.buf.len() - c.stream@.pos
}

/// Bytes emitted so far.
pub open spec fn ctx_done(c: &Context) -> Seq<u8> {
    stream_done(c.stream@)
}

/// The ephemeral bytes the `ntrukem` operator uses for one recipient:
/// drawn from the generator under the session nonce and the recipient's
/// pkid.
pub open spec fn ntrukem_eph_spec(secret: Seq<u8>, nonce: Seq<u8>, pk: Seq<u8>) -> Seq<u8> {
    prng_gen_spec(secret, nonce + kem_pkid_spec(pk), EPH_SIZE as nat)
}

/// The ciphertext the `ntrukem` operator emits for one recipient.
pub open spec fn ntrukem_ct_spec(secret: Seq<u8>, nonce: Seq<u8>, pk: Seq<u8>, key: Seq<u8>) -> Seq<u8> {
    kem_encaps_spec(pk, key, ntrukem_eph_spec(secret, nonce, pk))
}

impl Context {
    /// Wrap with `sponge` into `stream`.
    pub fn new(sponge: Sponge, stream: OStream) -> (r: Context)
        ensures
            r.sponge@ == sponge@,
            r.stream@ == stream@,
    {
        Context { sponge, stream }
    }

    /// `absorb(Uint8)`: write the byte, absorb the byte.
    pub fn absorb_uint8(&mut self, u: Uint8) -> (r: Result<(), CodecError>)
        requires
            ctx_wf(old(self)),
        ensures
            ctx_wf(final(self)),
            final(self).stream@.buf.len() == old(self).stream@.buf.len(),
            r is Ok <==> ctx_cap(old(self)) >= 1,
            r is Ok ==> ctx_done(final(self)) == ctx_done(old(self)) + seq![u.0]
                && final(self).stream@.pos == old(self).stream@.pos + 1
                && final(self).sponge@ == sp_absorb(old(self).sponge@, seq![u.0]),
            r is Err ==> *final(self) == *old(self) && r == Err::<(), CodecError>(CodecError::ShortBuffer),
    {
        let v: Vec<u8> = vec![u.0];
        proof {
            assert(v@ =~= seq![u.0]);
        }
        self.stream.try_put(&v)?;
        self.sponge.absorb(&v);
        Ok(())
    }

    /// `mask(Uint8)`: encrypt the byte, write the ciphertext byte.
    pub fn mask_uint8(&mut self, u: Uint8) -> (r: Result<(), CodecError>)
        requires
            ctx_wf(old(self)),
        ensures
            ctx_wf(final(self)),
            final(self).stream@.buf.len() == old(self).stream@.buf.len(),
            r is Ok <==> ctx_cap(old(self)) >= 1,
            r is Ok ==> ctx_done(final(self)) == ctx_done(old(self)) + sp_encrypt(old(self).sponge@, seq![u.0]).1
                && final(self).stream@.pos == old(self).stream@.pos + 1
                && final(self).sponge@ == sp_encrypt(old(self).sponge@, seq![u.0]).0,
            r is Err ==> *final(self) == *old(self) && r == Err::<(), CodecError>(CodecError::ShortBuffer),
    {
        if self.stream.remaining() < 1 {
            return Err(CodecError::ShortBuffer);
        }
        let v: Vec<u8> = vec![u.0];
        proof {
            assert(v@ =~= seq![u.0]);
        }
        let c = self.sponge.encrypt(&v);
        let put = self.stream.try_put(&c);
        proof {
            crate::sponge::lemma_encrypt_wf(old(self).sponge@, v@);
            assert(put is Ok);
        }
        Ok(())
    }

    /// `absorb(NBytes)`: write the bytes, absorb them.
    pub fn absorb_nbytes(&mut self, v: &NBytes) -> (r: Result<(), CodecError>)
        requires
            ctx_wf(old(self)),
        ensures
            ctx_wf(final(self)),
            final(self).stream@.buf.len() == old(self).stream@.buf.len(),
            r is Ok <==> ctx_cap(old(self)) >= v@.len(),
            r is Ok ==> ctx_done(final(self)) == ctx_done(old(self)) + v@
                && final(self).stream@.pos == old(self).stream@.pos + v@.len()
                && final(self).sponge@ == sp_absorb(old(self).sponge@, v@),
            r is Err ==> *final(self) == *old(self) && r == Err::<(), CodecError>(CodecError::ShortBuffer),
    {
        self.stream.try_put(&v.0)?;
        self.sponge.absorb(&v.0);
        Ok(())
    }

    /// `skip(NBytes)`: write the bytes; the sponge is untouched.
    pub fn skip_nbytes(&mut self, v: &NBytes) -> (r: Result<(), CodecError>)
        requires
            ctx_wf(old(self)),
        ensures
            ctx_wf(final(self)),
            final(self).stream@.buf.len() == old(self).stream@.buf.len(),
            r is Ok <==> ctx_cap(old(self)) >= v@.len(),
            r is Ok ==> ctx_done(final(self)) == ctx_done(old(self)) + v@
                && final(self).stream@.pos == old(self).stream@.pos + v@.len()
                && final(self).sponge@ == old(self).sponge@,
            r is Err ==> *final(self) == *old(self) && r == Err::<(), CodecError>(CodecError::ShortBuffer),
    {
        self.stream.try_put(&v.0)?;
        Ok(())
    }

    /// `mask(NBytes)`: encrypt the bytes, write the ciphertext.
    pub fn mask_nbytes(&mut self, v: &NBytes) -> (r: Result<(), CodecError>)
        requires
            ctx_wf(old(self)),
        ensures
            ctx_wf(final(self)),
            final(self).stream@.buf.len() == old(self).stream@.buf.len(),
            r is Ok <==> ctx_cap(old(self)) >= v@.len(),
            r is Ok ==> ctx_done(final(self)) == ctx_done(old(self)) + sp_encrypt(old(self).sponge@, v@).1
                && final(self).stream@.pos == old(self).stream@.pos + v@.len()
                && final(self).sponge@ == sp_encrypt(old(self).sponge@, v@).0,
            r is Err ==> *final(self) == *old(self) && r == Err::<(), CodecError>(CodecError::ShortBuffer),
    {
        if self.stream.remaining() < v.0.len() {
            return Err(CodecError::ShortBuffer);
        }
        let c = self.sponge.encrypt(&v.0);
        let put = self.stream.try_put(&c);
        proof {
            crate::sponge::lemma_encrypt_wf(old(self).sponge@, v@);
            assert(put is Ok);
        }
        Ok(())
    }

    /// `absorb(Size)`: write and absorb the variable-length encoding.
    pub fn absorb_size(&mut self, s: Size) -> (r: Result<(), CodecError>)
        requires
            ctx_wf(old(self)),
        ensures
            ctx_wf(final(self)),
            final(self).stream@.buf.len() == old(self).stream@.buf.len(),
            r is Ok <==> ctx_cap(old(self)) >= size_encoding(s.0 as nat).len(),
            r is Ok ==> ctx_done(final(self)) == ctx_done(old(self)) + size_encoding(s.0 as nat)
                && final(self).stream@.pos == old(self).stream@.pos + size_encoding(s.0 as nat).len()
                && final(self).sponge@ == sp_absorb(old(self).sponge@, size_encoding(s.0 as nat)),
            r is Err ==> *final(self) == *old(self) && r == Err::<(), CodecError>(CodecError::ShortBuffer),
    {
        let enc = size_encode(s.0);
        self.stream.try_put(&enc)?;
        self.sponge.absorb(&enc);
        Ok(())
    }

    /// `mask(Size)`: encrypt the encoding, write the ciphertext.
    pub fn mask_size(&mut self, s: Size) -> (r: Result<(), CodecError>)
        requires
            ctx_wf(old(self)),
        ensures
            ctx_wf(final(self)),
            final(self).stream@.buf.len() == old(self).stream@.buf.len(),
            r is Ok <==> ctx_cap(old(self)) >= size_encoding(s.0 as nat).len(),
            r is Ok ==> ctx_done(final(self)) == ctx_done(old(self))
                + sp_encrypt(old(self).sponge@, size_encoding(s.0 as nat)).1
                && final(self).stream@.pos == old(self).stream@.pos + size_encoding(s.0 as nat).len()
                && final(self).sponge@ == sp_encrypt(old(self).sponge@, size_encoding(s.0 as nat)).0,
            r is Err ==> *final(self) == *old(self) && r == Err::<(), CodecError>(CodecError::ShortBuffer),
    {
        let enc = size_encode(s.0);
        if self.stream.remaining() < enc.len() {
            return Err(CodecError::ShortBuffer);
        }
        let c = self.sponge.encrypt(&enc);
        let put = self.stream.try_put(&c);
        proof {
            crate::sponge::lemma_encrypt_wf(old(self).sponge@, enc@);
            assert(put is Ok);
        }
        Ok(())
    }

    /// `skip(Size)`: write the encoding; the sponge is untouched.
    pub fn skip_size(&mut self, s: Size) -> (r: Result<(), CodecError>)
        requires
            ctx_wf(old(self)),
        ensures
            ctx_wf(final(self)),
            final(self).stream@.buf.len() == old(self).stream@.buf.len(),
            r is Ok <==> ctx_cap(old(self)) >= size_encoding(s.0 as nat).len(),
            r is Ok ==> ctx_done(final(self)) == ctx_done(old(self)) + size_encoding(s.0 as nat)
                && final(self).stream@.pos == old(self).stream@.pos + size_encoding(s.0 as nat).len()
                && final(self).sponge@ == old(self).sponge@,
            r is Err ==> *final(self) == *old(self) && r == Err::<(), CodecError>(CodecError::ShortBuffer),
    {
        let enc = size_encode(s.0);
        self.stream.try_put(&enc)?;
        Ok(())
    }

    /// `absorb(Bytes)`: write and absorb the size prefix, then the bytes.
    pub fn absorb_bytes(&mut self, v: &Bytes) -> (r: Result<(), CodecError>)
        requires
            ctx_wf(old(self)),
        ensures
            ctx_wf(final(self)),
            final(self).stream@.buf.len() == old(self).stream@.buf.len(),
            r is Ok <==> ctx_cap(old(self)) >= size_encoding(v@.len()).len() + v@.len(),
            r is Ok ==> ctx_done(final(self)) == ctx_done(old(self)) + size_encoding(v@.len()) + v@
                && final(self).stream@.pos == old(self).stream@.pos + size_encoding(v@.len()).len() + v@.len()
                && final(self).sponge@ == sp_absorb(sp_absorb(old(self).sponge@, size_encoding(v@.len())), v@),
            r is Err ==> *final(self) == *old(self) && r == Err::<(), CodecError>(CodecError::ShortBuffer),
    {
        let enc = size_encode(v.0.len());
        let rem = self.stream.remaining();
        if rem < enc.len() || rem - enc.len() < v.0.len() {
            return Err(CodecError::ShortBuffer);
        }
        let p1 = self.stream.try_put(&enc);
        proof {
            assert(p1 is Ok);
        }
        self.sponge.absorb(&enc);
        let p2 = self.stream.try_put(&v.0);
        proof {
            lemma_absorb_wf(old(self).sponge@, enc@);
            assert(p2 is Ok);
        }
        self.sponge.absorb(&v.0);
        Ok(())
    }

    /// `mask(Bytes)`: encrypt the size prefix and the bytes, write the
    /// ciphertexts.
    pub fn mask_bytes(&mut self, v: &Bytes) -> (r: Result<(), CodecError>)
        requires
            ctx_wf(old(self)),
        ensures
            ctx_wf(final(self)),
            final(self).stream@.buf.len() == old(self).stream@.buf.len(),
            r is Ok <==> ctx_cap(old(self)) >= size_encoding(v@.len()).len() + v@.len(),
            r is Ok ==> ctx_done(final(self)) == ctx_done(old(self))
                + sp_encrypt(old(self).sponge@, size_encoding(v@.len())).1
                + sp_encrypt(sp_encrypt(old(self).sponge@, size_encoding(v@.len())).0, v@).1
                && final(self).stream@.pos == old(self).stream@.pos + size_encoding(v@.len()).len() + v@.len()
                && final(self).sponge@ == sp_encrypt(sp_encrypt(old(self).sponge@, size_encoding(v@.len())).0, v@).0,
            r is Err ==> *final(self) == *old(self) && r == Err::<(), CodecError>(CodecError::ShortBuffer),
    {
        let enc = size_encode(v.0.len());
        let rem = self.stream.remaining();
        if rem < enc.len() || rem - enc.len() < v.0.len() {
            return Err(CodecError::ShortBuffer);
        }
        let c1 = self.sponge.encrypt(&enc);
        let p1 = self.stream.try_put(&c1);
        proof {
            crate::sponge::lemma_encrypt_wf(old(self).sponge@, enc@);
            assert(p1 is Ok);
        }
        let c2 = self.sponge.encrypt(&v.0);
        let p2 = self.stream.try_put(&c2);
        proof {
            crate::sponge::lemma_encrypt_wf(sp_encrypt(old(self).sponge@, enc@).0, v@);
            assert(p2 is Ok);
        }
        Ok(())
    }

    /// `absorb(External(NBytes))`: absorb the bytes; the stream is
    /// untouched — an external value occupies no wire bytes, and wrap and
    /// unwrap feed the sponge the same tape for it.
    pub fn absorb_external_nbytes(&mut self, v: &NBytes)
        requires
            ctx_wf(old(self)),
        ensures
            ctx_wf(final(self)),
            final(self).stream@ == old(self).stream@,
            final(self).sponge@ == sp_absorb(old(self).sponge@, v@),
    {
        self.sponge.absorb(&v.0);
    }

    /// `squeeze(External(NBytes))`: derive bytes; the stream is untouched.
    pub fn squeeze_external_nbytes(&mut self, n: usize) -> (r: NBytes)
        requires
            ctx_wf(old(self)),
        ensures
            ctx_wf(final(self)),
            final(self).stream@ == old(self).stream@,
            final(self).sponge@ == sp_squeeze(old(self).sponge@, n as nat).0,
            r@ == sp_squeeze(old(self).sponge@, n as nat).1,
            r@.len() == n,
    {
        proof {
            crate::sponge::lemma_squeeze_wf(old(self).sponge@, n as nat);
        }
        NBytes(self.sponge.squeeze(n))
    }

    /// `squeeze(Mac(n))`: squeeze the tag and write it.
    pub fn squeeze_mac(&mut self, mac: Mac) -> (r: Result<(), CodecError>)
        requires
            ctx_wf(old(self)),
        ensures
            ctx_wf(final(self)),
            final(self).stream@.buf.len() == old(self).stream@.buf.len(),
            r is Ok <==> ctx_cap(old(self)) >= mac.0,
            r is Ok ==> ctx_done(final(self)) == ctx_done(old(self)) + sp_squeeze(old(self).sponge@, mac.0 as nat).1
                && final(self).stream@.pos == old(self).stream@.pos + mac.0
                && final(self).sponge@ == sp_squeeze(old(self).sponge@, mac.0 as nat).0,
            r is Err ==> *final(self) == *old(self) && r == Err::<(), CodecError>(CodecError::ShortBuffer),
    {
        if self.stream.remaining() < mac.0 {
            return Err(CodecError::ShortBuffer);
        }
        let t = self.sponge.squeeze(mac.0);
        let put = self.stream.try_put(&t);
        proof {
            crate::sponge::lemma_squeeze_wf(old(self).sponge@, mac.0 as nat);
            assert(put is Ok);
        }
        Ok(())
    }

    /// `commit`: align the sponge; no wire bytes.
    pub fn commit(&mut self)
        requires
            ctx_wf(old(self)),
        ensures
            ctx_wf(final(self)),
            final(self).stream@ == old(self).stream@,
            final(self).sponge@ == sp_commit(old(self).sponge@),
    {
        self.sponge.commit();
    }

    /// Start of `fork(body)`: a copy of the sponge to hold for the parent.
    /// The body then drives `self.sponge` — the child — and
    /// [`Context::restore`] ends the fork.
    pub fn fork(&self) -> (r: Sponge)
        ensures
            r@ == self.sponge@,
    {
        self.sponge.fork()
    }

    /// End of `fork(body)`: the parent resumes with its pre-fork sponge;
    /// everything the body did to the child is discarded, while its wire
    /// bytes stay in the stream.
    pub fn restore(&mut self, parent: Sponge)
        ensures
            final(self).sponge@ == parent@,
            final(self).stream@ == old(self).stream@,
    {
        self.sponge = parent;
    }

    /// `guard(cond, msg)`: no wire bytes, no sponge effect; fails with
    /// `Guard(msg)` exactly when the condition is false.
    pub fn guard(&self, cond: bool, msg: &'static str) -> (r: Result<(), CodecError>)
        ensures
            r is Ok <==> cond,
            r is Err ==> r == Err::<(), CodecError>(CodecError::Guard(msg)),
    {
        if cond {
            Ok(())
        } else {
            Err(CodecError::Guard(msg))
        }
    }

    /// `join(store, link)`: write the link bytes via skip, then resume
    /// from the stored inner state of the linked message.
    pub fn join(&mut self, store: &LinkStore, link: &NBytes) -> (r: Result<(), CodecError>)
        requires
            ctx_wf(old(self)),
            store.wf(),
            link@.len() == LINK_SIZE,
        ensures
            ctx_wf(final(self)),
            final(self).stream@.buf.len() == old(self).stream@.buf.len(),
            r is Ok <==> (ls_find(store.entries@, link@) is Some && ctx_cap(old(self)) >= LINK_SIZE),
            r is Ok ==> ctx_done(final(self)) == ctx_done(old(self)) + link@
                && final(self).stream@.pos == old(self).stream@.pos + LINK_SIZE
                && final(self).sponge@ == sp_from_inner(ls_find(store.entries@, link@)->Some_0.0),
            ls_find(store.entries@, link@) is None ==> *final(self) == *old(self)
                && r == Err::<(), CodecError>(CodecError::LinkNotFound),
            r is Err ==> *final(self) == *old(self)
                && (r == Err::<(), CodecError>(CodecError::LinkNotFound)
                    || r == Err::<(), CodecError>(CodecError::ShortBuffer)),
    {
        let looked = store.lookup(&link.0);
        match looked {
            Err(_) => Err(CodecError::LinkNotFound),
            Ok((inner, _info)) => {
                self.stream.try_put(&link.0)?;
                self.sponge = Sponge::from_inner(&inner);
                Ok(())
            },
        }
    }

    /// `ntrukem((pk, prng, nonce), key)`: encapsulate the session key for
    /// one recipient, absorb the ciphertext, write it.
    pub fn ntrukem(&mut self, pk: &KemPublicKey, prng: &Prng, nonce: &Vec<u8>, key: &NBytes) -> (r: Result<
        (),
        CodecError,
    >)
        requires
            ctx_wf(old(self)),
            key@.len() == KEY_SIZE,
        ensures
            ctx_wf(final(self)),
            final(self).stream@.buf.len() == old(self).stream@.buf.len(),
            r is Ok <==> ctx_cap(old(self)) >= EKEY_SIZE,
            r is Ok ==> ctx_done(final(self)) == ctx_done(old(self))
                + ntrukem_ct_spec(prng.secret@, nonce@, pk@, key@)
                && final(self).stream@.pos == old(self).stream@.pos + EKEY_SIZE
                && final(self).sponge@ == sp_absorb(
                old(self).sponge@,
                ntrukem_ct_spec(prng.secret@, nonce@, pk@, key@),
            ),
            r is Err ==> *final(self) == *old(self) && r == Err::<(), CodecError>(CodecError::ShortBuffer),
    {
        if self.stream.remaining() < EKEY_SIZE {
            return Err(CodecError::ShortBuffer);
        }
        let id = pkid(pk);
        let eph = kem_eph(prng, nonce, &id);
        let ct = encaps(pk, &key.0, &eph);
        let put = self.stream.try_put(&ct);
        proof {
            assert(put is Ok);
        }
        self.sponge.absorb(&ct);
        Ok(())
    }

    /// `mssig(sk, digest)`: sign the digest, absorb the signature, write
    /// it.
    pub fn mssig(&mut self, sk: &SigSecretKey, digest: &NBytes) -> (r: Result<(), CodecError>)
        requires
            ctx_wf(old(self)),
        ensures
            ctx_wf(final(self)),
            final(self).stream@.buf.len() == old(self).stream@.buf.len(),
            r is Ok <==> ctx_cap(old(self)) >= SIG_SIZE,
            r is Ok ==> ctx_done(final(self)) == ctx_done(old(self)) + sig_of_spec(sig_pk_spec(sk@), digest@)
                && final(self).stream@.pos == old(self).stream@.pos + SIG_SIZE
                && final(self).sponge@ == sp_absorb(old(self).sponge@, sig_of_spec(sig_pk_spec(sk@), digest@)),
            r is Err ==> *final(self) == *old(self) && r == Err::<(), CodecError>(CodecError::ShortBuffer),
    {
        if self.stream.remaining() < SIG_SIZE {
            return Err(CodecError::ShortBuffer);
        }
        let sig = sign(sk, &digest.0);
        let put = self.stream.try_put(&sig);
        proof {
            assert(put is Ok);
        }
        self.sponge.absorb(&sig);
        Ok(())
    }
}

} // verus!
