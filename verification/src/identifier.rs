//! The recipient identifier codec: a tagged union of a public key and a
//! pre-shared-key identifier.
//!
//! On the wire a one-byte tag selects the variant, followed by the
//! variant body, all masked. Unknown tags — including the reserved next
//! one — are rejected with `BadOneof` carrying the offending tag.

use vstd::prelude::*;

use crate::command::sizeof;
use crate::command::unwrap;
use crate::command::wrap;
use crate::errors::CodecError;
use crate::sig::SigPublicKey;
use crate::sponge::sp_dec1;
use crate::sponge::sp_decrypt;
use crate::sponge::sp_encrypt;
use crate::sponge::SpongeModel;
use crate::sponge::zero_seq;
use crate::sponge::lemma_decrypt_append;
use crate::sponge::lemma_decrypt_wf;
use crate::sponge::lemma_encrypt_append;
use crate::bytes::copy_bytes;
use crate::PK_SIZE;
use crate::PSKID_SIZE;

verus! {

/// Who a keyload entry is for: a public-key recipient or a pre-shared
/// key, by identifier.
#[derive(Clone, Debug, PartialEq, Eq)]
pub enum Identifier {
    /// A signing public key.
    EdPubKey(Vec<u8>),
    /// A pre-shared-key identifier.
    PskId(Vec<u8>),
}

/// The wire tag of the public-key variant.
pub const ID_TAG_PK: u8 = 0;

/// The wire tag of the pre-shared-key variant.
pub const ID_TAG_PSKID: u8 = 1;

impl Identifier {
    /// The variant bodies have their fixed widths.
    pub open spec fn wf(&self) -> bool {
        match self {
            Identifier::EdPubKey(v) => v@.len() == PK_SIZE,
            Identifier::PskId(v) => v@.len() == PSKID_SIZE,
        }
    }

    /// The identifier bytes without the tag.
    pub open spec fn body(&self) -> Seq<u8> {
        match self {
            Identifier::EdPubKey(v) => v@,
            Identifier::PskId(v) => v@,
        }
    }

    /// The tag byte of the variant.
    pub open spec fn tag(&self) -> u8 {
        match self {
            Identifier::EdPubKey(_) => ID_TAG_PK,
            Identifier::PskId(_) => ID_TAG_PSKID,
        }
    }

    /// The plaintext this identifier masks onto the wire: tag, then body.
    pub open spec fn plain(&self) -> Seq<u8> {
        seq![self.tag()] + self.body()
    }

    /// Owned copy of the underlying byte array of the identifier.
    pub fn to_bytes(&self) -> (r: Vec<u8>)
        ensures
            r@ == self.body(),
    {
        match self {
            Identifier::EdPubKey(v) => copy_bytes(v),
            Identifier::PskId(v) => copy_bytes(v),
        }
    }

    /// View into the underlying byte array of the identifier.
    pub fn as_bytes(&self) -> (r: &Vec<u8>)
        ensures
            r@ == self.body(),
    {
        match self {
            Identifier::EdPubKey(v) => v,
            Identifier::PskId(v) => v,
        }
    }

    /// The public key, for the public-key variant alone.
    pub fn get_pk(&self) -> (r: Option<&Vec<u8>>)
        ensures
            match r {
                Some(v) => self is EdPubKey && v@ == self.body(),
                None => self is PskId,
            },
    {
        match self {
            Identifier::EdPubKey(v) => Some(v),
            Identifier::PskId(_) => None,
        }
    }

    /// Size mode: one tag byte plus the body.
    pub fn sizeof(&self, ctx: &mut sizeof::Context)
        requires
            old(ctx).size + 1 + self.body().len() <= usize::MAX,
        ensures
            final(ctx).size == old(ctx).size + self.plain().len(),
    {
        ctx.mask_uint8();
        match self {
            Identifier::EdPubKey(v) => ctx.mask_nbytes(&crate::types::NBytes(copy_bytes(v))),
            Identifier::PskId(v) => ctx.mask_nbytes(&crate::types::NBytes(copy_bytes(v))),
        }
    }

    /// Wrap mode: mask the tag, then the body.
    pub fn wrap(&self, ctx: &mut wrap::Context) -> (r: Result<(), CodecError>)
        requires
            wrap::ctx_wf(old(ctx)),
        ensures
            wrap::ctx_wf(final(ctx)),
            final(ctx).stream@.buf.len() == old(ctx).stream@.buf.len(),
            r is Ok <==> wrap::ctx_cap(old(ctx)) >= self.plain().len(),
            r is Ok ==> wrap::ctx_done(final(ctx)) == wrap::ctx_done(old(ctx)) + sp_encrypt(
                old(ctx).sponge@,
                self.plain(),
            ).1 && final(ctx).sponge@ == sp_encrypt(old(ctx).sponge@, self.plain()).0,
            r is Err ==> *final(ctx) == *old(ctx) && r == Err::<(), CodecError>(CodecError::ShortBuffer),
    {
        let ghost m0 = old(ctx).sponge@;
        let rem = ctx.stream.remaining();
        let body = self.as_bytes();
        if rem < 1 || rem - 1 < body.len() {
            return Err(CodecError::ShortBuffer);
        }
        let tag = match self {
            Identifier::EdPubKey(_) => ID_TAG_PK,
            Identifier::PskId(_) => ID_TAG_PSKID,
        };
        let r1 = ctx.mask_uint8(crate::types::Uint8(tag));
        proof {
            assert(r1 is Ok);
        }
        let r2 = ctx.mask_nbytes(&crate::types::NBytes(copy_bytes(body)));
        proof {
            crate::sponge::lemma_encrypt_wf(m0, seq![tag]);
            assert(r2 is Ok);
            lemma_encrypt_append(m0, seq![tag], self.body());
            assert(seq![tag] + self.body() =~= self.plain());
            assert(wrap::ctx_done(old(ctx)) + sp_encrypt(m0, seq![tag]).1 + sp_encrypt(
                sp_encrypt(m0, seq![tag]).0,
                self.body(),
            ).1 =~= wrap::ctx_done(old(ctx)) + sp_encrypt(m0, self.plain()).1);
        }
        Ok(())
    }
}

/// Parse of a masked identifier from `rest` under sponge state `m`: on
/// success the tag, the decrypted body, and the bytes consumed.
pub open spec fn id_parse(m: SpongeModel, rest: Seq<u8>) -> Result<(u8, Seq<u8>, int), CodecError> {
    if rest.len() < 1 {
        Err(CodecError::ShortBuffer)
    } else {
        let tag = sp_dec1(m, rest[0]).1;
        let m1 = sp_dec1(m, rest[0]).0;
        if tag == ID_TAG_PK {
            if rest.len() < 1 + PK_SIZE {
                Err(CodecError::ShortBuffer)
            } else {
                Ok((tag, sp_decrypt(m1, rest.subrange(1, 1 + PK_SIZE as int)).1, 1 + PK_SIZE as int))
            }
        } else if tag == ID_TAG_PSKID {
            if rest.len() < 1 + PSKID_SIZE {
                Err(CodecError::ShortBuffer)
            } else {
                Ok((tag, sp_decrypt(m1, rest.subrange(1, 1 + PSKID_SIZE as int)).1, 1 + PSKID_SIZE as int))
            }
        } else {
            Err(CodecError::BadOneof(tag))
        }
    }
}

/// Bytes a failing identifier parse has consumed.
pub open spec fn id_err_consumed(m: SpongeModel, rest: Seq<u8>) -> int {
    if rest.len() < 1 {
        0
    } else {
        1
    }
}

/// Sponge state after an identifier parse, successful or not.
pub open spec fn id_sponge(m: SpongeModel, rest: Seq<u8>) -> SpongeModel {
    if rest.len() < 1 {
        m
    } else {
        match id_parse(m, rest) {
            Ok((tag, body, len)) => sp_decrypt(m, rest.take(len)).0,
            Err(_) => sp_dec1(m, rest[0]).0,
        }
    }
}

impl Identifier {
    /// Unwrap mode: mask the tag, then the variant body; rejects an
    /// unknown tag with `BadOneof`.
    pub fn unwrap_new(ctx: &mut unwrap::Context) -> (r: Result<Identifier, CodecError>)
        requires
            unwrap::ctx_wf(old(ctx)),
        ensures
            unwrap::ctx_wf(final(ctx)),
            final(ctx).stream@.buf == old(ctx).stream@.buf,
            r is Ok <==> id_parse(old(ctx).sponge@, unwrap::ctx_rest(old(ctx))) is Ok,
            r is Ok ==> ({
                let (tag, body, len) = id_parse(old(ctx).sponge@, unwrap::ctx_rest(old(ctx)))->Ok_0;
                &&& r->Ok_0.tag() == tag
                &&& r->Ok_0.body() == body
                &&& r->Ok_0.wf()
                &&& unwrap::ctx_pos(final(ctx)) == unwrap::ctx_pos(old(ctx)) + len
                &&& final(ctx).sponge@ == id_sponge(old(ctx).sponge@, unwrap::ctx_rest(old(ctx)))
            }),
            r is Err ==> r == Err::<Identifier, CodecError>(
                id_parse(old(ctx).sponge@, unwrap::ctx_rest(old(ctx)))->Err_0,
            ) && unwrap::ctx_pos(final(ctx)) == unwrap::ctx_pos(old(ctx)) + id_err_consumed(
                old(ctx).sponge@,
                unwrap::ctx_rest(old(ctx)),
            ) && final(ctx).sponge@ == id_sponge(old(ctx).sponge@, unwrap::ctx_rest(old(ctx))),
    {
        let ghost m0 = old(ctx).sponge@;
        let ghost rest = unwrap::ctx_rest(old(ctx));
        let tag = ctx.mask_uint8()?;
        proof {
            reveal_with_fuel(sp_decrypt, 2);
            assert(rest.take(1).len() == 1);
            assert(rest.take(1)[0] == rest[0]);
            assert(rest.take(1).skip(1) =~= Seq::<u8>::empty());
            assert(sp_decrypt(m0, rest.take(1)).0 == sp_dec1(m0, rest[0]).0);
            assert(sp_decrypt(m0, rest.take(1)).1 =~= seq![sp_dec1(m0, rest[0]).1]);
            assert(seq![tag.0] == sp_decrypt(m0, rest.take(1)).1);
            assert(tag.0 == sp_decrypt(m0, rest.take(1)).1[0]);
            assert(tag.0 == sp_dec1(m0, rest[0]).1);
            assert(ctx.stream@.buf.skip(ctx.stream@.pos) =~= rest.skip(1));
        }
        let ghost m1 = sp_dec1(m0, rest[0]).0;
        if tag.0 == ID_TAG_PK {
            let body = ctx.mask_nbytes(PK_SIZE)?;
            proof {
                assert(rest.skip(1).take(PK_SIZE as int) =~= rest.subrange(
                    1,
                    1 + PK_SIZE as int,
                ));
                lemma_decrypt_wf(m1, rest.subrange(1, 1 + PK_SIZE as int));
                lemma_decrypt_append(m0, rest.take(1), rest.subrange(1, 1 + PK_SIZE as int));
                assert(rest.take(1) + rest.subrange(1, 1 + PK_SIZE as int) =~= rest.take(1 + PK_SIZE as int));
            }
            Ok(Identifier::EdPubKey(body.0))
        } else if tag.0 == ID_TAG_PSKID {
            let body = ctx.mask_nbytes(PSKID_SIZE)?;
            proof {
                assert(rest.skip(1).take(PSKID_SIZE as int) =~= rest.subrange(
                    1,
                    1 + PSKID_SIZE as int,
                ));
                lemma_decrypt_wf(m1, rest.subrange(1, 1 + PSKID_SIZE as int));
                lemma_decrypt_append(m0, rest.take(1), rest.subrange(1, 1 + PSKID_SIZE as int));
                assert(rest.take(1) + rest.subrange(1, 1 + PSKID_SIZE as int) =~= rest.take(
                    1 + PSKID_SIZE as int,
                ));
            }
            Ok(Identifier::PskId(body.0))
        } else {
            Err(CodecError::BadOneof(tag.0))
        }
    }

    /// Unwrap into an existing identifier.
    pub fn unwrap(&mut self, ctx: &mut unwrap::Context) -> (r: Result<(), CodecError>)
        requires
            unwrap::ctx_wf(old(ctx)),
        ensures
            unwrap::ctx_wf(final(ctx)),
            final(ctx).stream@.buf == old(ctx).stream@.buf,
            r is Ok <==> id_parse(old(ctx).sponge@, unwrap::ctx_rest(old(ctx))) is Ok,
            r is Ok ==> ({
                let (tag, body, len) = id_parse(old(ctx).sponge@, unwrap::ctx_rest(old(ctx)))->Ok_0;
                &&& final(self).tag() == tag
                &&& final(self).body() == body
                &&& final(self).wf()
                &&& unwrap::ctx_pos(final(ctx)) == unwrap::ctx_pos(old(ctx)) + len
            }),
            final(ctx).sponge@ == id_sponge(old(ctx).sponge@, unwrap::ctx_rest(old(ctx))),
            r is Err ==> r == Err::<(), CodecError>(
                id_parse(old(ctx).sponge@, unwrap::ctx_rest(old(ctx)))->Err_0,
            ) && *final(self) == *old(self),
    {
        match Self::unwrap_new(ctx) {
            Ok(id) => {
                *self = id;
                Ok(())
            },
            Err(e) => Err(e),
        }
    }
}

impl Default for Identifier {
    /// The all-zero public-key identifier.
    fn default() -> (r: Identifier)
        ensures
            r is EdPubKey,
            r.body() == zero_seq(PK_SIZE as nat),
            r.wf(),
    {
        let v: Vec<u8> = vec![0u8; PK_SIZE];
        proof {
            assert(v@ =~= zero_seq(PK_SIZE as nat));
        }
        Identifier::EdPubKey(v)
    }
}

impl From<SigPublicKey> for Identifier {
    /// A public key is an identifier.
    fn from(pk: SigPublicKey) -> (r: Identifier) {
        Identifier::EdPubKey(pk.0)
    }
}

impl vstd::std_specs::convert::FromSpecImpl<SigPublicKey> for Identifier {
    open spec fn obeys_from_spec() -> bool {
        true
    }

    open spec fn from_spec(pk: SigPublicKey) -> Identifier {
        Identifier::EdPubKey(pk.0)
    }
}

/// A pre-shared-key identifier is an identifier.
pub fn identifier_from_pskid(pskid: Vec<u8>) -> (r: Identifier)
    ensures
        r is PskId,
        r.body() == pskid@,
{
    Identifier::PskId(pskid)
}

} // verus!
