//! Unwrap mode: parse values from the input stream while driving the
//! sponge exactly as wrap mode did, and check what must match.
//!
//! Every operator pins down, for every input, whether it succeeds, which
//! error it returns otherwise, how many bytes it has consumed, and the
//! sponge state it leaves behind.

use vstd::prelude::*;

use crate::bytes::eq_bytes;
use crate::errors::CodecError;
use crate::io::stream_wf;
use crate::io::IStream;
use crate::kem::kem_decaps_spec;
use crate::kem::decaps;
use crate::kem::KemSecretKey;
use crate::linkstore::ls_find;
use crate::linkstore::LinkStore;
use crate::sig::sig_of_spec;
use crate::sig::verify;
use crate::sig::SigPublicKey;
use crate::sponge::sp_absorb;
use crate::sponge::sp_commit;
use crate::sponge::sp_dec1;
use crate::sponge::sp_decrypt;
use crate::sponge::sp_from_inner;
use crate::sponge::sp_squeeze;
use crate::sponge::sp_wf;
use crate::sponge::SpongeModel;
use crate::sponge::lemma_absorb_append;
use crate::sponge::lemma_absorb_wf;
use crate::sponge::lemma_decrypt_append;
use crate::sponge::lemma_decrypt_wf;
use crate::sponge::lemma_squeeze_wf;
use crate::sponge::Sponge;
use crate::types::be_value;
use crate::types::size_from_be;
use crate::types::Bytes;
use crate::types::Mac;
use crate::types::NBytes;
use crate::types::Size;
use crate::types::Uint8;
use crate::EKEY_SIZE;
use crate::KEY_SIZE;
use crate::LINK_SIZE;
use crate::SIG_SIZE;

verus! {

/// An unwrap context: the sponge being driven and the input window.
pub struct Context {
    pub sponge: Sponge,
    pub stream: IStream,
}

/// Both halves of the context are well-formed.
pub open spec fn ctx_wf(c: &Context) -> bool {
    &&& sp_wf(c.sponge@)
    &&& stream_wf(c.stream@)
}

/// Bytes not yet consumed.
pub open spec fn ctx_rest(c: &Context) -> Seq<u8> {
    c.stream@.buf.skip(c.stream@.pos)
}

/// The read position.
pub open spec fn ctx_pos(c: &Context) -> int {
    c.stream@.pos
}

/// Parse a size prefix from plain bytes: the count byte must be at most
/// eight, the value bytes must be there, and the value must fit the
/// machine word. Returns the value and the bytes consumed.
pub open spec fn size_parse(rest: Seq<u8>) -> Result<(nat, int), CodecError> {
    if rest.len() < 1 {
        Err(CodecError::ShortBuffer)
    } else if rest[0] > 8 {
        Err(CodecError::BadSize)
    } else if rest.len() < 1 + rest[0] {
        Err(CodecError::ShortBuffer)
    } else if be_value(rest.subrange(1, 1 + rest[0])) > usize::MAX {
        Err(CodecError::BadSize)
    } else {
        Ok((be_value(rest.subrange(1, 1 + rest[0])), 1 + rest[0]))
    }
}

/// Bytes a failing plain size parse has consumed.
pub open spec fn size_parse_err_consumed(rest: Seq<u8>) -> int {
    if rest.len() < 1 {
        0
    } else if rest[0] > 8 {
        1
    } else if rest.len() < 1 + rest[0] {
        1
    } else {
        1 + rest[0]
    }
}

/// Sponge state after an absorbing size parse, successful or not.
pub open spec fn asize_sponge(m: SpongeModel, rest: Seq<u8>) -> SpongeModel {
    if rest.len() < 1 {
        m
    } else if rest[0] > 8 || rest.len() < 1 + rest[0] {
        sp_absorb(m, rest.take(1))
    } else {
        sp_absorb(m, rest.take(1 + rest[0]))
    }
}

/// The count byte of a masked size parse, after decryption.
pub open spec fn msize_d(m: SpongeModel, rest: Seq<u8>) -> int {
    sp_dec1(m, rest[0]).1 as int
}

/// The decrypted value bytes of a masked size parse.
pub open spec fn msize_digits(m: SpongeModel, rest: Seq<u8>) -> Seq<u8> {
    sp_decrypt(sp_dec1(m, rest[0]).0, rest.subrange(1, 1 + msize_d(m, rest))).1
}

/// Parse a masked size prefix: as [`size_parse`], but every byte is
/// decrypted as it is read.
pub open spec fn msize_parse(m: SpongeModel, rest: Seq<u8>) -> Result<(nat, int), CodecError> {
    if rest.len() < 1 {
        Err(CodecError::ShortBuffer)
    } else if msize_d(m, rest) > 8 {
        Err(CodecError::BadSize)
    } else if rest.len() < 1 + msize_d(m, rest) {
        Err(CodecError::ShortBuffer)
    } else if be_value(msize_digits(m, rest)) > usize::MAX {
        Err(CodecError::BadSize)
    } else {
        Ok((be_value(msize_digits(m, rest)), 1 + msize_d(m, rest)))
    }
}

/// Bytes a failing masked size parse has consumed.
pub open spec fn msize_err_consumed(m: SpongeModel, rest: Seq<u8>) -> int {
    if rest.len() < 1 {
        0
    } else if msize_d(m, rest) > 8 {
        1
    } else if rest.len() < 1 + msize_d(m, rest) {
        1
    } else {
        1 + msize_d(m, rest)
    }
}

/// Sponge state after a masked size parse, successful or not.
pub open spec fn msize_sponge(m: SpongeModel, rest: Seq<u8>) -> SpongeModel {
    if rest.len() < 1 {
        m
    } else if msize_d(m, rest) > 8 || rest.len() < 1 + msize_d(m, rest) {
        sp_dec1(m, rest[0]).0
    } else {
        sp_decrypt(m, rest.take(1 + msize_d(m, rest))).0
    }
}

impl Context {
    /// Unwrap with `sponge` from `stream`.
    pub fn new(sponge: Sponge, stream: IStream) -> (r: Context)
        ensures
            r.sponge@ == sponge@,
            r.stream@ == stream@,
    {
        Context { sponge, stream }
    }

    /// `absorb(Uint8)`: read one byte and absorb it.
    pub fn absorb_uint8(&mut self) -> (r: Result<Uint8, CodecError>)
        requires
            ctx_wf(old(self)),
        ensures
            ctx_wf(final(self)),
            final(self).stream@.buf == old(self).stream@.buf,
            r is Ok <==> ctx_rest(old(self)).len() >= 1,
            r is Ok ==> seq![r->Ok_0.0] == ctx_rest(old(self)).take(1)
                && ctx_pos(final(self)) == ctx_pos(old(self)) + 1
                && final(self).sponge@ == sp_absorb(old(self).sponge@, ctx_rest(old(self)).take(1)),
            r is Err ==> *final(self) == *old(self) && r == Err::<Uint8, CodecError>(CodecError::ShortBuffer),
    {
        let ghost rest = ctx_rest(old(self));
        let c = self.stream.try_get(1)?;
        proof {
            assert(c@ =~= rest.take(1));
        }
        self.sponge.absorb(&c);
        Ok(Uint8(c[0]))
    }

    /// `absorb(NBytes)`: read `n` bytes and absorb them.
    pub fn absorb_nbytes(&mut self, n: usize) -> (r: Result<NBytes, CodecError>)
        requires
            ctx_wf(old(self)),
        ensures
            ctx_wf(final(self)),
            final(self).stream@.buf == old(self).stream@.buf,
            r is Ok <==> ctx_rest(old(self)).len() >= n,
            r is Ok ==> r->Ok_0@ == ctx_rest(old(self)).take(n as int)
                && ctx_pos(final(self)) == ctx_pos(old(self)) + n
                && final(self).sponge@ == sp_absorb(old(self).sponge@, ctx_rest(old(self)).take(n as int)),
            r is Err ==> *final(self) == *old(self) && r == Err::<NBytes, CodecError>(CodecError::ShortBuffer),
    {
        let ghost rest = ctx_rest(old(self));
        let c = self.stream.try_get(n)?;
        proof {
            assert(c@ =~= rest.take(n as int));
        }
        self.sponge.absorb(&c);
        Ok(NBytes(c))
    }

    /// `skip(NBytes)`: read `n` bytes; the sponge is untouched.
    pub fn skip_nbytes(&mut self, n: usize) -> (r: Result<NBytes, CodecError>)
        requires
            ctx_wf(old(self)),
        ensures
            ctx_wf(final(self)),
            final(self).stream@.buf == old(self).stream@.buf,
            r is Ok <==> ctx_rest(old(self)).len() >= n,
            r is Ok ==> r->Ok_0@ == ctx_rest(old(self)).take(n as int)
                && ctx_pos(final(self)) == ctx_pos(old(self)) + n
                && final(self).sponge@ == old(self).sponge@,
            r is Err ==> *final(self) == *old(self) && r == Err::<NBytes, CodecError>(CodecError::ShortBuffer),
    {
        let ghost rest = ctx_rest(old(self));
        let c = self.stream.try_get(n)?;
        proof {
            assert(c@ =~= rest.take(n as int));
        }
        Ok(NBytes(c))
    }

    /// `mask(Uint8)`: read one byte and decrypt it.
    pub fn mask_uint8(&mut self) -> (r: Result<Uint8, CodecError>)
        requires
            ctx_wf(old(self)),
        ensures
            ctx_wf(final(self)),
            final(self).stream@.buf == old(self).stream@.buf,
            r is Ok <==> ctx_rest(old(self)).len() >= 1,
            r is Ok ==> seq![r->Ok_0.0] == sp_decrypt(old(self).sponge@, ctx_rest(old(self)).take(1)).1
                && ctx_pos(final(self)) == ctx_pos(old(self)) + 1
                && final(self).sponge@ == sp_decrypt(old(self).sponge@, ctx_rest(old(self)).take(1)).0,
            r is Err ==> *final(self) == *old(self) && r == Err::<Uint8, CodecError>(CodecError::ShortBuffer),
    {
        let ghost rest = ctx_rest(old(self));
        let c = self.stream.try_get(1)?;
        proof {
            assert(c@ =~= rest.take(1));
        }
        let p = self.sponge.decrypt(&c);
        proof {
            lemma_decrypt_wf(old(self).sponge@, c@);
        }
        Ok(Uint8(p[0]))
    }

    /// `mask(NBytes)`: read `n` bytes and decrypt them.
    pub fn mask_nbytes(&mut self, n: usize) -> (r: Result<NBytes, CodecError>)
        requires
            ctx_wf(old(self)),
        ensures
            ctx_wf(final(self)),
            final(self).stream@.buf == old(self).stream@.buf,
            r is Ok <==> ctx_rest(old(self)).len() >= n,
            r is Ok ==> r->Ok_0@ == sp_decrypt(old(self).sponge@, ctx_rest(old(self)).take(n as int)).1
                && ctx_pos(final(self)) == ctx_pos(old(self)) + n
                && final(self).sponge@ == sp_decrypt(old(self).sponge@, ctx_rest(old(self)).take(n as int)).0,
            r is Err ==> *final(self) == *old(self) && r == Err::<NBytes, CodecError>(CodecError::ShortBuffer),
    {
        let ghost rest = ctx_rest(old(self));
        let c = self.stream.try_get(n)?;
        proof {
            assert(c@ =~= rest.take(n as int));
        }
        let p = self.sponge.decrypt(&c);
        proof {
            lemma_decrypt_wf(old(self).sponge@, c@);
        }
        Ok(NBytes(p))
    }

    /// `absorb(Size)`: read and absorb a size prefix.
    pub fn absorb_size(&mut self) -> (r: Result<Size, CodecError>)
        requires
            ctx_wf(old(self)),
        ensures
            ctx_wf(final(self)),
            final(self).stream@.buf == old(self).stream@.buf,
            r is Ok <==> size_parse(ctx_rest(old(self))) is Ok,
            r is Ok ==> r->Ok_0.0 as nat == size_parse(ctx_rest(old(self)))->Ok_0.0
                && ctx_pos(final(self)) == ctx_pos(old(self)) + size_parse(ctx_rest(old(self)))->Ok_0.1,
            r is Err ==> r == Err::<Size, CodecError>(size_parse(ctx_rest(old(self)))->Err_0)
                && ctx_pos(final(self)) == ctx_pos(old(self)) + size_parse_err_consumed(ctx_rest(old(self))),
            final(self).sponge@ == asize_sponge(old(self).sponge@, ctx_rest(old(self))),
    {
        let ghost m0 = old(self).sponge@;
        let ghost rest = ctx_rest(old(self));
        let c = self.stream.try_get(1)?;
        proof {
            assert(c@ =~= rest.take(1));
        }
        self.sponge.absorb(&c);
        let d = c[0];
        if d > 8 {
            return Err(CodecError::BadSize);
        }
        let ghost m1 = sp_absorb(m0, rest.take(1));
        let dig = self.stream.try_get(d as usize);
        let digits = match dig {
            Ok(v) => v,
            Err(e) => {
                return Err(e);
            },
        };
        proof {
            assert(digits@ =~= rest.subrange(1, 1 + d));
        }
        self.sponge.absorb(&digits);
        proof {
            lemma_absorb_append(m0, rest.take(1), rest.subrange(1, 1 + d));
            assert(rest.take(1) + rest.subrange(1, 1 + d) =~= rest.take(1 + d));
        }
        let v = size_from_be(&digits)?;
        Ok(Size(v))
    }

    /// `skip(Size)`: read a size prefix; the sponge is untouched.
    pub fn skip_size(&mut self) -> (r: Result<Size, CodecError>)
        requires
            ctx_wf(old(self)),
        ensures
            ctx_wf(final(self)),
            final(self).stream@.buf == old(self).stream@.buf,
            final(self).sponge@ == old(self).sponge@,
            r is Ok <==> size_parse(ctx_rest(old(self))) is Ok,
            r is Ok ==> r->Ok_0.0 as nat == size_parse(ctx_rest(old(self)))->Ok_0.0
                && ctx_pos(final(self)) == ctx_pos(old(self)) + size_parse(ctx_rest(old(self)))->Ok_0.1,
            r is Err ==> r == Err::<Size, CodecError>(size_parse(ctx_rest(old(self)))->Err_0)
                && ctx_pos(final(self)) == ctx_pos(old(self)) + size_parse_err_consumed(ctx_rest(old(self))),
    {
        let ghost rest = ctx_rest(old(self));
        let c = self.stream.try_get(1)?;
        proof {
            assert(c@ =~= rest.take(1));
        }
        let d = c[0];
        if d > 8 {
            return Err(CodecError::BadSize);
        }
        let dig = self.stream.try_get(d as usize);
        let digits = match dig {
            Ok(v) => v,
            Err(e) => {
                return Err(e);
            },
        };
        proof {
            assert(digits@ =~= rest.subrange(1, 1 + d));
        }
        let v = size_from_be(&digits)?;
        Ok(Size(v))
    }

    /// `mask(Size)`: read a size prefix, decrypting every byte.
    pub fn mask_size(&mut self) -> (r: Result<Size, CodecError>)
        requires
            ctx_wf(old(self)),
        ensures
            ctx_wf(final(self)),
            final(self).stream@.buf == old(self).stream@.buf,
            r is Ok <==> msize_parse(old(self).sponge@, ctx_rest(old(self))) is Ok,
            r is Ok ==> r->Ok_0.0 as nat == msize_parse(old(self).sponge@, ctx_rest(old(self)))->Ok_0.0
                && ctx_pos(final(self)) == ctx_pos(old(self)) + msize_parse(
                old(self).sponge@,
                ctx_rest(old(self)),
            )->Ok_0.1,
            r is Err ==> r == Err::<Size, CodecError>(msize_parse(old(self).sponge@, ctx_rest(old(self)))->Err_0)
                && ctx_pos(final(self)) == ctx_pos(old(self)) + msize_err_consumed(
                old(self).sponge@,
                ctx_rest(old(self)),
            ),
            final(self).sponge@ == msize_sponge(old(self).sponge@, ctx_rest(old(self))),
    {
        let ghost m0 = old(self).sponge@;
        let ghost rest = ctx_rest(old(self));
        let c = self.stream.try_get(1)?;
        proof {
            assert(c@ =~= rest.take(1));
        }
        let pv = self.sponge.decrypt(&c);
        proof {
            assert(c@.skip(1) =~= Seq::<u8>::empty());
            assert(sp_decrypt(sp_dec1(m0, c@[0]).0, Seq::<u8>::empty()).0 == sp_dec1(m0, c@[0]).0);
            assert(pv@ =~= seq![sp_dec1(m0, c@[0]).1]);
            assert(self.sponge@ == sp_dec1(m0, rest[0]).0);
            lemma_decrypt_wf(m0, c@);
        }
        let d = pv[0];
        if d > 8 {
            return Err(CodecError::BadSize);
        }
        let ghost m1 = sp_dec1(m0, rest[0]).0;
        let dig = self.stream.try_get(d as usize);
        let cdigits = match dig {
            Ok(v) => v,
            Err(e) => {
                return Err(e);
            },
        };
        proof {
            assert(cdigits@ =~= rest.subrange(1, 1 + d));
        }
        let digits = self.sponge.decrypt(&cdigits);
        proof {
            lemma_decrypt_wf(m1, cdigits@);
            lemma_decrypt_append(m0, rest.take(1), rest.subrange(1, 1 + d));
            assert(rest.take(1) + rest.subrange(1, 1 + d) =~= rest.take(1 + d));
            assert(rest.take(1)[0] == rest[0]);
            assert(rest.take(1).skip(1) =~= Seq::<u8>::empty());
            assert(sp_decrypt(m0, rest.take(1)).0 == m1);
            assert(digits@ =~= msize_digits(m0, rest));
        }
        let v = size_from_be(&digits)?;
        Ok(Size(v))
    }

    /// `absorb(Bytes)`: read and absorb a size prefix, then that many
    /// bytes.
    pub fn absorb_bytes(&mut self) -> (r: Result<Bytes, CodecError>)
        requires
            ctx_wf(old(self)),
        ensures
            ctx_wf(final(self)),
            final(self).stream@.buf == old(self).stream@.buf,
            r is Ok <==> (size_parse(ctx_rest(old(self))) is Ok && ctx_rest(old(self)).len() >= size_parse(
                ctx_rest(old(self)),
            )->Ok_0.1 + size_parse(ctx_rest(old(self)))->Ok_0.0),
            r is Ok ==> ({
                let (n, l) = size_parse(ctx_rest(old(self)))->Ok_0;
                &&& r->Ok_0@ == ctx_rest(old(self)).subrange(l, l + n)
                &&& ctx_pos(final(self)) == ctx_pos(old(self)) + l + n
                &&& final(self).sponge@ == sp_absorb(old(self).sponge@, ctx_rest(old(self)).take(l + n))
            }),
            r is Err && size_parse(ctx_rest(old(self))) is Err ==> r == Err::<Bytes, CodecError>(
                size_parse(ctx_rest(old(self)))->Err_0,
            ) && ctx_pos(final(self)) == ctx_pos(old(self)) + size_parse_err_consumed(ctx_rest(old(self)))
                && final(self).sponge@ == asize_sponge(old(self).sponge@, ctx_rest(old(self))),
            r is Err && size_parse(ctx_rest(old(self))) is Ok ==> r == Err::<Bytes, CodecError>(
                CodecError::ShortBuffer,
            ) && ctx_pos(final(self)) == ctx_pos(old(self)) + size_parse(ctx_rest(old(self)))->Ok_0.1
                && final(self).sponge@ == sp_absorb(
                old(self).sponge@,
                ctx_rest(old(self)).take(size_parse(ctx_rest(old(self)))->Ok_0.1),
            ),
    {
        let ghost m0 = old(self).sponge@;
        let ghost rest = ctx_rest(old(self));
        let n = self.absorb_size()?;
        let ghost l = size_parse(rest)->Ok_0.1;
        let got = self.stream.try_get(n.0);
        let v = match got {
            Ok(v) => v,
            Err(e) => {
                return Err(e);
            },
        };
        proof {
            assert(v@ =~= rest.subrange(l, l + n.0));
        }
        self.sponge.absorb(&v);
        proof {
            lemma_absorb_append(m0, rest.take(l), rest.subrange(l, l + n.0));
            assert(rest.take(l) + rest.subrange(l, l + n.0) =~= rest.take(l + n.0));
        }
        Ok(Bytes(v))
    }

    /// `mask(Bytes)`: read a masked size prefix, then decrypt that many
    /// bytes.
    pub fn mask_bytes(&mut self) -> (r: Result<Bytes, CodecError>)
        requires
            ctx_wf(old(self)),
        ensures
            ctx_wf(final(self)),
            final(self).stream@.buf == old(self).stream@.buf,
            r is Ok <==> (msize_parse(old(self).sponge@, ctx_rest(old(self))) is Ok && ctx_rest(
                old(self),
            ).len() >= msize_parse(old(self).sponge@, ctx_rest(old(self)))->Ok_0.1 + msize_parse(
                old(self).sponge@,
                ctx_rest(old(self)),
            )->Ok_0.0),
            r is Ok ==> ({
                let (n, l) = msize_parse(old(self).sponge@, ctx_rest(old(self)))->Ok_0;
                &&& r->Ok_0@ == sp_decrypt(old(self).sponge@, ctx_rest(old(self)).take(l + n)).1.skip(l)
                &&& ctx_pos(final(self)) == ctx_pos(old(self)) + l + n
                &&& final(self).sponge@ == sp_decrypt(old(self).sponge@, ctx_rest(old(self)).take(l + n)).0
            }),
            r is Err && msize_parse(old(self).sponge@, ctx_rest(old(self))) is Err ==> r == Err::<
                Bytes,
                CodecError,
            >(msize_parse(old(self).sponge@, ctx_rest(old(self)))->Err_0) && ctx_pos(final(self)) == ctx_pos(
                old(self),
            ) + msize_err_consumed(old(self).sponge@, ctx_rest(old(self))) && final(self).sponge@ == msize_sponge(
                old(self).sponge@,
                ctx_rest(old(self)),
            ),
            r is Err && msize_parse(old(self).sponge@, ctx_rest(old(self))) is Ok ==> r == Err::<
                Bytes,
                CodecError,
            >(CodecError::ShortBuffer) && ctx_pos(final(self)) == ctx_pos(old(self)) + msize_parse(
                old(self).sponge@,
                ctx_rest(old(self)),
            )->Ok_0.1 && final(self).sponge@ == msize_sponge(old(self).sponge@, ctx_rest(old(self))),
    {
        let ghost m0 = old(self).sponge@;
        let ghost rest = ctx_rest(old(self));
        let n = self.mask_size()?;
        let ghost l = msize_parse(m0, rest)->Ok_0.1;
        let got = self.stream.try_get(n.0);
        let c = match got {
            Ok(v) => v,
            Err(e) => {
                return Err(e);
            },
        };
        proof {
            assert(c@ =~= rest.subrange(l, l + n.0));
        }
        let p = self.sponge.decrypt(&c);
        proof {
            assert(msize_sponge(m0, rest) == sp_decrypt(m0, rest.take(l)).0);
            lemma_decrypt_wf(sp_decrypt(m0, rest.take(l)).0, c@);
            lemma_decrypt_append(m0, rest.take(l), rest.subrange(l, l + n.0));
            assert(rest.take(l) + rest.subrange(l, l + n.0) =~= rest.take(l + n.0));
            assert(sp_decrypt(m0, rest.take(l)).1.len() == l) by {
                lemma_decrypt_wf(m0, rest.take(l));
            }
            assert(p@ =~= sp_decrypt(m0, rest.take(l + n.0)).1.skip(l));
        }
        Ok(Bytes(p))
    }

    /// `absorb(External(NBytes))`: absorb a caller-supplied value; the
    /// stream is untouched — an external value occupies no wire bytes,
    /// and wrap and unwrap feed the sponge the same tape for it.
    pub fn absorb_external_nbytes(&mut self, v: &NBytes)
        requires
            ctx_wf(old(self)),
        ensures
            ctx_wf(final(self)),
            final(self).stream@ == old(self).stream@,
            final(self).sponge@ == sp_absorb(old(self).sponge@, v@),
    {
        self.sponge.absorb(&v.0);
    }

    /// `squeeze(External(NBytes))`: derive bytes; the stream is untouched.
    pub fn squeeze_external_nbytes(&mut self, n: usize) -> (r: NBytes)
        requires
            ctx_wf(old(self)),
        ensures
            ctx_wf(final(self)),
            final(self).stream@ == old(self).stream@,
            final(self).sponge@ == sp_squeeze(old(self).sponge@, n as nat).0,
            r@ == sp_squeeze(old(self).sponge@, n as nat).1,
            r@.len() == n,
    {
        proof {
            lemma_squeeze_wf(old(self).sponge@, n as nat);
        }
        NBytes(self.sponge.squeeze(n))
    }

    /// `squeeze(Mac(n))`: read a tag and verify it against the squeezed
    /// one; fails with `BadMac` exactly when they differ.
    pub fn squeeze_mac(&mut self, mac: Mac) -> (r: Result<(), CodecError>)
        requires
            ctx_wf(old(self)),
        ensures
            ctx_wf(final(self)),
            final(self).stream@.buf == old(self).stream@.buf,
            r is Ok <==> (ctx_rest(old(self)).len() >= mac.0 && ctx_rest(old(self)).take(mac.0 as int)
                == sp_squeeze(old(self).sponge@, mac.0 as nat).1),
            ctx_rest(old(self)).len() < mac.0 ==> *final(self) == *old(self) && r == Err::<(), CodecError>(
                CodecError::ShortBuffer,
            ),
            ctx_rest(old(self)).len() >= mac.0 ==> ctx_pos(final(self)) == ctx_pos(old(self)) + mac.0
                && final(self).sponge@ == sp_squeeze(old(self).sponge@, mac.0 as nat).0,
            r is Err ==> r == Err::<(), CodecError>(CodecError::ShortBuffer) || r == Err::<(), CodecError>(
                CodecError::BadMac,
            ),
            r is Err && ctx_rest(old(self)).len() >= mac.0 ==> r == Err::<(), CodecError>(CodecError::BadMac),
    {
        let ghost rest = ctx_rest(old(self));
        let t = self.stream.try_get(mac.0)?;
        proof {
            assert(t@ =~= rest.take(mac.0 as int));
            lemma_squeeze_wf(old(self).sponge@, mac.0 as nat);
        }
        let sq = self.sponge.squeeze(mac.0);
        if eq_bytes(&t, &sq) {
            Ok(())
        } else {
            Err(CodecError::BadMac)
        }
    }

    /// `commit`: align the sponge; no wire bytes.
    pub fn commit(&mut self)
        requires
            ctx_wf(old(self)),
        ensures
            ctx_wf(final(self)),
            final(self).stream@ == old(self).stream@,
            final(self).sponge@ == sp_commit(old(self).sponge@),
    {
        self.sponge.commit();
    }

    /// Start of `fork(body)`: a copy of the sponge to hold for the parent.
    pub fn fork(&self) -> (r: Sponge)
        ensures
            r@ == self.sponge@,
    {
        self.sponge.fork()
    }

    /// End of `fork(body)`: the parent resumes with its pre-fork sponge.
    pub fn restore(&mut self, parent: Sponge)
        ensures
            final(self).sponge@ == parent@,
            final(self).stream@ == old(self).stream@,
    {
        self.sponge = parent;
    }

    /// `guard(cond, msg)`: fails with `Guard(msg)` exactly when the
    /// condition is false.
    pub fn guard(&self, cond: bool, msg: &'static str) -> (r: Result<(), CodecError>)
        ensures
            r is Ok <==> cond,
            r is Err ==> r == Err::<(), CodecError>(CodecError::Guard(msg)),
    {
        if cond {
            Ok(())
        } else {
            Err(CodecError::Guard(msg))
        }
    }

    /// `drop(n)`: advance the stream without reading; no sponge effect.
    pub fn drop(&mut self, n: usize) -> (r: Result<(), CodecError>)
        requires
            ctx_wf(old(self)),
        ensures
            ctx_wf(final(self)),
            final(self).stream@.buf == old(self).stream@.buf,
            final(self).sponge@ == old(self).sponge@,
            r is Ok <==> ctx_rest(old(self)).len() >= n,
            r is Ok ==> ctx_pos(final(self)) == ctx_pos(old(self)) + n,
            r is Err ==> *final(self) == *old(self) && r == Err::<(), CodecError>(CodecError::ShortBuffer),
    {
        self.stream.try_drop(n)
    }

    /// `join(store)`: read the link bytes via skip, then resume from the
    /// stored inner state of the linked message; fails with
    /// `LinkNotFound` exactly when the store does not hold the link.
    pub fn join(&mut self, store: &LinkStore) -> (r: Result<NBytes, CodecError>)
        requires
            ctx_wf(old(self)),
            store.wf(),
        ensures
            ctx_wf(final(self)),
            final(self).stream@.buf == old(self).stream@.buf,
            r is Ok <==> (ctx_rest(old(self)).len() >= LINK_SIZE && ls_find(
                store.entries@,
                ctx_rest(old(self)).take(LINK_SIZE as int),
            ) is Some),
            r is Ok ==> r->Ok_0@ == ctx_rest(old(self)).take(LINK_SIZE as int)
                && ctx_pos(final(self)) == ctx_pos(old(self)) + LINK_SIZE
                && final(self).sponge@ == sp_from_inner(
                ls_find(store.entries@, ctx_rest(old(self)).take(LINK_SIZE as int))->Some_0.0,
            ),
            ctx_rest(old(self)).len() < LINK_SIZE ==> *final(self) == *old(self) && r == Err::<
                NBytes,
                CodecError,
            >(CodecError::ShortBuffer),
            r is Err && ctx_rest(old(self)).len() >= LINK_SIZE ==> r == Err::<NBytes, CodecError>(
                CodecError::LinkNotFound,
            ) && ctx_pos(final(self)) == ctx_pos(old(self)) + LINK_SIZE && final(self).sponge@ == old(
                self,
            ).sponge@,
    {
        let ghost rest = ctx_rest(old(self));
        let link = self.stream.try_get(LINK_SIZE)?;
        proof {
            assert(link@ =~= rest.take(LINK_SIZE as int));
        }
        let looked = store.lookup(&link);
        match looked {
            Err(_) => Err(CodecError::LinkNotFound),
            Ok((inner, _info)) => {
                self.sponge = Sponge::from_inner(&inner);
                Ok(NBytes(link))
            },
        }
    }

    /// `ntrukem(sk, key)`: read one fixed-size ciphertext, absorb it, and
    /// decapsulate; fails with `NtruDecapFailed` exactly when the
    /// ciphertext's check tag rejects.
    pub fn ntrukem(&mut self, sk: &KemSecretKey) -> (r: Result<NBytes, CodecError>)
        requires
            ctx_wf(old(self)),
        ensures
            ctx_wf(final(self)),
            final(self).stream@.buf == old(self).stream@.buf,
            ctx_rest(old(self)).len() < EKEY_SIZE ==> *final(self) == *old(self) && r == Err::<
                NBytes,
                CodecError,
            >(CodecError::ShortBuffer),
            ctx_rest(old(self)).len() >= EKEY_SIZE ==> ctx_pos(final(self)) == ctx_pos(old(self)) + EKEY_SIZE
                && final(self).sponge@ == sp_absorb(
                old(self).sponge@,
                ctx_rest(old(self)).take(EKEY_SIZE as int),
            ),
            r is Ok <==> (ctx_rest(old(self)).len() >= EKEY_SIZE && kem_decaps_spec(
                sk@,
                ctx_rest(old(self)).take(EKEY_SIZE as int),
            ) is Some),
            r is Ok ==> kem_decaps_spec(sk@, ctx_rest(old(self)).take(EKEY_SIZE as int)) == Some(r->Ok_0@)
                && r->Ok_0@.len() == KEY_SIZE,
            r is Err && ctx_rest(old(self)).len() >= EKEY_SIZE ==> r == Err::<NBytes, CodecError>(
                CodecError::NtruDecapFailed,
            ),
    {
        let ghost rest = ctx_rest(old(self));
        let ct = self.stream.try_get(EKEY_SIZE)?;
        proof {
            assert(ct@ =~= rest.take(EKEY_SIZE as int));
        }
        self.sponge.absorb(&ct);
        let key = decaps(sk, &ct)?;
        Ok(NBytes(key))
    }

    /// `mssig(pk, digest)`: read a signature, absorb it, and verify it;
    /// fails with `BadSignature` exactly when it is not the signature of
    /// `digest` under `pk`.
    pub fn mssig(&mut self, pk: &SigPublicKey, digest: &NBytes) -> (r: Result<(), CodecError>)
        requires
            ctx_wf(old(self)),
        ensures
            ctx_wf(final(self)),
            final(self).stream@.buf == old(self).stream@.buf,
            ctx_rest(old(self)).len() < SIG_SIZE ==> *final(self) == *old(self) && r == Err::<(), CodecError>(
                CodecError::ShortBuffer,
            ),
            ctx_rest(old(self)).len() >= SIG_SIZE ==> ctx_pos(final(self)) == ctx_pos(old(self)) + SIG_SIZE
                && final(self).sponge@ == sp_absorb(
                old(self).sponge@,
                ctx_rest(old(self)).take(SIG_SIZE as int),
            ),
            r is Ok <==> (ctx_rest(old(self)).len() >= SIG_SIZE && ctx_rest(old(self)).take(SIG_SIZE as int)
                == sig_of_spec(pk@, digest@)),
            r is Err && ctx_rest(old(self)).len() >= SIG_SIZE ==> r == Err::<(), CodecError>(
                CodecError::BadSignature,
            ),
    {
        let ghost rest = ctx_rest(old(self));
        let sig = self.stream.try_get(SIG_SIZE)?;
        proof {
            assert(sig@ =~= rest.take(SIG_SIZE as int));
        }
        self.sponge.absorb(&sig);
        if verify(pk, &digest.0, &sig) {
            Ok(())
        } else {
            Err(CodecError::BadSignature)
        }
    }
}

} // verus!
