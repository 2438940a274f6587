//! Sponge laws and the key-encapsulation and signing placeholders, as
//! seen through the operator layer.

use ddml::command::sizeof;
use ddml::command::unwrap;
use ddml::command::wrap;
use ddml::errors::CodecError;
use ddml::io::IStream;
use ddml::io::OStream;
use ddml::kem;
use ddml::prng::Prng;
use ddml::sig;
use ddml::sponge::Sponge;
use ddml::types::Bytes;
use ddml::types::NBytes;
use ddml::KEY_SIZE;

#[test]
fn mssig() {
    let prng = Prng::new(b"TESTPRNGKEY".to_vec());
    let (sk, pk) = sig::gen_keypair(&prng, &vec![3u8; 8]);
    let payload = Bytes(b"PAYLOADPAYLOADPAYLOAD".to_vec());

    let mut sz = sizeof::Context::new();
    sz.absorb_bytes(&payload);
    sz.commit();
    sz.squeeze_external_nbytes(32);
    sz.commit();
    sz.mssig();
    let buf_size = sz.get_size();

    let mut wctx = wrap::Context::new(Sponge::init(), OStream::new(buf_size));
    wctx.absorb_bytes(&payload).unwrap();
    wctx.commit();
    let hash = wctx.squeeze_external_nbytes(32);
    wctx.commit();
    wctx.mssig(&sk, &hash).unwrap();
    let buf = wctx.stream.written_bytes();
    assert_eq!(buf.len(), buf_size);

    let mut uctx = unwrap::Context::new(Sponge::init(), IStream::new(buf.clone()));
    let payload2 = uctx.absorb_bytes().unwrap();
    uctx.commit();
    let hash2 = uctx.squeeze_external_nbytes(32);
    uctx.commit();
    uctx.mssig(&pk, &hash2).unwrap();
    assert_eq!(payload.0, payload2.0);
    assert_eq!(hash.0, hash2.0);

    // A flipped signature byte is rejected.
    let mut tampered = buf;
    let last = tampered.len() - 1;
    tampered[last] ^= 0x01;
    let mut uctx2 = unwrap::Context::new(Sponge::init(), IStream::new(tampered));
    let _ = uctx2.absorb_bytes().unwrap();
    uctx2.commit();
    let hash3 = uctx2.squeeze_external_nbytes(32);
    uctx2.commit();
    assert_eq!(uctx2.mssig(&pk, &hash3), Err(CodecError::BadSignature));
}

#[test]
fn ntrukem() {
    let prng = Prng::new(b"TESTPRNGKEY".to_vec());
    let (sk, pk) = kem::gen_keypair(&prng, &vec![0u8; 15]);
    let payload = Bytes(b"PAYLOADPAYLOADPAYLOAD".to_vec());
    let key = NBytes(prng.gen(&vec![1u8; 4], KEY_SIZE));
    let nonce = vec![5u8; 17];

    let mut sz = sizeof::Context::new();
    sz.absorb_bytes(&payload);
    sz.commit();
    sz.ntrukem();
    let buf_size = sz.get_size();

    let mut wctx = wrap::Context::new(Sponge::init(), OStream::new(buf_size));
    wctx.absorb_bytes(&payload).unwrap();
    wctx.commit();
    wctx.ntrukem(&pk, &prng, &nonce, &key).unwrap();
    let buf = wctx.stream.written_bytes();
    assert_eq!(buf.len(), buf_size);

    let mut uctx = unwrap::Context::new(Sponge::init(), IStream::new(buf));
    let payload2 = uctx.absorb_bytes().unwrap();
    uctx.commit();
    let key2 = uctx.ntrukem(&sk).unwrap();
    assert_eq!(payload.0, payload2.0);
    assert_eq!(key.0, key2.0);
}

#[test]
fn kem_rejects_tampered_ciphertext() {
    let prng = Prng::new(b"SEED".to_vec());
    let (sk, pk) = kem::gen_keypair(&prng, &vec![1u8; 3]);
    let key = vec![0x42u8; KEY_SIZE];
    let eph = vec![7u8; 16];
    let mut ct = kem::encaps(&pk, &key, &eph);
    assert_eq!(kem::decaps(&sk, &ct).unwrap(), key);
    ct[20] ^= 0x80;
    assert_eq!(kem::decaps(&sk, &ct), Err(CodecError::NtruDecapFailed));
}

#[test]
fn commit_is_idempotent() {
    let mut one = Sponge::init();
    one.absorb(&b"some data".to_vec());
    let mut two = one.fork();
    one.commit();
    two.commit();
    two.commit();
    assert_eq!(one.squeeze(64), two.squeeze(64));
}

#[test]
fn fork_isolates_parent() {
    // Drive one context through a fork whose body masks data, and a
    // twin context not at all: after restore the parents agree.
    let mut a = wrap::Context::new(Sponge::init(), OStream::new(64));
    let mut b = wrap::Context::new(Sponge::init(), OStream::new(64));
    let parent = a.fork();
    a.mask_nbytes(&NBytes(vec![9u8; 40])).unwrap();
    a.commit();
    a.restore(parent);
    let ta = a.squeeze_external_nbytes(48);
    let tb = b.squeeze_external_nbytes(48);
    assert_eq!(ta.0, tb.0);
    // The fork body's bytes still reached the stream.
    assert_eq!(a.stream.written_bytes().len(), 40);
    assert_eq!(b.stream.written_bytes().len(), 0);
}

#[test]
fn external_absorb_moves_no_bytes() {
    let v = NBytes(vec![3u8; 21]);
    let mut wctx = wrap::Context::new(Sponge::init(), OStream::new(8));
    wctx.absorb_external_nbytes(&v);
    assert_eq!(wctx.stream.written_bytes().len(), 0);
    let mut uctx = unwrap::Context::new(Sponge::init(), IStream::new(vec![1u8, 2, 3]));
    uctx.absorb_external_nbytes(&v);
    assert_eq!(uctx.stream.pos, 0);
    // Identical sponge deltas on both sides.
    let tw = wctx.squeeze_external_nbytes(32);
    let tu = uctx.squeeze_external_nbytes(32);
    assert_eq!(tw.0, tu.0);
}

#[test]
fn mask_roundtrip_and_state_parity() {
    let p = b"attack at dawn, then at noon, then rest".to_vec();
    let mut enc = Sponge::init();
    enc.absorb(&b"context".to_vec());
    enc.commit();
    let mut dec = enc.fork();
    let c = enc.encrypt(&p);
    assert_ne!(c, p);
    let p2 = dec.decrypt(&c);
    assert_eq!(p, p2);
    assert_eq!(enc.squeeze(64), dec.squeeze(64));
}

#[test]
fn prng_is_deterministic() {
    let a = Prng::new(b"SEED".to_vec());
    let b = Prng::new(b"SEED".to_vec());
    assert_eq!(a.gen(&vec![1u8, 2], 40), b.gen(&vec![1u8, 2], 40));
    assert_ne!(a.gen(&vec![1u8, 2], 40), a.gen(&vec![1u8, 3], 40));
}
