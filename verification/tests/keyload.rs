//! End-to-end keyload scenarios: recipients recover the session key,
//! outsiders fail cleanly, byte counts agree in all three modes, and
//! tampering is caught by a trailing tag.

use ddml::command::sizeof;
use ddml::command::unwrap;
use ddml::command::wrap;
use ddml::errors::CodecError;
use ddml::identifier::Identifier;
use ddml::io::IStream;
use ddml::io::OStream;
use ddml::kem;
use ddml::kem::KemPublicKey;
use ddml::kem::KemSecretKey;
use ddml::keyload::ContentUnwrap;
use ddml::keyload::ContentWrap;
use ddml::linkstore::LinkStore;
use ddml::prng::Prng;
use ddml::sponge::Sponge;
use ddml::types::Mac;
use ddml::types::NBytes;
use ddml::KEY_SIZE;
use ddml::LINK_SIZE;
use ddml::NONCE_SIZE;
use ddml::PSKID_SIZE;
use ddml::PSK_SIZE;

fn setup_store() -> (LinkStore, Vec<u8>) {
    let mut store = LinkStore::new(8);
    let mut prior = Sponge::init();
    prior.absorb(&b"the prior message".to_vec());
    prior.commit();
    let inner = prior.inner_state();
    let link = vec![0xABu8; LINK_SIZE];
    store.update(&link, &inner, &b"info".to_vec()).unwrap();
    (store, link)
}

fn psk_pair(tag: u8) -> (NBytes, NBytes) {
    (NBytes(vec![tag; PSKID_SIZE]), NBytes(vec![tag.wrapping_add(100); PSK_SIZE]))
}

fn kem_pair(tag: u8) -> (KemSecretKey, KemPublicKey, NBytes) {
    let prng = Prng::new(vec![tag; 8]);
    let (sk, pk) = kem::gen_keypair(&prng, &vec![tag; 4]);
    let id = kem::pkid(&pk);
    (sk, pk, NBytes(id))
}

fn wrap_msg(cw: &ContentWrap, store: &LinkStore) -> (Vec<u8>, wrap::Context, usize) {
    let mut sz = sizeof::Context::new();
    cw.sizeof(&mut sz);
    let n = sz.get_size();
    let mut ctx = wrap::Context::new(Sponge::init(), OStream::new(n));
    cw.wrap(store, &mut ctx).unwrap();
    let wire = ctx.stream.written_bytes();
    assert_eq!(wire.len(), n);
    (wire, ctx, n)
}

#[test]
fn single_psk_roundtrip() {
    // One pre-shared recipient, no public keys, an all-zero key and an
    // all-one nonce; the wire bytes are stable across runs.
    let (store, link) = setup_store();
    let (id, psk) = psk_pair(7);
    let cw = ContentWrap {
        link: NBytes(link.clone()),
        nonce: NBytes(vec![1u8; NONCE_SIZE]),
        key: NBytes(vec![0u8; KEY_SIZE]),
        psks: vec![(id.clone(), psk.clone())],
        ntru_pks: vec![],
        prng: Prng::new(b"FIXEDSEED".to_vec()),
    };
    let (wire, mut wctx, _n) = wrap_msg(&cw, &store);
    let cw2 = ContentWrap {
        link: NBytes(link.clone()),
        nonce: NBytes(vec![1u8; NONCE_SIZE]),
        key: NBytes(vec![0u8; KEY_SIZE]),
        psks: vec![(id.clone(), psk.clone())],
        ntru_pks: vec![],
        prng: Prng::new(b"FIXEDSEED".to_vec()),
    };
    let (wire2, _, _) = wrap_msg(&cw2, &store);
    assert_eq!(wire, wire2);

    let mut uc = ContentUnwrap::new(vec![(id, psk)], vec![]);
    let mut uctx = unwrap::Context::new(Sponge::init(), IStream::new(wire));
    uc.unwrap(&store, &mut uctx).unwrap();
    assert!(uc.key_found);
    assert_eq!(uc.key.0, vec![0u8; KEY_SIZE]);
    assert_eq!(uc.nonce.0, vec![1u8; NONCE_SIZE]);
    assert_eq!(uc.link.0, link);
    // Both ends finish in the same sponge state: squeezes of any length
    // agree.
    assert_eq!(wctx.sponge.squeeze(96), uctx.sponge.squeeze(96));
}

#[test]
fn second_of_three_psks() {
    let (store, link) = setup_store();
    let pairs = [psk_pair(1), psk_pair(2), psk_pair(3)];
    let cw = ContentWrap {
        link: NBytes(link),
        nonce: NBytes(vec![9u8; NONCE_SIZE]),
        key: NBytes(vec![0x5Au8; KEY_SIZE]),
        psks: pairs.to_vec(),
        ntru_pks: vec![],
        prng: Prng::new(b"SEED2".to_vec()),
    };
    let (wire, _, _) = wrap_msg(&cw, &store);
    // The unwrapper knows only recipient number two.
    let mut uc = ContentUnwrap::new(vec![pairs[1].clone()], vec![]);
    let mut uctx = unwrap::Context::new(Sponge::init(), IStream::new(wire));
    uc.unwrap(&store, &mut uctx).unwrap();
    assert_eq!(uc.key.0, vec![0x5Au8; KEY_SIZE]);
}

#[test]
fn pk_recipient_after_psk_drain() {
    // Two pre-shared entries the unwrapper cannot read, then two
    // public-key entries; the unwrapper holds the first secret key.
    let (store, link) = setup_store();
    let (sk1, pk1, id1) = kem_pair(21);
    let (_sk2, pk2, _id2) = kem_pair(22);
    let cw = ContentWrap {
        link: NBytes(link),
        nonce: NBytes(vec![4u8; NONCE_SIZE]),
        key: NBytes(vec![0x77u8; KEY_SIZE]),
        psks: vec![psk_pair(11), psk_pair(12)],
        ntru_pks: vec![pk1, pk2],
        prng: Prng::new(b"SEED3".to_vec()),
    };
    let (wire, mut wctx, _) = wrap_msg(&cw, &store);
    let mut uc = ContentUnwrap::new(vec![], vec![(id1, sk1)]);
    let mut uctx = unwrap::Context::new(Sponge::init(), IStream::new(wire));
    uc.unwrap(&store, &mut uctx).unwrap();
    assert_eq!(uc.key.0, vec![0x77u8; KEY_SIZE]);
    assert_eq!(wctx.sponge.squeeze(64), uctx.sponge.squeeze(64));
}

#[test]
fn tampered_key_region_decrypts_wrong_key() {
    let (store, link) = setup_store();
    let (id, psk) = psk_pair(5);
    let cw = ContentWrap {
        link: NBytes(link),
        nonce: NBytes(vec![2u8; NONCE_SIZE]),
        key: NBytes(vec![0x33u8; KEY_SIZE]),
        psks: vec![(id.clone(), psk.clone())],
        ntru_pks: vec![],
        prng: Prng::new(b"SEED4".to_vec()),
    };
    let (mut wire, _, _) = wrap_msg(&cw, &store);
    // Flip one byte inside the masked key region of the single entry:
    // header is link + nonce + a two-byte count, the entry starts with
    // the masked identifier.
    let off = LINK_SIZE + NONCE_SIZE + 2 + PSKID_SIZE;
    wire[off] ^= 0xFF;
    let mut uc = ContentUnwrap::new(vec![(id, psk)], vec![]);
    let mut uctx = unwrap::Context::new(Sponge::init(), IStream::new(wire));
    // Unwrap still succeeds — nothing inside the entry authenticates —
    // but the key is wrong; a following tag check (see the tag test)
    // catches the mismatch.
    uc.unwrap(&store, &mut uctx).unwrap();
    assert_ne!(uc.key.0, vec![0x33u8; KEY_SIZE]);
}

#[test]
fn mac_detects_tamper() {
    let (store, link) = setup_store();
    let (id, psk) = psk_pair(6);
    let cw = ContentWrap {
        link: NBytes(link),
        nonce: NBytes(vec![8u8; NONCE_SIZE]),
        key: NBytes(vec![0x44u8; KEY_SIZE]),
        psks: vec![(id.clone(), psk.clone())],
        ntru_pks: vec![],
        prng: Prng::new(b"SEED5".to_vec()),
    };
    let mut sz = sizeof::Context::new();
    cw.sizeof(&mut sz);
    sz.squeeze_mac(Mac(16));
    let n = sz.get_size();
    let mut wctx = wrap::Context::new(Sponge::init(), OStream::new(n));
    cw.wrap(&store, &mut wctx).unwrap();
    wctx.squeeze_mac(Mac(16)).unwrap();
    let wire = wctx.stream.written_bytes();
    assert_eq!(wire.len(), n);

    // Untampered: the tag verifies.
    let mut uc = ContentUnwrap::new(vec![(id.clone(), psk.clone())], vec![]);
    let mut uctx = unwrap::Context::new(Sponge::init(), IStream::new(wire.clone()));
    uc.unwrap(&store, &mut uctx).unwrap();
    uctx.squeeze_mac(Mac(16)).unwrap();

    // A flipped bit inside the masked key region leaves the unwrap
    // itself none the wiser — it recovers a wrong key — but the tag
    // check fails.
    let entry_key = LINK_SIZE + NONCE_SIZE + 2 + PSKID_SIZE;
    for off in [entry_key, entry_key + 9, entry_key + 31] {
        let mut tampered = wire.clone();
        tampered[off] ^= 0x01;
        let mut uc2 = ContentUnwrap::new(vec![(id.clone(), psk.clone())], vec![]);
        let mut uctx2 = unwrap::Context::new(Sponge::init(), IStream::new(tampered));
        uc2.unwrap(&store, &mut uctx2).unwrap();
        assert_eq!(uctx2.squeeze_mac(Mac(16)), Err(CodecError::BadMac));
    }
    // A bit flipped earlier, in the nonce, derails the recipient scan
    // instead: tampering is still caught, as a failed unwrap.
    let mut tampered = wire;
    tampered[LINK_SIZE + 3] ^= 0x01;
    let mut uc3 = ContentUnwrap::new(vec![(id, psk)], vec![]);
    let mut uctx3 = unwrap::Context::new(Sponge::init(), IStream::new(tampered));
    assert!(uc3.unwrap(&store, &mut uctx3).is_err());
}

#[test]
fn empty_recipient_lists() {
    let (store, link) = setup_store();
    let cw = ContentWrap {
        link: NBytes(link),
        nonce: NBytes(vec![3u8; NONCE_SIZE]),
        key: NBytes(vec![0x11u8; KEY_SIZE]),
        psks: vec![],
        ntru_pks: vec![],
        prng: Prng::new(b"SEED6".to_vec()),
    };
    let (wire, _, n) = wrap_msg(&cw, &store);
    // join + nonce + two one-byte zero counts.
    assert_eq!(n, LINK_SIZE + NONCE_SIZE + 2);
    let mut uc = ContentUnwrap::new(vec![psk_pair(1)], vec![]);
    let mut uctx = unwrap::Context::new(Sponge::init(), IStream::new(wire));
    let r = uc.unwrap(&store, &mut uctx);
    assert!(matches!(r, Err(CodecError::Guard("Key not found"))));
    // The whole message was consumed before the guard fired.
    assert_eq!(uctx.stream.pos, n);
}

#[test]
fn outsider_fails_with_guard() {
    let (store, link) = setup_store();
    let cw = ContentWrap {
        link: NBytes(link),
        nonce: NBytes(vec![6u8; NONCE_SIZE]),
        key: NBytes(vec![0x66u8; KEY_SIZE]),
        psks: vec![psk_pair(31), psk_pair(32)],
        ntru_pks: vec![],
        prng: Prng::new(b"SEED7".to_vec()),
    };
    let (wire, _, n) = wrap_msg(&cw, &store);
    // An unwrapper with an unrelated secret drains everything and fails.
    let mut uc = ContentUnwrap::new(vec![psk_pair(99)], vec![]);
    let mut uctx = unwrap::Context::new(Sponge::init(), IStream::new(wire));
    let r = uc.unwrap(&store, &mut uctx);
    assert!(matches!(r, Err(CodecError::Guard("Key not found"))));
    assert_eq!(uctx.stream.pos, n);
}

#[test]
fn two_recipients_same_key() {
    let (store, link) = setup_store();
    let a = psk_pair(41);
    let b = psk_pair(42);
    let cw = ContentWrap {
        link: NBytes(link),
        nonce: NBytes(vec![7u8; NONCE_SIZE]),
        key: NBytes(vec![0x12u8; KEY_SIZE]),
        psks: vec![a.clone(), b.clone()],
        ntru_pks: vec![],
        prng: Prng::new(b"SEED8".to_vec()),
    };
    let (wire, _, _) = wrap_msg(&cw, &store);
    let mut ua = ContentUnwrap::new(vec![a], vec![]);
    let mut ub = ContentUnwrap::new(vec![b], vec![]);
    let mut ca = unwrap::Context::new(Sponge::init(), IStream::new(wire.clone()));
    let mut cb = unwrap::Context::new(Sponge::init(), IStream::new(wire));
    ua.unwrap(&store, &mut ca).unwrap();
    ub.unwrap(&store, &mut cb).unwrap();
    assert_eq!(ua.key.0, ub.key.0);
    assert_eq!(ua.key.0, vec![0x12u8; KEY_SIZE]);
}

#[test]
fn recipient_order_changes_wire_not_key() {
    let (store, link) = setup_store();
    let a = psk_pair(51);
    let b = psk_pair(52);
    let mk = |psks: Vec<(NBytes, NBytes)>| ContentWrap {
        link: NBytes(link.clone()),
        nonce: NBytes(vec![5u8; NONCE_SIZE]),
        key: NBytes(vec![0x21u8; KEY_SIZE]),
        psks,
        ntru_pks: vec![],
        prng: Prng::new(b"SEED9".to_vec()),
    };
    let (wire_ab, _, _) = wrap_msg(&mk(vec![a.clone(), b.clone()]), &store);
    let (wire_ba, _, _) = wrap_msg(&mk(vec![b.clone(), a.clone()]), &store);
    assert_ne!(wire_ab, wire_ba);
    let mut u1 = ContentUnwrap::new(vec![a], vec![]);
    let mut c1 = unwrap::Context::new(Sponge::init(), IStream::new(wire_ab));
    u1.unwrap(&store, &mut c1).unwrap();
    let mut u2 = ContentUnwrap::new(vec![u1.psks[0].clone()], vec![]);
    let mut c2 = unwrap::Context::new(Sponge::init(), IStream::new(wire_ba));
    u2.unwrap(&store, &mut c2).unwrap();
    assert_eq!(u1.key.0, u2.key.0);
    assert_eq!(u1.key.0, vec![0x21u8; KEY_SIZE]);
}

#[test]
fn unknown_link_is_rejected() {
    let (_store, link) = setup_store();
    let empty_store = LinkStore::new(4);
    let cw = ContentWrap {
        link: NBytes(link),
        nonce: NBytes(vec![1u8; NONCE_SIZE]),
        key: NBytes(vec![0u8; KEY_SIZE]),
        psks: vec![psk_pair(61)],
        ntru_pks: vec![],
        prng: Prng::new(b"SEEDA".to_vec()),
    };
    let mut sz = sizeof::Context::new();
    cw.sizeof(&mut sz);
    let mut wctx = wrap::Context::new(Sponge::init(), OStream::new(sz.get_size()));
    assert_eq!(cw.wrap(&empty_store, &mut wctx), Err(CodecError::LinkNotFound));
}

#[test]
fn wrap_needs_room() {
    let (store, link) = setup_store();
    let cw = ContentWrap {
        link: NBytes(link),
        nonce: NBytes(vec![1u8; NONCE_SIZE]),
        key: NBytes(vec![0u8; KEY_SIZE]),
        psks: vec![psk_pair(62)],
        ntru_pks: vec![],
        prng: Prng::new(b"SEEDB".to_vec()),
    };
    let mut wctx = wrap::Context::new(Sponge::init(), OStream::new(10));
    assert_eq!(cw.wrap(&store, &mut wctx), Err(CodecError::ShortBuffer));
}

#[test]
fn decap_failure_surfaces() {
    let (store, link) = setup_store();
    let (sk1, pk1, id1) = kem_pair(71);
    let cw = ContentWrap {
        link: NBytes(link),
        nonce: NBytes(vec![2u8; NONCE_SIZE]),
        key: NBytes(vec![0x55u8; KEY_SIZE]),
        psks: vec![],
        ntru_pks: vec![pk1],
        prng: Prng::new(b"SEEDC".to_vec()),
    };
    let (mut wire, _, _) = wrap_msg(&cw, &store);
    // Tamper inside the encapsulation ciphertext (past the pkid).
    let off = LINK_SIZE + NONCE_SIZE + 1 + 2 + 16 + 30;
    wire[off] ^= 0x10;
    let mut uc = ContentUnwrap::new(vec![], vec![(id1, sk1)]);
    let mut uctx = unwrap::Context::new(Sponge::init(), IStream::new(wire));
    assert_eq!(uc.unwrap(&store, &mut uctx), Err(CodecError::NtruDecapFailed));
}

#[test]
fn truncated_message_is_short() {
    let (store, link) = setup_store();
    let (id, psk) = psk_pair(81);
    let cw = ContentWrap {
        link: NBytes(link),
        nonce: NBytes(vec![1u8; NONCE_SIZE]),
        key: NBytes(vec![0u8; KEY_SIZE]),
        psks: vec![(id.clone(), psk.clone())],
        ntru_pks: vec![],
        prng: Prng::new(b"SEEDD".to_vec()),
    };
    let (wire, _, _) = wrap_msg(&cw, &store);
    let truncated = wire[..wire.len() - 5].to_vec();
    let mut uc = ContentUnwrap::new(vec![(id, psk)], vec![]);
    let mut uctx = unwrap::Context::new(Sponge::init(), IStream::new(truncated));
    assert_eq!(uc.unwrap(&store, &mut uctx), Err(CodecError::ShortBuffer));
}

#[test]
fn identifier_roundtrip() {
    let prng = Prng::new(b"IDSEED".to_vec());
    let (_sk, pk) = ddml::sig::gen_keypair(&prng, &vec![1u8; 3]);
    let ids = [Identifier::from(pk), Identifier::PskId(vec![9u8; PSKID_SIZE])];
    for id in ids.iter() {
        let mut sz = sizeof::Context::new();
        id.sizeof(&mut sz);
        let n = sz.get_size();
        let mut wctx = wrap::Context::new(Sponge::init(), OStream::new(n));
        id.wrap(&mut wctx).unwrap();
        let wire = wctx.stream.written_bytes();
        assert_eq!(wire.len(), n);
        let mut uctx = unwrap::Context::new(Sponge::init(), IStream::new(wire.clone()));
        let got = Identifier::unwrap_new(&mut uctx).unwrap();
        assert_eq!(got.as_bytes(), id.as_bytes());
        assert_eq!(got.to_bytes(), id.to_bytes());
        let mut uctx_b = unwrap::Context::new(Sponge::init(), IStream::new(wire));
        let mut into = Identifier::default();
        into.unwrap(&mut uctx_b).unwrap();
        assert_eq!(&into, id);
        match id {
            Identifier::EdPubKey(v) => assert_eq!(got.get_pk(), Some(v)),
            Identifier::PskId(_) => assert_eq!(got.get_pk(), None),
        }
    }
    let d = Identifier::default();
    assert_eq!(d.as_bytes(), &vec![0u8; 32]);
}

#[test]
fn identifier_rejects_unknown_tags() {
    // Tag two is reserved, anything above is unknown; all must be
    // rejected with the offending tag.
    for tag in [2u8, 3, 200] {
        let mut wctx = wrap::Context::new(Sponge::init(), OStream::new(40));
        wctx.mask_uint8(ddml::types::Uint8(tag)).unwrap();
        wctx.mask_nbytes(&NBytes(vec![0u8; 32])).unwrap();
        let wire = wctx.stream.written_bytes();
        let mut uctx = unwrap::Context::new(Sponge::init(), IStream::new(wire));
        assert_eq!(Identifier::unwrap_new(&mut uctx), Err(CodecError::BadOneof(tag)));
    }
}

#[test]
fn keyload_type_string() {
    assert_eq!(ddml::keyload::TYPE, "STREAMS9CHANNEL9KEYLOAD");
}

#[test]
fn store_capacity_and_erase() {
    let mut store = LinkStore::new(1);
    let inner = Sponge::init().inner_state();
    store.update(&vec![1u8; LINK_SIZE], &inner, &vec![]).unwrap();
    // Replacing the same link is fine; a second link is not.
    store.update(&vec![1u8; LINK_SIZE], &inner, &b"x".to_vec()).unwrap();
    assert_eq!(store.update(&vec![2u8; LINK_SIZE], &inner, &vec![]), Err(CodecError::Full));
    store.erase(&vec![1u8; LINK_SIZE]);
    store.update(&vec![2u8; LINK_SIZE], &inner, &vec![]).unwrap();
    assert!(store.lookup(&vec![1u8; LINK_SIZE]).is_err());
    assert!(store.lookup(&vec![2u8; LINK_SIZE]).is_ok());
}
