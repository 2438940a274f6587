//! Operator-level round trips: size, wrap and unwrap modes agree on
//! byte counts, values survive the trip, and both ends squeeze the same
//! tags.

use ddml::command::sizeof;
use ddml::command::unwrap;
use ddml::command::wrap;
use ddml::errors::CodecError;
use ddml::io::IStream;
use ddml::io::NoIStream;
use ddml::io::NoOStream;
use ddml::io::OStream;
use ddml::prng::Prng;
use ddml::sponge::Sponge;
use ddml::types::size_encode;
use ddml::types::Bytes;
use ddml::types::Mac;
use ddml::types::NBytes;
use ddml::types::Size;
use ddml::types::Uint8;

#[test]
fn trint3() {
    for t in 0u8..=255u8 {
        let mut sz = sizeof::Context::new();
        sz.absorb_uint8();
        sz.mask_uint8();
        assert_eq!(sz.get_size(), 2);

        let mut wctx = wrap::Context::new(Sponge::init(), OStream::new(2));
        wctx.commit();
        wctx.absorb_uint8(Uint8(t)).unwrap();
        wctx.mask_uint8(Uint8(t)).unwrap();
        wctx.commit();
        let tag_wrap = wctx.squeeze_external_nbytes(32);
        let buf = wctx.stream.written_bytes();
        assert_eq!(buf.len(), 2);

        let mut uctx = unwrap::Context::new(Sponge::init(), IStream::new(buf));
        uctx.commit();
        let t2 = uctx.absorb_uint8().unwrap();
        let t3 = uctx.mask_uint8().unwrap();
        uctx.commit();
        let tag_unwrap = uctx.squeeze_external_nbytes(32);

        assert_eq!(t2.0, t);
        assert_eq!(t3.0, t);
        assert_eq!(tag_wrap.0, tag_unwrap.0);
    }
}

#[test]
fn size() {
    let ns: [usize; 16] = [
        0,
        1,
        13,
        14,
        25,
        26,
        27,
        39,
        40,
        81,
        9840,
        9841,
        9842,
        19683,
        usize::MAX - 1,
        usize::MAX,
    ];
    for n in ns.iter() {
        let s = Size(*n);
        let mut sz = sizeof::Context::new();
        sz.absorb_size(s);
        sz.mask_size(s);
        let buf_size = sz.get_size();

        let mut wctx = wrap::Context::new(Sponge::init(), OStream::new(buf_size));
        wctx.commit();
        wctx.absorb_size(s).unwrap();
        wctx.mask_size(s).unwrap();
        wctx.commit();
        let tag_wrap = wctx.squeeze_external_nbytes(32);
        let buf = wctx.stream.written_bytes();
        assert_eq!(buf.len(), buf_size);

        let mut uctx = unwrap::Context::new(Sponge::init(), IStream::new(buf));
        uctx.commit();
        let s2 = uctx.absorb_size().unwrap();
        let s3 = uctx.mask_size().unwrap();
        uctx.commit();
        let tag_unwrap = uctx.squeeze_external_nbytes(32);

        assert_eq!(s2.0, *n);
        assert_eq!(s3.0, *n);
        assert_eq!(tag_wrap.0, tag_unwrap.0);
    }
}

#[test]
fn trytes() {
    let ns: [usize; 10] = [0, 3, 240, 243, 246, 483, 486, 489, 1002, 2001];
    let prng = Prng::new(b"TESTPRNGKEY".to_vec());
    let mut nonce_byte = 0u8;
    for n in ns.iter() {
        let mut fresh = || {
            nonce_byte = nonce_byte.wrapping_add(1);
            prng.gen(&vec![nonce_byte], *n)
        };
        let ta = Bytes(fresh());
        let nta = NBytes(fresh());
        let enta = NBytes(fresh());
        let tm = Bytes(fresh());
        let ntm = NBytes(fresh());
        let mac = Mac(*n);

        let mut sz = sizeof::Context::new();
        sz.commit();
        sz.absorb_bytes(&ta);
        sz.absorb_nbytes(&nta);
        sz.absorb_external_nbytes(&enta);
        sz.commit();
        sz.mask_bytes(&tm);
        sz.mask_nbytes(&ntm);
        sz.commit();
        sz.squeeze_external_nbytes(*n);
        sz.squeeze_mac(mac);
        sz.commit();
        let buf_size = sz.get_size();

        let mut wctx = wrap::Context::new(Sponge::init(), OStream::new(buf_size));
        wctx.commit();
        wctx.absorb_bytes(&ta).unwrap();
        wctx.absorb_nbytes(&nta).unwrap();
        wctx.absorb_external_nbytes(&enta);
        wctx.commit();
        wctx.mask_bytes(&tm).unwrap();
        wctx.mask_nbytes(&ntm).unwrap();
        wctx.commit();
        let ents = wctx.squeeze_external_nbytes(*n);
        wctx.squeeze_mac(mac).unwrap();
        wctx.commit();
        let tag_wrap = wctx.squeeze_external_nbytes(81);
        let buf = wctx.stream.written_bytes();
        assert_eq!(buf.len(), buf_size);

        let mut uctx = unwrap::Context::new(Sponge::init(), IStream::new(buf));
        uctx.commit();
        let ta2 = uctx.absorb_bytes().unwrap();
        let nta2 = uctx.absorb_nbytes(*n).unwrap();
        uctx.absorb_external_nbytes(&enta);
        uctx.commit();
        let tm2 = uctx.mask_bytes().unwrap();
        let ntm2 = uctx.mask_nbytes(*n).unwrap();
        uctx.commit();
        let ents2 = uctx.squeeze_external_nbytes(*n);
        uctx.squeeze_mac(mac).unwrap();
        uctx.commit();
        let tag_unwrap = uctx.squeeze_external_nbytes(81);

        assert_eq!(ta.0, ta2.0);
        assert_eq!(nta.0, nta2.0);
        assert_eq!(tm.0, tm2.0);
        assert_eq!(ntm.0, ntm2.0);
        assert_eq!(ents.0, ents2.0);
        assert_eq!(tag_wrap.0, tag_unwrap.0);
    }
}

#[test]
fn wrap_unwrap() {
    let x = b"ABC".to_vec();
    let mut s = Sponge::init();
    let mut os = OStream::new(x.len());
    os.try_put(&x).unwrap();
    s.absorb(&x);
    let tag = s.squeeze(81);
    let buf = os.written_bytes();

    let mut s2 = Sponge::init();
    let mut is = IStream::new(buf);
    let y = is.try_get(x.len()).unwrap();
    s2.absorb(&y);
    let tag2 = s2.squeeze(81);

    assert_eq!(x, y);
    assert_eq!(tag, tag2);
}

#[test]
fn size_prefix_exact() {
    assert_eq!(size_encode(0), vec![0u8]);
    assert_eq!(size_encode(1), vec![1u8, 1]);
    assert_eq!(size_encode(255), vec![1u8, 255]);
    assert_eq!(size_encode(256), vec![2u8, 1, 0]);
    assert_eq!(size_encode(0x0102_0304), vec![4u8, 1, 2, 3, 4]);
}

#[test]
fn bad_size_prefix() {
    // A count byte above eight is malformed.
    let mut uctx = unwrap::Context::new(Sponge::init(), IStream::new(vec![9u8, 0, 0, 0, 0, 0, 0, 0, 0, 0]));
    assert_eq!(uctx.skip_size(), Err(CodecError::BadSize));
}

#[test]
fn short_buffer_read() {
    let mut uctx = unwrap::Context::new(Sponge::init(), IStream::new(vec![1u8, 2, 3]));
    assert!(matches!(uctx.absorb_nbytes(4), Err(CodecError::ShortBuffer)));
    // The failed read consumed nothing.
    let ok = uctx.absorb_nbytes(3).unwrap();
    assert_eq!(ok.0, vec![1u8, 2, 3]);
}

#[test]
fn short_buffer_write() {
    let mut wctx = wrap::Context::new(Sponge::init(), OStream::new(2));
    let r = wctx.absorb_nbytes(&NBytes(vec![1u8, 2, 3]));
    assert_eq!(r, Err(CodecError::ShortBuffer));
}

#[test]
fn skip_moves_bytes_without_sponge() {
    let v = NBytes(vec![0xEEu8; 12]);
    let mut wctx = wrap::Context::new(Sponge::init(), OStream::new(12));
    wctx.skip_nbytes(&v).unwrap();
    let wire = wctx.stream.written_bytes();
    assert_eq!(wire, v.0);
    let mut uctx = unwrap::Context::new(Sponge::init(), IStream::new(wire));
    let got = uctx.skip_nbytes(12).unwrap();
    assert_eq!(got.0, v.0);
    // Neither sponge was touched: both still squeeze like a fresh one.
    let mut fresh_w = Sponge::init();
    let mut fresh_u = Sponge::init();
    assert_eq!(wctx.squeeze_external_nbytes(32).0, fresh_w.squeeze(32));
    assert_eq!(uctx.squeeze_external_nbytes(32).0, fresh_u.squeeze(32));
}

#[test]
fn no_streams_always_fail() {
    let mut no_out = NoOStream;
    let mut no_in = NoIStream;
    assert_eq!(no_out.try_advance(0), Err(CodecError::ShortBuffer));
    assert_eq!(no_in.try_advance(1), Err(CodecError::ShortBuffer));
    no_out.commit();
    no_in.commit();
}
