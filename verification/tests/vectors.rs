use spritz::Spritz;

#[test]
fn it_works() {
    let mut sp = Spritz::new(b"ABC");
    let v = vec![0x77, 0x9a, 0x8e, 0x01, 0xf9, 0xe9, 0xcb, 0xc0];
    let mut res = vec![];
    for _ in &v {
        res.push(sp.drip());
    }
    assert_eq!(res, v);

    let mut sp = Spritz::new(b"spam");
    let v = vec![0xf0, 0x60, 0x9a, 0x1d, 0xf1, 0x43, 0xce, 0xbf];
    let mut res = vec![];
    for _ in &v {
        res.push(sp.drip());
    }
    assert_eq!(res, v);

    let mut sp = Spritz::new(b"arcfour");
    let v = vec![0x1a, 0xfa, 0x8b, 0x5e, 0xe3, 0x37, 0xdb, 0xc7];
    let mut res = vec![];
    for _ in &v {
        res.push(sp.drip());
    }
    assert_eq!(res, v);

    // hashing test vectors

    let h = Spritz::hash256(b"ABC");
    let v = vec![0x02, 0x8f, 0xa2, 0xb4, 0x8b, 0x93, 0x4a, 0x18];
    assert_eq!(&h[..8], &v[..]);

    let h = Spritz::hash256(b"spam");
    let v = vec![0xac, 0xbb, 0xa0, 0x81, 0x3f, 0x30, 0x0d, 0x3a];
    assert_eq!(&h[..8], &v[..]);

    let h = Spritz::hash256(b"arcfour");
    let v = vec![0xff, 0x8c, 0xf2, 0x68, 0x09, 0x4c, 0x87, 0xb9];
    assert_eq!(&h[..8], &v[..]);
}

#[test]
fn keystream_vectors_via_xor_of_zeros() {
    // The keystream combined with zeros is the keystream itself.
    let cases: Vec<(&[u8], Vec<u8>)> = vec![
        (b"ABC", vec![0x77, 0x9a, 0x8e, 0x01, 0xf9, 0xe9, 0xcb, 0xc0]),
        (b"spam", vec![0xf0, 0x60, 0x9a, 0x1d, 0xf1, 0x43, 0xce, 0xbf]),
        (b"arcfour", vec![0x1a, 0xfa, 0x8b, 0x5e, 0xe3, 0x37, 0xdb, 0xc7]),
    ];
    for (key, expected) in cases {
        let mut sp = Spritz::new(key);
        let mut dst = vec![0u8; 8];
        let src = vec![0u8; 8];
        let r = sp.xor_key_stream(&mut dst, &src);
        assert!(r.is_ok());
        assert_eq!(dst, expected);
    }
}

#[test]
fn digest_is_32_bytes() {
    assert_eq!(Spritz::hash256(b"ABC").len(), 32);
    assert_eq!(Spritz::hash256(b"").len(), 32);
}
