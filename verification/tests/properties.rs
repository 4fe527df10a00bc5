use spritz::Spritz;
use spritz::SpritzError;

fn draw(sp: &mut Spritz, n: usize) -> Vec<u8> {
    let mut out = Vec::with_capacity(n);
    for _ in 0..n {
        out.push(sp.drip());
    }
    out
}

fn assert_table_is_permutation(sp: &Spritz) {
    let snapshot = sp.table();
    assert_eq!(snapshot.len(), 256);
    let mut seen = [0usize; 256];
    for &b in snapshot {
        seen[b as usize] += 1;
    }
    for (value, &count) in seen.iter().enumerate() {
        assert_eq!(count, 1, "value {} appears {} times", value, count);
    }
}

#[test]
fn keystream_is_deterministic() {
    let mut first = Spritz::new(b"a fixed key");
    let mut second = Spritz::new(b"a fixed key");
    assert_eq!(draw(&mut first, 64), draw(&mut second, 64));

    let mut third = Spritz::new(b"");
    let mut fourth = Spritz::new(b"");
    assert_eq!(draw(&mut third, 16), draw(&mut fourth, 16));
}

#[test]
fn keystream_streams_across_split_draws() {
    let mut whole = Spritz::new(b"split");
    let mut pieces = Spritz::new(b"split");
    let all = draw(&mut whole, 8);
    let mut glued = draw(&mut pieces, 3);
    glued.extend(draw(&mut pieces, 5));
    assert_eq!(all, glued);
}

#[test]
fn xor_streams_across_split_calls() {
    let plain: Vec<u8> = (0u8..=15).collect();

    let mut one_call = Spritz::new(b"stream key");
    let mut whole = vec![0u8; 16];
    assert!(one_call.xor_key_stream(&mut whole, &plain).is_ok());

    let mut two_calls = Spritz::new(b"stream key");
    let mut head = vec![0u8; 7];
    let mut tail = vec![0u8; 9];
    assert!(two_calls.xor_key_stream(&mut head, &plain[..7]).is_ok());
    assert!(two_calls.xor_key_stream(&mut tail, &plain[7..]).is_ok());
    head.extend(tail);
    assert_eq!(whole, head);
}

#[test]
fn xor_roundtrip_restores_plaintext() {
    let plain = b"attack at dawn".to_vec();
    let mut enc = Spritz::new(b"shared key");
    let mut cipher = vec![0u8; plain.len()];
    assert!(enc.xor_key_stream(&mut cipher, &plain).is_ok());
    assert_ne!(cipher, plain);

    let mut dec = Spritz::new(b"shared key");
    let mut recovered = vec![0u8; cipher.len()];
    assert!(dec.xor_key_stream(&mut recovered, &cipher).is_ok());
    assert_eq!(recovered, plain);
}

#[test]
fn digest_deterministic_and_distinct() {
    assert_eq!(Spritz::hash256(b"ABC"), Spritz::hash256(b"ABC"));
    assert_eq!(Spritz::hash256(b""), Spritz::hash256(b""));
    assert_ne!(Spritz::hash256(b"ABC"), Spritz::hash256(b"spam"));
    assert_ne!(Spritz::hash256(b"ABC"), Spritz::hash256(b"ABD"));
    assert_ne!(Spritz::hash256(b""), Spritz::hash256(b" "));
}

#[test]
fn length_mismatch_rejected_without_any_effect() {
    let mut sp = Spritz::new(b"key");
    let mut dst = vec![9u8, 9, 9];
    let src = vec![1u8, 2, 3, 4];
    assert_eq!(sp.xor_key_stream(&mut dst, &src), Err(SpritzError::LengthMismatch));
    // The destination was not touched.
    assert_eq!(dst, vec![9u8, 9, 9]);
    // The engine state was not touched either: the keystream continues as
    // if the failed call had never happened.
    let mut fresh = Spritz::new(b"key");
    assert_eq!(draw(&mut sp, 8), draw(&mut fresh, 8));
}

#[test]
fn length_mismatch_other_direction() {
    let mut sp = Spritz::new(b"key");
    let mut dst = vec![0u8; 4];
    assert_eq!(sp.xor_key_stream(&mut dst, &[1u8]), Err(SpritzError::LengthMismatch));
    assert_eq!(dst, vec![0u8; 4]);
}

#[test]
fn empty_buffers_are_a_valid_xor_call() {
    let mut sp = Spritz::new(b"key");
    let mut dst: Vec<u8> = vec![];
    assert_eq!(sp.xor_key_stream(&mut dst, &[]), Ok(()));
    assert!(dst.is_empty());
}

#[test]
fn hash_rejects_length_over_one_byte() {
    assert_eq!(Spritz::hash(b"msg", 256), Err(SpritzError::DigestTooLong));
    assert_eq!(Spritz::hash(b"msg", 1000), Err(SpritzError::DigestTooLong));
}

#[test]
fn hash_at_32_matches_hash256() {
    let digest = Spritz::hash(b"some message", 32).unwrap();
    assert_eq!(digest, Spritz::hash256(b"some message"));
}

#[test]
fn hash_lengths_give_unrelated_digests() {
    // A shorter requested length is not a prefix of a longer one: the
    // absorbed length byte differs, so the streams are unrelated.
    let short = Spritz::hash(b"msg", 16).unwrap();
    let long = Spritz::hash(b"msg", 32).unwrap();
    assert_eq!(short.len(), 16);
    assert_eq!(long.len(), 32);
    assert_ne!(&long[..16], &short[..]);

    let empty = Spritz::hash(b"msg", 0).unwrap();
    assert!(empty.is_empty());
}

#[test]
fn table_stays_a_permutation() {
    // Freshly keyed engines, including keys long enough to force shuffles
    // during absorption.
    assert_table_is_permutation(&Spritz::new(b""));
    assert_table_is_permutation(&Spritz::new(b"ABC"));
    let long_key = vec![0xa5u8; 300];
    assert_table_is_permutation(&Spritz::new(&long_key));

    // After drawing keystream bytes.
    let mut sp = Spritz::new(b"ABC");
    draw(&mut sp, 1);
    assert_table_is_permutation(&sp);
    draw(&mut sp, 100);
    assert_table_is_permutation(&sp);

    // After exclusive-or operations and interleaved draws.
    let mut dst = vec![0u8; 40];
    let src = vec![0x5au8; 40];
    assert!(sp.xor_key_stream(&mut dst, &src).is_ok());
    assert_table_is_permutation(&sp);
    draw(&mut sp, 3);
    assert_table_is_permutation(&sp);
}
