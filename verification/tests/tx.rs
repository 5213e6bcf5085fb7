use rand::rngs::StdRng;
use rand::SeedableRng;
use shielded_pool::ecc::EdwardsPoint;
use shielded_pool::field::{Fs, Num};
use shielded_pool::note::{to_compressed, to_decompressed, CodecError, Note, NOTE_CHUNKS, NOTE_SIZE};
use shielded_pool::random::{rand_biguint, random_fr, random_fs};
use shielded_pool::tx::{
    derive_key_dk, derive_key_pk_d, derive_key_xsk, dh_prefix, note_decrypt_in, note_decrypt_out,
    note_encrypt, note_hash, nullfifier, parse_delta, prepare_delta, tx_hash, tx_sign, tx_verify,
    xor_crypt, PoolBN256, MESSAGE_SIZE,
};
use shielded_pool::uint::U256;

fn rng(seed: u8) -> StdRng {
    StdRng::from_seed([seed; 32])
}

fn num(x: u64) -> Num {
    Num::from_u64(x)
}

#[test]
fn test_encryption() {
    let params = PoolBN256::new();
    let mut rng = StdRng::from_entropy();
    let esk = random_fs(&mut rng);
    let dk = random_fs(&mut rng);

    let mut note: Note = Note::rand(&mut rng);

    let r_dk = random_fs(&mut rng);
    let r_pk_d = derive_key_pk_d(note.d, r_dk, &params).unwrap().x();
    note.pk_d = r_pk_d;

    let msg = note_encrypt(esk, dk, note, &params).unwrap();
    println!("Msg size: {}", msg.len());

    let note1 = note_decrypt_out(dk, &msg, &params).unwrap();
    let note2 = note_decrypt_in(r_dk, &msg, &params).unwrap();

    assert!(note == note1, "Decryption for sender should be correct");
    assert!(note == note2, "Decryption for receiver should be correct");
}

#[test]
fn encrypted_note_is_156_bytes_and_hides_the_note() {
    let params = PoolBN256::new();
    let mut rng = rng(1);
    let esk = random_fs(&mut rng);
    let dk = random_fs(&mut rng);
    let r_dk = random_fs(&mut rng);
    let mut note = Note::rand(&mut rng);
    note.pk_d = derive_key_pk_d(note.d, r_dk, &params).unwrap().x();
    let msg = note_encrypt(esk, dk, note, &params).unwrap();
    assert_eq!(msg.len(), MESSAGE_SIZE);
    let wire = note.serialize().unwrap();
    assert_ne!(&msg[96..], &wire[..]);
    // The third part is the Keccak-256 digest of the note on the wire.
    let masked = xor_crypt(&[], &[0u8; 32]);
    assert_eq!(masked.len(), 32);
    // Another key reads nothing.
    let other = random_fs(&mut rng);
    assert_eq!(note_decrypt_in(other, &msg, &params), None);
    assert_eq!(note_decrypt_out(other, &msg, &params), None);
    // The receiver's key does not open the sender's copy, nor the other way round.
    assert_eq!(note_decrypt_out(r_dk, &msg, &params), None);
    assert_eq!(note_decrypt_in(dk, &msg, &params), None);
}

#[test]
fn decryption_rejects_wrong_length_and_tampering() {
    let params = PoolBN256::new();
    let mut rng = rng(2);
    let esk = random_fs(&mut rng);
    let dk = random_fs(&mut rng);
    let r_dk = random_fs(&mut rng);
    let mut note = Note::rand(&mut rng);
    note.pk_d = derive_key_pk_d(note.d, r_dk, &params).unwrap().x();
    let msg = note_encrypt(esk, dk, note, &params).unwrap();
    assert_eq!(note_decrypt_in(r_dk, &msg[..155], &params), None);
    let mut longer = msg.clone();
    longer.push(0);
    assert_eq!(note_decrypt_in(r_dk, &longer, &params), None);
    assert_eq!(note_decrypt_in(r_dk, &[], &params), None);
    let mut bad = msg.clone();
    bad[100] ^= 1;
    assert_eq!(note_decrypt_in(r_dk, &bad, &params), None);
    let mut bad = msg.clone();
    bad[70] ^= 1;
    assert_eq!(note_decrypt_out(dk, &bad, &params), None);
    // A key that is not a field element.
    let mut bad = msg.clone();
    for b in bad[0..32].iter_mut() {
        *b = 0xff;
    }
    assert_eq!(note_decrypt_in(r_dk, &bad, &params), None);
    assert_eq!(note_decrypt_out(dk, &bad, &params), Some(note));
}

#[test]
fn encryption_needs_a_point_and_a_wire_form() {
    let params = PoolBN256::new();
    let mut rng = rng(3);
    let esk = random_fs(&mut rng);
    let dk = random_fs(&mut rng);
    let r_dk = random_fs(&mut rng);
    let mut note = Note::rand(&mut rng);
    note.pk_d = derive_key_pk_d(note.d, r_dk, &params).unwrap().x();
    // A value of more than 64 bits has no wire form.
    let mut wide = note;
    wide.v = Num::new(U256 { l0: 0, l1: 1, l2: 0, l3: 0 }).unwrap();
    assert_eq!(note_encrypt(esk, dk, wide, &params), None);
    // The sender's key must have an inverse.
    let zero = Fs::new(U256::zero()).unwrap();
    assert_eq!(note_encrypt(esk, zero, note, &params), None);
    assert!(note_encrypt(esk, dk, note, &params).is_some());
    // Half of all field elements are not the x of a point; find one.
    let mut x = 2u64;
    while EdwardsPoint::subgroup_decompress(&num(x)).is_some() {
        x += 1;
    }
    let mut off = note;
    off.pk_d = num(x);
    assert_eq!(note_encrypt(esk, dk, off, &params), None);
}

#[test]
fn xor_crypt_is_its_own_inverse() {
    let prefix = [7u8; 64];
    let data: Vec<u8> = (0..100u8).collect();
    let masked = xor_crypt(&prefix, &data);
    assert_eq!(masked.len(), data.len());
    assert_ne!(masked, data);
    assert_eq!(xor_crypt(&prefix, &masked), data);
    assert_eq!(xor_crypt(&prefix, &[]), Vec::<u8>::new());
    // The mask of the second block differs from that of the first.
    let zeros = [0u8; 64];
    let mask = xor_crypt(&prefix, &zeros);
    assert_ne!(&mask[..32], &mask[32..]);
    // The first block of the mask is Keccak-256 of the prefix followed by 0.
    let empty_mask = xor_crypt(&[], &[0u8; 32]);
    assert_eq!(
        empty_mask,
        vec![
            0xbc, 0x36, 0x78, 0x9e, 0x7a, 0x1e, 0x28, 0x14, 0x36, 0x46, 0x42, 0x29, 0x82, 0x8f,
            0x81, 0x7d, 0x66, 0x12, 0xf7, 0xb4, 0x77, 0xd6, 0x65, 0x91, 0xff, 0x96, 0xa9, 0xe0,
            0x64, 0xbc, 0xc9, 0x8a
        ]
    );
}

#[test]
fn dh_prefix_is_secret_then_digest() {
    let p = dh_prefix(num(0x0102), &[9, 8, 7]);
    assert_eq!(p.len(), 35);
    assert_eq!(&p[..3], &[2, 1, 0]);
    assert!(p[3..32].iter().all(|b| *b == 0));
    assert_eq!(&p[32..], &[9, 8, 7]);
}

#[test]
fn note_roundtrip() {
    let mut rng = rng(4);
    for _ in 0..20 {
        let note = Note::rand(&mut rng);
        let wire = note.serialize().unwrap();
        assert_eq!(wire.len(), NOTE_SIZE);
        assert_eq!(Note::deserialize(&wire), Ok(note));
        // What follows the note is not read.
        let mut longer = wire.clone();
        longer.extend_from_slice(&[1, 2, 3]);
        assert_eq!(Note::deserialize(&longer), Ok(note));
    }
}

#[test]
fn note_wire_layout() {
    let note = Note { d: num(0x0a0b), pk_d: num(0x0c), v: num(100), st: num(0x0d) };
    let wire = note.serialize().unwrap();
    let mut expected = vec![0u8; 60];
    expected[0] = 0x0b;
    expected[1] = 0x0a;
    expected[10] = 0x0c;
    expected[42] = 100;
    expected[50] = 0x0d;
    assert_eq!(wire, expected);
}

#[test]
fn note_with_high_byte_does_not_serialize() {
    let ok = Note { d: num(1), pk_d: num(2), v: num(3), st: num(4) };
    assert!(ok.serialize().is_ok());
    // 2^80 does not fit ten bytes.
    let two_80 = Num::new(U256 { l0: 0, l1: 1 << 16, l2: 0, l3: 0 }).unwrap();
    let below = Num::new(U256 { l0: u64::MAX, l1: (1 << 16) - 1, l2: 0, l3: 0 }).unwrap();
    let two_64 = Num::new(U256 { l0: 0, l1: 1, l2: 0, l3: 0 }).unwrap();
    assert_eq!(Note { d: two_80, ..ok }.serialize(), Err(CodecError::WrongSerialization));
    assert_eq!(Note { st: two_80, ..ok }.serialize(), Err(CodecError::WrongSerialization));
    assert_eq!(Note { v: two_64, ..ok }.serialize(), Err(CodecError::WrongSerialization));
    assert!(Note { d: below, st: below, v: num(u64::MAX), ..ok }.serialize().is_ok());
    // The transmission key has all 32 bytes.
    let big = Num::new(U256 { l0: 0, l1: 0, l2: 0, l3: 1 << 60 }).unwrap();
    let note = Note { pk_d: big, ..ok };
    assert_eq!(Note::deserialize(&note.serialize().unwrap()), Ok(note));
}

#[test]
fn note_deserialize_errors() {
    assert_eq!(Note::deserialize(&[0u8; 59]), Err(CodecError::TooShort));
    assert_eq!(Note::deserialize(&[]), Err(CodecError::TooShort));
    // A transmission key that is not below the order of the field.
    let mut wire = vec![0u8; 60];
    for b in wire[10..42].iter_mut() {
        *b = 0xff;
    }
    assert_eq!(Note::deserialize(&wire), Err(CodecError::NotInField));
    assert!(Note::deserialize(&[0u8; 60]).is_ok());
}

#[test]
fn codec_errors() {
    let chunks = NOTE_CHUNKS;
    assert_eq!(to_compressed(&[0u8; 127], 32, &chunks), Err(CodecError::WrongLength));
    assert_eq!(to_compressed(&[0u8; 96], 32, &chunks), Err(CodecError::WrongLength));
    assert_eq!(to_compressed(&[0u8; 128], 0, &chunks), Err(CodecError::WrongLength));
    assert_eq!(to_compressed(&[0u8; 8], 2, &chunks), Err(CodecError::WrongLength));
    let mut buf = [0u8; 128];
    buf[10] = 1;
    assert_eq!(to_compressed(&buf, 32, &chunks), Err(CodecError::WrongSerialization));
    buf[10] = 0;
    buf[9] = 1;
    buf[32 + 31] = 2;
    buf[64 + 7] = 3;
    buf[96] = 4;
    let wire = to_compressed(&buf, 32, &chunks).unwrap();
    assert_eq!(wire.len(), 60);
    assert_eq!((wire[9], wire[41], wire[49], wire[50]), (1, 2, 3, 4));
    assert_eq!(to_decompressed(&wire, 32, &chunks), Ok(buf.to_vec()));
    assert_eq!(to_decompressed(&wire[..59], 32, &chunks), Err(CodecError::WrongLength));
    assert_eq!(to_decompressed(&[0u8; 61], 32, &chunks), Err(CodecError::WrongLength));
    assert_eq!(to_decompressed(&wire, 9, &chunks), Err(CodecError::WrongLength));
    assert_eq!(to_decompressed(&[], 32, &[]), Ok(vec![]));
    assert_eq!(to_compressed(&[], 32, &[]), Ok(vec![]));
    assert_eq!(to_decompressed(&[5, 6], 3, &[1, 1]), Ok(vec![5, 0, 0, 6, 0, 0]));
}

#[test]
fn delta_is_twos_complement() {
    assert_eq!(prepare_delta(0), num(0));
    assert_eq!(prepare_delta(100), num(100));
    assert_eq!(prepare_delta(-1), num(u64::MAX));
    assert_eq!(prepare_delta(-100), num(u64::MAX - 99));
    assert_eq!(prepare_delta(i64::MIN), num(1 << 63));
    assert_eq!(prepare_delta(i64::MAX), num((1 << 63) - 1));
    assert_eq!(parse_delta(num(100)), num(100));
    assert_eq!(parse_delta(num((1 << 63) - 1)), num((1 << 63) - 1));
    // -1 in the field is the order less one.
    let minus_one = Num::zero().sub(&num(1));
    assert_eq!(parse_delta(num(u64::MAX)), minus_one);
    assert_eq!(parse_delta(prepare_delta(-100)), Num::zero().sub(&num(100)));
    assert_eq!(parse_delta(num(1 << 63)).add(&num(1 << 63)), Num::zero());
    // Only the low 64 bits count.
    let wide = |l0: u64, l1: u64| Num::new(U256 { l0, l1, l2: 0, l3: 7 }).unwrap();
    assert_eq!(parse_delta(wide(5, 1)), num(5));
    assert_eq!(parse_delta(wide(u64::MAX, 9)), minus_one);
    assert_eq!(parse_delta(wide(1 << 63, 1)), parse_delta(num(1 << 63)));
    assert_eq!(parse_delta(minus_one), num(0x43e1_f593_f000_0000));
}

#[test]
fn signature_verifies_for_its_key_and_message_only() {
    let params = PoolBN256::new();
    let mut rng = rng(5);
    let sk = random_fs(&mut rng);
    let xsk = derive_key_xsk(sk, &params).x();
    let m = random_fr(&mut rng);
    let (s, r) = tx_sign(sk, m, &params);
    assert!(tx_verify(s, r, xsk, m, &params));
    assert!(!tx_verify(s, r, xsk, m.add(&num(1)), &params));
    let other = derive_key_xsk(random_fs(&mut rng), &params).x();
    assert!(!tx_verify(s, r, other, m, &params));
    let (s2, r2) = tx_sign(random_fs(&mut rng), m, &params);
    assert!(!tx_verify(s2, r2, xsk, m, &params));
    assert!(!tx_verify(s2, r, xsk, m, &params));
    // Signing is deterministic.
    assert_eq!(tx_sign(sk, m, &params), (s, r));
}

#[test]
fn hashes_depend_on_every_input_and_on_the_salt() {
    let params = PoolBN256::new();
    let note = Note { d: num(1), pk_d: num(2), v: num(3), st: num(4) };
    let h = note_hash(note, &params);
    assert_ne!(h, num(1));
    assert_eq!(h, note_hash(note, &params));
    assert_ne!(h, note_hash(Note { d: num(2), ..note }, &params));
    assert_ne!(h, note_hash(Note { pk_d: num(3), ..note }, &params));
    assert_ne!(h, note_hash(Note { v: num(4), ..note }, &params));
    assert_ne!(h, note_hash(Note { st: num(5), ..note }, &params));
    let n1 = nullfifier(h, num(9), &params);
    assert_ne!(n1, nullfifier(h, num(10), &params));
    assert_ne!(n1, nullfifier(num(9), h, &params));
    let t = tx_hash(&[num(1), num(2)], &[num(3)], &params);
    assert_eq!(t, tx_hash(&[num(1)], &[num(2), num(3)], &params));
    assert_ne!(t, tx_hash(&[num(1), num(2)], &[num(4)], &params));
    // The two hashes of one element differ by their salt.
    let dk = derive_key_dk(num(7), &params);
    let pk = derive_key_pk_d(num(7), dk, &params).unwrap();
    assert_ne!(pk.x(), num(7));
    assert_ne!(dk.to_uint(), pk.x().to_uint());
}

#[test]
fn keys_are_derived_one_from_the_other() {
    let params = PoolBN256::new();
    let mut rng = rng(6);
    let sk = random_fs(&mut rng);
    let point = derive_key_xsk(sk, &params);
    assert_eq!(point, EdwardsPoint::base_mul(&sk));
    // The public point is in the subgroup, so its x decompresses to a point
    // with that x.
    let p = EdwardsPoint::subgroup_decompress(&point.x()).unwrap();
    assert_eq!(p.x(), point.x());
    let dk = derive_key_dk(point.x(), &params);
    assert_eq!(dk, derive_key_dk(point.x(), &params));
    let pk_d = derive_key_pk_d(num(5), dk, &params).unwrap();
    assert_eq!(pk_d, EdwardsPoint::from_scalar(&num(5)).map(|_| pk_d).unwrap());
    // Multiplication by the inverse undoes multiplication.
    let inv = dk.inverse().unwrap();
    let base = pk_d.mul(&inv);
    assert_eq!(base.mul(&dk), pk_d);
    // The base point times an integer below the order of the scalars is the
    // same, whichever way the integer is given.
    assert_eq!(EdwardsPoint::base_mul_uint(&sk.to_uint()), point);
    assert!(EdwardsPoint::from_scalar(&Num::zero()).is_none());
}

#[test]
fn random_integers_have_at_most_the_bits_asked_for() {
    let mut rng = rng(7);
    let mut seen_high = false;
    for _ in 0..200 {
        let x = rand_biguint(&mut rng, 10);
        assert!(x.l0 < 1024 && x.l1 == 0 && x.l2 == 0 && x.l3 == 0);
        seen_high = seen_high || x.l0 >= 512;
        let y = rand_biguint(&mut rng, 80);
        assert!(y.l1 < (1 << 16) && y.l2 == 0 && y.l3 == 0);
        let z = rand_biguint(&mut rng, 1);
        assert!(z.l0 < 2 && z.l1 == 0);
    }
    assert!(seen_high);
    let w = rand_biguint(&mut rng, 256);
    assert!(w.l3 != 0 || w.l2 != 0);
}

#[test]
fn field_elements_are_reduced() {
    let r = U256 { l0: 0x43e1f593f0000001, l1: 0x2833e84879b97091, l2: 0xb85045b68181585d, l3: 0x30644e72e131a029 };
    let s = U256 { l0: 0x677297dc392126f1, l1: 0xab3eedb83920ee0a, l2: 0x370a08b6d0302b0b, l3: 0x060c89ce5c263405 };
    assert_eq!(shielded_pool::field::fr_modulus_uint(), r);
    assert_eq!(shielded_pool::field::fs_modulus_uint(), s);
    // The order itself is not an element; the order less one is.
    assert!(Num::new(r).is_none());
    assert!(Fs::new(s).is_none());
    let r_less_one = U256 { l0: r.l0 - 1, ..r };
    let s_less_one = U256 { l0: s.l0 - 1, ..s };
    assert_eq!(Num::new(r_less_one).unwrap().to_uint(), r_less_one);
    assert_eq!(Fs::new(s_less_one).unwrap().to_uint(), s_less_one);
    // Reduction takes the remainder.
    assert_eq!(Num::from_uint_reduced(&U256 { l0: r.l0 + 5, ..r }), num(5));
    assert_eq!(Num::from_uint_reduced(&r), num(0));
    assert_eq!(Num::from_uint_reduced(&U256::from_u64(7)), num(7));
    assert_eq!(Fs::from_uint_reduced(&U256 { l0: s.l0 + 3, ..s }).to_uint(), U256::from_u64(3));
    assert_eq!(Fs::from_uint_reduced(&s).to_uint(), U256::zero());
    // 2^256 - 1 = 5 r + (2^256 - 1 - 5 r)
    let max = U256 { l0: u64::MAX, l1: u64::MAX, l2: u64::MAX, l3: u64::MAX };
    let rest = Num::from_uint_reduced(&max);
    assert_eq!(
        rest.to_uint(),
        U256 { l0: 0xac96341c4ffffffa, l1: 0x36fc76959f60cd29, l2: 0x666ea36f7879462e, l3: 0x0e0a77c19a07df2f }
    );
    // Arithmetic wraps around the order.
    let minus_one = Num::new(r_less_one).unwrap();
    assert_eq!(minus_one.add(&num(1)), num(0));
    assert_eq!(minus_one.add(&num(3)), num(2));
    assert_eq!(num(0).sub(&num(1)), minus_one);
    assert_eq!(num(5).sub(&num(3)), num(2));
    assert_eq!(minus_one.mul(&minus_one), num(1));
    assert_eq!(num(6).mul(&num(7)), num(42));
    assert!(num(0).is_zero() && !num(1).is_zero());
    assert_eq!(Num::zero(), num(0));
    assert_eq!(Num::one(), num(1));
    // Inverses in the field of the scalars.
    let three = Fs::new(U256::from_u64(3)).unwrap();
    let inv = three.inverse().unwrap();
    assert_ne!(inv, three);
    assert_eq!(inv.inverse().unwrap(), three);
    assert!(Fs::new(U256::zero()).unwrap().inverse().is_none());
    assert!(Fs::new(U256::zero()).unwrap().is_zero());
}

#[test]
fn hashes_are_not_their_inputs() {
    let params = PoolBN256::new();
    let h = nullfifier(num(1), num(2), &params);
    assert!(h != num(1) && h != num(2) && h != num(0));
    let t = tx_hash(&[num(1)], &[], &params);
    assert!(t != num(1) && t != num(0));
    let dk = derive_key_dk(num(1), &params);
    assert!(dk.to_uint() != U256::from_u64(1) && !dk.is_zero());
    let m = shielded_pool::hash::memo_hash(&[]);
    // Keccak-256 of nothing, as a little-endian integer, reduced.
    let digest: [u8; 32] = [
        0xc5, 0xd2, 0x46, 0x01, 0x86, 0xf7, 0x23, 0x3c, 0x92, 0x7e, 0x7d, 0xb2, 0xdc, 0xc7, 0x03,
        0xc0, 0xe5, 0x00, 0xb6, 0x53, 0xca, 0x82, 0x27, 0x3b, 0x7b, 0xfa, 0xd8, 0x04, 0x5d, 0x85,
        0xa4, 0x70,
    ];
    assert_eq!(m, Num::from_uint_reduced(&U256::from_le_bytes(&digest).unwrap()));
    assert_ne!(m.to_uint(), U256::from_le_bytes(&digest).unwrap());
}

#[test]
fn base_point_of_the_curve() {
    let g = EdwardsPoint::generator();
    assert_eq!(
        g.x().to_uint(),
        U256 { l0: 0x5e63bcacf0483283, l1: 0x06321b9576fb4171, l2: 0x450d8e3087f67a3e, l3: 0x2a82a7ff88466d64 }
    );
    assert_eq!(
        g.y().to_uint(),
        U256 { l0: 0x6e9d4e2ac941045e, l1: 0xb46b649f36e54875, l2: 0x9a0098608f4e2a81, l3: 0x0c5e89ba360222bd }
    );
    let one = Fs::new(U256::from_u64(1)).unwrap();
    let two = Fs::new(U256::from_u64(2)).unwrap();
    assert_eq!(EdwardsPoint::base_mul(&one), g);
    assert_eq!(g.mul(&one), g);
    assert_ne!(g.mul(&two), g);
    assert_eq!(g.mul(&two), g.mul_uint(&U256::from_u64(2)));
    assert_eq!(EdwardsPoint::base_mul_uint(&U256::from_u64(2)), g.mul(&two));
    // The point at infinity is (0, 1).
    let zero = Fs::new(U256::zero()).unwrap();
    assert_eq!(g.mul(&zero).x(), num(0));
    assert_eq!(g.mul(&zero).y(), num(1));
    // A multiple of the order of the scalars gives the same as the remainder.
    let s = shielded_pool::field::fs_modulus_uint();
    assert_eq!(g.mul_uint(&U256 { l0: s.l0 + 2, ..s }), g.mul(&two));
}
