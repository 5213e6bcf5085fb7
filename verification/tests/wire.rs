use shielded_pool::field::Num;
use shielded_pool::groth16::{Proof, VK};
use shielded_pool::pool::TransferAndUpdateRoot;
use shielded_pool::transfer::TransferPub;
use shielded_pool::uint::U256;
use shielded_pool::wire::{read_words, write_words, WireError};

fn n(x: u64) -> U256 {
    U256::from_u64(x)
}

fn sample_proof() -> Proof {
    Proof { a: [n(1), n(2)], b: [n(3), n(4), n(5), n(6)], c: [n(7), U256 { l0: 8, l1: 9, l2: 10, l3: 11 }] }
}

fn sample_vk(points: u64) -> VK {
    VK {
        alpha: [n(1), n(2)],
        beta: [n(3), n(4), n(5), n(6)],
        gamma: [n(7), n(8), n(9), n(10)],
        delta: [n(11), n(12), n(13), n(14)],
        ic: (0..points).map(|i| [n(100 + 2 * i), n(101 + 2 * i)]).collect(),
    }
}

fn sample_tx(message: Vec<u8>) -> TransferAndUpdateRoot {
    TransferAndUpdateRoot {
        root: n(1),
        nullifier: [n(2), n(3), n(4), n(5), n(6), n(7)],
        out_hash: [n(8), n(9)],
        delta: n(10),
        memo: n(11),
        message,
        before_root: n(12),
        after_root: n(13),
    }
}

#[test]
fn u256_is_32_little_endian_bytes() {
    let x = U256 { l0: 0x0807060504030201, l1: 0x100f0e0d0c0b0a09, l2: 0, l3: 0xff00000000000000 };
    let bytes = x.to_le_bytes();
    assert_eq!(bytes.len(), 32);
    assert_eq!(&bytes[..16], &[1, 2, 3, 4, 5, 6, 7, 8, 9, 10, 11, 12, 13, 14, 15, 16]);
    assert!(bytes[16..31].iter().all(|b| *b == 0));
    assert_eq!(bytes[31], 0xff);
    assert_eq!(U256::from_le_bytes(&bytes), Some(x));
    assert_eq!(U256::from_le_bytes(&bytes[..31]), None);
    assert_eq!(U256::from_le_bytes(&[]), None);
    assert_eq!(x.to_u64(), None);
    assert_eq!(n(77).to_u64(), Some(77));
    assert!(n(1).lt(&x) && !x.lt(&n(1)) && !x.lt(&x));
    assert!(U256 { l0: 9, l1: 0, l2: 0, l3: 0 }.lt(&U256 { l0: 0, l1: 1, l2: 0, l3: 0 }));
    assert!(U256::zero().is_zero() && !x.is_zero());
    assert_eq!(U256::from_limbs(&x.to_limbs()), x);
}

#[test]
fn words_are_written_one_after_the_other() {
    let mut out = vec![0xaa];
    write_words(&mut out, &[n(1), n(2)]);
    assert_eq!(out.len(), 65);
    assert_eq!((out[0], out[1], out[33]), (0xaa, 1, 2));
    assert_eq!(read_words(&out, 1, 2), vec![n(1), n(2)]);
    assert_eq!(read_words(&out, 33, 1), vec![n(2)]);
    assert_eq!(read_words(&out, 65, 0), Vec::<U256>::new());
}

#[test]
fn proof_roundtrip() {
    let p = sample_proof();
    let bytes = p.serialize();
    assert_eq!(bytes.len(), 256);
    assert_eq!((bytes[0], bytes[32], bytes[64], bytes[192], bytes[224], bytes[232]), (1, 2, 3, 7, 8, 9));
    let q = Proof::deserialize(&bytes).unwrap();
    assert_eq!((q.a, q.b, q.c), (p.a, p.b, p.c));
    assert_eq!(Proof::deserialize(&bytes[..255]).err(), Some(WireError::WrongLength));
    let mut longer = bytes.clone();
    longer.push(0);
    assert_eq!(Proof::deserialize(&longer).err(), Some(WireError::WrongLength));
}

#[test]
fn vk_roundtrip() {
    for points in [0u64, 1, 4] {
        let vk = sample_vk(points);
        let bytes = vk.serialize().unwrap();
        assert_eq!(bytes.len() as u64, 448 + 4 + 64 * points);
        assert_eq!(&bytes[448..452], &(points as u32).to_le_bytes());
        let back = VK::deserialize(&bytes).unwrap();
        assert_eq!((back.alpha, back.beta, back.gamma, back.delta), (vk.alpha, vk.beta, vk.gamma, vk.delta));
        assert_eq!(back.ic, vk.ic);
    }
    let bytes = sample_vk(2).serialize().unwrap();
    assert_eq!(VK::deserialize(&bytes[..bytes.len() - 1]).err(), Some(WireError::WrongLength));
    assert_eq!(VK::deserialize(&bytes[..451]).err(), Some(WireError::WrongLength));
    let mut wrong_count = bytes.clone();
    wrong_count[448] = 3;
    assert_eq!(VK::deserialize(&wrong_count).err(), Some(WireError::WrongLength));
}

#[test]
fn submission_roundtrip() {
    for message in [vec![], vec![1u8, 2, 3], vec![7u8; 312]] {
        let tx = sample_tx(message.clone());
        let bytes = tx.serialize().unwrap();
        assert_eq!(bytes.len(), 352 + 4 + message.len() + 64);
        assert_eq!(&bytes[352..356], &(message.len() as u32).to_le_bytes());
        assert_eq!(&bytes[356..356 + message.len()], &message[..]);
        assert_eq!(bytes[bytes.len() - 64], 12);
        assert_eq!(bytes[bytes.len() - 32], 13);
        let back = TransferAndUpdateRoot::deserialize(&bytes).unwrap();
        assert_eq!(back.root, tx.root);
        assert_eq!(back.nullifier, tx.nullifier);
        assert_eq!(back.out_hash, tx.out_hash);
        assert_eq!((back.delta, back.memo), (tx.delta, tx.memo));
        assert_eq!(back.message, tx.message);
        assert_eq!((back.before_root, back.after_root), (tx.before_root, tx.after_root));
    }
    let bytes = sample_tx(vec![1, 2, 3]).serialize().unwrap();
    assert_eq!(
        TransferAndUpdateRoot::deserialize(&bytes[..bytes.len() - 1]).err(),
        Some(WireError::WrongLength)
    );
    assert_eq!(TransferAndUpdateRoot::deserialize(&bytes[..300]).err(), Some(WireError::WrongLength));
    let mut wrong_count = bytes.clone();
    wrong_count[352] = 4;
    assert_eq!(TransferAndUpdateRoot::deserialize(&wrong_count).err(), Some(WireError::WrongLength));
}

#[test]
fn transfer_pub_roundtrip() {
    let num = Num::from_u64;
    let p = TransferPub {
        root: num(1),
        nullifier: (2..8).map(num).collect(),
        out_hash: vec![num(8), num(9)],
        delta: num(10),
        memo: num(11),
    };
    let bytes = p.serialize();
    assert_eq!(bytes.len(), 352);
    // The head of a submission is the public signal.
    let tx = sample_tx(vec![]);
    assert_eq!(&tx.serialize().unwrap()[..352], &bytes[..]);
    assert_eq!(TransferPub::deserialize(&bytes), Ok(p));
    assert_eq!(TransferPub::deserialize(&bytes[..351]), Err(WireError::WrongLength));
    let mut big = bytes.clone();
    for b in big[64..96].iter_mut() {
        *b = 0xff;
    }
    assert_eq!(TransferPub::deserialize(&big), Err(WireError::NotInField));
}
