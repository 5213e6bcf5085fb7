use rand::rngs::StdRng;
use rand::SeedableRng;
use shielded_pool::circuit::{c_derive_key_dk, c_parse_delta, c_transfer, c_unique_product, check_range};
use shielded_pool::builder::{empty_proof, plan_transaction, TxRandomness};
use shielded_pool::client::{ClientError, ClientState, NativeWallet, Wallet, NUM_COLS};
use shielded_pool::ecc::EdwardsPoint;
use shielded_pool::field::{Fs, Num};
use shielded_pool::groth16::VK;
use shielded_pool::pool::{PoolError, PrivateTxEngine, TransferAndUpdateRoot};
use shielded_pool::merkle::{compress, empty_roots, poseidon_merkle_proof_root};
use shielded_pool::note::{Note, NOTE_CHUNKS};
use shielded_pool::random::{rand_biguint, random_fs};
use shielded_pool::transfer::{TransferPub, TransferSec};
use shielded_pool::tx::{
    derive_key_dk, derive_key_pk_d, note_decrypt_in, note_decrypt_out, note_hash, nullfifier,
    parse_delta, tx_hash, tx_verify, PoolBN256, H, IN, MESSAGE_SIZE, OUT,
};
use shielded_pool::uint::U256;
use std::time::Instant;

fn num(x: u64) -> Num {
    Num::from_u64(x)
}

fn new_state(rng: &mut StdRng) -> ClientState<NativeWallet> {
    let wallet = NativeWallet { sk: random_fs(rng) };
    ClientState::new(kvdb_memorydb::create(NUM_COLS), wallet, PoolBN256::new()).unwrap()
}

/// A note of the given value for the owner of the state, added to the tree.
fn give_note(state: &mut ClientState<NativeWallet>, rng: &mut StdRng, value: u64) -> Note {
    let params = PoolBN256::new();
    let mut note = Note::rand(rng);
    note.v = num(value);
    note.pk_d = derive_key_pk_d(note.d, state.dk(), &params).unwrap().x();
    state.add_leaf(note_hash(note, &params), Some(note)).unwrap();
    note
}

fn recv_addr(rng: &mut StdRng) -> (Num, Num) {
    let d = Num::new(rand_biguint(rng, NOTE_CHUNKS[0])).unwrap();
    let pk_d = EdwardsPoint::base_mul(&random_fs(rng)).x();
    (d, pk_d)
}

#[test]
fn test_transfer() {
    let params = PoolBN256::new();
    let mut rng = StdRng::from_entropy();
    let mut state = new_state(&mut rng);
    for _ in 0..(1 << 8) {
        let mut note: Note = Note::rand(&mut rng);
        note.pk_d = derive_key_pk_d(note.d, state.dk(), &params).unwrap().x();
        let hash = note_hash(note, &params);
        state.add_leaf(hash, Some(note)).unwrap();
    }

    let recv_addr = recv_addr(&mut rng);

    let (p, s, _) = state.make_transaction_object(&mut rng, recv_addr, 1, 0).unwrap().unwrap();

    let start = Instant::now();
    let ok = c_transfer(&p, &s, &params);
    let duration = start.elapsed();

    println!("Time elapsed in c_transfer() is: {:?}", duration);
    assert!(ok);
}

#[test]
fn test_circuit_tx() {
    let params = PoolBN256::new();
    // A signal and a witness without values: every element is zero.
    let zero = Note { d: num(0), pk_d: num(0), v: num(0), st: num(0) };
    let p = TransferPub {
        root: num(0),
        nullifier: vec![num(0); IN],
        out_hash: vec![num(0); OUT],
        delta: num(0),
        memo: num(0),
    };
    let s = TransferSec {
        tx: shielded_pool::transfer::Tx { input: vec![zero; IN], output: vec![zero; OUT] },
        in_proof: (0..IN).map(|_| empty_proof()).collect(),
        eddsa_s: num(0),
        eddsa_r: num(0),
        eddsa_a: num(0),
    };
    let start = Instant::now();
    let ok = c_transfer(&p, &s, &params);
    let duration = start.elapsed();
    println!("Time elapsed in c_transfer() is: {:?}", duration);
    assert!(!ok);
}

#[test]
fn empty_tree_deposit() {
    let params = PoolBN256::new();
    let mut rng = StdRng::from_seed([11; 32]);
    let state = new_state(&mut rng);
    let addr = recv_addr(&mut rng);
    let (p, s, message) = state.make_transaction_object(&mut rng, addr, 100, 100).unwrap().unwrap();
    // No note is spent: every input is without value, with an empty path.
    assert_eq!(s.tx.input.len(), IN);
    assert!(s.tx.input.iter().all(|n| n.v == num(0)));
    assert!(s.in_proof.iter().all(|m| m.sibling == vec![num(0); H] && m.path == vec![false; H]));
    assert_eq!(s.tx.output[0].v, num(0));
    assert_eq!(s.tx.output[1].v, num(100));
    assert_eq!((s.tx.output[1].d, s.tx.output[1].pk_d), addr);
    assert_eq!(p.delta, num(100));
    assert_eq!(p.root, empty_roots(H, &params)[H]);
    assert_eq!(message.len(), OUT * MESSAGE_SIZE);
    assert_eq!(p.memo, shielded_pool::hash::memo_hash(&message));
    assert_eq!(p.nullifier.len(), IN);
    assert_eq!(p.out_hash, vec![note_hash(s.tx.output[0], &params), note_hash(s.tx.output[1], &params)]);
    assert_eq!(s.eddsa_a, state.xsk());
}

#[test]
fn empty_tree_deposit_is_accepted_by_the_pool() {
    let params = PoolBN256::new();
    let mut rng = StdRng::from_seed([12; 32]);
    let mut state = new_state(&mut rng);
    let addr = recv_addr(&mut rng);
    let (p, _s, message) = state.make_transaction_object(&mut rng, addr, 100, 100).unwrap().unwrap();
    let before_root = state.get_cell((H, 0)).unwrap();
    assert_eq!(before_root, empty_roots(H, &params)[H]);
    for h in p.out_hash.iter() {
        state.add_leaf(*h, None).unwrap();
    }
    let after_root = state.get_cell((H, 0)).unwrap();
    assert_ne!(after_root, before_root);
    assert_eq!(state.gen_num_leaves(), Ok(2));
    let z = U256::zero();
    let vk = || VK { alpha: [z; 2], beta: [z; 4], gamma: [z; 4], delta: [z; 4], ic: vec![] };
    let mut pool = PrivateTxEngine::new(vk(), vk(), before_root.to_uint());
    let mut nullifier = [z; IN];
    for (a, b) in nullifier.iter_mut().zip(p.nullifier.iter()) {
        *a = b.to_uint();
    }
    let txobj = TransferAndUpdateRoot {
        root: p.root.to_uint(),
        nullifier,
        out_hash: [p.out_hash[0].to_uint(), p.out_hash[1].to_uint()],
        delta: p.delta.to_uint(),
        memo: p.memo.to_uint(),
        message,
        before_root: before_root.to_uint(),
        after_root: after_root.to_uint(),
    };
    assert_eq!(pool.apply_transfer(txobj.clone(), true, true), Ok(()));
    assert_eq!(pool.num_tx(), 1);
    assert_eq!(pool.current_root(), after_root.to_uint());
    assert_eq!(pool.utxo.len(), 2);
    // The same transaction again: its nullifiers are spent.
    assert_eq!(
        pool.apply_transfer(txobj, true, true),
        Err(PoolError::NullifierInHistory)
    );
}

#[test]
fn exact_spend() {
    let params = PoolBN256::new();
    let mut rng = StdRng::from_seed([13; 32]);
    let mut state = new_state(&mut rng);
    let owned = give_note(&mut state, &mut rng, 100);
    let addr = recv_addr(&mut rng);
    let (p, s, _) = state.make_transaction_object(&mut rng, addr, 100, 0).unwrap().unwrap();
    assert_eq!(s.tx.output[0].v, num(0));
    assert_eq!(s.tx.output[1].v, num(100));
    assert_eq!(s.tx.input[0], owned);
    assert!(s.tx.input[1..].iter().all(|n| n.v == num(0)));
    assert_eq!(p.delta, num(0));
    // The path of the note leads to the root.
    let root = poseidon_merkle_proof_root(note_hash(owned, &params), &s.in_proof[0], &params);
    assert_eq!(root, p.root);
    assert_eq!(p.nullifier[0], nullfifier(note_hash(owned, &params), state.xsk(), &params));
}

#[test]
fn split_with_change() {
    let params = PoolBN256::new();
    let mut rng = StdRng::from_seed([14; 32]);
    let mut state = new_state(&mut rng);
    give_note(&mut state, &mut rng, 100);
    let addr = recv_addr(&mut rng);
    let (p, s, message) = state.make_transaction_object(&mut rng, addr, 30, 0).unwrap().unwrap();
    assert_eq!(s.tx.output[0].v, num(70));
    assert_eq!(s.tx.output[1].v, num(30));
    // The change goes to an address of the sender, who can read both notes.
    let dk = state.dk();
    assert_eq!(derive_key_pk_d(s.tx.output[0].d, dk, &params).unwrap().x(), s.tx.output[0].pk_d);
    assert_eq!(note_decrypt_out(dk, &message[..MESSAGE_SIZE], &params), Some(s.tx.output[0]));
    assert_eq!(note_decrypt_in(dk, &message[..MESSAGE_SIZE], &params), Some(s.tx.output[0]));
    assert_eq!(note_decrypt_out(dk, &message[MESSAGE_SIZE..], &params), Some(s.tx.output[1]));
    // The wallet has signed the hash of the transaction.
    let ins: Vec<Num> = s.tx.input.iter().map(|n| note_hash(*n, &params)).collect();
    let m = tx_hash(&ins, &p.out_hash, &params);
    let sig = Fs::new(s.eddsa_s.to_uint()).unwrap();
    assert!(tx_verify(sig, s.eddsa_r, s.eddsa_a, m, &params));
}

#[test]
fn insufficient_funds() {
    let mut rng = StdRng::from_seed([15; 32]);
    let mut state = new_state(&mut rng);
    give_note(&mut state, &mut rng, 20);
    give_note(&mut state, &mut rng, 30);
    let addr = recv_addr(&mut rng);
    assert_eq!(state.make_transaction_object(&mut rng, addr, 100, 0), Ok(None));
    assert_eq!(state.make_transaction_object(&mut rng, addr, 51, 0), Ok(None));
    assert_eq!(state.make_transaction_object(&mut rng, addr, 50, -1), Ok(None));
    assert!(state.make_transaction_object(&mut rng, addr, 50, 0).unwrap().is_some());
    assert!(state.make_transaction_object(&mut rng, addr, 100, 50).unwrap().is_some());
    // A delta that takes more than there is.
    assert_eq!(state.make_transaction_object(&mut rng, addr, 0, -51), Ok(None));
}

#[test]
fn built_transfer_satisfies_the_relation_and_tampering_breaks_it() {
    let params = PoolBN256::new();
    let mut rng = StdRng::from_seed([16; 32]);
    let mut state = new_state(&mut rng);
    for v in [5u64, 7, 11, 13, 17, 19] {
        give_note(&mut state, &mut rng, v);
    }
    let addr = recv_addr(&mut rng);
    let (p, s, _) = state.make_transaction_object(&mut rng, addr, 60, -2).unwrap().unwrap();
    assert_eq!(s.tx.output[0].v, num(10));
    assert_eq!(parse_delta(p.delta), Num::zero().sub(&num(2)));
    assert!(c_transfer(&p, &s, &params));
    // A shape that is not that of a transfer.
    let mut q = p.clone();
    q.nullifier.pop();
    assert!(!c_transfer(&q, &s, &params));
    // Balance.
    let mut t = s.clone();
    t.tx.output[0].v = num(11);
    assert!(!c_transfer(&p, &t, &params));
    let mut q = p.clone();
    q.delta = num(0);
    assert!(!c_transfer(&q, &s, &params));
    // Range.
    let mut t = s.clone();
    t.tx.input[0].st = Num::new(U256 { l0: 0, l1: 1 << 16, l2: 0, l3: 0 }).unwrap();
    assert!(!c_transfer(&p, &t, &params));
    // Root.
    let mut q = p.clone();
    q.root = num(1);
    assert!(!c_transfer(&q, &s, &params));
    // Path.
    let mut t = s.clone();
    t.in_proof[2].path[0] = !t.in_proof[2].path[0];
    assert!(!c_transfer(&p, &t, &params));
    // Nullifier.
    let mut q = p.clone();
    q.nullifier[1] = q.nullifier[0];
    assert!(!c_transfer(&q, &s, &params));
    // Commitment.
    let mut q = p.clone();
    q.out_hash[1] = num(5);
    assert!(!c_transfer(&q, &s, &params));
    // Signature.
    let mut t = s.clone();
    t.eddsa_s = t.eddsa_s.add(&num(1));
    assert!(!c_transfer(&p, &t, &params));
    // Key.
    let mut t = s.clone();
    t.eddsa_a = EdwardsPoint::base_mul(&random_fs(&mut rng)).x();
    assert!(!c_transfer(&p, &t, &params));
    // Ownership.
    let mut t = s.clone();
    t.tx.input[3].pk_d = addr.1;
    assert!(!c_transfer(&p, &t, &params));
    // The memo is part of the public signal, but any memo but -1 passes.
    let mut q = p.clone();
    q.memo = num(12345);
    assert!(c_transfer(&q, &s, &params));
    q.memo = Num::zero().sub(&num(1));
    assert!(!c_transfer(&q, &s, &params));
}

#[test]
fn a_padded_input_must_be_owned_too() {
    let params = PoolBN256::new();
    let mut rng = StdRng::from_seed([17; 32]);
    let wallet = NativeWallet { sk: random_fs(&mut rng) };
    let mut state = ClientState::new(kvdb_memorydb::create(NUM_COLS), wallet, params).unwrap();
    give_note(&mut state, &mut rng, 100);
    let addr = recv_addr(&mut rng);
    let (p, s, _) = state.make_transaction_object(&mut rng, addr, 30, 0).unwrap().unwrap();
    // The notes that fill the inputs up have random transmission keys.
    assert!(!c_transfer(&p, &s, &params));
    // With keys of the owner in their place, the nullifiers that go with
    // them, and a signature of the new hash, the relation holds.
    let mut t = s.clone();
    let mut q = p.clone();
    for k in 1..IN {
        t.tx.input[k].pk_d = derive_key_pk_d(t.tx.input[k].d, state.dk(), &params).unwrap().x();
        q.nullifier[k] = nullfifier(note_hash(t.tx.input[k], &params), state.xsk(), &params);
    }
    let ins: Vec<Num> = t.tx.input.iter().map(|n| note_hash(*n, &params)).collect();
    let (sig, r) = wallet.sign(tx_hash(&ins, &q.out_hash, &params), &params);
    t.eddsa_s = Num::new(sig.to_uint()).unwrap();
    t.eddsa_r = r;
    assert!(c_transfer(&q, &t, &params));
}

#[test]
fn greedy_spends_small_notes_where_they_suffice() {
    let note = |v: u64| Note { d: num(0), pk_d: num(0), v: num(v), st: num(0) };
    let values = [50u64, 1, 40, 2, 30, 3, 20, 4];
    let notes: Vec<(usize, Note)> = values.iter().enumerate().map(|(i, v)| (i, note(*v))).collect();
    // The six largest give 147; for 100 the four smallest of them can be
    // replaced by the four smallest of all, which leaves exactly 100.
    let plan = plan_transaction(&notes, 100, 0).unwrap().unwrap();
    let spent: Vec<u64> = plan.inputs.iter().map(|e| values[e.0]).collect();
    assert_eq!(spent, vec![50, 40, 4, 3, 2, 1]);
    assert_eq!(plan.change, 0);
    // For 145 only the smallest can be replaced.
    let plan = plan_transaction(&notes, 145, 0).unwrap().unwrap();
    let spent: Vec<u64> = plan.inputs.iter().map(|e| values[e.0]).collect();
    assert_eq!(spent, vec![50, 40, 30, 20, 4, 1]);
    assert_eq!(plan.change, 0);
    // For 147 nothing can be replaced.
    let plan = plan_transaction(&notes, 147, 0).unwrap().unwrap();
    let spent: Vec<u64> = plan.inputs.iter().map(|e| values[e.0]).collect();
    assert_eq!(spent, vec![50, 40, 30, 20, 4, 3]);
    assert_eq!(plan.change, 0);
    let plan = plan_transaction(&notes, 99, 0).unwrap().unwrap();
    assert_eq!(plan.change, 1);
    assert!(plan_transaction(&notes, 148, 0).unwrap().is_none());
    assert!(plan_transaction(&notes, 148, 3).unwrap().is_some());
    // For nothing at all, the six smallest are spent.
    let plan = plan_transaction(&notes, 0, 0).unwrap().unwrap();
    let spent: Vec<u64> = plan.inputs.iter().map(|e| values[e.0]).collect();
    assert_eq!(spent, vec![30, 20, 4, 3, 2, 1]);
    assert_eq!(plan.change, 60);
    // Fewer notes than inputs: all are spent.
    let plan = plan_transaction(&notes[..3].to_vec(), 10, 0).unwrap().unwrap();
    let spent: Vec<u64> = plan.inputs.iter().map(|e| values[e.0]).collect();
    assert_eq!(spent, vec![50, 40, 1]);
    assert_eq!(plan.change, 81);
    // Equal values keep the order in which they were listed.
    let same: Vec<(usize, Note)> = (0..4).map(|i| (i, note(9))).collect();
    let plan = plan_transaction(&same, 1, 0).unwrap().unwrap();
    assert_eq!(plan.inputs.iter().map(|e| e.0).collect::<Vec<_>>(), vec![0, 1, 2, 3]);
    // A value that does not fit 64 bits is not one of a note.
    let wide = Note { v: Num::new(U256 { l0: 0, l1: 1, l2: 0, l3: 0 }).unwrap(), ..note(0) };
    assert_eq!(plan_transaction(&vec![(0, wide)], 1, 0).err(), Some(ClientError::BadNote));
    // More than 64 bits of change do not fit a note.
    let big: Vec<(usize, Note)> = (0..2).map(|i| (i, note(u64::MAX))).collect();
    assert_eq!(plan_transaction(&big, 1, 0).err(), Some(ClientError::NoteTooWide));
}

#[test]
fn tree_grows_leaf_by_leaf() {
    let params = PoolBN256::new();
    let mut rng = StdRng::from_seed([18; 32]);
    let mut state = new_state(&mut rng);
    let empty = empty_roots(H, &params);
    assert_eq!(empty[0], num(0));
    assert_eq!(empty[1], compress(&num(0), &num(0), &params));
    assert_eq!(state.gen_num_leaves(), Ok(0));
    assert_eq!(state.get_cell((H, 0)), Ok(empty[H]));
    state.add_leaf(num(5), None).unwrap();
    state.add_leaf(num(6), None).unwrap();
    state.add_leaf(num(7), None).unwrap();
    assert_eq!(state.gen_num_leaves(), Ok(3));
    assert_eq!(state.get_cell((0, 0)), Ok(num(5)));
    assert_eq!(state.get_cell((0, 2)), Ok(num(7)));
    assert_eq!(state.get_cell((0, 3)), Ok(num(0)));
    let n01 = compress(&num(5), &num(6), &params);
    let n23 = compress(&num(7), &num(0), &params);
    assert_eq!(state.get_cell((1, 0)), Ok(n01));
    assert_eq!(state.get_cell((1, 1)), Ok(n23));
    let mut root = compress(&n01, &n23, &params);
    assert_eq!(state.get_cell((2, 0)), Ok(root));
    for level in 2..H {
        root = compress(&root, &empty[level], &params);
    }
    assert_eq!(state.get_cell((H, 0)), Ok(root));
    // Every leaf has a path to the root.
    for (pos, leaf) in [5u64, 6, 7].iter().enumerate() {
        let proof = state.get_merkle_proof(pos).unwrap();
        assert_eq!(proof.sibling.len(), H);
        assert_eq!(proof.path[0], pos % 2 == 1);
        assert_eq!(proof.path[1], pos / 2 == 1);
        assert!(proof.path[2..].iter().all(|b| !b));
        assert_eq!(poseidon_merkle_proof_root(num(*leaf), &proof, &params), root);
    }
    // No note was kept.
    assert_eq!(state.get_note_list(), Ok(vec![]));
    assert_eq!(state.total_balance(), Ok(num(0)));
    assert_eq!(state.get_note(0), Ok(None));
}

#[test]
fn notes_are_kept_by_position() {
    let mut rng = StdRng::from_seed([19; 32]);
    let mut state = new_state(&mut rng);
    let a = give_note(&mut state, &mut rng, 10);
    state.add_leaf(num(99), None).unwrap();
    let b = give_note(&mut state, &mut rng, 32);
    assert_eq!(state.get_note_list(), Ok(vec![(0, a), (2, b)]));
    assert_eq!(state.total_balance(), Ok(num(42)));
    assert_eq!(state.get_note(0), Ok(Some(a)));
    assert_eq!(state.get_note(1), Ok(None));
    assert_eq!(state.get_note(2), Ok(Some(b)));
    // A note without a wire form is not added, and nothing else is.
    let mut wide = a;
    wide.v = Num::new(U256 { l0: 0, l1: 1, l2: 0, l3: 0 }).unwrap();
    assert_eq!(state.add_leaf(num(1), Some(wide)), Err(ClientError::NoteTooWide));
    assert_eq!(state.gen_num_leaves(), Ok(3));
    assert_eq!(state.get_cell((0, 3)), Ok(num(0)));
}

#[test]
fn a_store_keeps_its_tree_when_it_is_opened_again() {
    let mut rng = StdRng::from_seed([20; 32]);
    let wallet = NativeWallet { sk: random_fs(&mut rng) };
    let mut state = ClientState::new(kvdb_memorydb::create(NUM_COLS), wallet, PoolBN256::new()).unwrap();
    state.add_leaf(num(5), None).unwrap();
    let root = state.get_cell((H, 0)).unwrap();
    let db = state.into_db();
    let again = ClientState::new(db, wallet, PoolBN256::new()).unwrap();
    assert_eq!(again.gen_num_leaves(), Ok(1));
    assert_eq!(again.get_cell((H, 0)), Ok(root));
}

#[test]
fn a_store_without_columns_is_refused() {
    let mut rng = StdRng::from_seed([21; 32]);
    let wallet = NativeWallet { sk: random_fs(&mut rng) };
    // A client needs its four columns: fewer are refused, more are taken.
    for columns in 0..NUM_COLS {
        assert_eq!(
            ClientState::new(kvdb_memorydb::create(columns), wallet, PoolBN256::new()).err(),
            Some(ClientError::NoColumn)
        );
    }
    let mut state = ClientState::new(kvdb_memorydb::create(NUM_COLS + 1), wallet, PoolBN256::new()).unwrap();
    assert_eq!(state.gen_num_leaves(), Ok(0));
    assert_eq!(state.add_leaf(num(1), None), Ok(()));
    assert_eq!(state.gen_num_leaves(), Ok(1));
    assert_eq!(state.get_note_list(), Ok(vec![]));
}

#[test]
fn keys_of_the_client_come_from_the_wallet() {
    let params = PoolBN256::new();
    let mut rng = StdRng::from_seed([22; 32]);
    let wallet = NativeWallet { sk: random_fs(&mut rng) };
    let state = ClientState::new(kvdb_memorydb::create(NUM_COLS), wallet, params).unwrap();
    assert_eq!(state.xsk(), EdwardsPoint::base_mul(&wallet.sk).x());
    assert_eq!(state.dk(), derive_key_dk(state.xsk(), &params));
    assert_eq!(c_derive_key_dk(state.xsk(), &params), Some(state.dk()));
}

#[test]
fn relation_helpers() {
    assert_eq!(c_parse_delta(num(5)), Some(5));
    assert_eq!(c_parse_delta(num(u64::MAX)), Some(-1));
    assert_eq!(c_parse_delta(num(1 << 63)), Some(-(1i128 << 63)));
    assert_eq!(c_parse_delta(Num::new(U256 { l0: 0, l1: 1, l2: 0, l3: 0 }).unwrap()), None);
    // (1 - 2)(1 - 3)(2 - 3) = -2
    assert_eq!(c_unique_product(&vec![num(1), num(2), num(3)]), Num::zero().sub(&num(2)));
    assert_eq!(c_unique_product(&vec![num(1), num(2), num(1)]), num(0));
    assert_eq!(c_unique_product(&vec![num(7)]), num(1));
    assert_eq!(c_unique_product(&vec![]), num(1));
    assert_eq!(c_unique_product(&vec![num(5), num(3)]), num(2));
    let ok = Note { d: num(1), pk_d: Num::zero().sub(&num(1)), v: num(u64::MAX), st: num(2) };
    assert!(check_range(&ok));
    let wide = Num::new(U256 { l0: 0, l1: 1 << 16, l2: 0, l3: 0 }).unwrap();
    assert!(!check_range(&Note { d: wide, ..ok }));
    assert!(!check_range(&Note { st: wide, ..ok }));
    assert!(!check_range(&Note { v: wide, ..ok }));
}

#[test]
fn drawn_randomness_has_the_shape_of_a_transaction() {
    let mut rng = StdRng::from_seed([23; 32]);
    let rnd = TxRandomness::draw(&mut rng);
    assert_eq!(rnd.padding.len(), IN);
    assert_eq!(rnd.esk.len(), OUT);
    assert!(rnd.padding.iter().all(|n| n.v == num(0)));
    // The diversifiers and the salts have 80 bits, and a wire form.
    let mut drawn = vec![rnd.sender_d, rnd.sender_st, rnd.receiver_st];
    for n in rnd.padding.iter() {
        assert!(n.serialize().is_ok());
        drawn.push(n.d);
        drawn.push(n.st);
    }
    assert!(drawn.iter().all(|x| {
        let u = x.to_uint();
        u.l1 < (1 << 16) && u.l2 == 0 && u.l3 == 0
    }));
    assert!(drawn.iter().any(|x| x.to_uint().l1 >= (1 << 15)));
    let other = TxRandomness::draw(&mut rng);
    assert_ne!(rnd.esk, other.esk);
    assert_ne!(rnd.sender_d, other.sender_d);
}

#[test]
fn every_spent_note_has_its_path_to_the_root() {
    let params = PoolBN256::new();
    let mut rng = StdRng::from_seed([24; 32]);
    let mut state = new_state(&mut rng);
    // Leaves of others between the notes of the client.
    for v in [3u64, 5, 8] {
        state.add_leaf(num(1000 + v), None).unwrap();
        give_note(&mut state, &mut rng, v);
    }
    let addr = recv_addr(&mut rng);
    let (p, s, message) = state.make_transaction_object(&mut rng, addr, 10, 0).unwrap().unwrap();
    assert_eq!(p.root, state.get_cell((H, 0)).unwrap());
    assert_eq!(message.len(), OUT * MESSAGE_SIZE);
    let mut spent = 0;
    for (note, path) in s.tx.input.iter().zip(s.in_proof.iter()) {
        assert!(note.serialize().is_ok());
        if note.v != num(0) {
            spent += 1;
            assert_eq!(poseidon_merkle_proof_root(note_hash(*note, &params), path, &params), p.root);
        }
    }
    assert_eq!(spent, 3);
    assert_eq!(s.tx.output[0].v, num(6));
    // No note is spent twice: the notes lie at the leaves 1, 3 and 5.
    let plan = plan_transaction(&state.get_note_list().unwrap(), 10, 0).unwrap().unwrap();
    let mut places: Vec<usize> = plan.inputs.iter().map(|e| e.0).collect();
    places.sort();
    assert_eq!(places, vec![1, 3, 5]);
}
