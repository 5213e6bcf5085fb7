use shielded_pool::groth16::{Proof, VK};
use shielded_pool::hash::memo_hash;
use shielded_pool::pool::{
    is_unique, PoolError, PrivateTxEngine, TransferAndUpdateRoot, UTXO_IN, UTXO_OUT,
};
use shielded_pool::uint::U256;

fn n(x: u64) -> U256 {
    U256::from_u64(x)
}

fn empty_vk() -> VK {
    VK { alpha: [n(0); 2], beta: [n(0); 4], gamma: [n(0); 4], delta: [n(0); 4], ic: vec![] }
}

fn empty_proof() -> Proof {
    Proof { a: [n(0); 2], b: [n(0); 4], c: [n(0); 2] }
}

/// A key with `len` points, none of them on the curve: no proof verifies
/// under it.
fn vk_of(len: usize) -> VK {
    VK { ic: vec![[n(0); 2]; len], ..empty_vk() }
}

/// A pool whose keys have one point more than the proofs have public inputs.
fn new_pool() -> PrivateTxEngine {
    PrivateTxEngine::new(vk_of(4 + UTXO_IN + UTXO_OUT), vk_of(4 + UTXO_OUT), n(1000))
}

/// A transaction whose nullifiers are `base + 0..6` and whose commitments are
/// `base + 10..12`.
fn tx(base: u64, root: u64, before: u64, after: u64) -> TransferAndUpdateRoot {
    let message = vec![base as u8, 1, 2, 3];
    TransferAndUpdateRoot {
        root: n(root),
        nullifier: [n(base), n(base + 1), n(base + 2), n(base + 3), n(base + 4), n(base + 5)],
        out_hash: [n(base + 10), n(base + 11)],
        delta: n(0),
        memo: memo_hash(&message).to_uint(),
        message,
        before_root: n(before),
        after_root: n(after),
    }
}

#[test]
fn is_unique_tells_repeats() {
    assert!(is_unique(&[]));
    assert!(is_unique(&[n(1)]));
    assert!(is_unique(&[n(3), n(1), n(2)]));
    assert!(!is_unique(&[n(3), n(1), n(3)]));
    assert!(!is_unique(&[n(1), n(1)]));
    // Values that differ in a high limb only.
    let a = U256 { l0: 5, l1: 0, l2: 0, l3: 1 };
    let b = U256 { l0: 5, l1: 0, l2: 0, l3: 2 };
    assert!(is_unique(&[a, b]));
}

#[test]
fn input_vectors_have_fixed_order() {
    let t = tx(1, 1000, 1000, 2000);
    let v = t.input_vec_transfer();
    assert_eq!(v.len(), 3 + UTXO_IN + UTXO_OUT);
    assert_eq!(v[0], n(1000));
    assert_eq!(&v[1..7], &t.nullifier[..]);
    assert_eq!(&v[7..9], &t.out_hash[..]);
    assert_eq!(v[9], t.delta);
    assert_eq!(v[10], t.memo);
    let u = t.input_vec_update_root(6);
    assert_eq!(u, vec![n(1000), n(2000), n(6), n(11), n(12)]);
}

#[test]
fn fresh_pool_has_one_root() {
    let pool = new_pool();
    assert_eq!(pool.num_tx(), 0);
    assert_eq!(pool.current_root(), n(1000));
    assert!(pool.is_root_history(n(1000)));
    assert!(!pool.is_root_history(n(1)));
    assert!(!pool.is_nullifier(n(1)));
    assert!(!pool.is_utxo(n(1)));
    assert_eq!(pool.get_root_history_slice(0, 10), vec![n(1000)]);
    assert!(pool.get_nullifier_slice(0, 10).is_empty());
}

#[test]
fn accepted_transfer_grows_every_set() {
    let mut pool = new_pool();
    let t = tx(1, 1000, 1000, 2000);
    assert_eq!(pool.apply_transfer(t.clone(), true, true), Ok(()));
    assert_eq!(pool.num_tx(), 1);
    assert_eq!(pool.current_root(), n(2000));
    assert_eq!(pool.nullifier.len(), UTXO_IN);
    assert_eq!(pool.utxo.len(), UTXO_OUT);
    assert!(pool.is_nullifier(n(1)) && pool.is_nullifier(n(6)));
    assert!(pool.is_utxo(n(11)) && pool.is_utxo(n(12)));
    assert!(pool.is_root_history(n(1000)) && pool.is_root_history(n(2000)));
    assert_eq!(pool.get_message_slice(0, 1), vec![t.message.clone()]);
    // A second one, proved against the first root, on top of the second.
    let t2 = tx(101, 1000, 2000, 3000);
    assert_eq!(pool.apply_transfer(t2, true, true), Ok(()));
    assert_eq!(pool.num_tx(), 2);
    assert_eq!(pool.nullifier.len(), 2 * UTXO_IN);
    assert_eq!(pool.utxo.len(), 2 * UTXO_OUT);
    assert_eq!(pool.get_root_history_slice(0, 10), vec![n(1000), n(2000), n(3000)]);
    assert_eq!(pool.get_utxo_slice(1, 3), vec![n(12), n(111)]);
    assert_eq!(pool.get_utxo_slice(3, 1), Vec::<U256>::new());
    assert_eq!(pool.get_utxo_slice(2, u64::MAX), vec![n(111), n(112)]);
    assert_eq!(pool.get_nullifier_slice(5, 7), vec![n(6), n(101)]);
    assert_eq!(pool.get_message_slice(1, 5).len(), 1);
}

#[test]
fn each_rule_has_its_error() {
    let pool = new_pool();
    let mut t = tx(1, 1000, 1000, 2000);
    t.nullifier[3] = t.nullifier[0];
    assert_eq!(pool.check_transfer(&t), Err(PoolError::NullifierNotUnique));
    let mut t = tx(1, 1000, 1000, 2000);
    t.out_hash[1] = t.out_hash[0];
    assert_eq!(pool.check_transfer(&t), Err(PoolError::UtxoNotUnique));
    let t = tx(1, 7, 1000, 2000);
    assert_eq!(pool.check_transfer(&t), Err(PoolError::NoRootInHistory));
    let mut t = tx(1, 1000, 1000, 2000);
    t.message.push(0);
    assert_eq!(pool.check_transfer(&t), Err(PoolError::WrongMemoHash));
    let t = tx(1, 1000, 999, 2000);
    assert_eq!(pool.check_transfer(&t), Err(PoolError::WrongCurrentRoot));
    let mut pool = new_pool();
    assert_eq!(
        pool.apply_transfer(tx(1, 1000, 1000, 2000), false, true),
        Err(PoolError::WrongTransferSnark)
    );
    assert_eq!(
        pool.apply_transfer(tx(1, 1000, 1000, 2000), true, false),
        Err(PoolError::WrongUpdateRootSnark)
    );
    assert_eq!(pool.num_tx(), 0);
    assert_eq!(pool.apply_transfer(tx(1, 1000, 1000, 2000), true, true), Ok(()));
    // Same commitments, other nullifiers.
    let mut t = tx(21, 1000, 2000, 3000);
    t.out_hash = [n(11), n(500)];
    assert_eq!(pool.check_transfer(&t), Err(PoolError::UtxoInHistory));
    let mut t = tx(21, 1000, 2000, 3000);
    t.nullifier[5] = n(2);
    assert_eq!(pool.check_transfer(&t), Err(PoolError::NullifierInHistory));
}

#[test]
fn rules_are_tried_in_order() {
    let pool = new_pool();
    // Breaks every rule at once: the first one is reported.
    let mut t = tx(1, 7, 999, 2000);
    t.nullifier[1] = t.nullifier[0];
    t.out_hash[1] = t.out_hash[0];
    t.memo = n(0);
    assert_eq!(pool.check_transfer(&t), Err(PoolError::NullifierNotUnique));
    t.nullifier[1] = n(77);
    assert_eq!(pool.check_transfer(&t), Err(PoolError::UtxoNotUnique));
    t.out_hash[1] = n(78);
    assert_eq!(pool.check_transfer(&t), Err(PoolError::NoRootInHistory));
    t.root = n(1000);
    assert_eq!(pool.check_transfer(&t), Err(PoolError::WrongMemoHash));
    t.memo = memo_hash(&t.message).to_uint();
    assert_eq!(pool.check_transfer(&t), Err(PoolError::WrongCurrentRoot));
}

#[test]
fn double_spend_is_rejected() {
    let mut pool = new_pool();
    let t = tx(1, 1000, 1000, 2000);
    assert_eq!(pool.apply_transfer(t.clone(), true, true), Ok(()));
    assert_eq!(pool.apply_transfer(t.clone(), true, true), Err(PoolError::NullifierInHistory));
    assert_eq!(pool.num_tx(), 1);
    assert_eq!(pool.nullifier.len(), UTXO_IN);
    assert_eq!(pool.utxo.len(), UTXO_OUT);
    assert_eq!(pool.current_root(), n(2000));
}

#[test]
fn stale_root_is_rejected() {
    let mut pool = new_pool();
    // Made for the first root, but another transaction comes first.
    let late = tx(101, 1000, 1000, 5000);
    assert_eq!(pool.apply_transfer(tx(1, 1000, 1000, 2000), true, true), Ok(()));
    assert_eq!(pool.apply_transfer(late, true, true), Err(PoolError::WrongCurrentRoot));
    assert_eq!(pool.num_tx(), 1);
    assert_eq!(pool.current_root(), n(2000));
}

#[test]
fn proofs_are_checked_after_the_state() {
    let mut pool = new_pool();
    // The points of the keys are not on the curve, so no proof verifies.
    let r = pool.transfer_and_update_root(empty_proof(), empty_proof(), tx(1, 1000, 1000, 2000));
    assert_eq!(r, Err(PoolError::WrongTransferSnark));
    let r = pool.transfer_and_update_root(empty_proof(), empty_proof(), tx(1, 7, 1000, 2000));
    assert_eq!(r, Err(PoolError::NoRootInHistory));
    assert_eq!(pool.num_tx(), 0);
}

#[test]
fn reasons_are_worded() {
    assert_eq!(PoolError::NullifierNotUnique.reason(), "not unique nullifier in transaction");
    assert_eq!(PoolError::UtxoNotUnique.reason(), "not unique utxo in transaction");
    assert_eq!(PoolError::NullifierInHistory.reason(), "not unique nullifier in history");
    assert_eq!(PoolError::UtxoInHistory.reason(), "not unique utxo in history");
    assert_eq!(PoolError::NoRootInHistory.reason(), "no root in history");
    assert_eq!(PoolError::WrongMemoHash.reason(), "wrong memo hash");
    assert_eq!(PoolError::WrongCurrentRoot.reason(), "wrong current root");
    assert_eq!(PoolError::WrongTransferSnark.reason(), "wrong transfer snark check");
    assert_eq!(PoolError::WrongUpdateRootSnark.reason(), "wrong update root snark check");
    assert_eq!(PoolError::WrongInputLen.reason(), "Wrong input len.");
}

#[test]
fn a_key_of_the_wrong_length_is_refused() {
    // One point too few, one too many, and none at all.
    for len in [3 + UTXO_IN + UTXO_OUT, 5 + UTXO_IN + UTXO_OUT, 0] {
        let mut pool = PrivateTxEngine::new(vk_of(len), vk_of(4 + UTXO_OUT), n(1000));
        let r = pool.transfer_and_update_root(empty_proof(), empty_proof(), tx(1, 1000, 1000, 2000));
        assert_eq!(r, Err(PoolError::WrongInputLen));
        assert_eq!(pool.num_tx(), 0);
        assert!(pool.nullifier.is_empty() && pool.utxo.is_empty() && pool.message.is_empty());
        // The rules on the state come first.
        let r = pool.transfer_and_update_root(empty_proof(), empty_proof(), tx(1, 1000, 7, 2000));
        assert_eq!(r, Err(PoolError::WrongCurrentRoot));
    }
    // With a key of the right length the proof itself is tried.
    let mut pool = new_pool();
    let r = pool.transfer_and_update_root(empty_proof(), empty_proof(), tx(1, 1000, 1000, 2000));
    assert_eq!(r, Err(PoolError::WrongTransferSnark));
}
