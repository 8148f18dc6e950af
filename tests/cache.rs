use ample_transport::cache::{correlate, TransactionCache};
use ample_transport::records::{UniformAccountInfo, UniformTransactionInfo};

fn txn(sig: u8) -> UniformTransactionInfo {
    UniformTransactionInfo {
        slot: 10,
        signature: [sig; 64],
        message_hash: [sig; 32],
        is_vote: false,
        transaction: vec![sig, 1, 2],
        transaction_status_meta: vec![sig],
        index: sig as usize,
    }
}

fn account_ref(sig: Option<u8>) -> UniformAccountInfo {
    UniformAccountInfo {
        slot: 10,
        pubkey: [1; 32],
        owner: [2; 32],
        lamports: 5,
        data: vec![],
        transaction_ref: sig.map(|s| [s; 64]),
        executable: false,
        rent_epoch: 0,
        write_version: 1,
    }
}

#[test]
fn account_write_finds_its_transaction_once() {
    let mut cache = TransactionCache::new(16);
    cache.insert(txn(0x51));
    let found = correlate(&mut cache, &account_ref(Some(0x51))).unwrap();
    assert_eq!(found.signature, [0x51; 64]);
    assert_eq!(found.transaction, vec![0x51, 1, 2]);
    assert!(correlate(&mut cache, &account_ref(Some(0x51))).is_none());
}

#[test]
fn account_without_reference_takes_nothing() {
    let mut cache = TransactionCache::new(4);
    cache.insert(txn(1));
    assert!(correlate(&mut cache, &account_ref(None)).is_none());
    assert!(cache.take(&[1; 64]).is_some());
}

#[test]
fn least_recent_entry_leaves_a_full_cache() {
    let mut cache = TransactionCache::new(2);
    cache.insert(txn(1));
    cache.insert(txn(2));
    cache.insert(txn(3));
    assert!(cache.take(&[1; 64]).is_none());
    assert!(cache.take(&[2; 64]).is_some());
    assert!(cache.take(&[3; 64]).is_some());
}

#[test]
fn reinserting_a_signature_replaces_and_refreshes_it() {
    let mut cache = TransactionCache::new(2);
    cache.insert(txn(1));
    cache.insert(txn(2));
    let mut again = txn(1);
    again.slot = 99;
    cache.insert(again);
    cache.insert(txn(3));
    assert!(cache.take(&[2; 64]).is_none());
    assert_eq!(cache.take(&[1; 64]).unwrap().slot, 99);
}

#[test]
fn take_of_unknown_signature_is_none() {
    let mut cache = TransactionCache::new(1);
    assert!(cache.take(&[9; 64]).is_none());
}
