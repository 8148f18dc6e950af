use ample_transport::coalescer::AccountCoalescer;
use ample_transport::records::UniformAccountInfo;

fn account(key: u8, lamports: u64, write_version: u64) -> UniformAccountInfo {
    UniformAccountInfo {
        slot: 10,
        pubkey: [key; 32],
        owner: [0; 32],
        lamports,
        data: vec![key, lamports as u8],
        transaction_ref: None,
        executable: false,
        rent_epoch: 0,
        write_version,
    }
}

#[test]
fn hundred_writes_in_a_window_leave_the_last() {
    let mut c = AccountCoalescer::new(10_000);
    for i in 1..=100u64 {
        assert!(c.coalesce_at(account(0xA, i, i), i * 10).is_none());
    }
    let batch = c.coalesce_at(account(0xB, 7, 101), 15_000).unwrap();
    assert_eq!(batch.len(), 2);
    assert_eq!(batch[0].pubkey, [0xA; 32]);
    assert_eq!(batch[0].lamports, 100);
    assert_eq!(batch[0].write_version, 100);
    assert_eq!(batch[1].pubkey, [0xB; 32]);
}

#[test]
fn first_write_after_window_flushes() {
    let mut c = AccountCoalescer::new(10_000);
    let b = c.coalesce_at(account(1, 1, 1), 10_000).unwrap();
    assert_eq!(b.len(), 1);
    assert!(c.coalesce_at(account(2, 2, 2), 19_999).is_none());
    let b = c.coalesce_at(account(3, 3, 3), 20_000).unwrap();
    assert_eq!(b.iter().map(|a| a.pubkey[0]).collect::<Vec<_>>(), vec![2, 3]);
}

#[test]
fn zero_window_emits_each_write_alone() {
    let mut c = AccountCoalescer::new(0);
    for i in 0..5u8 {
        let b = c.coalesce(account(i, i as u64, 0)).unwrap();
        assert_eq!(b.len(), 1);
        assert_eq!(b[0].pubkey, [i; 32]);
    }
}

#[test]
fn long_window_holds_writes_by_the_clock() {
    let mut c = AccountCoalescer::new(u64::MAX);
    assert!(c.coalesce(account(1, 1, 1)).is_none());
    assert!(c.coalesce(account(1, 2, 2)).is_none());
    assert!(c.coalesce(account(2, 3, 3)).is_none());
}

#[test]
fn clock_reading_before_last_flush_counts_as_no_time() {
    let mut c = AccountCoalescer::new(5);
    assert!(c.coalesce_at(account(1, 1, 1), 100).is_some());
    assert!(c.coalesce_at(account(1, 2, 2), 50).is_none());
    let b = c.coalesce_at(account(1, 3, 3), 105).unwrap();
    assert_eq!(b.len(), 1);
    assert_eq!(b[0].lamports, 3);
}
