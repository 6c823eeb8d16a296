use state_store::felt::Felt;
use state_store::store::{
    BlockStateDiff, ClassUpdate, CommitError, Db, NonceUpdate, StorageUpdate,
};

fn felt(n: u64) -> Felt {
    Felt::from_u64(n)
}

fn storage_only(address: Felt, key: Felt, value: Felt) -> BlockStateDiff {
    BlockStateDiff {
        nonces: vec![],
        class_hashes: vec![],
        storage: vec![StorageUpdate {
            address,
            key,
            value,
        }],
    }
}

#[test]
fn historical_reads_resolve_nearest_preceding_change() {
    // The slot changes at blocks 1, 5 and 10 with values v1, v5, v10.
    let mut db = Db::new();
    let addr = felt(0xaa);
    let key = felt(0x01);
    let (v1, v5, v10) = (felt(100), felt(500), felt(1000));
    db.apply_block(1, &storage_only(addr, key, v1)).unwrap();
    db.apply_block(5, &storage_only(addr, key, v5)).unwrap();
    db.apply_block(10, &storage_only(addr, key, v10)).unwrap();
    // Before the first change: the pre-genesis default, not ours to invent.
    assert_eq!(db.get_storage_at(addr, key, 0), None);
    assert_eq!(db.get_storage_at(addr, key, 3), Some(v1));
    assert_eq!(db.get_storage_at(addr, key, 7), Some(v5));
    assert_eq!(db.get_storage_at(addr, key, 10), Some(v10));
    assert_eq!(db.get_storage_at(addr, key, 100), Some(v10));
    // A slot never written resolves to nothing at any block.
    assert_eq!(db.get_storage_at(addr, felt(0x02), 100), None);
    assert_eq!(db.get_storage_at(felt(0xbb), key, 100), None);
}

#[test]
fn recommitting_the_same_block_is_idempotent() {
    let mut db = Db::new();
    let addr = felt(1);
    let key = felt(2);
    db.apply_block(4, &storage_only(addr, key, felt(10))).unwrap();
    db.apply_block(9, &storage_only(addr, key, felt(20))).unwrap();
    // Re-committing block 9 (a retried commit) succeeds and leaves the
    // history exactly as it was.
    db.apply_block(9, &storage_only(addr, key, felt(20))).unwrap();
    assert_eq!(db.get_storage_at(addr, key, 8), Some(felt(10)));
    assert_eq!(db.get_storage_at(addr, key, 9), Some(felt(20)));
    assert_eq!(db.get_storage_at(addr, key, 12), Some(felt(20)));
}

#[test]
fn last_write_wins_within_one_block() {
    let mut db = Db::new();
    let addr = felt(1);
    let key = felt(2);
    let diff = BlockStateDiff {
        nonces: vec![],
        class_hashes: vec![],
        storage: vec![
            StorageUpdate { address: addr, key, value: felt(7) },
            StorageUpdate { address: addr, key, value: felt(8) },
        ],
    };
    db.apply_block(3, &diff).unwrap();
    assert_eq!(db.get_storage_at(addr, key, 3), Some(felt(8)));
    assert_eq!(db.get_storage_at(addr, key, 2), None);
}

#[test]
fn out_of_order_block_is_rejected() {
    let mut db = Db::new();
    let addr = felt(1);
    let key = felt(2);
    db.apply_block(7, &storage_only(addr, key, felt(70))).unwrap();
    // Reprocessing an older block is a caller defect, surfaced.
    let r = db.apply_block(3, &storage_only(addr, key, felt(30)));
    assert_eq!(r, Err(CommitError::OutOfOrderBlock));
}

#[test]
fn failed_commit_leaves_no_table_changed() {
    // A mid-commit fault: the diff carries nonce, class and two storage
    // writes, and its second storage write is out of order.
    let mut db = Db::new();
    let addr = felt(1);
    let key = felt(2);
    db.apply_block(7, &storage_only(addr, key, felt(70))).unwrap();
    let faulty = BlockStateDiff {
        nonces: vec![NonceUpdate { address: addr, nonce: felt(5) }],
        class_hashes: vec![ClassUpdate { address: addr, class_hash: felt(0xc) }],
        storage: vec![
            StorageUpdate { address: felt(9), key: felt(9), value: felt(9) },
            StorageUpdate { address: addr, key, value: felt(30) },
        ],
    };
    assert_eq!(db.apply_block(3, &faulty), Err(CommitError::OutOfOrderBlock));
    // None of the four tables reflects the aborted block.
    assert_eq!(db.get_nonce(3, addr), None);
    assert_eq!(db.get_class_hash(3, addr), None);
    assert_eq!(db.get_storage_at(felt(9), felt(9), 100), None);
    assert_eq!(db.get_storage_at(addr, key, 3), None);
    assert_eq!(db.get_storage_at(addr, key, 7), Some(felt(70)));
}

#[test]
fn nonce_and_class_are_per_block_snapshots() {
    let mut db = Db::new();
    let addr = felt(0x42);
    let diff = BlockStateDiff {
        nonces: vec![NonceUpdate { address: addr, nonce: felt(1) }],
        class_hashes: vec![ClassUpdate { address: addr, class_hash: felt(0xc1) }],
        storage: vec![],
    };
    db.apply_block(6, &diff).unwrap();
    // Point lookups hit exactly the target block.
    assert_eq!(db.get_nonce(6, addr), Some(felt(1)));
    assert_eq!(db.get_nonce(5, addr), None);
    assert_eq!(db.get_nonce(7, addr), None);
    assert_eq!(db.get_class_hash(6, addr), Some(felt(0xc1)));
    assert_eq!(db.get_class_hash(7, addr), None);
    assert_eq!(db.get_nonce(6, felt(0x43)), None);
}

#[test]
fn read_transaction_keeps_its_snapshot() {
    let mut db = Db::new();
    let addr = felt(1);
    let key = felt(2);
    db.apply_block(1, &storage_only(addr, key, felt(10))).unwrap();
    // A reader opens before the writer commits block 2.
    let rtx = db.begin_ro();
    db.apply_block(
        2,
        &BlockStateDiff {
            nonces: vec![NonceUpdate { address: addr, nonce: felt(9) }],
            class_hashes: vec![],
            storage: vec![StorageUpdate { address: addr, key, value: felt(20) }],
        },
    )
    .unwrap();
    // The database sees the commit; the reader never does.
    assert_eq!(db.get_storage_at(addr, key, 2), Some(felt(20)));
    assert_eq!(db.get_nonce(2, addr), Some(felt(9)));
    assert_eq!(rtx.get_storage_at(addr, key, 2), Some(felt(10)));
    assert_eq!(rtx.get_nonce(2, addr), None);
    assert_eq!(rtx.get_storage_at(addr, key, 1), Some(felt(10)));
}
