use state_store::codec::CodecError;
use state_store::felt::Felt;
use state_store::tables::{schema_registry, ColumnCodec, StorageEntryChangeList, TableId};

#[test]
fn table_names_are_stable() {
    assert_eq!(TableId::NonceChanges.name(), "NonceChanges");
    assert_eq!(TableId::ContractClassChanges.name(), "ContractClassChanges");
    assert_eq!(TableId::StorageChangeSet.name(), "StorageChangeSet");
    assert_eq!(TableId::StorageChanges.name(), "StorageChanges");
}

#[test]
fn table_names_are_distinct() {
    let ids = [
        TableId::NonceChanges,
        TableId::ContractClassChanges,
        TableId::StorageChangeSet,
        TableId::StorageChanges,
    ];
    for a in ids {
        for b in ids {
            if a != b {
                assert_ne!(a.name(), b.name());
            }
        }
    }
}

#[test]
fn only_the_change_set_table_is_dupsort() {
    assert!(TableId::StorageChangeSet.is_dupsort());
    assert!(!TableId::NonceChanges.is_dupsort());
    assert!(!TableId::ContractClassChanges.is_dupsort());
    assert!(!TableId::StorageChanges.is_dupsort());
}

#[test]
fn change_list_serializes_key_then_blocks() {
    let cl = StorageEntryChangeList {
        key: Felt::new(0, 0, 0, 9),
        block_list: vec![1, 5],
    };
    let bytes = cl.compress();
    assert_eq!(bytes.len(), 32 + 8 + 16);
    // First 32 bytes: the key, big-endian.
    let mut key = vec![0u8; 32];
    key[31] = 9;
    assert_eq!(&bytes[0..32], &key[..]);
    // Then the element count and the blocks.
    assert_eq!(&bytes[32..40], &[0, 0, 0, 0, 0, 0, 0, 2]);
    assert_eq!(&bytes[40..48], &[0, 0, 0, 0, 0, 0, 0, 1]);
    assert_eq!(&bytes[48..56], &[0, 0, 0, 0, 0, 0, 0, 5]);
}

#[test]
fn change_list_round_trip() {
    let key = Felt::new(3, 1, 4, 1);
    let blocks = vec![1u64, 5, 10, 1_000_000];
    let bytes = StorageEntryChangeList {
        key,
        block_list: blocks.clone(),
    }
    .compress();
    let back = StorageEntryChangeList::decompress(&bytes).unwrap();
    assert_eq!(back.key, key);
    assert_eq!(back.block_list, blocks);
}

#[test]
fn change_list_empty_round_trip() {
    let key = Felt::from_u64(42);
    let bytes = StorageEntryChangeList {
        key,
        block_list: vec![],
    }
    .compress();
    let back = StorageEntryChangeList::decompress(&bytes).unwrap();
    assert_eq!(back.key, key);
    assert_eq!(back.block_list, Vec::<u64>::new());
}

#[test]
fn change_list_shorter_than_key_is_invalid_length() {
    let r = StorageEntryChangeList::decompress(&[0u8; 31]);
    assert!(matches!(r, Err(CodecError::InvalidLength)));
}

#[test]
fn change_list_bad_key_is_corrupted() {
    let mut bytes = vec![0u8; 40];
    bytes[0] = 0x08; // key out of the field's range
    bytes[39] = 0; // empty block list
    let r = StorageEntryChangeList::decompress(&bytes);
    assert!(matches!(r, Err(CodecError::Corrupted)));
}

#[test]
fn change_list_truncated_blocks_are_eof() {
    let bytes = StorageEntryChangeList {
        key: Felt::from_u64(1),
        block_list: vec![1, 2, 3],
    }
    .compress();
    let r = StorageEntryChangeList::decompress(&bytes[0..bytes.len() - 8]);
    assert!(matches!(r, Err(CodecError::UnexpectedEof)));
}

#[test]
fn schema_registry_declares_all_four_tables() {
    let reg = schema_registry();
    assert_eq!(reg.len(), 4);
    let names: Vec<&str> = reg.iter().map(|s| s.name).collect();
    assert_eq!(
        names,
        vec![
            "NonceChanges",
            "ContractClassChanges",
            "StorageChangeSet",
            "StorageChanges"
        ]
    );
    // Only the change-set table is dup-sorted, by the raw storage key.
    assert_eq!(reg[2].subkey, Some(ColumnCodec::FeltKey));
    assert_eq!(reg[2].key, ColumnCodec::AddressKey);
    assert_eq!(reg[2].value, ColumnCodec::ChangeList);
    for i in [0usize, 1, 3] {
        assert_eq!(reg[i].subkey, None);
        assert_eq!(reg[i].key, ColumnCodec::BlockAddress);
        assert_eq!(reg[i].value, ColumnCodec::FeltValue);
    }
}
