use state_store::felt::Felt;
use state_store::genesis::{
    seed_genesis, Builder, FeeTokenConfig, GasPrices, GenesisAccountAlloc, GenesisAllocation,
    GenesisBuilderError, GenesisClass, GenesisContractAlloc, UniversalDeployerConfig,
};
use state_store::store::Db;

fn felt(n: u64) -> Felt {
    Felt::from_u64(n)
}

fn complete_builder() -> Builder {
    Builder::new()
        .parent_hash(felt(1))
        .state_root(felt(2))
        .number(0)
        .timestamp(1_700_000_000)
        .sequencer_address(felt(0x5e))
        .gas_prices(GasPrices { eth: 100, strk: 200 })
        .fee_token(FeeTokenConfig {
            address: felt(0xfee),
            class_hash: felt(0xfc),
            decimals: 18,
        })
}

#[test]
fn build_succeeds_with_everything_set() {
    let class_hash = felt(0xc1);
    let g = complete_builder()
        .universal_deployer(UniversalDeployerConfig {
            address: felt(0xdc),
            class_hash: felt(0xd1),
        })
        .add_classes(vec![(
            GenesisClass {
                compiled_class_hash: felt(0xcc),
            },
            Some(class_hash),
        )])
        .add_accounts(vec![(
            felt(0xa1),
            GenesisAccountAlloc {
                class_hash,
                nonce: Some(felt(1)),
                storage: vec![(felt(1), felt(10))],
            },
        )])
        .build()
        .unwrap();
    assert_eq!(g.parent_hash, felt(1));
    assert_eq!(g.state_root, felt(2));
    assert_eq!(g.number, 0);
    assert_eq!(g.timestamp, 1_700_000_000);
    assert_eq!(g.sequencer_address, felt(0x5e));
    assert_eq!(g.gas_prices, GasPrices { eth: 100, strk: 200 });
    assert_eq!(g.classes.len(), 1);
    assert_eq!(g.classes[0].0, class_hash);
    assert_eq!(g.allocations.len(), 1);
    assert_eq!(g.allocations[0].0, felt(0xa1));
}

#[test]
fn missing_fields_fail_in_order() {
    assert_eq!(
        Builder::new().build().unwrap_err(),
        GenesisBuilderError::ParentHashNotSet
    );
    assert_eq!(
        Builder::new().parent_hash(felt(1)).build().unwrap_err(),
        GenesisBuilderError::StateRootNotSet
    );
    assert_eq!(
        Builder::new()
            .parent_hash(felt(1))
            .state_root(felt(2))
            .build()
            .unwrap_err(),
        GenesisBuilderError::NumberNotSet
    );
    assert_eq!(
        Builder::new()
            .parent_hash(felt(1))
            .state_root(felt(2))
            .number(0)
            .build()
            .unwrap_err(),
        GenesisBuilderError::TimestampNotSet
    );
    assert_eq!(
        Builder::new()
            .parent_hash(felt(1))
            .state_root(felt(2))
            .number(0)
            .timestamp(5)
            .build()
            .unwrap_err(),
        GenesisBuilderError::SequencerAddressNotSet
    );
    assert_eq!(
        Builder::new()
            .parent_hash(felt(1))
            .state_root(felt(2))
            .number(0)
            .timestamp(5)
            .sequencer_address(felt(3))
            .build()
            .unwrap_err(),
        GenesisBuilderError::FeeTokenNotSet
    );
    assert_eq!(
        Builder::new()
            .parent_hash(felt(1))
            .state_root(felt(2))
            .number(0)
            .timestamp(5)
            .sequencer_address(felt(3))
            .fee_token(FeeTokenConfig {
                address: felt(4),
                class_hash: felt(5),
                decimals: 18,
            })
            .build()
            .unwrap_err(),
        GenesisBuilderError::L1GasPricesNotSet
    );
}

#[test]
fn contract_without_class_hash_is_rejected() {
    let r = complete_builder()
        .add_contracts(vec![(
            felt(0xb1),
            GenesisContractAlloc {
                class_hash: None,
                nonce: None,
                storage: vec![],
            },
        )])
        .build();
    assert_eq!(r.unwrap_err(), GenesisBuilderError::MissingClassHash);
}

#[test]
fn unknown_class_hash_fails_and_writes_nothing() {
    let absent = felt(0xdead);
    let contract = felt(0xa7);
    let r = complete_builder()
        .add_accounts(vec![(
            contract,
            GenesisAccountAlloc {
                class_hash: absent,
                nonce: None,
                storage: vec![],
            },
        )])
        .build();
    assert_eq!(
        r.unwrap_err(),
        GenesisBuilderError::UnknownClassHash {
            contract,
            class_hash: absent,
        }
    );
    // Construction failed before anything could be seeded: storage shows
    // no trace of the attempt.
    let db = Db::new();
    assert_eq!(db.get_class_hash(0, contract), None);
    assert_eq!(db.get_nonce(0, contract), None);
    assert_eq!(db.get_storage_at(contract, felt(0), 0), None);
}

#[test]
fn first_registration_of_a_class_hash_wins() {
    let h = felt(0xc1);
    let g = complete_builder()
        .add_classes(vec![
            (GenesisClass { compiled_class_hash: felt(1) }, Some(h)),
            (GenesisClass { compiled_class_hash: felt(2) }, Some(h)),
        ])
        .build()
        .unwrap();
    assert_eq!(g.classes.len(), 1);
    assert_eq!(g.classes[0].1.compiled_class_hash, felt(1));
}

#[test]
fn class_hash_defaults_to_the_derived_one() {
    let g = complete_builder()
        .add_classes(vec![(
            GenesisClass { compiled_class_hash: felt(0xab) },
            None,
        )])
        .build()
        .unwrap();
    assert_eq!(g.classes[0].0, felt(0xab));
}

#[test]
fn builder_from_genesis_rebuilds_it() {
    let class_hash = felt(0xc1);
    let g = complete_builder()
        .add_classes(vec![(
            GenesisClass { compiled_class_hash: felt(0xcc) },
            Some(class_hash),
        )])
        .add_accounts(vec![(
            felt(0xa1),
            GenesisAccountAlloc {
                class_hash,
                nonce: None,
                storage: vec![],
            },
        )])
        .build()
        .unwrap();
    let g2 = Builder::from(g).build().unwrap();
    assert_eq!(g2.parent_hash, felt(1));
    assert_eq!(g2.number, 0);
    assert_eq!(g2.classes.len(), 1);
    assert_eq!(g2.allocations.len(), 1);
}

#[test]
fn genesis_seeds_block_zero_through_the_write_path() {
    let class_hash = felt(0xc1);
    let account = felt(0xa1);
    let g = complete_builder()
        .add_classes(vec![(
            GenesisClass { compiled_class_hash: felt(0xcc) },
            Some(class_hash),
        )])
        .add_accounts(vec![(
            account,
            GenesisAccountAlloc {
                class_hash,
                nonce: Some(felt(0)),
                storage: vec![(felt(7), felt(77)), (felt(8), felt(88))],
            },
        )])
        .build()
        .unwrap();
    let mut db = Db::new();
    seed_genesis(&mut db, &g).unwrap();
    assert_eq!(db.get_class_hash(0, account), Some(class_hash));
    assert_eq!(db.get_nonce(0, account), Some(felt(0)));
    assert_eq!(db.get_storage_at(account, felt(7), 0), Some(felt(77)));
    assert_eq!(db.get_storage_at(account, felt(8), 5), Some(felt(88)));
    assert_eq!(db.get_storage_at(account, felt(9), 5), None);
}

#[test]
fn same_address_allocation_replaces_existing() {
    let class_hash = felt(0xc1);
    let addr = felt(0xa1);
    let g = complete_builder()
        .add_classes(vec![(
            GenesisClass { compiled_class_hash: felt(0xcc) },
            Some(class_hash),
        )])
        .add_accounts(vec![(
            addr,
            GenesisAccountAlloc {
                class_hash,
                nonce: Some(felt(1)),
                storage: vec![],
            },
        )])
        .add_accounts(vec![(
            addr,
            GenesisAccountAlloc {
                class_hash,
                nonce: Some(felt(2)),
                storage: vec![],
            },
        )])
        .build()
        .unwrap();
    // One allocation per address: the later account replaced the earlier.
    assert_eq!(g.allocations.len(), 1);
    match &g.allocations[0].1 {
        GenesisAllocation::Account(acc) => assert_eq!(acc.nonce, Some(felt(2))),
        GenesisAllocation::Contract(_) => panic!("expected the account allocation"),
    }
}

#[test]
fn duplicate_addresses_in_one_call_keep_the_last() {
    let class_hash = felt(0xc1);
    let addr = felt(0xa1);
    let g = complete_builder()
        .add_classes(vec![(
            GenesisClass { compiled_class_hash: felt(0xcc) },
            Some(class_hash),
        )])
        .add_contracts(vec![
            (
                addr,
                GenesisContractAlloc {
                    class_hash: Some(class_hash),
                    nonce: Some(felt(1)),
                    storage: vec![],
                },
            ),
            (
                addr,
                GenesisContractAlloc {
                    class_hash: Some(class_hash),
                    nonce: Some(felt(9)),
                    storage: vec![],
                },
            ),
        ])
        .build()
        .unwrap();
    assert_eq!(g.allocations.len(), 1);
    match &g.allocations[0].1 {
        GenesisAllocation::Contract(c) => assert_eq!(c.nonce, Some(felt(9))),
        GenesisAllocation::Account(_) => panic!("expected the contract allocation"),
    }
}

#[test]
fn replacement_spans_allocation_kinds() {
    let class_hash = felt(0xc1);
    let addr = felt(0xa1);
    let g = complete_builder()
        .add_classes(vec![(
            GenesisClass { compiled_class_hash: felt(0xcc) },
            Some(class_hash),
        )])
        .add_contracts(vec![(
            addr,
            GenesisContractAlloc {
                class_hash: Some(class_hash),
                nonce: None,
                storage: vec![],
            },
        )])
        .add_accounts(vec![(
            addr,
            GenesisAccountAlloc {
                class_hash,
                nonce: None,
                storage: vec![],
            },
        )])
        .build()
        .unwrap();
    assert_eq!(g.allocations.len(), 1);
    assert!(matches!(g.allocations[0].1, GenesisAllocation::Account(_)));
}

#[test]
fn replaced_faulty_allocation_no_longer_fails_the_build() {
    let class_hash = felt(0xc1);
    let addr = felt(0xa1);
    // The first allocation references an absent class hash, but it is
    // replaced before the build: only the survivor is validated.
    let g = complete_builder()
        .add_classes(vec![(
            GenesisClass { compiled_class_hash: felt(0xcc) },
            Some(class_hash),
        )])
        .add_accounts(vec![(
            addr,
            GenesisAccountAlloc {
                class_hash: felt(0xdead),
                nonce: None,
                storage: vec![],
            },
        )])
        .add_accounts(vec![(
            addr,
            GenesisAccountAlloc {
                class_hash,
                nonce: None,
                storage: vec![],
            },
        )])
        .build()
        .unwrap();
    assert_eq!(g.allocations.len(), 1);
}

#[test]
fn seeding_writes_only_the_surviving_allocation() {
    let class_hash = felt(0xc1);
    let addr = felt(0xa1);
    let g = complete_builder()
        .add_classes(vec![(
            GenesisClass { compiled_class_hash: felt(0xcc) },
            Some(class_hash),
        )])
        .add_accounts(vec![(
            addr,
            GenesisAccountAlloc {
                class_hash,
                nonce: None,
                storage: vec![(felt(7), felt(77))],
            },
        )])
        .add_accounts(vec![(
            addr,
            GenesisAccountAlloc {
                class_hash,
                nonce: None,
                storage: vec![(felt(8), felt(88))],
            },
        )])
        .build()
        .unwrap();
    let mut db = Db::new();
    seed_genesis(&mut db, &g).unwrap();
    // The replaced allocation's storage key was never written.
    assert_eq!(db.get_storage_at(addr, felt(7), 0), None);
    assert_eq!(db.get_storage_at(addr, felt(8), 0), Some(felt(88)));
}
