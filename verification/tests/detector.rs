use coin_balance_buckets::detect::{
    CoinBalanceBucketChangeKind, CoinBalanceBuckets, ProcessedCoinBalanceBucket,
};
use coin_balance_buckets::model::{
    ChangeError, CheckpointView, CoinData, CoinType, ObjectSnapshot, Owner, StoredCoinOwnerKind,
};

fn sui_type() -> CoinType {
    let mut address = vec![0u8; 32];
    address[31] = 2;
    CoinType { address, module: b"sui".to_vec(), name: b"SUI".to_vec() }
}

fn gas_coin(id: u64, owner: u64, balance: u64) -> ObjectSnapshot {
    ObjectSnapshot {
        object_id: id,
        owner: Owner::AddressOwner(owner),
        coin: Some(CoinData { coin_type: sui_type(), balance }),
    }
}

fn coin_of(id: u64, owner: u64, balance: u64, coin_type: CoinType) -> ObjectSnapshot {
    ObjectSnapshot {
        object_id: id,
        owner: Owner::AddressOwner(owner),
        coin: Some(CoinData { coin_type, balance }),
    }
}

fn checkpoint(
    cp_sequence_number: u64,
    input_objects: Vec<ObjectSnapshot>,
    output_objects: Vec<ObjectSnapshot>,
) -> CheckpointView {
    CheckpointView { cp_sequence_number, input_objects, output_objects }
}

#[test]
fn test_process_coin_balance_buckets_new_sui_coin() {
    let addr0 = 100u64;
    let cp = checkpoint(1, vec![], vec![gas_coin(0, addr0, 0), gas_coin(1, addr0, 100)]);
    let values = CoinBalanceBuckets.process(&cp).unwrap();
    assert_eq!(values.len(), 2);
    assert!(values.iter().any(|v| matches!(
        v.change,
        CoinBalanceBucketChangeKind::Insert {
            owner_kind: StoredCoinOwnerKind::Fastpath,
            balance_bucket: 0,
            ..
        }
    )));
    assert!(values.iter().any(|v| matches!(
        v.change,
        CoinBalanceBucketChangeKind::Insert {
            owner_kind: StoredCoinOwnerKind::Fastpath,
            balance_bucket: 2,
            ..
        }
    )));
}

#[test]
fn test_process_coin_balance_buckets_new_other_coin() {
    let addr0 = 100u64;
    // The type tag written "0x0::a::b": a zero defining address, module "a",
    // struct name "b".
    let coin_type = CoinType {
        address: vec![0u8; 32],
        module: b"a".to_vec(),
        name: b"b".to_vec(),
    };
    let cp = checkpoint(1, vec![], vec![coin_of(0, addr0, 10, coin_type.clone())]);
    let values = CoinBalanceBuckets.process(&cp).unwrap();
    assert_eq!(values.len(), 1);
    assert_eq!(
        &values[0].change,
        &CoinBalanceBucketChangeKind::Insert {
            owner_kind: StoredCoinOwnerKind::Fastpath,
            balance_bucket: 1,
            coin_type: coin_type.clone(),
            owner_id: addr0,
        }
    );
}

#[test]
fn test_process_coin_balance_buckets_balance_change() {
    let addr0 = 100u64;
    let addr1 = 101u64;
    let cp = checkpoint(1, vec![], vec![gas_coin(0, addr0, 10010)]);
    let values = CoinBalanceBuckets.process(&cp).unwrap();
    assert_eq!(values.len(), 1);
    assert_eq!(
        values[0].change,
        CoinBalanceBucketChangeKind::Insert {
            owner_kind: StoredCoinOwnerKind::Fastpath,
            balance_bucket: 4,
            coin_type: sui_type(),
            owner_id: addr0,
        }
    );
    // Transfer 10 units, balance goes from 10010 to 10000.
    // The balance bucket of the original coin does not change.
    // Only the creation of the new coin shows in the records.
    let cp = checkpoint(
        2,
        vec![gas_coin(0, addr0, 10010)],
        vec![gas_coin(0, addr0, 10000), gas_coin(1, addr1, 10)],
    );
    let values = CoinBalanceBuckets.process(&cp).unwrap();
    assert_eq!(values.len(), 1);
    assert_eq!(
        values[0].change,
        CoinBalanceBucketChangeKind::Insert {
            owner_kind: StoredCoinOwnerKind::Fastpath,
            balance_bucket: 1,
            coin_type: sui_type(),
            owner_id: addr1,
        }
    );

    // Transfer 1 unit, balance goes from 10000 to 9999.
    // The balance bucket changes, so both the old owner and the new owner
    // see a change.
    let cp = checkpoint(
        3,
        vec![gas_coin(0, addr0, 10000)],
        vec![gas_coin(0, addr0, 9999), gas_coin(2, addr1, 1)],
    );
    let values = CoinBalanceBuckets.process(&cp).unwrap();
    assert_eq!(values.len(), 2);
    assert!(values.iter().any(|v| v.change
        == CoinBalanceBucketChangeKind::Insert {
            owner_kind: StoredCoinOwnerKind::Fastpath,
            balance_bucket: 3,
            coin_type: sui_type(),
            owner_id: addr0,
        }));
    assert!(values.iter().any(|v| v.change
        == CoinBalanceBucketChangeKind::Insert {
            owner_kind: StoredCoinOwnerKind::Fastpath,
            balance_bucket: 0,
            coin_type: sui_type(),
            owner_id: addr1,
        }));
}

#[test]
fn test_process_coin_balance_buckets_coin_deleted() {
    let addr0 = 100u64;
    let cp = checkpoint(2, vec![gas_coin(0, addr0, 100)], vec![]);
    let values = CoinBalanceBuckets.process(&cp).unwrap();
    assert_eq!(values.len(), 1);
    assert_eq!(values[0].change, CoinBalanceBucketChangeKind::Delete);
}

#[test]
fn test_process_coin_balance_buckets_owner_change() {
    let addr0 = 100u64;
    let addr1 = 101u64;
    let cp = checkpoint(
        2,
        vec![gas_coin(0, addr0, 100)],
        vec![gas_coin(0, addr1, 100)],
    );
    let values = CoinBalanceBuckets.process(&cp).unwrap();
    assert_eq!(values.len(), 1);
    assert_eq!(
        values[0].change,
        CoinBalanceBucketChangeKind::Insert {
            owner_kind: StoredCoinOwnerKind::Fastpath,
            balance_bucket: 2,
            coin_type: sui_type(),
            owner_id: addr1,
        }
    );
}

#[test]
fn test_process_coin_balance_buckets_object_owned() {
    let addr0 = 100u64;
    let addr1 = 101u64;
    // Balance buckets are not tracked for object owners, so losing the
    // single owner counts as a delete even though the object still exists.
    let cp = checkpoint(
        2,
        vec![gas_coin(0, addr0, 100)],
        vec![ObjectSnapshot {
            object_id: 0,
            owner: Owner::ObjectOwner(addr1),
            coin: Some(CoinData { coin_type: sui_type(), balance: 100 }),
        }],
    );
    let values = CoinBalanceBuckets.process(&cp).unwrap();
    assert_eq!(values.len(), 1);
    assert_eq!(values[0].change, CoinBalanceBucketChangeKind::Delete);
}

#[test]
fn test_process_rejects_changed_coin_ness() {
    let addr0 = 100u64;
    // The object is a coin before the checkpoint but not after it: an
    // upstream classification defect, so processing fails.
    let cp = checkpoint(
        2,
        vec![gas_coin(7, addr0, 100)],
        vec![ObjectSnapshot { object_id: 7, owner: Owner::AddressOwner(addr0), coin: None }],
    );
    assert_eq!(
        CoinBalanceBuckets.process(&cp),
        Err(ChangeError::NotACoin { object_id: 7 })
    );

    // And the other way round: a prior non-coin became a coin.
    let cp = checkpoint(
        2,
        vec![ObjectSnapshot { object_id: 9, owner: Owner::AddressOwner(addr0), coin: None }],
        vec![gas_coin(9, addr0, 100)],
    );
    assert_eq!(
        CoinBalanceBuckets.process(&cp),
        Err(ChangeError::NotACoin { object_id: 9 })
    );
}

#[test]
fn test_process_output_is_sorted_and_deduplicated() {
    let addr0 = 100u64;
    let addr1 = 101u64;
    // Inputs arrive in no particular order; the records come out in object-id
    // order, one per id.
    let cp = checkpoint(
        5,
        vec![
            gas_coin(9, addr0, 10),
            gas_coin(3, addr0, 10),
            gas_coin(6, addr0, 10),
        ],
        vec![gas_coin(4, addr1, 1000), gas_coin(6, addr1, 10)],
    );
    let values = CoinBalanceBuckets.process(&cp).unwrap();
    let ids: Vec<u64> = values.iter().map(|v| v.object_id).collect();
    assert_eq!(ids, vec![3, 4, 6, 9]);
    assert_eq!(values[0].change, CoinBalanceBucketChangeKind::Delete);
    assert!(matches!(
        values[1].change,
        CoinBalanceBucketChangeKind::Insert { balance_bucket: 3, .. }
    ));
    assert!(matches!(
        values[2].change,
        CoinBalanceBucketChangeKind::Insert { owner_id: 101, .. }
    ));
    assert_eq!(values[3].change, CoinBalanceBucketChangeKind::Delete);
    for v in values.iter() {
        assert_eq!(v.cp_sequence_number, 5);
    }
    let _ = ProcessedCoinBalanceBucket {
        object_id: 0,
        cp_sequence_number: 0,
        change: CoinBalanceBucketChangeKind::Delete,
    };
}

#[test]
fn test_process_unchanged_coin_emits_nothing() {
    let addr0 = 100u64;
    // Same owner, same bucket: no record.
    let cp = checkpoint(
        2,
        vec![gas_coin(0, addr0, 10010)],
        vec![gas_coin(0, addr0, 10000)],
    );
    let values = CoinBalanceBuckets.process(&cp).unwrap();
    assert_eq!(values.len(), 0);

    // A shared coin that stays shared is not tracked at all.
    let shared_before = ObjectSnapshot {
        object_id: 1,
        owner: Owner::Shared,
        coin: Some(CoinData { coin_type: sui_type(), balance: 5 }),
    };
    let shared_after = ObjectSnapshot {
        object_id: 1,
        owner: Owner::Shared,
        coin: Some(CoinData { coin_type: sui_type(), balance: 50 }),
    };
    let cp = checkpoint(3, vec![shared_before], vec![shared_after]);
    let values = CoinBalanceBuckets.process(&cp).unwrap();
    assert_eq!(values.len(), 0);
}
