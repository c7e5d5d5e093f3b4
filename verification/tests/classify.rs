use coin_balance_buckets::classify::{get_coin_balance_bucket, get_coin_owner};
use coin_balance_buckets::model::{
    Authenticator, ChangeError, CoinData, CoinType, ObjectSnapshot, Owner, StoredCoinOwnerKind,
};

fn sui_type() -> CoinType {
    let mut address = vec![0u8; 32];
    address[31] = 2;
    CoinType { address, module: b"sui".to_vec(), name: b"SUI".to_vec() }
}

fn gas_coin(id: u64, owner: u64, balance: u64) -> ObjectSnapshot {
    ObjectSnapshot {
        object_id: id,
        owner: Owner::AddressOwner(owner),
        coin: Some(CoinData { coin_type: sui_type(), balance }),
    }
}

#[test]
fn test_get_coin_balance_bucket() {
    let id = 17u64;

    // A coin with 0 balance classifies to bucket 0.
    let zero_coin = gas_coin(id, 0, 0);
    assert_eq!(get_coin_balance_bucket(&zero_coin).unwrap(), 0);

    // A coin with balance 1 (10^0).
    let one_coin = gas_coin(id, 0, 1);
    assert_eq!(get_coin_balance_bucket(&one_coin).unwrap(), 0);

    // A coin with balance 100 (10^2).
    let hundred_coin = gas_coin(id, 0, 100);
    assert_eq!(get_coin_balance_bucket(&hundred_coin).unwrap(), 2);

    // A coin with balance 1000000 (10^6).
    let million_coin = gas_coin(id, 0, 1000000);
    assert_eq!(get_coin_balance_bucket(&million_coin).unwrap(), 6);

    // This object carries no coin payload: its type is not a coin.
    let invalid_coin = ObjectSnapshot {
        object_id: id,
        owner: Owner::AddressOwner(0),
        coin: None,
    };
    assert!(get_coin_balance_bucket(&invalid_coin).is_err());
}

#[test]
fn test_get_coin_owner() {
    let id = 5u64;
    let addr1 = 0xabcd_1234u64;
    let addr_owned = gas_coin(id, addr1, 7);
    assert_eq!(
        get_coin_owner(&addr_owned),
        Some((StoredCoinOwnerKind::Fastpath, addr1))
    );

    // An object-owned object has no tracked owner.
    let obj_owned = ObjectSnapshot {
        object_id: id,
        owner: Owner::ObjectOwner(addr1),
        coin: Some(CoinData { coin_type: sui_type(), balance: 7 }),
    };
    assert_eq!(get_coin_owner(&obj_owned), None);

    // A shared object has no tracked owner.
    let shared = ObjectSnapshot {
        object_id: id,
        owner: Owner::Shared,
        coin: Some(CoinData { coin_type: sui_type(), balance: 7 }),
    };
    assert_eq!(get_coin_owner(&shared), None);

    // An immutable object has no tracked owner.
    let immutable = ObjectSnapshot {
        object_id: id,
        owner: Owner::Immutable,
        coin: Some(CoinData { coin_type: sui_type(), balance: 7 }),
    };
    assert_eq!(get_coin_owner(&immutable), None);

    let consensus_v2 = ObjectSnapshot {
        object_id: id,
        owner: Owner::ConsensusV2 { authenticator: Authenticator::SingleOwner(addr1) },
        coin: Some(CoinData { coin_type: sui_type(), balance: 7 }),
    };
    assert_eq!(
        get_coin_owner(&consensus_v2),
        Some((StoredCoinOwnerKind::Consensus, addr1))
    );
}

#[test]
fn test_bucket_boundaries() {
    assert_eq!(get_coin_balance_bucket(&gas_coin(1, 0, 9)).unwrap(), 0);
    assert_eq!(get_coin_balance_bucket(&gas_coin(1, 0, 10)).unwrap(), 1);
    assert_eq!(get_coin_balance_bucket(&gas_coin(1, 0, 99)).unwrap(), 1);
    assert_eq!(get_coin_balance_bucket(&gas_coin(1, 0, 999)).unwrap(), 2);
    assert_eq!(get_coin_balance_bucket(&gas_coin(1, 0, 1000)).unwrap(), 3);
    assert_eq!(get_coin_balance_bucket(&gas_coin(1, 0, u64::MAX)).unwrap(), 19);
}

#[test]
fn test_not_a_coin_error_names_the_object() {
    let snapshot = ObjectSnapshot { object_id: 42, owner: Owner::Shared, coin: None };
    assert_eq!(
        get_coin_balance_bucket(&snapshot),
        Err(ChangeError::NotACoin { object_id: 42 })
    );
}
