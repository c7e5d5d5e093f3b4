//! The bucket and owner classifiers.
//!
//! A coin's balance is tracked only as a coarse bucket: `0` for a zero
//! balance, and otherwise the floor of the base-10 logarithm of the balance.
//! An object is tracked only while a single address owns it.

use vstd::prelude::*;

use crate::model::{Authenticator, ChangeError, ObjectSnapshot, Owner, StoredCoinOwnerKind};

verus! {

/// `10^k`.
pub open spec fn pow10(k: nat) -> nat
    decreases k,
{
    if k == 0 {
        1
    } else {
        10 * pow10((k - 1) as nat)
    }
}

/// The floor of the base-10 logarithm of `n`, with `log10_floor(0) == 0`.
pub open spec fn log10_floor(n: nat) -> nat
    decreases n,
{
    if n < 10 {
        0
    } else {
        1 + log10_floor(n / 10)
    }
}

/// The balance bucket of a coin balance: `0` for a zero balance, otherwise
/// the floor of the base-10 logarithm.
pub open spec fn bucket_spec(balance: u64) -> i16 {
    if balance == 0 {
        0
    } else {
        log10_floor(balance as nat) as i16
    }
}

/// `log10_floor` stays below `k` as long as `n` stays below `10^(k+1)`.
proof fn lemma_log10_floor_below(n: nat, k: nat)
    requires
        n < pow10(k + 1),
    ensures
        log10_floor(n) <= k,
    decreases n,
{
    if n >= 10 {
        assert(pow10(k + 1) == 10 * pow10(k));
        assert(k >= 1) by {
            if k == 0 {
                assert(pow10(1) == 10);
            }
        }
        let p = pow10(k);
        assert(n / 10 < p) by (nonlinear_arith)
            requires
                n < 10 * p,
        {
        }
        lemma_log10_floor_below(n / 10, (k - 1) as nat);
    }
}

/// On a 64-bit balance the bucket never exceeds 19.
proof fn lemma_log10_floor_u64(n: u64)
    ensures
        log10_floor(n as nat) <= 19,
{
    assert(pow10(20) == 0x5_6bc7_5e2d_6310_0000) by {
        reveal_with_fuel(pow10, 21);
    }
    lemma_log10_floor_below(n as nat, 19);
}

/// Peeling one decimal digit steps `log10_floor` down by one.
proof fn lemma_log10_floor_step(n: nat)
    requires
        n >= 10,
    ensures
        log10_floor(n) == 1 + log10_floor(n / 10),
{
}

/// The balance bucket of a raw balance.
pub fn balance_bucket(balance: u64) -> (r: i16)
    ensures
        r == bucket_spec(balance),
{
    if balance == 0 {
        return 0;
    }
    let mut cur: u64 = balance;
    let mut k: u64 = 0;
    while cur >= 10
        invariant
            cur >= 1,
            log10_floor(balance as nat) == k + log10_floor(cur as nat),
            k <= log10_floor(balance as nat),
        decreases cur,
    {
        proof {
            lemma_log10_floor_step(cur as nat);
            lemma_log10_floor_u64(balance);
        }
        cur = cur / 10;
        k = k + 1;
    }
    proof {
        lemma_log10_floor_u64(balance);
    }
    k as i16
}

/// The bucket of a snapshot's coin balance. Fails with
/// [`ChangeError::NotACoin`] exactly when the snapshot carries no coin
/// payload.
pub fn get_coin_balance_bucket(object: &ObjectSnapshot) -> (r: Result<i16, ChangeError>)
    ensures
        match r {
            Ok(bucket) => object.coin matches Some(coin) && bucket == bucket_spec(coin.balance),
            Err(e) => !object.is_coin() && e == (ChangeError::NotACoin {
                object_id: object.object_id,
            }),
        },
{
    match &object.coin {
        Some(coin) => Ok(balance_bucket(coin.balance)),
        None => Err(ChangeError::NotACoin { object_id: object.object_id }),
    }
}

/// The owner classification of an ownership descriptor: the owning address
/// and how it holds the object, when a single address owns it.
pub open spec fn owner_spec(owner: Owner) -> Option<(StoredCoinOwnerKind, u64)> {
    match owner {
        Owner::AddressOwner(address) => Some((StoredCoinOwnerKind::Fastpath, address)),
        Owner::ConsensusV2 { authenticator: Authenticator::SingleOwner(address) } => Some(
            (StoredCoinOwnerKind::Consensus, address),
        ),
        Owner::Immutable => None,
        Owner::ObjectOwner(_) => None,
        Owner::Shared => None,
    }
}

/// The owner kind and address of a snapshot, when a single address owns it,
/// either through fast-path ownership or through consensus.
pub fn get_coin_owner(object: &ObjectSnapshot) -> (r: Option<(StoredCoinOwnerKind, u64)>)
    ensures
        r == owner_spec(object.owner),
{
    match &object.owner {
        Owner::AddressOwner(address) => Some((StoredCoinOwnerKind::Fastpath, *address)),
        Owner::ConsensusV2 { authenticator: Authenticator::SingleOwner(address) } => Some(
            (StoredCoinOwnerKind::Consensus, *address),
        ),
        Owner::Immutable => None,
        Owner::ObjectOwner(_) => None,
        Owner::Shared => None,
    }
}

} // verus!
