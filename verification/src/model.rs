//! The data model: object snapshots, ownership, coin types, checkpoint views,
//! the change records the detector emits, and the errors of this library.
//!
//! Object ids and addresses are modeled as unsigned integers: the logic only
//! compares them for equality and orders records by object id, and the
//! integers carry both with a total order the verifier knows.

use vstd::prelude::*;

verus! {

/// How a single-address owner holds an object: through fast-path ownership or
/// through consensus.
#[derive(Clone, Copy, Debug, PartialEq, Eq, Structural)]
pub enum StoredCoinOwnerKind {
    Fastpath,
    Consensus,
}

/// The authenticator of consensus-managed ownership. A coin is tracked only
/// when the authenticator names a single owning address.
#[derive(Clone, Copy, Debug, PartialEq, Eq, Structural)]
pub enum Authenticator {
    SingleOwner(u64),
}

/// The ownership descriptor of an object snapshot.
#[derive(Clone, Copy, Debug, PartialEq, Eq, Structural)]
pub enum Owner {
    /// Owned by a single address on the fast path.
    AddressOwner(u64),
    /// Owned by another object; not tracked.
    ObjectOwner(u64),
    /// Shared; not tracked.
    Shared,
    /// Immutable; not tracked.
    Immutable,
    /// Consensus-managed ownership; tracked when the authenticator is a
    /// single owner.
    ConsensusV2 { authenticator: Authenticator },
}

/// A coin's type tag: the defining address together with the module and
/// struct names, held as byte strings.
#[derive(Clone, Debug, PartialEq, Eq)]
pub struct CoinType {
    pub address: Vec<u8>,
    pub module: Vec<u8>,
    pub name: Vec<u8>,
}

/// The mathematical value of a [`CoinType`].
#[verifier::ext_equal]
pub struct CoinTypeView {
    pub address: Seq<u8>,
    pub module: Seq<u8>,
    pub name: Seq<u8>,
}

impl View for CoinType {
    type V = CoinTypeView;

    open spec fn view(&self) -> CoinTypeView {
        CoinTypeView { address: self.address@, module: self.module@, name: self.name@ }
    }
}

impl CoinType {
    /// An owned copy whose view equals this one's.
    pub fn duplicate(&self) -> (r: CoinType)
        ensures
            r@ == self@,
    {
        let r = CoinType {
            address: self.address.clone(),
            module: self.module.clone(),
            name: self.name.clone(),
        };
        proof {
            assert(r.address@ =~= self.address@);
            assert(r.module@ =~= self.module@);
            assert(r.name@ =~= self.name@);
            assert(r@ =~= self@);
        }
        r
    }
}

/// The coin payload of a snapshot: the coin's type and its balance.
#[derive(Clone, Debug, PartialEq, Eq)]
pub struct CoinData {
    pub coin_type: CoinType,
    pub balance: u64,
}

/// A point-in-time view of one on-chain object: its identity, its ownership,
/// and, exactly when the object is a coin, the coin's type and balance.
#[derive(Clone, Debug, PartialEq, Eq)]
pub struct ObjectSnapshot {
    pub object_id: u64,
    pub owner: Owner,
    pub coin: Option<CoinData>,
}

impl ObjectSnapshot {
    /// Whether the snapshot carries a coin payload.
    pub open spec fn is_coin(&self) -> bool {
        self.coin is Some
    }
}

/// One unit of work: the checkpoint's sequence number, the snapshots of the
/// objects that existed immediately before it (its inputs), and the latest
/// live snapshots of the objects immediately after it. Both sets hold at most
/// one snapshot per object id; the caller guarantees that.
pub struct CheckpointView {
    pub cp_sequence_number: u64,
    pub input_objects: Vec<ObjectSnapshot>,
    pub output_objects: Vec<ObjectSnapshot>,
}

/// Each object id occurs at most once in the sequence.
pub open spec fn unique_ids(s: Seq<ObjectSnapshot>) -> bool {
    forall|i: int, j: int|
        0 <= i < s.len() && 0 <= j < s.len() && i != j ==> s[i].object_id != s[j].object_id
}

/// The typed failures of this library.
#[derive(Clone, Copy, Debug, PartialEq, Eq, Structural)]
pub enum ChangeError {
    /// Bucket classification was invoked on a snapshot that carries no coin
    /// payload: an upstream type-classification defect.
    NotACoin { object_id: u64 },
    /// The coin type of a record could not be put into its canonical binary
    /// encoding.
    Serialization { object_id: u64 },
}

} // verus!
