//! The ledger writer and the changelog store.
//!
//! Each change record maps to one persisted row; a batch of rows is appended
//! under "insert, ignore on primary-key conflict" semantics, keyed by
//! `(object_id, cp_sequence_number)`. The table is append-only, and the
//! conflict-ignore append makes redelivery of a checkpoint idempotent:
//! committing the same batch twice leaves exactly the rows of the first
//! commit.

use vstd::prelude::*;

use crate::detect::{
    ChangeKindView, CoinBalanceBucketChangeKind, CoinBalanceBuckets, ProcessedCoinBalanceBucket,
    ProcessedView,
};
use crate::encoding::{coin_type_encodable, encode_coin_type, encode_coin_type_spec};
use crate::model::{ChangeError, StoredCoinOwnerKind};

verus! {

/// A persisted changelog row. The payload columns are filled exactly when
/// the row records a newly classified state; a tombstone row leaves all four
/// empty.
#[derive(Clone, Debug, PartialEq, Eq)]
pub struct StoredCoinBalanceBucket {
    pub object_id: u64,
    pub cp_sequence_number: u64,
    pub owner_kind: Option<StoredCoinOwnerKind>,
    pub owner_id: Option<u64>,
    pub coin_type: Option<Vec<u8>>,
    pub coin_balance_bucket: Option<i16>,
}

/// The mathematical value of a [`StoredCoinBalanceBucket`].
#[verifier::ext_equal]
pub struct RowView {
    pub object_id: u64,
    pub cp_sequence_number: u64,
    pub owner_kind: Option<StoredCoinOwnerKind>,
    pub owner_id: Option<u64>,
    pub coin_type: Option<Seq<u8>>,
    pub coin_balance_bucket: Option<i16>,
}

impl View for StoredCoinBalanceBucket {
    type V = RowView;

    open spec fn view(&self) -> RowView {
        RowView {
            object_id: self.object_id,
            cp_sequence_number: self.cp_sequence_number,
            owner_kind: self.owner_kind,
            owner_id: self.owner_id,
            coin_type: match self.coin_type {
                Some(bytes) => Some(bytes@),
                None => None,
            },
            coin_balance_bucket: self.coin_balance_bucket,
        }
    }
}

impl StoredCoinBalanceBucket {
    /// An owned copy whose view equals this one's.
    pub fn duplicate(&self) -> (r: StoredCoinBalanceBucket)
        ensures
            r@ == self@,
    {
        let coin_type = match &self.coin_type {
            Some(bytes) => {
                let copy = bytes.clone();
                proof {
                    assert(copy@ =~= bytes@);
                }
                Some(copy)
            },
            None => None,
        };
        let r = StoredCoinBalanceBucket {
            object_id: self.object_id,
            cp_sequence_number: self.cp_sequence_number,
            owner_kind: self.owner_kind,
            owner_id: self.owner_id,
            coin_type,
            coin_balance_bucket: self.coin_balance_bucket,
        };
        proof {
            assert(r@ =~= self@);
        }
        r
    }
}

/// Whether a record can be mapped to its row: a tombstone always can, and a
/// freshly classified state can when its coin type has its canonical binary
/// encoding.
pub open spec fn record_convertible(v: ProcessedView) -> bool {
    match v.change {
        ChangeKindView::Insert { coin_type, .. } => coin_type_encodable(coin_type),
        ChangeKindView::Delete => true,
    }
}

/// The row of a record: payload columns filled from a freshly classified
/// state, with the coin type in its canonical binary encoding, and all of
/// them empty for a tombstone.
pub open spec fn row_spec(v: ProcessedView) -> RowView
    recommends
        record_convertible(v),
{
    match v.change {
        ChangeKindView::Insert { owner_kind, owner_id, coin_type, balance_bucket } => RowView {
            object_id: v.object_id,
            cp_sequence_number: v.cp_sequence_number,
            owner_kind: Some(owner_kind),
            owner_id: Some(owner_id),
            coin_type: Some(encode_coin_type_spec(coin_type)),
            coin_balance_bucket: Some(balance_bucket),
        },
        ChangeKindView::Delete => RowView {
            object_id: v.object_id,
            cp_sequence_number: v.cp_sequence_number,
            owner_kind: None,
            owner_id: None,
            coin_type: None,
            coin_balance_bucket: None,
        },
    }
}

impl ProcessedCoinBalanceBucket {
    /// The persisted row of this record. Fails, with the record's object id,
    /// exactly when the record carries a coin type that has no canonical
    /// binary encoding.
    pub fn to_stored(&self) -> (r: Result<StoredCoinBalanceBucket, ChangeError>)
        ensures
            match r {
                Ok(row) => record_convertible(self@) && row@ == row_spec(self@),
                Err(e) => !record_convertible(self@) && e == (ChangeError::Serialization {
                    object_id: self.object_id,
                }),
            },
    {
        match &self.change {
            CoinBalanceBucketChangeKind::Insert {
                owner_kind,
                owner_id,
                coin_type,
                balance_bucket,
            } => match encode_coin_type(coin_type) {
                Some(bytes) => {
                    let row = StoredCoinBalanceBucket {
                        object_id: self.object_id,
                        cp_sequence_number: self.cp_sequence_number,
                        owner_kind: Some(*owner_kind),
                        owner_id: Some(*owner_id),
                        coin_type: Some(bytes),
                        coin_balance_bucket: Some(*balance_bucket),
                    };
                    proof {
                        assert(row@ =~= row_spec(self@));
                    }
                    Ok(row)
                },
                None => Err(ChangeError::Serialization { object_id: self.object_id }),
            },
            CoinBalanceBucketChangeKind::Delete => {
                let row = StoredCoinBalanceBucket {
                    object_id: self.object_id,
                    cp_sequence_number: self.cp_sequence_number,
                    owner_kind: None,
                    owner_id: None,
                    coin_type: None,
                    coin_balance_bucket: None,
                };
                proof {
                    assert(row@ =~= row_spec(self@));
                }
                Ok(row)
            },
        }
    }
}

/// The primary key of a row.
pub open spec fn row_key(r: RowView) -> (u64, u64) {
    (r.object_id, r.cp_sequence_number)
}

/// Some row in the sequence carries the given primary key.
pub open spec fn has_key(rows: Seq<RowView>, key: (u64, u64)) -> bool {
    exists|k: int| 0 <= k < rows.len() && row_key(rows[k]) == key
}

/// The conflict-ignore batch append: each row of the batch, in order, is
/// appended unless its primary key is already present, and then it is
/// silently dropped.
pub open spec fn append_ignore(rows: Seq<RowView>, batch: Seq<RowView>) -> Seq<RowView>
    decreases batch.len(),
{
    if batch.len() == 0 {
        rows
    } else {
        let rows2 = if has_key(rows, row_key(batch[0])) {
            rows
        } else {
            rows.push(batch[0])
        };
        append_ignore(rows2, batch.subrange(1, batch.len() as int))
    }
}

/// Pushing a row adds exactly its key.
proof fn lemma_has_key_push(rows: Seq<RowView>, x: RowView, key: (u64, u64))
    ensures
        has_key(rows.push(x), key) <==> (has_key(rows, key) || row_key(x) == key),
{
    if has_key(rows, key) {
        let k = choose|k: int| 0 <= k < rows.len() && row_key(rows[k]) == key;
        assert(row_key(rows.push(x)[k]) == key);
    }
    if row_key(x) == key {
        assert(row_key(rows.push(x)[rows.len() as int]) == key);
    }
    if has_key(rows.push(x), key) {
        let k = choose|k: int| 0 <= k < rows.push(x).len() && row_key(rows.push(x)[k]) == key;
        if k < rows.len() {
            assert(row_key(rows[k]) == key);
        }
    }
}

/// The keys after a conflict-ignore append are the old keys together with
/// the batch's keys.
proof fn lemma_append_ignore_keys(rows: Seq<RowView>, batch: Seq<RowView>, key: (u64, u64))
    ensures
        has_key(append_ignore(rows, batch), key) <==> (has_key(rows, key) || exists|k: int|
            0 <= k < batch.len() && row_key(batch[k]) == key),
    decreases batch.len(),
{
    if batch.len() > 0 {
        let rows2 = if has_key(rows, row_key(batch[0])) {
            rows
        } else {
            rows.push(batch[0])
        };
        let rest = batch.subrange(1, batch.len() as int);
        lemma_has_key_push(rows, batch[0], key);
        lemma_append_ignore_keys(rows2, rest, key);
        assert(forall|k: int| 0 <= k < rest.len() ==> rest[k] == batch[k + 1]);
        if exists|k: int| 0 <= k < batch.len() && row_key(batch[k]) == key {
            let k = choose|k: int| 0 <= k < batch.len() && row_key(batch[k]) == key;
            if k > 0 {
                assert(row_key(rest[k - 1]) == key);
            } else {
                if has_key(rows, row_key(batch[0])) {
                    let k2 = choose|k2: int|
                        0 <= k2 < rows.len() && row_key(rows[k2]) == key;
                    assert(row_key(rows2[k2]) == key);
                }
            }
        }
        if exists|k: int| 0 <= k < rest.len() && row_key(rest[k]) == key {
            let k = choose|k: int| 0 <= k < rest.len() && row_key(rest[k]) == key;
            assert(row_key(batch[k + 1]) == key);
        }
    }
}

/// Appending a batch whose keys are all present changes nothing.
proof fn lemma_append_ignore_noop(rows: Seq<RowView>, batch: Seq<RowView>)
    requires
        forall|k: int| 0 <= k < batch.len() ==> has_key(rows, row_key(#[trigger] batch[k])),
    ensures
        append_ignore(rows, batch) == rows,
    decreases batch.len(),
{
    if batch.len() > 0 {
        let rest = batch.subrange(1, batch.len() as int);
        assert(forall|k: int| 0 <= k < rest.len() ==> rest[k] == batch[k + 1]);
        lemma_append_ignore_noop(rows, rest);
    }
}

/// The conflict-ignore append is idempotent: appending the same batch a
/// second time leaves exactly the rows of the first append. This is what
/// makes at-least-once redelivery of a checkpoint safe.
pub proof fn lemma_commit_idempotent(rows: Seq<RowView>, batch: Seq<RowView>)
    ensures
        append_ignore(append_ignore(rows, batch), batch) == append_ignore(rows, batch),
{
    let t = append_ignore(rows, batch);
    assert forall|k: int| 0 <= k < batch.len() implies has_key(
        t,
        row_key(#[trigger] batch[k]),
    ) by {
        lemma_append_ignore_keys(rows, batch, row_key(batch[k]));
    }
    lemma_append_ignore_noop(t, batch);
}

/// Stepping the conflict-ignore append over the last row of a batch.
proof fn lemma_append_ignore_snoc(rows: Seq<RowView>, batch: Seq<RowView>, x: RowView)
    ensures
        append_ignore(rows, batch.push(x)) == {
            let t = append_ignore(rows, batch);
            if has_key(t, row_key(x)) {
                t
            } else {
                t.push(x)
            }
        },
    decreases batch.len(),
{
    let whole = batch.push(x);
    if batch.len() == 0 {
        assert(whole[0] == x);
        assert(whole.subrange(1, whole.len() as int) =~= Seq::<RowView>::empty());
        let rows2 = if has_key(rows, row_key(x)) {
            rows
        } else {
            rows.push(x)
        };
        assert(append_ignore(rows2, whole.subrange(1, whole.len() as int)) == rows2);
    } else {
        assert(whole[0] == batch[0]);
        let rows2 = if has_key(rows, row_key(batch[0])) {
            rows
        } else {
            rows.push(batch[0])
        };
        assert(whole.subrange(1, whole.len() as int) =~= batch.subrange(
            1,
            batch.len() as int,
        ).push(x));
        lemma_append_ignore_snoc(rows2, batch.subrange(1, batch.len() as int), x);
    }
}

/// The in-memory model of the append-only changelog table.
pub struct ChangelogStore {
    pub rows: Vec<StoredCoinBalanceBucket>,
}

impl View for ChangelogStore {
    type V = Seq<RowView>;

    open spec fn view(&self) -> Seq<RowView> {
        self.rows@.map_values(|r: StoredCoinBalanceBucket| r@)
    }
}

impl ChangelogStore {
    /// An empty store.
    pub fn new() -> (s: ChangelogStore)
        ensures
            s@ == Seq::<RowView>::empty(),
    {
        let s = ChangelogStore { rows: Vec::new() };
        proof {
            assert(s@ =~= Seq::<RowView>::empty());
        }
        s
    }

    /// Whether a row with the given primary key is present.
    fn contains_key(&self, object_id: u64, cp_sequence_number: u64) -> (r: bool)
        ensures
            r == has_key(self@, (object_id, cp_sequence_number)),
    {
        let mut i: usize = 0;
        while i < self.rows.len()
            invariant
                i <= self@.len(),
                self@.len() == self.rows@.len(),
                forall|k: int|
                    0 <= k < i ==> row_key(#[trigger] self@[k]) != (
                        object_id,
                        cp_sequence_number,
                    ),
            decreases self@.len() - i,
        {
            if self.rows[i].object_id == object_id && self.rows[i].cp_sequence_number
                == cp_sequence_number {
                assert(row_key(self@[i as int]) == (object_id, cp_sequence_number));
                return true;
            }
            i = i + 1;
        }
        proof {
            if has_key(self@, (object_id, cp_sequence_number)) {
                let k = choose|k: int|
                    0 <= k < self@.len() && row_key(self@[k]) == (object_id, cp_sequence_number);
            }
        }
        false
    }
}

impl CoinBalanceBuckets {
    /// The ledger writer: map each record to its row and append the batch to
    /// the changelog store, silently dropping rows whose primary key is
    /// already present. Returns how many rows were actually appended.
    ///
    /// Fails, leaving the store untouched, exactly when some record carries
    /// a coin type that has no canonical binary encoding; the error names
    /// the first such record's object id.
    pub fn commit(values: &Vec<ProcessedCoinBalanceBucket>, store: &mut ChangelogStore) -> (r:
        Result<usize, ChangeError>)
        ensures
            match r {
                Ok(count) => {
                    &&& forall|k: int|
                        0 <= k < values@.len() ==> record_convertible(#[trigger] values@[k]@)
                    &&& final(store)@ == append_ignore(
                        old(store)@,
                        values@.map_values(|v: ProcessedCoinBalanceBucket| row_spec(v@)),
                    )
                    &&& count == final(store)@.len() - old(store)@.len()
                },
                Err(e) => {
                    &&& exists|k: int|
                        0 <= k < values@.len() && !record_convertible(#[trigger] values@[k]@) && e
                            == (ChangeError::Serialization { object_id: values@[k].object_id })
                            && (forall|k2: int|
                            0 <= k2 < k ==> record_convertible(#[trigger] values@[k2]@))
                    &&& final(store)@ == old(store)@
                },
            },
    {
        let ghost batch = values@.map_values(|v: ProcessedCoinBalanceBucket| row_spec(v@));
        let mut rows: Vec<StoredCoinBalanceBucket> = Vec::new();
        let mut i: usize = 0;
        while i < values.len()
            invariant
                i <= values@.len(),
                batch == values@.map_values(|v: ProcessedCoinBalanceBucket| row_spec(v@)),
                rows@.len() == i,
                forall|k: int|
                    0 <= k < i ==> record_convertible(#[trigger] values@[k]@) && rows@[k]@
                        == batch[k],
            decreases values@.len() - i,
        {
            match values[i].to_stored() {
                Ok(row) => {
                    rows.push(row);
                },
                Err(e) => {
                    return Err(e);
                },
            }
            i = i + 1;
        }
        let mut count: usize = 0;
        let mut i: usize = 0;
        while i < rows.len()
            invariant
                i <= rows@.len(),
                batch.len() == rows@.len(),
                forall|k: int| 0 <= k < rows@.len() ==> (#[trigger] rows@[k])@ == batch[k],
                store@ == append_ignore(old(store)@, batch.subrange(0, i as int)),
                store@.len() >= old(store)@.len(),
                count == store@.len() - old(store)@.len(),
                count <= i,
            decreases rows@.len() - i,
        {
            proof {
                lemma_append_ignore_snoc(old(store)@, batch.subrange(0, i as int), batch[i as int]);
                assert(batch.subrange(0, i as int).push(batch[i as int]) =~= batch.subrange(
                    0,
                    i + 1,
                ));
            }
            let row = &rows[i];
            if !store.contains_key(row.object_id, row.cp_sequence_number) {
                let ghost s0 = store@;
                store.rows.push(row.duplicate());
                count = count + 1;
                proof {
                    assert(store@ =~= s0.push(rows@[i as int]@));
                }
            }
            i = i + 1;
        }
        proof {
            assert(batch.subrange(0, batch.len() as int) =~= batch);
        }
        Ok(count)
    }
}

} // verus!
