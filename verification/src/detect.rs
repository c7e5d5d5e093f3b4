//! The change detector.
//!
//! Given the snapshots before and after one checkpoint it classifies every
//! touched coin object into "no record", "insert the new bucket state" or
//! "delete the tracked state", emits at most one record per object id, and
//! returns the records in strictly increasing object-id order.

use vstd::prelude::*;

use crate::classify::{
    balance_bucket, bucket_spec, get_coin_owner, owner_spec,
};
use crate::model::{
    unique_ids, ChangeError, CheckpointView, CoinType, CoinTypeView, ObjectSnapshot,
    StoredCoinOwnerKind,
};

verus! {

/// The payload of a change record: either the freshly classified state of a
/// tracked coin, or a tombstone that ends its tracking.
#[derive(Clone, Debug, PartialEq, Eq)]
pub enum CoinBalanceBucketChangeKind {
    Insert {
        owner_kind: StoredCoinOwnerKind,
        owner_id: u64,
        coin_type: CoinType,
        balance_bucket: i16,
    },
    Delete,
}

/// The mathematical value of a [`CoinBalanceBucketChangeKind`].
#[verifier::ext_equal]
pub enum ChangeKindView {
    Insert {
        owner_kind: StoredCoinOwnerKind,
        owner_id: u64,
        coin_type: CoinTypeView,
        balance_bucket: i16,
    },
    Delete,
}

impl View for CoinBalanceBucketChangeKind {
    type V = ChangeKindView;

    open spec fn view(&self) -> ChangeKindView {
        match *self {
            CoinBalanceBucketChangeKind::Insert {
                owner_kind,
                owner_id,
                ref coin_type,
                balance_bucket,
            } => ChangeKindView::Insert {
                owner_kind,
                owner_id,
                coin_type: coin_type@,
                balance_bucket,
            },
            CoinBalanceBucketChangeKind::Delete => ChangeKindView::Delete,
        }
    }
}

/// One change record: at most one is produced per object id per checkpoint.
#[derive(Clone, Debug, PartialEq, Eq)]
pub struct ProcessedCoinBalanceBucket {
    pub object_id: u64,
    pub cp_sequence_number: u64,
    pub change: CoinBalanceBucketChangeKind,
}

/// The mathematical value of a [`ProcessedCoinBalanceBucket`].
#[verifier::ext_equal]
pub struct ProcessedView {
    pub object_id: u64,
    pub cp_sequence_number: u64,
    pub change: ChangeKindView,
}

impl View for ProcessedCoinBalanceBucket {
    type V = ProcessedView;

    open spec fn view(&self) -> ProcessedView {
        ProcessedView {
            object_id: self.object_id,
            cp_sequence_number: self.cp_sequence_number,
            change: self.change@,
        }
    }
}

/// First snapshot with the given object id, if any. When the ids are unique
/// this is the snapshot of that object.
pub open spec fn lookup(s: Seq<ObjectSnapshot>, id: u64) -> Option<ObjectSnapshot>
    decreases s.len(),
{
    if s.len() == 0 {
        None
    } else if s[0].object_id == id {
        Some(s[0])
    } else {
        lookup(s.subrange(1, s.len() as int), id)
    }
}

/// Skipping a prefix that does not hold `id` leaves `lookup` unchanged.
proof fn lemma_lookup_skip(s: Seq<ObjectSnapshot>, id: u64, i: int)
    requires
        0 <= i <= s.len(),
        forall|k: int| 0 <= k < i ==> s[k].object_id != id,
    ensures
        lookup(s, id) == lookup(s.subrange(i, s.len() as int), id),
    decreases i,
{
    if i == 0 {
        assert(s.subrange(0, s.len() as int) =~= s);
    } else {
        lemma_lookup_skip(s, id, i - 1);
        let t = s.subrange(i - 1, s.len() as int);
        assert(t[0] == s[i - 1]);
        assert(t.subrange(1, t.len() as int) =~= s.subrange(i, s.len() as int));
    }
}

/// `lookup` finds an id exactly when some snapshot carries it, and then
/// returns one of the snapshots that do.
proof fn lemma_lookup_exists(s: Seq<ObjectSnapshot>, id: u64)
    ensures
        (lookup(s, id) is Some) <==> (exists|k: int|
            0 <= k < s.len() && s[k].object_id == id),
        lookup(s, id) matches Some(p) ==> exists|k: int|
            0 <= k < s.len() && s[k] == p && s[k].object_id == id,
    decreases s.len(),
{
    if s.len() > 0 && s[0].object_id != id {
        let t = s.subrange(1, s.len() as int);
        lemma_lookup_exists(t, id);
        assert(forall|k: int| 0 <= k < t.len() ==> t[k] == s[k + 1]);
        if exists|k: int| 0 <= k < s.len() && s[k].object_id == id {
            let k = choose|k: int| 0 <= k < s.len() && s[k].object_id == id;
            assert(t[k - 1] == s[k]);
        }
        if lookup(s, id) is Some {
            let p = lookup(s, id)->Some_0;
            let k = choose|k: int| 0 <= k < t.len() && t[k] == p && t[k].object_id == id;
            assert(s[k + 1] == p);
        }
    }
}

/// With unique ids, `lookup` of the id of the snapshot at `k` returns that
/// snapshot.
proof fn lemma_lookup_at(s: Seq<ObjectSnapshot>, k: int)
    requires
        unique_ids(s),
        0 <= k < s.len(),
    ensures
        lookup(s, s[k].object_id) == Some(s[k]),
{
    lemma_lookup_skip(s, s[k].object_id, k);
    let t = s.subrange(k, s.len() as int);
    assert(t[0] == s[k]);
}

/// Index of the snapshot with the given id, if any.
fn find_object(s: &Vec<ObjectSnapshot>, id: u64) -> (r: Option<usize>)
    ensures
        match r {
            Some(k) => k < s@.len() && s@[k as int].object_id == id && lookup(s@, id) == Some(
                s@[k as int],
            ),
            None => lookup(s@, id) is None,
        },
{
    let mut i: usize = 0;
    while i < s.len()
        invariant
            i <= s@.len(),
            forall|k: int| 0 <= k < i ==> s@[k].object_id != id,
        decreases s@.len() - i,
    {
        if s[i].object_id == id {
            proof {
                lemma_lookup_skip(s@, id, i as int);
                let t = s@.subrange(i as int, s@.len() as int);
                assert(t[0] == s@[i as int]);
            }
            return Some(i);
        }
        i = i + 1;
    }
    proof {
        lemma_lookup_skip(s@, id, s@.len() as int);
    }
    None
}

/// The record sequence is strictly increasing in object id; in particular no
/// id occurs twice.
pub open spec fn strictly_sorted(s: Seq<ProcessedCoinBalanceBucket>) -> bool {
    forall|i: int, j: int| 0 <= i < j < s.len() ==> s[i].object_id < s[j].object_id
}

/// Some record in the sequence carries the given object id.
pub open spec fn contains_id(s: Seq<ProcessedCoinBalanceBucket>, id: u64) -> bool {
    exists|k: int| 0 <= k < s.len() && s[k].object_id == id
}

/// Put a record with a fresh object id at its place in a sequence ordered by
/// object id.
fn insert_record(rs: &mut Vec<ProcessedCoinBalanceBucket>, rec: ProcessedCoinBalanceBucket)
    requires
        strictly_sorted(old(rs)@),
        forall|k: int| 0 <= k < old(rs)@.len() ==> old(rs)@[k].object_id != rec.object_id,
    ensures
        strictly_sorted(final(rs)@),
        final(rs)@.len() == old(rs)@.len() + 1,
        forall|k: int|
            0 <= k < final(rs)@.len() ==> (final(rs)@[k] == rec || old(rs)@.contains(
                final(rs)@[k],
            )),
        forall|k: int| 0 <= k < old(rs)@.len() ==> final(rs)@.contains(old(rs)@[k]),
        final(rs)@.contains(rec),
{
    let mut pos: usize = 0;
    while pos < rs.len() && rs[pos].object_id < rec.object_id
        invariant
            pos <= rs@.len(),
            rs@ == old(rs)@,
            forall|k: int| 0 <= k < pos ==> rs@[k].object_id < rec.object_id,
        decreases rs@.len() - pos,
    {
        pos = pos + 1;
    }
    let ghost s0 = rs@;
    let ghost p = pos as int;
    proof {
        s0.insert_ensures(p, rec);
        assert(forall|k: int| p <= k < s0.len() ==> s0[k].object_id > rec.object_id) by {
            assert(forall|k: int| p <= k < s0.len() ==> s0[p] != rec && s0[p].object_id
                <= s0[k].object_id);
        }
    }
    rs.insert(pos, rec);
    proof {
        let s1 = rs@;
        assert(s1 == s0.insert(p, rec));
        assert forall|i: int, j: int| 0 <= i < j < s1.len() implies s1[i].object_id
            < s1[j].object_id by {
            if j < p {
            } else if i < p && j == p {
                assert(s1[i] == s0[i] && s1[j] == rec);
            } else if i < p {
                assert(s1[i] == s0[i] && s1[j] == s0[j - 1]);
            } else if i == p {
                assert(s1[i] == rec && s1[j] == s0[j - 1]);
            } else {
                assert(s1[i] == s0[i - 1] && s1[j] == s0[j - 1]);
            }
        }
        assert forall|k: int| 0 <= k < s1.len() implies (s1[k] == rec || s0.contains(s1[k])) by {
            if k < p {
                assert(s1[k] == s0[k]);
            } else if k > p {
                assert(s1[k] == s0[k - 1]);
            }
        }
        assert forall|k: int| 0 <= k < s0.len() implies s1.contains(s0[k]) by {
            if k < p {
                assert(s1[k] == s0[k]);
            } else {
                assert(s1[k + 1] == s0[k]);
            }
        }
        assert(s1[p] == rec);
    }
}

/// Whether a fault must be raised for this object id: the id is present on
/// both sides of the checkpoint, but exactly one of the two snapshots is a
/// coin. Coin-ness is immutable per object id, so this indicates an upstream
/// classification defect and processing of the checkpoint fails.
pub open spec fn fault_at(b: Seq<ObjectSnapshot>, a: Seq<ObjectSnapshot>, id: u64) -> bool {
    match (lookup(b, id), lookup(a, id)) {
        (Some(p), Some(q)) => p.is_coin() != q.is_coin(),
        _ => false,
    }
}

/// The disappearance pass emits a tombstone for this id: before the
/// checkpoint the object was a coin owned by a single address, and after it
/// the object is no longer live.
pub open spec fn emit_absent(b: Seq<ObjectSnapshot>, a: Seq<ObjectSnapshot>, id: u64) -> bool {
    &&& lookup(a, id) is None
    &&& match lookup(b, id) {
        Some(p) => p.is_coin() && owner_spec(p.owner) is Some,
        None => false,
    }
}

/// The presence pass emits a record for this id: the object is live after
/// the checkpoint as a coin, and either it lost its single owner (a
/// tombstone), or it now has a single owner and its owner or bucket changed,
/// or it is newly tracked.
pub open spec fn emit_present(b: Seq<ObjectSnapshot>, a: Seq<ObjectSnapshot>, id: u64) -> bool {
    match lookup(a, id) {
        Some(q) => q.is_coin() && match lookup(b, id) {
            Some(p) => p.is_coin() && {
                ||| owner_spec(p.owner) is Some && owner_spec(q.owner) is None
                ||| owner_spec(q.owner) is Some && (owner_spec(p.owner) != owner_spec(q.owner)
                    || bucket_spec(p.coin->Some_0.balance) != bucket_spec(q.coin->Some_0.balance))
            },
            None => owner_spec(q.owner) is Some,
        },
        None => false,
    }
}

/// A record is emitted for this id.
pub open spec fn emits(b: Seq<ObjectSnapshot>, a: Seq<ObjectSnapshot>, id: u64) -> bool {
    emit_absent(b, a, id) || emit_present(b, a, id)
}

/// The payload of the record emitted for `id`: a tombstone when the object
/// is gone or no longer owned by a single address, and otherwise its freshly
/// classified owner and bucket.
pub open spec fn expected_change(
    b: Seq<ObjectSnapshot>,
    a: Seq<ObjectSnapshot>,
    id: u64,
) -> ChangeKindView
    recommends
        emits(b, a, id),
{
    match lookup(a, id) {
        None => ChangeKindView::Delete,
        Some(q) => match owner_spec(q.owner) {
            None => ChangeKindView::Delete,
            Some(o) => match q.coin {
                Some(c) => ChangeKindView::Insert {
                    owner_kind: o.0,
                    owner_id: o.1,
                    coin_type: c.coin_type@,
                    balance_bucket: bucket_spec(c.balance),
                },
                None => ChangeKindView::Delete,
            },
        },
    }
}

/// The two passes are id-disjoint: the disappearance pass only selects ids
/// that are absent from the after-state, the presence pass only ids present
/// in it, so no object id can be touched by both within one checkpoint.
pub proof fn lemma_passes_disjoint(b: Seq<ObjectSnapshot>, a: Seq<ObjectSnapshot>, id: u64)
    ensures
        !(emit_absent(b, a, id) && emit_present(b, a, id)),
{
}

/// The record emitted for `id`.
pub open spec fn expected_record(
    b: Seq<ObjectSnapshot>,
    a: Seq<ObjectSnapshot>,
    cp: u64,
    id: u64,
) -> ProcessedView {
    ProcessedView { object_id: id, cp_sequence_number: cp, change: expected_change(b, a, id) }
}

/// The handler that tracks the balance buckets of address-owned coins.
pub struct CoinBalanceBuckets;

impl CoinBalanceBuckets {
    /// The change-detection pass over one checkpoint.
    ///
    /// Pure in its inputs. On success the result holds, in strictly
    /// increasing object-id order, exactly one record for every object id
    /// that [`emits`] selects, with the payload [`expected_change`] gives;
    /// in particular no id occurs twice. It fails, with the id it faulted
    /// on, exactly when some object id is live on both sides of the
    /// checkpoint with its coin-ness changed.
    pub fn process(&self, checkpoint: &CheckpointView) -> (r: Result<
        Vec<ProcessedCoinBalanceBucket>,
        ChangeError,
    >)
        requires
            unique_ids(checkpoint.input_objects@),
            unique_ids(checkpoint.output_objects@),
        ensures
            match r {
                Ok(rs) => {
                    &&& strictly_sorted(rs@)
                    &&& forall|i: int, j: int|
                        0 <= i < rs@.len() && 0 <= j < rs@.len() && i != j ==> rs@[i].object_id
                            != rs@[j].object_id
                    &&& forall|id: u64|
                        !fault_at(checkpoint.input_objects@, checkpoint.output_objects@, id)
                    &&& forall|k: int|
                        0 <= k < rs@.len() ==> emits(
                            checkpoint.input_objects@,
                            checkpoint.output_objects@,
                            rs@[k].object_id,
                        ) && rs@[k]@ == expected_record(
                            checkpoint.input_objects@,
                            checkpoint.output_objects@,
                            checkpoint.cp_sequence_number,
                            rs@[k].object_id,
                        )
                    &&& forall|id: u64|
                        emits(checkpoint.input_objects@, checkpoint.output_objects@, id)
                            ==> contains_id(rs@, id)
                },
                Err(e) => e matches ChangeError::NotACoin { object_id } && fault_at(
                    checkpoint.input_objects@,
                    checkpoint.output_objects@,
                    object_id,
                ),
            },
    {
        let ghost b = checkpoint.input_objects@;
        let ghost a = checkpoint.output_objects@;
        let cp = checkpoint.cp_sequence_number;
        let mut values: Vec<ProcessedCoinBalanceBucket> = Vec::new();

        let mut i: usize = 0;
        while i < checkpoint.input_objects.len()
            invariant
                unique_ids(b),
                unique_ids(a),
                b == checkpoint.input_objects@,
                a == checkpoint.output_objects@,
                cp == checkpoint.cp_sequence_number,
                i <= b.len(),
                strictly_sorted(values@),
                forall|k: int|
                    0 <= k < values@.len() ==> emit_absent(b, a, #[trigger] values@[k].object_id)
                        && values@[k]@ == expected_record(b, a, cp, values@[k].object_id)
                        && (exists|j: int| 0 <= j < i && b[j].object_id == values@[k].object_id),
                forall|j: int|
                    0 <= j < i && emit_absent(b, a, #[trigger] b[j].object_id) ==> contains_id(
                        values@,
                        b[j].object_id,
                    ),
            decreases b.len() - i,
        {
            let input_object = &checkpoint.input_objects[i];
            let id = input_object.object_id;
            proof {
                lemma_lookup_at(b, i as int);
            }
            if input_object.coin.is_some() && get_coin_owner(input_object).is_some() {
                match find_object(&checkpoint.output_objects, id) {
                    None => {
                        let ghost vs0 = values@;
                        let rec = ProcessedCoinBalanceBucket {
                            object_id: id,
                            cp_sequence_number: cp,
                            change: CoinBalanceBucketChangeKind::Delete,
                        };
                        proof {
                            assert forall|k: int| 0 <= k < vs0.len() implies vs0[k].object_id
                                != id by {
                                let j = choose|j: int|
                                    0 <= j < i && b[j].object_id == vs0[k].object_id;
                                assert(b[j].object_id != b[i as int].object_id);
                            }
                        }
                        insert_record(&mut values, rec);
                        proof {
                            assert(emit_absent(b, a, id));
                            assert(rec@ == expected_record(b, a, cp, id));
                            assert forall|k: int| 0 <= k < values@.len() implies emit_absent(
                                b,
                                a,
                                #[trigger] values@[k].object_id,
                            ) && values@[k]@ == expected_record(b, a, cp, values@[k].object_id)
                                && (exists|j: int|
                                0 <= j < i + 1 && b[j].object_id == values@[k].object_id) by {
                                if values@[k] == rec {
                                    assert(b[i as int].object_id == rec.object_id);
                                } else {
                                    assert(vs0.contains(values@[k]));
                                    let k0 = choose|k0: int|
                                        0 <= k0 < vs0.len() && vs0[k0] == values@[k];
                                    assert(vs0[k0].object_id == values@[k].object_id);
                                }
                            }
                            assert forall|j: int|
                                0 <= j < i + 1 && emit_absent(
                                    b,
                                    a,
                                    #[trigger] b[j].object_id,
                                ) implies contains_id(values@, b[j].object_id) by {
                                if j == i {
                                    let k = choose|k: int|
                                        0 <= k < values@.len() && values@[k] == rec;
                                    assert(values@[k].object_id == id);
                                } else {
                                    assert(contains_id(vs0, b[j].object_id));
                                    let k0 = choose|k0: int|
                                        0 <= k0 < vs0.len() && vs0[k0].object_id
                                            == b[j].object_id;
                                    assert(values@.contains(vs0[k0]));
                                    let k = choose|k: int|
                                        0 <= k < values@.len() && values@[k] == vs0[k0];
                                    assert(values@[k].object_id == b[j].object_id);
                                }
                            }
                        }
                    },
                    Some(_) => {
                        proof {
                            assert(!emit_absent(b, a, id));
                        }
                    },
                }
            } else {
                proof {
                    assert(lookup(b, id) == Some(b[i as int]));
                    assert(!emit_absent(b, a, id));
                }
            }
            i = i + 1;
        }

        proof {
            assert forall|id: u64| emit_absent(b, a, id) implies contains_id(values@, id) by {
                lemma_lookup_exists(b, id);
                let k = choose|k: int| 0 <= k < b.len() && b[k].object_id == id;
                assert(emit_absent(b, a, b[k].object_id));
            }
        }

        let mut j: usize = 0;
        while j < checkpoint.output_objects.len()
            invariant
                unique_ids(b),
                unique_ids(a),
                b == checkpoint.input_objects@,
                a == checkpoint.output_objects@,
                cp == checkpoint.cp_sequence_number,
                j <= a.len(),
                strictly_sorted(values@),
                forall|k: int|
                    0 <= k < values@.len() ==> emits(b, a, #[trigger] values@[k].object_id)
                        && values@[k]@ == expected_record(b, a, cp, values@[k].object_id)
                        && (lookup(a, values@[k].object_id) is None || exists|j2: int|
                        0 <= j2 < j && a[j2].object_id == values@[k].object_id),
                forall|id: u64| emit_absent(b, a, id) ==> contains_id(values@, id),
                forall|j2: int|
                    0 <= j2 < j && emit_present(b, a, #[trigger] a[j2].object_id) ==> contains_id(
                        values@,
                        a[j2].object_id,
                    ),
                forall|j2: int| 0 <= j2 < j ==> !fault_at(b, a, #[trigger] a[j2].object_id),
            decreases a.len() - j,
        {
            let output_object = &checkpoint.output_objects[j];
            let id = output_object.object_id;
            proof {
                lemma_lookup_at(a, j as int);
            }
            match &output_object.coin {
                None => {
                    match find_object(&checkpoint.input_objects, id) {
                        Some(pi) => {
                            if checkpoint.input_objects[pi].coin.is_some() {
                                return Err(ChangeError::NotACoin { object_id: id });
                            }
                        },
                        None => {},
                    }
                    proof {
                        assert(!fault_at(b, a, id));
                        assert(!emit_present(b, a, id));
                    }
                },
                Some(out_coin) => {
                    let out_bucket = balance_bucket(out_coin.balance);
                    let out_owner = get_coin_owner(output_object);
                    let mut record: Option<ProcessedCoinBalanceBucket> = None;
                    match find_object(&checkpoint.input_objects, id) {
                        Some(pi) => {
                            let p = &checkpoint.input_objects[pi];
                            match &p.coin {
                                None => {
                                    return Err(ChangeError::NotACoin { object_id: id });
                                },
                                Some(in_coin) => {
                                    let in_bucket = balance_bucket(in_coin.balance);
                                    let in_owner = get_coin_owner(p);
                                    match (in_owner, out_owner) {
                                        (Some(_), None) => {
                                            record = Some(ProcessedCoinBalanceBucket {
                                                object_id: id,
                                                cp_sequence_number: cp,
                                                change: CoinBalanceBucketChangeKind::Delete,
                                            });
                                        },
                                        (in_o, Some(o)) => {
                                            let owner_changed = match in_o {
                                                None => true,
                                                Some(io) => !(io.0 == o.0 && io.1 == o.1),
                                            };
                                            if owner_changed || in_bucket != out_bucket {
                                                record = Some(ProcessedCoinBalanceBucket {
                                                    object_id: id,
                                                    cp_sequence_number: cp,
                                                    change: CoinBalanceBucketChangeKind::Insert {
                                                        owner_kind: o.0,
                                                        owner_id: o.1,
                                                        coin_type: out_coin.coin_type.duplicate(),
                                                        balance_bucket: out_bucket,
                                                    },
                                                });
                                            }
                                        },
                                        (None, None) => {},
                                    }
                                },
                            }
                        },
                        None => {
                            match out_owner {
                                Some(o) => {
                                    record = Some(ProcessedCoinBalanceBucket {
                                        object_id: id,
                                        cp_sequence_number: cp,
                                        change: CoinBalanceBucketChangeKind::Insert {
                                            owner_kind: o.0,
                                            owner_id: o.1,
                                            coin_type: out_coin.coin_type.duplicate(),
                                            balance_bucket: out_bucket,
                                        },
                                    });
                                },
                                None => {},
                            }
                        },
                    }
                    proof {
                        assert(!fault_at(b, a, id));
                    }
                    match record {
                        Some(rec) => {
                            let ghost vs0 = values@;
                            proof {
                                assert(emit_present(b, a, id));
                                assert(rec@ == expected_record(b, a, cp, id));
                                assert forall|k: int| 0 <= k < vs0.len() implies vs0[k].object_id
                                    != id by {
                                    if lookup(a, vs0[k].object_id) is None {
                                    } else {
                                        let j2 = choose|j2: int|
                                            0 <= j2 < j && a[j2].object_id == vs0[k].object_id;
                                        assert(a[j2].object_id != a[j as int].object_id);
                                    }
                                }
                            }
                            insert_record(&mut values, rec);
                            proof {
                                assert forall|k: int| 0 <= k < values@.len() implies emits(
                                    b,
                                    a,
                                    #[trigger] values@[k].object_id,
                                ) && values@[k]@ == expected_record(b, a, cp, values@[k].object_id)
                                    && (lookup(a, values@[k].object_id) is None || exists|j2: int|
                                    0 <= j2 < j + 1 && a[j2].object_id == values@[k].object_id) by {
                                    if values@[k] == rec {
                                        assert(a[j as int].object_id == rec.object_id);
                                    } else {
                                        assert(vs0.contains(values@[k]));
                                        let k0 = choose|k0: int|
                                            0 <= k0 < vs0.len() && vs0[k0] == values@[k];
                                        assert(vs0[k0].object_id == values@[k].object_id);
                                    }
                                }
                                assert forall|id2: u64| emit_absent(b, a, id2) implies contains_id(
                                    values@,
                                    id2,
                                ) by {
                                    assert(contains_id(vs0, id2));
                                    let k0 = choose|k0: int|
                                        0 <= k0 < vs0.len() && vs0[k0].object_id == id2;
                                    assert(values@.contains(vs0[k0]));
                                    let k = choose|k: int|
                                        0 <= k < values@.len() && values@[k] == vs0[k0];
                                    assert(values@[k].object_id == id2);
                                }
                                assert forall|j2: int|
                                    0 <= j2 < j + 1 && emit_present(
                                        b,
                                        a,
                                        #[trigger] a[j2].object_id,
                                    ) implies contains_id(values@, a[j2].object_id) by {
                                    if j2 == j {
                                        let k = choose|k: int|
                                            0 <= k < values@.len() && values@[k] == rec;
                                        assert(values@[k].object_id == id);
                                    } else {
                                        assert(contains_id(vs0, a[j2].object_id));
                                        let k0 = choose|k0: int|
                                            0 <= k0 < vs0.len() && vs0[k0].object_id
                                                == a[j2].object_id;
                                        assert(values@.contains(vs0[k0]));
                                        let k = choose|k: int|
                                            0 <= k < values@.len() && values@[k] == vs0[k0];
                                        assert(values@[k].object_id == a[j2].object_id);
                                    }
                                }
                            }
                        },
                        None => {
                            proof {
                                assert(!emit_present(b, a, id));
                            }
                        },
                    }
                },
            }
            j = j + 1;
        }

        proof {
            assert forall|id: u64| !fault_at(b, a, id) by {
                if fault_at(b, a, id) {
                    lemma_lookup_exists(a, id);
                    let k = choose|k: int| 0 <= k < a.len() && a[k].object_id == id;
                    assert(!fault_at(b, a, a[k].object_id));
                }
            }
            assert forall|id: u64| emits(b, a, id) implies contains_id(values@, id) by {
                if emit_present(b, a, id) {
                    lemma_lookup_exists(a, id);
                    let k = choose|k: int| 0 <= k < a.len() && a[k].object_id == id;
                    assert(emit_present(b, a, a[k].object_id));
                }
            }
        }
        Ok(values)
    }
}

} // verus!
