//! The mathematical model of an index: a table of points in the order in
//! which they came, and a map from keys to documents.

use crate::document::DocumentView;
use crate::engine::hash::key_of;
use crate::resource::RecordView;
use crate::vector::is_fixed;
use vstd::prelude::*;

verus! {

/// One entry of the point table: a vector of the index's width and the key
/// of the document it belongs to.
#[verifier::ext_equal]
pub ghost struct PointView {
    pub vector: Seq<u32>,
    pub key: u64,
}

/// An index as the contracts see it.
#[verifier::ext_equal]
pub ghost struct IndexView {
    pub points: Seq<PointView>,
    pub store: Map<u64, DocumentView>,
}

impl IndexView {
    /// The index that holds nothing.
    pub open spec fn empty() -> IndexView {
        IndexView { points: Seq::empty(), store: Map::empty() }
    }

    /// Whether some point carries the key `key`.
    pub open spec fn holds_key(self, key: u64) -> bool {
        exists|i: int| 0 <= i < self.points.len() && (#[trigger] self.points[i]).key == key
    }

    /// The validity of an index. Every vector has the index's width; a key
    /// is in the store exactly if some point carries it; and each document
    /// is stored under its own key.
    pub open spec fn wf(self) -> bool {
        &&& self.store.dom().finite()
        &&& forall|i: int|
            0 <= i < self.points.len() ==> is_fixed((#[trigger] self.points[i]).vector)
        &&& forall|i: int|
            0 <= i < self.points.len() ==> self.store.contains_key(
                (#[trigger] self.points[i]).key,
            )
        &&& forall|key: u64|
            (#[trigger] self.store.contains_key(key)) ==> self.holds_key(key) && key_of(
                self.store[key],
            ) == key
    }

    /// The number of documents in the store.
    pub open spec fn size(self) -> nat {
        self.store.len()
    }

    /// The keys of the points, in the order of the table.
    pub open spec fn keys(self) -> Seq<u64> {
        self.points.map_values(|p: PointView| p.key)
    }

    /// How many neighbours a query for `k` can get: `k`, capped at the
    /// number of points.
    pub open spec fn neighbor_count(self, k: nat) -> nat {
        if k < self.points.len() {
            k
        } else {
            self.points.len()
        }
    }

    /// The index after one record was added: its point comes last in the
    /// table, and its document takes the store's entry for its key.
    pub open spec fn insert(self, record: RecordView) -> IndexView {
        IndexView {
            points: self.points.push(record.point()),
            store: self.store.insert(record.key(), record.document()),
        }
    }

    /// The index after the records of a batch were added one after the
    /// other.
    pub open spec fn insert_all(self, records: Seq<RecordView>) -> IndexView
        decreases records.len(),
    {
        if records.len() == 0 {
            self
        } else {
            self.insert_all(records.drop_last()).insert(records.last())
        }
    }

    /// The index after one record was removed. Every point that equals the
    /// record's point leaves the table. The store's entry for the key
    /// leaves with the last point that carries the key, and not before.
    pub open spec fn delete(self, record: RecordView) -> IndexView {
        let rest = IndexView {
            points: self.points.filter(|p: PointView| p != record.point()),
            store: self.store,
        };
        IndexView {
            points: rest.points,
            store: if rest.holds_key(record.key()) {
                self.store
            } else {
                self.store.remove(record.key())
            },
        }
    }

    /// The index after the records of a batch were removed one after the
    /// other.
    pub open spec fn delete_all(self, records: Seq<RecordView>) -> IndexView
        decreases records.len(),
    {
        if records.len() == 0 {
            self
        } else {
            self.delete_all(records.drop_last()).delete(records.last())
        }
    }

    /// Whether the store has a document for each of `keys`.
    pub open spec fn resolvable(self, keys: Seq<u64>) -> bool {
        forall|i: int| 0 <= i < keys.len() ==> self.store.contains_key(#[trigger] keys[i])
    }

    /// The documents stored under `keys`, in the order of `keys`.
    pub open spec fn resolved(self, keys: Seq<u64>) -> Seq<DocumentView> {
        keys.map_values(|key: u64| self.store[key])
    }

    /// The record that rebuilds the point at position `i`: the point's
    /// vector with the document stored under the point's key.
    pub open spec fn snapshot_at(self, i: int) -> RecordView {
        let document = self.store[self.points[i].key];
        RecordView {
            id: document.id,
            title: document.title,
            url: document.url,
            embeddings: self.points[i].vector,
        }
    }

    /// The records that rebuild the index: one for each point, in the
    /// order of the table.
    pub open spec fn snapshot(self) -> Seq<RecordView> {
        Seq::new(self.points.len(), |i: int| self.snapshot_at(i))
    }
}

/// One call that builds or changes an index.
pub ghost enum Operation {
    /// The index is built anew from a batch.
    Build(Seq<RecordView>),
    /// A batch is added.
    Add(Seq<RecordView>),
    /// A batch is removed.
    Remove(Seq<RecordView>),
    /// The index is emptied.
    Clear,
}

impl IndexView {
    /// The index after one operation.
    pub open spec fn apply(self, operation: Operation) -> IndexView {
        match operation {
            Operation::Build(records) => IndexView::empty().insert_all(records),
            Operation::Add(records) => self.insert_all(records),
            Operation::Remove(records) => self.delete_all(records),
            Operation::Clear => IndexView::empty(),
        }
    }

    /// The index after a sequence of operations, the first of them first.
    pub open spec fn apply_all(self, operations: Seq<Operation>) -> IndexView
        decreases operations.len(),
    {
        if operations.len() == 0 {
            self
        } else {
            self.apply_all(operations.drop_last()).apply(operations.last())
        }
    }
}

/// The first `k` of `neighbors`, or all of them where there are fewer.
pub open spec fn first_k(neighbors: Seq<u64>, k: nat) -> Seq<u64> {
    if k < neighbors.len() {
        neighbors.take(k as int)
    } else {
        neighbors
    }
}

/// Whether `records` can be the snapshot of an index: every vector has the
/// index's width.
pub open spec fn restorable(records: Seq<RecordView>) -> bool {
    forall|i: int| 0 <= i < records.len() ==> is_fixed((#[trigger] records[i]).embeddings)
}

/// Adding a record to a valid index gives a valid index.
pub proof fn lemma_insert_keeps_wf(index: IndexView, record: RecordView)
    requires
        index.wf(),
    ensures
        index.insert(record).wf(),
{
    let after = index.insert(record);
    assert forall|key: u64| #[trigger] after.store.contains_key(key) implies after.holds_key(key)
        && key_of(after.store[key]) == key by {
        if key == record.key() {
            assert(after.points[index.points.len() as int].key == key);
        } else {
            let i = choose|i: int|
                0 <= i < index.points.len() && (#[trigger] index.points[i]).key == key;
            assert(after.points[i].key == key);
        }
    }
}

/// Adding a batch to a valid index gives a valid index.
pub proof fn lemma_insert_all_keeps_wf(index: IndexView, records: Seq<RecordView>)
    requires
        index.wf(),
    ensures
        index.insert_all(records).wf(),
    decreases records.len(),
{
    if records.len() > 0 {
        lemma_insert_all_keeps_wf(index, records.drop_last());
        lemma_insert_keeps_wf(index.insert_all(records.drop_last()), records.last());
    }
}

/// Removing a record from a valid index gives a valid index.
pub proof fn lemma_delete_keeps_wf(index: IndexView, record: RecordView)
    requires
        index.wf(),
    ensures
        index.delete(record).wf(),
{
    broadcast use vstd::seq_lib::group_filter_ensures;

    let keep = |p: PointView| p != record.point();
    let after = index.delete(record);
    assert forall|i: int| 0 <= i < after.points.len() implies is_fixed(
        (#[trigger] after.points[i]).vector,
    ) && after.store.contains_key(after.points[i].key) by {
        index.points.lemma_filter_contains_rev(keep, after.points[i]);
    }
    assert forall|key: u64| #[trigger] after.store.contains_key(key) implies after.holds_key(key)
        && key_of(after.store[key]) == key by {
        let i = choose|i: int|
            0 <= i < index.points.len() && (#[trigger] index.points[i]).key == key;
        if keep(index.points[i]) {
            assert(after.points.contains(index.points[i]));
        }
    }
}

/// Removing a batch from a valid index gives a valid index.
pub proof fn lemma_delete_all_keeps_wf(index: IndexView, records: Seq<RecordView>)
    requires
        index.wf(),
    ensures
        index.delete_all(records).wf(),
    decreases records.len(),
{
    if records.len() > 0 {
        lemma_delete_all_keeps_wf(index, records.drop_last());
        lemma_delete_keeps_wf(index.delete_all(records.drop_last()), records.last());
    }
}

} // verus!
