//! What holds of every index, stated over the model.

use crate::document::DocumentView;
use crate::model::{
    first_k, lemma_delete_all_keeps_wf, lemma_delete_keeps_wf, lemma_insert_all_keeps_wf,
    restorable, IndexView, Operation, PointView,
};
use crate::resource::RecordView;
use vstd::prelude::*;

verus! {

/// The empty index is valid and holds no document.
pub proof fn lemma_empty_is_valid()
    ensures
        IndexView::empty().wf(),
        IndexView::empty().size() == 0,
{
}

/// The size of a valid index is the number of different keys in its point
/// table.
pub proof fn lemma_size_counts_keys(index: IndexView)
    requires
        index.wf(),
    ensures
        index.size() == index.keys().to_set().len(),
{
    let keys = index.keys();
    assert forall|key: u64| keys.to_set().contains(key) <==> index.store.dom().contains(key) by {
        if index.store.contains_key(key) {
            let i = choose|i: int|
                0 <= i < index.points.len() && (#[trigger] index.points[i]).key == key;
            assert(keys[i] == key);
        }
    }
    assert(keys.to_set() =~= index.store.dom());
}

/// Whatever sequence of builds, additions, removals and clearings an index
/// has been through, it is valid, and its size is the number of different
/// keys in its point table.
pub proof fn lemma_every_reachable_index_is_valid(operations: Seq<Operation>)
    ensures
        IndexView::empty().apply_all(operations).wf(),
        IndexView::empty().apply_all(operations).size() == IndexView::empty().apply_all(
            operations,
        ).keys().to_set().len(),
    decreases operations.len(),
{
    if operations.len() > 0 {
        lemma_every_reachable_index_is_valid(operations.drop_last());
        let before = IndexView::empty().apply_all(operations.drop_last());
        match operations.last() {
            Operation::Build(records) => lemma_insert_all_keeps_wf(IndexView::empty(), records),
            Operation::Add(records) => lemma_insert_all_keeps_wf(before, records),
            Operation::Remove(records) => lemma_delete_all_keeps_wf(before, records),
            Operation::Clear => {},
        }
    }
    lemma_size_counts_keys(IndexView::empty().apply_all(operations));
}

/// A valid index has no more documents than points, and as many of the one
/// as of the other exactly where no two points share a key.
pub proof fn lemma_size_counts_points(index: IndexView)
    requires
        index.wf(),
    ensures
        index.size() <= index.points.len(),
        index.size() == index.points.len() <==> index.keys().no_duplicates(),
{
    lemma_size_counts_keys(index);
    index.keys().lemma_cardinality_of_set();
    if index.keys().no_duplicates() {
        index.keys().unique_seq_to_set();
    }
    if index.size() == index.points.len() {
        index.keys().lemma_no_dup_set_cardinality();
    }
}

/// Adding a batch in two parts, one after the other, is adding the whole
/// batch.
pub proof fn lemma_adding_in_parts(index: IndexView, first: Seq<RecordView>, rest: Seq<RecordView>)
    ensures
        index.insert_all(first + rest) == index.insert_all(first).insert_all(rest),
    decreases rest.len(),
{
    if rest.len() == 0 {
        assert(first + rest =~= first);
    } else {
        lemma_adding_in_parts(index, first, rest.drop_last());
        assert((first + rest).drop_last() =~= first + rest.drop_last());
    }
}

/// Removing a batch in two parts, one after the other, is removing the
/// whole batch.
pub proof fn lemma_removing_in_parts(
    index: IndexView,
    first: Seq<RecordView>,
    rest: Seq<RecordView>,
)
    ensures
        index.delete_all(first + rest) == index.delete_all(first).delete_all(rest),
    decreases rest.len(),
{
    if rest.len() == 0 {
        assert(first + rest =~= first);
    } else {
        lemma_removing_in_parts(index, first, rest.drop_last());
        assert((first + rest).drop_last() =~= first + rest.drop_last());
    }
}

/// Removing a record whose point is not in the table changes nothing: not
/// the table, not the store, and so not the size.
pub proof fn lemma_remove_absent_changes_nothing(index: IndexView, record: RecordView)
    requires
        index.wf(),
        !index.points.contains(record.point()),
    ensures
        index.delete(record) == index,
{
    lemma_filter_keeps_all(index.points, |p: PointView| p != record.point());
}

/// Removing a record a second time changes nothing.
pub proof fn lemma_remove_is_idempotent(index: IndexView, record: RecordView)
    requires
        index.wf(),
    ensures
        index.delete(record).delete(record) == index.delete(record),
{
    broadcast use vstd::seq_lib::group_filter_ensures;

    lemma_delete_keeps_wf(index, record);
    lemma_remove_absent_changes_nothing(index.delete(record), record);
}

/// Removing a record right after it was added gives the index back, where
/// the record's point was not in the table before and the store had no
/// other document under the record's key.
pub proof fn lemma_remove_undoes_add(index: IndexView, record: RecordView)
    requires
        index.wf(),
        !index.points.contains(record.point()),
        index.store.contains_key(record.key()) ==> index.store[record.key()]
            == record.document(),
    ensures
        index.insert(record).delete(record) == index,
{
    let keep = |p: PointView| p != record.point();
    index.points.lemma_filter_push(record.point(), keep);
    lemma_filter_keeps_all(index.points, keep);
}

/// A filter that every element passes leaves the sequence as it is.
proof fn lemma_filter_keeps_all<A>(s: Seq<A>, pred: spec_fn(A) -> bool)
    requires
        forall|i: int| 0 <= i < s.len() ==> pred(#[trigger] s[i]),
    ensures
        s.filter(pred) == s,
    decreases s.len(),
{
    reveal(Seq::filter);
    if s.len() > 0 {
        lemma_filter_keeps_all(s.drop_last(), pred);
    }
}

/// The first `n` points of `index`, with the store's entries for their
/// keys.
spec fn prefix(index: IndexView, n: int) -> IndexView {
    IndexView {
        points: index.points.take(n),
        store: index.store.restrict(
            Set::new(
                |key: u64| exists|i: int| 0 <= i < n && (#[trigger] index.points[i]).key == key,
            ),
        ),
    }
}

/// Adding the first `n` records of a snapshot to the empty index gives the
/// first `n` points with their documents.
proof fn lemma_rebuild_prefix(index: IndexView, n: int)
    requires
        index.wf(),
        0 <= n <= index.points.len(),
    ensures
        IndexView::empty().insert_all(index.snapshot().take(n)) == prefix(index, n),
    decreases n,
{
    if n > 0 {
        let records = index.snapshot().take(n);
        lemma_rebuild_prefix(index, n - 1);
        assert(records.drop_last() =~= index.snapshot().take(n - 1));
        assert(records.last().point() == index.points[n - 1]);
    }
}

/// A snapshot rebuilds its index: the snapshot of a valid index can be
/// restored, and adding its records to the empty index gives the same
/// table and the same store. With them the size is the same, and so is the
/// document found under every key.
pub proof fn lemma_snapshot_round_trip(index: IndexView)
    requires
        index.wf(),
    ensures
        restorable(index.snapshot()),
        IndexView::empty().insert_all(index.snapshot()) == index,
{
    let n = index.points.len() as int;
    lemma_rebuild_prefix(index, n);
    assert(index.snapshot().take(n) =~= index.snapshot());
}

/// A valid index has a document for every key that its table holds, so the
/// answer of a spatial index over that table can always be resolved.
pub proof fn lemma_held_keys_resolve(index: IndexView, keys: Seq<u64>)
    requires
        index.wf(),
        forall|i: int| 0 <= i < keys.len() ==> index.holds_key(#[trigger] keys[i]),
    ensures
        index.resolvable(keys),
{
}

/// What a spatial index answers to a prepared query is resolved in full:
/// where it found no more keys than it was asked for, all of them keys of
/// the table, every key is resolved, and none is cut off.
pub proof fn lemma_answer_is_resolved_in_full(index: IndexView, neighbors: Seq<u64>, k: nat)
    requires
        index.wf(),
        neighbors.len() <= index.neighbor_count(k),
        forall|i: int| 0 <= i < neighbors.len() ==> index.holds_key(#[trigger] neighbors[i]),
    ensures
        first_k(neighbors, k) == neighbors,
        index.resolvable(first_k(neighbors, k)),
        index.resolved(first_k(neighbors, k)).len() == neighbors.len(),
{
    lemma_held_keys_resolve(index, neighbors);
}

/// Resolving for `k` neighbours gives the first `k` of what resolving for
/// `k + 1` gives.
pub proof fn lemma_resolving_is_prefix_consistent(index: IndexView, neighbors: Seq<u64>, k: nat)
    ensures
        index.resolvable(first_k(neighbors, k + 1)) ==> index.resolvable(first_k(neighbors, k)),
        index.resolved(first_k(neighbors, k)) == index.resolved(first_k(neighbors, k + 1)).take(
            first_k(neighbors, k).len() as int,
        ),
{
}

/// Nothing is found in the empty index: whatever `k` is, a query can get no
/// neighbour, no key can be resolved, and resolving no key gives no
/// document.
pub proof fn lemma_empty_index_finds_nothing(neighbors: Seq<u64>, k: nat)
    ensures
        IndexView::empty().neighbor_count(k) == 0,
        IndexView::empty().resolvable(first_k(neighbors, k)) <==> first_k(neighbors, k).len() == 0,
        first_k(neighbors, k).len() == 0 ==> IndexView::empty().resolved(first_k(neighbors, k))
            == Seq::<DocumentView>::empty(),
{
    let keys = first_k(neighbors, k);
    if keys.len() > 0 {
        assert(!IndexView::empty().store.contains_key(keys[0]));
    }
}

} // verus!
