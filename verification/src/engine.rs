//! The index engine: building an index, changing it, and resolving what a
//! nearest-neighbour query found.

pub mod hash;

pub use hash::hash;

use crate::document::{document_views, Document};
use crate::engine::hash::key_of_fields;
use crate::error::EngineError;
use crate::model::{
    first_k, lemma_delete_keeps_wf, lemma_insert_keeps_wf, restorable, IndexView, PointView,
};
use crate::resource::{EmbeddedResource, Resource};
use crate::vector::{has_fixed_width, normalize, normalized};
use std::collections::HashMap;
use vstd::pervasive::unreached;
use vstd::prelude::*;

verus! {

/// One entry of the point table.
#[derive(Debug)]
pub struct Point {
    /// The coordinates, `DIMENSION` of them.
    pub vector: Vec<u32>,
    /// The key of the document that the point belongs to.
    pub key: u64,
}

impl View for Point {
    type V = PointView;

    open spec fn view(&self) -> PointView {
        PointView { vector: self.vector@, key: self.key }
    }
}

/// The index: the point table and the document store.
#[derive(Debug)]
pub struct Index {
    points: Vec<Point>,
    data: HashMap<u64, Document>,
}

impl View for Index {
    type V = IndexView;

    closed spec fn view(&self) -> IndexView {
        IndexView {
            points: self.points@.map_values(|p: Point| p@),
            store: self.data@.map_values(|d: Document| d@),
        }
    }
}

impl Index {
    /// Whether the table and the store are in step.
    pub open spec fn wf(&self) -> bool {
        self@.wf()
    }

    /// The point table, in the order in which the points were added.
    pub fn points(&self) -> (table: &Vec<Point>)
        ensures
            table@.map_values(|p: Point| p@) == self@.points,
    {
        &self.points
    }

    /// The number of points in the table.
    pub fn point_count(&self) -> (count: usize)
        ensures
            count == self@.points.len(),
    {
        self.points.len()
    }
}

/// What is searched for.
#[derive(Debug)]
pub enum Query {
    /// The nearest neighbours of an embedding, which may have any length.
    Embeddings(Vec<u32>),
}

impl Query {
    /// The embedding that the query carries.
    pub open spec fn embeddings(self) -> Seq<u32> {
        match self {
            Query::Embeddings(v) => v@,
        }
    }
}

/// Adds one record.
fn insert(index: &mut Index, item: &EmbeddedResource)
    ensures
        final(index)@ == old(index)@.insert(item@),
        old(index).wf() ==> final(index).wf(),
{
    let vector = normalize(&item.embeddings);
    let document = Document {
        id: item.id.clone(),
        title: item.title.clone(),
        url: item.url.clone(),
    };
    let key = hash(&document);
    index.data.insert(key, document);
    index.points.push(Point { vector, key });
    proof {
        let before = old(index)@;
        if before.wf() {
            lemma_insert_keeps_wf(before, item@);
        }
    }
}

/// Adds the records of `resource`, one after the other. A record whose key
/// is already in the store takes over the store's entry, and its point is
/// added beside those that carry the key already.
pub fn add(index: &mut Index, resource: &Resource)
    ensures
        final(index)@ == old(index)@.insert_all(resource@),
        old(index).wf() ==> final(index).wf(),
{
    let ghost before = index@;
    let mut i: usize = 0;
    while i < resource.embeddings.len()
        invariant
            i <= resource.embeddings.len(),
            before.wf() ==> index.wf(),
            index@ == before.insert_all(resource@.take(i as int)),
        decreases resource.embeddings.len() - i,
    {
        insert(index, &resource.embeddings[i]);
        proof {
            let next = resource@.take(i + 1);
            assert(next.drop_last() =~= resource@.take(i as int));
        }
        i += 1;
    }
    assert(resource@.take(i as int) =~= resource@);
}

/// Builds the index of the records of `resource`. An empty batch gives the
/// empty index.
pub fn index(resource: Resource) -> (built: Result<Index, EngineError>)
    ensures
        built matches Ok(index) && index.wf() && index@ == IndexView::empty().insert_all(
            resource@,
        ),
{
    let mut index = Index { points: Vec::new(), data: HashMap::new() };
    assert(index@.points =~= IndexView::empty().points);
    assert(index@.store =~= IndexView::empty().store);
    self::add(&mut index, &resource);
    Ok(index)
}

/// Tells whether two vectors hold the same coordinates.
fn same_vector(a: &Vec<u32>, b: &Vec<u32>) -> (same: bool)
    ensures
        same == (a@ == b@),
{
    if a.len() != b.len() {
        return false;
    }
    let mut i: usize = 0;
    while i < a.len()
        invariant
            i <= a.len(),
            a.len() == b.len(),
            a@.take(i as int) == b@.take(i as int),
        decreases a.len() - i,
    {
        if a[i] != b[i] {
            return false;
        }
        i += 1;
    }
    assert(a@.take(i as int) =~= a@ && b@.take(i as int) =~= b@);
    true
}

/// Removes one record.
fn delete(index: &mut Index, item: &EmbeddedResource)
    ensures
        final(index)@ == old(index)@.delete(item@),
        old(index).wf() ==> final(index).wf(),
{
    let vector = normalize(&item.embeddings);
    let key = key_of_fields(&item.id, &item.title, &item.url);
    let ghost before = index@;
    let ghost target = item@.point();
    let ghost keep = |p: PointView| p != target;
    let mut table: Vec<Point> = Vec::new();
    std::mem::swap(&mut index.points, &mut table);
    let ghost moved = table@;
    let mut key_left = false;
    for point in iter: table
        invariant
            iter.seq() == moved,
            moved.map_values(|p: Point| p@) == before.points,
            index.data@ == old(index).data@,
            target == (PointView { vector: vector@, key }),
            forall|p: PointView| #[trigger] keep(p) == (p != target),
            index.points@.map_values(|p: Point| p@) == before.points.take(
                iter.index() as int,
            ).filter(keep),
            key_left == exists|j: int|
                0 <= j < index.points.len() && (#[trigger] index.points[j]).key == key,
    {
        let ghost n = iter.index() as int;
        let ghost kept = index.points@;
        let same = point.key == key && same_vector(&point.vector, &vector);
        proof {
            assert(before.points.take(n + 1) =~= before.points.take(n).push(point@));
            before.points.take(n).lemma_filter_push(point@, keep);
        }
        if !same {
            if point.key == key {
                key_left = true;
            }
            index.points.push(point);
            proof {
                assert(index.points[kept.len() as int] == point);
                assert forall|j: int| 0 <= j < kept.len() implies index.points[j] == kept[j] by {}
            }
        }
    }
    proof {
        assert(before.points.take(moved.len() as int) =~= before.points);
        let rest = IndexView { points: before.points.filter(keep), store: before.store };
        assert(key_left == rest.holds_key(key)) by {
            if key_left {
                let j = choose|j: int|
                    0 <= j < index.points.len() && (#[trigger] index.points[j]).key == key;
                assert(rest.points[j] == index.points[j]@);
            }
            if rest.holds_key(key) {
                let j = choose|j: int|
                    0 <= j < rest.points.len() && (#[trigger] rest.points[j]).key == key;
                assert(index.points[j]@ == rest.points[j]);
            }
        }
    }
    if !key_left {
        index.data.remove(&key);
    }
    proof {
        if before.wf() {
            lemma_delete_keeps_wf(before, item@);
        }
    }
}

/// Removes the records of `resource`, one after the other. A record is
/// found by the vector and the key that it was added with. Where the table
/// holds no such point, nothing changes for that record.
pub fn remove(index: &mut Index, resource: &Resource)
    ensures
        final(index)@ == old(index)@.delete_all(resource@),
        old(index).wf() ==> final(index).wf(),
{
    let ghost before = index@;
    let mut i: usize = 0;
    while i < resource.embeddings.len()
        invariant
            i <= resource.embeddings.len(),
            before.wf() ==> index.wf(),
            index@ == before.delete_all(resource@.take(i as int)),
        decreases resource.embeddings.len() - i,
    {
        delete(index, &resource.embeddings[i]);
        proof {
            let next = resource@.take(i + 1);
            assert(next.drop_last() =~= resource@.take(i as int));
        }
        i += 1;
    }
    assert(resource@.take(i as int) =~= resource@);
}

/// Empties the index: the table and the store are replaced by new ones.
pub fn clear(index: &mut Index)
    ensures
        final(index).wf(),
        final(index)@ == IndexView::empty(),
{
    index.points = Vec::new();
    index.data = HashMap::new();
}

/// The number of documents in the store.
pub fn size(index: &Index) -> (count: usize)
    ensures
        count == index@.size(),
{
    assert(index@.store.dom() =~= index.data@.dom());
    index.data.len()
}

/// What to ask of the spatial index for a query.
#[derive(Debug)]
pub struct NearestQuery {
    /// The query's vector at the index's width.
    pub point: Vec<u32>,
    /// How many neighbours to ask for: no more than there are points.
    pub count: usize,
}

/// Prepares a query for `k` neighbours: the embedding is cut or padded to
/// the index's width, and `k` is capped at the number of points.
pub fn nearest_query(index: &Index, query: &Query, k: usize) -> (ask: NearestQuery)
    ensures
        ask.point@ == normalized(query.embeddings()),
        ask.count == index@.neighbor_count(k as nat),
{
    let point = match query {
        Query::Embeddings(v) => normalize(v),
    };
    let held = index.points.len();
    let count = if k < held {
        k
    } else {
        held
    };
    NearestQuery { point, count }
}

/// Resolves the answer of a nearest-neighbour query. `neighbors` holds the
/// keys that the spatial index found, nearest first. The documents of its
/// first `k` keys are returned in that order. A key without a document is
/// an error; no result is left out in silence.
pub fn search(index: &Index, neighbors: &Vec<u64>, k: usize) -> (found: Result<
    Vec<Document>,
    EngineError,
>)
    ensures
        match found {
            Ok(documents) => index@.resolvable(first_k(neighbors@, k as nat))
                && documents@.len() == first_k(neighbors@, k as nat).len() && document_views(
                documents@,
            ) == index@.resolved(first_k(neighbors@, k as nat)),
            Err(error) => error == EngineError::InvariantViolation && !index@.resolvable(
                first_k(neighbors@, k as nat),
            ),
        },
{
    let count = if k < neighbors.len() {
        k
    } else {
        neighbors.len()
    };
    let ghost keys = first_k(neighbors@, k as nat);
    let mut documents: Vec<Document> = Vec::new();
    let mut i: usize = 0;
    while i < count
        invariant
            i <= count,
            count == keys.len(),
            count <= neighbors.len(),
            keys == first_k(neighbors@, k as nat),
            index@.resolvable(keys.take(i as int)),
            document_views(documents@) == index@.resolved(keys.take(i as int)),
        decreases count - i,
    {
        let key = neighbors[i];
        match index.data.get(&key) {
            Some(document) => {
                documents.push(document.clone());
                assert(index@.resolved(keys.take(i + 1)) =~= index@.resolved(
                    keys.take(i as int),
                ).push(index@.store[key]));
            },
            None => {
                assert(keys[i as int] == key && !index@.store.contains_key(key));
                return Err(EngineError::InvariantViolation);
            },
        }
        i += 1;
    }
    assert(keys.take(i as int) =~= keys);
    Ok(documents)
}

/// The records that rebuild the index: one for each point, in the order of
/// the table, with the point's vector and the document of its key.
pub fn snapshot(index: &Index) -> (records: Resource)
    requires
        index.wf(),
    ensures
        records@ == index@.snapshot(),
{
    let mut embeddings: Vec<EmbeddedResource> = Vec::new();
    let mut i: usize = 0;
    while i < index.points.len()
        invariant
            i <= index.points.len(),
            index.wf(),
            embeddings.len() == i,
            embeddings@.map_values(|r: EmbeddedResource| r@) == index@.snapshot().take(i as int),
        decreases index.points.len() - i,
    {
        let point = &index.points[i];
        assert(index@.points[i as int] == point@);
        match index.data.get(&point.key) {
            Some(document) => {
                embeddings.push(
                    EmbeddedResource {
                        id: document.id.clone(),
                        title: document.title.clone(),
                        url: document.url.clone(),
                        embeddings: point.vector.clone(),
                    },
                );
            },
            None => unreached(),
        }
        i += 1;
    }
    Resource { embeddings }
}

/// Rebuilds an index from the records of a snapshot. Records that are the
/// snapshot of no index, because some vector has not the index's width, are
/// refused as a whole.
pub fn restore(resource: Resource) -> (restored: Result<Index, EngineError>)
    ensures
        match restored {
            Ok(index) => restorable(resource@) && index.wf() && index@
                == IndexView::empty().insert_all(resource@),
            Err(error) => error == EngineError::MalformedBlob && !restorable(resource@),
        },
{
    let mut i: usize = 0;
    while i < resource.embeddings.len()
        invariant
            i <= resource.embeddings.len(),
            restorable(resource@.take(i as int)),
        decreases resource.embeddings.len() - i,
    {
        if !has_fixed_width(&resource.embeddings[i].embeddings) {
            assert(resource@[i as int] == resource.embeddings[i as int]@);
            return Err(EngineError::MalformedBlob);
        }
        i += 1;
    }
    assert(resource@.take(i as int) =~= resource@);
    self::index(resource)
}

} // verus!
