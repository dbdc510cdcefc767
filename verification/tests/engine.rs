use kiddo::float::distance::squared_euclidean;
use kiddo::float::kdtree::KdTree;
use voy_search::engine::{add, index, nearest_query, remove, search, Index, Query};
use voy_search::{EmbeddedResource, Resource};

const CONTENT_RAW: [&str; 6] = [
    "That is a very happy Person",
    "That is a Happy Dog",
    "Today is a sunny day",
    "Yesterday is a sunny day",
    "That is a very happy dog",
    "That is a very sad cat",
];

const CONTENT: [[f32; 3]; 6] = [
    [1.0, 2.0, 3.0],
    [3.0, 1.0, 2.0],
    [2.0, 3.0, 1.0],
    [0.0, 0.0, 0.0],
    [5.0, 5.0, 5.0],
    [1.0, 1.0, 1.0],
];

const QUESTION: [f32; 3] = [1.1, 1.9, 2.9];

fn bits(values: &[f32]) -> Vec<u32> {
    values.iter().map(|x| x.to_bits()).collect()
}

fn coordinates(vector: &[u32]) -> [f32; 768] {
    let mut point = [0.0f32; 768];
    for (slot, pattern) in point.iter_mut().zip(vector.iter()) {
        *slot = f32::from_bits(*pattern);
    }
    point
}

/// The keys of the `k` points nearest to the query, nearest first.
fn nearest(index: &Index, query: &Query, k: usize) -> Vec<u64> {
    let ask = nearest_query(index, query, k);
    if ask.count == 0 {
        return Vec::new();
    }
    let mut tree: KdTree<f32, u64, 768, 32, u16> = KdTree::new();
    for point in index.points() {
        tree.add(&coordinates(&point.vector), point.key);
    }
    tree.nearest_n(&coordinates(&ask.point), ask.count, &squared_euclidean)
        .into_iter()
        .map(|neighbour| neighbour.item)
        .collect()
}

fn get_resource(k: usize) -> Resource {
    let embeddings = CONTENT
        .iter()
        .take(k)
        .enumerate()
        .map(|(i, x)| EmbeddedResource {
            id: i.to_string(),
            title: CONTENT_RAW.get(i).unwrap().to_string(),
            url: "".to_owned(),
            embeddings: bits(x),
        })
        .collect();
    Resource { embeddings }
}

#[test]
fn it_indexes_embeddings() {
    let resource: Resource = get_resource(6);
    let index = index(resource).unwrap();

    assert_eq!(index.point_count(), 6);
}

#[test]
fn it_returns_vector_search_result() {
    let resource: Resource = get_resource(6);
    let index = index(resource).unwrap();

    let query = Query::Embeddings(bits(&QUESTION));
    let neighbors = nearest(&index, &query, 1);
    let result = search(&index, &neighbors, 1).unwrap();

    assert_eq!(result.get(0).unwrap().title, CONTENT_RAW[0]);
}

#[test]
fn it_adds_embeddings_to_index() {
    let resource: Resource = get_resource(2);
    let mut index = index(resource).unwrap();
    let addition = Resource {
        embeddings: vec![EmbeddedResource {
            id: "5".to_owned(),
            title: CONTENT_RAW.get(5).unwrap().to_string(),
            url: "".to_owned(),
            embeddings: bits(&CONTENT[5]),
        }],
    };
    add(&mut index, &addition);

    assert_eq!(index.point_count(), 3);
}

#[test]
fn it_removes_embeddings_from_index() {
    let resource: Resource = get_resource(2);
    let mut index = index(resource).unwrap();
    let target = Resource {
        embeddings: vec![EmbeddedResource {
            id: "1".to_owned(),
            title: CONTENT_RAW.get(1).unwrap().to_string(),
            url: "".to_owned(),
            embeddings: bits(&CONTENT[1]),
        }],
    };
    remove(&mut index, &target);

    assert_eq!(index.point_count(), 1);
}

#[test]
fn it_clears_all_embeddings_from_index() {
    let resource: Resource = get_resource(6);
    let mut index = index(resource).unwrap();
    assert_eq!(index.point_count(), 6);
    assert_eq!(voy_search::engine::size(&index), 6);

    voy_search::engine::clear(&mut index);
    assert_eq!(index.point_count(), 0);
    assert_eq!(voy_search::engine::size(&index), 0);
}

#[test]
fn it_returns_the_size_of_index() {
    let resource: Resource = get_resource(6);
    let index = index(resource).unwrap();
    assert_eq!(index.point_count(), 6);
    assert_eq!(voy_search::engine::size(&index), 6);
}

#[test]
fn it_ranks_all_six_documents_by_distance() {
    let index = index(get_resource(6)).unwrap();
    let query = Query::Embeddings(bits(&QUESTION));
    let neighbors = nearest(&index, &query, 6);
    let result = search(&index, &neighbors, 6).unwrap();

    let titles: Vec<&str> = result.iter().map(|document| document.title.as_str()).collect();
    assert_eq!(
        titles,
        vec![
            CONTENT_RAW[0],
            CONTENT_RAW[5],
            CONTENT_RAW[1],
            CONTENT_RAW[2],
            CONTENT_RAW[3],
            CONTENT_RAW[4],
        ]
    );
}

#[test]
fn it_returns_all_documents_when_k_exceeds_the_size() {
    let index = index(get_resource(3)).unwrap();
    let query = Query::Embeddings(bits(&QUESTION));
    let neighbors = nearest(&index, &query, 10);

    assert_eq!(neighbors.len(), 3);
    assert_eq!(search(&index, &neighbors, 10).unwrap().len(), 3);
}

#[test]
fn it_follows_the_six_document_scenario() {
    let mut index = index(get_resource(6)).unwrap();
    let query = Query::Embeddings(bits(&QUESTION));

    let first = search(&index, &nearest(&index, &query, 1), 1).unwrap();
    assert_eq!(first.len(), 1);
    assert_eq!(first[0].id, "0");
    assert_eq!(first[0].title, CONTENT_RAW[0]);

    let seventh = Resource {
        embeddings: vec![EmbeddedResource {
            id: "6".to_owned(),
            title: "A seventh document".to_owned(),
            url: "".to_owned(),
            embeddings: bits(&[4.0, 4.0, 4.0]),
        }],
    };
    add(&mut index, &seventh);
    assert_eq!(voy_search::engine::size(&index), 7);
    remove(&mut index, &seventh);
    assert_eq!(voy_search::engine::size(&index), 6);

    let saved = voy_search::engine::snapshot(&index);
    let restored = voy_search::engine::restore(saved).unwrap();
    let again = search(&restored, &nearest(&restored, &query, 1), 1).unwrap();
    assert_eq!(again, first);
}

#[test]
fn it_finds_nothing_after_clear() {
    let mut index = index(get_resource(6)).unwrap();
    voy_search::engine::clear(&mut index);
    let query = Query::Embeddings(bits(&QUESTION));

    for k in [0usize, 1, 6, 1000] {
        let neighbors = nearest(&index, &query, k);
        assert!(neighbors.is_empty());
        assert!(search(&index, &neighbors, k).unwrap().is_empty());
    }
}

fn scattered(seed: u32) -> Vec<f32> {
    let mut state = seed.wrapping_mul(2654435761).wrapping_add(1);
    (0..768)
        .map(|_| {
            state = state.wrapping_mul(1664525).wrapping_add(1013904223);
            ((state >> 8) as f32) / 16777216.0 - 0.5
        })
        .collect()
}

#[test]
fn it_finds_each_of_many_documents_by_its_own_embedding() {
    let embeddings: Vec<EmbeddedResource> = (0..200u32)
        .map(|i| EmbeddedResource {
            id: i.to_string(),
            title: format!("document {}", i),
            url: format!("https://example.org/{}", i),
            embeddings: bits(&scattered(i)),
        })
        .collect();
    let mut index = index(Resource { embeddings: embeddings.clone() }).unwrap();
    assert_eq!(index.point_count(), 200);
    assert_eq!(voy_search::engine::size(&index), 200);

    for i in [0usize, 1, 31, 32, 33, 99, 199] {
        let query = Query::Embeddings(embeddings[i].embeddings.clone());
        let neighbors = nearest(&index, &query, 3);
        assert_eq!(neighbors.len(), 3);
        let found = search(&index, &neighbors, 3).unwrap();
        assert_eq!(found[0].id, i.to_string());
        assert_eq!(found[0].url, format!("https://example.org/{}", i));
    }

    remove(&mut index, &Resource { embeddings: embeddings[..150].to_vec() });
    assert_eq!(index.point_count(), 50);
    assert_eq!(voy_search::engine::size(&index), 50);

    let gone = Query::Embeddings(embeddings[0].embeddings.clone());
    let found = search(&index, &nearest(&index, &gone, 1), 1).unwrap();
    assert_ne!(found[0].id, "0");

    let kept = Query::Embeddings(embeddings[150].embeddings.clone());
    let found = search(&index, &nearest(&index, &kept, 1), 1).unwrap();
    assert_eq!(found[0].id, "150");
}

#[test]
fn it_returns_a_prefix_for_a_smaller_k() {
    let index = index(get_resource(6)).unwrap();
    let query = Query::Embeddings(bits(&QUESTION));

    for k in 1..6 {
        let short = search(&index, &nearest(&index, &query, k), k).unwrap();
        let long = search(&index, &nearest(&index, &query, k + 1), k + 1).unwrap();
        assert_eq!(short.len(), k);
        assert_eq!(short[..], long[..k]);
    }
}
