use knn_rs::productindex::IndexResult;
use knn_rs::wrappedindex::WrappedIndex;
use knn_rs::knnindex::{EmbeddingRegistry, KnnIndex};
use knn_rs::KnnError;

fn bits(v: &[f32]) -> Vec<u32> {
    v.iter().map(|x| x.to_bits()).collect()
}

fn shard(labels: Vec<i64>, rows: Vec<Vec<f32>>, dim: usize) -> WrappedIndex {
    let rows: Vec<Vec<u32>> = rows.iter().map(|r| bits(r)).collect();
    let norm = vec![0u32; labels.len()];
    WrappedIndex::new(rows, labels, norm, dim).unwrap()
}

#[test]
fn create_and_query() {
    let mut labels = Vec::new();
    let mut rows = Vec::new();
    for i in 0..50 {
        labels.push(i as i64);
        rows.push(vec![i as f32, (i + 1) as f32, (i + 2) as f32]);
    }
    let a = shard(labels, rows, 3);
    let query = bits(&[20f32, 21.0, 22.0]);
    let res = a.search(&query, 5).unwrap();
    assert_eq!(res.len(), 5);
    assert_eq!(res[0].label, 20);
    assert_eq!(f32::from_bits(res[0].distance), 0.0);
}

#[test]
fn shard_get_item_round_trip() {
    let s = shard(vec![10, 20], vec![vec![1.0, 0.0, 0.0], vec![0.0, 1.0, 0.0]], 3);
    let v = s.get_item(20).unwrap().unwrap();
    assert_eq!(v, bits(&[0.0, 1.0, 0.0]));
    assert!(s.get_item(999).unwrap().is_none());
    for l in s.list_labels().unwrap() {
        assert_eq!(s.get_item(l).unwrap().unwrap().len(), s.dimension());
    }
}

#[test]
fn shard_rejects_mismatched_parts() {
    let rows = vec![bits(&[1.0, 0.0])];
    assert!(matches!(
        WrappedIndex::new(rows.clone(), vec![1, 2], vec![0, 0], 2),
        Err(KnnError::IndexError(_))
    ));
    assert!(matches!(
        WrappedIndex::new(rows, vec![1], vec![0], 3),
        Err(KnnError::IndexError(_))
    ));
}

#[test]
fn shard_rejects_duplicated_label() {
    // The label-to-id mapping must be injective: a mapping file naming the
    // same label twice fails the load of that chunk.
    let rows = vec![bits(&[1.0, 0.0]), bits(&[0.0, 1.0])];
    assert!(matches!(
        WrappedIndex::new(rows, vec![7, 7], vec![0, 0], 2),
        Err(KnnError::IndexError(_))
    ));
}

#[test]
fn search_wrong_dimension_is_error() {
    let s = shard(vec![1], vec![vec![1.0, 2.0, 3.0]], 3);
    let res = s.search(&bits(&[1.0, 2.0]), 4);
    assert!(matches!(res, Err(KnnError::IndexError(_))));

    let mut p = KnnIndex::new();
    p.add_reco_index(shard(vec![1], vec![vec![1.0, 2.0, 3.0]], 3));
    assert!(matches!(p.search(&bits(&[1.0]), 4), Err(KnnError::IndexError(_))));
}

#[test]
fn search_zero_k_is_empty() {
    let mut p = KnnIndex::new();
    p.add_reco_index(shard(vec![1], vec![vec![1.0, 2.0, 3.0]], 3));
    // Even a query of the wrong width returns nothing: the shards are
    // never consulted for k == 0.
    assert_eq!(p.search(&bits(&[9.0]), 0).unwrap().len(), 0);
    assert_eq!(p.search(&bits(&[1.0, 2.0, 3.0]), 0).unwrap().len(), 0);
}

#[test]
fn merged_search_sorted_and_bounded() {
    let mut p = KnnIndex::new();
    p.add_reco_index(shard(
        vec![1, 2, 3],
        vec![vec![0.0, 1.0], vec![3.0, 0.0], vec![0.5, 0.5]],
        2,
    ));
    p.add_reco_index(shard(vec![4, 5], vec![vec![1.0, 1.0], vec![0.1, 0.0]], 2));
    let res = p.search(&bits(&[0.0, 0.0]), 3).unwrap();
    assert_eq!(res.len(), 3);
    for w in res.windows(2) {
        let a = f32::from_bits(w[0].distance);
        let b = f32::from_bits(w[1].distance);
        assert!(a < b || (a == b && w[0].label <= w[1].label));
    }
    assert_eq!(res[0].label, 5);
}

#[test]
fn merged_search_deterministic() {
    let mut p = KnnIndex::new();
    p.add_reco_index(shard(
        vec![1, 2, 3],
        vec![vec![0.0, 1.0], vec![3.0, 0.0], vec![0.5, 0.5]],
        2,
    ));
    let q = bits(&[0.25, 0.25]);
    let r1 = p.search(&q, 2).unwrap();
    let r2 = p.search(&q, 2).unwrap();
    assert_eq!(r1, r2);
}

#[test]
fn tie_breaks_toward_smaller_label() {
    // Two shards, both answering at the same distance from the query:
    // labels 42 and 7 sit at +0.3 and -0.3 of the query in one dimension.
    let mut p = KnnIndex::new();
    p.add_reco_index(shard(vec![42, 7], vec![vec![0.3], vec![-0.3]], 1));
    p.add_reco_index(shard(vec![42, 7], vec![vec![0.3], vec![-0.3]], 1));
    let res = p.search(&bits(&[0.0]), 1).unwrap();
    assert_eq!(res.len(), 1);
    assert_eq!(res[0].label, 7);
    assert_eq!(f32::from_bits(res[0].distance), 0.3f32 * 0.3f32);

    // Both duplicate rows stay distinct candidates: with k = 4 all four
    // rows come back, the two label-7 rows first.
    let res4 = p.search(&bits(&[0.0]), 4).unwrap();
    assert_eq!(res4.len(), 4);
    assert_eq!(res4[0].label, 7);
    assert_eq!(res4[1].label, 7);
    assert_eq!(res4[2].label, 42);
    assert_eq!(res4[3].label, 42);
}

#[test]
fn smaller_k_is_prefix_of_larger_k() {
    let mut p = KnnIndex::new();
    p.add_reco_index(shard(
        vec![1, 2, 3, 4],
        vec![vec![4.0], vec![1.0], vec![3.0], vec![2.0]],
        1,
    ));
    p.add_reco_index(shard(vec![5, 6], vec![vec![1.5], vec![0.5]], 1));
    let q = bits(&[0.0]);
    let r2 = p.search(&q, 2).unwrap();
    let r5 = p.search(&q, 5).unwrap();
    assert_eq!(r2[..], r5[..2]);
}

#[test]
fn duplicate_label_lookup_prefers_recommendable_load_order() {
    let mut p = KnnIndex::new();
    p.add_reco_index(shard(vec![10], vec![vec![1.0, 0.0]], 2));
    p.add_reco_index(shard(vec![10], vec![vec![2.0, 0.0]], 2));
    p.add_non_reco_index(shard(vec![10, 11], vec![vec![3.0, 0.0], vec![4.0, 0.0]], 2));
    // The first recommendable shard wins for label 10; label 11 is only
    // in the extras and still resolves.
    assert_eq!(p.get_item(10).unwrap().unwrap(), bits(&[1.0, 0.0]));
    assert_eq!(p.get_item(11).unwrap().unwrap(), bits(&[4.0, 0.0]));
}

#[test]
fn partner_counts_and_dimension_come_from_first_shard() {
    let mut p = KnnIndex::new();
    assert_eq!(p.count(), 0);
    assert_eq!(p.dimension(), 0);
    p.add_non_reco_index(shard(vec![1, 2], vec![vec![0.0], vec![1.0]], 1));
    assert_eq!(p.count(), 2);
    assert_eq!(p.dimension(), 1);
    p.add_reco_index(shard(vec![3], vec![vec![0.0]], 1));
    assert_eq!(p.count(), 1);
    assert_eq!(p.dimension(), 1);
    assert_eq!(p.list_labels().unwrap(), vec![3, 1, 2]);
}

#[test]
fn registry_lookup_and_absence() {
    let mut p = KnnIndex::new();
    p.add_reco_index(shard(vec![10], vec![vec![1.0, 0.0, 0.0]], 3));
    let reg = EmbeddingRegistry::new(3, vec![(5, p)]);
    assert_eq!(reg.fetch_item(5, 10).unwrap().unwrap(), bits(&[1.0, 0.0, 0.0]));
    assert!(reg.fetch_item(5, 999).unwrap().is_none());
    assert!(reg.fetch_item(7, 10).unwrap().is_none());
    assert!(reg.has_item(5, 10).unwrap());
    assert!(!reg.has_item(7, 10).unwrap());
    assert_eq!(reg.list_labels(5).unwrap(), vec![10]);
    assert_eq!(reg.list_labels(7).unwrap(), Vec::<i64>::new());
}

#[test]
fn nan_distance_ranks_last_not_everywhere() {
    // A NaN coordinate gives a NaN distance; under the IEEE total order it
    // ranks after every finite distance instead of poisoning the sort.
    let mut p = KnnIndex::new();
    p.add_reco_index(shard(vec![1, 2], vec![vec![f32::NAN], vec![1.0]], 1));
    let res = p.search(&bits(&[0.0]), 2).unwrap();
    assert_eq!(res[0].label, 2);
    assert_eq!(res[1].label, 1);
    assert!(f32::from_bits(res[1].distance).is_nan());
}

#[test]
fn index_result_fields_are_plain() {
    let r = IndexResult { label: 3, distance: 1.5f32.to_bits() };
    assert_eq!(r.label, 3);
    assert_eq!(f32::from_bits(r.distance), 1.5);
}
