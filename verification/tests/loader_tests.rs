use knn_rs::KnnError;
use knn_rs::embedding_computer::UserEvent;
use knn_rs::knnindex::Metadata;
use knn_rs::knnservice::{KnnService, Model, ModelType};
use knn_rs::loader::{ChunkData, Loader};

fn bits(v: &[f32]) -> Vec<u32> {
    v.iter().map(|x| x.to_bits()).collect()
}

fn meta(partner: i32, chunk: i32, country: &str, reco: bool, dim: usize) -> Metadata {
    Metadata {
        partner_id: partner,
        chunk_id: chunk,
        count: 1,
        country: country.to_string(),
        index_params: "IVF1,Flat".to_string(),
        is_recommendable: reco,
        metrics: "l2".to_string(),
        metric: "euclidean".to_string(),
        dimension: dim,
    }
}

fn chunk(labels: Vec<i64>, rows: Vec<Vec<f32>>) -> ChunkData {
    let norm = vec![0u32; labels.len()];
    ChunkData { labels, norm, rows: rows.iter().map(|r| bits(r)).collect() }
}

#[test]
fn parse_mapping_big_endian() {
    let mut bytes = vec![0, 0, 0, 0, 0, 0, 0, 1];
    bytes.extend_from_slice(&[0xFF; 8]);
    assert_eq!(Loader::parse_mapping(&bytes), vec![1, -1]);
    assert_eq!(Loader::parse_mapping(&[]), Vec::<i64>::new());
    // A trailing partial group is dropped, as end-of-file ends the read.
    let mut with_tail = bytes.clone();
    with_tail.extend_from_slice(&[1, 2, 3]);
    assert_eq!(Loader::parse_mapping(&with_tail), vec![1, -1]);
    assert_eq!(Loader::parse_mapping(&(42i64).to_be_bytes()), vec![42]);
}

#[test]
fn parse_norms_big_endian() {
    let mut bytes = Vec::new();
    bytes.extend_from_slice(&1.5f32.to_bits().to_be_bytes());
    bytes.extend_from_slice(&(-2.0f32).to_bits().to_be_bytes());
    bytes.push(9);
    let norms = Loader::parse_embedding_norms(&bytes);
    assert_eq!(norms.len(), 2);
    assert_eq!(f32::from_bits(norms[0]), 1.5);
    assert_eq!(f32::from_bits(norms[1]), -2.0);
}

#[test]
fn chunk_filenames() {
    let m = meta(33, 2, "IT", true, 128);
    assert_eq!(m.index_filename(), "IT.33.2.True.index");
    assert_eq!(m.mapping_filename(), "IT.33.2.True.index_inverseMapping.array");
    assert_eq!(m.norms_filename(), "IT.33.2.True.index_embeddingNorms.array");
    let m2 = meta(-7, 10, "FR", false, 128);
    assert_eq!(m2.index_filename(), "FR.-7.10.False.index");
}

#[test]
fn parse_metadata_list() {
    let text = br#"[
      {"partnerId": 5, "chunkId": 0, "count": 2, "country": "IT",
       "indexParams": "IVF1,Flat", "isRecommendable": true,
       "metrics": "l2", "metric": "euclidean", "dimension": 3,
       "somethingUnknown": [1, 2, 3]},
      {"partnerId": 9, "chunkId": 1, "count": 1, "country": "IT",
       "indexParams": "IVF1,Flat", "isRecommendable": false,
       "metrics": "l2", "metric": "euclidean", "dimension": 3}
    ]"#;
    let rows = Loader::parse_metadata(text).unwrap();
    assert_eq!(rows.len(), 2);
    assert_eq!(rows[0].partner_id, 5);
    assert_eq!(rows[0].chunk_id, 0);
    assert_eq!(rows[0].count, 2);
    assert_eq!(rows[0].country, "IT");
    assert!(rows[0].is_recommendable);
    assert!(!rows[1].is_recommendable);
    assert_eq!(rows[1].dimension, 3);
}

#[test]
fn parse_metadata_rejects_bad_input() {
    assert!(matches!(Loader::parse_metadata(b"not json"), Err(KnnError::SerdeError(_))));
    assert!(matches!(Loader::parse_metadata(b"{}"), Err(KnnError::SerdeError(_))));
    // A row missing a required field fails the whole load.
    let missing = br#"[{"partnerId": 5}]"#;
    assert!(matches!(Loader::parse_metadata(missing), Err(KnnError::SerdeError(_))));
}

#[test]
fn build_registry_groups_by_partner_in_order() {
    let metadatas = vec![
        meta(5, 0, "IT", true, 2),
        meta(9, 0, "IT", true, 2),
        meta(5, 1, "IT", false, 2),
        meta(5, 2, "IT", true, 2),
    ];
    let chunks = vec![
        chunk(vec![10], vec![vec![1.0, 0.0]]),
        chunk(vec![20], vec![vec![0.0, 1.0]]),
        chunk(vec![30], vec![vec![1.0, 1.0]]),
        chunk(vec![40], vec![vec![2.0, 0.0]]),
    ];
    let reg = Loader::build_registry(&metadatas, chunks).unwrap();
    assert_eq!(reg.dim, 2);
    assert_eq!(reg.embeddings.len(), 2);
    assert_eq!(reg.embeddings[0].0, 5);
    assert_eq!(reg.embeddings[1].0, 9);
    // Partner 5: two recommendable chunks in row order, one extra.
    assert_eq!(reg.embeddings[0].1.indices.len(), 2);
    assert_eq!(reg.embeddings[0].1.extra_items.len(), 1);
    assert_eq!(reg.list_labels(5).unwrap(), vec![10, 40, 30]);
    assert_eq!(reg.list_labels(9).unwrap(), vec![20]);
}

#[test]
fn load_and_query_end_to_end() {
    let text = br#"[
      {"partnerId": 5, "chunkId": 0, "count": 2, "country": "IT",
       "indexParams": "IVF1,Flat", "isRecommendable": true,
       "metrics": "l2", "metric": "euclidean", "dimension": 2}
    ]"#;
    let metadatas = Loader::parse_metadata(text).unwrap();
    // The side files arrive as raw big-endian bytes, exactly as on disk.
    let mut mapping_bytes = Vec::new();
    mapping_bytes.extend_from_slice(&10i64.to_be_bytes());
    mapping_bytes.extend_from_slice(&20i64.to_be_bytes());
    let labels = Loader::parse_mapping(&mapping_bytes);
    let mut norm_bytes = Vec::new();
    norm_bytes.extend_from_slice(&1.0f32.to_bits().to_be_bytes());
    norm_bytes.extend_from_slice(&1.0f32.to_bits().to_be_bytes());
    let norm = Loader::parse_embedding_norms(&norm_bytes);
    let chunks = vec![ChunkData {
        labels,
        norm,
        rows: vec![bits(&[1.0, 0.0]), bits(&[0.0, 1.0])],
    }];

    let mut svc = KnnService::new();
    svc.load_index(&metadatas, chunks).unwrap();
    svc.load_model(Model {
        name: "avg".to_string(),
        model_path: None,
        model_type: ModelType::Average,
        is_default: true,
        version: None,
    })
    .unwrap();
    let events = vec![UserEvent { index: 5, label: 10, timestamp: 0, event_type: 0 }];
    let res = svc
        .get_closest_items(&events, 5, 2, None)
        .unwrap();
    assert_eq!(res.len(), 2);
    assert_eq!(res[0].label, 10);
    assert_eq!(f32::from_bits(res[0].distance), 0.0);
    assert_eq!(res[1].label, 20);
    assert_eq!(f32::from_bits(res[1].distance), 2.0);
}

#[test]
fn build_registry_fails_on_dimension_mismatch() {
    let metadatas = vec![meta(5, 0, "IT", true, 128), meta(5, 1, "IT", true, 256)];
    let chunks = vec![chunk(vec![1], vec![vec![0.0; 128]]), chunk(vec![2], vec![vec![0.0; 256]])];
    assert!(matches!(
        Loader::build_registry(&metadatas, chunks),
        Err(KnnError::IndexError(_))
    ));
}

#[test]
fn build_registry_fails_on_zero_dimension_or_bad_chunk() {
    let metadatas = vec![meta(5, 0, "IT", true, 0)];
    let chunks = vec![chunk(vec![1], vec![vec![]])];
    assert!(matches!(
        Loader::build_registry(&metadatas, chunks),
        Err(KnnError::IndexError(_))
    ));

    let metadatas = vec![meta(5, 0, "IT", true, 2)];
    let chunks = vec![chunk(vec![1, 2], vec![vec![0.0, 0.0]])];
    assert!(matches!(
        Loader::build_registry(&metadatas, chunks),
        Err(KnnError::IndexError(_))
    ));
}
