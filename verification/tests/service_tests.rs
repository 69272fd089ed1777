use knn_rs::{Distance, IndexConfig, KnnError};
use knn_rs::embedding_computer::{AverageComputer, UserEvent};
use knn_rs::knnindex::{EmbeddingRegistry, KnnIndex};
use knn_rs::knnservice::{KnnService, Model, ModelType};
use knn_rs::knn_tf::build_evaluator_inputs;
use knn_rs::wrappedindex::WrappedIndex;

fn bits(v: &[f32]) -> Vec<u32> {
    v.iter().map(|x| x.to_bits()).collect()
}

fn event(partner: i32, label: i64) -> UserEvent {
    UserEvent { index: partner, label, timestamp: 1_700_000_000, event_type: 0 }
}

/// A registry with dimension 3 and one partner (id 5) holding
/// `{10 -> [1,0,0], 20 -> [0,1,0]}`.
fn sample_registry() -> EmbeddingRegistry {
    let rows = vec![bits(&[1.0, 0.0, 0.0]), bits(&[0.0, 1.0, 0.0])];
    let s = WrappedIndex::new(rows, vec![10, 20], vec![0, 0], 3).unwrap();
    let mut p = KnnIndex::new();
    p.add_reco_index(s);
    EmbeddingRegistry::new(3, vec![(5, p)])
}

fn average_model(name: &str, is_default: bool) -> Model {
    Model {
        name: name.to_string(),
        model_path: None,
        model_type: ModelType::Average,
        is_default,
        version: None,
    }
}

fn sample_service() -> KnnService {
    let mut svc = KnnService::new();
    svc.embedding_registry = Some(sample_registry());
    svc.load_model(average_model("avg", true)).unwrap();
    svc
}

#[test]
fn simple_test() {
    let _config = IndexConfig::new(Distance::Euclidean, 100, 10);
    let _service = KnnService::new();
}

#[test]
fn average_three_events_one_miss() {
    let reg = sample_registry();
    let avg = AverageComputer::default();
    let events = vec![event(5, 10), event(5, 20), event(5, 999)];
    let res = avg.compute_user_vector(&reg, &events).unwrap();
    assert_eq!(res.user_event_used_count, 2);
    assert_eq!(res.user_embedding, bits(&[0.5, 0.5, 0.0]));
}

#[test]
fn average_counts_repeated_labels() {
    let reg = sample_registry();
    let avg = AverageComputer::default();
    let events = vec![event(5, 10), event(5, 10), event(5, 20)];
    let res = avg.compute_user_vector(&reg, &events).unwrap();
    assert_eq!(res.user_event_used_count, 3);
    let expected = [(1.0f32 + 1.0) / 3.0, 1.0f32 / 3.0, 0.0];
    assert_eq!(res.user_embedding, bits(&expected));
}

#[test]
fn average_all_miss_is_zero_vector() {
    let reg = sample_registry();
    let avg = AverageComputer::default();
    let res = avg.compute_user_vector(&reg, &[event(5, 999)]).unwrap();
    assert_eq!(res.user_event_used_count, 0);
    assert_eq!(res.user_embedding, bits(&[0.0, 0.0, 0.0]));
}

#[test]
fn search_uses_averaged_vector() {
    let svc = sample_service();
    let events = vec![event(5, 10), event(5, 20), event(5, 999)];
    let res = svc.get_closest_items(&events, 5, 2, None).unwrap();
    assert_eq!(res.len(), 2);
    // [0.5, 0.5, 0] is equidistant from both rows; the smaller label wins.
    assert_eq!(res[0].label, 10);
    assert_eq!(res[1].label, 20);
    let expected = 0.5f32 * 0.5 + 0.5 * 0.5;
    assert_eq!(f32::from_bits(res[0].distance), expected);
    assert_eq!(f32::from_bits(res[1].distance), expected);
}

#[test]
fn all_miss_events_return_empty_without_backend() {
    let svc = sample_service();
    let res = svc.get_closest_items(&[event(5, 999)], 5, 3, None).unwrap();
    assert!(res.is_empty());
}

#[test]
fn empty_events_return_empty() {
    let svc = sample_service();
    let res = svc.get_closest_items(&[], 5, 3, None).unwrap();
    assert!(res.is_empty());
}

#[test]
fn absent_partner_returns_empty() {
    let svc = sample_service();
    let res = svc.get_closest_items(&[event(5, 10)], 7, 3, None).unwrap();
    assert!(res.is_empty());
}

#[test]
fn mismatched_vector_surfaces_backend_error() {
    let svc = sample_service();
    let bad = bits(&[1.0, 0.0]);
    assert!(matches!(
        svc.search_with_vector(&bad, 1, 5, 3),
        Err(KnnError::IndexError(_))
    ));
    // With k == 0 the shards are never consulted and nothing comes back.
    assert_eq!(svc.search_with_vector(&bad, 1, 5, 0).unwrap().len(), 0);
}

#[test]
fn missing_model_and_unknown_model_fail() {
    let mut svc = KnnService::new();
    svc.embedding_registry = Some(sample_registry());
    assert!(matches!(
        svc.get_closest_items(&[event(5, 10)], 5, 3, None),
        Err(KnnError::ModelMissing)
    ));
    svc.load_model(average_model("avg", false)).unwrap();
    assert!(matches!(
        svc.get_closest_items(&[event(5, 10)], 5, 3, Some("nope".to_string())),
        Err(KnnError::ModelNotFound(_))
    ));
    let res = svc.get_closest_items(&[event(5, 10)], 5, 3, Some("avg".to_string()));
    assert!(res.is_ok());
}

#[test]
fn unloaded_service_fails_with_index_not_loaded() {
    let mut svc = KnnService::new();
    svc.load_model(average_model("avg", true)).unwrap();
    assert!(matches!(svc.list_labels(5), Err(KnnError::IndexNotLoaded)));
    assert!(matches!(svc.get_item(5, 10), Err(KnnError::IndexNotLoaded)));
    assert!(matches!(
        svc.get_closest_items(&[event(5, 10)], 5, 3, None),
        Err(KnnError::IndexNotLoaded)
    ));
}

#[test]
fn tensorflow_model_needs_a_path_and_runs_outside() {
    let mut svc = KnnService::new();
    svc.embedding_registry = Some(sample_registry());
    let mut m = average_model("tf", true);
    m.model_type = ModelType::Tensorflow;
    assert!(matches!(svc.load_model(m.clone()), Err(KnnError::InvalidPath)));
    m.model_path = Some("/models/tf".to_string());
    svc.load_model(m).unwrap();
    assert!(matches!(
        svc.get_closest_items(&[event(5, 10)], 5, 3, None),
        Err(KnnError::TFError(_))
    ));
}

#[test]
fn later_model_registration_replaces_earlier() {
    let mut svc = KnnService::new();
    svc.embedding_registry = Some(sample_registry());
    let mut tf = average_model("m", true);
    tf.model_type = ModelType::Tensorflow;
    tf.model_path = Some("/models/tf".to_string());
    svc.load_model(tf).unwrap();
    svc.load_model(average_model("m", false)).unwrap();
    assert_eq!(svc.models.len(), 1);
    // After re-registration under the same name, queries resolve to the
    // averaging computer.
    assert!(svc.get_closest_items(&[event(5, 10)], 5, 3, None).is_ok());
}

#[test]
fn service_list_and_get_delegate() {
    let svc = sample_service();
    assert_eq!(svc.list_labels(5).unwrap(), vec![10, 20]);
    assert_eq!(svc.get_item(5, 20).unwrap().unwrap(), bits(&[0.0, 1.0, 0.0]));
    assert!(svc.get_item(5, 999).unwrap().is_none());
    assert_eq!(svc.list_labels(7).unwrap(), Vec::<i64>::new());
}

#[test]
fn model_type_names() {
    assert_eq!(ModelType::from_name("average").unwrap(), ModelType::Average);
    assert_eq!(ModelType::from_name("avg").unwrap(), ModelType::Average);
    assert_eq!(ModelType::from_name("tf").unwrap(), ModelType::Tensorflow);
    assert_eq!(ModelType::from_name("tensorflow").unwrap(), ModelType::Tensorflow);
    assert_eq!(ModelType::from_name("xla").unwrap(), ModelType::XLA);
    assert!(matches!(ModelType::from_name("banana"), Err(KnnError::ModelNotFound(_))));
}

#[test]
fn distance_names_and_native_codes() {
    assert_eq!(Distance::from_name("euclidean").unwrap(), Distance::Euclidean);
    assert_eq!(Distance::from_name("Euclidean").unwrap(), Distance::Euclidean);
    assert_eq!(Distance::from_name("angular").unwrap(), Distance::Angular);
    assert_eq!(Distance::from_name("dotproduct").unwrap(), Distance::InnerProduct);
    assert!(matches!(Distance::from_name("manhattan"), Err(KnnError::UnknownDistance(_))));
    assert_eq!(Distance::Euclidean.to_native(), 1);
    assert_eq!(Distance::Angular.to_native(), 2);
    assert_eq!(Distance::InnerProduct.to_native(), 3);
}

#[test]
fn evaluator_inputs_zero_fill_and_counts() {
    let reg = sample_registry();
    let mut e1 = event(5, 10);
    e1.timestamp = 100;
    e1.event_type = 2;
    let mut e2 = event(5, 999);
    e2.timestamp = 200;
    e2.event_type = 4;
    let inputs = build_evaluator_inputs(&reg, &[e1, e2]).unwrap();
    assert_eq!(inputs.nb_events, 2);
    assert_eq!(inputs.used_count, 1);
    assert_eq!(inputs.timestamps_sec, vec![100, 200]);
    assert_eq!(inputs.event_types, vec![2, 4]);
    assert_eq!(
        inputs.product_embeddings,
        bits(&[1.0, 0.0, 0.0, 0.0, 0.0, 0.0])
    );
}
