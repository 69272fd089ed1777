use knn_rs::KnnError;
use knn_rs::health_check::{HealthCheckController, ServingStatus};
use knn_rs::knncountry::{KnnByCountry, KnnCountryConfig};
use knn_rs::knnindex::Metadata;
use knn_rs::knnservice::KnnService;
use knn_rs::loader::ChunkData;
use knn_rs::settings;

fn config() -> KnnCountryConfig {
    KnnCountryConfig {
        indices_root_path: "/data/indices".to_string(),
        models: Vec::new(),
        platform: "web".to_string(),
        version: "v42".to_string(),
    }
}

fn service_with_default(name: &str) -> KnnService {
    let mut svc = KnnService::new();
    svc.default_model = Some(name.to_string());
    svc
}

#[test]
fn country_fallback_to_xx() {
    let mut router = KnnByCountry::new(config());
    router.install_service("FR".to_string(), service_with_default("fr-model"));
    router.install_service("XX".to_string(), service_with_default("xx-model"));
    let fr = router.get_service("FR").unwrap();
    assert_eq!(fr.default_model.as_deref(), Some("fr-model"));
    let us = router.get_service("US").unwrap();
    assert_eq!(us.default_model.as_deref(), Some("xx-model"));
}

#[test]
fn no_service_and_no_fallback_is_none() {
    let mut router = KnnByCountry::new(config());
    router.install_service("FR".to_string(), service_with_default("fr-model"));
    assert!(router.get_service("US").is_none());
}

#[test]
fn failed_load_installs_nothing() {
    // Two chunks that disagree on the dimension make the load fail, and
    // the failed country is never installed: lookups find nothing.
    let mut router = KnnByCountry::new(config());
    let metadatas = vec![
        Metadata {
            partner_id: 5,
            chunk_id: 0,
            count: 1,
            country: "FR".to_string(),
            index_params: String::new(),
            is_recommendable: true,
            metrics: String::new(),
            metric: "euclidean".to_string(),
            dimension: 128,
        },
        Metadata {
            partner_id: 5,
            chunk_id: 1,
            count: 1,
            country: "FR".to_string(),
            index_params: String::new(),
            is_recommendable: true,
            metrics: String::new(),
            metric: "euclidean".to_string(),
            dimension: 256,
        },
    ];
    let chunks = vec![
        ChunkData { labels: vec![1], norm: vec![0], rows: vec![vec![0; 128]] },
        ChunkData { labels: vec![2], norm: vec![0], rows: vec![vec![0; 256]] },
    ];
    let mut svc = KnnService::new();
    let r = svc.load_index(&metadatas, chunks);
    assert!(matches!(r, Err(KnnError::IndexError(_))));
    assert!(svc.embedding_registry.is_none());
    assert!(router.get_service("FR").is_none());
}

#[test]
fn install_replaces_same_country() {
    let mut router = KnnByCountry::new(config());
    router.install_service("FR".to_string(), service_with_default("one"));
    router.install_service("FR".to_string(), service_with_default("two"));
    assert_eq!(router.countries.len(), 1);
    assert_eq!(router.get_service("FR").unwrap().default_model.as_deref(), Some("two"));
}

#[test]
fn get_countries_in_install_order() {
    let mut router = KnnByCountry::new(config());
    router.install_service("FR".to_string(), KnnService::new());
    router.install_service("IT".to_string(), KnnService::new());
    assert_eq!(router.get_countries(), vec!["FR".to_string(), "IT".to_string()]);
}

#[test]
fn indice_path_layout() {
    let router = KnnByCountry::new(config());
    assert_eq!(router.indice_path("IT"), "/data/indices/web/v42/country=IT");
}

#[test]
fn model_path_layout() {
    let router = KnnByCountry::new(config());
    let mut m = knn_rs::knnservice::Model {
        name: "ranker".to_string(),
        model_path: Some("/data/models".to_string()),
        model_type: knn_rs::knnservice::ModelType::Tensorflow,
        is_default: true,
        version: Some("7".to_string()),
    };
    assert_eq!(
        router.model_path(&m, "IT").as_deref(),
        Some("/data/models/web/7/country=IT")
    );
    m.version = None;
    assert!(router.model_path(&m, "IT").is_none());
    m.version = Some("7".to_string());
    m.model_path = None;
    assert!(router.model_path(&m, "IT").is_none());
}

#[test]
fn health_status_lifecycle() {
    let mut hc = HealthCheckController::new();
    assert!(hc.get_status("knn").is_none());
    hc.set_status("knn".to_string(), ServingStatus::Serving);
    hc.set_status("aux".to_string(), ServingStatus::Unknown);
    assert_eq!(hc.get_status("knn"), Some(ServingStatus::Serving));
    hc.set_status("knn".to_string(), ServingStatus::ServiceUnknown);
    assert_eq!(hc.get_status("knn"), Some(ServingStatus::ServiceUnknown));
    assert_eq!(hc.status_map.len(), 2);
    hc.shutdown();
    assert_eq!(hc.get_status("knn"), Some(ServingStatus::NotServing));
    assert_eq!(hc.get_status("aux"), Some(ServingStatus::NotServing));
}

#[test]
fn settings_model_conversion() {
    let m = settings::Model {
        name: "ranker".to_string(),
        path: Some("/models/ranker".to_string()),
        model_type: "tensorflow".to_string(),
        is_default: true,
        version: Some("3".to_string()),
    };
    let sm = m.to_service_model().unwrap();
    assert_eq!(sm.name, "ranker");
    assert_eq!(sm.model_path.as_deref(), Some("/models/ranker"));
    assert!(sm.is_default);
    let bad = settings::Model { model_type: "banana".to_string(), ..m };
    assert!(matches!(bad.to_service_model(), Err(KnnError::ModelNotFound(_))));
}
