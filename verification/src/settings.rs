//! Deployment configuration.
//!
//! These are the plain shapes of the configuration file; reading the file
//! and the environment is done by the unverified edge, which hands the
//! decoded values in.  Turning a configured model entry into a service
//! model — including parsing its type name — is verified here.

use vstd::prelude::*;
use crate::KnnError;
use crate::knnservice::{self, ModelType};

verus! {

/// Server tuning knobs.
#[derive(Clone)]
pub struct ServerConfig {
    /// The worker-pool size, when overridden.
    pub worker_thread: Option<u32>,
}

/// Where the embedding indices live.
#[derive(Clone)]
pub struct IndexConfig {
    /// The embedding-version segment of the on-disk layout.
    pub embedding_version: String,
    /// The root under which per-country index directories live.
    pub indices_root: String,
}

/// One configured model entry, with its type still as text.
#[derive(Clone)]
pub struct Model {
    pub name: String,
    pub path: Option<String>,
    pub model_type: String,
    pub is_default: bool,
    pub version: Option<String>,
}

/// The configured model list.
#[derive(Clone)]
pub struct ModelConfig {
    pub models: Vec<Model>,
}

/// The whole deployment configuration.
#[derive(Clone)]
pub struct KnnConfig {
    pub server: ServerConfig,
    pub index_config: IndexConfig,
    pub model_config: ModelConfig,
    pub platform: String,
    pub countries: Vec<String>,
}

impl Model {
    /// Resolves the entry's type name and yields the service's model
    /// registration; an unknown type name is an error.
    pub fn to_service_model(&self) -> (r: Result<knnservice::Model, KnnError>)
        ensures
            match ModelType::spec_of_name(self.model_type@) {
                Some(t) => r matches Ok(m) && m.name@ == self.name@ && m.model_type == t
                    && m.is_default == self.is_default && (match self.path {
                    Some(p) => m.model_path matches Some(q) && q@ == p@,
                    None => m.model_path is None,
                }) && (match self.version {
                    Some(v) => m.version matches Some(w) && w@ == v@,
                    None => m.version is None,
                }),
                None => r matches Err(KnnError::ModelNotFound(s)) && s@ == self.model_type@,
            },
    {
        let model_type = match ModelType::from_name(self.model_type.as_str()) {
            Ok(t) => t,
            Err(e) => return Err(e),
        };
        let model_path = match &self.path {
            Some(p) => Some(p.clone()),
            None => None,
        };
        let version = match &self.version {
            Some(v) => Some(v.clone()),
            None => None,
        };
        Ok(
            knnservice::Model {
                name: self.name.clone(),
                model_path,
                model_type,
                is_default: self.is_default,
                version,
            },
        )
    }
}

} // verus!
