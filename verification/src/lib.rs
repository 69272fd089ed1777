//! A multi-tenant k-nearest-neighbor serving core.
//!
//! Embeddings are fixed-length vectors of IEEE-754 single-precision values,
//! carried everywhere as their raw bit patterns (`u32`), so that all routing,
//! lookup and ranking logic can be verified; the arithmetic on the scalars
//! themselves is delegated to a software implementation of the IEEE
//! operations behind a small set of trusted wrappers.

use vstd::prelude::*;

pub mod scalar;
pub mod productindex;
pub mod wrappedindex;
pub mod knnindex;
pub mod embedding_computer;
pub mod knn_tf;
pub mod knnservice;
pub mod jsonvalue;
pub mod loader;
pub mod knncountry;
pub mod health_check;
pub mod settings;

verus! {

/// Everything that can go wrong in this crate, mirrored across load and
/// query paths.  Absence conditions on the query path (missing partner,
/// missing label) are not errors and never appear here.
#[derive(Debug)]
pub enum KnnError {
    /// A path could not be represented or was absent where required.
    InvalidPath,
    /// A partner index was required but is not present.
    IndexNotFound(i32),
    /// No vector could be produced for the request.
    NoVectorFound,
    /// Catch-all for unexpected states.
    UnknownError,
    /// An operation needed a registry but none was installed.
    IndexNotLoaded,
    /// A metric name in metadata was not recognized.
    UnknownDistance(String),
    /// A query named a computer that was never registered.
    ModelNotFound(String),
    /// A query named no computer and no default is registered.
    ModelMissing,
    /// An I/O failure, reported by the unverified edge.
    IoError(String),
    /// Metadata could not be decoded.
    SerdeError(String),
    /// The index backend rejected an operation.
    IndexError(String),
    /// The neural evaluator failed or is not attached in this process.
    TFError(String),
    /// A model referenced a country that was never loaded.
    CountryNotFoundWhileLoadingModel(String),
}

/// The distance metrics a shard may declare.
#[derive(Copy, Clone, PartialEq, Eq, Structural, Debug)]
pub enum Distance {
    Euclidean,
    Angular,
    InnerProduct,
}

impl Distance {
    /// The numeric code the native index layer assigns to each metric.
    pub fn to_native(self) -> (code: i32)
        ensures
            code == self.spec_native_code(),
    {
        match self {
            Distance::Euclidean => 1,
            Distance::Angular => 2,
            Distance::InnerProduct => 3,
        }
    }

    pub open spec fn spec_native_code(self) -> i32 {
        match self {
            Distance::Euclidean => 1,
            Distance::Angular => 2,
            Distance::InnerProduct => 3,
        }
    }

    /// Which metric a lowered metadata string denotes; `UnknownDistance`
    /// otherwise.
    pub open spec fn spec_of_name(name: Seq<char>) -> Option<Distance> {
        if name == "euclidean"@ {
            Some(Distance::Euclidean)
        } else if name == "angular"@ {
            Some(Distance::Angular)
        } else if name == "dotproduct"@ {
            Some(Distance::InnerProduct)
        } else {
            None
        }
    }

    /// Parses a metric name as it appears in metadata, ignoring case.
    pub fn from_name(name: &str) -> (r: Result<Distance, KnnError>)
        ensures
            match Distance::spec_of_name(lower_of(name@)) {
                Some(d) => r == Ok::<Distance, KnnError>(d),
                None => r matches Err(KnnError::UnknownDistance(s)) && s@ == name@,
            },
    {
        let low = to_lowercase(name);
        if str_eq(low.as_str(), "euclidean") {
            Ok(Distance::Euclidean)
        } else if str_eq(low.as_str(), "angular") {
            Ok(Distance::Angular)
        } else if str_eq(low.as_str(), "dotproduct") {
            Ok(Distance::InnerProduct)
        } else {
            Err(KnnError::UnknownDistance(name.to_owned()))
        }
    }
}

/// The lower-case form of a string, as Unicode lowering defines it: a
/// function of the characters alone.
pub uninterp spec fn lower_of(s: Seq<char>) -> Seq<char>;

/// Relies on str::to_lowercase: the result depends on the characters
/// alone.
#[verifier::external_body]
fn to_lowercase(s: &str) -> (r: String)
    ensures
        r@ == lower_of(s@),
{
    s.to_lowercase()
}

impl core::str::FromStr for Distance {
    type Err = KnnError;

    fn from_str(value: &str) -> Result<Distance, KnnError> {
        Distance::from_name(value)
    }
}

/// Compares two string slices for character-for-character equality.
pub fn str_eq(a: &str, b: &str) -> (r: bool)
    ensures
        r == (a@ == b@),
{
    let sa: String = a.to_owned();
    let sb: String = b.to_owned();
    sa == sb
}

/// Construction-time parameters of a native index.
#[derive(Copy, Clone)]
pub struct IndexConfig {
    pub distance: Distance,
    pub dim: usize,
    pub ef_search: usize,
}

impl IndexConfig {
    pub fn new(distance: Distance, dim: usize, ef_search: usize) -> (c: IndexConfig)
        ensures
            c.distance == distance,
            c.dim == dim,
            c.ef_search == ef_search,
    {
        IndexConfig { distance, dim, ef_search }
    }
}

} // verus!
