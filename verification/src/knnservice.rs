//! The per-country KNN service: a registry plus named user-embedding
//! computers.
//!
//! A query resolves its computer by name (or the registered default),
//! folds the events into a user embedding, and runs the partner's merged
//! top-k.  Absences — empty or all-miss events, an unknown partner — end
//! the query with an empty result; an unresolvable computer is an error.

use vstd::prelude::*;
use vstd::string::StringExecFns;
use crate::KnnError;
use crate::embedding_computer::{AverageComputer, EmbeddingResult, UserEvent, spec_average,
    spec_used_count};
use crate::knnindex::{EmbeddingRegistry, Metadata, spec_find_partner};
use crate::loader::{ChunkData, Loader};
use crate::productindex::IndexResult;

verus! {

/// The ways a model name can be interpreted.
#[derive(Debug, Eq, PartialEq, Structural, Clone, Copy, Hash)]
pub enum ModelType {
    /// The verified averaging computer.
    Average,
    /// A neural evaluator, run by the session holder outside this crate.
    Tensorflow,
    /// Reserved; never instantiated.
    XLA,
}

impl ModelType {
    /// Which model type a configuration string denotes.
    pub open spec fn spec_of_name(name: Seq<char>) -> Option<ModelType> {
        if name == "average"@ || name == "avg"@ {
            Some(ModelType::Average)
        } else if name == "tf"@ || name == "tensorflow"@ {
            Some(ModelType::Tensorflow)
        } else if name == "xla"@ {
            Some(ModelType::XLA)
        } else {
            None
        }
    }

    /// Parses a model type as it appears in configuration.
    pub fn from_name(name: &str) -> (r: Result<ModelType, KnnError>)
        ensures
            match ModelType::spec_of_name(name@) {
                Some(t) => r == Ok::<ModelType, KnnError>(t),
                None => r matches Err(KnnError::ModelNotFound(s)) && s@ == name@,
            },
    {
        if crate::str_eq(name, "average") || crate::str_eq(name, "avg") {
            Ok(ModelType::Average)
        } else if crate::str_eq(name, "tf") || crate::str_eq(name, "tensorflow") {
            Ok(ModelType::Tensorflow)
        } else if crate::str_eq(name, "xla") {
            Ok(ModelType::XLA)
        } else {
            Err(KnnError::ModelNotFound(name.to_owned()))
        }
    }
}

impl core::str::FromStr for ModelType {
    type Err = KnnError;

    fn from_str(s: &str) -> Result<ModelType, KnnError> {
        ModelType::from_name(s)
    }
}

/// One model registration: a name, the strategy it denotes, and where its
/// graph lives when it is a neural evaluator.
#[derive(Clone)]
pub struct Model {
    pub name: String,
    pub model_path: Option<String>,
    pub model_type: ModelType,
    pub is_default: bool,
    pub version: Option<String>,
}

/// A registered computer: the closed set of strategies a model name can
/// resolve to.
pub enum Computer {
    /// The verified averaging strategy.
    Average(AverageComputer),
    /// A neural evaluator whose session lives with the caller; the service
    /// refuses to run it in-process.
    Evaluator,
}

/// The computer registered under `name`, if any.
pub open spec fn spec_model_lookup(models: Seq<(String, Computer)>, name: Seq<char>) -> Option<
    Computer,
>
    decreases models.len(),
{
    if models.len() == 0 {
        None
    } else if models[0].0@ == name {
        Some(models[0].1)
    } else {
        spec_model_lookup(models.drop_first(), name)
    }
}

/// Registering a name overwrites its first registration, or appends.
pub open spec fn spec_model_insert(
    models: Seq<(String, Computer)>,
    name: String,
    c: Computer,
) -> Seq<(String, Computer)>
    decreases models.len(),
{
    if models.len() == 0 {
        Seq::empty().push((name, c))
    } else if models[0].0@ == name@ {
        seq![(name, c)] + models.drop_first()
    } else {
        seq![models[0]] + spec_model_insert(models.drop_first(), name, c)
    }
}

/// One country's serving state: the registry once loaded, the registered
/// computers, and the default model name.
pub struct KnnService {
    /// The registry, present once an index folder was loaded.
    pub embedding_registry: Option<EmbeddingRegistry>,
    /// The name a query without a model falls back to.
    pub default_model: Option<String>,
    /// The registered computers, by name, in registration order.
    pub models: Vec<(String, Computer)>,
}

impl KnnService {
    /// The installed registry, if any, is well formed.
    pub open spec fn wf(&self) -> bool {
        match self.embedding_registry {
            Some(reg) => reg.wf(),
            None => true,
        }
    }

    /// The name a query with `model` resolves: the argument, else the
    /// default, else nothing.
    pub open spec fn spec_model_name(&self, model: Option<String>) -> Option<Seq<char>> {
        match model {
            Some(s) => Some(s@),
            None => match self.default_model {
                Some(d) => Some(d@),
                None => None,
            },
        }
    }

    /// A service with nothing loaded and nothing registered.
    pub fn new() -> (r: KnnService)
        ensures
            r.embedding_registry is None,
            r.default_model is None,
            r.models@ == Seq::<(String, Computer)>::empty(),
    {
        KnnService { embedding_registry: None, default_model: None, models: Vec::new() }
    }

    /// The labels of one partner; requires a loaded registry.
    pub fn list_labels(&self, partner_id: i32) -> (r: Result<Vec<i64>, KnnError>)
        requires
            self.wf(),
        ensures
            match self.embedding_registry {
                None => r matches Err(KnnError::IndexNotLoaded),
                Some(reg) => r matches Ok(v) && match spec_find_partner(reg.embeddings@, partner_id) {
                    Some(p) => v@ == p.spec_labels(),
                    None => v@ == Seq::<i64>::empty(),
                },
            },
    {
        match &self.embedding_registry {
            Some(reg) => reg.list_labels(partner_id),
            None => Err(KnnError::IndexNotLoaded),
        }
    }

    /// The embedding of one product; requires a loaded registry.
    pub fn get_item(&self, partner_id: i32, label: i64) -> (r: Result<Option<Vec<u32>>, KnnError>)
        requires
            self.wf(),
        ensures
            match self.embedding_registry {
                None => r matches Err(KnnError::IndexNotLoaded),
                Some(reg) => r matches Ok(o) && match reg.spec_fetch_item(partner_id, label) {
                    Some(s) => o matches Some(v) && v@ == s,
                    None => o is None,
                },
            },
    {
        match &self.embedding_registry {
            Some(reg) => reg.fetch_item(partner_id, label),
            None => Err(KnnError::IndexNotLoaded),
        }
    }

    /// Builds a registry from a parsed index folder and installs it.  On a
    /// nonempty row list the load succeeds exactly when every row carries
    /// the first row's dimension (at least 1) and every chunk's parts line
    /// up, and then the installed registry is the Loader's: one partner per
    /// id in order of first appearance, holding that partner's chunks as
    /// shards, recommendable and extras apart, in row order.  An empty
    /// folder installs nothing, and a failed build leaves the service as it
    /// was.
    pub fn load_index(&mut self, metadatas: &Vec<Metadata>, chunks: Vec<ChunkData>) -> (r: Result<
        (),
        KnnError,
    >)
        requires
            old(self).wf(),
            metadatas@.len() == chunks@.len(),
        ensures
            final(self).wf(),
            final(self).default_model == old(self).default_model,
            final(self).models@ == old(self).models@,
            metadatas@.len() == 0 ==> r is Ok && final(self).embedding_registry == old(
                self,
            ).embedding_registry,
            r is Err ==> final(self).embedding_registry == old(self).embedding_registry && (
            r matches Err(KnnError::IndexError(_))),
            metadatas@.len() > 0 ==> ({
                let d = metadatas@[0].dimension;
                let loadable = d >= 1 && (forall|i: int|
                    0 <= i < metadatas@.len() ==> (#[trigger] metadatas@[i]).dimension == d) && (
                forall|i: int|
                    0 <= i < chunks@.len() ==> crate::loader::spec_chunk_ok(
                        #[trigger] chunks@[i],
                        d,
                    ));
                &&& (r is Ok <==> loadable)
                &&& r is Ok ==> (final(self).embedding_registry matches Some(reg) && {
                    &&& reg.wf()
                    &&& reg.dim == d
                    &&& reg.embeddings@.len() == crate::loader::spec_partner_ids(metadatas@).len()
                    &&& forall|j: int| 0 <= j < reg.embeddings@.len()
                        ==> (#[trigger] reg.embeddings@[j]).0 == crate::loader::spec_partner_ids(
                            metadatas@,
                        )[j]
                    &&& forall|j: int| 0 <= j < reg.embeddings@.len()
                        ==> (#[trigger] reg.embeddings@[j]).1.indices@
                            == crate::loader::spec_shards_for(
                            metadatas@,
                            chunks@,
                            d,
                            reg.embeddings@[j].0,
                            true,
                        )
                    &&& forall|j: int| 0 <= j < reg.embeddings@.len()
                        ==> (#[trigger] reg.embeddings@[j]).1.extra_items@
                            == crate::loader::spec_shards_for(
                            metadatas@,
                            chunks@,
                            d,
                            reg.embeddings@[j].0,
                            false,
                        )
                })
            }),
    {
        if metadatas.len() == 0 {
            return Ok(());
        }
        match Loader::build_registry(metadatas, chunks) {
            Ok(reg) => {
                self.embedding_registry = Some(reg);
                Ok(())
            },
            Err(e) => Err(e),
        }
    }

    /// Registers a computer under the model's name, overwriting an earlier
    /// registration of that name, and records it as the default when asked.
    /// A neural model must name a path to its graph; the reserved XLA type
    /// is not accepted.
    pub fn load_model(&mut self, model: Model) -> (r: Result<(), KnnError>)
        requires
            model.model_type != ModelType::XLA,
        ensures
            match model.model_type {
                ModelType::Average | ModelType::Tensorflow => {
                    if model.model_type == ModelType::Tensorflow && model.model_path is None {
                        r matches Err(KnnError::InvalidPath) && *final(self) == *old(self)
                    } else {
                        &&& r is Ok
                        &&& final(self).models@ == spec_model_insert(
                            old(self).models@,
                            model.name,
                            if model.model_type == ModelType::Average {
                                Computer::Average(AverageComputer {  })
                            } else {
                                Computer::Evaluator
                            },
                        )
                        &&& final(self).default_model == if model.is_default {
                            Some(model.name)
                        } else {
                            old(self).default_model
                        }
                        &&& final(self).embedding_registry == old(self).embedding_registry
                    }
                },
                ModelType::XLA => false,
            },
            final(self).wf() == old(self).wf(),
    {
        let computer = match model.model_type {
            ModelType::Average => Computer::Average(AverageComputer {  }),
            ModelType::Tensorflow => {
                if model.model_path.is_none() {
                    return Err(KnnError::InvalidPath);
                }
                Computer::Evaluator
            },
            ModelType::XLA => {
                return Err(KnnError::UnknownError);
            },
        };
        let is_default = model.is_default;
        let name = model.name;
        self.insert_model(name, computer, is_default);
        Ok(())
    }

    /// Stores one computer under `name`, replacing an earlier entry.
    fn insert_model(&mut self, name: String, c: Computer, is_default: bool)
        ensures
            final(self).models@ == spec_model_insert(old(self).models@, name, c),
            final(self).default_model == if is_default {
                Some(name)
            } else {
                old(self).default_model
            },
            final(self).embedding_registry == old(self).embedding_registry,
    {
        let ghost before = self.models@;
        let mut pos: usize = 0;
        let mut found = false;
        while pos < self.models.len() && !found
            invariant
                self.models@ == before,
                pos <= before.len(),
                forall|j: int| 0 <= j < pos ==> (#[trigger] before[j]).0@ != name@,
                found ==> pos < before.len() && before[pos as int].0@ == name@,
            decreases before.len() - pos + if found { 0int } else { 1int },
        {
            if str_eq_exec(&self.models[pos].0, &name) {
                found = true;
            } else {
                pos = pos + 1;
            }
        }
        if is_default {
            self.default_model = Some(name.clone());
            proof {
                assert(self.default_model matches Some(d) && d@ == name@);
            }
        }
        if found {
            let _ = self.models.remove(pos);
            self.models.insert(pos, (name, c));
            proof {
                lemma_model_insert_at(before, name, c, pos as int);
                assert(self.models@ =~= before.remove(pos as int).insert(pos as int, (name, c)));
                assert(self.models@ =~= spec_model_insert(before, name, c));
            }
        } else {
            self.models.push((name, c));
            proof {
                lemma_model_insert_missing(before, name, c);
                assert(self.models@ =~= spec_model_insert(before, name, c));
            }
        }
    }

    /// Resolves the query's computer and folds the events into a user
    /// embedding.  Only the averaging computer runs in-process; a neural
    /// evaluator is refused here and must be driven by its session holder.
    pub fn compute_user_vector(&self, model: Option<String>, user_events: &[UserEvent]) -> (r:
        Result<EmbeddingResult, KnnError>)
        requires
            self.wf(),
        ensures
            spec_compute_outcome(*self, self.spec_model_name(model), user_events@, r),
    {
        let model_name: String = match model {
            Some(s) => s,
            None => match &self.default_model {
                Some(d) => d.clone(),
                None => return Err(KnnError::ModelMissing),
            },
        };
        let reg = match &self.embedding_registry {
            Some(r) => r,
            None => return Err(KnnError::IndexNotLoaded),
        };
        let computer = match self.find_model(&model_name) {
            Some(c) => c,
            None => return Err(KnnError::ModelNotFound(model_name)),
        };
        match computer {
            Computer::Average(avg) => avg.compute_user_vector(reg, user_events),
            Computer::Evaluator => Err(
                KnnError::TFError("neural evaluators run with their session holder".to_owned()),
            ),
        }
    }

    /// The computer registered under `name`, if any.
    fn find_model(&self, name: &String) -> (r: Option<&Computer>)
        ensures
            match spec_model_lookup(self.models@, name@) {
                Some(c) => r matches Some(f) && *f == c,
                None => r is None,
            },
    {
        let mut i: usize = 0;
        while i < self.models.len()
            invariant
                i <= self.models@.len(),
                forall|j: int| 0 <= j < i ==> (#[trigger] self.models@[j]).0@ != name@,
            decreases self.models@.len() - i,
        {
            if str_eq_exec(&self.models[i].0, name) {
                proof {
                    lemma_model_lookup_skip(self.models@, name@, i as int);
                    assert(self.models@.skip(i as int)[0] == self.models@[i as int]);
                }
                return Some(&self.models[i].1);
            }
            i = i + 1;
        }
        proof {
            lemma_model_lookup_skip(self.models@, name@, self.models@.len() as int);
            assert(self.models@.skip(self.models@.len() as int) =~= Seq::<
                (String, Computer),
            >::empty());
        }
        None
    }

    /// Runs the partner's merged top-k for an already computed user
    /// embedding: an all-miss embedding or an unknown partner yields an
    /// empty result, not an error.
    pub fn search_with_vector(
        &self,
        user_embedding: &Vec<u32>,
        used_count: usize,
        query_index: i32,
        k: usize,
    ) -> (r: Result<Vec<IndexResult>, KnnError>)
        requires
            self.wf(),
        ensures
            match self.embedding_registry {
                None => r matches Err(KnnError::IndexNotLoaded),
                Some(reg) => {
                    if used_count == 0 {
                        r matches Ok(v) && v@ == Seq::<IndexResult>::empty()
                    } else {
                        match spec_find_partner(reg.embeddings@, query_index) {
                            None => r matches Ok(v) && v@ == Seq::<IndexResult>::empty(),
                            Some(p) => {
                                if k == 0 || p.indices@.len() == 0 || user_embedding@.len()
                                    == reg.dim {
                                    r matches Ok(v) && v@ == p.spec_search(
                                        user_embedding@,
                                        k as int,
                                    )
                                } else {
                                    r matches Err(KnnError::IndexError(_))
                                }
                            },
                        }
                    }
                },
            },
    {
        if used_count == 0 {
            match &self.embedding_registry {
                Some(_) => (),
                None => return Err(KnnError::IndexNotLoaded),
            }
            return Ok(Vec::new());
        }
        let reg = match &self.embedding_registry {
            Some(r) => r,
            None => return Err(KnnError::IndexNotLoaded),
        };
        match reg.get_partner(query_index) {
            Some(p) => {
                proof {
                    crate::knnindex::lemma_registry_dimension(*reg, query_index);
                }
                p.search(user_embedding.as_slice(), k)
            },
            None => Ok(Vec::new()),
        }
    }

    /// One full query: resolve the computer, fold the events, and return
    /// the partner's `k` best products for the resulting embedding.
    pub fn get_closest_items(
        &self,
        user_events: &[UserEvent],
        query_index: i32,
        k: usize,
        model: Option<String>,
    ) -> (r: Result<Vec<IndexResult>, KnnError>)
        requires
            self.wf(),
        ensures
            spec_query_outcome(*self, self.spec_model_name(model), user_events@, query_index,
                k as int, r),
    {
        let vector = match self.compute_user_vector(model, user_events) {
            Ok(v) => v,
            Err(e) => return Err(e),
        };
        let res = self.search_with_vector(
            &vector.user_embedding,
            vector.user_event_used_count,
            query_index,
            k,
        );
        res
    }
}

/// What resolving and running a computer yields: each failure names its
/// cause, and a resolved averaging computer yields exactly the average of
/// the resolved events.
pub open spec fn spec_compute_outcome(
    s: KnnService,
    name: Option<Seq<char>>,
    events: Seq<UserEvent>,
    r: Result<EmbeddingResult, KnnError>,
) -> bool {
    match name {
        None => r matches Err(KnnError::ModelMissing),
        Some(name) => match s.embedding_registry {
            None => r matches Err(KnnError::IndexNotLoaded),
            Some(reg) => match spec_model_lookup(s.models@, name) {
                None => r matches Err(KnnError::ModelNotFound(n)) && n@ == name,
                Some(Computer::Average(_)) => r matches Ok(res) && res.user_embedding@
                    == spec_average(reg, events) && res.user_event_used_count == spec_used_count(
                    reg,
                    events,
                ) && res.user_embedding@.len() == reg.dim,
                Some(Computer::Evaluator) => r matches Err(KnnError::TFError(_)),
            },
        },
    }
}

/// What a full query yields: the computer's failures pass through; an
/// all-miss event list or an unknown partner yields an empty result; and
/// otherwise the partner's `k` best for the averaged embedding.
pub open spec fn spec_query_outcome(
    s: KnnService,
    name: Option<Seq<char>>,
    events: Seq<UserEvent>,
    query_index: i32,
    k: int,
    r: Result<Vec<IndexResult>, KnnError>,
) -> bool {
    match name {
        None => r matches Err(KnnError::ModelMissing),
        Some(name) => match s.embedding_registry {
            None => r matches Err(KnnError::IndexNotLoaded),
            Some(reg) => match spec_model_lookup(s.models@, name) {
                None => r matches Err(KnnError::ModelNotFound(n)) && n@ == name,
                Some(Computer::Evaluator) => r matches Err(KnnError::TFError(_)),
                Some(Computer::Average(_)) => {
                    if spec_used_count(reg, events) == 0 {
                        r matches Ok(v) && v@ == Seq::<IndexResult>::empty()
                    } else {
                        match spec_find_partner(reg.embeddings@, query_index) {
                            None => r matches Ok(v) && v@ == Seq::<IndexResult>::empty(),
                            Some(p) => r matches Ok(v) && v@ == p.spec_search(
                                spec_average(reg, events),
                                k,
                            ),
                        }
                    }
                },
            },
        },
    }
}

/// Compares two owned strings character for character.
fn str_eq_exec(a: &String, b: &String) -> (r: bool)
    ensures
        r == (a@ == b@),
{
    a.eq(b)
}

/// A lookup passes over every entry with a different name.
pub proof fn lemma_model_lookup_skip(models: Seq<(String, Computer)>, name: Seq<char>, i: int)
    requires
        0 <= i <= models.len(),
        forall|j: int| 0 <= j < i ==> (#[trigger] models[j]).0@ != name,
    ensures
        spec_model_lookup(models, name) == spec_model_lookup(models.skip(i), name),
    decreases i,
{
    if i > 0 {
        assert(models[0].0@ != name);
        assert(spec_model_lookup(models, name) == spec_model_lookup(models.drop_first(), name));
        assert(models.drop_first() =~= models.skip(1));
        assert forall|j: int| 0 <= j < i - 1 implies (#[trigger] models.skip(1)[j]).0@ != name by {
            assert(models.skip(1)[j] == models[j + 1]);
        }
        lemma_model_lookup_skip(models.skip(1), name, i - 1);
        assert(models.skip(1).skip(i - 1) =~= models.skip(i));
    } else {
        assert(models.skip(0) =~= models);
    }
}

/// Replacing the first entry carrying `name` is what registration does
/// when the name is present at position `pos`.
pub proof fn lemma_model_insert_at(
    models: Seq<(String, Computer)>,
    name: String,
    c: Computer,
    pos: int,
)
    requires
        0 <= pos < models.len(),
        models[pos].0@ == name@,
        forall|j: int| 0 <= j < pos ==> (#[trigger] models[j]).0@ != name@,
    ensures
        spec_model_insert(models, name, c) == models.remove(pos).insert(pos, (name, c)),
    decreases pos,
{
    if pos == 0 {
        assert(spec_model_insert(models, name, c) =~= models.remove(0).insert(0, (name, c)));
    } else {
        assert(models[0].0@ != name@);
        assert forall|j: int| 0 <= j < pos - 1 implies (#[trigger] models.drop_first()[j]).0@
            != name@ by {
            assert(models.drop_first()[j] == models[j + 1]);
        }
        assert(models.drop_first()[pos - 1] == models[pos]);
        lemma_model_insert_at(models.drop_first(), name, c, pos - 1);
        assert(spec_model_insert(models, name, c) =~= models.remove(pos).insert(pos, (name, c)));
    }
}

/// Appending is what registration does when the name is absent.
pub proof fn lemma_model_insert_missing(models: Seq<(String, Computer)>, name: String, c: Computer)
    requires
        forall|j: int| 0 <= j < models.len() ==> (#[trigger] models[j]).0@ != name@,
    ensures
        spec_model_insert(models, name, c) == models.push((name, c)),
    decreases models.len(),
{
    if models.len() == 0 {
        assert(spec_model_insert(models, name, c) =~= models.push((name, c)));
    } else {
        assert forall|j: int| 0 <= j < models.drop_first().len() implies (
        #[trigger] models.drop_first()[j]).0@ != name@ by {
            assert(models.drop_first()[j] == models[j + 1]);
        }
        lemma_model_insert_missing(models.drop_first(), name, c);
        assert(spec_model_insert(models, name, c) =~= models.push((name, c)));
    }
}

} // verus!
