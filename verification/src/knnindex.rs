//! The partner index and the per-country registry.
//!
//! A partner index aggregates the recommendable shards of one partner plus
//! its non-recommendable extras.  Lookups probe recommendable shards first,
//! then extras, in load order; searches merge the per-shard rankings into a
//! single deterministic top-k.  The registry maps partner ids to partner
//! indices and declares the embedding dimension shared by every shard.

use vstd::prelude::*;
use crate::KnnError;
use crate::productindex::{IndexResult, sort_results, sort_irs, spec_top_k};
use crate::wrappedindex::WrappedIndex;

verus! {

/// The labels of a run of shards, concatenated in load order.
pub open spec fn spec_labels_of(shards: Seq<WrappedIndex>) -> Seq<i64>
    decreases shards.len(),
{
    if shards.len() == 0 {
        Seq::empty()
    } else {
        shards[0].labels@ + spec_labels_of(shards.drop_first())
    }
}

/// Appending one shard appends its labels.
pub proof fn lemma_labels_of_snoc(shards: Seq<WrappedIndex>, s: WrappedIndex)
    ensures
        spec_labels_of(shards.push(s)) == spec_labels_of(shards) + s.labels@,
    decreases shards.len(),
{
    if shards.len() == 0 {
        assert(shards.push(s)[0] == s);
        assert(shards.push(s).drop_first() =~= Seq::<WrappedIndex>::empty());
        assert(spec_labels_of(Seq::<WrappedIndex>::empty()) == Seq::<i64>::empty());
        assert(spec_labels_of(shards) == Seq::<i64>::empty());
        assert(spec_labels_of(shards.push(s)) =~= spec_labels_of(shards) + s.labels@);
    } else {
        assert(shards.push(s)[0] == shards[0]);
        assert(shards.push(s).drop_first() =~= shards.drop_first().push(s));
        lemma_labels_of_snoc(shards.drop_first(), s);
        assert(spec_labels_of(shards.push(s)) =~= spec_labels_of(shards) + s.labels@);
    }
}

/// The first shard in `shards` holding `label` answers the probe.
pub open spec fn spec_probe(shards: Seq<WrappedIndex>, label: i64) -> Option<Seq<u32>>
    decreases shards.len(),
{
    if shards.len() == 0 {
        None
    } else {
        match shards[0].spec_get_item(label) {
            Some(v) => Some(v),
            None => spec_probe(shards.drop_first(), label),
        }
    }
}

/// A probe passes over every shard that does not hold the label.
pub proof fn lemma_probe_skip(shards: Seq<WrappedIndex>, label: i64, i: int)
    requires
        0 <= i <= shards.len(),
        forall|j: int| 0 <= j < i ==> (#[trigger] shards[j]).spec_get_item(label) is None,
    ensures
        spec_probe(shards, label) == spec_probe(shards.skip(i), label),
    decreases i,
{
    if i > 0 {
        assert(shards[0].spec_get_item(label) is None);
        assert(spec_probe(shards, label) == spec_probe(shards.drop_first(), label));
        assert(shards.drop_first() =~= shards.skip(1));
        assert forall|j: int| 0 <= j < i - 1 implies (#[trigger] shards.skip(1)[j]).spec_get_item(
            label,
        ) is None by {
            assert(shards.skip(1)[j] == shards[j + 1]);
        }
        lemma_probe_skip(shards.skip(1), label, i - 1);
        assert(shards.skip(1).skip(i - 1) =~= shards.skip(i));
    } else {
        assert(shards.skip(0) =~= shards);
    }
}

/// The per-shard rankings of a run of shards, concatenated in load order.
pub open spec fn spec_shard_results(shards: Seq<WrappedIndex>, q: Seq<u32>, k: int) -> Seq<
    IndexResult,
>
    decreases shards.len(),
{
    if shards.len() == 0 {
        Seq::empty()
    } else {
        shards[0].spec_search(q, k) + spec_shard_results(shards.drop_first(), q, k)
    }
}

/// Appending one shard appends its ranking.
pub proof fn lemma_shard_results_snoc(shards: Seq<WrappedIndex>, s: WrappedIndex, q: Seq<u32>, k: int)
    ensures
        spec_shard_results(shards.push(s), q, k) == spec_shard_results(shards, q, k)
            + s.spec_search(q, k),
    decreases shards.len(),
{
    if shards.len() == 0 {
        assert(shards.push(s)[0] == s);
        assert(shards.push(s).drop_first() =~= Seq::<WrappedIndex>::empty());
        assert(spec_shard_results(Seq::<WrappedIndex>::empty(), q, k) == Seq::<
            IndexResult,
        >::empty());
        assert(spec_shard_results(shards, q, k) == Seq::<IndexResult>::empty());
        assert(spec_shard_results(shards.push(s), q, k) =~= spec_shard_results(shards, q, k)
            + s.spec_search(q, k));
    } else {
        assert(shards.push(s)[0] == shards[0]);
        assert(shards.push(s).drop_first() =~= shards.drop_first().push(s));
        lemma_shard_results_snoc(shards.drop_first(), s, q, k);
        assert(spec_shard_results(shards.push(s), q, k) =~= spec_shard_results(shards, q, k)
            + s.spec_search(q, k));
    }
}

/// One per-chunk record of the on-disk `metadata.json` file.  Unknown
/// fields of the file are ignored; these are the ones the loader consults.
#[derive(Clone)]
pub struct Metadata {
    pub partner_id: i32,
    pub chunk_id: i32,
    pub count: usize,
    pub country: String,
    pub index_params: String,
    pub is_recommendable: bool,
    pub metrics: String,
    pub metric: String,
    pub dimension: usize,
}

/// One partner's catalog: recommendable shards and lookup-only extras.
pub struct KnnIndex {
    /// Shards whose products may be returned by a search, in load order.
    pub indices: Vec<WrappedIndex>,
    /// Shards whose products are only looked up, never returned.
    pub extra_items: Vec<WrappedIndex>,
}

impl KnnIndex {
    /// Every shard, recommendable or extra, is well formed.
    pub open spec fn wf(&self) -> bool {
        &&& forall|i: int| 0 <= i < self.indices@.len() ==> (#[trigger] self.indices@[i]).wf()
        &&& forall|i: int| 0 <= i < self.extra_items@.len() ==> (
        #[trigger] self.extra_items@[i]).wf()
    }

    /// Every shard of this partner has dimension `d`.
    pub open spec fn dims_all(&self, d: nat) -> bool {
        &&& forall|i: int| 0 <= i < self.indices@.len() ==> (#[trigger] self.indices@[i]).dim == d
        &&& forall|i: int| 0 <= i < self.extra_items@.len() ==> (
        #[trigger] self.extra_items@[i]).dim == d
    }

    /// The labels this partner can look up: recommendable shards first, then
    /// extras, each in load order.
    pub open spec fn spec_labels(&self) -> Seq<i64> {
        spec_labels_of(self.indices@) + spec_labels_of(self.extra_items@)
    }

    /// The embedding a lookup returns: the first hit, probing recommendable
    /// shards before extras.
    pub open spec fn spec_get_item(&self, label: i64) -> Option<Seq<u32>> {
        match spec_probe(self.indices@, label) {
            Some(v) => Some(v),
            None => spec_probe(self.extra_items@, label),
        }
    }

    /// What a search returns: the `k` best of the per-shard rankings of the
    /// recommendable shards.
    pub open spec fn spec_search(&self, q: Seq<u32>, k: int) -> Seq<IndexResult> {
        spec_top_k(spec_shard_results(self.indices@, q, k), k)
    }

    /// A fresh partner index with no shards.
    pub fn new() -> (r: KnnIndex)
        ensures
            r.indices@ == Seq::<WrappedIndex>::empty(),
            r.extra_items@ == Seq::<WrappedIndex>::empty(),
    {
        KnnIndex { indices: Vec::new(), extra_items: Vec::new() }
    }

    /// Adds one recommendable shard at the end of the load order.
    pub fn add_reco_index(&mut self, wi: WrappedIndex)
        ensures
            final(self).indices@ == old(self).indices@.push(wi),
            final(self).extra_items@ == old(self).extra_items@,
    {
        self.indices.push(wi);
    }

    /// Adds one lookup-only shard at the end of the load order.
    pub fn add_non_reco_index(&mut self, wi: WrappedIndex)
        ensures
            final(self).indices@ == old(self).indices@,
            final(self).extra_items@ == old(self).extra_items@.push(wi),
    {
        self.extra_items.push(wi);
    }

    /// The row count of the first available shard, recommendables first.
    pub fn count(&self) -> (n: usize)
        ensures
            n == if self.indices@.len() > 0 {
                self.indices@[0].rows@.len()
            } else if self.extra_items@.len() > 0 {
                self.extra_items@[0].rows@.len()
            } else {
                0
            },
    {
        if self.indices.len() > 0 {
            return self.indices[0].count();
        }
        if self.extra_items.len() > 0 {
            return self.extra_items[0].count();
        }
        0
    }

    /// The dimension of the first available shard, recommendables first.
    pub fn dimension(&self) -> (d: usize)
        ensures
            d == self.spec_dimension(),
    {
        if self.indices.len() > 0 {
            return self.indices[0].dimension();
        }
        if self.extra_items.len() > 0 {
            return self.extra_items[0].dimension();
        }
        0
    }

    /// The dimension the partner reports: that of its first shard.
    pub open spec fn spec_dimension(&self) -> usize {
        if self.indices@.len() > 0 {
            self.indices@[0].dim
        } else if self.extra_items@.len() > 0 {
            self.extra_items@[0].dim
        } else {
            0
        }
    }

    /// All labels this partner holds, recommendable shards first, then
    /// extras, each in load order.
    pub fn list_labels(&self) -> (r: Result<Vec<i64>, KnnError>)
        ensures
            r matches Ok(v) && v@ == self.spec_labels(),
    {
        let mut out: Vec<i64> = Vec::new();
        let mut i: usize = 0;
        while i < self.indices.len()
            invariant
                i <= self.indices@.len(),
                out@ == spec_labels_of(self.indices@.take(i as int)),
            decreases self.indices@.len() - i,
        {
            let mut ls = match self.indices[i].list_labels() {
                Ok(v) => v,
                Err(e) => return Err(e),
            };
            out.append(&mut ls);
            proof {
                assert(self.indices@.take(i + 1) =~= self.indices@.take(i as int).push(
                    self.indices@[i as int],
                ));
                lemma_labels_of_snoc(self.indices@.take(i as int), self.indices@[i as int]);
            }
            i = i + 1;
        }
        proof {
            assert(self.indices@.take(self.indices@.len() as int) =~= self.indices@);
        }
        let mut j: usize = 0;
        while j < self.extra_items.len()
            invariant
                j <= self.extra_items@.len(),
                out@ == spec_labels_of(self.indices@) + spec_labels_of(
                    self.extra_items@.take(j as int),
                ),
            decreases self.extra_items@.len() - j,
        {
            let mut ls = match self.extra_items[j].list_labels() {
                Ok(v) => v,
                Err(e) => return Err(e),
            };
            out.append(&mut ls);
            proof {
                assert(self.extra_items@.take(j + 1) =~= self.extra_items@.take(j as int).push(
                    self.extra_items@[j as int],
                ));
                lemma_labels_of_snoc(self.extra_items@.take(j as int), self.extra_items@[j as int]);
            }
            j = j + 1;
        }
        proof {
            assert(self.extra_items@.take(self.extra_items@.len() as int) =~= self.extra_items@);
        }
        Ok(out)
    }

    /// Looks `label` up shard by shard, recommendables first, and returns an
    /// owned copy of the first hit.
    pub fn get_item(&self, label: i64) -> (r: Result<Option<Vec<u32>>, KnnError>)
        requires
            self.wf(),
        ensures
            r matches Ok(o) && match self.spec_get_item(label) {
                Some(s) => o matches Some(v) && v@ == s,
                None => o is None,
            },
    {
        let mut i: usize = 0;
        while i < self.indices.len()
            invariant
                self.wf(),
                i <= self.indices@.len(),
                forall|j: int| 0 <= j < i ==> (#[trigger] self.indices@[j]).spec_get_item(label)
                    is None,
            decreases self.indices@.len() - i,
        {
            let hit = match self.indices[i].get_item(label) {
                Ok(o) => o,
                Err(e) => return Err(e),
            };
            if let Some(v) = hit {
                proof {
                    lemma_probe_skip(self.indices@, label, i as int);
                    assert(self.indices@.skip(i as int)[0] == self.indices@[i as int]);
                }
                return Ok(Some(v));
            }
            i = i + 1;
        }
        proof {
            lemma_probe_skip(self.indices@, label, self.indices@.len() as int);
            assert(self.indices@.skip(self.indices@.len() as int) =~= Seq::<WrappedIndex>::empty());
        }
        let mut j: usize = 0;
        while j < self.extra_items.len()
            invariant
                self.wf(),
                spec_probe(self.indices@, label) is None,
                j <= self.extra_items@.len(),
                forall|m: int| 0 <= m < j ==> (#[trigger] self.extra_items@[m]).spec_get_item(
                    label,
                ) is None,
            decreases self.extra_items@.len() - j,
        {
            let hit = match self.extra_items[j].get_item(label) {
                Ok(o) => o,
                Err(e) => return Err(e),
            };
            if let Some(v) = hit {
                proof {
                    lemma_probe_skip(self.extra_items@, label, j as int);
                    assert(self.extra_items@.skip(j as int)[0] == self.extra_items@[j as int]);
                }
                return Ok(Some(v));
            }
            j = j + 1;
        }
        proof {
            lemma_probe_skip(self.extra_items@, label, self.extra_items@.len() as int);
            assert(self.extra_items@.skip(self.extra_items@.len() as int) =~= Seq::<
                WrappedIndex,
            >::empty());
        }
        Ok(None)
    }

    /// Merges the per-shard rankings of the recommendable shards and keeps
    /// the `nb_result` best, ties broken toward the smaller label.  With
    /// `nb_result == 0` no shard is consulted.
    pub fn search(&self, embedding: &[u32], nb_result: usize) -> (r: Result<
        Vec<IndexResult>,
        KnnError,
    >)
        requires
            self.wf(),
        ensures
            r is Ok <==> (nb_result == 0 || forall|i: int|
                0 <= i < self.indices@.len() ==> (#[trigger] self.indices@[i]).dim
                    == embedding@.len()),
            match r {
                Ok(v) => v@ == self.spec_search(embedding@, nb_result as int),
                Err(e) => e matches KnnError::IndexError(_),
            },
    {
        if nb_result == 0 {
            proof {
                lemma_top_k_zero(spec_shard_results(self.indices@, embedding@, 0));
            }
            return Ok(Vec::new());
        }
        let mut cands: Vec<IndexResult> = Vec::new();
        let mut i: usize = 0;
        while i < self.indices.len()
            invariant
                self.wf(),
                nb_result > 0,
                i <= self.indices@.len(),
                forall|j: int| 0 <= j < i ==> (#[trigger] self.indices@[j]).dim
                    == embedding@.len(),
                cands@ == spec_shard_results(
                    self.indices@.take(i as int),
                    embedding@,
                    nb_result as int,
                ),
            decreases self.indices@.len() - i,
        {
            let mut res = match self.indices[i].search(embedding, nb_result) {
                Ok(v) => v,
                Err(e) => {
                    proof {
                        assert(self.indices@[i as int].dim != embedding@.len());
                    }
                    return Err(e);
                },
            };
            cands.append(&mut res);
            proof {
                assert(self.indices@.take(i + 1) =~= self.indices@.take(i as int).push(
                    self.indices@[i as int],
                ));
                lemma_shard_results_snoc(
                    self.indices@.take(i as int),
                    self.indices@[i as int],
                    embedding@,
                    nb_result as int,
                );
            }
            i = i + 1;
        }
        proof {
            assert(self.indices@.take(self.indices@.len() as int) =~= self.indices@);
        }
        let ghost all = spec_shard_results(self.indices@, embedding@, nb_result as int);
        let mut ranked = sort_results(cands);
        proof {
            all.lemma_sort_by_ensures(crate::productindex::ir_order());
            vstd::seq_lib::to_multiset_len(all);
            vstd::seq_lib::to_multiset_len(sort_irs(all));
        }
        ranked.truncate(nb_result);
        proof {
            if nb_result <= all.len() {
                assert(ranked@ == sort_irs(all).take(nb_result as int));
            }
        }
        Ok(ranked)
    }
}

impl Default for KnnIndex {
    /// The empty partner index.
    fn default() -> (r: KnnIndex)
        ensures
            r.indices@ == Seq::<WrappedIndex>::empty(),
            r.extra_items@ == Seq::<WrappedIndex>::empty(),
    {
        KnnIndex::new()
    }
}

/// The partner index registered under `id`: the first (and, in a
/// well-formed registry, only) entry carrying that id.
pub open spec fn spec_find_partner(entries: Seq<(i32, KnnIndex)>, id: i32) -> Option<KnnIndex>
    decreases entries.len(),
{
    if entries.len() == 0 {
        None
    } else if entries[0].0 == id {
        Some(entries[0].1)
    } else {
        spec_find_partner(entries.drop_first(), id)
    }
}

/// A lookup passes over every entry with a different id.
pub proof fn lemma_find_partner_skip(entries: Seq<(i32, KnnIndex)>, id: i32, i: int)
    requires
        0 <= i <= entries.len(),
        forall|j: int| 0 <= j < i ==> (#[trigger] entries[j]).0 != id,
    ensures
        spec_find_partner(entries, id) == spec_find_partner(entries.skip(i), id),
    decreases i,
{
    if i > 0 {
        assert(entries[0].0 != id);
        assert(spec_find_partner(entries, id) == spec_find_partner(entries.drop_first(), id));
        assert(entries.drop_first() =~= entries.skip(1));
        assert forall|j: int| 0 <= j < i - 1 implies (#[trigger] entries.skip(1)[j]).0 != id by {
            assert(entries.skip(1)[j] == entries[j + 1]);
        }
        lemma_find_partner_skip(entries.skip(1), id, i - 1);
        assert(entries.skip(1).skip(i - 1) =~= entries.skip(i));
    } else {
        assert(entries.skip(0) =~= entries);
    }
}

/// A found partner is one of the registry's entries.
pub proof fn lemma_find_partner_is_entry(entries: Seq<(i32, KnnIndex)>, id: i32)
    requires
        spec_find_partner(entries, id) is Some,
    ensures
        exists|i: int|
            0 <= i < entries.len() && #[trigger] entries[i] == (
            id,
            spec_find_partner(entries, id)->Some_0,
            ),
    decreases entries.len(),
{
    if entries.len() > 0 && entries[0].0 != id {
        lemma_find_partner_is_entry(entries.drop_first(), id);
        let i = choose|i: int|
            0 <= i < entries.drop_first().len() && #[trigger] entries.drop_first()[i] == (
            id,
            spec_find_partner(entries.drop_first(), id)->Some_0,
            );
        assert(entries[i + 1] == entries.drop_first()[i]);
    }
}

/// One country's registry: the shared embedding dimension and one partner
/// index per partner id.
pub struct EmbeddingRegistry {
    /// The embedding dimension every shard in this registry has.
    pub dim: usize,
    /// Partner indices by partner id, in load order.
    pub embeddings: Vec<(i32, KnnIndex)>,
}

impl EmbeddingRegistry {
    /// Partner ids are unique, every partner is well formed, and every
    /// shard has the registry's dimension.
    pub open spec fn wf(&self) -> bool {
        &&& self.dim >= 1
        &&& forall|i: int, j: int| 0 <= i < j < self.embeddings@.len()
            ==> (#[trigger] self.embeddings@[i]).0 != (#[trigger] self.embeddings@[j]).0
        &&& forall|i: int| 0 <= i < self.embeddings@.len()
            ==> (#[trigger] self.embeddings@[i]).1.wf()
        &&& forall|i: int| 0 <= i < self.embeddings@.len()
            ==> (#[trigger] self.embeddings@[i]).1.dims_all(self.dim as nat)
    }

    /// The embedding a registry lookup returns for `(index_id, label)`.
    pub open spec fn spec_fetch_item(&self, index_id: i32, label: i64) -> Option<Seq<u32>> {
        match spec_find_partner(self.embeddings@, index_id) {
            Some(p) => p.spec_get_item(label),
            None => None,
        }
    }

    /// Wraps an assembled partner table with its shared dimension.
    pub fn new(dim: usize, embeddings: Vec<(i32, KnnIndex)>) -> (r: EmbeddingRegistry)
        ensures
            r.dim == dim,
            r.embeddings@ == embeddings@,
    {
        EmbeddingRegistry { dim, embeddings }
    }

    /// The partner index registered under `index_id`, if any.
    pub fn get_partner(&self, index_id: i32) -> (r: Option<&KnnIndex>)
        ensures
            match spec_find_partner(self.embeddings@, index_id) {
                Some(p) => r matches Some(q) && *q == p,
                None => r is None,
            },
    {
        let mut i: usize = 0;
        while i < self.embeddings.len()
            invariant
                i <= self.embeddings@.len(),
                forall|j: int| 0 <= j < i ==> (#[trigger] self.embeddings@[j]).0 != index_id,
            decreases self.embeddings@.len() - i,
        {
            if self.embeddings[i].0 == index_id {
                proof {
                    lemma_find_partner_skip(self.embeddings@, index_id, i as int);
                    assert(self.embeddings@.skip(i as int)[0] == self.embeddings@[i as int]);
                }
                return Some(&self.embeddings[i].1);
            }
            i = i + 1;
        }
        proof {
            lemma_find_partner_skip(self.embeddings@, index_id, self.embeddings@.len() as int);
            assert(self.embeddings@.skip(self.embeddings@.len() as int) =~= Seq::<
                (i32, KnnIndex),
            >::empty());
        }
        None
    }

    /// The labels of the partner registered under `index_id`; an unknown
    /// partner lists nothing and is not an error.
    pub fn list_labels(&self, index_id: i32) -> (r: Result<Vec<i64>, KnnError>)
        requires
            self.wf(),
        ensures
            r matches Ok(v) && match spec_find_partner(self.embeddings@, index_id) {
                Some(p) => v@ == p.spec_labels(),
                None => v@ == Seq::<i64>::empty(),
            },
    {
        match self.get_partner(index_id) {
            Some(p) => p.list_labels(),
            None => Ok(Vec::new()),
        }
    }

    /// The embedding stored for `(index_id, label)`; an unknown partner or
    /// label yields nothing and is not an error.
    pub fn fetch_item(&self, index_id: i32, label: i64) -> (r: Result<Option<Vec<u32>>, KnnError>)
        requires
            self.wf(),
        ensures
            r matches Ok(o) && match self.spec_fetch_item(index_id, label) {
                Some(s) => o matches Some(v) && v@ == s,
                None => o is None,
            },
    {
        proof {
            if spec_find_partner(self.embeddings@, index_id) is Some {
                lemma_find_partner_is_entry(self.embeddings@, index_id);
            }
        }
        match self.get_partner(index_id) {
            Some(p) => p.get_item(label),
            None => Ok(None),
        }
    }

    /// Whether `(index_id, label)` resolves to an embedding.
    pub fn has_item(&self, index_id: i32, label: i64) -> (r: Result<bool, KnnError>)
        requires
            self.wf(),
        ensures
            r matches Ok(b) && b == (self.spec_fetch_item(index_id, label) is Some),
    {
        match self.fetch_item(index_id, label) {
            Ok(o) => Ok(o.is_some()),
            Err(e) => Err(e),
        }
    }
}

/// Every shard reachable from a well-formed registry has the registry's
/// dimension.
pub proof fn lemma_registry_dimension(r: EmbeddingRegistry, index_id: i32)
    requires
        r.wf(),
        spec_find_partner(r.embeddings@, index_id) is Some,
    ensures
        spec_find_partner(r.embeddings@, index_id)->Some_0.wf(),
        spec_find_partner(r.embeddings@, index_id)->Some_0.dims_all(r.dim as nat),
{
    lemma_find_partner_is_entry(r.embeddings@, index_id);
}

/// What widening a search from `k1` to `k2` adds per shard, concatenated
/// in load order: each shard's ranking beyond its `k1` cut.
pub open spec fn spec_shard_extras(
    shards: Seq<WrappedIndex>,
    q: Seq<u32>,
    k1: int,
    k2: int,
) -> Seq<IndexResult>
    decreases shards.len(),
{
    if shards.len() == 0 {
        Seq::empty()
    } else {
        shards[0].spec_search(q, k2).skip(shards[0].spec_search(q, k1).len() as int)
            + spec_shard_extras(shards.drop_first(), q, k1, k2)
    }
}

/// One shard's wider ranking is its narrower ranking followed by entries
/// that rank no better than any of the first `k1`.
pub proof fn lemma_shard_extra_facts(s: WrappedIndex, q: Seq<u32>, k1: int, k2: int)
    requires
        0 <= k1 <= k2,
    ensures
        ({
            let narrow = s.spec_search(q, k1);
            let ex = s.spec_search(q, k2).skip(narrow.len() as int);
            &&& s.spec_search(q, k2) == narrow + ex
            &&& forall|m: int| 0 <= m < ex.len() ==> crate::productindex::le_count(
                narrow,
                #[trigger] ex[m],
            ) >= k1
        }),
{
    let cands = s.spec_candidates(q);
    let narrow = s.spec_search(q, k1);
    let wide = s.spec_search(q, k2);
    let ex = wide.skip(narrow.len() as int);
    crate::productindex::lemma_top_k_prefix(cands, k1, k2);
    crate::productindex::lemma_top_k_sorted_bounded(cands, k1);
    crate::productindex::lemma_top_k_sorted_bounded(cands, k2);
    assert(narrow == wide.take(narrow.len() as int));
    assert(wide =~= narrow + ex);
    crate::productindex::lemma_ir_order_total();
    let leq = crate::productindex::ir_order();
    if ex.len() > 0 {
        assert(narrow.len() == k1);
        assert forall|m: int| 0 <= m < ex.len() implies crate::productindex::le_count(
            narrow,
            #[trigger] ex[m],
        ) >= k1 by {
            assert(ex[m] == wide[narrow.len() + m]);
            assert forall|i: int| 0 <= i < narrow.len() implies crate::productindex::ir_le(
                #[trigger] narrow[i],
                ex[m],
            ) by {
                assert(narrow[i] == wide[i]);
                assert(leq(wide[i], wide[narrow.len() + m]));
            }
            crate::productindex::lemma_le_count_all(narrow, ex[m]);
        }
    }
}

/// The entries of the wider merged candidate list are those of the
/// narrower one together with the per-shard additions.
pub proof fn lemma_results_split(shards: Seq<WrappedIndex>, q: Seq<u32>, k1: int, k2: int)
    requires
        0 <= k1 <= k2,
    ensures
        spec_shard_results(shards, q, k2).to_multiset() == (spec_shard_results(shards, q, k1)
            + spec_shard_extras(shards, q, k1, k2)).to_multiset(),
    decreases shards.len(),
{
    broadcast use vstd::seq_lib::group_to_multiset_ensures;
    broadcast use vstd::multiset::group_multiset_axioms;

    if shards.len() == 0 {
        assert(spec_shard_results(shards, q, k2) =~= spec_shard_results(shards, q, k1)
            + spec_shard_extras(shards, q, k1, k2));
    } else {
        let s0 = shards[0];
        let rest = shards.drop_first();
        let a1 = s0.spec_search(q, k1);
        let a2 = s0.spec_search(q, k2);
        let ex0 = a2.skip(a1.len() as int);
        let r1 = spec_shard_results(rest, q, k1);
        let r2 = spec_shard_results(rest, q, k2);
        let e1 = spec_shard_extras(rest, q, k1, k2);
        lemma_shard_extra_facts(s0, q, k1, k2);
        lemma_results_split(rest, q, k1, k2);
        crate::productindex::lemma_multiset_concat(a2, r2);
        crate::productindex::lemma_multiset_concat(a1, ex0);
        crate::productindex::lemma_multiset_concat(r1, e1);
        crate::productindex::lemma_multiset_concat(a1, r1);
        crate::productindex::lemma_multiset_concat(ex0, e1);
        crate::productindex::lemma_multiset_concat(a1 + r1, ex0 + e1);
        assert(spec_shard_results(shards, q, k2) == a2 + r2);
        assert(spec_shard_results(shards, q, k1) == a1 + r1);
        assert(spec_shard_extras(shards, q, k1, k2) == ex0 + e1);
        assert((a2 + r2).to_multiset() =~= ((a1 + r1) + (ex0 + e1)).to_multiset());
    }
}

/// Every entry a wider search adds ranks no better than `k1` entries the
/// narrower merged list already holds.
pub proof fn lemma_extras_big(shards: Seq<WrappedIndex>, q: Seq<u32>, k1: int, k2: int)
    requires
        0 <= k1 <= k2,
    ensures
        forall|j: int| 0 <= j < spec_shard_extras(shards, q, k1, k2).len()
            ==> crate::productindex::le_count(
            spec_shard_results(shards, q, k1),
            #[trigger] spec_shard_extras(shards, q, k1, k2)[j],
        ) >= k1,
    decreases shards.len(),
{
    if shards.len() > 0 {
        let s0 = shards[0];
        let rest = shards.drop_first();
        let a1 = s0.spec_search(q, k1);
        let ex0 = s0.spec_search(q, k2).skip(a1.len() as int);
        let r1 = spec_shard_results(rest, q, k1);
        let e1 = spec_shard_extras(rest, q, k1, k2);
        lemma_shard_extra_facts(s0, q, k1, k2);
        lemma_extras_big(rest, q, k1, k2);
        assert forall|j: int| 0 <= j < spec_shard_extras(shards, q, k1, k2).len()
            implies crate::productindex::le_count(
            spec_shard_results(shards, q, k1),
            #[trigger] spec_shard_extras(shards, q, k1, k2)[j],
        ) >= k1 by {
            let x = spec_shard_extras(shards, q, k1, k2)[j];
            crate::productindex::lemma_le_count_concat(a1, r1, x);
            crate::productindex::lemma_le_count_bounds(a1, x);
            crate::productindex::lemma_le_count_bounds(r1, x);
            if j < ex0.len() {
                assert(x == ex0[j]);
                assert(crate::productindex::le_count(a1, x) >= k1);
            } else {
                assert(x == e1[j - ex0.len()]);
                assert(crate::productindex::le_count(r1, x) >= k1);
            }
        }
    }
}

/// Asking a partner for fewer results yields a prefix of asking it for
/// more: widening `k` can only extend the merged list.  This rests on the
/// searches of this crate being deterministic for the same query.
pub proof fn lemma_partner_search_prefix(p: KnnIndex, q: Seq<u32>, k1: int, k2: int)
    requires
        0 <= k1 <= k2,
    ensures
        p.spec_search(q, k1).is_prefix_of(p.spec_search(q, k2)),
{
    broadcast use vstd::seq_lib::group_to_multiset_ensures;
    broadcast use vstd::multiset::group_multiset_axioms;

    let u1 = spec_shard_results(p.indices@, q, k1);
    let u2 = spec_shard_results(p.indices@, q, k2);
    let ex = spec_shard_extras(p.indices@, q, k1, k2);
    lemma_results_split(p.indices@, q, k1, k2);
    lemma_extras_big(p.indices@, q, k1, k2);
    crate::productindex::lemma_ir_order_total();
    let leq = crate::productindex::ir_order();
    u1.lemma_sort_by_ensures(leq);
    u2.lemma_sort_by_ensures(leq);
    vstd::seq_lib::to_multiset_len(u1);
    vstd::seq_lib::to_multiset_len(u2);
    vstd::seq_lib::to_multiset_len(sort_irs(u1));
    vstd::seq_lib::to_multiset_len(sort_irs(u2));
    let s = sort_irs(u1);
    crate::productindex::lemma_multiset_concat(u1, ex);
    vstd::seq_lib::to_multiset_len(u1 + ex);
    if k1 <= u1.len() {
        assert forall|j: int| 0 <= j < ex.len() implies (k1 == 0 || crate::productindex::ir_le(
            s[k1 - 1],
            #[trigger] ex[j],
        )) by {
            if k1 > 0 {
                crate::productindex::lemma_le_count_permutation(u1, s, ex[j]);
                crate::productindex::lemma_le_count_sorted(s, ex[j]);
                assert(crate::productindex::le_count(s, ex[j]) >= k1);
            }
        }
        crate::productindex::lemma_top_absorb(s, ex, k1);
        crate::productindex::lemma_multiset_concat(s, ex);
        (s + ex).lemma_sort_by_ensures(leq);
        vstd::seq_lib::to_multiset_len(s + ex);
        vstd::seq_lib::to_multiset_len(sort_irs(s + ex));
        lemma_sorted_unique_results(sort_irs(s + ex), sort_irs(u2));
        assert(sort_irs(u2).take(k1) == s.take(k1));
        assert(p.spec_search(q, k1) == s.take(k1));
        assert(u2.len() == u1.len() + ex.len());
        let merged2 = p.spec_search(q, k2);
        assert(s.take(k1) =~= merged2.take(k1));
        assert(p.spec_search(q, k1).is_prefix_of(merged2));
    } else {
        if ex.len() > 0 {
            crate::productindex::lemma_le_count_bounds(u1, ex[0]);
            assert(false);
        }
        assert(u1 + ex =~= u1);
        assert(u2.to_multiset() == u1.to_multiset());
        lemma_sorted_unique_results(sort_irs(u1), sort_irs(u2));
        assert(u2.len() == u1.len());
        assert(p.spec_search(q, k1) == sort_irs(u1));
        assert(p.spec_search(q, k2) == sort_irs(u2));
        assert(p.spec_search(q, k1).is_prefix_of(p.spec_search(q, k2))) by {
            assert(sort_irs(u1).take(sort_irs(u1).len() as int) =~= sort_irs(u1));
        }
    }
}

/// Two rankings of the same entries are the same sequence.
pub proof fn lemma_sorted_unique_results(x: Seq<IndexResult>, y: Seq<IndexResult>)
    requires
        vstd::relations::sorted_by(x, crate::productindex::ir_order()),
        vstd::relations::sorted_by(y, crate::productindex::ir_order()),
        x.to_multiset() == y.to_multiset(),
    ensures
        x == y,
{
    crate::productindex::lemma_ir_order_total();
    vstd::seq_lib::lemma_sorted_unique(x, y, crate::productindex::ir_order());
}

/// A partner search never returns more than `k` results, and returns them
/// sorted ascending by distance, ties toward the smaller label.
pub proof fn lemma_partner_search_sorted_bounded(p: KnnIndex, q: Seq<u32>, k: int)
    requires
        k >= 0,
    ensures
        p.spec_search(q, k).len() <= k,
        vstd::relations::sorted_by(p.spec_search(q, k), crate::productindex::ir_order()),
{
    let cands = spec_shard_results(p.indices@, q, k);
    crate::productindex::lemma_top_k_sorted_bounded(cands, k);
}

/// A partner search is a function of the partner's shards, the query and
/// `k` alone: two runs on the same inputs return the same list, labels and
/// distance bits alike.
pub proof fn lemma_partner_search_deterministic(
    p: KnnIndex,
    q: Seq<u32>,
    k: int,
    r1: Seq<IndexResult>,
    r2: Seq<IndexResult>,
)
    requires
        r1 == p.spec_search(q, k),
        r2 == p.spec_search(q, k),
    ensures
        r1 == r2,
{
}

/// Cutting a ranking to zero keeps nothing.
pub proof fn lemma_top_k_zero(s: Seq<IndexResult>)
    ensures
        spec_top_k(s, 0) == Seq::<IndexResult>::empty(),
{
    crate::productindex::lemma_ir_order_total();
    s.lemma_sort_by_ensures(crate::productindex::ir_order());
    vstd::seq_lib::to_multiset_len(s);
    vstd::seq_lib::to_multiset_len(sort_irs(s));
    assert(sort_irs(s).take(0) =~= Seq::<IndexResult>::empty());
}

} // verus!
