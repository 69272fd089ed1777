//! One chunk of a partner's catalog: the shard.
//!
//! A shard owns the reconstructable content of one pre-built index file —
//! one embedding row per internal id — together with the inverse mapping
//! (internal id to external label) and the per-row norms read from the
//! chunk's side files.  Lookups resolve an external label to the first
//! internal id carrying it; searches rank every row against the query and
//! keep the best `k`.

use vstd::prelude::*;
use crate::KnnError;
use crate::productindex::{IndexResult, sort_results, sort_irs, spec_top_k};
use crate::scalar::{
    ZERO_BITS, single_diff, single_prod, single_sum, spec_single_diff, spec_single_prod,
    spec_single_sum,
};

verus! {

/// The position of the first occurrence of `l` in `labels`, if any.
pub open spec fn first_index_of(labels: Seq<i64>, l: i64) -> Option<int>
    decreases labels.len(),
{
    if labels.len() == 0 {
        None
    } else if labels[0] == l {
        Some(0int)
    } else {
        match first_index_of(labels.drop_first(), l) {
            Some(i) => Some(i + 1),
            None => None,
        }
    }
}

/// What `first_index_of` returns: the least position holding `l`, or
/// nothing when `l` is absent.
pub proof fn lemma_first_index_of(labels: Seq<i64>, l: i64)
    ensures
        match first_index_of(labels, l) {
            Some(i) => 0 <= i < labels.len() && labels[i] == l && forall|j: int|
                0 <= j < i ==> labels[j] != l,
            None => forall|j: int| 0 <= j < labels.len() ==> labels[j] != l,
        },
    decreases labels.len(),
{
    if labels.len() > 0 && labels[0] != l {
        let rest = labels.drop_first();
        lemma_first_index_of(rest, l);
        assert(forall|j: int| 0 <= j < rest.len() ==> rest[j] == labels[j + 1]);
        match first_index_of(rest, l) {
            Some(i) => {
                assert(first_index_of(labels, l) == Some(i + 1));
                assert(labels[i + 1] == rest[i]);
                assert forall|j: int| 0 <= j < i + 1 implies labels[j] != l by {
                    if j > 0 {
                        assert(labels[j] == rest[j - 1]);
                    }
                }
            },
            None => {
                assert forall|j: int| 0 <= j < labels.len() implies labels[j] != l by {
                    if j > 0 {
                        assert(labels[j] == rest[j - 1]);
                    }
                }
            },
        }
    }
}

/// The squared Euclidean distance of the first `j` coordinates of `q` and
/// `row`, accumulated left to right in single precision.
pub open spec fn spec_l2_prefix(q: Seq<u32>, row: Seq<u32>, j: int) -> u32
    decreases j,
{
    if j <= 0 {
        ZERO_BITS
    } else {
        let d = spec_single_diff(q[j - 1], row[j - 1]);
        spec_single_sum(spec_l2_prefix(q, row, j - 1), spec_single_prod(d, d))
    }
}

/// The squared Euclidean distance of `q` and `row`, in single precision.
pub open spec fn spec_l2(q: Seq<u32>, row: Seq<u32>) -> u32 {
    spec_l2_prefix(q, row, q.len() as int)
}

/// One pre-built chunk: embedding rows by internal id, the inverse mapping
/// to external labels, and the per-row norms.
pub struct WrappedIndex {
    /// External label of each internal id, in file order.
    pub labels: Vec<i64>,
    /// Embedding of each internal id, as single-precision bit patterns.
    pub rows: Vec<Vec<u32>>,
    /// Per-row norms, as read from the chunk's norm file.
    pub norm: Vec<u32>,
    /// The embedding dimension every row has.
    pub dim: usize,
}

impl WrappedIndex {
    /// A shard is well formed when each internal id has both a label and a
    /// row, every row has the declared dimension, and the label-to-id
    /// mapping is injective: no label names two internal ids.
    pub open spec fn wf(&self) -> bool {
        &&& self.rows@.len() == self.labels@.len()
        &&& forall|i: int| 0 <= i < self.rows@.len() ==> (#[trigger] self.rows@[i])@.len()
            == self.dim
        &&& forall|i: int, j: int| 0 <= i < j < self.labels@.len() ==> #[trigger] self.labels@[i]
            != #[trigger] self.labels@[j]
    }

    /// The embedding stored for `label`: the row of its first internal id.
    pub open spec fn spec_get_item(&self, label: i64) -> Option<Seq<u32>> {
        match first_index_of(self.labels@, label) {
            Some(i) => Some(self.rows@[i]@),
            None => None,
        }
    }

    /// Every row of the shard ranked against `q`, in internal-id order.
    pub open spec fn spec_candidates(&self, q: Seq<u32>) -> Seq<IndexResult> {
        Seq::new(
            self.rows@.len(),
            |i: int| IndexResult { label: self.labels@[i], distance: spec_l2(q, self.rows@[i]@) },
        )
    }

    /// What a search returns on a well-shaped query: the `k` best rows.
    pub open spec fn spec_search(&self, q: Seq<u32>, k: int) -> Seq<IndexResult> {
        spec_top_k(self.spec_candidates(q), k)
    }

    /// Builds a shard from the parts read out of one chunk's files,
    /// refusing shapes that do not line up and mappings that name a label
    /// twice.
    pub fn new(rows: Vec<Vec<u32>>, labels: Vec<i64>, norm: Vec<u32>, dim: usize) -> (r: Result<
        WrappedIndex,
        KnnError,
    >)
        ensures
            match r {
                Ok(w) => {
                    &&& w == (WrappedIndex { rows, labels, norm, dim })
                    &&& w.wf()
                },
                Err(e) => {
                    &&& e matches KnnError::IndexError(_)
                    &&& !(rows@.len() == labels@.len() && (forall|i: int|
                        0 <= i < rows@.len() ==> (#[trigger] rows@[i])@.len() == dim) && (forall|
                        i: int,
                        j: int,
                    |
                        0 <= i < j < labels@.len() ==> #[trigger] labels@[i]
                            != #[trigger] labels@[j]))
                },
            },
    {
        if rows.len() != labels.len() {
            return Err(KnnError::IndexError("row count does not match mapping".to_owned()));
        }
        let mut i: usize = 0;
        while i < rows.len()
            invariant
                i <= rows@.len(),
                forall|j: int| 0 <= j < i ==> (#[trigger] rows@[j])@.len() == dim,
            decreases rows@.len() - i,
        {
            if rows[i].len() != dim {
                return Err(KnnError::IndexError("row does not have the declared dimension".to_owned()));
            }
            i = i + 1;
        }
        let mut i: usize = 0;
        while i < labels.len()
            invariant
                i <= labels@.len(),
                forall|a: int, b: int| 0 <= a < i && a < b < labels@.len()
                    ==> #[trigger] labels@[a] != #[trigger] labels@[b],
            decreases labels@.len() - i,
        {
            let mut j: usize = i + 1;
            while j < labels.len()
                invariant
                    i < j,
                    j <= labels@.len(),
                    i < labels@.len(),
                    forall|b: int| i < b < j ==> labels@[i as int] != #[trigger] labels@[b],
                decreases labels@.len() - j,
            {
                if labels[i] == labels[j] {
                    return Err(
                        KnnError::IndexError("mapping names the same label twice".to_owned()),
                    );
                }
                j = j + 1;
            }
            i = i + 1;
        }
        Ok(WrappedIndex { labels, rows, norm, dim })
    }

    /// The number of indexed rows.
    pub fn count(&self) -> (n: usize)
        ensures
            n == self.rows@.len(),
    {
        self.rows.len()
    }

    /// The embedding dimension of every row.
    pub fn dimension(&self) -> (d: usize)
        ensures
            d == self.dim,
    {
        self.dim
    }

    /// The external labels present in this shard, in internal-id order.
    pub fn list_labels(&self) -> (r: Result<Vec<i64>, KnnError>)
        ensures
            r matches Ok(v) && v@ == self.labels@,
    {
        let mut out: Vec<i64> = Vec::new();
        let mut i: usize = 0;
        while i < self.labels.len()
            invariant
                i <= self.labels@.len(),
                out@ == self.labels@.take(i as int),
            decreases self.labels@.len() - i,
        {
            out.push(self.labels[i]);
            proof {
                assert(out@ == self.labels@.take(i + 1));
            }
            i = i + 1;
        }
        proof {
            assert(self.labels@.take(self.labels@.len() as int) == self.labels@);
        }
        Ok(out)
    }

    /// An owned copy of the embedding stored for `label`, or nothing when
    /// the label is absent.  Never fails on an in-memory shard.
    pub fn get_item(&self, label: i64) -> (r: Result<Option<Vec<u32>>, KnnError>)
        requires
            self.wf(),
        ensures
            r matches Ok(o) && match self.spec_get_item(label) {
                Some(s) => o matches Some(v) && v@ == s,
                None => o is None,
            },
    {
        proof {
            lemma_first_index_of(self.labels@, label);
        }
        let mut i: usize = 0;
        while i < self.labels.len()
            invariant
                self.wf(),
                i <= self.labels@.len(),
                forall|j: int| 0 <= j < i ==> self.labels@[j] != label,
            decreases self.labels@.len() - i,
        {
            if self.labels[i] == label {
                proof {
                    lemma_first_index_of(self.labels@, label);
                    assert(first_index_of(self.labels@, label) == Some(i as int));
                }
                return Ok(Some(copy_row(&self.rows[i])));
            }
            i = i + 1;
        }
        Ok(None)
    }

    /// Ranks every row against `query` and returns the best `k`, best
    /// first; a query of the wrong dimension is refused by the backend.
    pub fn search(&self, query: &[u32], k: usize) -> (r: Result<Vec<IndexResult>, KnnError>)
        requires
            self.wf(),
        ensures
            query@.len() == self.dim <==> r is Ok,
            match r {
                Ok(v) => v@ == self.spec_search(query@, k as int),
                Err(e) => e matches KnnError::IndexError(_),
            },
    {
        if query.len() != self.dim {
            return Err(KnnError::IndexError("query dimension does not match the index".to_owned()));
        }
        let mut cands: Vec<IndexResult> = Vec::new();
        let mut i: usize = 0;
        while i < self.rows.len()
            invariant
                self.wf(),
                query@.len() == self.dim,
                i <= self.rows@.len(),
                cands@ == self.spec_candidates(query@).take(i as int),
            decreases self.rows@.len() - i,
        {
            let d = l2_distance(query, &self.rows[i]);
            cands.push(IndexResult { label: self.labels[i], distance: d });
            proof {
                assert(cands@ == self.spec_candidates(query@).take(i + 1));
            }
            i = i + 1;
        }
        proof {
            assert(self.spec_candidates(query@).take(self.rows@.len() as int)
                == self.spec_candidates(query@));
        }
        let mut ranked = sort_results(cands);
        proof {
            self.spec_candidates(query@).lemma_sort_by_ensures(crate::productindex::ir_order());
            vstd::seq_lib::to_multiset_len(self.spec_candidates(query@));
            vstd::seq_lib::to_multiset_len(sort_irs(self.spec_candidates(query@)));
        }
        ranked.truncate(k);
        proof {
            if k <= self.spec_candidates(query@).len() {
                assert(ranked@ == sort_irs(self.spec_candidates(query@)).take(k as int));
            }
        }
        Ok(ranked)
    }
}

/// Copies one embedding row.
pub fn copy_row(v: &Vec<u32>) -> (r: Vec<u32>)
    ensures
        r@ == v@,
{
    let mut out: Vec<u32> = Vec::new();
    let mut i: usize = 0;
    while i < v.len()
        invariant
            i <= v@.len(),
            out@ == v@.take(i as int),
        decreases v@.len() - i,
    {
        out.push(v[i]);
        proof {
            assert(out@ == v@.take(i + 1));
        }
        i = i + 1;
    }
    proof {
        assert(v@.take(v@.len() as int) == v@);
    }
    out
}

/// The single-precision squared Euclidean distance between `q` and `row`.
pub fn l2_distance(q: &[u32], row: &Vec<u32>) -> (d: u32)
    requires
        q@.len() == row@.len(),
    ensures
        d == spec_l2(q@, row@),
{
    let mut acc: u32 = ZERO_BITS;
    let mut j: usize = 0;
    while j < q.len()
        invariant
            q@.len() == row@.len(),
            j <= q@.len(),
            acc == spec_l2_prefix(q@, row@, j as int),
        decreases q@.len() - j,
    {
        let diff = single_diff(q[j], row[j]);
        let sq = single_prod(diff, diff);
        acc = single_sum(acc, sq);
        j = j + 1;
    }
    acc
}

/// Asking a shard for fewer results yields a prefix of asking it for
/// more: both are cuts of the same ranked candidate list.
pub proof fn lemma_shard_search_prefix(s: WrappedIndex, q: Seq<u32>, k1: int, k2: int)
    requires
        0 <= k1 <= k2,
    ensures
        s.spec_search(q, k1).is_prefix_of(s.spec_search(q, k2)),
{
    crate::productindex::lemma_top_k_prefix(s.spec_candidates(q), k1, k2);
}

/// A shard returns the embedding that was stored for a label when it was
/// built: the row of the label's first internal id.
pub proof fn lemma_shard_round_trip(s: WrappedIndex, label: i64, i: int)
    requires
        first_index_of(s.labels@, label) == Some(i),
    ensures
        0 <= i < s.labels@.len(),
        s.spec_get_item(label) == Some(s.rows@[i]@),
{
    lemma_first_index_of(s.labels@, label);
}

/// Every label a shard lists resolves to an embedding of the shard's
/// dimension.
pub proof fn lemma_get_item_dimension(s: WrappedIndex, label: i64)
    requires
        s.wf(),
        s.labels@.contains(label),
    ensures
        s.spec_get_item(label) matches Some(v) && v.len() == s.dim,
{
    lemma_first_index_of(s.labels@, label);
    if first_index_of(s.labels@, label) is None {
        let j = choose|j: int| 0 <= j < s.labels@.len() && s.labels@[j] == label;
        assert(false);
    }
}

} // verus!
