//! The loader: on-disk format parsing and registry assembly.
//!
//! The unverified edge reads the bytes of `metadata.json` and of each
//! chunk's side files and asks the index backend for the reconstructable
//! rows; everything after that — decoding the big-endian arrays, deriving
//! the chunk file names, checking the shared dimension and assembling the
//! registry — happens here.

use vstd::prelude::*;
use vstd::string::StringExecFns;
use crate::KnnError;
use crate::knnindex::{EmbeddingRegistry, KnnIndex, Metadata};
use crate::wrappedindex::WrappedIndex;

verus! {

/// The signed 64-bit big-endian value held by eight bytes.
pub open spec fn spec_be_i64(b: Seq<u8>) -> i64
    recommends
        b.len() == 8,
{
    (((b[0] as u64) << 56) | ((b[1] as u64) << 48) | ((b[2] as u64) << 40) | ((b[3] as u64) << 32)
        | ((b[4] as u64) << 24) | ((b[5] as u64) << 16) | ((b[6] as u64) << 8) | (
    b[7] as u64)) as i64
}

/// The 32-bit big-endian value held by four bytes.
pub open spec fn spec_be_u32(b: Seq<u8>) -> u32 {
    ((b[0] as u32) << 24) | ((b[1] as u32) << 16) | ((b[2] as u32) << 8) | (b[3] as u32)
}

/// The decimal digits of `n`, most significant first.
pub open spec fn spec_dec_digits(n: nat) -> Seq<char>
    decreases n,
{
    if n < 10 {
        seq![spec_digit_char(n)]
    } else {
        spec_dec_digits(n / 10).push(spec_digit_char(n % 10))
    }
}

/// The character for one decimal digit.
pub open spec fn spec_digit_char(d: nat) -> char {
    if d == 0 {
        '0'
    } else if d == 1 {
        '1'
    } else if d == 2 {
        '2'
    } else if d == 3 {
        '3'
    } else if d == 4 {
        '4'
    } else if d == 5 {
        '5'
    } else if d == 6 {
        '6'
    } else if d == 7 {
        '7'
    } else if d == 8 {
        '8'
    } else {
        '9'
    }
}

/// The decimal rendering of a 32-bit signed value, `-` first if negative.
pub open spec fn spec_i32_dec(v: int) -> Seq<char> {
    if v < 0 {
        seq!['-'] + spec_dec_digits((-v) as nat)
    } else {
        spec_dec_digits(v as nat)
    }
}

/// The name of a chunk's index file:
/// `{country}.{partner}.{chunk}.{True|False}.index`.
pub open spec fn spec_index_filename(m: Metadata) -> Seq<char> {
    m.country@ + seq!['.'] + spec_i32_dec(m.partner_id as int) + seq!['.'] + spec_i32_dec(
        m.chunk_id as int,
    ) + seq!['.'] + (if m.is_recommendable {
        "True"@
    } else {
        "False"@
    }) + ".index"@
}

/// The parts of one chunk that the unverified edge hands in: the decoded
/// inverse mapping and norms, and the rows reconstructed from the native
/// index file.
pub struct ChunkData {
    /// External label of each internal id, from the inverse-mapping file.
    pub labels: Vec<i64>,
    /// Per-row norms, from the norms file.
    pub norm: Vec<u32>,
    /// Embedding of each internal id, as single-precision bit patterns.
    pub rows: Vec<Vec<u32>>,
}

/// The loader holds no state; it is a family of pure steps.
pub struct Loader;

impl Loader {
    /// Decodes an inverse-mapping file: a headerless big-endian `i64`
    /// array; the value at offset `8*i` is the external label of internal
    /// id `i`.  A trailing partial group is ignored, as an end-of-file
    /// there ends the read cleanly.
    pub fn parse_mapping(bytes: &[u8]) -> (r: Vec<i64>)
        ensures
            r@.len() == bytes@.len() / 8,
            forall|i: int| 0 <= i < r@.len() ==> r@[i] == spec_be_i64(
                #[trigger] bytes@.subrange(8 * i, 8 * i + 8),
            ),
    {
        let total = bytes.len();
        let n = total / 8;
        proof {
            assert(8 * (n as int) <= bytes@.len());
            assert(bytes@.len() <= usize::MAX);
        }
        let mut out: Vec<i64> = Vec::new();
        let mut i: usize = 0;
        while i < n
            invariant
                n == bytes@.len() / 8,
                8 * (n as int) <= bytes@.len(),
                bytes@.len() <= usize::MAX,
                i <= n,
                out@.len() == i,
                forall|j: int| 0 <= j < i ==> out@[j] == spec_be_i64(
                    #[trigger] bytes@.subrange(8 * j, 8 * j + 8),
                ),
            decreases n - i,
        {
            let off = 8 * i;
            let v: u64 = ((bytes[off] as u64) << 56) | ((bytes[off + 1] as u64) << 48) | ((bytes[off
                + 2] as u64) << 40) | ((bytes[off + 3] as u64) << 32) | ((bytes[off + 4] as u64)
                << 24) | ((bytes[off + 5] as u64) << 16) | ((bytes[off + 6] as u64) << 8) | (
            bytes[off + 7] as u64);
            out.push(#[verifier::truncate] (v as i64));
            proof {
                let b = bytes@.subrange(8 * i, 8 * i + 8);
                assert(b[0] == bytes@[8 * i] && b[1] == bytes@[8 * i + 1] && b[2] == bytes@[8 * i
                    + 2] && b[3] == bytes@[8 * i + 3] && b[4] == bytes@[8 * i + 4] && b[5]
                    == bytes@[8 * i + 5] && b[6] == bytes@[8 * i + 6] && b[7] == bytes@[8 * i + 7]);
            }
            i = i + 1;
        }
        out
    }

    /// Decodes a norms file: a headerless big-endian array of 32-bit
    /// single-precision patterns.  A trailing partial group is ignored.
    pub fn parse_embedding_norms(bytes: &[u8]) -> (r: Vec<u32>)
        ensures
            r@.len() == bytes@.len() / 4,
            forall|i: int| 0 <= i < r@.len() ==> r@[i] == spec_be_u32(
                #[trigger] bytes@.subrange(4 * i, 4 * i + 4),
            ),
    {
        let total = bytes.len();
        let n = total / 4;
        proof {
            assert(4 * (n as int) <= bytes@.len());
            assert(bytes@.len() <= usize::MAX);
        }
        let mut out: Vec<u32> = Vec::new();
        let mut i: usize = 0;
        while i < n
            invariant
                n == bytes@.len() / 4,
                4 * (n as int) <= bytes@.len(),
                bytes@.len() <= usize::MAX,
                i <= n,
                out@.len() == i,
                forall|j: int| 0 <= j < i ==> out@[j] == spec_be_u32(
                    #[trigger] bytes@.subrange(4 * j, 4 * j + 4),
                ),
            decreases n - i,
        {
            let off = 4 * i;
            let v: u32 = ((bytes[off] as u32) << 24) | ((bytes[off + 1] as u32) << 16) | ((bytes[off
                + 2] as u32) << 8) | (bytes[off + 3] as u32);
            out.push(v);
            proof {
                let b = bytes@.subrange(4 * i, 4 * i + 4);
                assert(b[0] == bytes@[4 * i] && b[1] == bytes@[4 * i + 1] && b[2] == bytes@[4 * i
                    + 2] && b[3] == bytes@[4 * i + 3]);
            }
            i = i + 1;
        }
        out
    }
}

/// The partner ids of the metadata rows, in order of first appearance.
pub open spec fn spec_partner_ids(metadatas: Seq<Metadata>) -> Seq<i32>
    decreases metadatas.len(),
{
    if metadatas.len() == 0 {
        Seq::empty()
    } else {
        let prev = spec_partner_ids(metadatas.drop_last());
        if prev.contains(metadatas.last().partner_id) {
            prev
        } else {
            prev.push(metadatas.last().partner_id)
        }
    }
}

/// The shard a chunk's parts become, at dimension `d`.
pub open spec fn spec_chunk_shard(c: ChunkData, d: usize) -> WrappedIndex {
    WrappedIndex { labels: c.labels, rows: c.rows, norm: c.norm, dim: d }
}

/// Whether a chunk's parts line up: one label per row, every row of
/// dimension `d`, and no label named twice.
pub open spec fn spec_chunk_ok(c: ChunkData, d: usize) -> bool {
    &&& c.rows@.len() == c.labels@.len()
    &&& forall|i: int| 0 <= i < c.rows@.len() ==> (#[trigger] c.rows@[i])@.len() == d
    &&& forall|i: int, j: int| 0 <= i < j < c.labels@.len() ==> #[trigger] c.labels@[i]
        != #[trigger] c.labels@[j]
}

/// The shards that end up under partner `id` on the `reco` side: one per
/// metadata row with that partner id and that flag, in row order.
pub open spec fn spec_shards_for(
    metadatas: Seq<Metadata>,
    chunks: Seq<ChunkData>,
    d: usize,
    id: i32,
    reco: bool,
) -> Seq<WrappedIndex>
    recommends
        metadatas.len() == chunks.len(),
    decreases metadatas.len(),
{
    if metadatas.len() == 0 {
        Seq::empty()
    } else {
        let prev = spec_shards_for(metadatas.drop_last(), chunks.drop_last(), d, id, reco);
        if metadatas.last().partner_id == id && metadatas.last().is_recommendable == reco {
            prev.push(spec_chunk_shard(chunks.last(), d))
        } else {
            prev
        }
    }
}

impl Loader {
    /// Assembles a registry from the metadata rows and the chunk parts the
    /// unverified edge read for them, pairwise.  Every row must carry the
    /// dimension of the first row, at least 1, and every chunk's parts must
    /// line up; any violation aborts the whole load.
    pub fn build_registry(metadatas: &Vec<Metadata>, chunks: Vec<ChunkData>) -> (r: Result<
        EmbeddingRegistry,
        KnnError,
    >)
        requires
            metadatas@.len() == chunks@.len(),
            metadatas@.len() > 0,
        ensures
            ({
                let d = metadatas@[0].dimension;
                let loadable = d >= 1 && (forall|i: int|
                    0 <= i < metadatas@.len() ==> (#[trigger] metadatas@[i]).dimension == d) && (
                forall|i: int| 0 <= i < chunks@.len() ==> spec_chunk_ok(#[trigger] chunks@[i], d));
                match r {
                    Ok(reg) => {
                        &&& loadable
                        &&& reg.wf()
                        &&& reg.dim == d
                        &&& reg.embeddings@.len() == spec_partner_ids(metadatas@).len()
                        &&& forall|j: int| 0 <= j < reg.embeddings@.len()
                            ==> (#[trigger] reg.embeddings@[j]).0 == spec_partner_ids(metadatas@)[j]
                        &&& forall|j: int| 0 <= j < reg.embeddings@.len()
                            ==> (#[trigger] reg.embeddings@[j]).1.indices@ == spec_shards_for(
                                metadatas@,
                                chunks@,
                                d,
                                reg.embeddings@[j].0,
                                true,
                            )
                        &&& forall|j: int| 0 <= j < reg.embeddings@.len()
                            ==> (#[trigger] reg.embeddings@[j]).1.extra_items@ == spec_shards_for(
                                metadatas@,
                                chunks@,
                                d,
                                reg.embeddings@[j].0,
                                false,
                            )
                    },
                    Err(e) => !loadable && e matches KnnError::IndexError(_),
                }
            }),
    {
        let n = metadatas.len();
        let d = metadatas[0].dimension;
        if d == 0 {
            return Err(KnnError::IndexError("embedding dimension must be positive".to_owned()));
        }
        let mut i: usize = 0;
        while i < n
            invariant
                n == metadatas@.len(),
                d == metadatas@[0].dimension,
                i <= n,
                forall|j: int| 0 <= j < i ==> (#[trigger] metadatas@[j]).dimension == d,
            decreases n - i,
        {
            if metadatas[i].dimension != d {
                proof {
                    assert(metadatas@[i as int].dimension != d);
                }
                return Err(KnnError::IndexError("chunks disagree on the embedding dimension".to_owned()));
            }
            i = i + 1;
        }
        let ghost ms = metadatas@;
        let ghost cs = chunks@;
        let mut rest = chunks;
        let mut entries: Vec<(i32, KnnIndex)> = Vec::new();
        let mut i: usize = 0;
        while i < n
            invariant
                n == ms.len(),
                cs.len() == n,
                d == ms[0].dimension,
                d >= 1,
                forall|j: int| 0 <= j < n ==> (#[trigger] ms[j]).dimension == d,
                metadatas@ == ms,
                chunks@ == cs,
                i <= n,
                rest@ == cs.skip(i as int),
                forall|j: int| 0 <= j < i ==> spec_chunk_ok(#[trigger] cs[j], d),
                entries@.len() == spec_partner_ids(ms.take(i as int)).len(),
                forall|j: int| 0 <= j < entries@.len() ==> (#[trigger] entries@[j]).0
                    == spec_partner_ids(ms.take(i as int))[j],
                forall|j1: int, j2: int| 0 <= j1 < j2 < entries@.len()
                    ==> (#[trigger] entries@[j1]).0 != (#[trigger] entries@[j2]).0,
                forall|j: int| 0 <= j < entries@.len() ==> (#[trigger] entries@[j]).1.indices@
                    == spec_shards_for(ms.take(i as int), cs.take(i as int), d, entries@[j].0, true),
                forall|j: int| 0 <= j < entries@.len() ==> (#[trigger] entries@[j]).1.extra_items@
                    == spec_shards_for(
                    ms.take(i as int),
                    cs.take(i as int),
                    d,
                    entries@[j].0,
                    false,
                ),
                forall|j: int| 0 <= j < entries@.len() ==> (#[trigger] entries@[j]).1.wf(),
                forall|j: int| 0 <= j < entries@.len() ==> (#[trigger] entries@[j]).1.dims_all(
                    d as nat,
                ),
            decreases n - i,
        {
            let c = rest.remove(0);
            proof {
                assert(c == cs.skip(i as int)[0]);
                assert(c == cs[i as int]);
                assert(cs.skip(i as int).remove(0) =~= cs.skip(i + 1));
            }
            let m = &metadatas[i];
            let w = match WrappedIndex::new(c.rows, c.labels, c.norm, d) {
                Ok(w) => w,
                Err(e) => {
                    proof {
                        assert(!spec_chunk_ok(cs[i as int], d));
                    }
                    return Err(KnnError::IndexError("chunk files do not line up".to_owned()));
                },
            };
            proof {
                assert(w == spec_chunk_shard(cs[i as int], d));
                assert(spec_chunk_ok(cs[i as int], d));
            }
            let ghost old_entries = entries@;
            let ghost pids = spec_partner_ids(ms.take(i as int));
            let mut pos: usize = 0;
            let mut found = false;
            while pos < entries.len() && !found
                invariant
                    found ==> pos < entries@.len() && entries@[pos as int].0 == m.partner_id,
                    !found ==> pos <= entries@.len() && forall|j: int|
                        0 <= j < pos ==> (#[trigger] entries@[j]).0 != m.partner_id,
                    entries@ == old_entries,
                    i < metadatas@.len(),
                    m == metadatas@[i as int],
                decreases entries@.len() - pos + if found { 0int } else { 1int },
            {
                if entries[pos].0 == m.partner_id {
                    found = true;
                } else {
                    pos = pos + 1;
                }
            }
            if found {
                let (pid, mut ki) = entries.remove(pos);
                if m.is_recommendable {
                    ki.add_reco_index(w);
                } else {
                    ki.add_non_reco_index(w);
                }
                entries.insert(pos, (pid, ki));
                proof {
                    assert(entries@ =~= old_entries.update(
                        pos as int,
                        (pid, entries@[pos as int].1),
                    ));
                    assert(pids.contains(ms[i as int].partner_id));
                    assert(spec_partner_ids(ms.take(i + 1)) == pids) by {
                        assert(ms.take(i + 1).drop_last() =~= ms.take(i as int));
                        assert(ms.take(i + 1).last() == ms[i as int]);
                    }
                    lemma_shards_for_step(ms, cs, d, i as int);
                    assert forall|j: int| 0 <= j < entries@.len() implies (
                    #[trigger] entries@[j]).0 == spec_partner_ids(ms.take(i + 1))[j] by {
                        if j != pos {
                            assert(entries@[j] == old_entries[j]);
                        }
                    }
                }
            } else {
                let mut ki = KnnIndex::new();
                if m.is_recommendable {
                    ki.add_reco_index(w);
                } else {
                    ki.add_non_reco_index(w);
                }
                entries.push((m.partner_id, ki));
                proof {
                    assert(!pids.contains(ms[i as int].partner_id)) by {
                        if pids.contains(ms[i as int].partner_id) {
                            let j = choose|j: int|
                                0 <= j < pids.len() && pids[j] == ms[i as int].partner_id;
                            assert(old_entries[j].0 == ms[i as int].partner_id);
                        }
                    }
                    assert(spec_partner_ids(ms.take(i + 1)) == pids.push(ms[i as int].partner_id))
                        by {
                        assert(ms.take(i + 1).drop_last() =~= ms.take(i as int));
                        assert(ms.take(i + 1).last() == ms[i as int]);
                    }
                    lemma_shards_for_step(ms, cs, d, i as int);
                    assert(spec_shards_for(ms.take(i as int), cs.take(i as int), d,
                        ms[i as int].partner_id, true) =~= Seq::<WrappedIndex>::empty()) by {
                        lemma_shards_for_absent(ms.take(i as int), cs.take(i as int), d,
                            ms[i as int].partner_id, true, pids);
                    }
                    assert(spec_shards_for(ms.take(i as int), cs.take(i as int), d,
                        ms[i as int].partner_id, false) =~= Seq::<WrappedIndex>::empty()) by {
                        lemma_shards_for_absent(ms.take(i as int), cs.take(i as int), d,
                            ms[i as int].partner_id, false, pids);
                    }
                }
            }
            i = i + 1;
        }
        proof {
            assert(ms.take(n as int) =~= ms);
            assert(cs.take(n as int) =~= cs);
        }
        let reg = EmbeddingRegistry::new(d, entries);
        Ok(reg)
    }
}

/// Extending the prefix by row `i` extends exactly the shard run of row
/// `i`'s partner and flag, and leaves every other run unchanged.
pub proof fn lemma_shards_for_step(ms: Seq<Metadata>, cs: Seq<ChunkData>, d: usize, i: int)
    requires
        0 <= i < ms.len(),
        ms.len() == cs.len(),
    ensures
        forall|id: i32, reco: bool|
            #[trigger] spec_shards_for(ms.take(i + 1), cs.take(i + 1), d, id, reco) == if ms[i].partner_id
                == id && ms[i].is_recommendable == reco {
                spec_shards_for(ms.take(i), cs.take(i), d, id, reco).push(
                    spec_chunk_shard(cs[i], d),
                )
            } else {
                spec_shards_for(ms.take(i), cs.take(i), d, id, reco)
            },
{
    assert forall|id: i32, reco: bool|
        #[trigger] spec_shards_for(ms.take(i + 1), cs.take(i + 1), d, id, reco) == if ms[i].partner_id
            == id && ms[i].is_recommendable == reco {
            spec_shards_for(ms.take(i), cs.take(i), d, id, reco).push(spec_chunk_shard(cs[i], d))
        } else {
            spec_shards_for(ms.take(i), cs.take(i), d, id, reco)
        } by {
        assert(ms.take(i + 1).drop_last() =~= ms.take(i));
        assert(cs.take(i + 1).drop_last() =~= cs.take(i));
        assert(ms.take(i + 1).last() == ms[i]);
        assert(cs.take(i + 1).last() == cs[i]);
    }
}

/// A partner that never appears in the rows has no shards.
pub proof fn lemma_shards_for_absent(
    ms: Seq<Metadata>,
    cs: Seq<ChunkData>,
    d: usize,
    id: i32,
    reco: bool,
    pids: Seq<i32>,
)
    requires
        ms.len() == cs.len(),
        pids == spec_partner_ids(ms),
        !pids.contains(id),
    ensures
        spec_shards_for(ms, cs, d, id, reco) == Seq::<WrappedIndex>::empty(),
    decreases ms.len(),
{
    if ms.len() > 0 {
        let prev_pids = spec_partner_ids(ms.drop_last());
        assert forall|x: i32| prev_pids.contains(x) implies pids.contains(x) by {
            let j = choose|j: int| 0 <= j < prev_pids.len() && prev_pids[j] == x;
            if prev_pids.contains(ms.last().partner_id) {
            } else {
                assert(pids[j] == x);
            }
        }
        assert(ms.last().partner_id != id) by {
            if prev_pids.contains(ms.last().partner_id) {
            } else {
                assert(pids.last() == ms.last().partner_id);
            }
        }
        lemma_shards_for_absent(ms.drop_last(), cs.drop_last(), d, id, reco, prev_pids);
    }
}

impl Loader {
    /// Decodes the rows of a `metadata.json` file.  The JSON tree is
    /// opaque to verification, so nothing is promised about how the rows
    /// relate to the bytes; everything the load depends on is then checked
    /// by `build_registry` over the rows themselves, whatever they hold.
    /// Rows must be a JSON list of objects carrying the camelCase fields
    /// of `Metadata`; a missing or ill-typed field fails the whole load.
    pub fn parse_metadata(bytes: &[u8]) -> (r: Result<Vec<Metadata>, KnnError>) {
        let root = match crate::jsonvalue::parse_json(bytes) {
            Ok(v) => v,
            Err(msg) => return Err(KnnError::SerdeError(msg)),
        };
        let arr = match root.as_array() {
            Some(a) => a,
            None => return Err(KnnError::SerdeError("metadata is not a list".to_owned())),
        };
        let mut rows: Vec<Metadata> = Vec::new();
        let n = arr.len();
        let mut i: usize = 0;
        while i < n
            invariant
                n == arr@.len(),
                i <= n,
            decreases n - i,
        {
            let row = Self::parse_metadata_row(&arr[i]);
            match row {
                Ok(m) => rows.push(m),
                Err(e) => return Err(e),
            }
            i = i + 1;
        }
        Ok(rows)
    }

    /// Decodes one metadata record from its JSON object.
    fn parse_metadata_row(v: &serde_json::Value) -> (r: Result<Metadata, KnnError>) {
        let partner_id = match Self::field_i32(v, "partnerId") {
            Ok(x) => x,
            Err(e) => return Err(e),
        };
        let chunk_id = match Self::field_i32(v, "chunkId") {
            Ok(x) => x,
            Err(e) => return Err(e),
        };
        let count = match Self::field_usize(v, "count") {
            Ok(x) => x,
            Err(e) => return Err(e),
        };
        let dimension = match Self::field_usize(v, "dimension") {
            Ok(x) => x,
            Err(e) => return Err(e),
        };
        let country = match Self::field_string(v, "country") {
            Ok(x) => x,
            Err(e) => return Err(e),
        };
        let index_params = match Self::field_string(v, "indexParams") {
            Ok(x) => x,
            Err(e) => return Err(e),
        };
        let metrics = match Self::field_string(v, "metrics") {
            Ok(x) => x,
            Err(e) => return Err(e),
        };
        let metric = match Self::field_string(v, "metric") {
            Ok(x) => x,
            Err(e) => return Err(e),
        };
        let is_recommendable = match Self::field_bool(v, "isRecommendable") {
            Ok(x) => x,
            Err(e) => return Err(e),
        };
        Ok(
            Metadata {
                partner_id,
                chunk_id,
                count,
                country,
                index_params,
                is_recommendable,
                metrics,
                metric,
                dimension,
            },
        )
    }

    /// Reads a signed 32-bit field of a JSON object.
    fn field_i32(v: &serde_json::Value, key: &str) -> (r: Result<i32, KnnError>) {
        match v.get(key) {
            Some(f) => match f.as_i64() {
                Some(x) => {
                    if x < -0x8000_0000i64 || x > 0x7FFF_FFFFi64 {
                        Err(KnnError::SerdeError(key.to_owned()))
                    } else {
                        Ok(x as i32)
                    }
                },
                None => Err(KnnError::SerdeError(key.to_owned())),
            },
            None => Err(KnnError::SerdeError(key.to_owned())),
        }
    }

    /// Reads an unsigned size field of a JSON object.
    fn field_usize(v: &serde_json::Value, key: &str) -> (r: Result<usize, KnnError>) {
        match v.get(key) {
            Some(f) => match f.as_u64() {
                Some(x) => {
                    if x > usize::MAX as u64 {
                        Err(KnnError::SerdeError(key.to_owned()))
                    } else {
                        Ok(x as usize)
                    }
                },
                None => Err(KnnError::SerdeError(key.to_owned())),
            },
            None => Err(KnnError::SerdeError(key.to_owned())),
        }
    }

    /// Reads a text field of a JSON object.
    fn field_string(v: &serde_json::Value, key: &str) -> (r: Result<String, KnnError>) {
        match v.get(key) {
            Some(f) => match f.as_str() {
                Some(s) => Ok(s.to_owned()),
                None => Err(KnnError::SerdeError(key.to_owned())),
            },
            None => Err(KnnError::SerdeError(key.to_owned())),
        }
    }

    /// Reads a boolean field of a JSON object.
    fn field_bool(v: &serde_json::Value, key: &str) -> (r: Result<bool, KnnError>) {
        match v.get(key) {
            Some(f) => match f.as_bool() {
                Some(b) => Ok(b),
                None => Err(KnnError::SerdeError(key.to_owned())),
            },
            None => Err(KnnError::SerdeError(key.to_owned())),
        }
    }
}

/// Renders a decimal digit.
pub fn digit_str(d: u64) -> (r: &'static str)
    requires
        d < 10,
    ensures
        r@ == seq![spec_digit_char(d as nat)],
{
    proof {
        reveal_strlit("0");
        reveal_strlit("1");
        reveal_strlit("2");
        reveal_strlit("3");
        reveal_strlit("4");
        reveal_strlit("5");
        reveal_strlit("6");
        reveal_strlit("7");
        reveal_strlit("8");
        reveal_strlit("9");
    }
    if d == 0 {
        "0"
    } else if d == 1 {
        "1"
    } else if d == 2 {
        "2"
    } else if d == 3 {
        "3"
    } else if d == 4 {
        "4"
    } else if d == 5 {
        "5"
    } else if d == 6 {
        "6"
    } else if d == 7 {
        "7"
    } else if d == 8 {
        "8"
    } else {
        "9"
    }
}

/// Renders an unsigned value in decimal.
pub fn u64_dec(n: u64) -> (r: String)
    ensures
        r@ == spec_dec_digits(n as nat),
    decreases n,
{
    if n < 10 {
        String::from_str(digit_str(n))
    } else {
        let mut s = u64_dec(n / 10);
        s.append(digit_str(n % 10));
        s
    }
}

/// Renders a 32-bit signed value in decimal.
pub fn i32_dec(v: i32) -> (r: String)
    ensures
        r@ == spec_i32_dec(v as int),
{
    proof {
        reveal_strlit("-");
    }
    if v < 0 {
        let mut s = String::from_str("-");
        let m = -(v as i64);
        let d = u64_dec(m as u64);
        s.append(d.as_str());
        s
    } else {
        u64_dec(v as u64)
    }
}

impl Metadata {
    /// The name of this chunk's index file.
    pub fn index_filename(&self) -> (r: String)
        ensures
            r@ == spec_index_filename(*self),
    {
        proof {
            reveal_strlit(".");
            reveal_strlit("True");
            reveal_strlit("False");
            reveal_strlit(".index");
        }
        let mut s = String::new();
        s.append(self.country.as_str());
        s.append(".");
        let p = i32_dec(self.partner_id);
        s.append(p.as_str());
        s.append(".");
        let c = i32_dec(self.chunk_id);
        s.append(c.as_str());
        s.append(".");
        if self.is_recommendable {
            s.append("True");
        } else {
            s.append("False");
        }
        s.append(".index");
        s
    }

    /// The name of this chunk's inverse-mapping file.
    pub fn mapping_filename(&self) -> (r: String)
        ensures
            r@ == spec_index_filename(*self) + "_inverseMapping.array"@,
    {
        proof {
            reveal_strlit("_inverseMapping.array");
        }
        let mut s = self.index_filename();
        s.append("_inverseMapping.array");
        s
    }

    /// The name of this chunk's norms file.
    pub fn norms_filename(&self) -> (r: String)
        ensures
            r@ == spec_index_filename(*self) + "_embeddingNorms.array"@,
    {
        proof {
            reveal_strlit("_embeddingNorms.array");
        }
        let mut s = self.index_filename();
        s.append("_embeddingNorms.array");
        s
    }
}

} // verus!
