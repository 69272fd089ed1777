//! User-embedding computers.
//!
//! A computer folds an ordered sequence of user events into a single query
//! vector against a registry.  The average computer sums, in event order,
//! the embedding of every event that resolves in the registry, and divides
//! by the number of hits; events that miss are skipped and are not errors.

use vstd::prelude::*;
use vstd::multiset::Multiset;
use crate::KnnError;
use crate::knnindex::EmbeddingRegistry;
use crate::scalar::{
    ZERO_BITS, single_of_count, single_quot, single_sum, spec_single_of_count, spec_single_quot,
    spec_single_sum,
};

verus! {

/// A computed user embedding and the number of events that contributed.
pub struct EmbeddingResult {
    /// The user embedding, as single-precision bit patterns.
    pub user_embedding: Vec<u32>,
    /// How many events resolved to an embedding.
    pub user_event_used_count: usize,
}

/// One historical user event, referencing a product by partner and label.
#[derive(Clone)]
pub struct UserEvent {
    /// The partner whose catalog the event references.
    pub index: i32,
    /// The product label the event references.
    pub label: i64,
    /// Seconds since the Unix epoch.
    pub timestamp: u64,
    /// The partner's event-type code.
    pub event_type: i32,
}

/// The embedding an event resolves to in the registry, if any.
pub open spec fn spec_event_item(reg: EmbeddingRegistry, e: UserEvent) -> Option<Seq<u32>> {
    reg.spec_fetch_item(e.index, e.label)
}

/// The all-zero vector of dimension `d`.
pub open spec fn spec_zero_vec(d: nat) -> Seq<u32> {
    Seq::new(d, |i: int| ZERO_BITS)
}

/// The coordinate-wise single-precision sum of two vectors.
pub open spec fn spec_vec_sum(a: Seq<u32>, b: Seq<u32>) -> Seq<u32> {
    Seq::new(a.len(), |i: int| spec_single_sum(a[i], b[i]))
}

/// How many of the events resolve in the registry.
pub open spec fn spec_used_count(reg: EmbeddingRegistry, events: Seq<UserEvent>) -> int
    decreases events.len(),
{
    if events.len() == 0 {
        0
    } else {
        spec_used_count(reg, events.drop_last()) + if spec_event_item(reg, events.last()) is Some {
            1int
        } else {
            0int
        }
    }
}

/// The embeddings the events resolve to, in event order, one entry per hit.
pub open spec fn spec_summands(reg: EmbeddingRegistry, events: Seq<UserEvent>) -> Seq<Seq<u32>>
    decreases events.len(),
{
    if events.len() == 0 {
        Seq::empty()
    } else {
        let prev = spec_summands(reg, events.drop_last());
        match spec_event_item(reg, events.last()) {
            Some(v) => prev.push(v),
            None => prev,
        }
    }
}

/// The running sum of the resolved embeddings, started from zero.
pub open spec fn spec_acc(reg: EmbeddingRegistry, events: Seq<UserEvent>) -> Seq<u32>
    decreases events.len(),
{
    if events.len() == 0 {
        spec_zero_vec(reg.dim as nat)
    } else {
        let prev = spec_acc(reg, events.drop_last());
        match spec_event_item(reg, events.last()) {
            Some(v) => spec_vec_sum(prev, v),
            None => prev,
        }
    }
}

/// A vector divided coordinate-wise by the single nearest to `c`.
pub open spec fn spec_divided(acc: Seq<u32>, c: usize) -> Seq<u32> {
    Seq::new(acc.len(), |i: int| spec_single_quot(acc[i], spec_single_of_count(c)))
}

/// What the average computer returns: the accumulated sum, divided by the
/// hit count when any event hit, and untouched (all zero) otherwise.
pub open spec fn spec_average(reg: EmbeddingRegistry, events: Seq<UserEvent>) -> Seq<u32> {
    let acc = spec_acc(reg, events);
    let c = spec_used_count(reg, events);
    if c == 0 {
        acc
    } else {
        spec_divided(acc, c as usize)
    }
}

/// The strategy that averages the embeddings of the events that resolve.
#[derive(Default)]
pub struct AverageComputer {}

impl AverageComputer {
    /// Folds the events into a user embedding: sum of the resolved
    /// embeddings in event order, divided by the number of hits; all-miss
    /// event lists yield the zero vector, not an error.
    pub fn compute_user_vector(
        &self,
        registry: &EmbeddingRegistry,
        user_events: &[UserEvent],
    ) -> (r: Result<EmbeddingResult, KnnError>)
        requires
            registry.wf(),
        ensures
            r matches Ok(res) && res.user_embedding@ == spec_average(*registry, user_events@)
                && res.user_event_used_count == spec_used_count(*registry, user_events@)
                && res.user_embedding@.len() == registry.dim,
    {
        let dim = registry.dim;
        let mut acc = zero_vec(dim);
        let mut count: usize = 0;
        let mut i: usize = 0;
        while i < user_events.len()
            invariant
                registry.wf(),
                dim == registry.dim,
                i <= user_events@.len(),
                count <= i,
                acc@ == spec_acc(*registry, user_events@.take(i as int)),
                acc@.len() == dim,
                count == spec_used_count(*registry, user_events@.take(i as int)),
            decreases user_events@.len() - i,
        {
            let e = &user_events[i];
            let hit = match registry.fetch_item(e.index, e.label) {
                Ok(o) => o,
                Err(e) => return Err(e),
            };
            proof {
                assert(user_events@.take(i + 1).drop_last() =~= user_events@.take(i as int));
                assert(user_events@.take(i + 1).last() == user_events@[i as int]);
            }
            if let Some(v) = hit {
                proof {
                    lemma_fetch_dimension(*registry, user_events@[i as int].index,
                        user_events@[i as int].label);
                }
                count = count + 1;
                vec_sum_into(&mut acc, &v);
            }
            i = i + 1;
        }
        proof {
            assert(user_events@.take(user_events@.len() as int) =~= user_events@);
        }
        if count != 0 {
            let divisor = single_of_count(count);
            let mut j: usize = 0;
            let ghost summed = acc@;
            while j < acc.len()
                invariant
                    j <= acc@.len(),
                    acc@.len() == summed.len(),
                    forall|m: int| 0 <= m < j ==> acc@[m] == spec_single_quot(
                        summed[m],
                        spec_single_of_count(count),
                    ),
                    forall|m: int| j <= m < acc@.len() ==> acc@[m] == summed[m],
                    divisor == spec_single_of_count(count),
                decreases acc@.len() - j,
            {
                let q = single_quot(acc[j], divisor);
                acc.set(j, q);
                j = j + 1;
            }
            proof {
                assert(acc@ =~= spec_divided(summed, count));
            }
        }
        Ok(EmbeddingResult { user_embedding: acc, user_event_used_count: count })
    }
}

/// Builds the all-zero vector of dimension `d`.
pub fn zero_vec(d: usize) -> (r: Vec<u32>)
    ensures
        r@ == spec_zero_vec(d as nat),
{
    let mut out: Vec<u32> = Vec::new();
    let mut i: usize = 0;
    while i < d
        invariant
            i <= d,
            out@ =~= spec_zero_vec(d as nat).take(i as int),
        decreases d - i,
    {
        out.push(ZERO_BITS);
        proof {
            assert(out@ =~= spec_zero_vec(d as nat).take(i + 1));
        }
        i = i + 1;
    }
    proof {
        assert(spec_zero_vec(d as nat).take(d as int) =~= spec_zero_vec(d as nat));
    }
    out
}

/// Adds `v` coordinate-wise into `acc` in single precision.
pub fn vec_sum_into(acc: &mut Vec<u32>, v: &Vec<u32>)
    requires
        old(acc)@.len() == v@.len(),
    ensures
        final(acc)@ == spec_vec_sum(old(acc)@, v@),
{
    let ghost before = acc@;
    let mut i: usize = 0;
    while i < acc.len()
        invariant
            i <= acc@.len(),
            acc@.len() == before.len(),
            before.len() == v@.len(),
            forall|m: int| 0 <= m < i ==> acc@[m] == spec_single_sum(before[m], v@[m]),
            forall|m: int| i <= m < acc@.len() ==> acc@[m] == before[m],
        decreases acc@.len() - i,
    {
        let s = single_sum(acc[i], v[i]);
        acc.set(i, s);
        i = i + 1;
    }
    proof {
        assert(acc@ =~= spec_vec_sum(before, v@));
    }
}

/// The single-precision sum of a list of vectors, left to right from
/// zero.
pub open spec fn spec_fold_sum(d: nat, ss: Seq<Seq<u32>>) -> Seq<u32>
    decreases ss.len(),
{
    if ss.len() == 0 {
        spec_zero_vec(d)
    } else {
        spec_vec_sum(spec_fold_sum(d, ss.drop_last()), ss.last())
    }
}

/// The accumulator of the average computer is exactly the left-to-right
/// sum of the resolved embeddings, one summand per hit, in event order.
pub proof fn lemma_acc_is_fold(reg: EmbeddingRegistry, events: Seq<UserEvent>)
    ensures
        spec_acc(reg, events) == spec_fold_sum(reg.dim as nat, spec_summands(reg, events)),
    decreases events.len(),
{
    if events.len() > 0 {
        lemma_acc_is_fold(reg, events.drop_last());
        match spec_event_item(reg, events.last()) {
            Some(v) => {
                let prev = spec_summands(reg, events.drop_last());
                assert(spec_summands(reg, events) == prev.push(v));
                assert(prev.push(v).drop_last() =~= prev);
                assert(prev.push(v).last() == v);
            },
            None => {},
        }
    }
}

/// How many events reference exactly `(partner, label)`.
pub open spec fn spec_occurrences(events: Seq<UserEvent>, partner: i32, label: i64) -> int
    decreases events.len(),
{
    if events.len() == 0 {
        0
    } else {
        spec_occurrences(events.drop_last(), partner, label) + if events.last().index == partner
            && events.last().label == label {
            1int
        } else {
            0int
        }
    }
}

/// A label that appears `m` times among the events and resolves to `v`
/// contributes `v` at least `m` times to the summed embeddings — and
/// exactly `m` times when no other event resolves to the same vector.
pub proof fn lemma_summand_multiplicity(
    reg: EmbeddingRegistry,
    events: Seq<UserEvent>,
    partner: i32,
    label: i64,
)
    requires
        reg.spec_fetch_item(partner, label) is Some,
    ensures
        ({
            let v = reg.spec_fetch_item(partner, label)->Some_0;
            let m = spec_occurrences(events, partner, label);
            &&& spec_summands(reg, events).to_multiset().count(v) >= m
            &&& (forall|j: int|
                0 <= j < events.len() && !((#[trigger] events[j]).index == partner && events[j].label
                    == label) ==> spec_event_item(reg, events[j]) != Some(v)) ==> spec_summands(
                reg,
                events,
            ).to_multiset().count(v) == m
        }),
    decreases events.len(),
{
    broadcast use vstd::seq_lib::group_to_multiset_ensures;
    broadcast use vstd::multiset::group_multiset_axioms;

    let v = reg.spec_fetch_item(partner, label)->Some_0;
    if events.len() == 0 {
        assert(spec_summands(reg, events).to_multiset() =~= Multiset::<Seq<u32>>::empty());
    } else {
        let rest = events.drop_last();
        lemma_summand_multiplicity(reg, rest, partner, label);
        assert(forall|j: int| 0 <= j < rest.len() ==> rest[j] == events[j]);
        let prev = spec_summands(reg, rest);
        let e = events.last();
        if e.index == partner && e.label == label {
            assert(spec_event_item(reg, e) == Some(v));
            assert(spec_summands(reg, events) == prev.push(v));
            assert(prev.push(v).to_multiset() == prev.to_multiset().insert(v));
        } else {
            match spec_event_item(reg, e) {
                Some(w) => {
                    assert(spec_summands(reg, events) == prev.push(w));
                    assert(prev.push(w).to_multiset() == prev.to_multiset().insert(w));
                },
                None => {},
            }
        }
    }
}

/// A resolved embedding has the registry's dimension.
pub proof fn lemma_fetch_dimension(reg: EmbeddingRegistry, index_id: i32, label: i64)
    requires
        reg.wf(),
        reg.spec_fetch_item(index_id, label) is Some,
    ensures
        reg.spec_fetch_item(index_id, label)->Some_0.len() == reg.dim,
{
    crate::knnindex::lemma_registry_dimension(reg, index_id);
    let p = crate::knnindex::spec_find_partner(reg.embeddings@, index_id)->Some_0;
    match crate::knnindex::spec_probe(p.indices@, label) {
        Some(v) => {
            lemma_probe_dimension(p.indices@, label, reg.dim as nat);
        },
        None => {
            lemma_probe_dimension(p.extra_items@, label, reg.dim as nat);
        },
    }
}

/// A successful probe over shards of dimension `d` yields a vector of
/// length `d`.
pub proof fn lemma_probe_dimension(shards: Seq<crate::wrappedindex::WrappedIndex>, label: i64, d: nat)
    requires
        forall|i: int| 0 <= i < shards.len() ==> (#[trigger] shards[i]).wf(),
        forall|i: int| 0 <= i < shards.len() ==> (#[trigger] shards[i]).dim == d,
        crate::knnindex::spec_probe(shards, label) is Some,
    ensures
        crate::knnindex::spec_probe(shards, label)->Some_0.len() == d,
    decreases shards.len(),
{
    if shards.len() > 0 {
        match shards[0].spec_get_item(label) {
            Some(v) => {
                crate::wrappedindex::lemma_first_index_of(shards[0].labels@, label);
            },
            None => {
                assert(forall|i: int|
                    0 <= i < shards.drop_first().len() ==> #[trigger] shards.drop_first()[i]
                        == shards[i + 1]);
                lemma_probe_dimension(shards.drop_first(), label, d);
            },
        }
    }
}

} // verus!
