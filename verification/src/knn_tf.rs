//! Input assembly for the neural user-embedding evaluator.
//!
//! The evaluator itself is an opaque computation graph run outside this
//! crate; what is verified here is the shaping of its named inputs: the
//! event embeddings flattened row by row with zeros for misses, the
//! timestamp and event-type rows, and the event count.  The caller that
//! runs the session supplies the current-time scalar and hands the output
//! embedding back to the service.

use vstd::prelude::*;
use crate::KnnError;
use crate::knnindex::EmbeddingRegistry;
use crate::embedding_computer::{
    UserEvent, spec_event_item, spec_used_count, spec_zero_vec, zero_vec,
};
use crate::wrappedindex::copy_row;

verus! {

/// The named tensors fed to the evaluator for one query, flattened.
pub struct EvaluatorInputs {
    /// Row-major `[1, n, d]` tensor: each event's embedding, or zeros when
    /// the event missed.
    pub product_embeddings: Vec<u32>,
    /// `[1, n]` tensor of event timestamps, seconds since the epoch.
    pub timestamps_sec: Vec<i64>,
    /// `[1, n]` tensor of event-type codes.
    pub event_types: Vec<i64>,
    /// The number of events, `n`.
    pub nb_events: i64,
    /// How many events resolved to an embedding.
    pub used_count: usize,
}

/// The flattened embedding rows of the events: each event contributes its
/// resolved embedding, or `d` zeros when it misses.
pub open spec fn spec_flat_embeddings(reg: EmbeddingRegistry, events: Seq<UserEvent>) -> Seq<u32>
    decreases events.len(),
{
    if events.len() == 0 {
        Seq::empty()
    } else {
        spec_flat_embeddings(reg, events.drop_last()) + match spec_event_item(reg, events.last()) {
            Some(v) => v,
            None => spec_zero_vec(reg.dim as nat),
        }
    }
}

/// Assembles the evaluator's inputs from the registry and the events.
pub fn build_evaluator_inputs(registry: &EmbeddingRegistry, user_events: &[UserEvent]) -> (r:
    Result<EvaluatorInputs, KnnError>)
    requires
        registry.wf(),
        user_events@.len() * registry.dim <= usize::MAX,
        user_events@.len() <= i64::MAX,
    ensures
        r matches Ok(inp) && inp.product_embeddings@ == spec_flat_embeddings(
            *registry,
            user_events@,
        ) && inp.timestamps_sec@ == Seq::new(
            user_events@.len(),
            |i: int| user_events@[i].timestamp as i64,
        ) && inp.event_types@ == Seq::new(
            user_events@.len(),
            |i: int| user_events@[i].event_type as i64,
        ) && inp.nb_events == user_events@.len() && inp.used_count == spec_used_count(
            *registry,
            user_events@,
        ),
{
    let n = user_events.len();
    let mut flat: Vec<u32> = Vec::new();
    let mut timestamps: Vec<i64> = Vec::new();
    let mut event_types: Vec<i64> = Vec::new();
    let mut used: usize = 0;
    let mut i: usize = 0;
    while i < n
        invariant
            registry.wf(),
            n == user_events@.len(),
            n * registry.dim <= usize::MAX,
            i <= n,
            used <= i,
            flat@ == spec_flat_embeddings(*registry, user_events@.take(i as int)),
            flat@.len() == i * registry.dim,
            timestamps@ == Seq::new(i as nat, |j: int| user_events@[j].timestamp as i64),
            event_types@ == Seq::new(i as nat, |j: int| user_events@[j].event_type as i64),
            used == spec_used_count(*registry, user_events@.take(i as int)),
        decreases n - i,
    {
        let e = &user_events[i];
        let hit = match registry.fetch_item(e.index, e.label) {
            Ok(o) => o,
            Err(err) => return Err(err),
        };
        proof {
            assert(user_events@.take(i + 1).drop_last() =~= user_events@.take(i as int));
            assert(user_events@.take(i + 1).last() == user_events@[i as int]);
            vstd::arithmetic::mul::lemma_mul_inequality(i + 1, n as int, registry.dim as int);
            vstd::arithmetic::mul::lemma_mul_is_distributive_add_other_way(
                registry.dim as int,
                i as int,
                1,
            );
        }
        let mut row = match hit {
            Some(v) => {
                proof {
                    crate::embedding_computer::lemma_fetch_dimension(
                        *registry,
                        user_events@[i as int].index,
                        user_events@[i as int].label,
                    );
                }
                used = used + 1;
                v
            },
            None => zero_vec(registry.dim),
        };
        flat.append(&mut row);
        timestamps.push(e.timestamp as i64);
        event_types.push(e.event_type as i64);
        proof {
            assert(timestamps@ =~= Seq::new((i + 1) as nat, |j: int| user_events@[j].timestamp as i64));
            assert(event_types@ =~= Seq::new((i + 1) as nat, |j: int| user_events@[j].event_type as i64));
        }
        i = i + 1;
    }
    proof {
        assert(user_events@.take(n as int) =~= user_events@);
    }
    Ok(
        EvaluatorInputs {
            product_embeddings: flat,
            timestamps_sec: timestamps,
            event_types: event_types,
            nb_events: n as i64,
            used_count: used,
        },
    )
}

} // verus!
