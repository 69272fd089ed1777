//! Search results and the total order that ranks them.
//!
//! A result carries the external label of a product and its distance to the
//! query, as the bit pattern of an IEEE-754 single.  Results are ranked by
//! ascending distance under the IEEE total order (so a NaN distance cannot
//! confuse the ranking), and ties on distance break toward the smaller
//! label, which makes every merged result list reproducible.

use vstd::prelude::*;
use vstd::relations::{sorted_by, total_ordering};
use vstd::seq_lib::{group_to_multiset_ensures, lemma_sorted_unique};

verus! {

/// One candidate returned by a search: an external label and the distance
/// of its embedding from the query, as a single-precision bit pattern.
#[derive(Debug, Clone, Copy, PartialEq, Eq, Structural)]
pub struct IndexResult {
    pub label: i64,
    pub distance: u32,
}

/// Maps the bit pattern of a single-precision value to a key whose unsigned
/// order is the IEEE-754 total order of the values: negatives (sign bit set)
/// are reversed below the positives.
pub open spec fn spec_dist_key(bits: u32) -> u32 {
    if bits < 0x8000_0000 {
        (bits + 0x8000_0000) as u32
    } else {
        (0xFFFF_FFFFu32 - bits) as u32
    }
}

/// The ranking relation: ascending distance under the IEEE total order,
/// ties broken by the smaller label.
pub open spec fn ir_le(a: IndexResult, b: IndexResult) -> bool {
    ||| spec_dist_key(a.distance) < spec_dist_key(b.distance)
    ||| (spec_dist_key(a.distance) == spec_dist_key(b.distance) && a.label <= b.label)
}

/// The ranking relation as a first-class function, for use with `sort_by`.
pub open spec fn ir_order() -> spec_fn(IndexResult, IndexResult) -> bool {
    |a: IndexResult, b: IndexResult| ir_le(a, b)
}

/// The distance keys of two equal-ranking results coincide only when the
/// distances themselves do: the key map loses nothing.
pub proof fn lemma_dist_key_injective(a: u32, b: u32)
    ensures
        spec_dist_key(a) == spec_dist_key(b) ==> a == b,
{
}

/// The ranking relation is a total order, so sorting by it yields a unique
/// sequence.
pub proof fn lemma_ir_order_total()
    ensures
        total_ordering(ir_order()),
{
    let leq = ir_order();
    assert forall|a: IndexResult, b: IndexResult| #[trigger] leq(a, b) && #[trigger] leq(b, a)
        implies a == b by {
        lemma_dist_key_injective(a.distance, b.distance);
    }
}

/// The fully ranked form of a candidate list.
pub open spec fn sort_irs(s: Seq<IndexResult>) -> Seq<IndexResult> {
    s.sort_by(ir_order())
}

/// The `k` best candidates of a list: its ranked form, cut to `k`.
pub open spec fn spec_top_k(s: Seq<IndexResult>, k: int) -> Seq<IndexResult> {
    if k <= s.len() {
        sort_irs(s).take(k)
    } else {
        sort_irs(s)
    }
}

/// How many entries of `s` rank at least as well as `x`.
pub open spec fn le_count(s: Seq<IndexResult>, x: IndexResult) -> int
    decreases s.len(),
{
    if s.len() == 0 {
        0
    } else {
        le_count(s.drop_last(), x) + if ir_le(s.last(), x) {
            1int
        } else {
            0int
        }
    }
}

/// A count is never negative and never exceeds the length.
pub proof fn lemma_le_count_bounds(s: Seq<IndexResult>, x: IndexResult)
    ensures
        0 <= le_count(s, x) <= s.len(),
    decreases s.len(),
{
    if s.len() > 0 {
        lemma_le_count_bounds(s.drop_last(), x);
    }
}

/// When every entry ranks at least as well as `x`, all of them count.
pub proof fn lemma_le_count_all(s: Seq<IndexResult>, x: IndexResult)
    requires
        forall|i: int| 0 <= i < s.len() ==> ir_le(#[trigger] s[i], x),
    ensures
        le_count(s, x) == s.len(),
    decreases s.len(),
{
    if s.len() > 0 {
        assert(forall|i: int| 0 <= i < s.drop_last().len() ==> s.drop_last()[i] == s[i]);
        lemma_le_count_all(s.drop_last(), x);
    }
}

/// Counting over a concatenation splits.
pub proof fn lemma_le_count_concat(a: Seq<IndexResult>, b: Seq<IndexResult>, x: IndexResult)
    ensures
        le_count(a + b, x) == le_count(a, x) + le_count(b, x),
    decreases b.len(),
{
    if b.len() == 0 {
        assert(a + b =~= a);
    } else {
        assert((a + b).drop_last() =~= a + b.drop_last());
        assert((a + b).last() == b.last());
        lemma_le_count_concat(a, b.drop_last(), x);
    }
}

/// In a sorted sequence, the entries ranking at least as well as `x` are
/// exactly the first `le_count` ones.
pub proof fn lemma_le_count_sorted(s: Seq<IndexResult>, x: IndexResult)
    requires
        sorted_by(s, ir_order()),
    ensures
        0 <= le_count(s, x) <= s.len(),
        forall|i: int| 0 <= i < le_count(s, x) ==> ir_le(#[trigger] s[i], x),
        forall|i: int| le_count(s, x) <= i < s.len() ==> !ir_le(#[trigger] s[i], x),
    decreases s.len(),
{
    lemma_ir_order_total();
    let leq = ir_order();
    if s.len() > 0 {
        let front = s.drop_last();
        assert forall|p: int, q: int| 0 <= p < q < front.len() implies #[trigger] leq(
            front[p],
            front[q],
        ) by {
            assert(leq(s[p], s[q]));
        }
        lemma_le_count_sorted(front, x);
        if ir_le(s.last(), x) {
            assert forall|i: int| 0 <= i < s.len() implies ir_le(#[trigger] s[i], x) by {
                if i < s.len() - 1 {
                    assert(leq(s[i], s[s.len() - 1]));
                }
            }
            lemma_le_count_all(front, x);
        } else {
            assert(forall|i: int| 0 <= i < front.len() ==> s[i] == front[i]);
        }
    }
}

/// Two sequences holding the same entries count the same.
pub proof fn lemma_le_count_permutation(s1: Seq<IndexResult>, s2: Seq<IndexResult>, x: IndexResult)
    requires
        s1.to_multiset() == s2.to_multiset(),
    ensures
        le_count(s1, x) == le_count(s2, x),
    decreases s1.len(),
{
    broadcast use vstd::seq_lib::group_to_multiset_ensures;
    broadcast use vstd::multiset::group_multiset_axioms;

    vstd::seq_lib::to_multiset_len(s1);
    vstd::seq_lib::to_multiset_len(s2);
    if s1.len() == 0 {
    } else {
        let y = s1.last();
        assert(s1.to_multiset().contains(y)) by {
            assert(s1[s1.len() - 1] == y);
        }
        assert(s2.to_multiset().contains(y));
        assert(s2.contains(y));
        let j = choose|j: int| 0 <= j < s2.len() && s2[j] == y;
        let s2r = s2.remove(j);
        vstd::seq_lib::to_multiset_remove(s2, j);
        assert(s1.drop_last() =~= s1.remove(s1.len() - 1));
        vstd::seq_lib::to_multiset_remove(s1, s1.len() - 1);
        lemma_le_count_permutation(s1.drop_last(), s2r, x);
        assert(le_count(s2, x) == le_count(s2r, x) + if ir_le(y, x) {
            1int
        } else {
            0int
        }) by {
            assert(s2 =~= s2.take(j) + s2.skip(j));
            assert(s2.skip(j) =~= seq![y] + s2.skip(j + 1));
            assert(s2r =~= s2.take(j) + s2.skip(j + 1));
            lemma_le_count_concat(s2.take(j), seq![y] + s2.skip(j + 1), x);
            lemma_le_count_concat(seq![y], s2.skip(j + 1), x);
            lemma_le_count_concat(s2.take(j), s2.skip(j + 1), x);
            assert(le_count(seq![y], x) == if ir_le(y, x) {
                1int
            } else {
                0int
            }) by {
                assert(le_count(Seq::<IndexResult>::empty(), x) == 0);
                assert(seq![y].drop_last() =~= Seq::<IndexResult>::empty());
                assert(seq![y].last() == y);
            }
        }
    }
}

/// Pushing one entry into a sorted sequence and re-ranking splices it in
/// at its count position.
pub proof fn lemma_sort_push(s: Seq<IndexResult>, x: IndexResult)
    requires
        sorted_by(s, ir_order()),
    ensures
        sort_irs(s.push(x)) == s.take(le_count(s, x)) + seq![x] + s.skip(le_count(s, x)),
{
    broadcast use vstd::seq_lib::group_to_multiset_ensures;
    broadcast use vstd::multiset::group_multiset_axioms;

    lemma_ir_order_total();
    let leq = ir_order();
    lemma_le_count_sorted(s, x);
    let p = le_count(s, x);
    let t = s.take(p) + seq![x] + s.skip(p);
    assert forall|i: int, j: int| 0 <= i < j < t.len() implies #[trigger] leq(t[i], t[j]) by {
        if j < p {
            assert(t[i] == s[i] && t[j] == s[j]);
            assert(leq(s[i], s[j]));
        } else if j == p {
            assert(t[i] == s[i] && t[j] == x);
            assert(ir_le(s[i], x));
        } else if i < p {
            assert(t[i] == s[i] && t[j] == s[j - 1]);
            assert(leq(s[i], s[j - 1]));
        } else if i == p {
            assert(t[i] == x && t[j] == s[j - 1]);
            assert(!ir_le(s[j - 1], x));
        } else {
            assert(t[i] == s[i - 1] && t[j] == s[j - 1]);
            assert(leq(s[i - 1], s[j - 1]));
        }
    }
    assert(sorted_by(t, leq));
    assert(t =~= s.insert(p, x));
    vstd::seq_lib::to_multiset_insert(s, p, x);
    s.push(x).lemma_sort_by_ensures(leq);
    lemma_sorted_unique(t, sort_irs(s.push(x)), leq);
}

/// When at least `k` entries of a sorted sequence rank at least as well
/// as the pushed one, the first `k` survive the push unchanged.
pub proof fn lemma_sort_push_take(s: Seq<IndexResult>, x: IndexResult, k: int)
    requires
        sorted_by(s, ir_order()),
        0 <= k <= le_count(s, x),
    ensures
        sort_irs(s.push(x)).take(k) == s.take(k),
{
    lemma_sort_push(s, x);
    lemma_le_count_sorted(s, x);
    let p = le_count(s, x);
    assert((s.take(p) + seq![x] + s.skip(p)).take(k) =~= s.take(k));
}

/// Appending entries that all rank no better than the `k`-th of a sorted
/// sequence leaves the first `k` of the ranking unchanged.
pub proof fn lemma_top_absorb(s: Seq<IndexResult>, extra: Seq<IndexResult>, k: int)
    requires
        sorted_by(s, ir_order()),
        0 <= k <= s.len(),
        forall|j: int| 0 <= j < extra.len() ==> (k == 0 || ir_le(s[k - 1], #[trigger] extra[j])),
    ensures
        sort_irs(s + extra).take(k) == s.take(k),
    decreases extra.len(),
{
    broadcast use vstd::seq_lib::group_to_multiset_ensures;
    broadcast use vstd::multiset::group_multiset_axioms;

    lemma_ir_order_total();
    let leq = ir_order();
    if k == 0 {
        assert(sort_irs(s + extra).take(0) =~= s.take(0));
    } else if extra.len() == 0 {
        assert(s + extra =~= s);
        s.lemma_sort_by_ensures(leq);
        lemma_sorted_unique(s, sort_irs(s), leq);
        assert(sort_irs(s + extra).take(k) =~= s.take(k));
    } else {
        let front = extra.drop_last();
        let y = extra.last();
        assert(forall|j: int| 0 <= j < front.len() ==> front[j] == extra[j]);
        lemma_top_absorb(s, front, k);
        let t = sort_irs(s + front);
        (s + front).lemma_sort_by_ensures(leq);
        vstd::seq_lib::to_multiset_len(s + front);
        vstd::seq_lib::to_multiset_len(t);
        assert(s + extra =~= (s + front).push(y));
        assert((s + front).push(y).to_multiset() == t.push(y).to_multiset());
        (s + front).push(y).lemma_sort_by_ensures(leq);
        t.push(y).lemma_sort_by_ensures(leq);
        lemma_sorted_unique(sort_irs((s + front).push(y)), sort_irs(t.push(y)), leq);
        assert(forall|i: int| 0 <= i < k ==> t[i] == s.take(k)[i]);
        assert forall|i: int| 0 <= i < k implies ir_le(#[trigger] t[i], y) by {
            assert(t[i] == s[i]);
            if i < k - 1 {
                assert(leq(s[i], s[k - 1]));
            }
            assert(ir_le(s[k - 1], y));
        }
        lemma_le_count_sorted(t, y);
        assert(k <= le_count(t, y)) by {
            if le_count(t, y) < k {
                assert(ir_le(t[le_count(t, y)], y));
                assert(!ir_le(t[le_count(t, y)], y));
            }
        }
        lemma_sort_push_take(t, y, k);
        assert(sort_irs(s + extra).take(k) == t.take(k));
        assert(t.take(k) =~= s.take(k));
    }
}

/// The entries of a concatenation are those of the parts together.
pub proof fn lemma_multiset_concat(a: Seq<IndexResult>, b: Seq<IndexResult>)
    ensures
        (a + b).to_multiset() == a.to_multiset().add(b.to_multiset()),
    decreases b.len(),
{
    broadcast use vstd::seq_lib::group_to_multiset_ensures;
    broadcast use vstd::multiset::group_multiset_axioms;

    if b.len() == 0 {
        assert(a + b =~= a);
        assert(b.to_multiset() =~= vstd::multiset::Multiset::<IndexResult>::empty());
        assert((a + b).to_multiset() =~= a.to_multiset().add(b.to_multiset()));
    } else {
        assert(a + b =~= (a + b.drop_last()).push(b.last()));
        assert(b =~= b.drop_last().push(b.last()));
        lemma_multiset_concat(a, b.drop_last());
        assert((a + b).to_multiset() =~= a.to_multiset().add(b.to_multiset()));
    }
}

/// A ranking cut to `k` holds at most `k` results — exactly `k` when there
/// are enough candidates — and is sorted ascending under the ranking
/// relation.
pub proof fn lemma_top_k_sorted_bounded(s: Seq<IndexResult>, k: int)
    requires
        k >= 0,
    ensures
        spec_top_k(s, k).len() <= k || spec_top_k(s, k).len() == s.len(),
        spec_top_k(s, k).len() == vstd::math::min(k, s.len() as int),
        sorted_by(spec_top_k(s, k), ir_order()),
    decreases s.len(),
{
    lemma_ir_order_total();
    s.lemma_sort_by_ensures(ir_order());
    vstd::seq_lib::to_multiset_len(s);
    vstd::seq_lib::to_multiset_len(sort_irs(s));
    let whole = sort_irs(s);
    let cut = spec_top_k(s, k);
    assert forall|p: int, q: int| 0 <= p < q < cut.len() implies #[trigger] (ir_order())(
        cut[p],
        cut[q],
    ) by {
        assert(cut[p] == whole[p] && cut[q] == whole[q]);
        assert((ir_order())(whole[p], whole[q]));
    }
}

/// Asking for fewer results yields a prefix of asking for more, out of the
/// same candidate list.
pub proof fn lemma_top_k_prefix(s: Seq<IndexResult>, k1: int, k2: int)
    requires
        0 <= k1 <= k2,
    ensures
        spec_top_k(s, k1).is_prefix_of(spec_top_k(s, k2)),
{
    lemma_ir_order_total();
    s.lemma_sort_by_ensures(ir_order());
    vstd::seq_lib::to_multiset_len(s);
    vstd::seq_lib::to_multiset_len(sort_irs(s));
    if k1 <= s.len() {
        if k2 <= s.len() {
            assert(spec_top_k(s, k1) =~= spec_top_k(s, k2).take(k1));
        } else {
            assert(spec_top_k(s, k1) =~= spec_top_k(s, k2).take(k1));
        }
    } else {
        assert(spec_top_k(s, k1) == spec_top_k(s, k2));
    }
}

impl IndexResult {
    /// Whether `self` ranks at least as well as `other`.
    pub fn ranks_le(&self, other: &IndexResult) -> (r: bool)
        ensures
            r == ir_le(*self, *other),
    {
        let ka = dist_key(self.distance);
        let kb = dist_key(other.distance);
        ka < kb || (ka == kb && self.label <= other.label)
    }
}

/// Computes the total-order key of a distance bit pattern.
pub fn dist_key(bits: u32) -> (k: u32)
    ensures
        k == spec_dist_key(bits),
{
    if bits < 0x8000_0000 {
        bits + 0x8000_0000
    } else {
        0xFFFF_FFFFu32 - bits
    }
}

/// Ranks a candidate list: the result is exactly `sort_irs` of the input.
pub fn sort_results(v: Vec<IndexResult>) -> (r: Vec<IndexResult>)
    ensures
        r@ == sort_irs(v@),
{
    broadcast use group_to_multiset_ensures;

    let n = v.len();
    let mut out: Vec<IndexResult> = Vec::new();
    let mut i: usize = 0;
    while i < n
        invariant
            n == v@.len(),
            i <= n,
            out@.len() == i,
            sorted_by(out@, ir_order()),
            out@.to_multiset() == v@.take(i as int).to_multiset(),
        decreases n - i,
    {
        let x = v[i];
        let mut pos: usize = 0;
        while pos < out.len() && !(x.ranks_le(&out[pos]))
            invariant
                pos <= out@.len(),
                forall|m: int| 0 <= m < pos ==> !ir_le(x, #[trigger] out@[m]),
            decreases out@.len() - pos,
        {
            pos = pos + 1;
        }
        let ghost prev = out@;
        out.insert(pos, x);
        proof {
            lemma_ir_order_total();
            let ghost leq = ir_order();
            assert forall|p: int, q: int| 0 <= p < q < out@.len()
                implies #[trigger] leq(out@[p], out@[q]) by {
                if q < pos {
                    assert(out@[p] == prev[p] && out@[q] == prev[q]);
                    assert(leq(prev[p], prev[q]));
                } else if q == pos {
                    assert(out@[p] == prev[p] && out@[q] == x);
                    assert(!ir_le(x, prev[p]));
                    assert(leq(prev[p], x) || leq(x, prev[p]));
                } else if p < pos {
                    assert(out@[p] == prev[p] && out@[q] == prev[q - 1]);
                    assert(leq(prev[p], prev[q - 1]));
                } else if p == pos {
                    assert(out@[p] == x && out@[q] == prev[q - 1]);
                    assert(pos < prev.len() && ir_le(x, prev[pos as int]));
                    assert(leq(x, prev[pos as int]));
                    if pos < q - 1 {
                        assert(leq(prev[pos as int], prev[q - 1]));
                    }
                } else {
                    assert(out@[p] == prev[p - 1] && out@[q] == prev[q - 1]);
                    assert(leq(prev[p - 1], prev[q - 1]));
                }
            }
            assert(sorted_by(out@, ir_order()));
            assert(out@ == prev.insert(pos as int, x));
            vstd::seq_lib::to_multiset_insert(prev, pos as int, x);
            assert(v@.take(i + 1) == v@.take(i as int).push(v@[i as int]));
            vstd::seq_lib::to_multiset_build(v@.take(i as int), v@[i as int]);
        }
        i = i + 1;
    }
    proof {
        lemma_ir_order_total();
        assert(v@.take(n as int) == v@);
        v@.lemma_sort_by_ensures(ir_order());
        lemma_sorted_unique(out@, sort_irs(v@), ir_order());
    }
    out
}

} // verus!
