//! Perturbation of an assignment to an exact Hamming distance: every index
//! gets a random tie-break key, the keys are sorted ascending, and the
//! entries whose pair carries a mark — exactly `flip_count` of them — are
//! inverted at the position where their pair landed.

use vstd::prelude::*;
use crate::metric::{diff_count, hamming};
use crate::rng::rng_next_u32;

verus! {

/// One where the pair is marked for flipping, zero otherwise.
pub open spec fn mark(p: (u32, bool)) -> int {
    if p.1 {
        1
    } else {
        0
    }
}

/// Number of marked pairs among the first `i`.
pub open spec fn marked_count(s: Seq<(u32, bool)>, i: int) -> int
    decreases i,
{
    if i <= 0 {
        0
    } else {
        marked_count(s, i - 1) + mark(s[i - 1])
    }
}

/// The first `i` pairs are ordered by key, ascending.
pub open spec fn sorted_prefix(s: Seq<(u32, bool)>, i: int) -> bool {
    forall|p: int, q: int| 0 <= p < q < i ==> (#[trigger] s[p]).0 <= (#[trigger] s[q]).0
}

proof fn lemma_mc_agree(s1: Seq<(u32, bool)>, s2: Seq<(u32, bool)>, i: int)
    requires
        forall|k: int| 0 <= k < i ==> s1[k] == s2[k],
    ensures
        marked_count(s1, i) == marked_count(s2, i),
    decreases i,
{
    if i > 0 {
        lemma_mc_agree(s1, s2, i - 1);
    }
}

proof fn lemma_mc_bounds(s: Seq<(u32, bool)>, i: int)
    ensures
        0 <= marked_count(s, i),
        i >= 0 ==> marked_count(s, i) <= i,
    decreases i,
{
    if i > 0 {
        lemma_mc_bounds(s, i - 1);
    }
}

proof fn lemma_mc_zero_all_false(s: Seq<(u32, bool)>, i: int)
    requires
        marked_count(s, i) == 0,
    ensures
        forall|k: int| 0 <= k < i ==> !(#[trigger] s[k]).1,
    decreases i,
{
    if i > 0 {
        lemma_mc_bounds(s, i - 1);
        lemma_mc_zero_all_false(s, i - 1);
    }
}

/// Removing one pair takes its mark out of the count.
proof fn lemma_mc_remove(s: Seq<(u32, bool)>, j: int)
    requires
        0 <= j < s.len(),
    ensures
        marked_count(s.remove(j), s.len() as int - 1) == marked_count(s, s.len() as int) - mark(s[j]),
    decreases s.len(),
{
    let len = s.len() as int;
    if j == len - 1 {
        lemma_mc_agree(s.remove(j), s, len - 1);
    } else {
        let dl = s.drop_last();
        lemma_mc_agree(s.remove(j), dl.remove(j), len - 2);
        lemma_mc_remove(dl, j);
        lemma_mc_agree(dl, s, len - 1);
        assert(s.remove(j)[len - 2] == s[len - 1]);
    }
}

/// Inserting one pair adds its mark to the count.
proof fn lemma_mc_insert(s: Seq<(u32, bool)>, j: int, x: (u32, bool))
    requires
        0 <= j <= s.len(),
    ensures
        marked_count(s.insert(j, x), s.len() as int + 1) == marked_count(s, s.len() as int) + mark(x),
    decreases s.len(),
{
    let len = s.len() as int;
    if j == len {
        lemma_mc_agree(s.insert(j, x), s, len);
        assert(s.insert(j, x)[len] == x);
    } else {
        let dl = s.drop_last();
        lemma_mc_agree(s.insert(j, x), dl.insert(j, x), len);
        lemma_mc_insert(dl, j, x);
        lemma_mc_agree(dl, s, len - 1);
        assert(s.insert(j, x)[len] == s[len - 1]);
    }
}

/// Where one sequence is the other with the marked positions inverted, they
/// differ at exactly the marked positions.
proof fn lemma_diff_is_marked(a: Seq<bool>, b: Seq<bool>, m: Seq<(u32, bool)>, i: int)
    requires
        forall|k: int| 0 <= k < i ==> b[k] == (a[k] != (#[trigger] m[k]).1),
    ensures
        diff_count(a, b, i) == marked_count(m, i),
    decreases i,
{
    if i > 0 {
        lemma_diff_is_marked(a, b, m, i - 1);
    }
}

/// Sorts the pairs by key, ascending, keeping length and the number of
/// marked pairs.
fn sort_pairs(v: &mut Vec<(u32, bool)>)
    ensures
        final(v)@.len() == old(v)@.len(),
        marked_count(final(v)@, final(v)@.len() as int) == marked_count(
            old(v)@,
            old(v)@.len() as int,
        ),
        sorted_prefix(final(v)@, final(v)@.len() as int),
{
    let n = v.len();
    let ghost total = marked_count(v@, n as int);
    let mut i: usize = 1;
    while i < n
        invariant
            v@.len() == n,
            1 <= i,
            i <= n || n <= 1,
            marked_count(v@, n as int) == total,
            sorted_prefix(v@, i as int),
        decreases n - i,
    {
        let x = v[i];
        let mut j: usize = i;
        while j > 0 && v[j - 1].0 > x.0
            invariant
                v@.len() == n,
                0 <= j <= i < n,
                forall|k: int| j <= k < i ==> (#[trigger] v@[k]).0 > x.0,
            decreases j,
        {
            j = j - 1;
        }
        let ghost v1 = v@;
        let y = v.remove(i);
        v.insert(j, y);
        proof {
            assert(y == v1[i as int]);
            lemma_mc_remove(v1, i as int);
            lemma_mc_insert(v1.remove(i as int), j as int, y);
            assert(v@ == v1.remove(i as int).insert(j as int, y));
            assert forall|k: int| 0 <= k < i + 1 implies
                (if k < j {
                    v@[k] == v1[k]
                } else if k == j {
                    v@[k] == y
                } else {
                    v@[k] == v1[k - 1]
                }) by {}
            assert(sorted_prefix(v@, i + 1)) by {
                assert forall|p: int, q: int| 0 <= p < q < i + 1 implies (#[trigger] v@[p]).0
                    <= (#[trigger] v@[q]).0 by {
                    if j > 0 {
                        assert(v1[j - 1].0 <= x.0);
                    }
                }
            }
        }
        i = i + 1;
    }
}

/// The first `i` index pairs are ordered by key, ascending.
pub open spec fn sorted_idx_prefix(s: Seq<(u32, usize)>, i: int) -> bool {
    forall|p: int, q: int| 0 <= p < q < i ==> (#[trigger] s[p]).0 <= (#[trigger] s[q]).0
}

/// Every pair of `s` occurs among the pairs of `orig`.
pub open spec fn pairs_from(s: Seq<(u32, usize)>, orig: Seq<(u32, usize)>) -> bool {
    forall|k: int| 0 <= k < s.len() ==> orig.contains(#[trigger] s[k])
}

/// Some pair of `s` carries the index `v`.
pub open spec fn index_carried(s: Seq<(u32, usize)>, v: int) -> bool {
    exists|k: int| 0 <= k < s.len() && (#[trigger] s[k]).1 == v
}

/// Sorts index pairs by key, ascending. Every pair of the result is one of
/// the input's pairs and every input pair survives into the result, so
/// bounds on the carried indices, and their presence, survive the sort.
pub fn sort_keyed_indices(v: &mut Vec<(u32, usize)>)
    ensures
        final (v)@.len() == old(v)@.len(),
        sorted_idx_prefix(final (v)@, final (v)@.len() as int),
        pairs_from(final (v)@, old(v)@),
        pairs_from(old(v)@, final (v)@),
{
    let n = v.len();
    let ghost orig = v@;
    proof {
        assert forall|k: int| 0 <= k < n implies orig.contains(#[trigger] v@[k]) by {
            assert(orig[k] == v@[k]);
        }
        assert forall|k: int| 0 <= k < n implies v@.contains(#[trigger] orig[k]) by {
            assert(v@[k] == orig[k]);
        }
    }
    let mut i: usize = 1;
    while i < n
        invariant
            v@.len() == n == orig.len(),
            1 <= i,
            i <= n || n <= 1,
            sorted_idx_prefix(v@, i as int),
            pairs_from(v@, orig),
            pairs_from(orig, v@),
        decreases n - i,
    {
        let x = v[i];
        let mut j: usize = i;
        while j > 0 && v[j - 1].0 > x.0
            invariant
                v@.len() == n,
                0 <= j <= i < n,
                forall|k: int| j <= k < i ==> (#[trigger] v@[k]).0 > x.0,
            decreases j,
        {
            j = j - 1;
        }
        let ghost v1 = v@;
        let y = v.remove(i);
        v.insert(j, y);
        proof {
            assert(y == v1[i as int]);
            assert(v@ == v1.remove(i as int).insert(j as int, y));
            assert forall|k: int| 0 <= k < n implies orig.contains(#[trigger] v@[k]) by {
                if k < j {
                    assert(v@[k] == v1[k]);
                } else if k == j {
                    assert(v@[k] == v1[i as int]);
                } else if k <= i {
                    assert(v@[k] == v1[k - 1]);
                } else {
                    assert(v@[k] == v1[k]);
                }
            }
            assert forall|k: int| 0 <= k < n implies v@.contains(#[trigger] orig[k]) by {
                let k1 = choose|k1: int| 0 <= k1 < v1.len() && v1[k1] == orig[k];
                if k1 < j {
                    assert(v@[k1] == v1[k1]);
                } else if k1 == i {
                    assert(v@[j as int] == v1[i as int]);
                } else if k1 < i {
                    assert(v@[k1 + 1] == v1[k1]);
                } else {
                    assert(v@[k1] == v1[k1]);
                }
            }
            assert(sorted_idx_prefix(v@, i + 1)) by {
                assert forall|p: int, q: int| 0 <= p < q < i + 1 implies (#[trigger] v@[p]).0
                    <= (#[trigger] v@[q]).0 by {
                    if j > 0 {
                        assert(v1[j - 1].0 <= x.0);
                    }
                }
            }
        }
        i = i + 1;
    }
}

/// A random ordering of the indices `0..n`: each index draws a random key
/// and the pairs are sorted by it. Every returned index is below `n` and
/// every index below `n` occurs, so with length `n` the carried indices
/// are a permutation of `0..n`.
pub fn shuffled_indices(n: usize, rng: &mut rand::rngs::SmallRng) -> (r: Vec<(u32, usize)>)
    ensures
        r@.len() == n,
        forall|k: int| 0 <= k < n ==> (#[trigger] r@[k]).1 < n,
        forall|v: int| 0 <= v < n ==> #[trigger] index_carried(r@, v),
{
    let mut pairs: Vec<(u32, usize)> = Vec::new();
    let mut i: usize = 0;
    while i < n
        invariant
            0 <= i <= n,
            pairs@.len() == i,
            forall|k: int| 0 <= k < i ==> (#[trigger] pairs@[k]).1 == k,
        decreases n - i,
    {
        let key = rng_next_u32(rng);
        pairs.push((key, i));
        i = i + 1;
    }
    let ghost before = pairs@;
    sort_keyed_indices(&mut pairs);
    proof {
        assert forall|k: int| 0 <= k < n implies (#[trigger] pairs@[k]).1 < n by {
            assert(before.contains(pairs@[k]));
            let k0 = choose|k0: int| 0 <= k0 < before.len() && before[k0] == pairs@[k];
            assert(before[k0].1 == k0);
        }
        assert forall|v: int| 0 <= v < n implies #[trigger] index_carried(pairs@, v) by {
            assert(before[v].1 == v);
            assert(pairs@.contains(before[v]));
            let k = choose|k: int| 0 <= k < pairs@.len() && pairs@[k] == before[v];
            assert(pairs@[k].1 == v);
        }
    }
    pairs
}

/// A copy of `state` with exactly `flip_count` positions inverted: each
/// index draws a random key, the keys are sorted ascending, and the entries
/// at the positions where the `flip_count` marked pairs landed are flipped.
/// The Hamming distance between input and output is exactly `flip_count`;
/// with a flip count of zero the input comes back unchanged, whatever state
/// the random source is in.
pub fn perturb(state: &Vec<bool>, flip_count: usize, rng: &mut rand::rngs::SmallRng) -> (out: Vec<
    bool,
>)
    requires
        flip_count <= state@.len(),
    ensures
        out@.len() == state@.len(),
        hamming(state@, out@) == flip_count,
        flip_count == 0 ==> out@ == state@,
{
    let n = state.len();
    let mut pairs: Vec<(u32, bool)> = Vec::new();
    let mut i: usize = 0;
    while i < n
        invariant
            flip_count <= n == state@.len(),
            0 <= i <= n,
            pairs@.len() == i,
            marked_count(pairs@, i as int) == if i <= flip_count {
                i as int
            } else {
                flip_count as int
            },
        decreases n - i,
    {
        let ghost before = pairs@;
        let key = rng_next_u32(rng);
        pairs.push((key, i < flip_count));
        proof {
            lemma_mc_agree(pairs@, before, i as int);
        }
        i = i + 1;
    }
    sort_pairs(&mut pairs);
    let mut out: Vec<bool> = Vec::new();
    let mut idx: usize = 0;
    while idx < n
        invariant
            n == state@.len() == pairs@.len(),
            0 <= idx <= n,
            out@.len() == idx,
            forall|k: int| 0 <= k < idx ==> out@[k] == (state@[k] != (#[trigger] pairs@[k]).1),
        decreases n - idx,
    {
        if pairs[idx].1 {
            out.push(!state[idx]);
        } else {
            out.push(state[idx]);
        }
        idx = idx + 1;
    }
    proof {
        lemma_diff_is_marked(state@, out@, pairs@, n as int);
        if flip_count == 0 {
            lemma_mc_zero_all_false(pairs@, n as int);
            assert forall|k: int| 0 <= k < n implies out@[k] == state@[k] by {
                assert(!(pairs@[k]).1);
            }
            assert(out@ =~= state@);
        }
    }
    out
}

} // verus!
