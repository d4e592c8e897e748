//! The three experiment drivers, composed from the components: candidate
//! profiling against an annealer sample, the random-walk timing run, and
//! the blocking-clause shuffled-flip run.

use vstd::prelude::*;
use crate::aggregate::{lemma_total_agree, lemma_total_bump, sat_add, total_samples, Buckets, CostSample};
use crate::cnf::{all_sat, blocking_clause, clone_clauses, unsatisfiable, ConstraintSet};
use crate::metric::{distance, hamming};
use crate::oracle::{hints_from_assignment, solve_oracle, solve_timed, SolveError};
use crate::perturb::{perturb, shuffled_indices};
use crate::rng::{generate, rng_below};

verus! {

/// The hint vector built from an assignment is one hint per variable, in
/// variable order.
proof fn lemma_canonical_hints_shape(a: Seq<bool>)
    requires
        a.len() <= usize::MAX,
    ensures
        crate::oracle::canonical_hints(a).len() == a.len(),
        forall|i: int|
            0 <= i < a.len() ==> (#[trigger] crate::oracle::canonical_hints(a)[i]).var == i,
{
    assert forall|i: int|
        0 <= i < a.len() implies (#[trigger] crate::oracle::canonical_hints(a)[i]).var == i by {
        assert(crate::oracle::canonical_hints(a)[i] == (crate::oracle::PolarityHint {
            var: i as usize,
            positive: a[i],
            priority: 0u32,
        }));
    }
}

/// One round of the annealer-versus-engine experiment: prime a solve with
/// the annealer's `candidate`, find a true solution, and pair the Hamming
/// distance between the two with the candidate's residual `energy`. On
/// success the solution satisfies every clause and the sample carries
/// exactly that distance and that energy.
pub fn anneal_round(cs: &ConstraintSet, candidate: &Vec<bool>, energy: u64) -> (r: Result<
    (Vec<bool>, CostSample),
    SolveError,
>)
    requires
        cs.wf(),
        candidate@.len() == cs.n,
    ensures
        r matches Ok(p) ==> {
            &&& p.0@.len() == cs.n
            &&& all_sat(p.0@, cs.view_clauses())
            &&& p.1.distance == hamming(candidate@, p.0@)
            &&& p.1.distance <= cs.n
            &&& p.1.cost == energy
        },
        r matches Err(e) ==> e == SolveError::Unsatisfiable,
        r is Err ==> unsatisfiable(cs.view_clauses(), cs.n as int),
{
    let hints = hints_from_assignment(candidate);
    proof {
        lemma_canonical_hints_shape(candidate@);
    }
    match solve_oracle(cs, &hints) {
        Ok(o) => {
            let d = distance(candidate, &o.assignment);
            Ok((o.assignment, CostSample { distance: d, cost: energy }))
        },
        Err(e) => Err(e),
    }
}

/// Every sample recorded in the table lies within the distance range.
pub open spec fn samples_in_range(data: Seq<Vec<CostSample>>, n: int) -> bool {
    forall|d: int, k: int|
        0 <= d < data.len() && 0 <= k < data[d]@.len() ==> (#[trigger] data[d]@[k]).distance <= n
}

/// The running state of the random-walk driver: the assignment the next
/// solve is primed with, and the flip target chosen last round — the
/// bucket the next measurement belongs to. No target stands before the
/// first round, so the first round records nothing.
pub struct WalkState {
    pub state: Vec<bool>,
    pub pending: Option<usize>,
}

/// One round of the random-walk driver: solve with the current state as
/// hints and measure the cost; record (distance walked, cost) under the
/// flip target chosen on the previous round — or record nothing on the
/// first round; then draw a fresh flip target below `n` and perturb the
/// solved assignment by exactly that many flips for the next round.
pub fn walk_round(
    cs: &ConstraintSet,
    st: WalkState,
    buckets: &mut Buckets,
    rng: &mut rand::rngs::SmallRng,
) -> (r: Result<WalkState, SolveError>)
    requires
        cs.wf(),
        st.state@.len() == cs.n,
        old(buckets).data@.len() == cs.n,
        st.pending matches Some(d) ==> d < cs.n,
    ensures
        final (buckets).data@.len() == old(buckets).data@.len(),
        r matches Ok(ns) ==> ns.state@.len() == cs.n && (ns.pending matches Some(d) && d < cs.n),
        r matches Err(e) ==> e == SolveError::Unsatisfiable,
        r is Err ==> *final (buckets) == *old(buckets) && unsatisfiable(
            cs.view_clauses(),
            cs.n as int,
        ),
        st.pending is None ==> forall|k: int|
            0 <= k < old(buckets).data@.len() ==> final (buckets).data@[k] == old(
                buckets,
            ).data@[k],
        st.pending matches Some(d) ==> r is Ok ==> {
            &&& (exists|s: CostSample, sol: Seq<bool>|
                {
                    &&& sol.len() == cs.n
                    &&& all_sat(sol, cs.view_clauses())
                    &&& s.distance == hamming(st.state@, sol)
                    &&& final (buckets).data@[d as int]@ == old(buckets).data@[d as int]@.push(s)
                })
            &&& forall|k: int|
                0 <= k < old(buckets).data@.len() && k != d ==> final (buckets).data@[k] == old(
                    buckets,
                ).data@[k]
        },
{
    let hints = hints_from_assignment(&st.state);
    proof {
        lemma_canonical_hints_shape(st.state@);
    }
    match solve_oracle(cs, &hints) {
        Ok(o) => {
            let d = distance(&st.state, &o.assignment);
            match st.pending {
                Some(nsd) => {
                    let s = CostSample { distance: d, cost: o.micros };
                    buckets.record(nsd, s);
                    proof {
                        let sol = o.assignment@;
                        assert(s.distance == hamming(st.state@, sol));
                        assert(buckets.data@[nsd as int]@ == old(buckets).data@[nsd as int]@.push(
                            s,
                        ));
                    }
                },
                None => {},
            }
            let target = rng_below(rng, cs.n);
            let next = perturb(&o.assignment, target, rng);
            Ok(WalkState { state: next, pending: Some(target) })
        },
        Err(e) => Err(e),
    }
}

/// The random-walk driver: starting from a random assignment, runs
/// `rounds` rounds of `walk_round` over one shared bucket table. Because
/// no flip target stands before the first round, the first round records
/// nothing and every later round records exactly one sample: a completed
/// run holds exactly `rounds - 1` samples over all buckets.
pub fn run_walk(cs: &ConstraintSet, rounds: usize, rng: &mut rand::rngs::SmallRng) -> (r: Result<
    Buckets,
    SolveError,
>)
    requires
        cs.wf(),
    ensures
        r matches Ok(b) ==> b.data@.len() == cs.n && total_samples(b.data@, cs.n as int) == if rounds
            == 0 {
            0int
        } else {
            rounds - 1
        },
        r matches Ok(b) ==> samples_in_range(b.data@, cs.n as int),
        r matches Err(e) ==> e == SolveError::Unsatisfiable,
        r is Err ==> unsatisfiable(cs.view_clauses(), cs.n as int),
{
    let n = cs.n;
    let mut buckets = Buckets::new(n);
    proof {
        lemma_total_zero(buckets.data@, n as int);
    }
    let initial = generate(n, rng);
    let mut st = WalkState { state: initial, pending: None };
    let mut k: usize = 0;
    while k < rounds
        invariant
            cs.wf(),
            n == cs.n,
            0 <= k <= rounds,
            buckets.data@.len() == n,
            st.state@.len() == n,
            st.pending matches Some(d) ==> d < n,
            st.pending is Some <==> k > 0,
            total_samples(buckets.data@, n as int) == if k == 0 {
                0int
            } else {
                k - 1
            },
            samples_in_range(buckets.data@, n as int),
        decreases rounds - k,
    {
        let ghost pre = buckets.data@;
        let ghost pending0 = st.pending;
        let ghost state0 = st.state@;
        match walk_round(cs, st, &mut buckets, rng) {
            Ok(ns) => {
                proof {
                    match pending0 {
                        Option::None => {
                            lemma_total_agree(pre, buckets.data@, n as int);
                            assert forall|d2: int, k2: int|
                                0 <= d2 < buckets.data@.len() && 0 <= k2 < buckets.data@[d2]@.len()
                                    implies (#[trigger] buckets.data@[d2]@[k2]).distance
                                <= n by {
                                assert(buckets.data@[d2] == pre[d2]);
                            }
                        },
                        Option::Some(t) => {
                            lemma_total_bump(pre, buckets.data@, t as int, n as int);
                            let (s, sol) = choose|s: CostSample, sol: Seq<bool>|
                                {
                                    &&& sol.len() == n
                                    &&& all_sat(sol, cs.view_clauses())
                                    &&& s.distance == hamming(state0, sol)
                                    &&& buckets.data@[t as int]@ == pre[t as int]@.push(s)
                                };
                            crate::metric::lemma_distance_properties(state0, sol);
                            assert forall|d2: int, k2: int|
                                0 <= d2 < buckets.data@.len() && 0 <= k2 < buckets.data@[d2]@.len()
                                    implies (#[trigger] buckets.data@[d2]@[k2]).distance
                                <= n by {
                                if d2 == t {
                                    if k2 < pre[t as int]@.len() {
                                        assert(buckets.data@[d2]@[k2] == pre[d2]@[k2]);
                                    } else {
                                        assert(buckets.data@[d2]@[k2] == s);
                                    }
                                } else {
                                    assert(buckets.data@[d2] == pre[d2]);
                                }
                            }
                        },
                    }
                }
                st = ns;
            },
            Err(e) => {
                return Err(e);
            },
        }
        k = k + 1;
    }
    Ok(buckets)
}

/// An empty bucket table holds no samples.
proof fn lemma_total_zero(data: Seq<Vec<CostSample>>, i: int)
    requires
        forall|k: int| 0 <= k < data.len() ==> (#[trigger] data[k])@.len() == 0,
        i <= data.len(),
    ensures
        total_samples(data, i) == 0,
    decreases i,
{
    if i > 0 {
        lemma_total_zero(data, i - 1);
    }
}

/// The named iteration budget of the blocking-clause driver.
pub struct BlockingConfig {
    /// Blocking-clause rounds: how many distinct baseline solutions are
    /// enumerated, each excluded before the next.
    pub max_increment: usize,
    /// Permutations sampled per round: how many shuffled flip orders walk
    /// the baseline solution away from itself.
    pub max_shuffle: usize,
    /// Repeated timing measurements averaged per flip step.
    pub max_iter: usize,
}

/// Every distance row holds exactly `m` per-increment means.
pub open spec fn rows_all_len(rows: Seq<Vec<u64>>, m: int) -> bool {
    forall|d: int| 0 <= d < rows.len() ==> (#[trigger] rows[d])@.len() == m
}

/// A well-shaped blocking-run result: one row per distance, rectangular,
/// with one mean per completed increment.
pub open spec fn blocking_rows_ok(rows: Seq<Vec<u64>>, n: int, max_increment: int) -> bool {
    rows.len() == n && exists|m: int| 0 <= m <= max_increment && #[trigger] rows_all_len(rows, m)
}

/// The clause set after blocking every solution of `found`.
pub open spec fn blocked_set(css: Seq<Seq<(usize, bool)>>, found: Seq<Seq<bool>>) -> Seq<
    Seq<(usize, bool)>,
> {
    css + found.map_values(|t: Seq<bool>| blocking_clause(t))
}

/// The rows hold one mean per found-and-blocked baseline solution, and the
/// run stopped before its full increment budget only because blocking
/// those solutions had made the set unsatisfiable — the enumeration was
/// exhausted.
pub open spec fn rows_justified(
    rows: Seq<Vec<u64>>,
    css: Seq<Seq<(usize, bool)>>,
    n: int,
    max_increment: int,
    found: Seq<Seq<bool>>,
) -> bool {
    &&& found.len() <= max_increment
    &&& rows_all_len(rows, found.len() as int)
    &&& (found.len() < max_increment ==> unsatisfiable(blocked_set(css, found), n))
}

/// The blocking-clause shuffled-flip driver. Each increment solves the
/// growing, blocking-augmented set with random hints for a baseline
/// solution, blocks it, and then — per sampled permutation — walks the
/// baseline away one flip at a time, re-solving the original, unblocked
/// set with the walked assignment as hints and accumulating the measured
/// latency per flip step; the flips compound within one permutation. Per
/// increment, each step's accumulated latency is divided by the number of
/// permutations. Row `d` of the result holds one per-increment mean for
/// every increment that completed before the solution space was
/// exhausted; an unsatisfiable increment stops the run silently with the
/// rows gathered so far.
pub fn run_blocking(
    cs: &ConstraintSet,
    cfg: &BlockingConfig,
    rng: &mut rand::rngs::SmallRng,
) -> (rows: Vec<Vec<u64>>)
    requires
        cs.wf(),
        cfg.max_iter > 0,
        cfg.max_shuffle > 0,
    ensures
        blocking_rows_ok(rows@, cs.n as int, cfg.max_increment as int),
        exists|found: Seq<Seq<bool>>|
            #[trigger] rows_justified(
                rows@,
                cs.view_clauses(),
                cs.n as int,
                cfg.max_increment as int,
                found,
            ),
{
    let n = cs.n;
    let mut grown = ConstraintSet::new(n, clone_clauses(&cs.clauses));
    proof {
        assert forall|j: int|
            0 <= j < grown.clauses@.len() implies (#[trigger] grown.clauses@[j])@.len() > 0 by {
            assert(grown.clauses@[j]@ == grown.view_clauses()[j]);
            assert(cs.clauses@[j]@ == cs.view_clauses()[j]);
            assert(grown.view_clauses() == cs.view_clauses());
        }
        assert forall|j: int, k: int|
            0 <= j < grown.clauses@.len() && 0 <= k < (#[trigger] grown.clauses@[j])@.len() implies
            (#[trigger] grown.clauses@[j]@[k]).0 < grown.n by {
            assert(grown.clauses@[j]@ == grown.view_clauses()[j]);
            assert(cs.clauses@[j]@ == cs.view_clauses()[j]);
            assert(grown.view_clauses() == cs.view_clauses());
            assert(cs.clauses@[j]@[k].0 < cs.n);
        }
        assert(grown.wf());
        assert(grown.view_clauses() == cs.view_clauses());
    }
    let ghost mut found: Seq<Seq<bool>> = Seq::empty();
    proof {
        assert(blocked_set(cs.view_clauses(), found) =~= cs.view_clauses());
    }
    let mut rows: Vec<Vec<u64>> = Vec::new();
    let mut i: usize = 0;
    while i < n
        invariant
            0 <= i <= n,
            rows@.len() == i,
            forall|d: int| 0 <= d < i ==> (#[trigger] rows@[d])@.len() == 0,
        decreases n - i,
    {
        rows.push(Vec::new());
        i = i + 1;
    }
    let mut inc: usize = 0;
    while inc < cfg.max_increment
        invariant
            cs.wf(),
            grown.wf(),
            grown.n == n == cs.n,
            cfg.max_iter > 0,
            cfg.max_shuffle > 0,
            0 <= inc <= cfg.max_increment,
            rows@.len() == n,
            forall|d: int| 0 <= d < n ==> (#[trigger] rows@[d])@.len() == inc,
            found.len() == inc,
            grown.view_clauses() == blocked_set(cs.view_clauses(), found),
        decreases cfg.max_increment - inc,
    {
        let seed_state = generate(n, rng);
        let hints = hints_from_assignment(&seed_state);
        proof {
            lemma_canonical_hints_shape(seed_state@);
        }
        let mut ans = match solve_oracle(&grown, &hints) {
            Ok(o) => o.assignment,
            Err(_) => {
                // solution space exhausted: stop silently with what stands
                proof {
                    assert(rows_all_len(rows@, inc as int));
                    assert(blocking_rows_ok(rows@, n as int, cfg.max_increment as int));
                    assert(rows_justified(
                        rows@,
                        cs.view_clauses(),
                        n as int,
                        cfg.max_increment as int,
                        found,
                    ));
                }
                return rows;
            },
        };
        grown.push_blocking(&ans);
        proof {
            let bc = blocking_clause(ans@);
            assert(found.push(ans@).map_values(|t: Seq<bool>| blocking_clause(t)) =~= found
                .map_values(|t: Seq<bool>| blocking_clause(t)).push(bc));
            assert(blocked_set(cs.view_clauses(), found.push(ans@)) =~= blocked_set(
                cs.view_clauses(),
                found,
            ).push(bc));
            found = found.push(ans@);
            assert(grown.view_clauses() == blocked_set(cs.view_clauses(), found));
        }
        let mut sums: Vec<u64> = Vec::new();
        let mut z: usize = 0;
        while z < n
            invariant
                0 <= z <= n,
                sums@.len() == z,
            decreases n - z,
        {
            sums.push(0);
            z = z + 1;
        }
        let mut sh: usize = 0;
        while sh < cfg.max_shuffle
            invariant
                cs.wf(),
                n == cs.n,
                cfg.max_iter > 0,
                0 <= sh <= cfg.max_shuffle,
                sums@.len() == n,
                ans@.len() == n,
            decreases cfg.max_shuffle - sh,
        {
            let order = shuffled_indices(n, rng);
            let mut d: usize = 0;
            while d < n
                invariant
                    cs.wf(),
                    n == cs.n,
                    cfg.max_iter > 0,
                    0 <= d <= n,
                    order@.len() == n,
                    forall|k: int| 0 <= k < n ==> (#[trigger] order@[k]).1 < n,
                    sums@.len() == n,
                    ans@.len() == n,
                decreases n - d,
            {
                let mut total: u64 = 0;
                let mut t: usize = 0;
                while t < cfg.max_iter
                    invariant
                        cs.wf(),
                        n == cs.n,
                        0 <= t <= cfg.max_iter,
                        ans@.len() == n,
                    decreases cfg.max_iter - t,
                {
                    let step_hints = hints_from_assignment(&ans);
                    proof {
                        lemma_canonical_hints_shape(ans@);
                    }
                    let (_, us) = solve_timed(cs, &step_hints);
                    total = sat_add(total, us);
                    t = t + 1;
                }
                let avg = total / (cfg.max_iter as u64);
                let cur = sums[d];
                sums.set(d, sat_add(cur, avg));
                let idx = order[d].1;
                let flipped = !ans[idx];
                ans.set(idx, flipped);
                d = d + 1;
            }
            sh = sh + 1;
        }
        let mut d2: usize = 0;
        while d2 < n
            invariant
                0 <= d2 <= n,
                sums@.len() == n,
                rows@.len() == n,
                cfg.max_shuffle > 0,
                forall|k: int| d2 <= k < n ==> (#[trigger] rows@[k])@.len() == inc,
                forall|k: int| 0 <= k < d2 ==> (#[trigger] rows@[k])@.len() == inc + 1,
            decreases n - d2,
        {
            let mean = sums[d2] / (cfg.max_shuffle as u64);
            let row: &mut Vec<u64> = &mut rows[d2];
            row.push(mean);
            d2 = d2 + 1;
        }
        inc = inc + 1;
    }
    proof {
        assert(rows_all_len(rows@, cfg.max_increment as int));
        assert(blocking_rows_ok(rows@, n as int, cfg.max_increment as int));
        assert(rows_justified(
            rows@,
            cs.view_clauses(),
            n as int,
            cfg.max_increment as int,
            found,
        ));
    }
    rows
}

} // verus!
