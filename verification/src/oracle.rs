//! The solver oracle adapter: solving one constraint set with per-variable
//! polarity hints and a cost measurement.
//!
//! The engine release installed here offers no entry point that primes its
//! decision polarity directly. Its search starts from the all-false
//! polarity, so the adapter realizes a hint by flipping the sign of every
//! hinted-true variable throughout the formula, solving, and flipping the
//! returned model back: the engine's initial decision order then matches
//! the hinted assignment, and the returned solution is unchanged — hints
//! steer search order only, never correctness, which the flip lemma below
//! proves.

use vstd::prelude::*;
use crate::clock::{elapsed_micros, instant_now};
use crate::cnf::{all_sat, clause_sat, lit_sat, unsatisfiable, Clause, ConstraintSet};
use crate::engine::{engine_add_clause, engine_empty, engine_model, engine_solve, EngineStatus};
use crate::metric::decide;

verus! {

/// A per-variable search preference: try `positive` for variable `var`
/// first; a higher `priority` would be consulted earlier where an engine
/// ranks hints (zero is the lowest rank).
#[derive(Clone, Copy, PartialEq, Eq, Structural, Debug)]
pub struct PolarityHint {
    pub var: usize,
    pub positive: bool,
    pub priority: u32,
}

/// One hint per variable, in variable order, preferring the entries of
/// `a`, all at the lowest priority.
pub open spec fn canonical_hints(a: Seq<bool>) -> Seq<PolarityHint> {
    Seq::new(a.len(), |i: int| PolarityHint { var: i as usize, positive: a[i], priority: 0u32 })
}

/// The hint vector that primes a solve with assignment `a`.
pub fn hints_from_assignment(a: &Vec<bool>) -> (r: Vec<PolarityHint>)
    ensures
        r@ == canonical_hints(a@),
{
    let n = a.len();
    let mut r: Vec<PolarityHint> = Vec::new();
    let mut i: usize = 0;
    while i < n
        invariant
            n == a@.len(),
            0 <= i <= n,
            r@.len() == i,
            forall|k: int|
                0 <= k < i ==> r@[k] == (PolarityHint {
                    var: k as usize,
                    positive: a@[k],
                    priority: 0u32,
                }),
        decreases n - i,
    {
        r.push(PolarityHint { var: i, positive: a[i], priority: 0 });
        i = i + 1;
    }
    proof {
        assert(r@ =~= canonical_hints(a@));
    }
    r
}

/// A clause with the sign of every hinted-true variable flipped.
pub open spec fn flip_lits(c: Seq<(usize, bool)>, h: Seq<bool>) -> Seq<(usize, bool)> {
    Seq::new(c.len(), |k: int| (c[k].0, c[k].1 != h[c[k].0 as int]))
}

/// Every clause flipped under the hint polarity vector `h`.
pub open spec fn flip_all(cs: Seq<Seq<(usize, bool)>>, h: Seq<bool>) -> Seq<Seq<(usize, bool)>> {
    Seq::new(cs.len(), |j: int| flip_lits(cs[j], h))
}

/// The assignment with every hinted-true entry inverted.
pub open spec fn flip_assign(a: Seq<bool>, h: Seq<bool>) -> Seq<bool> {
    Seq::new(a.len(), |i: int| a[i] != h[i])
}

/// Flipping under the same hint vector twice gives the assignment back.
pub proof fn lemma_flip_involution(a: Seq<bool>, h: Seq<bool>)
    requires
        a.len() == h.len(),
    ensures
        flip_assign(flip_assign(a, h), h) == a,
{
    assert(flip_assign(flip_assign(a, h), h) =~= a);
}

/// Sign-flipping is a satisfaction-preserving renaming: an assignment
/// satisfies the flipped clauses exactly when its flipped self satisfies
/// the original clauses. Hence hints never change which solutions exist.
pub proof fn lemma_flip_sat(a: Seq<bool>, h: Seq<bool>, cs: Seq<Seq<(usize, bool)>>)
    requires
        a.len() == h.len(),
        forall|j: int, k: int|
            0 <= j < cs.len() && 0 <= k < (#[trigger] cs[j]).len() ==> (#[trigger] cs[j][k]).0
                < h.len(),
    ensures
        all_sat(a, flip_all(cs, h)) <==> all_sat(flip_assign(a, h), cs),
{
    let fa = flip_assign(a, h);
    assert forall|j: int| 0 <= j < cs.len() implies (clause_sat(a, flip_all(cs, h)[j])
        <==> clause_sat(fa, cs[j])) by {
        let c = cs[j];
        let fc = flip_lits(c, h);
        assert(flip_all(cs, h)[j] == fc);
        if clause_sat(a, fc) {
            let k = choose|k: int| 0 <= k < fc.len() && lit_sat(a, fc[k]);
            let v = c[k].0;
            assert(fc[k] == (v, c[k].1 != h[v as int]));
            assert(fa[v as int] == (a[v as int] != h[v as int]));
            assert(lit_sat(fa, c[k]));
        }
        if clause_sat(fa, c) {
            let k = choose|k: int| 0 <= k < c.len() && lit_sat(fa, c[k]);
            let v = c[k].0;
            assert(fa[v as int] == (a[v as int] != h[v as int]));
            assert(fc[k] == (v, c[k].1 != h[v as int]));
            assert(lit_sat(a, fc[k]));
        }
    }
    if all_sat(a, flip_all(cs, h)) {
        assert forall|j: int| 0 <= j < cs.len() implies clause_sat(fa, cs[j]) by {
            assert(clause_sat(a, flip_all(cs, h)[j]));
        }
    }
    if all_sat(fa, cs) {
        assert forall|j: int| 0 <= j < flip_all(cs, h).len() implies clause_sat(
            a,
            flip_all(cs, h)[j],
        ) by {
            assert(clause_sat(fa, cs[j]));
        }
    }
}

/// The clause list with every sign flipped under `h`, literal for literal.
fn flip_clauses(cs: &Vec<Clause>, h: &Vec<bool>) -> (r: Vec<Clause>)
    requires
        forall|j: int, k: int|
            0 <= j < cs@.len() && 0 <= k < (#[trigger] cs@[j])@.len() ==> (#[trigger] cs@[j]@[k]).0
                < h@.len(),
    ensures
        r@.map_values(|c: Clause| c@) == flip_all(cs@.map_values(|c: Clause| c@), h@),
{
    let m = cs.len();
    let mut r: Vec<Clause> = Vec::new();
    let mut j: usize = 0;
    while j < m
        invariant
            m == cs@.len(),
            0 <= j <= m,
            r@.len() == j,
            forall|t: int, k: int|
                0 <= t < cs@.len() && 0 <= k < (#[trigger] cs@[t])@.len() ==> (#[trigger] cs@[t]@[
                    k
                ]).0 < h@.len(),
            forall|t: int| 0 <= t < j ==> (#[trigger] r@[t])@ == flip_lits(cs@[t]@, h@),
        decreases m - j,
    {
        let c = &cs[j];
        let len = c.len();
        let mut fc: Clause = Vec::new();
        let mut k: usize = 0;
        while k < len
            invariant
                len == c@.len(),
                0 <= k <= len,
                fc@.len() == k,
                forall|t: int| 0 <= t < c@.len() ==> (#[trigger] c@[t]).0 < h@.len(),
                forall|t: int|
                    0 <= t < k ==> fc@[t] == (c@[t].0, c@[t].1 != h@[c@[t].0 as int]),
            decreases len - k,
        {
            let (v, p) = c[k];
            fc.push((v, p != h[v]));
            k = k + 1;
        }
        proof {
            assert(fc@ =~= flip_lits(c@, h@));
        }
        r.push(fc);
        j = j + 1;
    }
    proof {
        assert(r@.map_values(|c: Clause| c@) =~= flip_all(cs@.map_values(|c: Clause| c@), h@));
    }
    r
}

/// The assignment with every hinted-true entry inverted.
fn flip_assignment(a: &Vec<bool>, h: &Vec<bool>) -> (r: Vec<bool>)
    requires
        a@.len() == h@.len(),
    ensures
        r@ == flip_assign(a@, h@),
{
    let n = a.len();
    let mut r: Vec<bool> = Vec::new();
    let mut i: usize = 0;
    while i < n
        invariant
            n == a@.len() == h@.len(),
            0 <= i <= n,
            r@.len() == i,
            forall|k: int| 0 <= k < i ==> r@[k] == (a@[k] != h@[k]),
        decreases n - i,
    {
        r.push(a[i] != h[i]);
        i = i + 1;
    }
    proof {
        assert(r@ =~= flip_assign(a@, h@));
    }
    r
}

/// Why a solve returned no assignment.
#[derive(Clone, Copy, PartialEq, Eq, Structural, Debug)]
pub enum SolveError {
    /// No satisfying assignment exists under the current constraint set.
    /// Fatal for the run: either the blocking clauses exhausted the
    /// solution space or the constraints are wrong.
    Unsatisfiable,
    /// The engine broke its interface contract: an undecided value stood
    /// in a final model, or it stopped although no time limit was set.
    /// The solve entry points prove this variant is never returned.
    InvariantViolation,
}

/// A found assignment together with the measured cost of finding it.
#[derive(Debug, PartialEq, Eq)]
pub struct SolveOutcome {
    /// The satisfying assignment, one value per variable.
    pub assignment: Vec<bool>,
    /// Wall-clock duration of the solve call, in microseconds.
    pub micros: u64,
}

/// Solves `cs` with one polarity hint per variable and reports the solve
/// call's wall-clock duration whatever the outcome was. On success the
/// returned assignment has one value per variable and satisfies every
/// clause of `cs`, whatever the hints were. The hints are realized as a
/// sign-flip renaming (see above), so they steer only the engine's search
/// order.
pub fn solve_timed(cs: &ConstraintSet, hints: &Vec<PolarityHint>) -> (r: (
    Result<Vec<bool>, SolveError>,
    u64,
))
    requires
        cs.wf(),
        hints@.len() == cs.n,
        forall|i: int| 0 <= i < hints@.len() ==> (#[trigger] hints@[i]).var == i,
    ensures
        r.0 matches Ok(a) ==> a@.len() == cs.n && all_sat(a@, cs.view_clauses()),
        r.0 matches Err(e) ==> e == SolveError::Unsatisfiable,
        r.0 is Err ==> unsatisfiable(cs.view_clauses(), cs.n as int),
{
    let n = cs.n;
    let mut h: Vec<bool> = Vec::new();
    let mut i: usize = 0;
    while i < n
        invariant
            n == cs.n == hints@.len(),
            0 <= i <= n,
            h@.len() == i,
            forall|k: int| 0 <= k < i ==> h@[k] == (#[trigger] hints@[k]).positive,
        decreases n - i,
    {
        h.push(hints[i].positive);
        i = i + 1;
    }
    proof {
        assert forall|j: int, k: int|
            0 <= j < cs.clauses@.len() && 0 <= k < (#[trigger] cs.clauses@[j])@.len() implies (
        #[trigger] cs.clauses@[j]@[k]).0 < h@.len() by {}
    }
    let flipped = flip_clauses(&cs.clauses, &h);
    let fcs = ConstraintSet::new(n, flipped);
    proof {
        let orig = cs.view_clauses();
        assert(fcs.view_clauses() =~= flip_all(orig, h@));
        assert forall|j: int|
            0 <= j < fcs.clauses@.len() implies (#[trigger] fcs.clauses@[j])@.len() > 0 by {
            assert(fcs.view_clauses()[j] == flip_lits(orig[j], h@));
        }
        assert forall|j: int, k: int|
            0 <= j < fcs.clauses@.len() && 0 <= k < (#[trigger] fcs.clauses@[j])@.len() implies (
        #[trigger] fcs.clauses@[j]@[k]).0 < fcs.n by {
            assert(fcs.view_clauses()[j] == fcs.clauses@[j]@);
            assert(fcs.view_clauses()[j] == flip_lits(orig[j], h@));
            assert(orig[j] == cs.clauses@[j]@);
            assert(fcs.clauses@[j]@[k] == (orig[j][k].0, orig[j][k].1 != h@[orig[j][k].0 as int]));
            assert(cs.clauses@[j]@[k].0 < cs.n);
        }
        assert(fcs.wf());
    }
    let mut eng = engine_empty(n);
    let cl_count = fcs.clauses.len();
    let mut j: usize = 0;
    while j < cl_count
        invariant
            cl_count == fcs.clauses@.len(),
            0 <= j <= cl_count,
            fcs.wf(),
            fcs.n == n,
            crate::engine::engine_var_count(eng) == n,
            crate::engine::engine_clauses(eng) == fcs.view_clauses().subrange(0, j as int),
            crate::engine::engine_unsolved(eng),
        decreases cl_count - j,
    {
        proof {
            assert(fcs.view_clauses()[j as int] == fcs.clauses@[j as int]@);
        }
        engine_add_clause(&mut eng, &fcs.clauses[j]);
        proof {
            assert(crate::engine::engine_clauses(eng) =~= fcs.view_clauses().subrange(
                0,
                j + 1,
            ));
        }
        j = j + 1;
    }
    proof {
        assert(crate::engine::engine_clauses(eng) =~= fcs.view_clauses());
    }
    let t0 = instant_now();
    let st = engine_solve(&mut eng);
    let micros = elapsed_micros(&t0);
    match st {
        EngineStatus::Sat => {
            let m = engine_model(&eng);
            match decide(&m) {
                Some(raw) => {
                    let a = flip_assignment(&raw, &h);
                    proof {
                        lemma_flip_sat(raw@, h@, cs.view_clauses());
                    }
                    (Ok(a), micros)
                },
                None => (Err(SolveError::InvariantViolation), micros),
            }
        },
        EngineStatus::Unsat => {
            proof {
                assert forall|b: Seq<bool>| b.len() == cs.n implies !all_sat(
                    b,
                    cs.view_clauses(),
                ) by {
                    let fb = flip_assign(b, h@);
                    assert(fb.len() == cs.n);
                    assert(!all_sat(fb, flip_all(cs.view_clauses(), h@)));
                    lemma_flip_sat(fb, h@, cs.view_clauses());
                    lemma_flip_involution(b, h@);
                }
            }
            (Err(SolveError::Unsatisfiable), micros)
        },
        EngineStatus::Stopped => (Err(SolveError::InvariantViolation), micros),
    }
}

/// Solves `cs` with one polarity hint per variable: on success, the
/// satisfying assignment together with the measured cost of finding it.
pub fn solve_oracle(cs: &ConstraintSet, hints: &Vec<PolarityHint>) -> (r: Result<
    SolveOutcome,
    SolveError,
>)
    requires
        cs.wf(),
        hints@.len() == cs.n,
        forall|i: int| 0 <= i < hints@.len() ==> (#[trigger] hints@[i]).var == i,
    ensures
        r matches Ok(o) ==> o.assignment@.len() == cs.n && all_sat(
            o.assignment@,
            cs.view_clauses(),
        ),
        r matches Err(e) ==> e == SolveError::Unsatisfiable,
        r is Err ==> unsatisfiable(cs.view_clauses(), cs.n as int),
{
    let (outcome, micros) = solve_timed(cs, hints);
    match outcome {
        Ok(a) => Ok(SolveOutcome { assignment: a, micros }),
        Err(e) => Err(e),
    }
}

} // verus!
