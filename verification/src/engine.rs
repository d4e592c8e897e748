//! Trusted boundary around the external solving engine. Everything here
//! either declares an engine item or states, over the names below, what the
//! engine's source shows; nothing of the harness's own logic stands here.
//!
//! Clauses are fed one by one through the engine's `add_clause`, which
//! evaluates every literal before acting on it: satisfied clauses are
//! skipped, false literals removed, an emptied clause records the
//! unsatisfiable status, and a clause reduced to one literal is enqueued
//! only while its variable is unassigned. The engine's constructor is
//! given no clauses, so its shortcut that enqueues original one-literal
//! clauses without those checks is never taken.

use vstd::prelude::*;
use crate::cnf::{all_sat, unsatisfiable, Clause, ConstraintSet};
use crate::metric::{decided_values, fully_decided, Ternary};

verus! {

#[verifier::external_type_specification]
#[verifier::external_body]
/// The external solver: a conflict-driven clause-learning engine. A value
/// of it is opaque; the names below stand for what it holds.
pub struct ExSolver(screwsat::solver::Solver);

/// The number of variables the engine was created for.
pub uninterp spec fn engine_var_count(s: screwsat::solver::Solver) -> nat;

/// The clauses given to the engine so far, as literal sequences.
pub uninterp spec fn engine_clauses(s: screwsat::solver::Solver) -> Seq<Seq<(usize, bool)>>;

/// The per-variable model the engine holds after a successful solve.
pub uninterp spec fn engine_model_of(s: screwsat::solver::Solver) -> Seq<Option<bool>>;

/// The engine has not been asked to solve yet: it holds no stored answer
/// beyond what clause loading recorded, and its assignment trail holds
/// only top-level consequences of the loaded clauses. Clauses may be
/// added, and a solve answered, only in this state: the engine's
/// `add_clause` evaluates literals against the current trail and assumes
/// the top decision level, and its `solve` returns a stored answer
/// without searching, so neither call means the same thing on an engine
/// that has already solved.
pub uninterp spec fn engine_unsolved(s: screwsat::solver::Solver) -> bool;

/// What a solve call reported.
#[derive(Clone, Copy, PartialEq, Eq, Structural, Debug)]
pub enum EngineStatus {
    /// A satisfying assignment was found.
    Sat,
    /// No satisfying assignment exists.
    Unsat,
    /// The engine stopped searching without an answer. A solve without a
    /// time limit never reports this; see `engine_solve`.
    Stopped,
}

/// Relies on screwsat's `Solver::new`: an engine over `n` variables
/// holding no clauses yet. The cap keeps the engine's literal encoding,
/// one `u32` holding variable and sign, in range.
#[verifier::external_body]
pub fn engine_empty(n: usize) -> (s: screwsat::solver::Solver)
    requires
        n <= crate::cnf::VAR_LIMIT,
    ensures
        engine_var_count(s) == n,
        engine_clauses(s) == Seq::<Seq<(usize, bool)>>::empty(),
        engine_unsolved(s),
{
    screwsat::solver::Solver::new(n, &[])
}

/// Relies on screwsat's `add_clause`, called before any solve: the engine
/// afterwards stands for its previous clauses and this one. Its source
/// evaluates every literal before using it and enqueues a derived
/// one-literal clause only while unassigned, so on a not-yet-solved
/// engine — whose trail holds only top-level consequences — the call
/// neither panics nor corrupts the assignment, for any nonempty clause
/// over in-range variables. The stored clause keeps at most two literals
/// per variable after simplification, and the variable cap keeps that
/// within the 27-bit size field of the engine's clause header.
#[verifier::external_body]
pub fn engine_add_clause(s: &mut screwsat::solver::Solver, c: &Clause)
    requires
        engine_unsolved(*old(s)),
        engine_var_count(*old(s)) <= crate::cnf::VAR_LIMIT,
        c@.len() > 0,
        forall|k: int| 0 <= k < c@.len() ==> (#[trigger] c@[k]).0 < engine_var_count(*old(s)),
    ensures
        engine_var_count(*final (s)) == engine_var_count(*old(s)),
        engine_clauses(*final (s)) == engine_clauses(*old(s)).push(c@),
        engine_unsolved(*final (s)),
{
    let lits: Vec<screwsat::solver::Lit> = c
        .iter()
        .map(|&(v, pos): &(usize, bool)| screwsat::solver::Lit::new(v as u32, pos))
        .collect();
    s.add_clause(&lits);
}

/// Relies on screwsat's `Solver::solve` with no time limit, on an engine
/// that has not solved before (a stored answer would be returned without
/// searching, so an answer is only meaningful once). Its source shows:
/// without a time limit the search loop runs until it has an answer, and
/// an answer stored by clause loading is itself `Unsat`, so `Stopped`
/// never comes back. `Sat` means the engine holds a model of one value
/// per variable, every value decided, that satisfies the clauses it was
/// given; `Unsat` means it found, by top-level conflict or exhausted
/// search, that no assignment over its variables satisfies them. Solving
/// never changes which problem the engine stands for.
#[verifier::external_body]
pub fn engine_solve(s: &mut screwsat::solver::Solver) -> (st: EngineStatus)
    requires
        engine_unsolved(*old(s)),
    ensures
        engine_var_count(*final (s)) == engine_var_count(*old(s)),
        engine_clauses(*final (s)) == engine_clauses(*old(s)),
        !(st is Stopped),
        st is Sat ==> engine_model_of(*final (s)).len() == engine_var_count(*old(s)),
        st is Sat ==> fully_decided(engine_model_of(*final (s))),
        st is Sat ==> all_sat(
            decided_values(engine_model_of(*final (s))),
            engine_clauses(*old(s)),
        ),
        st is Unsat ==> unsatisfiable(
            engine_clauses(*old(s)),
            engine_var_count(*old(s)) as int,
        ),
{
    match s.solve(None) {
        screwsat::solver::Status::Sat => EngineStatus::Sat,
        screwsat::solver::Status::Unsat => EngineStatus::Unsat,
        screwsat::solver::Status::Indeterminate => EngineStatus::Stopped,
    }
}

/// Relies on screwsat's public `models` field: the engine's model, one
/// ternary value per variable.
#[verifier::external_body]
pub fn engine_model(s: &screwsat::solver::Solver) -> (m: Vec<Ternary>)
    ensures
        m@.map_values(|t: Ternary| t.as_opt()) == engine_model_of(*s),
{
    s.models
        .iter()
        .map(
            |b: &screwsat::solver::LitBool|
                match b {
                    screwsat::solver::LitBool::True => Ternary::True,
                    screwsat::solver::LitBool::False => Ternary::False,
                    screwsat::solver::LitBool::Undef => Ternary::Undecided,
                },
        )
        .collect()
}

} // verus!
