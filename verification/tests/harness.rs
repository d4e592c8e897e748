use distprof::aggregate::{sat_add, Buckets, CostSample};
use distprof::cnf::ConstraintSet;
use distprof::driver::{anneal_round, run_blocking, run_walk, walk_round, BlockingConfig, WalkState};
use distprof::metric::{decide, distance, Ternary};
use distprof::oracle::{hints_from_assignment, solve_oracle, SolveError};
use distprof::perturb::perturb;
use distprof::rng::{generate, rng_from_seed};

/// The formula (x0) AND (NOT x0 OR x1): its only solution is x0=x1=true.
fn chain_formula() -> ConstraintSet {
    ConstraintSet::new(2, vec![vec![(0, true)], vec![(0, false), (1, true)]])
}

#[test]
fn distance_symmetric_and_bounded() {
    let a = vec![true, false, true, true];
    let b = vec![false, false, true, false];
    assert_eq!(distance(&a, &b), distance(&b, &a));
    assert_eq!(distance(&a, &b), 2);
    assert_eq!(distance(&a, &a), 0);
    assert!(distance(&a, &b) <= a.len());
}

#[test]
fn distance_empty() {
    let a: Vec<bool> = vec![];
    let b: Vec<bool> = vec![];
    assert_eq!(distance(&a, &b), 0);
}

#[test]
fn perturb_exact_distance() {
    let mut rng = rng_from_seed(7);
    let a = vec![false, true, false, true, false];
    for flips in 0..=a.len() {
        let p = perturb(&a, flips, &mut rng);
        assert_eq!(p.len(), a.len());
        assert_eq!(distance(&a, &p), flips);
    }
}

#[test]
fn perturb_zero_flips_is_identity() {
    for seed in [0u64, 1, 42, 12345] {
        let mut rng = rng_from_seed(seed);
        let a = vec![false, false, false];
        let p = perturb(&a, 0, &mut rng);
        assert_eq!(p, a);
    }
}

#[test]
fn perturb_all_flips_inverts_everything() {
    let mut rng = rng_from_seed(3);
    let a = vec![true, false, true];
    let p = perturb(&a, 3, &mut rng);
    assert_eq!(p, vec![false, true, false]);
}

#[test]
fn generate_has_requested_length() {
    let mut rng = rng_from_seed(11);
    assert_eq!(generate(0, &mut rng).len(), 0);
    assert_eq!(generate(1, &mut rng).len(), 1);
    assert_eq!(generate(32, &mut rng).len(), 32);
    assert_eq!(generate(70, &mut rng).len(), 70);
}

#[test]
fn generate_is_reproducible_under_a_seed() {
    let mut r1 = rng_from_seed(99);
    let mut r2 = rng_from_seed(99);
    assert_eq!(generate(50, &mut r1), generate(50, &mut r2));
}

#[test]
fn decide_rejects_undecided() {
    let m = vec![Ternary::True, Ternary::Undecided];
    assert!(decide(&m).is_none());
    let m2 = vec![Ternary::True, Ternary::False];
    assert_eq!(decide(&m2), Some(vec![true, false]));
}

#[test]
fn blocking_grows_by_exactly_one() {
    let mut cs = chain_formula();
    assert_eq!(cs.len(), 2);
    cs.push_blocking(&vec![true, true]);
    assert_eq!(cs.len(), 3);
    cs.push_blocking(&vec![false, true]);
    assert_eq!(cs.len(), 4);
}

#[test]
fn blocking_clause_negates_the_solution() {
    let mut cs = chain_formula();
    let c = cs.push_blocking(&vec![true, true]);
    assert_eq!(c, vec![(0, false), (1, false)]);
    assert_eq!(cs.clauses[2], vec![(0, false), (1, false)]);
}

#[test]
fn buckets_keep_count_and_order() {
    let mut b = Buckets::new(3);
    let s1 = CostSample { distance: 2, cost: 10 };
    let s2 = CostSample { distance: 1, cost: 20 };
    let s3 = CostSample { distance: 0, cost: 30 };
    b.record(2, s1);
    b.record(2, s2);
    b.record(1, s3);
    assert_eq!(b.count(2), 2);
    assert_eq!(b.count(1), 1);
    assert_eq!(b.count(0), 0);
    assert_eq!(b.data[2], vec![s1, s2]);
    assert_eq!(b.data[1], vec![s3]);
}

#[test]
fn solve_finds_the_unique_solution() {
    let cs = chain_formula();
    let hints = hints_from_assignment(&vec![false, false]);
    let o = solve_oracle(&cs, &hints).expect("the formula is satisfiable");
    assert_eq!(o.assignment, vec![true, true]);
    assert_eq!(distance(&vec![false, false], &o.assignment), 2);
}

#[test]
fn solve_ignores_hint_direction_for_correctness() {
    let cs = chain_formula();
    for hint_state in [
        vec![false, false],
        vec![false, true],
        vec![true, false],
        vec![true, true],
    ] {
        let hints = hints_from_assignment(&hint_state);
        let o = solve_oracle(&cs, &hints).expect("the formula is satisfiable");
        assert_eq!(o.assignment, vec![true, true]);
    }
}

#[test]
fn blocking_the_only_solution_makes_it_unsatisfiable() {
    let mut cs = chain_formula();
    cs.push_blocking(&vec![true, true]);
    let hints = hints_from_assignment(&vec![false, false]);
    assert_eq!(solve_oracle(&cs, &hints), Err(SolveError::Unsatisfiable));
}

#[test]
fn unsatisfiable_formula_reports_the_error() {
    let cs = ConstraintSet::new(
        2,
        vec![
            vec![(0, true), (1, true)],
            vec![(0, true), (1, false)],
            vec![(0, false), (1, true)],
            vec![(0, false), (1, false)],
        ],
    );
    let hints = hints_from_assignment(&vec![false, false]);
    assert_eq!(solve_oracle(&cs, &hints), Err(SolveError::Unsatisfiable));
}

#[test]
fn anneal_round_pairs_distance_with_energy() {
    let cs = chain_formula();
    let (sol, sample) = anneal_round(&cs, &vec![false, false], 7).expect("satisfiable");
    assert_eq!(sol, vec![true, true]);
    assert_eq!(sample.distance, 2);
    assert_eq!(sample.cost, 7);
}

#[test]
fn walk_first_round_records_nothing() {
    let cs = chain_formula();
    let mut rng = rng_from_seed(5);
    let mut buckets = Buckets::new(2);
    let st = WalkState { state: vec![false, false], pending: None };
    let ns = walk_round(&cs, st, &mut buckets, &mut rng).expect("satisfiable");
    assert_eq!(buckets.count(0) + buckets.count(1), 0);
    assert!(ns.pending.is_some());
}

#[test]
fn walk_records_under_the_previous_target() {
    let cs = chain_formula();
    let mut rng = rng_from_seed(5);
    let mut buckets = Buckets::new(2);
    let st = WalkState { state: vec![false, false], pending: None };
    let ns = walk_round(&cs, st, &mut buckets, &mut rng).expect("satisfiable");
    let target = ns.pending.expect("a target was chosen");
    let ns2 = walk_round(&cs, ns, &mut buckets, &mut rng).expect("satisfiable");
    assert_eq!(buckets.count(target), 1);
    assert_eq!(buckets.count(0) + buckets.count(1), 1);
    let sample = buckets.data[target][0];
    assert!(sample.distance <= 2);
    assert!(ns2.pending.is_some());
}

#[test]
fn walk_run_records_one_sample_per_round_after_the_first() {
    let cs = chain_formula();
    let mut rng = rng_from_seed(8);
    let b = run_walk(&cs, 5, &mut rng).expect("satisfiable");
    assert_eq!(b.data.len(), 2);
    let total: usize = b.data.iter().map(|v| v.len()).sum();
    assert_eq!(total, 4);
}

#[test]
fn blocking_run_stops_when_solutions_are_exhausted() {
    let cs = chain_formula();
    let cfg = BlockingConfig { max_increment: 5, max_shuffle: 2, max_iter: 1 };
    let mut rng = rng_from_seed(13);
    let rows = run_blocking(&cs, &cfg, &mut rng);
    assert_eq!(rows.len(), 2);
    // the single solution is enumerated once, then the space is exhausted
    assert_eq!(rows[0].len(), 1);
    assert_eq!(rows[1].len(), 1);
}

#[test]
fn unit_clause_interaction_is_unsatisfiable() {
    // x0; (NOT x0 OR x1); NOT x1 — the unit clauses force x0 true and x1
    // false, and the middle clause then has no satisfied literal
    let cs = ConstraintSet::new(
        2,
        vec![vec![(0, true)], vec![(0, false), (1, true)], vec![(1, false)]],
    );
    let hints = hints_from_assignment(&vec![false, false]);
    assert_eq!(solve_oracle(&cs, &hints), Err(SolveError::Unsatisfiable));
}

#[test]
fn duplicate_unit_clauses_are_accepted() {
    let cs = ConstraintSet::new(2, vec![vec![(0, true)], vec![(0, true)], vec![(1, false)]]);
    let hints = hints_from_assignment(&vec![false, false]);
    let o = solve_oracle(&cs, &hints).expect("satisfiable");
    assert_eq!(o.assignment, vec![true, false]);
}

#[test]
fn contradictory_unit_clauses_are_unsatisfiable() {
    let cs = ConstraintSet::new(1, vec![vec![(0, true)], vec![(0, false)]]);
    let hints = hints_from_assignment(&vec![false]);
    assert_eq!(solve_oracle(&cs, &hints), Err(SolveError::Unsatisfiable));
}

#[test]
fn blocking_run_on_one_variable_enumerates_the_sole_solution() {
    let cs = ConstraintSet::new(1, vec![vec![(0, true)]]);
    let cfg = BlockingConfig { max_increment: 3, max_shuffle: 1, max_iter: 1 };
    let mut rng = rng_from_seed(21);
    let rows = run_blocking(&cs, &cfg, &mut rng);
    assert_eq!(rows.len(), 1);
    // the sole solution is found once; blocking it exhausts the space
    assert_eq!(rows[0].len(), 1);
}

#[test]
fn sat_add_saturates() {
    assert_eq!(sat_add(1, 2), 3);
    assert_eq!(sat_add(u64::MAX, 1), u64::MAX);
    assert_eq!(sat_add(u64::MAX - 1, 1), u64::MAX);
}
