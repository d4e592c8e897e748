//! A measurement harness for studying how the cost of solving a boolean
//! constraint instance depends on the Hamming distance between a supplied
//! starting assignment and the solution the engine eventually returns.
//!
//! The components, leaves first: assignment generation (`rng`), controlled
//! perturbation (`perturb`), the Hamming distance metric (`metric`),
//! clauses with blocking-clause accumulation (`cnf`), the solver oracle
//! adapter (`engine`, `clock`, `oracle`), distance-bucketed aggregation
//! (`aggregate`), and the experiment drivers composing them (`driver`).

pub mod aggregate;
pub mod clock;
pub mod cnf;
pub mod driver;
pub mod engine;
pub mod metric;
pub mod oracle;
pub mod perturb;
pub mod rng;
