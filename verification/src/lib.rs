//! Verified combinatorial core of the emergent-geometry simulator: the
//! Mulberry32 generator, qubit-label permutations, lattice symmetries and
//! distances, Pauli-string algebra and the bookkeeping around hold-out checks.

pub mod rng;
pub mod perm;
pub mod heap;
pub mod lattice;
pub mod pauli;
pub mod stabilizer;
pub mod text;
pub mod sites;
pub mod factorization;
pub mod holdout;
pub mod refinement;
pub mod battery;
