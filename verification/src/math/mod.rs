pub mod combinatorics;
pub mod factorial;
pub mod permutation;
pub mod sums;

pub use combinatorics::{binomial_coefficient, binomial_coefficients};
pub use factorial::{factorial, factorial_n_to_r};
pub use permutation::permutation;
pub mod polynomial;

pub use polynomial::Polynomial;
