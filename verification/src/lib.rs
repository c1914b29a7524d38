//! Discrete-time motion-control toolkit: combinatorics, polynomials,
//! transfer functions, state-space models and signal utilities.
pub mod analysis;
pub mod discretize;
pub mod logger;
pub mod math;
pub mod signal;
pub mod status;
pub mod system;
pub mod trajectory;

pub use analysis::FrequencyCharacteristics;
pub use math::{
    binomial_coefficient, binomial_coefficients, factorial, factorial_n_to_r, permutation,
    Polynomial,
};
pub use status::Motion;
pub use system::{cancel_common_roots, check_shapes, StateSpaceError, StateSpaceOrder, TransferFunction};
pub use trajectory::TrajectoryProfile;
