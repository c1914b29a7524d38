pub mod state_space_representation;
pub mod transfer_function;

pub use state_space_representation::{check_shapes, StateSpaceError, StateSpaceOrder};
pub use transfer_function::{cancel_common_roots, TransferFunction};
