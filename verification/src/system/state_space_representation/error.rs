use vstd::prelude::*;

verus! {

/// Why a state-space model was refused or could not be computed.
#[derive(Clone, Debug, PartialEq, Eq, Structural)]
pub enum StateSpaceError {
    /// The system matrix A is not square.
    SystemMatrix { rows: usize, cols: usize },
    /// The input matrix B does not have as many rows as A.
    InputMatrix {
        expected_row: usize,
        expected_col: usize,
        actual_rows: usize,
        actual_cols: usize,
    },
    /// The input vector does not have one entry per input.
    InputVector { expected_row: usize, actual_rows: usize },
    /// The output matrix C does not have as many columns as A.
    OutputMatrix {
        expected_row: usize,
        expected_col: usize,
        actual_rows: usize,
        actual_cols: usize,
    },
    /// The feedthrough matrix D is not outputs × inputs.
    FeedthroughMatrix {
        expected_row: usize,
        expected_col: usize,
        actual_rows: usize,
        actual_cols: usize,
    },
    /// The model has no state.
    EmptySystem,
    /// A matrix that had to be inverted is singular.
    SingularMatrix,
}

} // verus!
