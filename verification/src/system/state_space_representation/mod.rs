use vstd::prelude::*;

pub mod error;

pub use error::StateSpaceError;

verus! {

/// Numbers of states, inputs and outputs of a state-space model.
#[derive(Clone, Debug, PartialEq, Eq, PartialOrd, Ord, Structural)]
pub struct StateSpaceOrder {
    pub system: usize,
    pub input: usize,
    pub output: usize,
}

/// What the shapes `(rows, cols)` of A, B, C and D make of a model: its order, or the
/// first mismatch, checked in the order A, B, C, D.
pub open spec fn shape_check(
    a: (usize, usize),
    b: (usize, usize),
    c: (usize, usize),
    d: (usize, usize),
) -> Result<StateSpaceOrder, StateSpaceError> {
    let n = a.0;
    let m = b.1;
    let p = c.0;
    if a.1 != n {
        Err(StateSpaceError::SystemMatrix { rows: a.0, cols: a.1 })
    } else if b.0 != n {
        Err(
            StateSpaceError::InputMatrix {
                expected_row: n,
                expected_col: m,
                actual_rows: b.0,
                actual_cols: b.1,
            },
        )
    } else if c.1 != n {
        Err(
            StateSpaceError::OutputMatrix {
                expected_row: p,
                expected_col: n,
                actual_rows: c.0,
                actual_cols: c.1,
            },
        )
    } else if d.0 != p || d.1 != m {
        Err(
            StateSpaceError::FeedthroughMatrix {
                expected_row: p,
                expected_col: m,
                actual_rows: d.0,
                actual_cols: d.1,
            },
        )
    } else {
        Ok(StateSpaceOrder { system: n, input: m, output: p })
    }
}

/// A model is accepted exactly when A is square, B has a row per state, C a column per
/// state and D is outputs × inputs; its order is then read off A, B and C.
pub proof fn law_shape_check_accepts(
    a: (usize, usize),
    b: (usize, usize),
    c: (usize, usize),
    d: (usize, usize),
)
    ensures
        shape_check(a, b, c, d) is Ok <==> (a.1 == a.0 && b.0 == a.0 && c.1 == a.0 && d.0 == c.0
            && d.1 == b.1),
        shape_check(a, b, c, d) is Ok ==> shape_check(a, b, c, d) == Ok::<
            StateSpaceOrder,
            StateSpaceError,
        >(StateSpaceOrder { system: a.0, input: b.1, output: c.0 }),
{
}

/// Checks the shapes `(rows, cols)` of A, B, C and D of a state-space model against each
/// other: the order of the model, or the first mismatch.
pub fn check_shapes(
    a: (usize, usize),
    b: (usize, usize),
    c: (usize, usize),
    d: (usize, usize),
) -> (res: Result<StateSpaceOrder, StateSpaceError>)
    ensures
        res == shape_check(a, b, c, d),
{
    let state_order = a.0;
    let input_order = b.1;
    let output_order = c.0;
    if a.1 != state_order {
        return Err(StateSpaceError::SystemMatrix { rows: a.0, cols: a.1 });
    }
    if b.0 != state_order {
        return Err(
            StateSpaceError::InputMatrix {
                expected_row: state_order,
                expected_col: input_order,
                actual_rows: b.0,
                actual_cols: b.1,
            },
        );
    }
    if c.1 != state_order {
        return Err(
            StateSpaceError::OutputMatrix {
                expected_row: output_order,
                expected_col: state_order,
                actual_rows: c.0,
                actual_cols: c.1,
            },
        );
    }
    if d.0 != output_order || d.1 != input_order {
        return Err(
            StateSpaceError::FeedthroughMatrix {
                expected_row: output_order,
                expected_col: input_order,
                actual_rows: d.0,
                actual_cols: d.1,
            },
        );
    }
    Ok(StateSpaceOrder { system: state_order, input: input_order, output: output_order })
}

/// A refused model is refused for its first mismatch, in the order A, B, C, D, and the
/// error reports that matrix's actual shape and the shape the others call for.
pub proof fn law_shape_check_reports(
    a: (usize, usize),
    b: (usize, usize),
    c: (usize, usize),
    d: (usize, usize),
)
    ensures
        a.1 != a.0 ==> shape_check(a, b, c, d) == Err::<StateSpaceOrder, StateSpaceError>(
            StateSpaceError::SystemMatrix { rows: a.0, cols: a.1 },
        ),
        a.1 == a.0 && b.0 != a.0 ==> shape_check(a, b, c, d) == Err::<
            StateSpaceOrder,
            StateSpaceError,
        >(
            StateSpaceError::InputMatrix {
                expected_row: a.0,
                expected_col: b.1,
                actual_rows: b.0,
                actual_cols: b.1,
            },
        ),
        a.1 == a.0 && b.0 == a.0 && c.1 != a.0 ==> shape_check(a, b, c, d) == Err::<
            StateSpaceOrder,
            StateSpaceError,
        >(
            StateSpaceError::OutputMatrix {
                expected_row: c.0,
                expected_col: a.0,
                actual_rows: c.0,
                actual_cols: c.1,
            },
        ),
        a.1 == a.0 && b.0 == a.0 && c.1 == a.0 && d != (c.0, b.1) ==> shape_check(a, b, c, d)
            == Err::<StateSpaceOrder, StateSpaceError>(
            StateSpaceError::FeedthroughMatrix {
                expected_row: c.0,
                expected_col: b.1,
                actual_rows: d.0,
                actual_cols: d.1,
            },
        ),
{
}

} // verus!
