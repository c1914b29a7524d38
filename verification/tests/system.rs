use mclib::{cancel_common_roots, check_shapes, StateSpaceError, StateSpaceOrder, TransferFunction};

#[test]
fn transfer_function_new_copies_coefficients() {
    let tf = TransferFunction::new(&[1.0, 2.0], &[1.0, 0.5, 0.25]);
    assert_eq!(tf.numerator.0, vec![1.0, 2.0]);
    assert_eq!(tf.denominator.0, vec![1.0, 0.5, 0.25]);
}

#[test]
fn transfer_function_new_with_empty_numerator() {
    let tf: TransferFunction<i32> = TransferFunction::new(&[], &[1]);
    assert!(tf.numerator.0.is_empty());
    assert_eq!(tf.denominator.0, vec![1]);
}

#[test]
fn check_shapes_accepts_consistent_model() {
    let order = check_shapes((2, 2), (2, 1), (3, 2), (3, 1));
    assert_eq!(order, Ok(StateSpaceOrder { system: 2, input: 1, output: 3 }));
}

#[test]
fn check_shapes_rejects_non_square_system_matrix() {
    assert_eq!(
        check_shapes((2, 3), (2, 1), (1, 2), (1, 1)),
        Err(StateSpaceError::SystemMatrix { rows: 2, cols: 3 })
    );
}

#[test]
fn check_shapes_rejects_input_matrix() {
    assert_eq!(
        check_shapes((2, 2), (3, 1), (1, 2), (1, 1)),
        Err(StateSpaceError::InputMatrix {
            expected_row: 2,
            expected_col: 1,
            actual_rows: 3,
            actual_cols: 1
        })
    );
}

#[test]
fn check_shapes_rejects_output_matrix() {
    assert_eq!(
        check_shapes((2, 2), (2, 1), (1, 3), (1, 1)),
        Err(StateSpaceError::OutputMatrix {
            expected_row: 1,
            expected_col: 2,
            actual_rows: 1,
            actual_cols: 3
        })
    );
}

#[test]
fn check_shapes_rejects_feedthrough_matrix() {
    assert_eq!(
        check_shapes((2, 2), (2, 1), (1, 2), (2, 1)),
        Err(StateSpaceError::FeedthroughMatrix {
            expected_row: 1,
            expected_col: 1,
            actual_rows: 2,
            actual_cols: 1
        })
    );
}

#[test]
fn check_shapes_reports_first_mismatch() {
    assert_eq!(
        check_shapes((1, 2), (5, 5), (5, 5), (5, 5)),
        Err(StateSpaceError::SystemMatrix { rows: 1, cols: 2 })
    );
}

#[test]
fn cancel_common_roots_removes_matching_pairs() {
    // numerator roots 0, 1, 2; denominator roots 0, 1, 2, 3
    // numerator 0 matches denominator 2; numerator 2 matches denominators 1 and 3
    let close = vec![
        vec![false, false, true, false],
        vec![false, false, false, false],
        vec![false, true, false, true],
    ];
    let (kept, remaining) = cancel_common_roots(&close, 4);
    assert_eq!(kept, vec![1]);
    assert_eq!(remaining, vec![0, 3]);
}

#[test]
fn cancel_common_roots_takes_each_denominator_root_once() {
    // both numerator roots match only denominator root 0
    let close = vec![vec![true, false], vec![true, false]];
    let (kept, remaining) = cancel_common_roots(&close, 2);
    assert_eq!(kept, vec![1]);
    assert_eq!(remaining, vec![1]);
}

#[test]
fn cancel_common_roots_without_matches_keeps_everything() {
    let close = vec![vec![false; 3]; 2];
    assert_eq!(cancel_common_roots(&close, 3), (vec![0, 1], vec![0, 1, 2]));
    let empty: Vec<Vec<bool>> = Vec::new();
    assert_eq!(cancel_common_roots(&empty, 2), (vec![], vec![0, 1]));
}

#[test]
fn cancel_common_roots_leaves_no_match_behind() {
    let close = vec![
        vec![true, true, false],
        vec![true, false, false],
        vec![false, true, true],
        vec![true, true, true],
    ];
    let (kept, remaining) = cancel_common_roots(&close, 3);
    for &i in &kept {
        for &j in &remaining {
            assert!(!close[i][j]);
        }
    }
    assert_eq!(close.len() - kept.len(), 3 - remaining.len());
    assert_eq!(kept, vec![1]);
    assert!(remaining.is_empty());
}
