use vstd::prelude::*;

pub mod cancellation;

pub use cancellation::cancel_common_roots;

use crate::math::Polynomial;

verus! {

/// A rational function `numerator / denominator`, coefficients highest degree first.
#[derive(Clone, Debug)]
pub struct TransferFunction<T> {
    pub numerator: Polynomial<T>,
    pub denominator: Polynomial<T>,
}

/// A clone of each element of `src`, in order.
fn clone_all<T: Clone>(src: &[T]) -> (res: Vec<T>)
    ensures
        res.len() == src.len(),
        forall|i: int| 0 <= i < src.len() ==> cloned(src@[i], #[trigger] res@[i]),
{
    let mut res: Vec<T> = Vec::new();
    let mut i: usize = 0;
    while i < src.len()
        invariant
            i <= src.len(),
            res.len() == i,
            forall|j: int| 0 <= j < i ==> cloned(src@[j], #[trigger] res@[j]),
        decreases src.len() - i,
    {
        res.push(src[i].clone());
        i = i + 1;
    }
    res
}

impl<T: Clone> TransferFunction<T> {
    /// The transfer function with the given coefficients (highest degree first).
    pub fn new(numerator: &[T], denominator: &[T]) -> (res: Self)
        ensures
            res.numerator.0.len() == numerator.len(),
            res.denominator.0.len() == denominator.len(),
            forall|i: int|
                0 <= i < numerator.len() ==> cloned(numerator@[i], #[trigger] res.numerator.0@[i]),
            forall|i: int|
                0 <= i < denominator.len() ==> cloned(
                    denominator@[i],
                    #[trigger] res.denominator.0@[i],
                ),
    {
        Self {
            numerator: Polynomial(clone_all(numerator)),
            denominator: Polynomial(clone_all(denominator)),
        }
    }
}

} // verus!
