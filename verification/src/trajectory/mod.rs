use vstd::prelude::*;

verus! {

/// One sample of a motion profile: position `s`, velocity `v`, acceleration `a`.
pub struct TrajectoryProfile<T> {
    pub s: T,
    pub v: T,
    pub a: T,
}

} // verus!
