use vstd::prelude::*;

verus! {

/// One point of a frequency response: frequency, gain and phase.
#[derive(Copy, Clone)]
pub struct FrequencyCharacteristics<T> {
    pub frequency: T,
    pub gain: T,
    pub phase: T,
}

impl<T: Copy + Default> FrequencyCharacteristics<T> {
    /// Every field the default (zero) value.
    pub fn new() -> (res: Self)
        ensures
            call_ensures(T::default, (), res.frequency),
            res.gain == res.frequency,
            res.phase == res.frequency,
    {
        let zero = T::default();
        Self { frequency: zero, gain: zero, phase: zero }
    }
}

} // verus!
