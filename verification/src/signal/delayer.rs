use vstd::prelude::*;

verus! {

/// One step of a delay line whose pending outputs are `queue` (oldest first):
/// the oldest value leaves and the new input joins at the back.
pub open spec fn delay_step<T>(queue: Seq<T>, input: T) -> (T, Seq<T>) {
    (queue[0], queue.drop_first().push(input))
}

/// Feeding `inputs` one by one into a delay line that holds `queue`:
/// the outputs in order, and the queue left afterwards.
pub open spec fn delay_run<T>(queue: Seq<T>, inputs: Seq<T>) -> (Seq<T>, Seq<T>)
    decreases inputs.len(),
{
    if inputs.len() == 0 {
        (Seq::empty(), queue)
    } else {
        let (out, next) = delay_step(queue, inputs[0]);
        let (rest, last) = delay_run(next, inputs.drop_first());
        (seq![out] + rest, last)
    }
}

/// A delay line never loses or reorders a sample: with `d` values pending, the
/// outputs are the pending values followed by the inputs, and after the run the
/// last `d` values of that stream are pending.
pub proof fn law_delay_run<T>(queue: Seq<T>, inputs: Seq<T>)
    requires
        queue.len() > 0,
    ensures
        delay_run(queue, inputs).0 == (queue + inputs).take(inputs.len() as int),
        delay_run(queue, inputs).1 == (queue + inputs).skip(inputs.len() as int),
    decreases inputs.len(),
{
    if inputs.len() > 0 {
        let next = queue.drop_first().push(inputs[0]);
        law_delay_run(next, inputs.drop_first());
        let stream = queue + inputs;
        let next_stream = next + inputs.drop_first();
        assert(next_stream =~= stream.drop_first());
        assert(delay_run(queue, inputs).0 =~= stream.take(inputs.len() as int));
        assert(delay_run(queue, inputs).1 =~= stream.skip(inputs.len() as int));
    }
}

/// A fixed delay of `delay_sample` samples, built on a ring buffer.
pub struct Delayer<T> {
    buffer: Vec<T>,
    index: usize,
    delay_sample: usize,
}

impl<T> Delayer<T> {
    #[verifier::type_invariant]
    spec fn well_formed(self) -> bool {
        &&& self.buffer.len() == self.delay_sample
        &&& (self.delay_sample > 0 ==> self.index < self.delay_sample)
        &&& (self.delay_sample == 0 ==> self.index == 0)
    }

    /// Number of samples by which the input is delayed.
    pub closed spec fn delay(self) -> nat {
        self.delay_sample as nat
    }

    /// The values the next `delay()` calls of `output` return, oldest first.
    pub closed spec fn pending(self) -> Seq<T> {
        self.buffer@.subrange(self.index as int, self.buffer.len() as int) + self.buffer@.subrange(
            0,
            self.index as int,
        )
    }

}

impl<T: Copy + Default> Delayer<T> {
    /// Every element of `s` is a value that `T::default()` returns.
    pub open spec fn all_default(s: Seq<T>) -> bool {
        forall|j: int| 0 <= j < s.len() ==> call_ensures(T::default, (), #[trigger] s[j])
    }

    fn default_buffer(len: usize) -> (buffer: Vec<T>)
        ensures
            buffer.len() == len,
            Self::all_default(buffer@),
    {
        let fill = T::default();
        let mut buffer: Vec<T> = Vec::new();
        let mut i: usize = 0;
        while i < len
            invariant
                i <= len,
                buffer.len() == i,
                call_ensures(T::default, (), fill),
                forall|j: int| 0 <= j < i ==> buffer@[j] == fill,
            decreases len - i,
        {
            buffer.push(fill);
            i = i + 1;
        }
        buffer
    }

    /// A delay line of `delay_sample` samples whose pending outputs are all `T::default()`.
    pub fn new(delay_sample: usize) -> (res: Self)
        ensures
            res.delay() == delay_sample,
            res.pending().len() == delay_sample,
            Self::all_default(res.pending()),
    {
        let buffer = Self::default_buffer(delay_sample);
        let res = Self { buffer, index: 0, delay_sample };
        assert(res.pending() =~= buffer@);
        res
    }

    /// Pushes `u` into the delay line and returns the value pushed `delay()` calls earlier
    /// (a default value while the line is still filling).
    pub fn output(&mut self, u: T) -> (out: T)
        requires
            old(self).delay() > 0,
        ensures
            final(self).delay() == old(self).delay(),
            (out, final(self).pending()) == delay_step(old(self).pending(), u),
    {
        proof {
            use_type_invariant(&*self);
        }
        let ghost before = self.pending();
        let mut taken = Delayer { buffer: Vec::new(), index: 0, delay_sample: 0 };
        std::mem::swap(self, &mut taken);
        proof {
            use_type_invariant(&taken);
        }
        let Delayer { mut buffer, index, delay_sample } = taken;
        let out: T = buffer[index];
        buffer.set(index, u);
        let index = if index < (delay_sample - 1) {
            index + 1
        } else {
            0
        };
        *self = Delayer { buffer, index, delay_sample };
        assert(self.pending() =~= before.drop_first().push(u));
        out
    }

    /// Refills the delay line with default values, keeping its length.
    pub fn reset(&mut self)
        ensures
            final(self).delay() == old(self).delay(),
            final(self).pending().len() == old(self).delay(),
            Self::all_default(final(self).pending()),
    {
        proof {
            use_type_invariant(&*self);
        }
        let buffer = Self::default_buffer(self.delay_sample);
        *self = Delayer { buffer, index: 0, delay_sample: self.delay_sample };
        assert(self.pending() =~= self.buffer@);
    }
}

} // verus!
