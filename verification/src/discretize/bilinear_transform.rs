use vstd::prelude::*;

use std::collections::VecDeque;
use std::ops::{Add, Mul, Sub};
use vstd::std_specs::ops::{AddSpec, MulSpec, SubSpec};

use crate::math::polynomial::algebra::bounded_by;
use crate::math::polynomial::is_default;
use crate::math::sums::{lemma_product_bound, lemma_sum_to_bound, sum_to};
use crate::system::TransferFunction;

verus! {

/// `zero + a[0] * b[0] + a[1] * b[1] + ... + a[n - 1] * b[n - 1]`, summed left to right.
pub open spec fn dot_fold<T: Add<Output = T> + Mul<Output = T>>(
    zero: T,
    a: Seq<T>,
    b: Seq<T>,
    n: int,
) -> T
    decreases n,
{
    if n <= 0 {
        zero
    } else {
        dot_fold(zero, a, b, n - 1).add_spec(a[n - 1].mul_spec(b[n - 1]))
    }
}

/// The smaller of two lengths.
pub open spec fn min_len(a: nat, b: nat) -> nat {
    if a <= b {
        a
    } else {
        b
    }
}

/// A history buffer after the newest value `v` arrived: `v` in front, and the oldest
/// value dropped when there was one.
pub open spec fn shift_in<T>(history: Seq<T>, v: T) -> Seq<T> {
    if history.len() == 0 {
        seq![v]
    } else {
        seq![v] + history.drop_last()
    }
}

/// A discrete-time system run as the difference equation
/// `y[k] = (bn[0] x[k] + ... + bn[N] x[k - N]) - (an[0] y[k - 1] + ... + an[N - 1] y[k - N])`.
pub struct DiscretizedSystem<T> {
    an: Vec<T>,
    bn: Vec<T>,
    xz: VecDeque<T>,
    yz: VecDeque<T>,
    pub output: T,
}

impl<T> DiscretizedSystem<T> {
    /// The buffers have the lengths the difference equation needs.
    pub closed spec fn well_formed(self) -> bool {
        &&& self.xz@.len() == self.bn@.len()
        &&& self.xz@.len() >= 1
        &&& (self.yz@.len() == self.an@.len() || (self.an@.len() == 0 && self.yz@.len() == 1))
    }

    /// The input coefficients `bn`, newest input first.
    pub closed spec fn feedforward(self) -> Seq<T> {
        self.bn@
    }

    /// The output coefficients `an`, newest past output first.
    pub closed spec fn feedback(self) -> Seq<T> {
        self.an@
    }

    /// The inputs kept, newest first.
    pub closed spec fn past_inputs(self) -> Seq<T> {
        self.xz@
    }

    /// The outputs kept, newest first.
    pub closed spec fn past_outputs(self) -> Seq<T> {
        self.yz@
    }

    /// The value of the public field `output`: the latest output.
    pub closed spec fn last_output(self) -> T {
        self.output
    }
}

/// `len` copies of `value` in a double-ended queue.
fn filled_queue<T: Copy>(len: usize, value: T) -> (q: VecDeque<T>)
    ensures
        q@ == Seq::new(len as nat, |_i: int| value),
{
    let mut q: VecDeque<T> = VecDeque::new();
    let mut i: usize = 0;
    while i < len
        invariant
            i <= len,
            q@ == Seq::new(i as nat, |_i: int| value),
        decreases len - i,
    {
        q.push_back(value);
        i = i + 1;
        assert(q@ =~= Seq::new(i as nat, |_i: int| value));
    }
    q
}

/// `zero` plus, left to right, `a[i] * b[i]` over the positions both have.
fn dot<T: Copy + Add<Output = T> + Mul<Output = T>>(zero: T, a: &Vec<T>, b: &VecDeque<T>) -> (res: T)
    requires
        forall|x: T, y: T| #[trigger] x.add_req(y),
        forall|x: T, y: T| #[trigger] x.mul_req(y),
    ensures
        T::obeys_add_spec() && T::obeys_mul_spec() ==> res == dot_fold(
            zero,
            a@,
            b@,
            min_len(a@.len(), b@.len()) as int,
        ),
{
    let n = if a.len() <= b.len() {
        a.len()
    } else {
        b.len()
    };
    let mut acc = zero;
    let mut i: usize = 0;
    while i < n
        invariant
            i <= n,
            n == min_len(a@.len(), b@.len()),
            forall|x: T, y: T| #[trigger] x.add_req(y),
            forall|x: T, y: T| #[trigger] x.mul_req(y),
            T::obeys_add_spec() && T::obeys_mul_spec() ==> acc == dot_fold(zero, a@, b@, i as int),
        decreases n - i,
    {
        let term = a[i] * b[i];
        acc = acc + term;
        i = i + 1;
    }
    acc
}

impl<T: Copy + Default + Add<Output = T> + Mul<Output = T> + Sub<Output = T>> DiscretizedSystem<T> {
    /// The difference equation of a discrete transfer function `tf_z` whose denominator is
    /// monic (its first coefficient is 1): `an` is the denominator without its leading 1,
    /// `bn` the numerator padded in front with zeros to the denominator's length; the
    /// input and output histories start at zero.
    pub fn from_tf_z(tf_z: &TransferFunction<T>) -> (res: Self)
        requires
            tf_z.numerator.0.len() >= 1,
            tf_z.denominator.0.len() >= tf_z.numerator.0.len(),
        ensures
            res.well_formed(),
            res.feedback() == tf_z.denominator.0@.skip(1),
            res.feedforward().len() == tf_z.denominator.0.len(),
            res.feedforward().skip(
                (tf_z.denominator.0.len() - tf_z.numerator.0.len()) as int,
            ) == tf_z.numerator.0@,
            res.past_inputs().len() == tf_z.denominator.0.len(),
            res.past_outputs().len() == tf_z.denominator.0.len() - 1,
            is_default(res.last_output()),
            forall|i: int|
                0 <= i < tf_z.denominator.0.len() - tf_z.numerator.0.len() ==> #[trigger] res.feedforward()[i]
                    == res.last_output(),
            forall|i: int| 0 <= i < res.past_inputs().len() ==> #[trigger] res.past_inputs()[i] == res.last_output(),
            forall|i: int| 0 <= i < res.past_outputs().len() ==> #[trigger] res.past_outputs()[i] == res.last_output(),
    {
        let numer = &tf_z.numerator.0;
        let denom = &tf_z.denominator.0;
        let numer_order = numer.len() - 1;
        let denom_order = denom.len() - 1;
        let relative_order = denom_order - numer_order;
        let zero = T::default();

        let mut an: Vec<T> = Vec::new();
        let mut i: usize = 1;
        while i < denom.len()
            invariant
                1 <= i <= denom.len(),
                an@ == denom@.subrange(1, i as int),
            decreases denom.len() - i,
        {
            an.push(denom[i]);
            i = i + 1;
            assert(an@ =~= denom@.subrange(1, i as int));
        }
        assert(an@ =~= denom@.skip(1));

        let mut bn: Vec<T> = Vec::new();
        let mut i: usize = 0;
        while i < relative_order
            invariant
                i <= relative_order,
                bn@ == Seq::new(i as nat, |_i: int| zero),
            decreases relative_order - i,
        {
            bn.push(zero);
            i = i + 1;
            assert(bn@ =~= Seq::new(i as nat, |_i: int| zero));
        }
        let mut j: usize = 0;
        while j < numer.len()
            invariant
                j <= numer.len(),
                bn@ == Seq::new(relative_order as nat, |_i: int| zero) + numer@.take(j as int),
            decreases numer.len() - j,
        {
            bn.push(numer[j]);
            j = j + 1;
            assert(bn@ =~= Seq::new(relative_order as nat, |_i: int| zero) + numer@.take(j as int));
        }
        assert(numer@.take(numer.len() as int) =~= numer@);
        assert(bn@.skip(relative_order as int) =~= numer@);

        let xz = filled_queue(denom_order + 1, zero);
        let yz = filled_queue(denom_order, zero);
        Self { an, bn, xz, yz, output: zero }
    }

    /// Feeds one input sample through the difference equation and returns the new output.
    pub fn update(&mut self, x: T) -> (out: T)
        requires
            old(self).well_formed(),
            forall|a: T, b: T| #[trigger] a.add_req(b),
            forall|a: T, b: T| #[trigger] a.mul_req(b),
            forall|a: T, b: T| #[trigger] a.sub_req(b),
        ensures
            final(self).well_formed(),
            final(self).feedforward() == old(self).feedforward(),
            final(self).feedback() == old(self).feedback(),
            final(self).past_inputs() == shift_in(old(self).past_inputs(), x),
            final(self).past_outputs() == shift_in(old(self).past_outputs(), out),
            final(self).last_output() == out,
            T::obeys_add_spec() && T::obeys_mul_spec() && T::obeys_sub_spec() ==> exists|zero: T|
                #[trigger] is_default(zero) && out == dot_fold(
                    zero,
                    old(self).feedforward(),
                    shift_in(old(self).past_inputs(), x),
                    old(self).feedforward().len() as int,
                ).sub_spec(
                    dot_fold(
                        zero,
                        old(self).feedback(),
                        old(self).past_outputs(),
                        min_len(old(self).feedback().len(), old(self).past_outputs().len()) as int,
                    ),
                ),
    {
        let ghost xs = self.xz@;
        let ghost ys = self.yz@;
        self.xz.pop_back();
        self.xz.push_front(x);
        assert(self.xz@ =~= shift_in(xs, x));
        let zero = T::default();
        let yb = dot(zero, &self.bn, &self.xz);
        let ya = dot(zero, &self.an, &self.yz);
        self.output = yb - ya;
        self.yz.pop_back();
        self.yz.push_front(self.output);
        assert(self.yz@ =~= shift_in(ys, self.output));
        assert(is_default(zero));
        self.output
    }
}

/// The products `a[i] * b[i]`, as integers.
pub open spec fn pairwise_product(a: Seq<i64>, b: Seq<i64>) -> spec_fn(int) -> int {
    |i: int| a[i] * b[i]
}

proof fn lemma_dot_prefix(a: Seq<i64>, b: Seq<i64>, m: int, n: int, r: int)
    requires
        0 <= m,
        bounded_by(a, m),
        bounded_by(b, m),
        0 <= r <= n <= a.len(),
        n <= b.len(),
        n * (m * m) <= i64::MAX,
    ensures
        dot_fold(0i64, a, b, r) as int == sum_to(pairwise_product(a, b), r),
    decreases r,
{
    if r > 0 {
        lemma_dot_prefix(a, b, m, n, r - 1);
        let t = pairwise_product(a, b);
        assert forall|j: int| 0 <= j < r implies -(m * m) <= #[trigger] t(j) <= m * m by {
            lemma_product_bound(a[j] as int, b[j] as int, m);
        }
        lemma_sum_to_bound(t, m * m, r);
        assert(r * (m * m) <= n * (m * m)) by (nonlinear_arith)
            requires
                r <= n,
                0 <= m * m,
        ;
        assert(m * m <= r * (m * m)) by (nonlinear_arith)
            requires
                1 <= r,
                0 <= m * m,
        ;
        lemma_product_bound(a[r - 1] as int, b[r - 1] as int, m);
    }
}

/// Over `i64` values, when no partial sum can overflow, each side of the difference
/// equation is the full sum `a[0] * b[0] + ... + a[n - 1] * b[n - 1]`: every coefficient
/// meets its history value.
pub proof fn law_dot_is_sum(a: Seq<i64>, b: Seq<i64>, m: int, n: int)
    requires
        0 <= m,
        bounded_by(a, m),
        bounded_by(b, m),
        0 <= n <= a.len(),
        n <= b.len(),
        n * (m * m) <= i64::MAX,
    ensures
        dot_fold(0i64, a, b, n) == sum_to(pairwise_product(a, b), n),
{
    lemma_dot_prefix(a, b, m, n, n);
}

proof fn lemma_dot_zero_prefix(a: Seq<i64>, b: Seq<i64>, r: int)
    requires
        0 <= r <= a.len(),
        r <= b.len(),
        forall|i: int| 0 <= i < r ==> a[i] == 0,
    ensures
        dot_fold(0i64, a, b, r) == 0,
    decreases r,
{
    if r > 0 {
        lemma_dot_zero_prefix(a, b, r - 1);
    }
}

/// A transfer function with numerator `[1]` and denominator `[1, 0, ..., 0]` of order `N`
/// (feedforward `[0, ..., 0, 1]`, feedback all zero) is a pure delay: each update returns
/// the input given `N` updates earlier, which is the last of the inputs kept.
pub proof fn law_pure_delay(ff: Seq<i64>, fb: Seq<i64>, xs: Seq<i64>, ys: Seq<i64>, x: i64)
    requires
        ff.len() == xs.len(),
        xs.len() >= 1,
        forall|i: int| 0 <= i < ff.len() - 1 ==> ff[i] == 0,
        ff[ff.len() - 1] == 1,
        forall|i: int| 0 <= i < fb.len() ==> fb[i] == 0,
    ensures
        dot_fold(0i64, ff, shift_in(xs, x), ff.len() as int).sub_spec(
            dot_fold(0i64, fb, ys, min_len(fb.len(), ys.len()) as int),
        ) == shift_in(xs, x)[xs.len() - 1],
        xs.len() >= 2 ==> shift_in(xs, x)[xs.len() - 1] == xs[xs.len() - 2],
        xs.len() == 1 ==> shift_in(xs, x)[0] == x,
{
    let n = ff.len() as int;
    let v = shift_in(xs, x);
    assert(v.len() == xs.len());
    lemma_dot_zero_prefix(ff, v, n - 1);
    lemma_dot_zero_prefix(fb, ys, min_len(fb.len(), ys.len()) as int);
    assert(dot_fold(0i64, ff, v, n) == dot_fold(0i64, ff, v, n - 1).add_spec(
        ff[n - 1].mul_spec(v[n - 1]),
    ));
}

} // verus!
