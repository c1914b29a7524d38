use vstd::prelude::*;

pub mod algebra;

use std::ops::{Add, AddAssign, Deref, DerefMut, Mul, MulAssign};
use vstd::std_specs::ops::{AddSpec, MulSpec};

verus! {

/// Coefficients of a polynomial, highest degree first.
#[derive(Debug, Clone, PartialEq)]
pub struct Polynomial<T>(pub Vec<T>);

/// `z` is a value that `T::default()` returns (the zero of the coefficient type).
pub open spec fn is_default<T: Default>(z: T) -> bool {
    call_ensures(T::default, (), z)
}

/// The larger of two lengths.
pub open spec fn max_len(a: nat, b: nat) -> nat {
    if a >= b {
        a
    } else {
        b
    }
}

/// The coefficient of `p` that lands in slot `i` when `p` is written into `len` slots
/// aligned by degree (constant term in the last slot); `None` where `p` has no coefficient.
pub open spec fn aligned<T>(p: Seq<T>, len: int, i: int) -> Option<T> {
    if len - p.len() <= i < len {
        Some(p[i - (len - p.len())])
    } else {
        None
    }
}

/// Adds `term` to `acc` when there is a term.
pub open spec fn accumulate<T: Add<Output = T>>(acc: T, term: Option<T>) -> T {
    match term {
        Some(v) => acc.add_spec(v),
        None => acc,
    }
}

/// Slot `i` of `a + b`: start from `zero`, add the coefficient of `a`, then that of `b`.
pub open spec fn sum_coeff<T: Add<Output = T>>(zero: T, a: Seq<T>, b: Seq<T>, i: int) -> T {
    let len = max_len(a.len(), b.len()) as int;
    accumulate(accumulate(zero, aligned(a, len, i)), aligned(b, len, i))
}

/// Slot `i` of `a += b`: the coefficient of `a` (or `zero` where `a` was padded),
/// plus the coefficient of `b`.
pub open spec fn sum_assign_coeff<T: Add<Output = T>>(zero: T, a: Seq<T>, b: Seq<T>, i: int) -> T {
    let len = max_len(a.len(), b.len()) as int;
    let base = match aligned(a, len, i) {
        Some(x) => x,
        None => zero,
    };
    accumulate(base, aligned(b, len, i))
}

/// Slot `k` of the product `a * b` after the rows `a[0..rows]` have been multiplied in:
/// `zero + a[0] * b[k] + a[1] * b[k - 1] + ...`, in that order, skipping absent terms.
pub open spec fn product_coeff<T: Add<Output = T> + Mul<Output = T>>(
    zero: T,
    a: Seq<T>,
    b: Seq<T>,
    k: int,
    rows: int,
) -> T
    decreases rows,
{
    if rows <= 0 {
        zero
    } else {
        let prev = product_coeff(zero, a, b, k, rows - 1);
        let i = rows - 1;
        if 0 <= k - i < b.len() {
            prev.add_spec(a[i].mul_spec(b[k - i]))
        } else {
            prev
        }
    }
}

/// `len` copies of `value`.
fn filled<T: Copy>(len: usize, value: T) -> (v: Vec<T>)
    ensures
        v@ == Seq::new(len as nat, |_i: int| value),
{
    let mut v: Vec<T> = Vec::new();
    let mut i: usize = 0;
    while i < len
        invariant
            i <= len,
            v@ == Seq::new(i as nat, |_i: int| value),
        decreases len - i,
    {
        v.push(value);
        i = i + 1;
    }
    v
}

impl<T: Copy + Default> Polynomial<T> {
    /// The polynomial with no coefficients.
    pub fn new() -> (res: Self)
        ensures
            res.0@ == Seq::<T>::empty(),
    {
        Polynomial(Vec::new())
    }

    /// `degree + 1` coefficients, all the same zero (default) value.
    pub fn zeros(degree: usize) -> (res: Self)
        requires
            degree < usize::MAX,
        ensures
            res.0.len() == degree + 1,
            forall|i: int| 0 <= i <= degree ==> is_default(#[trigger] res.0@[i]),
            forall|i: int| 0 <= i <= degree ==> #[trigger] res.0@[i] == res.0@[0],
    {
        let zero = T::default();
        Polynomial(filled(degree + 1, zero))
    }
}

impl<T> Deref for Polynomial<T> {
    type Target = Vec<T>;

    fn deref(&self) -> (r: &Vec<T>)
        ensures
            r == &self.0,
    {
        &self.0
    }
}

impl<T> DerefMut for Polynomial<T> {
    fn deref_mut(&mut self) -> (r: &mut Vec<T>)
        ensures
            *r == old(self).0,
            final(self).0 == *final(r),
    {
        &mut self.0
    }
}

impl<'a, T: Copy + Default + Add<Output = T>> vstd::std_specs::ops::AddSpecImpl for &'a Polynomial<T> {
    open spec fn obeys_add_spec() -> bool {
        false
    }

    open spec fn add_req(self, rhs: &'a Polynomial<T>) -> bool {
        forall|x: T, y: T| #[trigger] x.add_req(y)
    }

    open spec fn add_spec(self, rhs: &'a Polynomial<T>) -> Polynomial<T> {
        arbitrary()
    }
}

impl<'a, T: Copy + Default + Add<Output = T>> Add for &'a Polynomial<T> {
    type Output = Polynomial<T>;

    /// Sum of two polynomials, aligned by degree (the shorter one is padded at the front).
    fn add(self, rhs: &'a Polynomial<T>) -> (res: Polynomial<T>)
        ensures
            res.0.len() == max_len(self.0.len() as nat, rhs.0.len() as nat),
            T::obeys_add_spec() ==> exists|zero: T|
                #[trigger] is_default(zero) && forall|i: int|
                    0 <= i < res.0.len() ==> #[trigger] res.0@[i] == sum_coeff(
                        zero,
                        self.0@,
                        rhs.0@,
                        i,
                    ),
    {
        let la = self.0.len();
        let lb = rhs.0.len();
        let len = if la >= lb {
            la
        } else {
            lb
        };
        let zero = T::default();
        let mut result = filled(len, zero);
        let ghost a = self.0@;
        let ghost b = rhs.0@;
        let mut j: usize = 0;
        while j < la
            invariant
                j <= la <= len,
                a == self.0@,
                la == a.len(),
                result.len() == len,
                forall|x: T, y: T| #[trigger] x.add_req(y),
                T::obeys_add_spec() ==> forall|i: int|
                    0 <= i < len ==> #[trigger] result@[i] == (if len - j <= i {
                        accumulate(zero, aligned(a, len as int, i))
                    } else {
                        zero
                    }),
            decreases la - j,
        {
            let idx = len - 1 - j;
            let v = self.0[la - 1 - j];
            let s = result[idx] + v;
            result.set(idx, s);
            j = j + 1;
        }
        let mut j: usize = 0;
        while j < lb
            invariant
                j <= lb <= len,
                la <= len,
                len == max_len(la as nat, lb as nat),
                a == self.0@,
                b == rhs.0@,
                la == a.len(),
                lb == b.len(),
                result.len() == len,
                forall|x: T, y: T| #[trigger] x.add_req(y),
                T::obeys_add_spec() ==> forall|i: int|
                    0 <= i < len ==> #[trigger] result@[i] == (if len - j <= i {
                        sum_coeff(zero, a, b, i)
                    } else {
                        accumulate(zero, aligned(a, len as int, i))
                    }),
            decreases lb - j,
        {
            let idx = len - 1 - j;
            let v = rhs.0[lb - 1 - j];
            let s = result[idx] + v;
            result.set(idx, s);
            j = j + 1;
        }
        proof {
            assert(is_default(zero));
            if T::obeys_add_spec() {
                assert(forall|i: int|
                    0 <= i < result.len() ==> #[trigger] result@[i] == sum_coeff(zero, a, b, i));
            }
        }
        Polynomial(result)
    }
}

impl<'a, T: Copy + Default + Add<Output = T>> AddAssign<&'a Polynomial<T>> for Polynomial<T> {
    /// In-place sum, aligned by degree; `self` is padded at the front when it is the shorter.
    fn add_assign(&mut self, rhs: &'a Polynomial<T>)
        requires
            forall|x: T, y: T| #[trigger] x.add_req(y),
        ensures
            final(self).0.len() == max_len(old(self).0.len() as nat, rhs.0.len() as nat),
            T::obeys_add_spec() ==> exists|zero: T|
                #[trigger] is_default(zero) && forall|i: int|
                    0 <= i < final(self).0.len() ==> #[trigger] final(self).0@[i]
                        == sum_assign_coeff(zero, old(self).0@, rhs.0@, i),
    {
        let ghost a = self.0@;
        let ghost b = rhs.0@;
        let la = self.0.len();
        let lb = rhs.0.len();
        let len = if la >= lb {
            la
        } else {
            lb
        };
        let zero = T::default();
        if la < len {
            let mut padded = filled(len - la, zero);
            let mut i: usize = 0;
            while i < la
                invariant
                    i <= la < len,
                    a == self.0@,
                    la == a.len(),
                    padded@ == Seq::new((len - la) as nat, |_i: int| zero) + a.take(i as int),
                decreases la - i,
            {
                padded.push(self.0[i]);
                i = i + 1;
                assert(padded@ =~= Seq::new((len - la) as nat, |_i: int| zero) + a.take(
                    i as int,
                ));
            }
            assert(a.take(la as int) =~= a);
            self.0 = padded;
        }
        let offset = self.0.len() - lb;
        assert forall|i: int| 0 <= i < len implies #[trigger] self.0@[i] == match aligned(
            a,
            len as int,
            i,
        ) {
            Some(x) => x,
            None => zero,
        } by {}
        let mut j: usize = 0;
        while j < lb
            invariant
                j <= lb <= len,
                len == max_len(la as nat, lb as nat),
                offset == len - lb,
                a.len() == la,
                b == rhs.0@,
                lb == b.len(),
                self.0.len() == len,
                forall|x: T, y: T| #[trigger] x.add_req(y),
                T::obeys_add_spec() ==> forall|i: int|
                    0 <= i < len ==> #[trigger] self.0@[i] == (if offset <= i < offset + j {
                        sum_assign_coeff(zero, a, b, i)
                    } else {
                        match aligned(a, len as int, i) {
                            Some(x) => x,
                            None => zero,
                        }
                    }),
            decreases lb - j,
        {
            let v = rhs.0[j];
            let s = self.0[offset + j] + v;
            self.0.set(offset + j, s);
            j = j + 1;
        }
        assert(is_default(zero));
    }
}

impl<'a, T: Copy + Default + Add<Output = T> + Mul<Output = T>> vstd::std_specs::ops::MulSpecImpl for &'a Polynomial<T> {
    open spec fn obeys_mul_spec() -> bool {
        false
    }

    open spec fn mul_req(self, rhs: &'a Polynomial<T>) -> bool {
        &&& self.0.len() + rhs.0.len() <= usize::MAX + 1
        &&& forall|x: T, y: T| #[trigger] x.add_req(y)
        &&& forall|x: T, y: T| #[trigger] x.mul_req(y)
    }

    open spec fn mul_spec(self, rhs: &'a Polynomial<T>) -> Polynomial<T> {
        arbitrary()
    }
}

impl<'a, T: Copy + Default + Add<Output = T> + Mul<Output = T>> Mul for &'a Polynomial<T> {
    type Output = Polynomial<T>;

    /// Product of two polynomials (the convolution of their coefficients);
    /// a single zero coefficient when either factor has no coefficients.
    fn mul(self, rhs: &'a Polynomial<T>) -> (res: Polynomial<T>)
        ensures
            self.0.len() == 0 || rhs.0.len() == 0 ==> res.0.len() == 1 && is_default(res.0@[0]),
            self.0.len() > 0 && rhs.0.len() > 0 ==> res.0.len() == self.0.len() + rhs.0.len() - 1,
            self.0.len() > 0 && rhs.0.len() > 0 && T::obeys_add_spec() && T::obeys_mul_spec()
                ==> exists|zero: T|
                #[trigger] is_default(zero) && forall|k: int|
                    0 <= k < res.0.len() ==> #[trigger] res.0@[k] == product_coeff(
                        zero,
                        self.0@,
                        rhs.0@,
                        k,
                        self.0.len() as int,
                    ),
    {
        let la = self.0.len();
        let lb = rhs.0.len();
        if la == 0 || lb == 0 {
            let zero = T::default();
            let mut single: Vec<T> = Vec::new();
            single.push(zero);
            return Polynomial(single);
        }
        let ghost a = self.0@;
        let ghost b = rhs.0@;
        let zero = T::default();
        let len = la - 1 + lb;
        let mut result = filled(len, zero);
        let mut i: usize = 0;
        while i < la
            invariant
                i <= la,
                len == la + lb - 1,
                la >= 1,
                lb >= 1,
                a == self.0@,
                b == rhs.0@,
                la == a.len(),
                lb == b.len(),
                result.len() == len,
                forall|x: T, y: T| #[trigger] x.add_req(y),
                forall|x: T, y: T| #[trigger] x.mul_req(y),
                T::obeys_add_spec() && T::obeys_mul_spec() ==> forall|k: int|
                    0 <= k < len ==> #[trigger] result@[k] == product_coeff(
                        zero,
                        a,
                        b,
                        k,
                        i as int,
                    ),
            decreases la - i,
        {
            let ai = self.0[i];
            let mut j: usize = 0;
            while j < lb
                invariant
                    i < la,
                    j <= lb,
                    len == la + lb - 1,
                    a == self.0@,
                    b == rhs.0@,
                    la == a.len(),
                    lb == b.len(),
                    ai == a[i as int],
                    result.len() == len,
                    forall|x: T, y: T| #[trigger] x.add_req(y),
                    forall|x: T, y: T| #[trigger] x.mul_req(y),
                    T::obeys_add_spec() && T::obeys_mul_spec() ==> forall|k: int|
                        0 <= k < len ==> #[trigger] result@[k] == (if i <= k < i + j {
                            product_coeff(zero, a, b, k, i + 1)
                        } else {
                            product_coeff(zero, a, b, k, i as int)
                        }),
                decreases lb - j,
            {
                let bj = rhs.0[j];
                let term = ai * bj;
                let s = result[i + j] + term;
                result.set(i + j, s);
                j = j + 1;
            }
            i = i + 1;
        }
        assert(is_default(zero));
        Polynomial(result)
    }
}

impl<'a, T: Copy + Mul<Output = T>> vstd::std_specs::ops::MulSpecImpl<T> for &'a Polynomial<T> {
    open spec fn obeys_mul_spec() -> bool {
        false
    }

    open spec fn mul_req(self, rhs: T) -> bool {
        forall|x: T| #[trigger] x.mul_req(rhs)
    }

    open spec fn mul_spec(self, rhs: T) -> Polynomial<T> {
        arbitrary()
    }
}

/// Every coefficient of `p` multiplied by `rhs`.
fn scaled<T: Copy + Mul<Output = T>>(p: &Polynomial<T>, rhs: T) -> (res: Polynomial<T>)
    requires
        forall|x: T| #[trigger] x.mul_req(rhs),
    ensures
        res.0.len() == p.0.len(),
        T::obeys_mul_spec() ==> forall|i: int|
            0 <= i < res.0.len() ==> #[trigger] res.0@[i] == p.0@[i].mul_spec(rhs),
{
    let mut out: Vec<T> = Vec::new();
    let mut i: usize = 0;
    while i < p.0.len()
        invariant
            i <= p.0.len(),
            out.len() == i,
            forall|x: T| #[trigger] x.mul_req(rhs),
            T::obeys_mul_spec() ==> forall|j: int|
                0 <= j < i ==> #[trigger] out@[j] == p.0@[j].mul_spec(rhs),
        decreases p.0.len() - i,
    {
        let x = p.0[i];
        out.push(x * rhs);
        i = i + 1;
    }
    Polynomial(out)
}

impl<'a, T: Copy + Mul<Output = T>> Mul<T> for &'a Polynomial<T> {
    type Output = Polynomial<T>;

    /// Every coefficient multiplied by `rhs`.
    fn mul(self, rhs: T) -> (res: Polynomial<T>)
        ensures
            res.0.len() == self.0.len(),
            T::obeys_mul_spec() ==> forall|i: int|
                0 <= i < res.0.len() ==> #[trigger] res.0@[i] == self.0@[i].mul_spec(rhs),
    {
        scaled(self, rhs)
    }
}

impl<T: Copy + Mul<Output = T>> vstd::std_specs::ops::MulSpecImpl<T> for Polynomial<T> {
    open spec fn obeys_mul_spec() -> bool {
        false
    }

    open spec fn mul_req(self, rhs: T) -> bool {
        forall|x: T| #[trigger] x.mul_req(rhs)
    }

    open spec fn mul_spec(self, rhs: T) -> Polynomial<T> {
        arbitrary()
    }
}

impl<T: Copy + Mul<Output = T>> Mul<T> for Polynomial<T> {
    type Output = Polynomial<T>;

    /// Every coefficient multiplied by `rhs`.
    fn mul(self, rhs: T) -> (res: Polynomial<T>)
        ensures
            res.0.len() == self.0.len(),
            T::obeys_mul_spec() ==> forall|i: int|
                0 <= i < res.0.len() ==> #[trigger] res.0@[i] == self.0@[i].mul_spec(rhs),
    {
        scaled(&self, rhs)
    }
}

impl<T: Copy + Mul<Output = T>> MulAssign<T> for Polynomial<T> {
    /// Multiplies every coefficient by `rhs` in place.
    fn mul_assign(&mut self, rhs: T)
        requires
            forall|x: T| #[trigger] x.mul_req(rhs),
        ensures
            final(self).0.len() == old(self).0.len(),
            T::obeys_mul_spec() ==> forall|i: int|
                0 <= i < final(self).0.len() ==> #[trigger] final(self).0@[i] == old(
                    self,
                ).0@[i].mul_spec(rhs),
    {
        let ghost before = self.0@;
        let mut i: usize = 0;
        while i < self.0.len()
            invariant
                i <= self.0.len(),
                self.0.len() == before.len(),
                forall|x: T| #[trigger] x.mul_req(rhs),
                forall|j: int| i <= j < before.len() ==> #[trigger] self.0@[j] == before[j],
                T::obeys_mul_spec() ==> forall|j: int|
                    0 <= j < i ==> #[trigger] self.0@[j] == before[j].mul_spec(rhs),
            decreases before.len() - i,
        {
            let x = self.0[i];
            self.0.set(i, x * rhs);
            i = i + 1;
        }
    }
}

impl<'a, T: Copy + Default + Add<Output = T> + Mul<Output = T>> MulAssign<&'a Polynomial<T>> for Polynomial<T> {
    /// Replaces `self` by the product `self * rhs`.
    fn mul_assign(&mut self, rhs: &'a Polynomial<T>)
        requires
            old(self).0.len() + rhs.0.len() <= usize::MAX + 1,
            forall|x: T, y: T| #[trigger] x.add_req(y),
            forall|x: T, y: T| #[trigger] x.mul_req(y),
        ensures
            old(self).0.len() == 0 || rhs.0.len() == 0 ==> final(self).0.len() == 1 && is_default(
                final(self).0@[0],
            ),
            old(self).0.len() > 0 && rhs.0.len() > 0 ==> final(self).0.len() == old(self).0.len()
                + rhs.0.len() - 1,
            old(self).0.len() > 0 && rhs.0.len() > 0 && T::obeys_add_spec() && T::obeys_mul_spec()
                ==> exists|zero: T|
                #[trigger] is_default(zero) && forall|k: int|
                    0 <= k < final(self).0.len() ==> #[trigger] final(self).0@[k] == product_coeff(
                        zero,
                        old(self).0@,
                        rhs.0@,
                        k,
                        old(self).0.len() as int,
                    ),
    {
        let lhs: &Polynomial<T> = &*self;
        let result = <&Polynomial<T> as Mul<&Polynomial<T>>>::mul(lhs, rhs);
        self.0 = result.0;
    }
}

} // verus!
