use vstd::prelude::*;

use std::ops::{Add, AddAssign, Sub, SubAssign};
use vstd::std_specs::ops::{AddSpec, SubSpec};

verus! {

/// Position, velocity, acceleration and force of a moving body.
#[derive(Copy, Clone)]
pub struct Motion<T> {
    pub x: T,
    pub v: T,
    pub a: T,
    pub f: T,
}

impl<T: Copy + Default> Motion<T> {
    /// A body at rest at the origin: every quantity is the default (zero) value.
    pub fn new() -> (res: Self)
        ensures
            call_ensures(T::default, (), res.x),
            res.v == res.x,
            res.a == res.x,
            res.f == res.x,
    {
        let zero = T::default();
        Self { x: zero, v: zero, a: zero, f: zero }
    }
}

impl<T: Copy + Add<Output = T>> vstd::std_specs::ops::AddSpecImpl for Motion<T> {
    open spec fn obeys_add_spec() -> bool {
        T::obeys_add_spec()
    }

    open spec fn add_req(self, rhs: Motion<T>) -> bool {
        &&& self.x.add_req(rhs.x)
        &&& self.v.add_req(rhs.v)
        &&& self.a.add_req(rhs.a)
        &&& self.f.add_req(rhs.f)
    }

    open spec fn add_spec(self, rhs: Motion<T>) -> Motion<T> {
        Motion {
            x: self.x.add_spec(rhs.x),
            v: self.v.add_spec(rhs.v),
            a: self.a.add_spec(rhs.a),
            f: self.f.add_spec(rhs.f),
        }
    }
}

impl<T: Copy + Add<Output = T>> Add for Motion<T> {
    type Output = Motion<T>;

    /// Component-wise sum.
    fn add(self, rhs: Motion<T>) -> (res: Motion<T>) {
        Self { x: self.x + rhs.x, v: self.v + rhs.v, a: self.a + rhs.a, f: self.f + rhs.f }
    }
}

impl<T: Copy + Add<Output = T>> AddAssign for Motion<T> {
    /// Component-wise sum in place.
    fn add_assign(&mut self, rhs: Motion<T>)
        requires
            old(self).add_req(rhs),
        ensures
            T::obeys_add_spec() ==> *final(self) == old(self).add_spec(rhs),
    {
        self.x = self.x + rhs.x;
        self.v = self.v + rhs.v;
        self.a = self.a + rhs.a;
        self.f = self.f + rhs.f;
    }
}

impl<T: Copy + Sub<Output = T>> vstd::std_specs::ops::SubSpecImpl for Motion<T> {
    open spec fn obeys_sub_spec() -> bool {
        T::obeys_sub_spec()
    }

    open spec fn sub_req(self, rhs: Motion<T>) -> bool {
        &&& self.x.sub_req(rhs.x)
        &&& self.v.sub_req(rhs.v)
        &&& self.a.sub_req(rhs.a)
        &&& self.f.sub_req(rhs.f)
    }

    open spec fn sub_spec(self, rhs: Motion<T>) -> Motion<T> {
        Motion {
            x: self.x.sub_spec(rhs.x),
            v: self.v.sub_spec(rhs.v),
            a: self.a.sub_spec(rhs.a),
            f: self.f.sub_spec(rhs.f),
        }
    }
}

impl<T: Copy + Sub<Output = T>> Sub for Motion<T> {
    type Output = Motion<T>;

    /// Component-wise difference.
    fn sub(self, rhs: Motion<T>) -> (res: Motion<T>) {
        Self { x: self.x - rhs.x, v: self.v - rhs.v, a: self.a - rhs.a, f: self.f - rhs.f }
    }
}

impl<T: Copy + Sub<Output = T>> SubAssign for Motion<T> {
    /// Component-wise difference in place.
    fn sub_assign(&mut self, rhs: Motion<T>)
        requires
            old(self).sub_req(rhs),
        ensures
            T::obeys_sub_spec() ==> *final(self) == old(self).sub_spec(rhs),
    {
        self.x = self.x - rhs.x;
        self.v = self.v - rhs.v;
        self.a = self.a - rhs.a;
        self.f = self.f - rhs.f;
    }
}

} // verus!
