//! A vector of three components, one for each axis. The library stores the
//! components and hands them out; it never computes with them, so it leaves
//! their type open. The host uses binary64 values.

use vstd::prelude::*;

verus! {

/// Three components: along x, along y and along z.
#[derive(Debug, Clone, Copy)]
pub struct Point<T>(pub T, pub T, pub T);

/// Whether `value` is what `T::default()` may give: the zero of a number
/// type.
pub open spec fn is_default<T: Default>(value: T) -> bool {
    call_ensures(T::default, (), value)
}

/// Whether every component of `p` is a default value.
pub open spec fn is_zero<T: Default>(p: Point<T>) -> bool {
    is_default(p.0) && is_default(p.1) && is_default(p.2)
}

impl<T: Copy + Default> Point<T> {
    /// The zero vector.
    pub fn new() -> (p: Point<T>)
        ensures
            is_zero(p),
    {
        Point(T::default(), T::default(), T::default())
    }

    /// The vector with the given components.
    pub fn from(x: T, y: T, z: T) -> (p: Point<T>)
        ensures
            p == Point(x, y, z),
    {
        Point(x, y, z)
    }

    /// The component along x.
    pub fn x(self) -> (x: T)
        ensures
            x == self.0,
    {
        self.0
    }

    /// The component along y.
    pub fn y(self) -> (y: T)
        ensures
            y == self.1,
    {
        self.1
    }

    /// The component along z.
    pub fn z(self) -> (z: T)
        ensures
            z == self.2,
    {
        self.2
    }
}

} // verus!
