use vstd::prelude::*;

verus! {

/// The dot (inner) product of two values of a vector type.
pub trait Dot {
    type Output;

    fn dot(self, rhs: Self) -> Self::Output;
}

/// The cross product of two values of a three-dimensional vector type.
pub trait Cross {
    type Output;

    fn cross(self, rhs: Self) -> Self::Output;
}

} // verus!
