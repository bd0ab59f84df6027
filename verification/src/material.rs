use vstd::prelude::*;

verus! {

/// A diffuse material that reflects light in random directions, tinted by its
/// albedo (the color type is left to the caller).
pub struct Lambertian<C> {
    albedo: C,
}

impl<C> Lambertian<C> {
    /// The albedo this material tints scattered light with.
    pub closed spec fn spec_albedo(&self) -> C {
        self.albedo
    }

    /// A diffuse material of the given albedo.
    pub fn new(albedo: C) -> (m: Self)
        ensures
            m.spec_albedo() == albedo,
    {
        Lambertian { albedo }
    }

    /// The albedo this material tints scattered light with.
    pub fn albedo(&self) -> (a: &C)
        ensures
            *a == self.spec_albedo(),
    {
        &self.albedo
    }
}

} // verus!
