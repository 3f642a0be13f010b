use vstd::prelude::*;

verus! {

/// The unit sphere centred at the object-space origin.
#[derive(Debug, Clone, Copy, PartialEq, Eq, Structural)]
pub struct Sphere;

/// The object-space x-z plane, whose normal is (0, 1, 0).
#[derive(Debug, Clone, Copy, PartialEq, Eq, Structural)]
pub struct Plane;

/// The closed choice of primitive a shape is built on.
#[derive(Debug, Clone, Copy, PartialEq, Eq, Structural)]
pub enum Geometry {
    Sphere(Sphere),
    Plane(Plane),
}

impl Sphere {
    pub fn new() -> (r: Sphere)
        ensures
            r == Sphere,
    {
        Sphere
    }
}

impl Default for Sphere {
    fn default() -> (r: Sphere)
        ensures
            r == Sphere,
    {
        Sphere
    }
}

impl Plane {
    pub fn new() -> (r: Plane)
        ensures
            r == Plane,
    {
        Plane
    }
}

impl Default for Plane {
    fn default() -> (r: Plane)
        ensures
            r == Plane,
    {
        Plane
    }
}

impl Geometry {
    pub fn sphere() -> (r: Geometry)
        ensures
            r == Geometry::Sphere(Sphere),
    {
        Geometry::Sphere(Sphere::new())
    }

    pub fn plane() -> (r: Geometry)
        ensures
            r == Geometry::Plane(Plane),
    {
        Geometry::Plane(Plane::new())
    }
}

} // verus!
