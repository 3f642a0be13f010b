use raytracer::shapes::{Geometry, Plane, Sphere};

#[test]
fn primitives_are_unit_values() {
    assert_eq!(Plane::new(), Plane);
    assert_eq!(Plane::default(), Plane::new());
    assert_eq!(Sphere::new(), Sphere);
    assert_eq!(Sphere::default(), Sphere::new());
}

#[test]
fn geometry_variants() {
    assert_eq!(Geometry::sphere(), Geometry::Sphere(Sphere));
    assert_eq!(Geometry::plane(), Geometry::Plane(Plane));
    assert_ne!(Geometry::sphere(), Geometry::plane());
}
