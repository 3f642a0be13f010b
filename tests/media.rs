use raytracer::media::media_at_hit;

// Three nested glass spheres A (0), B (1) and C (2): the ray enters A, then B,
// then C, leaves B, leaves C and finally leaves A.
const CROSSED: [usize; 6] = [0, 1, 2, 1, 2, 0];

#[test]
fn media_on_both_sides_of_each_nested_crossing() {
    let crossed = CROSSED.to_vec();
    let expected = [
        (None, Some(0)),
        (Some(0), Some(1)),
        (Some(1), Some(2)),
        (Some(2), Some(2)),
        (Some(2), Some(0)),
        (Some(0), None),
    ];
    for (hit, want) in expected.iter().enumerate() {
        assert_eq!(media_at_hit(&crossed, hit), *want, "crossing {}", hit);
    }
}

#[test]
fn single_sphere_entry_and_exit() {
    let crossed = vec![4, 4];
    assert_eq!(media_at_hit(&crossed, 0), (None, Some(4)));
    assert_eq!(media_at_hit(&crossed, 1), (Some(4), None));
}

#[test]
fn disjoint_objects_are_entered_from_empty_space() {
    let crossed = vec![0, 0, 1, 1];
    assert_eq!(media_at_hit(&crossed, 2), (None, Some(1)));
    assert_eq!(media_at_hit(&crossed, 3), (Some(1), None));
}

#[test]
fn leaving_an_outer_object_first() {
    // enter 0, enter 1, leave 0 while still inside 1
    let crossed = vec![0, 1, 0, 1];
    assert_eq!(media_at_hit(&crossed, 2), (Some(1), Some(1)));
    assert_eq!(media_at_hit(&crossed, 3), (Some(1), None));
}
