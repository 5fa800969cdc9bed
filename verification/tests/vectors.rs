use datagen::base::{Metres2D, OrientedPosition2D, Vector};

#[test]
fn a_scalar_has_one_component() {
    assert_eq!(<i64 as Vector>::repr_length(), 1);
    assert_eq!(Vector::repr(&1_500_000i64), vec![1_500_000]);
    assert_eq!(<i64 as Vector>::from_repr(&vec![7]), Some(7));
    assert_eq!(<i64 as Vector>::from_repr(&vec![]), None);
    assert_eq!(<i64 as Vector>::from_repr(&vec![1, 2]), None);
}

#[test]
fn a_planar_vector_has_two_components() {
    assert_eq!(<Metres2D as Vector>::repr_length(), 2);
    assert_eq!(Metres2D::new(1, -2).repr(), vec![1, -2]);
    assert_eq!(Metres2D::from_repr(&vec![3, 4]), Some(Metres2D::new(3, 4)));
    assert_eq!(Metres2D::from_repr(&vec![3]), None);
    assert_eq!(Metres2D::from_repr(&vec![3, 4, 5]), None);
}

#[test]
fn the_length_of_a_scalar_is_its_magnitude() {
    assert_eq!(Vector::length(&1_500_000i64), 1_500_000);
    assert_eq!(Vector::length(&-1_500_000i64), 1_500_000);
    assert_eq!(Vector::length(&-3_000_000i64), 3_000_000);
    assert_eq!(Vector::length(&0i64), 0);
    assert_eq!(Vector::length(&i64::MAX), i64::MAX);
    assert_eq!(Vector::length(&(i64::MIN + 1)), i64::MAX);
    assert_eq!(Vector::length(&i64::MIN), i64::MAX);
}

#[test]
fn the_length_of_a_planar_vector_is_its_magnitude() {
    assert_eq!(Metres2D::new(3_000_000, 4_000_000).length(), 5_000_000);
    assert_eq!(Metres2D::new(0, -2_000_000).length(), 2_000_000);
    assert_eq!(Metres2D::new(0, 0).length(), 0);
}

#[test]
fn zero_is_zero() {
    assert_eq!(<i64 as Vector>::zero(), 0);
    assert_eq!(Metres2D::zero(), Metres2D::new(0, 0));
    assert!(Vector::is_zero(&0i64));
    assert!(!Vector::is_zero(&1i64));
    assert!(Metres2D::new(0, 0).is_zero());
    assert!(!Metres2D::new(0, 1).is_zero());
    assert!(!Metres2D::new(1, 0).is_zero());
}

#[test]
fn scalars_add_subtract_scale_and_divide() {
    assert_eq!(Vector::plus(1_000_000i64, 500_000), 1_500_000);
    assert_eq!(Vector::minus(1_000_000i64, 500_000), 500_000);
    assert_eq!(Vector::scaled(1_500_000i64, 2_000_000), 3_000_000);
    assert_eq!(Vector::divided(3_000_000i64, 2_000_000), 1_500_000);
    assert_eq!(Vector::plus(i64::MAX, 1), i64::MAX);
}

#[test]
fn planar_vectors_add_subtract_scale_and_divide_by_component() {
    let a = Metres2D::new(1_000_000, -2_000_000);
    let b = Metres2D::new(250_000, 500_000);
    assert_eq!(a.plus(b), Metres2D::new(1_250_000, -1_500_000));
    assert_eq!(a.minus(b), Metres2D::new(750_000, -2_500_000));
    assert_eq!(a.scaled(500_000), Metres2D::new(500_000, -1_000_000));
    assert_eq!(a.divided(500_000), Metres2D::new(2_000_000, -4_000_000));
    assert_eq!(Metres2D::new(i64::MAX, i64::MIN).plus(Metres2D::new(1, -1)), Metres2D::new(i64::MAX, i64::MIN));
}

#[test]
fn limiting_applies_to_every_component() {
    assert_eq!(Vector::limited_to(900_000i64, -500_000, 500_000), 500_000);
    assert_eq!(
        Metres2D::new(900_000, -900_000).limited_to(-500_000, 500_000),
        Metres2D::new(500_000, -500_000)
    );
    assert_eq!(Metres2D::new(100, -100).limited_to(-500_000, 500_000), Metres2D::new(100, -100));
}

#[test]
fn interpolation_applies_to_every_component() {
    assert_eq!(Vector::interpolate(0i64, 1_500_000, 1, 3), 500_000);
    assert_eq!(
        Metres2D::new(0, 10).interpolate(Metres2D::new(10, 0), 1, 2),
        Metres2D::new(5, 5)
    );
    assert_eq!(Metres2D::new(7, -7).interpolate(Metres2D::new(100, 100), 0, 9), Metres2D::new(7, -7));
}

#[test]
fn equality_compares_the_components() {
    assert!(Vector::same(&5i64, &5));
    assert!(!Vector::same(&5i64, &6));
    assert!(Metres2D::new(1, 2).same(&Metres2D::new(1, 2)));
    assert!(!Metres2D::new(1, 2).same(&Metres2D::new(1, 3)));
    assert!(!Metres2D::new(1, 2).same(&Metres2D::new(0, 2)));
    assert_eq!(Metres2D::new(1, 2), Metres2D::new(1, 2));
    assert_ne!(Metres2D::new(1, 2), Metres2D::new(2, 1));
}

#[test]
fn the_order_is_lexicographic() {
    assert!(Vector::precedes(&1i64, &2));
    assert!(!Vector::precedes(&2i64, &2));
    assert!(!Vector::precedes(&3i64, &2));
    assert!(Metres2D::new(1, 9).precedes(&Metres2D::new(2, 0)));
    assert!(Metres2D::new(1, 1).precedes(&Metres2D::new(1, 2)));
    assert!(!Metres2D::new(1, 2).precedes(&Metres2D::new(1, 2)));
    assert!(!Metres2D::new(2, 0).precedes(&Metres2D::new(1, 9)));
    assert!(!Metres2D::new(1, 3).precedes(&Metres2D::new(1, 2)));
}

#[test]
fn a_pose_holds_a_position_and_a_heading() {
    let pose = OrientedPosition2D::new(1_000_000, -2_000_000, 1_570_796);
    assert_eq!(pose.position, Metres2D::new(1_000_000, -2_000_000));
    assert_eq!(pose.rotation, 1_570_796);
    assert_eq!(pose.position.x, 1_000_000);
    assert_eq!(pose.position.y, -2_000_000);
}

#[test]
fn the_default_pose_is_the_origin() {
    let pose = OrientedPosition2D::default();
    assert_eq!(pose, OrientedPosition2D::new(0, 0, 0));
    assert_eq!(Metres2D::default(), Metres2D::new(0, 0));
}

#[test]
fn dividing_by_zero_saturates_every_component() {
    assert_eq!(Vector::divided(5i64, 0), i64::MAX);
    assert_eq!(Metres2D::new(3, -4).divided(0), Metres2D::new(i64::MAX, i64::MIN));
    assert_eq!(Metres2D::new(0, 0).divided(0), Metres2D::new(0, 0));
}

#[test]
fn scaling_a_scalar_scales_its_length() {
    // up to one step of rounding
    for x in [0i64, 1, -1, 1_500_000, -1_500_000, 333_333, -7_654_321] {
        for s in [0i64, 1, -1, 500_000, -500_000, 2_000_000, -3_333_333] {
            let scaled = Vector::scaled(x, s);
            let exact = (Vector::length(&x) as i128 * s.abs() as i128 / 1_000_000) as i64;
            let length = Vector::length(&scaled);
            assert!(exact <= length && length <= exact + 1);
        }
    }
    assert_eq!(Vector::length(&Vector::scaled(-1_500_000i64, 2_000_000)), 3_000_000);
    assert_eq!(Vector::length(&Vector::scaled(1_500_000i64, -2_000_000)), 3_000_000);
}

#[test]
fn scaling_a_planar_vector_scales_its_length() {
    let vectors = [
        Metres2D::new(3_000_000, 4_000_000),
        Metres2D::new(-3_000_000, 4_000_000),
        Metres2D::new(1, -1),
        Metres2D::new(0, 0),
        Metres2D::new(123_456, -7_654_321),
    ];
    for v in vectors {
        for s in [0i64, 1, -1, 500_000, -500_000, 2_000_000, -3_333_333] {
            let length = v.scaled(s).length() as i128 * 1_000_000;
            let n = v.length() as i128;
            let factor = s.abs() as i128;
            assert!(factor * n - 3_000_000 < length);
            assert!(length < factor * (n + 1) + 2_000_000);
        }
    }
    assert_eq!(Metres2D::new(3_000_000, 4_000_000).scaled(-2_000_000).length(), 10_000_000);
    assert_eq!(Metres2D::new(3_000_000, 4_000_000).scaled(500_000).length(), 2_500_000);
}
