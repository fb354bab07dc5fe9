use engine_core::{Quat, Scalar, Transform, Vec3};

fn num(x: f64) -> Scalar {
    Scalar::from_bits(x.to_bits())
}

#[test]
fn test_identity() {
    let t = Transform::identity();
    assert_eq!(t.position, Vec3::zero());
    assert_eq!(t.rotation, Quat::identity());
    assert_eq!(t.scale, Vec3::one());
}

#[test]
fn test_from_position() {
    let t = Transform::from_position(Vec3::new(num(1.0), num(2.0), num(3.0)));
    assert_eq!(t.position, Vec3::new(num(1.0), num(2.0), num(3.0)));
    assert_eq!(t.rotation, Quat::identity());
    assert_eq!(t.scale, Vec3::one());
}

#[test]
fn identity_components_are_zero_and_one() {
    let t = Transform::identity();
    assert_eq!(f64::from_bits(t.position.x.to_bits()), 0.0);
    assert_eq!(f64::from_bits(t.position.y.to_bits()), 0.0);
    assert_eq!(f64::from_bits(t.position.z.to_bits()), 0.0);
    assert_eq!(f64::from_bits(t.rotation.x.to_bits()), 0.0);
    assert_eq!(f64::from_bits(t.rotation.y.to_bits()), 0.0);
    assert_eq!(f64::from_bits(t.rotation.z.to_bits()), 0.0);
    assert_eq!(f64::from_bits(t.rotation.w.to_bits()), 1.0);
    assert_eq!(f64::from_bits(t.scale.x.to_bits()), 1.0);
    assert_eq!(f64::from_bits(t.scale.y.to_bits()), 1.0);
    assert_eq!(f64::from_bits(t.scale.z.to_bits()), 1.0);
}

#[test]
fn default_transform_is_identity() {
    assert_eq!(Transform::default(), Transform::identity());
}

#[test]
fn new_keeps_its_parts() {
    let position = Vec3::new(num(1.5), num(-2.0), num(0.25));
    let rotation = Quat::from_xyzw(num(0.0), num(1.0), num(0.0), num(0.0));
    let scale = Vec3::new(num(2.0), num(3.0), num(4.0));
    let t = Transform::new(position, rotation, scale);
    assert_eq!(t.position, position);
    assert_eq!(t.rotation, rotation);
    assert_eq!(t.scale, scale);
}
