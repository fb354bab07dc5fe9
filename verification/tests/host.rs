use engine_core::host;
use engine_core::{EntityId, Name, Quat, Scalar, Transform, Vec3, World};

fn num(x: f64) -> Scalar {
    Scalar::from_bits(x.to_bits())
}

fn vec3(x: f64, y: f64, z: f64) -> Vec3 {
    Vec3::new(num(x), num(y), num(z))
}

#[test]
fn a_created_entity_has_its_name_and_the_identity_transform() {
    let mut world = World::new();
    let id = host::create_entity(&mut world, "Cube");
    assert_eq!(id, EntityId::new(0, 1).to_u32());
    assert!(host::is_alive(&world, id));
    assert_eq!(host::get_name(&world, id), Some("Cube".to_string()));
    assert_eq!(host::get_position(&world, id), Some(Vec3::zero()));
    assert_eq!(host::get_rotation(&world, id), Some(Quat::identity()));
    assert_eq!(host::get_scale(&world, id), Some(Vec3::one()));
    assert_eq!(world.entity_count(), 1);

    let second = host::create_entity(&mut world, "Sphere");
    assert_eq!(second, EntityId::new(1, 1).to_u32());
    assert_eq!(world.entity_count(), 2);
    assert_eq!(host::get_name(&world, id), Some("Cube".to_string()));
}

#[test]
fn setters_change_one_part_of_the_transform() {
    let mut world = World::new();
    let id = host::create_entity(&mut world, "Cube");
    assert!(host::set_position(&mut world, id, vec3(1.0, 2.0, 3.0)));
    assert!(host::set_scale(&mut world, id, vec3(2.0, 2.0, 2.0)));
    let turned = Quat::from_xyzw(num(0.0), num(1.0), num(0.0), num(0.0));
    assert!(host::set_rotation(&mut world, id, turned));
    assert!(host::set_name(&mut world, id, "Box"));

    assert_eq!(host::get_position(&world, id), Some(vec3(1.0, 2.0, 3.0)));
    assert_eq!(host::get_scale(&world, id), Some(vec3(2.0, 2.0, 2.0)));
    assert_eq!(host::get_rotation(&world, id), Some(turned));
    assert_eq!(host::get_name(&world, id), Some("Box".to_string()));

    assert!(host::set_position(&mut world, id, vec3(-1.0, 0.0, 0.0)));
    assert_eq!(host::get_position(&world, id), Some(vec3(-1.0, 0.0, 0.0)));
    assert_eq!(host::get_scale(&world, id), Some(vec3(2.0, 2.0, 2.0)));
    assert_eq!(host::get_rotation(&world, id), Some(turned));
}

#[test]
fn operations_on_a_deleted_entity_do_nothing() {
    let mut world = World::new();
    let id = host::create_entity(&mut world, "Cube");
    let other = host::create_entity(&mut world, "Other");
    assert!(host::delete_entity(&mut world, id));
    assert!(!host::delete_entity(&mut world, id));
    assert!(!host::is_alive(&world, id));
    assert!(host::is_alive(&world, other));

    assert!(!host::set_position(&mut world, id, vec3(1.0, 1.0, 1.0)));
    assert!(!host::set_rotation(&mut world, id, Quat::identity()));
    assert!(!host::set_scale(&mut world, id, vec3(1.0, 1.0, 1.0)));
    assert!(!host::set_name(&mut world, id, "Ghost"));
    assert_eq!(host::get_position(&world, id), None);
    assert_eq!(host::get_rotation(&world, id), None);
    assert_eq!(host::get_scale(&world, id), None);
    assert_eq!(host::get_name(&world, id), None);

    assert_eq!(host::get_name(&world, other), Some("Other".to_string()));
    assert_eq!(world.entity_count(), 1);
}

#[test]
fn setters_need_the_component_to_be_there() {
    let mut world = World::new();
    let bare = world.spawn();
    let id = bare.to_u32();
    assert!(!host::set_position(&mut world, id, vec3(1.0, 1.0, 1.0)));
    assert!(!host::set_name(&mut world, id, "Name"));
    assert_eq!(world.get::<Transform>(bare), None);
    assert_eq!(world.get::<Name>(bare), None);
    world.insert(bare, Name::new("first"));
    assert!(host::set_name(&mut world, id, "second"));
    assert_eq!(host::get_name(&world, id), Some("second".to_string()));
    assert_eq!(host::get_position(&world, id), None);
}

#[test]
fn a_packed_id_with_zero_generation_reads_as_generation_one() {
    let mut world = World::new();
    let id = host::create_entity(&mut world, "Cube");
    assert_eq!(id, (1 << 20) | 0);
    assert!(host::is_alive(&world, 0));
    assert_eq!(host::get_name(&world, 0), Some("Cube".to_string()));
    assert!(!host::is_alive(&world, 2 << 20));
    assert!(!host::is_alive(&world, 1));
}

#[test]
fn can_spawn_and_try_spawn_agree() {
    let mut world = World::new();
    assert!(world.can_spawn());
    let e = world.try_spawn();
    assert_eq!(e, Some(EntityId::new(0, 1)));
    assert!(world.despawn(e.unwrap()));
    assert!(world.can_spawn());
    assert_eq!(world.try_spawn(), Some(EntityId::new(0, 2)));
}
