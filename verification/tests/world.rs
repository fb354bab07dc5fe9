use engine_core::{EntityId, Name, Scalar, Transform, Vec3, World};

fn num(x: f64) -> Scalar {
    Scalar::from_bits(x.to_bits())
}

fn at(x: f64, y: f64) -> Transform {
    Transform::from_position(Vec3::new(num(x), num(y), num(0.0)))
}

#[test]
fn test_spawn() {
    let mut world = World::new();
    let e1 = world.spawn();
    let e2 = world.spawn();

    assert_eq!(e1.index(), 0);
    assert_eq!(e2.index(), 1);
    assert_eq!(e1.generation(), 1);
    assert_eq!(e2.generation(), 1);
}

#[test]
fn test_despawn_and_reuse() {
    let mut world = World::new();
    let e1 = world.spawn();
    assert!(world.is_alive(e1));

    assert!(world.despawn(e1));
    assert!(!world.is_alive(e1));

    let e2 = world.spawn();
    assert_eq!(e2.index(), e1.index());
    assert_eq!(e2.generation(), 2);

    assert!(!world.is_alive(e1));
    assert!(world.is_alive(e2));
}

#[test]
fn world_test_insert_and_get() {
    let mut world = World::new();
    let entity = world.spawn();

    world.insert(entity, at(1.0, 2.0));

    assert_eq!(world.get::<Transform>(entity), Some(&at(1.0, 2.0)));
    assert_eq!(world.get::<Name>(entity), None);
}

#[test]
fn world_test_get_mut() {
    let mut world = World::new();
    let entity = world.spawn();
    world.insert(entity, at(1.0, 2.0));

    if let Some(t) = world.get_mut::<Transform>(entity) {
        t.position.x = num(10.0);
    }

    assert_eq!(world.get::<Transform>(entity), Some(&at(10.0, 2.0)));
}

#[test]
fn test_multiple_components() {
    let mut world = World::new();
    let entity = world.spawn();

    world.insert(entity, at(1.0, 2.0));
    world.insert(entity, Name::new("Player".to_string()));

    assert_eq!(world.get::<Transform>(entity), Some(&at(1.0, 2.0)));
    assert_eq!(world.get::<Name>(entity), Some(&Name::new("Player".to_string())));
}

#[test]
fn test_despawn_removes_components() {
    let mut world = World::new();
    let entity = world.spawn();
    world.insert(entity, at(1.0, 2.0));

    world.despawn(entity);

    assert_eq!(world.get::<Transform>(entity), None);
}

#[test]
fn test_iter_entities() {
    let mut world = World::new();
    let e1 = world.spawn();
    let e2 = world.spawn();
    let e3 = world.spawn();

    world.despawn(e2);

    let entities: Vec<_> = world.iter_entities().into_iter().collect();
    assert_eq!(entities.len(), 2);
    assert!(entities.contains(&e1));
    assert!(entities.contains(&e3));
}

#[test]
fn test_entity_count() {
    let mut world = World::new();
    assert_eq!(world.entity_count(), 0);

    let e1 = world.spawn();
    let _e2 = world.spawn();
    assert_eq!(world.entity_count(), 2);

    world.despawn(e1);
    assert_eq!(world.entity_count(), 1);
}

#[test]
fn test_remove_component() {
    let mut world = World::new();
    let entity = world.spawn();
    world.insert(entity, at(1.0, 2.0));

    let removed = world.remove::<Transform>(entity);
    assert_eq!(removed, Some(at(1.0, 2.0)));
    assert_eq!(world.get::<Transform>(entity), None);
}

#[test]
fn test_dead_entity_operations() {
    let mut world = World::new();
    let entity = world.spawn();
    world.despawn(entity);

    world.insert(entity, at(1.0, 2.0));
    assert_eq!(world.get::<Transform>(entity), None);
    assert_eq!(world.get_mut::<Transform>(entity), None);
    assert_eq!(world.remove::<Transform>(entity), None);
}

#[test]
fn generations_only_grow_over_many_reuses() {
    let mut world = World::new();
    let first = world.spawn();
    let mut old = first;
    for round in 0..50u32 {
        assert!(world.despawn(old));
        let next = world.spawn();
        assert_eq!(next.index(), first.index());
        assert_eq!(next.generation(), round + 2);
        assert!(next.generation() > old.generation());
        assert!(!world.is_alive(old));
        assert!(!world.is_alive(first));
        assert!(world.is_alive(next));
        old = next;
    }
    assert_eq!(world.entity_count(), 1);
}

#[test]
fn the_index_freed_last_is_used_first() {
    let mut world = World::new();
    let e0 = world.spawn();
    let e1 = world.spawn();
    let e2 = world.spawn();
    assert!(world.despawn(e0));
    assert!(world.despawn(e2));
    let a = world.spawn();
    let b = world.spawn();
    let c = world.spawn();
    assert_eq!((a.index(), a.generation()), (2, 2));
    assert_eq!((b.index(), b.generation()), (0, 2));
    assert_eq!((c.index(), c.generation()), (3, 1));
    assert!(world.is_alive(e1));
}

#[test]
fn despawn_of_a_stale_or_unknown_handle_changes_nothing() {
    let mut world = World::new();
    let e = world.spawn();
    world.insert(e, Name::new("kept"));
    assert!(!world.despawn(EntityId::new(7, 1)));
    assert!(!world.despawn(EntityId::new(e.index(), e.generation() + 1)));
    assert!(world.is_alive(e));
    assert_eq!(world.entity_count(), 1);
    assert_eq!(world.get::<Name>(e), Some(&Name::new("kept")));
    assert!(world.despawn(e));
    assert!(!world.despawn(e));
    assert_eq!(world.entity_count(), 0);
}

#[test]
fn despawn_sweeps_every_storage_and_counts_one_less() {
    let mut world = World::new();
    let keep = world.spawn();
    let gone = world.spawn();
    world.insert(keep, Name::new("keep"));
    world.insert(keep, at(1.0, 1.0));
    world.insert(gone, Name::new("gone"));
    world.insert(gone, at(2.0, 2.0));
    let before = world.entity_count();

    assert!(world.despawn(gone));

    assert_eq!(world.entity_count(), before - 1);
    assert_eq!(world.get::<Name>(gone), None);
    assert_eq!(world.get::<Transform>(gone), None);
    assert_eq!(world.get::<Name>(keep), Some(&Name::new("keep")));
    assert_eq!(world.get::<Transform>(keep), Some(&at(1.0, 1.0)));

    let reborn = world.spawn();
    assert_eq!(reborn.index(), gone.index());
    assert_eq!(world.get::<Name>(reborn), None);
    assert_eq!(world.get::<Transform>(reborn), None);
}

#[test]
fn a_dead_handle_leaves_the_world_as_it_was() {
    let mut world = World::new();
    let dead = world.spawn();
    world.insert(dead, Name::new("old"));
    assert!(world.despawn(dead));
    let heir = world.spawn();
    world.insert(heir, Name::new("heir"));

    world.insert(dead, Name::new("ghost"));
    world.insert(dead, at(3.0, 3.0));
    assert!(world.get_mut::<Name>(dead).is_none());
    assert_eq!(world.remove::<Name>(dead), None);

    assert_eq!(world.get::<Name>(heir), Some(&Name::new("heir")));
    assert_eq!(world.get::<Transform>(heir), None);
    assert_eq!(world.entity_count(), 1);
    assert_eq!(world.iter_entities(), vec![heir]);
}

#[test]
fn iter_entities_is_in_index_order_with_current_generations() {
    let mut world = World::new();
    let e0 = world.spawn();
    let e1 = world.spawn();
    let e2 = world.spawn();
    assert!(world.despawn(e1));
    let e1b = world.spawn();
    assert_eq!(world.iter_entities(), vec![e0, e1b, e2]);
    assert!(world.despawn(e0));
    assert_eq!(world.iter_entities(), vec![e1b, e2]);
}

#[test]
fn iter_with_pairs_each_holder_with_its_component() {
    let mut world = World::new();
    let e0 = world.spawn();
    let e1 = world.spawn();
    let e2 = world.spawn();
    world.insert(e2, at(2.0, 0.0));
    world.insert(e0, at(0.0, 0.0));
    world.insert(e1, Name::new("nameless in space"));

    let transforms = world.iter_with::<Transform>();
    assert_eq!(transforms, vec![(e0, &at(0.0, 0.0)), (e2, &at(2.0, 0.0))]);
    let names = world.iter_with::<Name>();
    assert_eq!(names, vec![(e1, &Name::new("nameless in space"))]);

    let empty = World::new();
    assert!(empty.iter_with::<Transform>().is_empty());
}

#[test]
fn insert_overwrites_and_remove_gives_back() {
    let mut world = World::new();
    let e = world.spawn();
    world.insert(e, Name::new("a"));
    world.insert(e, Name::new("b"));
    assert_eq!(world.get::<Name>(e), Some(&Name::new("b")));
    assert_eq!(world.remove::<Name>(e), Some(Name::new("b")));
    assert_eq!(world.remove::<Name>(e), None);
    assert_eq!(world.get::<Name>(e), None);
}

#[test]
fn has_component_knows_two_names() {
    let mut world = World::new();
    let e = world.spawn();
    world.insert(e, Name::new("n"));
    assert!(world.has_component(e, "Name"));
    assert!(!world.has_component(e, "Transform"));
    assert!(!world.has_component(e, "name"));
    assert!(!world.has_component(e, "Health"));
    world.insert(e, Transform::identity());
    assert!(world.has_component(e, "Transform"));
    world.despawn(e);
    assert!(!world.has_component(e, "Name"));
    assert!(!world.has_component(e, "Transform"));
}

#[test]
fn the_default_world_is_empty() {
    let world = World::default();
    assert_eq!(world.entity_count(), 0);
    assert!(world.iter_entities().is_empty());
}

#[test]
fn a_reused_slot_outlives_every_handle_it_had() {
    let mut world = World::new();
    let mut handles = Vec::new();
    let bystander = world.spawn();
    let mut current = world.spawn();
    for _ in 0..5 {
        handles.push(current);
        assert!(world.despawn(current));
        world.insert(bystander, Name::new("still here"));
        let next = world.try_spawn().unwrap();
        assert_eq!(next.index(), current.index());
        for old in handles.iter() {
            assert!(next.generation() > old.generation());
            assert!(!world.is_alive(*old));
        }
        assert!(world.is_alive(next));
        current = next;
    }
}
