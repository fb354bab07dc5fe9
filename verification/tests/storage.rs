use engine_core::{Component, ComponentStorage, EntityId};

#[derive(Debug, PartialEq, Clone)]
struct Position {
    x: f32,
    y: f32,
}

impl Component for Position {}

#[test]
fn storage_test_insert_and_get() {
    let mut storage = ComponentStorage::new();
    let entity = EntityId::new(0, 1);
    let pos = Position { x: 1.0, y: 2.0 };

    storage.insert(entity, pos.clone());

    assert_eq!(storage.get(entity), Some(&pos));
    assert_eq!(storage.len(), 1);
}

#[test]
fn test_insert_overwrites() {
    let mut storage = ComponentStorage::new();
    let entity = EntityId::new(0, 1);

    storage.insert(entity, Position { x: 1.0, y: 2.0 });
    storage.insert(entity, Position { x: 3.0, y: 4.0 });

    assert_eq!(storage.get(entity), Some(&Position { x: 3.0, y: 4.0 }));
    assert_eq!(storage.len(), 1);
}

#[test]
fn storage_test_get_mut() {
    let mut storage = ComponentStorage::new();
    let entity = EntityId::new(0, 1);
    storage.insert(entity, Position { x: 1.0, y: 2.0 });

    if let Some(pos) = storage.get_mut(entity) {
        pos.x = 10.0;
    }

    assert_eq!(storage.get(entity), Some(&Position { x: 10.0, y: 2.0 }));
}

#[test]
fn test_remove() {
    let mut storage = ComponentStorage::new();
    let e1 = EntityId::new(0, 1);
    let e2 = EntityId::new(1, 1);
    let e3 = EntityId::new(2, 1);

    storage.insert(e1, Position { x: 1.0, y: 1.0 });
    storage.insert(e2, Position { x: 2.0, y: 2.0 });
    storage.insert(e3, Position { x: 3.0, y: 3.0 });

    let removed = storage.remove(e2);
    assert_eq!(removed, Some(Position { x: 2.0, y: 2.0 }));
    assert_eq!(storage.len(), 2);

    assert_eq!(storage.get(e1), Some(&Position { x: 1.0, y: 1.0 }));
    assert_eq!(storage.get(e2), None);
    assert_eq!(storage.get(e3), Some(&Position { x: 3.0, y: 3.0 }));
}

#[test]
fn test_remove_nonexistent() {
    let mut storage: ComponentStorage<Position> = ComponentStorage::new();
    let entity = EntityId::new(0, 1);
    assert_eq!(storage.remove(entity), None);
}

#[test]
fn test_iter() {
    let mut storage = ComponentStorage::new();
    let e1 = EntityId::new(0, 1);
    let e2 = EntityId::new(1, 1);

    storage.insert(e1, Position { x: 1.0, y: 1.0 });
    storage.insert(e2, Position { x: 2.0, y: 2.0 });

    let items: Vec<_> = storage.iter().into_iter().collect();
    assert_eq!(items.len(), 2);
}

#[test]
fn test_contains() {
    let mut storage = ComponentStorage::new();
    let e1 = EntityId::new(0, 1);
    let e2 = EntityId::new(1, 1);

    storage.insert(e1, Position { x: 1.0, y: 1.0 });

    assert!(storage.contains(e1));
    assert!(!storage.contains(e2));
}

#[test]
fn test_sparse_index_gap() {
    let mut storage = ComponentStorage::new();
    let entity = EntityId::new(100, 1);
    storage.insert(entity, Position { x: 1.0, y: 1.0 });

    assert_eq!(storage.get(entity), Some(&Position { x: 1.0, y: 1.0 }));
    assert_eq!(storage.len(), 1);
}

#[test]
fn iter_yields_pairs_in_dense_order() {
    let mut storage = ComponentStorage::new();
    let e1 = EntityId::new(5, 1);
    let e2 = EntityId::new(2, 3);
    storage.insert(e1, Position { x: 1.0, y: 1.0 });
    storage.insert(e2, Position { x: 2.0, y: 2.0 });

    let items = storage.iter();
    assert_eq!(items[0], (e1, &Position { x: 1.0, y: 1.0 }));
    assert_eq!(items[1], (e2, &Position { x: 2.0, y: 2.0 }));
}

#[test]
fn remove_moves_the_last_entry_into_the_gap() {
    let mut storage = ComponentStorage::new();
    let e1 = EntityId::new(0, 1);
    let e2 = EntityId::new(1, 1);
    let e3 = EntityId::new(2, 1);
    storage.insert(e1, Position { x: 1.0, y: 1.0 });
    storage.insert(e2, Position { x: 2.0, y: 2.0 });
    storage.insert(e3, Position { x: 3.0, y: 3.0 });

    storage.remove(e1);

    let items = storage.iter();
    assert_eq!(items.len(), 2);
    assert_eq!(items[0], (e3, &Position { x: 3.0, y: 3.0 }));
    assert_eq!(items[1], (e2, &Position { x: 2.0, y: 2.0 }));
}

#[test]
fn remove_of_the_last_entry_leaves_the_others_in_place() {
    let mut storage = ComponentStorage::new();
    let e1 = EntityId::new(0, 1);
    let e2 = EntityId::new(1, 1);
    storage.insert(e1, Position { x: 1.0, y: 1.0 });
    storage.insert(e2, Position { x: 2.0, y: 2.0 });

    assert_eq!(storage.remove(e2), Some(Position { x: 2.0, y: 2.0 }));

    let items = storage.iter();
    assert_eq!(items.len(), 1);
    assert_eq!(items[0], (e1, &Position { x: 1.0, y: 1.0 }));
    assert!(!storage.is_empty());
    assert_eq!(storage.remove(e1), Some(Position { x: 1.0, y: 1.0 }));
    assert!(storage.is_empty());
}

#[test]
fn overwrite_keeps_the_handle_first_stored() {
    let mut storage = ComponentStorage::new();
    let first = EntityId::new(4, 1);
    let later = EntityId::new(4, 2);
    storage.insert(first, Position { x: 1.0, y: 1.0 });
    storage.insert(later, Position { x: 9.0, y: 9.0 });

    let items = storage.iter();
    assert_eq!(items.len(), 1);
    assert_eq!(items[0], (first, &Position { x: 9.0, y: 9.0 }));
    assert!(storage.contains(later));
}

#[test]
fn insert_then_get_then_remove_round_trip() {
    let mut storage = ComponentStorage::new();
    let entity = EntityId::new(7, 2);
    let before = storage.len();
    storage.insert(entity, Position { x: 4.0, y: 5.0 });
    assert_eq!(storage.get(entity), Some(&Position { x: 4.0, y: 5.0 }));
    let with = storage.len();
    assert_eq!(with, before + 1);
    assert_eq!(storage.remove(entity), Some(Position { x: 4.0, y: 5.0 }));
    assert_eq!(storage.get(entity), None);
    assert_eq!(storage.len(), with - 1);
    assert_eq!(storage.remove(entity), None);
    assert_eq!(storage.len(), with - 1);
}

#[test]
fn iter_mut_gives_the_pair_at_a_position() {
    let mut storage = ComponentStorage::new();
    let e1 = EntityId::new(0, 1);
    let e2 = EntityId::new(1, 1);
    storage.insert(e1, Position { x: 1.0, y: 1.0 });
    storage.insert(e2, Position { x: 2.0, y: 2.0 });

    if let Some((entity, pos)) = storage.iter_mut(1) {
        assert_eq!(entity, e2);
        pos.y = 20.0;
    }
    assert!(storage.iter_mut(2).is_none());
    assert_eq!(storage.get(e2), Some(&Position { x: 2.0, y: 20.0 }));
    assert_eq!(storage.get(e1), Some(&Position { x: 1.0, y: 1.0 }));
}

#[test]
fn get_of_an_index_never_seen_is_nothing() {
    let mut storage = ComponentStorage::new();
    storage.insert(EntityId::new(1, 1), Position { x: 1.0, y: 1.0 });
    assert_eq!(storage.get(EntityId::new(0, 1)), None);
    assert_eq!(storage.get(EntityId::new(500, 1)), None);
    assert!(storage.get_mut(EntityId::new(500, 1)).is_none());
    assert!(!storage.contains(EntityId::new(500, 1)));
}
