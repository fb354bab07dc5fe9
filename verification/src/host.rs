//! The operations that a host drives the world by: entities by their packed
//! ids, components by plain values.
//!
//! Every operation on a packed id that names no alive entity does nothing
//! and says so in its result.

use crate::components::name::Name;
use crate::components::transform::Transform;
use crate::ecs::engine::{name_of, transform_of};
use crate::ecs::entity::{group_entity_id, EntityId};
use crate::ecs::world::{World, WorldView};
use crate::math::{Quat, Vec3};
use vstd::prelude::*;

verus! {

broadcast use group_entity_id;

/// Whether `after` is the content `before` with the name of one entity
/// set to a text, and nothing else changed.
pub open spec fn named(before: WorldView, after: WorldView, index: u32, name: Seq<char>) -> bool {
    &&& after == (WorldView { names: after.names, ..before })
    &&& after.names.contains_key(index)
    &&& after.names[index]@ == name
    &&& after.names.remove(index) == before.names.remove(index)
}

/// The content with a new transform for an entity.
pub open spec fn with_transform(view: WorldView, entity: EntityId, transform: Transform) -> WorldView {
    WorldView { transforms: view.transforms.insert(entity.spec_index(), transform), ..view }
}

/// Creates an entity with the given name and the identity transform, and
/// returns its packed id.
pub fn create_entity(world: &mut World, name: &str) -> (id: u32)
    requires
        old(world).wf(),
        old(world)@.can_spawn(),
    ensures
        final(world).wf(),
        id == old(world)@.next_entity().spec_to_u32(),
        final(world)@.is_alive(old(world)@.next_entity()),
        named(
            with_transform(
                old(world)@.after_spawn(),
                old(world)@.next_entity(),
                Transform::spec_identity(),
            ),
            final(world)@,
            old(world)@.next_entity().spec_index(),
            name@,
        ),
{
    let entity = world.spawn();
    world.insert(entity, Name::new(name));
    world.insert(entity, Transform::identity());
    proof {
        let spawned = old(world)@.after_spawn();
        let placed = with_transform(spawned, entity, Transform::spec_identity());
        assert(final(world)@.names.remove(entity.spec_index()) =~= placed.names.remove(
            entity.spec_index(),
        ));
    }
    entity.to_u32()
}

/// Destroys the entity with the given packed id. Returns whether there was one.
pub fn delete_entity(world: &mut World, id: u32) -> (r: bool)
    requires
        old(world).wf(),
    ensures
        final(world).wf(),
        r == old(world)@.is_alive(EntityId::spec_from_u32(id)),
        final(world)@ == if r {
            old(world)@.after_despawn(EntityId::spec_from_u32(id))
        } else {
            old(world)@
        },
{
    world.despawn(EntityId::from_u32(id))
}

/// Whether the packed id names an alive entity.
pub fn is_alive(world: &World, id: u32) -> (r: bool)
    ensures
        r == world@.is_alive(EntityId::spec_from_u32(id)),
{
    world.is_alive(EntityId::from_u32(id))
}

/// Moves an entity. Returns whether the entity is alive and has a transform.
pub fn set_position(world: &mut World, id: u32, position: Vec3) -> (r: bool)
    requires
        old(world).wf(),
    ensures
        final(world).wf(),
        match transform_of(old(world)@, EntityId::spec_from_u32(id)) {
            Some(t) => r && final(world)@ == with_transform(
                old(world)@,
                EntityId::spec_from_u32(id),
                Transform { position, ..t },
            ),
            None => !r && final(world)@ == old(world)@,
        },
{
    match world.get_mut::<Transform>(EntityId::from_u32(id)) {
        Some(transform) => {
            transform.position = position;
            true
        },
        None => false,
    }
}

/// Turns an entity. Returns whether the entity is alive and has a transform.
pub fn set_rotation(world: &mut World, id: u32, rotation: Quat) -> (r: bool)
    requires
        old(world).wf(),
    ensures
        final(world).wf(),
        match transform_of(old(world)@, EntityId::spec_from_u32(id)) {
            Some(t) => r && final(world)@ == with_transform(
                old(world)@,
                EntityId::spec_from_u32(id),
                Transform { rotation, ..t },
            ),
            None => !r && final(world)@ == old(world)@,
        },
{
    match world.get_mut::<Transform>(EntityId::from_u32(id)) {
        Some(transform) => {
            transform.rotation = rotation;
            true
        },
        None => false,
    }
}

/// Scales an entity. Returns whether the entity is alive and has a transform.
pub fn set_scale(world: &mut World, id: u32, scale: Vec3) -> (r: bool)
    requires
        old(world).wf(),
    ensures
        final(world).wf(),
        match transform_of(old(world)@, EntityId::spec_from_u32(id)) {
            Some(t) => r && final(world)@ == with_transform(
                old(world)@,
                EntityId::spec_from_u32(id),
                Transform { scale, ..t },
            ),
            None => !r && final(world)@ == old(world)@,
        },
{
    match world.get_mut::<Transform>(EntityId::from_u32(id)) {
        Some(transform) => {
            transform.scale = scale;
            true
        },
        None => false,
    }
}

/// Renames an entity. Returns whether the entity is alive and has a name.
pub fn set_name(world: &mut World, id: u32, name: &str) -> (r: bool)
    requires
        old(world).wf(),
    ensures
        final(world).wf(),
        r == (name_of(old(world)@, EntityId::spec_from_u32(id)) is Some),
        r ==> named(
            old(world)@,
            final(world)@,
            EntityId::spec_from_u32(id).spec_index(),
            name@,
        ),
        !r ==> final(world)@ == old(world)@,
{
    let entity = EntityId::from_u32(id);
    let stored = Name::new(name);
    match world.get_mut::<Name>(entity) {
        Some(slot) => {
            *slot = stored;
            proof {
                assert(final(world)@.names.remove(entity.spec_index()) =~= old(
                    world,
                )@.names.remove(entity.spec_index()));
            }
            true
        },
        None => false,
    }
}

/// The position of an entity, if it is alive and has a transform.
pub fn get_position(world: &World, id: u32) -> (r: Option<Vec3>)
    requires
        world.wf(),
    ensures
        r == (match transform_of(world@, EntityId::spec_from_u32(id)) {
            Some(t) => Some(t.position),
            None => None,
        }),
{
    match world.get::<Transform>(EntityId::from_u32(id)) {
        Some(t) => Some(t.position),
        None => None,
    }
}

/// The rotation of an entity, if it is alive and has a transform.
pub fn get_rotation(world: &World, id: u32) -> (r: Option<Quat>)
    requires
        world.wf(),
    ensures
        r == (match transform_of(world@, EntityId::spec_from_u32(id)) {
            Some(t) => Some(t.rotation),
            None => None,
        }),
{
    match world.get::<Transform>(EntityId::from_u32(id)) {
        Some(t) => Some(t.rotation),
        None => None,
    }
}

/// The scale of an entity, if it is alive and has a transform.
pub fn get_scale(world: &World, id: u32) -> (r: Option<Vec3>)
    requires
        world.wf(),
    ensures
        r == (match transform_of(world@, EntityId::spec_from_u32(id)) {
            Some(t) => Some(t.scale),
            None => None,
        }),
{
    match world.get::<Transform>(EntityId::from_u32(id)) {
        Some(t) => Some(t.scale),
        None => None,
    }
}

/// The name of an entity, if it is alive and has one.
pub fn get_name(world: &World, id: u32) -> (r: Option<String>)
    requires
        world.wf(),
    ensures
        match r {
            Some(name) => name_of(world@, EntityId::spec_from_u32(id)) matches Some(n) && n@
                == name@,
            None => name_of(world@, EntityId::spec_from_u32(id)) is None,
        },
{
    match world.get::<Name>(EntityId::from_u32(id)) {
        Some(name) => Some(name.to_string()),
        None => None,
    }
}

} // verus!
