use super::component::Component;
use super::entity::{group_entity_id, EntityId};
use super::storage::ComponentStorage;
use crate::components::name::Name;
use crate::components::transform::Transform;
use vstd::prelude::*;

verus! {

broadcast use group_entity_id;

/// What the world keeps for each slot of its entity table.
#[derive(Debug, Clone, Copy, PartialEq, Eq, Structural)]
pub struct EntityMeta {
    /// Generation of the entity that lives, or last lived, in the slot.
    pub generation: u32,
    /// Whether an entity lives in the slot.
    pub alive: bool,
}

/// The alive entities among the first `n` slots, in increasing index order.
pub open spec fn alive_prefix(slots: Seq<EntityMeta>, n: nat) -> Seq<EntityId>
    decreases n,
{
    if n == 0 {
        Seq::empty()
    } else {
        let before = alive_prefix(slots, (n - 1) as nat);
        if slots[n - 1].alive {
            before.push(EntityId::spec_new((n - 1) as u32, slots[n - 1].generation))
        } else {
            before
        }
    }
}

/// The alive entities among the first `n` slots that have a component in
/// `table`, each with its component, in increasing index order.
pub open spec fn holders_prefix<T>(slots: Seq<EntityMeta>, table: Map<u32, T>, n: nat) -> Seq<
    (EntityId, T),
>
    decreases n,
{
    if n == 0 {
        Seq::empty()
    } else {
        let before = holders_prefix(slots, table, (n - 1) as nat);
        if slots[n - 1].alive && table.contains_key((n - 1) as u32) {
            before.push(
                (
                    EntityId::spec_new((n - 1) as u32, slots[n - 1].generation),
                    table[(n - 1) as u32],
                ),
            )
        } else {
            before
        }
    }
}

/// The mathematical content of a world.
pub ghost struct WorldView {
    /// The entity table, one entry for each slot ever allocated.
    pub slots: Seq<EntityMeta>,
    /// The indices that can be used again, the next one last.
    pub free: Seq<u32>,
    /// The transforms, by entity index.
    pub transforms: Map<u32, Transform>,
    /// The names, by entity index.
    pub names: Map<u32, Name>,
}

impl WorldView {
    /// Whether the handle names an entity that lives now: its slot exists,
    /// is alive and has the handle's generation.
    pub open spec fn is_alive(&self, entity: EntityId) -> bool {
        &&& entity.spec_index() < self.slots.len()
        &&& self.slots[entity.spec_index() as int].alive
        &&& self.slots[entity.spec_index() as int].generation == entity.spec_generation()
    }

    /// Whether the handle names an entity that was despawned: its slot is
    /// dead at the handle's generation, or has moved on to a later one.
    pub open spec fn is_retired(&self, entity: EntityId) -> bool {
        &&& entity.spec_index() < self.slots.len()
        &&& {
            let slot = self.slots[entity.spec_index() as int];
            slot.generation > entity.spec_generation() || (slot.generation
                == entity.spec_generation() && !slot.alive)
        }
    }

    /// All alive entities, in increasing index order.
    pub open spec fn alive_entities(&self) -> Seq<EntityId> {
        alive_prefix(self.slots, self.slots.len())
    }

    /// Number of alive entities.
    pub open spec fn alive_count(&self) -> nat {
        self.alive_entities().len()
    }

    /// The alive entities that have a component of the type, each with
    /// its component, in increasing index order.
    pub open spec fn holders<T: Registered>(&self) -> Seq<(EntityId, T)> {
        holders_prefix(self.slots, T::table(*self), self.slots.len())
    }

    /// What holds of the content of every world.
    pub open spec fn valid(&self) -> bool {
        &&& self.slots.len() <= 0x1_0000_0000
        &&& forall|i: int| 0 <= i < self.slots.len() ==> (#[trigger] self.slots[i]).generation >= 1
        &&& forall|k: int|
            0 <= k < self.free.len() ==> (#[trigger] self.free[k]) < self.slots.len()
                && !self.slots[self.free[k] as int].alive
        &&& forall|k: int, l: int|
            0 <= k < l < self.free.len() ==> #[trigger] self.free[k] != #[trigger] self.free[l]
        &&& forall|index: u32| #[trigger]
            self.transforms.contains_key(index) ==> index < self.slots.len()
                && self.slots[index as int].alive
        &&& forall|index: u32| #[trigger]
            self.names.contains_key(index) ==> index < self.slots.len()
                && self.slots[index as int].alive
    }

    /// Whether one operation on a world can lead from this content to
    /// `next`: a spawn, the despawn of an alive entity, or a change of
    /// components, which leaves the entity table and the free list alone.
    pub open spec fn steps_to(&self, next: WorldView) -> bool {
        ||| self.can_spawn() && next == self.after_spawn()
        ||| exists|entity: EntityId|
            self.is_alive(entity) && next == #[trigger] self.after_despawn(entity)
        ||| next.slots == self.slots && next.free == self.free
    }

    /// Whether every handle that is retired in this content is retired in `next`.
    pub open spec fn keeps_retired(&self, next: WorldView) -> bool {
        forall|entity: EntityId| #[trigger] self.is_retired(entity) ==> next.is_retired(entity)
    }

    /// Whether the handle `fresh` outlives every retired handle of its
    /// slot: its generation is greater than theirs.
    pub open spec fn outlived_by(&self, fresh: EntityId) -> bool {
        forall|entity: EntityId| #[trigger]
            self.is_retired(entity) && entity.spec_index() == fresh.spec_index()
                ==> fresh.spec_generation() > entity.spec_generation()
    }

    /// Whether another entity can be spawned within the limits of the
    /// 32-bit index and generation.
    pub open spec fn can_spawn(&self) -> bool {
        if self.free.len() > 0 {
            self.slots[self.free.last() as int].generation < u32::MAX
        } else {
            self.slots.len() <= u32::MAX
        }
    }

    /// The handle that the next spawn returns.
    pub open spec fn next_entity(&self) -> EntityId {
        if self.free.len() > 0 {
            EntityId::spec_new(
                self.free.last(),
                (self.slots[self.free.last() as int].generation + 1) as u32,
            )
        } else {
            EntityId::spec_new(self.slots.len() as u32, 1)
        }
    }

    /// The content after a spawn.
    pub open spec fn after_spawn(&self) -> WorldView {
        if self.free.len() > 0 {
            WorldView {
                slots: self.slots.update(
                    self.free.last() as int,
                    EntityMeta {
                        generation: (self.slots[self.free.last() as int].generation + 1) as u32,
                        alive: true,
                    },
                ),
                free: self.free.drop_last(),
                ..*self
            }
        } else {
            WorldView { slots: self.slots.push(EntityMeta { generation: 1, alive: true }), ..*self }
        }
    }

    /// The content after an alive entity was despawned: its slot is dead,
    /// its index can be used again, and no component is left of it.
    pub open spec fn after_despawn(&self, entity: EntityId) -> WorldView {
        WorldView {
            slots: self.slots.update(
                entity.spec_index() as int,
                EntityMeta { generation: entity.spec_generation(), alive: false },
            ),
            free: self.free.push(entity.spec_index()),
            transforms: self.transforms.remove(entity.spec_index()),
            names: self.names.remove(entity.spec_index()),
        }
    }
}

/// A despawned entity is retired.
pub proof fn lemma_despawn_retires(view: WorldView, entity: EntityId)
    requires
        view.is_alive(entity),
    ensures
        view.after_despawn(entity).is_retired(entity),
{
}

/// A retired entity is not alive.
pub proof fn lemma_retired_is_dead(view: WorldView, entity: EntityId)
    requires
        view.is_retired(entity),
    ensures
        !view.is_alive(entity),
{
}

/// A retired entity stays retired, whatever is done to the world: no handle
/// comes back to life.
pub proof fn lemma_retired_forever(view: WorldView, next: WorldView, entity: EntityId)
    requires
        view.valid(),
        view.steps_to(next),
        view.is_retired(entity),
    ensures
        next.is_retired(entity),
{
}

/// A retired entity is retired, and so not alive, at the end of every
/// history of a world: a sequence of valid contents, each one operation
/// away from the one before it.
pub proof fn lemma_retired_for_good(history: Seq<WorldView>, entity: EntityId)
    requires
        history.len() > 0,
        forall|i: int| 0 <= i < history.len() ==> (#[trigger] history[i]).valid(),
        forall|i: int| 0 <= i < history.len() - 1 ==> (#[trigger] history[i]).steps_to(history[i + 1]),
        history[0].is_retired(entity),
    ensures
        history.last().is_retired(entity),
        !history.last().is_alive(entity),
    decreases history.len(),
{
    if history.len() > 1 {
        let earlier = history.drop_last();
        assert forall|i: int| 0 <= i < earlier.len() - 1 implies (#[trigger] earlier[i]).steps_to(
            earlier[i + 1],
        ) by {
            assert(history[i].steps_to(history[i + 1]));
        }
        lemma_retired_for_good(earlier, entity);
        let before = history[history.len() - 2];
        assert(before == earlier.last());
        assert(before.steps_to(history[history.len() - 2 + 1]));
        lemma_retired_forever(before, history.last(), entity);
    }
}

/// The entity that a spawn returns is alive, and where it lives in the slot
/// of a retired entity, its generation is greater than that entity's.
pub proof fn lemma_spawn_outlives(view: WorldView, entity: EntityId)
    requires
        view.valid(),
        view.can_spawn(),
        view.is_retired(entity),
        view.next_entity().spec_index() == entity.spec_index(),
    ensures
        view.after_spawn().is_alive(view.next_entity()),
        view.after_spawn().is_retired(entity),
        view.next_entity().spec_generation() > entity.spec_generation(),
{
}

/// Nothing is left of a despawned entity: it is not alive, it has no
/// component in any table, and the alive entities are one fewer.
pub proof fn lemma_despawn_sweeps(view: WorldView, entity: EntityId)
    requires
        view.valid(),
        view.is_alive(entity),
    ensures
        !view.after_despawn(entity).is_alive(entity),
        !view.after_despawn(entity).transforms.contains_key(entity.spec_index()),
        !view.after_despawn(entity).names.contains_key(entity.spec_index()),
        view.after_despawn(entity).alive_count() == view.alive_count() - 1,
        view.after_despawn(entity).valid(),
{
    let dead = EntityMeta { generation: entity.spec_generation(), alive: false };
    lemma_alive_prefix_kill(view.slots, entity.spec_index() as int, dead, view.slots.len());
}

/// A spawn makes the alive entities one more.
pub proof fn lemma_spawn_counts(view: WorldView)
    requires
        view.valid(),
        view.can_spawn(),
    ensures
        view.after_spawn().alive_count() == view.alive_count() + 1,
        view.after_spawn().valid(),
{
    if view.free.len() > 0 {
        let index = view.free.last();
        let born = EntityMeta {
            generation: (view.slots[index as int].generation + 1) as u32,
            alive: true,
        };
        lemma_alive_prefix_revive(view.slots, index as int, born, view.slots.len());
    } else {
        let born = EntityMeta { generation: 1, alive: true };
        lemma_alive_prefix_ignores_later(view.slots, view.slots.push(born), view.slots.len());
    }
}

/// The alive entities among the first `n` slots depend on those slots alone.
proof fn lemma_alive_prefix_ignores_later(a: Seq<EntityMeta>, b: Seq<EntityMeta>, n: nat)
    requires
        n <= a.len(),
        n <= b.len(),
        forall|i: int| 0 <= i < n ==> a[i] == b[i],
    ensures
        alive_prefix(a, n) == alive_prefix(b, n),
    decreases n,
{
    if n > 0 {
        lemma_alive_prefix_ignores_later(a, b, (n - 1) as nat);
    }
}

/// Marking an alive slot dead takes one entity away from the alive ones.
proof fn lemma_alive_prefix_kill(slots: Seq<EntityMeta>, index: int, dead: EntityMeta, n: nat)
    requires
        0 <= index < slots.len(),
        slots[index].alive,
        !dead.alive,
        n <= slots.len(),
    ensures
        alive_prefix(slots.update(index, dead), n).len() == alive_prefix(slots, n).len() - (if index
            < n {
            1int
        } else {
            0int
        }),
    decreases n,
{
    if n > 0 {
        lemma_alive_prefix_kill(slots, index, dead, (n - 1) as nat);
    }
}

/// Marking a dead slot alive adds one entity to the alive ones.
proof fn lemma_alive_prefix_revive(slots: Seq<EntityMeta>, index: int, born: EntityMeta, n: nat)
    requires
        0 <= index < slots.len(),
        !slots[index].alive,
        born.alive,
        n <= slots.len(),
    ensures
        alive_prefix(slots.update(index, born), n).len() == alive_prefix(slots, n).len() + (if index
            < n {
            1int
        } else {
            0int
        }),
    decreases n,
{
    if n > 0 {
        lemma_alive_prefix_revive(slots, index, born, (n - 1) as nat);
    }
}

/// What the sequence of alive entities holds: each of its entities is
/// alive, their indices increase, and every alive entity is in it.
pub proof fn lemma_alive_entities(view: WorldView)
    requires
        view.valid(),
    ensures
        forall|k: int|
            0 <= k < view.alive_entities().len() ==> view.is_alive(
                #[trigger] view.alive_entities()[k],
            ),
        forall|k: int, l: int|
            0 <= k < l < view.alive_entities().len() ==> (#[trigger] view.alive_entities()[k]).spec_index()
                < (#[trigger] view.alive_entities()[l]).spec_index(),
        forall|entity: EntityId|
            view.is_alive(entity) ==> #[trigger] view.alive_entities().contains(entity),
{
    lemma_alive_prefix(view.slots, view.slots.len());
    assert forall|entity: EntityId| view.is_alive(entity) implies #[trigger]
        view.alive_entities().contains(entity) by {
        let k = choose|k: int|
            0 <= k < view.alive_entities().len() && #[trigger] view.alive_entities()[k]
                == EntityId::spec_new(
                entity.spec_index(),
                view.slots[entity.spec_index() as int].generation,
            );
        assert(view.alive_entities()[k] == entity);
    }
}

proof fn lemma_alive_prefix(slots: Seq<EntityMeta>, n: nat)
    requires
        n <= slots.len(),
        slots.len() <= 0x1_0000_0000,
    ensures
        forall|k: int|
            0 <= k < alive_prefix(slots, n).len() ==> {
                let entity = #[trigger] alive_prefix(slots, n)[k];
                &&& entity.spec_index() < n
                &&& slots[entity.spec_index() as int].alive
                &&& slots[entity.spec_index() as int].generation == entity.spec_generation()
            },
        forall|k: int, l: int|
            0 <= k < l < alive_prefix(slots, n).len() ==> (#[trigger] alive_prefix(
                slots,
                n,
            )[k]).spec_index() < (#[trigger] alive_prefix(slots, n)[l]).spec_index(),
        forall|i: int|
            0 <= i < n && slots[i].alive ==> exists|k: int|
                0 <= k < alive_prefix(slots, n).len() && #[trigger] alive_prefix(slots, n)[k]
                    == EntityId::spec_new(i as u32, (#[trigger] slots[i]).generation),
    decreases n,
{
    if n > 0 {
        lemma_alive_prefix(slots, (n - 1) as nat);
        let before = alive_prefix(slots, (n - 1) as nat);
        let now = alive_prefix(slots, n);
        assert forall|i: int| 0 <= i < n && slots[i].alive implies exists|k: int|
            0 <= k < now.len() && #[trigger] now[k] == EntityId::spec_new(
                i as u32,
                (#[trigger] slots[i]).generation,
            ) by {
            if i < n - 1 {
                let k = choose|k: int|
                    0 <= k < before.len() && #[trigger] before[k] == EntityId::spec_new(
                        i as u32,
                        slots[i].generation,
                    );
                assert(now[k] == before[k]);
            } else {
                assert(now[now.len() - 1] == EntityId::spec_new(i as u32, slots[i].generation));
            }
        }
    }
}

/// The components of a storage that may not exist yet, by entity index.
pub open spec fn table_of<T: Component>(slot: Option<ComponentStorage<T>>) -> Map<u32, T> {
    match slot {
        Some(storage) => storage@.map_values(|pair: (EntityId, T)| pair.1),
        None => Map::empty(),
    }
}

/// Whether a storage that may not exist yet fits an entity table: it is
/// well-formed, and it holds components of alive entities only, each under
/// the handle of the entity that lives in the slot.
pub open spec fn fits<T: Component>(
    slot: Option<ComponentStorage<T>>,
    slots: Seq<EntityMeta>,
) -> bool {
    match slot {
        Some(storage) => {
            &&& storage.wf()
            &&& forall|index: u32| #[trigger]
                storage@.contains_key(index) ==> {
                    &&& index < slots.len()
                    &&& slots[index as int].alive
                    &&& storage@[index].0 == EntityId::spec_new(
                        index,
                        slots[index as int].generation,
                    )
                }
        },
        None => true,
    }
}

/// The storages of a world: one for each component type it knows, each
/// created when the first component of its type is inserted.
pub struct Storages {
    transforms: Option<ComponentStorage<Transform>>,
    names: Option<ComponentStorage<Name>>,
}

impl Storages {
    /// The storage of the transforms, if one was created.
    pub closed spec fn transforms(&self) -> Option<ComponentStorage<Transform>> {
        self.transforms
    }

    /// The storage of the names, if one was created.
    pub closed spec fn names(&self) -> Option<ComponentStorage<Name>> {
        self.names
    }

    /// Every storage fits the entity table.
    pub open spec fn fits(&self, slots: Seq<EntityMeta>) -> bool {
        &&& fits(self.transforms(), slots)
        &&& fits(self.names(), slots)
    }

    fn new() -> (r: Self)
        ensures
            r.transforms() is None,
            r.names() is None,
    {
        Storages { transforms: None, names: None }
    }

    /// Removes the entity's component from every storage.
    fn remove_all(&mut self, entity: EntityId)
        requires
            old(self).transforms() matches Some(s) ==> s.wf(),
            old(self).names() matches Some(s) ==> s.wf(),
        ensures
            final(self).transforms() matches Some(s) ==> s.wf(),
            final(self).names() matches Some(s) ==> s.wf(),
            final(self).transforms() is Some == old(self).transforms() is Some,
            final(self).names() is Some == old(self).names() is Some,
            final(self).transforms() matches Some(s) ==> s@ == old(self).transforms()->0@.remove(
                entity.spec_index(),
            ),
            final(self).names() matches Some(s) ==> s@ == old(self).names()->0@.remove(
                entity.spec_index(),
            ),
    {
        match &mut self.transforms {
            Some(storage) => {
                storage.remove(entity);
            },
            None => {},
        }
        match &mut self.names {
            Some(storage) => {
                storage.remove(entity);
            },
            None => {},
        }
    }
}

/// The content of a world made of an entity table, a free list and storages.
pub open spec fn content(slots: Seq<EntityMeta>, free: Seq<u32>, storages: Storages) -> WorldView {
    WorldView {
        slots,
        free,
        transforms: table_of(storages.transforms()),
        names: table_of(storages.names()),
    }
}

/// Storages that fit the entity table of a valid content make a valid content with it.
proof fn lemma_fitting_content_is_valid(view: WorldView, storages: Storages)
    requires
        view.valid(),
        storages.fits(view.slots),
    ensures
        content(view.slots, view.free, storages).valid(),
{
}

/// A component type that the world keeps a storage for.
pub trait Registered: Component + Sized {
    /// The components of this type in the content of a world, by entity index.
    spec fn table(view: WorldView) -> Map<u32, Self>;

    /// The content with the components of this type replaced.
    spec fn with_table(view: WorldView, table: Map<u32, Self>) -> WorldView;

    /// The storage of this type among the storages.
    spec fn slot(storages: Storages) -> Option<ComponentStorage<Self>>;

    /// The storages with the storage of this type replaced.
    spec fn with_slot(storages: Storages, slot: Option<ComponentStorage<Self>>) -> Storages;

    /// Replacing the table of this type leaves the entity table and the
    /// free list alone, and the new table is the one that is then found.
    proof fn lemma_tables()
        ensures
            forall|view: WorldView, table: Map<u32, Self>|
                (#[trigger] Self::with_table(view, table)).slots == view.slots && Self::with_table(
                    view,
                    table,
                ).free == view.free && Self::table(Self::with_table(view, table)) == table,
    ;

    /// Replacing the storage of this type replaces its table in the content
    /// and nothing else, and keeps the storages fitting an entity table
    /// that the new storage fits.
    proof fn lemma_registered(
        storages: Storages,
        slot: Option<ComponentStorage<Self>>,
        slots: Seq<EntityMeta>,
        free: Seq<u32>,
    )
        ensures
            Self::slot(Self::with_slot(storages, slot)) == slot,
            Self::with_slot(storages, Self::slot(storages)) == storages,
            storages.fits(slots) ==> fits(Self::slot(storages), slots),
            storages.fits(slots) && fits(slot, slots) ==> Self::with_slot(storages, slot).fits(slots),
            Self::table(content(slots, free, storages)) == table_of(Self::slot(storages)),
            content(slots, free, Self::with_slot(storages, slot)) == Self::with_table(
                content(slots, free, storages),
                table_of(slot),
            ),
    ;

    /// The storage of this type.
    fn storage(storages: &Storages) -> (r: &Option<ComponentStorage<Self>>)
        ensures
            *r == Self::slot(*storages),
    ;

    /// Mutable access to the storage of this type.
    fn storage_mut(storages: &mut Storages) -> (r: &mut Option<ComponentStorage<Self>>)
        ensures
            *r == Self::slot(*old(storages)),
            *final(storages) == Self::with_slot(*old(storages), *final(r)),
    ;
}

impl Registered for Transform {
    open spec fn table(view: WorldView) -> Map<u32, Transform> {
        view.transforms
    }

    open spec fn with_table(view: WorldView, table: Map<u32, Transform>) -> WorldView {
        WorldView { transforms: table, ..view }
    }

    closed spec fn slot(storages: Storages) -> Option<ComponentStorage<Transform>> {
        storages.transforms
    }

    closed spec fn with_slot(
        storages: Storages,
        slot: Option<ComponentStorage<Transform>>,
    ) -> Storages {
        Storages { transforms: slot, ..storages }
    }

    proof fn lemma_tables() {
    }

    proof fn lemma_registered(
        storages: Storages,
        slot: Option<ComponentStorage<Transform>>,
        slots: Seq<EntityMeta>,
        free: Seq<u32>,
    ) {
    }

    fn storage(storages: &Storages) -> (r: &Option<ComponentStorage<Transform>>) {
        &storages.transforms
    }

    fn storage_mut(storages: &mut Storages) -> (r: &mut Option<ComponentStorage<Transform>>) {
        &mut storages.transforms
    }
}

impl Registered for Name {
    open spec fn table(view: WorldView) -> Map<u32, Name> {
        view.names
    }

    open spec fn with_table(view: WorldView, table: Map<u32, Name>) -> WorldView {
        WorldView { names: table, ..view }
    }

    closed spec fn slot(storages: Storages) -> Option<ComponentStorage<Name>> {
        storages.names
    }

    closed spec fn with_slot(storages: Storages, slot: Option<ComponentStorage<Name>>) -> Storages {
        Storages { names: slot, ..storages }
    }

    proof fn lemma_tables() {
    }

    proof fn lemma_registered(
        storages: Storages,
        slot: Option<ComponentStorage<Name>>,
        slots: Seq<EntityMeta>,
        free: Seq<u32>,
    ) {
    }

    fn storage(storages: &Storages) -> (r: &Option<ComponentStorage<Name>>) {
        &storages.names
    }

    fn storage_mut(storages: &mut Storages) -> (r: &mut Option<ComponentStorage<Name>>) {
        &mut storages.names
    }
}

/// The component that an entity has of a type, if it is alive and has one.
pub open spec fn component_of<T: Registered>(view: WorldView, entity: EntityId) -> Option<T> {
    if view.is_alive(entity) && T::table(view).contains_key(entity.spec_index()) {
        Some(T::table(view)[entity.spec_index()])
    } else {
        None
    }
}

/// The content after a component was stored for an entity.
pub open spec fn after_insert<T: Registered>(
    view: WorldView,
    entity: EntityId,
    component: T,
) -> WorldView {
    if view.is_alive(entity) {
        T::with_table(view, T::table(view).insert(entity.spec_index(), component))
    } else {
        view
    }
}

/// The content after the component of a type was taken away from an entity.
pub open spec fn after_remove<T: Registered>(view: WorldView, entity: EntityId) -> WorldView {
    if view.is_alive(entity) && T::table(view).contains_key(entity.spec_index()) {
        T::with_table(view, T::table(view).remove(entity.spec_index()))
    } else {
        view
    }
}

/// What was stored for an alive entity is what it has, and what was taken
/// away from it, it has no more.
pub proof fn lemma_insert_get_remove<T: Registered>(
    view: WorldView,
    entity: EntityId,
    component: T,
)
    requires
        view.is_alive(entity),
    ensures
        component_of::<T>(after_insert(view, entity, component), entity) == Some(component),
        component_of::<T>(after_remove::<T>(after_insert(view, entity, component), entity), entity)
            is None,
        after_insert(view, entity, component).slots == view.slots,
        after_remove::<T>(view, entity).slots == view.slots,
{
    T::lemma_tables();
}

/// A handle that names no alive entity changes nothing, whatever is stored
/// for it or taken away from it, and has no component.
pub proof fn lemma_dead_handle_is_inert<T: Registered>(
    view: WorldView,
    entity: EntityId,
    component: T,
)
    requires
        !view.is_alive(entity),
    ensures
        after_insert(view, entity, component) == view,
        after_remove::<T>(view, entity) == view,
        component_of::<T>(view, entity) is None,
{
}

/// The world: the entity table, the free list of indices, and the storages.
pub struct World {
    entities: Vec<EntityMeta>,
    free_list: Vec<u32>,
    storages: Storages,
}

impl View for World {
    type V = WorldView;

    closed spec fn view(&self) -> WorldView {
        content(self.entities@, self.free_list@, self.storages)
    }
}

impl World {
    /// The invariant of the world: its content is valid, and its storages
    /// fit its entity table.
    pub closed spec fn wf(&self) -> bool {
        &&& self@.valid()
        &&& self.storages.fits(self.entities@)
    }

    /// The content of a well-formed world is valid.
    pub proof fn lemma_valid(&self)
        requires
            self.wf(),
        ensures
            self@.valid(),
    {
    }

    /// A world without entities.
    pub fn new() -> (r: Self)
        ensures
            r.wf(),
            r@.slots.len() == 0,
            r@.free.len() == 0,
            r@.transforms == Map::<u32, Transform>::empty(),
            r@.names == Map::<u32, Name>::empty(),
    {
        World { entities: Vec::new(), free_list: Vec::new(), storages: Storages::new() }
    }

    /// Whether another entity can be spawned within the limits of the
    /// 32-bit index and generation.
    pub fn can_spawn(&self) -> (r: bool)
        requires
            self.wf(),
        ensures
            r == self@.can_spawn(),
    {
        let free: usize = self.free_list.len();
        if free > 0 {
            let index: usize = self.free_list[free - 1] as usize;
            assert(self@.free[free - 1] < self@.slots.len());
            self.entities[index].generation < u32::MAX
        } else {
            self.entities.len() <= u32::MAX as usize
        }
    }

    /// Creates an entity if another one can be spawned, and does nothing otherwise.
    pub fn try_spawn(&mut self) -> (r: Option<EntityId>)
        requires
            old(self).wf(),
        ensures
            final(self).wf(),
            match r {
                Some(entity) => {
                    &&& old(self)@.can_spawn()
                    &&& entity == old(self)@.next_entity()
                    &&& final(self)@ == old(self)@.after_spawn()
                    &&& final(self)@.is_alive(entity)
                    &&& old(self)@.outlived_by(entity)
                },
                None => !old(self)@.can_spawn() && final(self)@ == old(self)@,
            },
            old(self)@.steps_to(final(self)@),
            old(self)@.keeps_retired(final(self)@),
    {
        if self.can_spawn() {
            Some(self.spawn())
        } else {
            None
        }
    }

    /// Creates an entity, in the slot freed last if there is one and in a
    /// new slot otherwise.
    pub fn spawn(&mut self) -> (r: EntityId)
        requires
            old(self).wf(),
            old(self)@.can_spawn(),
        ensures
            final(self).wf(),
            r == old(self)@.next_entity(),
            final(self)@ == old(self)@.after_spawn(),
            final(self)@.is_alive(r),
            old(self)@.steps_to(final(self)@),
            old(self)@.keeps_retired(final(self)@),
            old(self)@.outlived_by(r),
    {
        match self.free_list.pop() {
            Some(index) => {
                let slot: usize = index as usize;
                let generation: u32 = self.entities[slot].generation + 1;
                self.entities[slot] = EntityMeta { generation, alive: true };
                assert(self@ =~= old(self)@.after_spawn());
                assert(self@.valid());
                EntityId::new(index, generation)
            },
            None => {
                let index: u32 = self.entities.len() as u32;
                self.entities.push(EntityMeta { generation: 1, alive: true });
                assert(self@ =~= old(self)@.after_spawn());
                EntityId::new(index, 1)
            },
        }
    }

    /// Whether the handle names an entity that lives now.
    pub fn is_alive(&self, entity: EntityId) -> (r: bool)
        ensures
            r == self@.is_alive(entity),
    {
        let index: usize = entity.index() as usize;
        if index >= self.entities.len() {
            return false;
        }
        let meta = self.entities[index];
        meta.alive && meta.generation == entity.generation()
    }

    /// Destroys an entity and every component of it. Returns whether the
    /// handle named an alive entity; if not, nothing changes.
    pub fn despawn(&mut self, entity: EntityId) -> (r: bool)
        requires
            old(self).wf(),
        ensures
            final(self).wf(),
            r == old(self)@.is_alive(entity),
            final(self)@ == if r {
                old(self)@.after_despawn(entity)
            } else {
                old(self)@
            },
            r ==> final(self)@.is_retired(entity),
            old(self)@.steps_to(final(self)@),
            old(self)@.keeps_retired(final(self)@),
    {
        let index: usize = entity.index() as usize;
        if index >= self.entities.len() {
            return false;
        }
        let meta = self.entities[index];
        if !meta.alive || meta.generation != entity.generation() {
            return false;
        }
        self.entities[index] = EntityMeta { generation: meta.generation, alive: false };
        self.free_list.push(entity.index());
        self.storages.remove_all(entity);
        proof {
            let before = old(self)@;
            let after = before.after_despawn(entity);
            assert(self@.transforms =~= after.transforms);
            assert(self@.names =~= after.names);
            assert(self@ =~= after);
        }
        true
    }

    /// The storage of a component type, if one was created.
    fn get_storage<T: Registered>(&self) -> (r: Option<&ComponentStorage<T>>)
        requires
            self.wf(),
        ensures
            match r {
                Some(storage) => fits(Some(*storage), self.entities@) && table_of(Some(*storage))
                    == T::table(self@),
                None => T::table(self@) == Map::<u32, T>::empty(),
            },
    {
        proof {
            T::lemma_registered(self.storages, None, self.entities@, self.free_list@);
        }
        T::storage(&self.storages).as_ref()
    }

    /// Whether `after` is this world with the storage of one component type replaced.
    spec fn replaced<T: Registered>(&self, after: &World, stored: ComponentStorage<T>) -> bool {
        &&& after.entities == self.entities
        &&& after.free_list == self.free_list
        &&& after.storages == T::with_slot(self.storages, Some(stored))
    }

    /// Mutable access to the storage of a component type, if one was created.
    fn get_storage_mut<T: Registered>(&mut self) -> (r: Option<&mut ComponentStorage<T>>)
        requires
            old(self).wf(),
        ensures
            match r {
                Some(storage) => {
                    &&& Some(*storage) == T::slot(old(self).storages)
                    &&& fits(Some(*storage), old(self).entities@)
                    &&& table_of(Some(*storage)) == T::table(old(self)@)
                    &&& old(self).replaced(final(self), *final(storage))
                },
                None => T::table(old(self)@) == Map::<u32, T>::empty() && *final(self) == *old(
                    self,
                ),
            },
    {
        proof {
            T::lemma_registered(self.storages, None, self.entities@, self.free_list@);
        }
        T::storage_mut(&mut self.storages).as_mut()
    }

    /// Mutable access to the storage of a component type, which is created
    /// if there is none yet.
    fn get_or_create_storage<T: Registered>(&mut self) -> (r: &mut ComponentStorage<T>)
        requires
            old(self).wf(),
        ensures
            fits(Some(*r), old(self).entities@),
            table_of(Some(*r)) == T::table(old(self)@),
            old(self).replaced(final(self), *final(r)),
    {
        proof {
            T::lemma_registered(self.storages, None, self.entities@, self.free_list@);
        }
        let r = T::storage_mut(&mut self.storages).get_or_insert(ComponentStorage::new());
        assert(table_of(Some(*r)) =~= T::table(old(self)@));
        r
    }

    /// What replacing a storage by one that fits does to a well-formed world.
    proof fn lemma_replaced<T: Registered>(&self, after: &World, storage: ComponentStorage<T>)
        requires
            self.wf(),
            self.replaced(after, storage),
            fits(Some(storage), self.entities@),
        ensures
            after.wf(),
            after@ == T::with_table(self@, table_of(Some(storage))),
    {
        T::lemma_registered(self.storages, Some(storage), self.entities@, self.free_list@);
        lemma_fitting_content_is_valid(self@, after.storages);
    }

    /// What a new value for a stored component does to a well-formed world.
    proof fn lemma_component_set<T: Registered>(
        &self,
        after: &World,
        stored_before: ComponentStorage<T>,
        stored: ComponentStorage<T>,
        index: u32,
        component: T,
    )
        requires
            self.wf(),
            Some(stored_before) == T::slot(self.storages),
            self.replaced(after, stored),
            stored.wf(),
            stored_before@.contains_key(index),
            stored@ == stored_before@.insert(index, (stored_before@[index].0, component)),
        ensures
            after.wf(),
            after@ == T::with_table(self@, T::table(self@).insert(index, component)),
    {
        T::lemma_registered(self.storages, None, self.entities@, self.free_list@);
        assert forall|other: u32| #[trigger] stored@.contains_key(other) implies {
            &&& other < self.entities@.len()
            &&& self.entities@[other as int].alive
            &&& stored@[other].0 == EntityId::spec_new(other, self.entities@[other as int].generation)
        } by {
            assert(stored_before@.contains_key(other));
        }
        assert(table_of(Some(stored)) =~= T::table(self@).insert(index, component));
        self.lemma_replaced::<T>(after, stored);
    }

    /// Stores a component for an alive entity, in place of the one it has
    /// of that type. Does nothing for any other handle.
    pub fn insert<T: Registered>(&mut self, entity: EntityId, component: T)
        requires
            old(self).wf(),
        ensures
            final(self).wf(),
            final(self)@ == after_insert(old(self)@, entity, component),
            old(self)@.steps_to(final(self)@),
            old(self)@.keeps_retired(final(self)@),
    {
        proof {
            T::lemma_tables();
        }
        if !self.is_alive(entity) {
            return ;
        }
        assert(self.entities.len() == self.entities@.len());
        let storage = self.get_or_create_storage::<T>();
        let ghost stored_before = *storage;
        storage.insert(entity, component);
        let ghost stored = *storage;
        proof {
            assert forall|index: u32| #[trigger] stored@.contains_key(index) implies {
                &&& index < old(self).entities@.len()
                &&& old(self).entities@[index as int].alive
                &&& stored@[index].0 == EntityId::spec_new(
                    index,
                    old(self).entities@[index as int].generation,
                )
            } by {
                if index == entity.spec_index() {
                    if stored_before.position(index) is Some {
                        assert(stored_before@.contains_key(index));
                    }
                } else {
                    assert(stored_before@.contains_key(index));
                }
            }
            assert(table_of(Some(stored)) =~= T::table(old(self)@).insert(
                entity.spec_index(),
                component,
            ));
            old(self).lemma_replaced::<T>(self, stored);
        }
    }

    /// The component of an alive entity, if it has one of the type.
    pub fn get<T: Registered>(&self, entity: EntityId) -> (r: Option<&T>)
        requires
            self.wf(),
        ensures
            match r {
                Some(component) => component_of::<T>(self@, entity) == Some(*component),
                None => component_of::<T>(self@, entity) is None,
            },
    {
        if !self.is_alive(entity) {
            return None;
        }
        match self.get_storage::<T>() {
            Some(storage) => storage.get(entity),
            None => None,
        }
    }

    /// Mutable access to the component of an alive entity, if it has one of
    /// the type.
    pub fn get_mut<T: Registered>(&mut self, entity: EntityId) -> (r: Option<&mut T>)
        requires
            old(self).wf(),
        ensures
            final(self).wf(),
            match r {
                Some(component) => {
                    &&& component_of::<T>(old(self)@, entity) == Some(*component)
                    &&& final(self)@ == after_insert(old(self)@, entity, *final(component))
                },
                None => {
                    &&& component_of::<T>(old(self)@, entity) is None
                    &&& final(self)@ == old(self)@
                },
            },
            old(self)@.steps_to(final(self)@),
            old(self)@.keeps_retired(final(self)@),
    {
        proof {
            T::lemma_tables();
        }
        if !self.is_alive(entity) {
            return None;
        }
        match self.get_storage_mut::<T>() {
            Some(storage) => {
                let ghost stored_before = *storage;
                let ghost index = entity.spec_index();
                proof {
                    T::lemma_registered(
                        old(self).storages,
                        Some(stored_before),
                        old(self).entities@,
                        old(self).free_list@,
                    );
                    assert forall|after: World, stored: ComponentStorage<T>, component: T|
                        {
                            &&& #[trigger] old(self).replaced(&after, stored)
                            &&& stored.wf()
                            &&& stored_before@.contains_key(index)
                            &&& stored@ == #[trigger] stored_before@.insert(
                                index,
                                (stored_before@[index].0, component),
                            )
                        } implies after.wf() && after@ == T::with_table(
                        old(self)@,
                        T::table(old(self)@).insert(index, component),
                    ) by {
                        old(self).lemma_component_set::<T>(
                            &after,
                            stored_before,
                            stored,
                            index,
                            component,
                        );
                    }
                }
                storage.get_mut(entity)
            },
            None => None,
        }
    }

    /// Takes the component of the type away from an alive entity and returns it.
    pub fn remove<T: Registered>(&mut self, entity: EntityId) -> (r: Option<T>)
        requires
            old(self).wf(),
        ensures
            final(self).wf(),
            r == component_of::<T>(old(self)@, entity),
            final(self)@ == after_remove::<T>(old(self)@, entity),
            old(self)@.steps_to(final(self)@),
            old(self)@.keeps_retired(final(self)@),
    {
        proof {
            T::lemma_tables();
        }
        if !self.is_alive(entity) {
            return None;
        }
        match self.get_storage_mut::<T>() {
            Some(storage) => {
                let ghost stored_before = *storage;
                let r = storage.remove(entity);
                let ghost stored = *storage;
                proof {
                    assert forall|index: u32| #[trigger] stored@.contains_key(index) implies {
                        &&& index < old(self).entities@.len()
                        &&& old(self).entities@[index as int].alive
                        &&& stored@[index].0 == EntityId::spec_new(
                            index,
                            old(self).entities@[index as int].generation,
                        )
                    } by {
                        assert(stored_before@.contains_key(index));
                    }
                    if stored_before.position(entity.spec_index()) is Some {
                        assert(table_of(Some(stored)) =~= T::table(old(self)@).remove(
                            entity.spec_index(),
                        ));
                    } else {
                        assert(table_of(Some(stored)) =~= T::table(old(self)@));
                    }
                    old(self).lemma_replaced::<T>(self, stored);
                    T::lemma_registered(
                        old(self).storages,
                        Some(stored_before),
                        old(self).entities@,
                        old(self).free_list@,
                    );
                }
                r
            },
            None => None,
        }
    }

    /// All alive entities, in increasing index order.
    pub fn iter_entities(&self) -> (r: Vec<EntityId>)
        requires
            self.wf(),
        ensures
            r@ == self@.alive_entities(),
    {
        let mut alive: Vec<EntityId> = Vec::new();
        let mut index: usize = 0;
        while index < self.entities.len()
            invariant
                self.wf(),
                index <= self.entities@.len(),
                alive@ == alive_prefix(self.entities@, index as nat),
            decreases self.entities@.len() - index,
        {
            let meta = self.entities[index];
            if meta.alive {
                alive.push(EntityId::new(index as u32, meta.generation));
            }
            index += 1;
        }
        alive
    }

    /// Number of alive entities.
    pub fn entity_count(&self) -> (r: usize)
        requires
            self.wf(),
        ensures
            r == self@.alive_count(),
    {
        let mut count: usize = 0;
        let mut index: usize = 0;
        while index < self.entities.len()
            invariant
                self.wf(),
                index <= self.entities@.len(),
                count == alive_prefix(self.entities@, index as nat).len(),
                count <= index,
            decreases self.entities@.len() - index,
        {
            if self.entities[index].alive {
                count += 1;
            }
            index += 1;
        }
        count
    }

    /// The alive entities that have a component of the type, each with its
    /// component, in increasing index order.
    pub fn iter_with<T: Registered>(&self) -> (r: Vec<(EntityId, &T)>)
        requires
            self.wf(),
        ensures
            r@.len() == self@.holders::<T>().len(),
            forall|k: int|
                0 <= k < r@.len() ==> (#[trigger] r@[k]).0 == self@.holders::<T>()[k].0 && *r@[k].1
                    == self@.holders::<T>()[k].1,
    {
        let mut pairs: Vec<(EntityId, &T)> = Vec::new();
        let storage = match self.get_storage::<T>() {
            Some(storage) => storage,
            None => {
                proof {
                    lemma_no_holders(self.entities@, T::table(self@), self.entities@.len());
                }
                return pairs;
            },
        };
        let mut index: usize = 0;
        while index < self.entities.len()
            invariant
                self.wf(),
                storage.wf(),
                fits(Some(*storage), self.entities@),
                table_of(Some(*storage)) == T::table(self@),
                index <= self.entities@.len(),
                pairs@.len() == holders_prefix(self.entities@, T::table(self@), index as nat).len(),
                forall|k: int|
                    0 <= k < pairs@.len() ==> (#[trigger] pairs@[k]).0 == holders_prefix(
                        self.entities@,
                        T::table(self@),
                        index as nat,
                    )[k].0 && *pairs@[k].1 == holders_prefix(
                        self.entities@,
                        T::table(self@),
                        index as nat,
                    )[k].1,
            decreases self.entities@.len() - index,
        {
            let meta = self.entities[index];
            if meta.alive {
                let entity = EntityId::new(index as u32, meta.generation);
                match storage.get(entity) {
                    Some(component) => {
                        pairs.push((entity, component));
                    },
                    None => {},
                }
            }
            index += 1;
        }
        pairs
    }
}

/// Nothing holds a component of an empty table.
proof fn lemma_no_holders<T>(slots: Seq<EntityMeta>, table: Map<u32, T>, n: nat)
    requires
        table == Map::<u32, T>::empty(),
    ensures
        holders_prefix(slots, table, n) == Seq::<(EntityId, T)>::empty(),
    decreases n,
{
    if n > 0 {
        lemma_no_holders(slots, table, (n - 1) as nat);
    }
}

impl Default for World {
    fn default() -> (r: Self)
        ensures
            r.wf(),
            r@.slots.len() == 0,
            r@.free.len() == 0,
            r@.transforms == Map::<u32, Transform>::empty(),
            r@.names == Map::<u32, Name>::empty(),
    {
        Self::new()
    }
}

} // verus!
