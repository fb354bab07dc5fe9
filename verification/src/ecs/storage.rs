use super::component::Component;
use super::entity::EntityId;
use vstd::prelude::*;

verus! {

/// The component stored under an entity's index, if there is one.
pub open spec fn stored<T>(view: Map<u32, (EntityId, T)>, entity: EntityId) -> Option<T> {
    if view.contains_key(entity.spec_index()) {
        Some(view[entity.spec_index()].1)
    } else {
        None
    }
}

/// The content of a storage after a component was stored under an entity:
/// it takes the place of the one stored under the same index, which keeps
/// the handle it was first stored under.
pub open spec fn after_insert<T>(
    view: Map<u32, (EntityId, T)>,
    entity: EntityId,
    component: T,
) -> Map<u32, (EntityId, T)> {
    if view.contains_key(entity.spec_index()) {
        view.insert(entity.spec_index(), (view[entity.spec_index()].0, component))
    } else {
        view.insert(entity.spec_index(), (entity, component))
    }
}

/// The content of a storage after the component stored under an entity's
/// index was removed.
pub open spec fn after_remove<T>(view: Map<u32, (EntityId, T)>, entity: EntityId) -> Map<
    u32,
    (EntityId, T),
> {
    view.remove(entity.spec_index())
}

/// What was inserted is what is found.
pub proof fn lemma_insert_then_get<T>(
    view: Map<u32, (EntityId, T)>,
    entity: EntityId,
    component: T,
)
    ensures
        stored(after_insert(view, entity, component), entity) == Some(component),
{
}

/// What was removed is found no more, and the components are one fewer.
pub proof fn lemma_remove_then_get<T>(view: Map<u32, (EntityId, T)>, entity: EntityId)
    requires
        view.dom().finite(),
        stored(view, entity) is Some,
    ensures
        stored(after_remove(view, entity), entity) is None,
        after_remove(view, entity).dom().len() == view.dom().len() - 1,
{
}

/// An insertion under one index leaves the components under the others as they were.
pub proof fn lemma_insert_keeps_others<T>(
    view: Map<u32, (EntityId, T)>,
    entity: EntityId,
    component: T,
    other: EntityId,
)
    requires
        other.spec_index() != entity.spec_index(),
    ensures
        stored(after_insert(view, entity, component), other) == stored(view, other),
{
}

/// A removal under one index leaves the components under the others as they were.
pub proof fn lemma_remove_keeps_others<T>(
    view: Map<u32, (EntityId, T)>,
    entity: EntityId,
    other: EntityId,
)
    requires
        other.spec_index() != entity.spec_index(),
    ensures
        stored(after_remove(view, entity), other) == stored(view, other),
{
}

/// Sparse-set storage of one component type.
///
/// `dense` holds the components without gaps, `entities` the handle each was
/// first stored under (aligned with `dense`), and `sparse` maps an entity
/// index to its position in `dense`.
pub struct ComponentStorage<T: Component> {
    dense: Vec<T>,
    entities: Vec<EntityId>,
    sparse: Vec<Option<usize>>,
}

impl<T: Component> ComponentStorage<T> {
    /// The sparse and dense arrays agree with each other.
    pub closed spec fn wf(&self) -> bool {
        &&& self.dense@.len() == self.entities@.len()
        &&& forall|i: int|
            0 <= i < self.sparse@.len() ==> (#[trigger] self.sparse@[i] matches Some(d) ==> d
                < self.dense@.len() && self.entities@[d as int].spec_index() == i)
        &&& forall|d: int|
            0 <= d < self.entities@.len() ==> (#[trigger] self.entities@[d].spec_index())
                < self.sparse@.len() && (self.sparse@[self.entities@[d].spec_index() as int]
                matches Some(p) && p == d)
    }

    /// The stored pairs of handle and component, in dense order.
    pub closed spec fn entries(&self) -> Seq<(EntityId, T)> {
        Seq::new(self.dense@.len(), |d: int| (self.entities@[d], self.dense@[d]))
    }

    /// The dense position of the component stored under an entity index.
    pub closed spec fn position(&self, index: u32) -> Option<int> {
        if index < self.sparse@.len() {
            match self.sparse@[index as int] {
                Some(d) => Some(d as int),
                None => None,
            }
        } else {
            None
        }
    }

    /// The storage as a map from entity index to the stored pair.
    pub open spec fn view(&self) -> Map<u32, (EntityId, T)> {
        Map::new(
            |index: u32| self.position(index) is Some,
            |index: u32| self.entries()[self.position(index)->0],
        )
    }

    /// How positions and entries relate in a well-formed storage.
    pub proof fn lemma_positions(&self)
        requires
            self.wf(),
        ensures
            forall|index: u32| #[trigger]
                self.position(index) matches Some(d) ==> 0 <= d < self.entries().len()
                    && self.entries()[d].0.spec_index() == index,
            forall|d: int|
                0 <= d < self.entries().len() ==> self.position(
                    (#[trigger] self.entries()[d]).0.spec_index(),
                ) == Some(d),
    {
        assert forall|d: int| 0 <= d < self.entries().len() implies self.position(
            (#[trigger] self.entries()[d]).0.spec_index(),
        ) == Some(d) by {
            let index = self.entities@[d].spec_index();
            assert(self.sparse@[index as int] matches Some(p) && p == d);
        }
    }

    /// A well-formed storage holds finitely many components, one for each
    /// dense entry.
    pub proof fn lemma_len(&self)
        requires
            self.wf(),
        ensures
            self@.dom().finite(),
            self@.dom().len() == self.entries().len(),
    {
        self.lemma_positions();
        let indices = self.entries().map_values(|pair: (EntityId, T)| pair.0.spec_index());
        assert forall|a: int, b: int|
            0 <= a < indices.len() && 0 <= b < indices.len() && a != b implies indices[a]
            != indices[b] by {
            assert(self.position(self.entries()[a].0.spec_index()) == Some(a));
            assert(self.position(self.entries()[b].0.spec_index()) == Some(b));
        }
        assert(indices.no_duplicates());
        indices.unique_seq_to_set();
        assert(self@.dom() =~= indices.to_set()) by {
            assert forall|index: u32| self@.dom().contains(index) implies indices.to_set().contains(
                index,
            ) by {
                let d = self.position(index)->0;
                assert(indices[d] == index);
            }
            assert forall|index: u32| indices.to_set().contains(index) implies self@.dom().contains(
                index,
            ) by {
                let d = choose|d: int| 0 <= d < indices.len() && indices[d] == index;
                assert(self.position(self.entries()[d].0.spec_index()) == Some(d));
            }
        }
    }

    /// A storage without components.
    pub fn new() -> (r: Self)
        ensures
            r.wf(),
            r.entries() == Seq::<(EntityId, T)>::empty(),
            r@ == Map::<u32, (EntityId, T)>::empty(),
            forall|index: u32| r.position(index) is None,
    {
        let r = Self { dense: Vec::new(), entities: Vec::new(), sparse: Vec::new() };
        assert(r.entries() =~= Seq::<(EntityId, T)>::empty());
        assert(r@ =~= Map::<u32, (EntityId, T)>::empty());
        r
    }

    /// Stores a component under an entity, overwriting in place the one
    /// already stored under the same index.
    pub fn insert(&mut self, entity: EntityId, component: T)
        requires
            old(self).wf(),
            entity.spec_index() < usize::MAX,
        ensures
            final(self).wf(),
            final(self)@ == after_insert(old(self)@, entity, component),
            match old(self).position(entity.spec_index()) {
                Some(d) => {
                    &&& final(self).entries() == old(self).entries().update(
                        d,
                        (old(self).entries()[d].0, component),
                    )
                    &&& final(self)@ == old(self)@.insert(
                        entity.spec_index(),
                        (old(self).entries()[d].0, component),
                    )
                },
                None => {
                    &&& final(self).entries() == old(self).entries().push((entity, component))
                    &&& final(self)@ == old(self)@.insert(entity.spec_index(), (entity, component))
                },
            },
            forall|other: u32|
                other != entity.spec_index() ==> final(self).position(other) == old(self).position(
                    other,
                ),
    {
        let index: usize = entity.index() as usize;
        while self.sparse.len() <= index
            invariant
                self.wf(),
                self.dense == old(self).dense,
                self.entities == old(self).entities,
                self.sparse@.len() >= old(self).sparse@.len(),
                forall|i: int|
                    0 <= i < old(self).sparse@.len() ==> self.sparse@[i] == old(self).sparse@[i],
                forall|i: int|
                    old(self).sparse@.len() <= i < self.sparse@.len() ==> self.sparse@[i] is None,
                index < usize::MAX,
            decreases index + 1 - self.sparse@.len(),
        {
            self.sparse.push(None);
        }
        assert(forall|other: u32| self.position(other) == old(self).position(other));
        assert(self.entries() =~= old(self).entries());
        match self.sparse[index] {
            Some(dense_index) => {
                self.dense[dense_index] = component;
                assert(self.entries() =~= old(self).entries().update(
                    dense_index as int,
                    (old(self).entries()[dense_index as int].0, component),
                ));
                assert(forall|other: u32| self.position(other) == old(self).position(other));
                assert(final(self)@ =~= old(self)@.insert(
                    entity.spec_index(),
                    (old(self).entries()[dense_index as int].0, component),
                ));
            },
            None => {
                let dense_index = self.dense.len();
                self.dense.push(component);
                self.entities.push(entity);
                self.sparse[index] = Some(dense_index);
                assert(self.entries() =~= old(self).entries().push((entity, component)));
                assert(forall|other: u32|
                    other != entity.spec_index() ==> self.position(other) == old(self).position(
                        other,
                    ));
                assert(self.position(entity.spec_index()) == Some(dense_index as int));
                assert(final(self)@ =~= old(self)@.insert(
                    entity.spec_index(),
                    (entity, component),
                ));
            },
        }
    }

    /// The component stored under an entity's index, if any.
    pub fn get(&self, entity: EntityId) -> (r: Option<&T>)
        requires
            self.wf(),
        ensures
            match r {
                Some(component) => stored(self@, entity) == Some(*component),
                None => stored(self@, entity) is None,
            },
    {
        let index: usize = entity.index() as usize;
        if index >= self.sparse.len() {
            return None;
        }
        match self.sparse[index] {
            Some(dense_index) => Some(&self.dense[dense_index]),
            None => None,
        }
    }

    /// Mutable access to the component stored under an entity's index, if any.
    pub fn get_mut(&mut self, entity: EntityId) -> (r: Option<&mut T>)
        requires
            old(self).wf(),
        ensures
            final(self).wf(),
            match r {
                Some(component) => {
                    &&& old(self)@.contains_key(entity.spec_index())
                    &&& *component == old(self)@[entity.spec_index()].1
                    &&& final(self)@ == old(self)@.insert(
                        entity.spec_index(),
                        (old(self)@[entity.spec_index()].0, *final(component)),
                    )
                    &&& final(self).entries() == old(self).entries().update(
                        old(self).position(entity.spec_index())->0,
                        (old(self)@[entity.spec_index()].0, *final(component)),
                    )
                },
                None => !old(self)@.contains_key(entity.spec_index()) && *final(self) == *old(
                    self,
                ),
            },
            forall|other: u32| final(self).position(other) == old(self).position(other),
            final(self).entries().len() == old(self).entries().len(),
    {
        let index: usize = entity.index() as usize;
        if index >= self.sparse.len() {
            return None;
        }
        match self.sparse[index] {
            Some(dense_index) => {
                let r = &mut self.dense[dense_index];
                Some(r)
            },
            None => None,
        }
    }

    /// Removes the component stored under an entity's index and returns it.
    ///
    /// The last dense entry takes the freed position, so that the dense
    /// arrays stay without gaps.
    pub fn remove(&mut self, entity: EntityId) -> (r: Option<T>)
        requires
            old(self).wf(),
        ensures
            final(self).wf(),
            r == stored(old(self)@, entity),
            final(self)@ == after_remove(old(self)@, entity),
            match old(self).position(entity.spec_index()) {
                Some(d) => {
                    &&& r == Some(old(self).entries()[d].1)
                    &&& r == Some(old(self)@[entity.spec_index()].1)
                    &&& final(self).entries() == old(self).entries().update(
                        d,
                        old(self).entries().last(),
                    ).drop_last()
                    &&& final(self)@ == old(self)@.remove(entity.spec_index())
                    &&& final(self).entries().len() == old(self).entries().len() - 1
                },
                None => {
                    &&& r is None
                    &&& final(self).entries() == old(self).entries()
                    &&& final(self)@ == old(self)@
                },
            },
            final(self).position(entity.spec_index()) is None,
            forall|other: u32|
                other != entity.spec_index() && old(self).position(other) is None
                    ==> final(self).position(other) is None,
    {
        let index: usize = entity.index() as usize;
        if index >= self.sparse.len() {
            assert(final(self)@ =~= old(self)@);
            return None;
        }
        let taken = self.sparse[index];
        let dense_index = match taken {
            Some(d) => d,
            None => {
                assert(final(self)@ =~= old(self)@);
                return None;
            },
        };
        proof {
            old(self).lemma_positions();
        }
        self.sparse[index] = None;
        let last_index = self.dense.len() - 1;
        if dense_index != last_index {
            let last_entity = self.entities[last_index];
            self.sparse[last_entity.index() as usize] = Some(dense_index);
            self.entities.swap_remove(dense_index);
            let removed = self.dense.swap_remove(dense_index);
            assert(self.entries() =~= old(self).entries().update(
                dense_index as int,
                old(self).entries().last(),
            ).drop_last());
            assert(self.wf());
            assert(final(self)@ =~= old(self)@.remove(entity.spec_index()));
            return Some(removed);
        }
        self.entities.pop();
        let removed = self.dense.pop();
        assert(self.entries() =~= old(self).entries().update(
            dense_index as int,
            old(self).entries().last(),
        ).drop_last());
        assert(self.wf());
        assert(final(self)@ =~= old(self)@.remove(entity.spec_index()));
        removed
    }

    /// The stored pairs in dense order. The order is that of insertion only
    /// until the first removal.
    pub fn iter(&self) -> (r: Vec<(EntityId, &T)>)
        requires
            self.wf(),
        ensures
            r@.len() == self.entries().len(),
            forall|d: int|
                0 <= d < r@.len() ==> (#[trigger] r@[d]).0 == self.entries()[d].0 && *r@[d].1
                    == self.entries()[d].1,
    {
        let mut pairs: Vec<(EntityId, &T)> = Vec::new();
        let mut d: usize = 0;
        while d < self.dense.len()
            invariant
                self.wf(),
                d <= self.dense@.len(),
                pairs@.len() == d,
                forall|k: int|
                    0 <= k < d ==> (#[trigger] pairs@[k]).0 == self.entries()[k].0 && *pairs@[k].1
                        == self.entries()[k].1,
            decreases self.dense@.len() - d,
        {
            pairs.push((self.entities[d], &self.dense[d]));
            d += 1;
        }
        pairs
    }

    /// The pair at a dense position, with mutable access to the component.
    pub fn iter_mut(&mut self, position: usize) -> (r: Option<(EntityId, &mut T)>)
        requires
            old(self).wf(),
        ensures
            final(self).wf(),
            match r {
                Some((entity, component)) => {
                    &&& position < old(self).entries().len()
                    &&& entity == old(self).entries()[position as int].0
                    &&& *component == old(self).entries()[position as int].1
                    &&& final(self).entries() == old(self).entries().update(
                        position as int,
                        (entity, *final(component)),
                    )
                    &&& final(self)@ == old(self)@.insert(
                        entity.spec_index(),
                        (entity, *final(component)),
                    )
                },
                None => position >= old(self).entries().len() && *final(self) == *old(self),
            },
            forall|other: u32| final(self).position(other) == old(self).position(other),
    {
        if position >= self.dense.len() {
            return None;
        }
        proof {
            old(self).lemma_positions();
        }
        let entity = self.entities[position];
        let component = &mut self.dense[position];
        Some((entity, component))
    }

    /// Number of stored components.
    pub fn len(&self) -> (r: usize)
        requires
            self.wf(),
        ensures
            r == self.entries().len(),
            r == self@.dom().len(),
    {
        proof {
            self.lemma_len();
        }
        self.dense.len()
    }

    /// Whether no component is stored.
    pub fn is_empty(&self) -> (r: bool)
        requires
            self.wf(),
        ensures
            r == (self.entries().len() == 0),
            r == (self@.dom().len() == 0),
    {
        proof {
            self.lemma_len();
        }
        self.dense.len() == 0
    }

    /// Whether a component is stored under the entity's index.
    pub fn contains(&self, entity: EntityId) -> (r: bool)
        requires
            self.wf(),
        ensures
            r == self@.contains_key(entity.spec_index()),
    {
        let index: usize = entity.index() as usize;
        if index >= self.sparse.len() {
            return false;
        }
        self.sparse[index].is_some()
    }
}

impl<T: Component> Default for ComponentStorage<T> {
    fn default() -> (r: Self)
        ensures
            r.wf(),
            r.entries() == Seq::<(EntityId, T)>::empty(),
            r@ == Map::<u32, (EntityId, T)>::empty(),
    {
        Self::new()
    }
}

} // verus!
