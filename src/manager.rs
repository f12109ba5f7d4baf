use vstd::prelude::*;

use crate::builder::{BuildComponents, ComponentBox, SharedComponentBox};
use crate::component::{ComponentStore, Slot, redirects_to, with_components, without_entity};
use crate::entity::{Entity, EntityStore};
use crate::key::TableKey;

verus! {

/// Creates one entity: components go into the store as they are added, and `build`
/// registers the entity with the entity store.
pub struct EntityBuilder<'a, E, K, V> {
    /// The entity being built.
    pub entity: Entity,
    /// The component store the components go into.
    pub component_store: &'a mut ComponentStore<K, V>,
    /// The entity store the entity is registered with.
    pub entity_store: &'a mut E,
}

/// The builder for the store keyed by component type.
pub type TypeEntityBuilder<'a, E, V> = EntityBuilder<'a, E, crate::key::TypeKey, V>;

impl<'a, E: EntityStore, K: TableKey, V> EntityBuilder<'a, E, K, V> {
    /// Adds `component` under `key`.
    pub fn with(self, key: K, component: V) -> (r: Self)
        requires
            old(self.component_store).wf(),
        ensures
            r.entity == self.entity,
            r.component_store.wf(),
            r.component_store.slots() == old(self.component_store).slots().insert(
                (self.entity, key@),
                Slot::Owned(component),
            ),
            *final(r.component_store) == *final(self.component_store),
            *final(r.entity_store) == *final(self.entity_store),
            *r.entity_store == *old(self.entity_store),
    {
        let b = self;
        b.component_store.register_component(b.entity, key, component);
        b
    }
    /// Adds a component under `key` that shares the value `source` holds under the same key.
    pub fn with_shared(self, key: K, source: Entity) -> (r: Self)
        requires
            old(self.component_store).wf(),
        ensures
            r.entity == self.entity,
            r.component_store.wf(),
            r.component_store.slots() == old(self.component_store).slots().insert(
                (self.entity, key@),
                r.component_store.slots()[(self.entity, key@)],
            ),
            redirects_to(r.component_store.slots(), (self.entity, key@), source, key@),
            *final(r.component_store) == *final(self.component_store),
            *final(r.entity_store) == *final(self.entity_store),
            *r.entity_store == *old(self.entity_store),
    {
        let b = self;
        b.component_store.register_shared_component(b.entity, key, source);
        b
    }

    /// Adds the components that a component builder collected.
    pub fn components(self, components: BuildComponents<K, V>) -> (r: Self)
        requires
            old(self.component_store).wf(),
            components.0.wf(),
            components.1.wf(),
        ensures
            r.entity == self.entity,
            r.component_store.wf(),
            r.component_store.slots() == with_components(
                old(self.component_store).slots(),
                self.entity,
                components.0@,
                components.1@,
            ),
            *final(r.component_store) == *final(self.component_store),
            *final(r.entity_store) == *final(self.entity_store),
            *r.entity_store == *old(self.entity_store),
    {
        let b = self;
        b.component_store.append(b.entity, components);
        b
    }

    /// Finishes the entity: registers it with the entity store and returns it.
    pub fn build(self) -> (r: Entity)
        ensures
            r == self.entity,
            *final(self.component_store) == *old(self.component_store),
            E::registered(*old(self.entity_store), *final(self.entity_store), self.entity),
    {
        self.entity_store.register_entity(self.entity);
        self.entity
    }
}

/// Owns the component store and the entity store, and hands out new entities.
pub struct EntityComponentManager<E, K, V> {
    component_store: ComponentStore<K, V>,
    entity_store: E,
    entity_counter: u32,
}

impl<E: EntityStore, K: TableKey, V> EntityComponentManager<E, K, V> {
    /// The component store.
    pub closed spec fn components(&self) -> ComponentStore<K, V> {
        self.component_store
    }

    /// The entity store.
    pub closed spec fn entities(&self) -> E {
        self.entity_store
    }

    /// The number of the next entity that `create_entity` hands out.
    pub closed spec fn next_entity(&self) -> u32 {
        self.entity_counter
    }

    pub open spec fn wf(&self) -> bool {
        self.components().wf()
    }

    /// Creates a manager with an empty component store around `entity_store`.
    pub fn new(entity_store: E) -> (r: Self)
        ensures
            r.wf(),
            r.components().slots() == Map::<(Entity, K::V), Slot<K, V>>::empty(),
            r.components().entities() == Seq::<Entity>::empty(),
            r.entities() == entity_store,
            r.next_entity() == 0,
    {
        EntityComponentManager { entity_counter: 0, component_store: ComponentStore::new(), entity_store }
    }

    /// Returns references to the entity store and the component store.
    pub fn stores(&self) -> (r: (&E, &ComponentStore<K, V>))
        ensures
            *r.0 == self.entities(),
            *r.1 == self.components(),
    {
        (&self.entity_store, &self.component_store)
    }

    /// Returns mutable references to the entity store and the component store.
    pub fn stores_mut(&mut self) -> (r: (&mut E, &mut ComponentStore<K, V>))
        ensures
            *r.0 == old(self).entities(),
            *r.1 == old(self).components(),
            final(self).entities() == *final(r.0),
            final(self).components() == *final(r.1),
            final(self).next_entity() == old(self).next_entity(),
    {
        (&mut self.entity_store, &mut self.component_store)
    }

    /// Returns a reference to the component store.
    pub fn component_store(&self) -> (r: &ComponentStore<K, V>)
        ensures
            *r == self.components(),
    {
        &self.component_store
    }

    /// Returns a mutable reference to the component store.
    pub fn component_store_mut(&mut self) -> (r: &mut ComponentStore<K, V>)
        ensures
            *r == old(self).components(),
            final(self).components() == *final(r),
            final(self).entities() == old(self).entities(),
            final(self).next_entity() == old(self).next_entity(),
    {
        &mut self.component_store
    }

    /// Returns a mutable reference to the entity store.
    pub fn entity_store(&mut self) -> (r: &mut E)
        ensures
            *r == old(self).entities(),
            final(self).entities() == *final(r),
            final(self).components() == old(self).components(),
            final(self).next_entity() == old(self).next_entity(),
    {
        &mut self.entity_store
    }

    /// Returns a mutable reference to the entity store.
    pub fn entity_store_mut(&mut self) -> (r: &mut E)
        ensures
            *r == old(self).entities(),
            final(self).entities() == *final(r),
            final(self).components() == old(self).components(),
            final(self).next_entity() == old(self).next_entity(),
    {
        &mut self.entity_store
    }

    /// Hands out the next entity, gives it a slot set, and returns a builder for it.
    pub fn create_entity(&mut self) -> (r: EntityBuilder<'_, E, K, V>)
        requires
            old(self).wf(),
            old(self).next_entity() < u32::MAX,
        ensures
            r.entity == Entity(old(self).next_entity()),
            r.component_store.wf(),
            r.component_store.slots() == old(self).components().slots(),
            r.component_store.entities() == if old(self).components().entities().contains(
                r.entity,
            ) {
                old(self).components().entities()
            } else {
                old(self).components().entities().push(r.entity)
            },
            *r.entity_store == old(self).entities(),
            final(self).components() == *final(r.component_store),
            final(self).entities() == *final(r.entity_store),
            final(self).next_entity() == old(self).next_entity() + 1,
    {
        let entity = Entity(self.entity_counter);
        self.component_store.register_entity(entity);
        self.entity_counter = self.entity_counter + 1;
        EntityBuilder {
            entity,
            component_store: &mut self.component_store,
            entity_store: &mut self.entity_store,
        }
    }

    /// Registers `entity` with the entity store and gives it a slot set.
    pub fn register_entity(&mut self, entity: Entity)
        requires
            old(self).wf(),
        ensures
            final(self).wf(),
            final(self).components().slots() == old(self).components().slots(),
            final(self).components().entities() == if old(self).components().entities().contains(
                entity,
            ) {
                old(self).components().entities()
            } else {
                old(self).components().entities().push(entity)
            },
            E::registered(old(self).entities(), final(self).entities(), entity),
            final(self).next_entity() == old(self).next_entity(),
    {
        self.entity_store.register_entity(entity);
        self.component_store.register_entity(entity);
    }

    /// Removes `entity` from both stores, with every slot it has.
    pub fn remove_entity(&mut self, entity: Entity)
        requires
            old(self).wf(),
        ensures
            final(self).wf(),
            final(self).components().slots() == without_entity(
                old(self).components().slots(),
                entity,
            ),
            forall|e: Entity| #[trigger]
                final(self).components().entities().contains(e) <==> old(self).components().entities().contains(e) && e != entity,
            E::removed(old(self).entities(), final(self).entities(), entity),
            final(self).next_entity() == old(self).next_entity(),
    {
        self.component_store.remove_entity(entity);
        self.entity_store.remove_entity(entity);
    }

    /// Puts `component` into the slot (`entity`, `key`).
    pub fn register_component(&mut self, entity: Entity, key: K, component: V)
        requires
            old(self).wf(),
        ensures
            final(self).wf(),
            final(self).components().slots() == old(self).components().slots().insert(
                (entity, key@),
                Slot::Owned(component),
            ),
            final(self).entities() == old(self).entities(),
            final(self).next_entity() == old(self).next_entity(),
    {
        self.component_store.register_component(entity, key, component);
    }

    /// Makes the slot (`target`, `key`) share the value of (`source`, `key`).
    pub fn register_shared_component(&mut self, target: Entity, key: K, source: Entity)
        requires
            old(self).wf(),
        ensures
            final(self).wf(),
            final(self).components().slots() == old(self).components().slots().insert(
                (target, key@),
                final(self).components().slots()[(target, key@)],
            ),
            redirects_to(final(self).components().slots(), (target, key@), source, key@),
            final(self).entities() == old(self).entities(),
            final(self).next_entity() == old(self).next_entity(),
    {
        self.component_store.register_shared_component(target, key, source);
    }

    /// Makes the slot of `target` under the box's key share the value of the box's source.
    pub fn register_shared_component_box(&mut self, target: Entity, source: SharedComponentBox<K>)
        requires
            old(self).wf(),
        ensures
            final(self).wf(),
            final(self).components().slots() == old(self).components().slots().insert(
                (target, source.key()@),
                final(self).components().slots()[(target, source.key()@)],
            ),
            redirects_to(
                final(self).components().slots(),
                (target, source.key()@),
                source.source(),
                source.key()@,
            ),
            final(self).entities() == old(self).entities(),
            final(self).next_entity() == old(self).next_entity(),
    {
        self.component_store.register_shared_component_box(target, source);
    }

    /// Puts the component of `component_box` into the slot of `entity` under its key.
    pub fn register_component_box(&mut self, entity: Entity, component_box: ComponentBox<K, V>)
        requires
            old(self).wf(),
        ensures
            final(self).wf(),
            final(self).components().slots() == old(self).components().slots().insert(
                (entity, component_box.key()@),
                Slot::Owned(component_box.component()),
            ),
            final(self).entities() == old(self).entities(),
            final(self).next_entity() == old(self).next_entity(),
    {
        self.component_store.register_component_box(entity, component_box);
    }
}

} // verus!
