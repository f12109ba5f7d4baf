use vstd::prelude::*;

use crate::entity::Entity;
use crate::key::{TableKey, TypeKey};
use crate::table::Table;

verus! {

/// A component value together with the key it is to be stored under.
pub struct ComponentBox<K, V> {
    component: V,
    type_id: K,
}

/// A request to share the value that `source` holds under a key.
pub struct SharedComponentBox<K> {
    source: Entity,
    type_id: K,
}

impl<K: TableKey> SharedComponentBox<K> {
    pub closed spec fn key(&self) -> K {
        self.type_id
    }

    pub closed spec fn source(&self) -> Entity {
        self.source
    }

    /// Creates the shared component box.
    pub fn new(type_id: K, source: Entity) -> (r: Self)
        ensures
            r.key() == type_id,
            r.source() == source,
    {
        SharedComponentBox { source, type_id }
    }

    /// Consumes the box and returns the key and the source.
    pub fn consume(self) -> (r: (K, Entity))
        ensures
            r == (self.key(), self.source()),
    {
        (self.type_id, self.source)
    }
}

impl<K: TableKey, V> ComponentBox<K, V> {
    pub closed spec fn key(&self) -> K {
        self.type_id
    }

    pub closed spec fn component(&self) -> V {
        self.component
    }

    /// Creates the component box.
    pub fn new(type_id: K, component: V) -> (r: Self)
        ensures
            r.key() == type_id,
            r.component() == component,
    {
        ComponentBox { component, type_id }
    }

    /// Consumes the box and returns the key and the component.
    pub fn consume(self) -> (r: (K, V))
        ensures
            r == (self.key(), self.component()),
    {
        (self.type_id, self.component)
    }
}

/// The components that a builder collected: owned values by key, and shared ones by key,
/// each with the source entity and the source's key.
pub type BuildComponents<K, V> = (Table<K, V>, Table<K, (Entity, K)>);

/// Collects the components of one entity before they are put into a store.
pub struct ComponentBuilder<K, V> {
    components: Table<K, V>,
    shared: Table<K, (Entity, K)>,
}

/// The builder for the store keyed by component type.
pub type TypeComponentBuilder<V> = ComponentBuilder<TypeKey, V>;

/// The builder for the store keyed by component name.
pub type StringComponentBuilder<V> = ComponentBuilder<String, V>;

impl<K: TableKey, V> Default for ComponentBuilder<K, V> {
    fn default() -> (r: Self)
        ensures
            r.wf(),
            r.owned() == Map::<K::V, V>::empty(),
            r.shared() == Map::<K::V, (Entity, K)>::empty(),
    {
        ComponentBuilder::new()
    }
}

impl<K: TableKey, V> ComponentBuilder<K, V> {
    /// The owned values collected so far.
    pub closed spec fn owned(&self) -> Map<K::V, V> {
        self.components@
    }

    /// The shared components collected so far.
    pub closed spec fn shared(&self) -> Map<K::V, (Entity, K)> {
        self.shared@
    }

    pub closed spec fn wf(&self) -> bool {
        self.components.wf() && self.shared.wf()
    }

    /// Creates an empty builder.
    pub fn new() -> (r: Self)
        ensures
            r.wf(),
            r.owned() == Map::<K::V, V>::empty(),
            r.shared() == Map::<K::V, (Entity, K)>::empty(),
    {
        ComponentBuilder { components: Table::new(), shared: Table::new() }
    }

    /// Adds `component` under `key`.
    pub fn with(self, key: K, component: V) -> (r: Self)
        requires
            self.wf(),
        ensures
            r.wf(),
            r.owned() == self.owned().insert(key@, component),
            r.shared() == self.shared(),
    {
        let mut b = self;
        b.components.insert(key, component);
        b
    }

    /// Adds a component under `key` that shares the value `source` holds under `source_key`.
    pub fn with_shared_source_key(self, key: K, source_key: K, source: Entity) -> (r: Self)
        requires
            self.wf(),
        ensures
            r.wf(),
            r.owned() == self.owned(),
            r.shared() == self.shared().insert(key@, (source, source_key)),
    {
        let mut b = self;
        b.shared.insert(key, (source, source_key));
        b
    }

    /// Adds a component under `key` that shares the value `source` holds under the same key.
    pub fn with_shared(self, key: K, source: Entity) -> (r: Self)
        requires
            self.wf(),
        ensures
            r.wf(),
            r.owned() == self.owned(),
            r.shared().dom() == self.shared().dom().insert(key@),
            r.shared() == self.shared().insert(key@, r.shared()[key@]),
            r.shared()[key@].0 == source && r.shared()[key@].1@ == key@,
    {
        let source_key = key.clone_key();
        self.with_shared_source_key(key, source_key, source)
    }

    /// Adds a shared component from a box.
    pub fn with_shared_box(self, source: SharedComponentBox<K>) -> (r: Self)
        requires
            self.wf(),
        ensures
            r.wf(),
            r.owned() == self.owned(),
            r.shared().dom() == self.shared().dom().insert(source.key()@),
            r.shared() == self.shared().insert(source.key()@, r.shared()[source.key()@]),
            r.shared()[source.key()@].0 == source.source() && r.shared()[source.key()@].1@
                == source.key()@,
    {
        let (key, entity) = source.consume();
        self.with_shared(key, entity)
    }

    /// Adds a component from a box.
    pub fn with_box(self, component_box: ComponentBox<K, V>) -> (r: Self)
        requires
            self.wf(),
        ensures
            r.wf(),
            r.owned() == self.owned().insert(component_box.key()@, component_box.component()),
            r.shared() == self.shared(),
    {
        let (key, component) = component_box.consume();
        self.with(key, component)
    }

    /// Finishes the builder, handing out what it collected.
    pub fn build(self) -> (r: BuildComponents<K, V>)
        requires
            self.wf(),
        ensures
            r.0.wf() && r.1.wf(),
            r.0@ == self.owned(),
            r.1@ == self.shared(),
    {
        (self.components, self.shared)
    }
}

} // verus!
