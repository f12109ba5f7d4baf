use vstd::prelude::*;

verus! {

/// An opaque entity handle.
#[derive(Copy, Clone, PartialEq, Eq, Structural, Hash, Debug, PartialOrd, Ord, Default)]
pub struct Entity(pub u32);

impl From<u32> for Entity {
    fn from(u: u32) -> (r: Entity)
        ensures
            r == Entity(u),
    {
        Entity(u)
    }
}

impl vstd::std_specs::convert::FromSpecImpl<u32> for Entity {
    open spec fn obeys_from_spec() -> bool {
        true
    }

    open spec fn from_spec(u: u32) -> Entity {
        Entity(u)
    }
}

/// Keeps track of the live entities, for systems that iterate over them.
pub trait EntityStore: Sized {
    /// `after` is `before` with `entity` registered.
    spec fn registered(before: Self, after: Self, entity: Entity) -> bool;

    /// `after` is `before` with `entity` removed.
    spec fn removed(before: Self, after: Self, entity: Entity) -> bool;

    /// Registers `entity`.
    fn register_entity(&mut self, entity: Entity)
        ensures
            Self::registered(*old(self), *final(self), entity),
    ;

    /// Removes `entity`.
    fn remove_entity(&mut self, entity: Entity)
        ensures
            Self::removed(*old(self), *final(self), entity),
    ;
}

/// The default entity store: the live entities in order of registration.
pub struct VecEntityStore {
    pub inner: Vec<Entity>,
}

impl Default for VecEntityStore {
    fn default() -> (r: VecEntityStore)
        ensures
            r.inner@ == Seq::<Entity>::empty(),
    {
        VecEntityStore { inner: Vec::new() }
    }
}

impl EntityStore for VecEntityStore {
    /// Registering appends; registering an entity twice lists it twice.
    open spec fn registered(before: Self, after: Self, entity: Entity) -> bool {
        after.inner@ == before.inner@.push(entity)
    }

    /// Removing takes out the first occurrence; it does nothing to an absent entity.
    open spec fn removed(before: Self, after: Self, entity: Entity) -> bool {
        after.inner@ == before.inner@.remove_value(entity)
    }

    fn register_entity(&mut self, entity: Entity) {
        self.inner.push(entity);
    }

    fn remove_entity(&mut self, entity: Entity) {
        proof {
            self.inner@.index_of_first_ensures(entity);
        }
        let mut i: usize = 0;
        while i < self.inner.len()
            invariant
                self.inner@ == old(self).inner@,
                i <= self.inner@.len(),
                forall|j: int| 0 <= j < i ==> self.inner@[j] != entity,
                match old(self).inner@.index_of_first(entity) {
                    Some(index) => {
                        &&& old(self).inner@.contains(entity)
                        &&& 0 <= index < old(self).inner@.len()
                        &&& old(self).inner@[index] == entity
                        &&& forall|j: int| 0 <= j < index < old(self).inner@.len() ==> old(self).inner@[j] != entity
                    },
                    None => !old(self).inner@.contains(entity),
                },
            decreases self.inner@.len() - i,
        {
            if self.inner[i] == entity {
                proof {
                    assert(old(self).inner@.contains(entity));
                    let f = old(self).inner@.index_of_first(entity)->0;
                    assert(f == i as int);
                }
                self.inner.remove(i);
                return;
            }
            i = i + 1;
        }
        proof {
            if old(self).inner@.contains(entity) {
                let f = old(self).inner@.index_of_first(entity)->0;
                assert(self.inner@[f] == entity);
            }
        }
    }
}

} // verus!
