use vstd::prelude::*;

use crate::entity::Entity;

verus! {

/// A key of a lookup table: equality and copying are decided on the key's view.
pub trait TableKey: View + Sized {
    fn same_key(&self, other: &Self) -> (r: bool)
        ensures
            r == (self@ == other@),
    ;

    fn clone_key(&self) -> (r: Self)
        ensures
            r@ == self@,
    ;
}

impl TableKey for u32 {
    fn same_key(&self, other: &Self) -> (r: bool) {
        *self == *other
    }

    fn clone_key(&self) -> (r: Self) {
        *self
    }
}

impl TableKey for String {
    fn same_key(&self, other: &Self) -> (r: bool) {
        self.eq(other)
    }

    fn clone_key(&self) -> (r: Self) {
        self.clone()
    }
}

/// Identifies a kind of component (one per component type in the type-keyed store).
#[derive(Copy, Clone, PartialEq, Eq, Structural, Hash, Debug, PartialOrd, Ord, Default)]
pub struct TypeKey(pub u32);

impl View for TypeKey {
    type V = u32;

    open spec fn view(&self) -> u32 {
        self.0
    }
}

impl TableKey for TypeKey {
    fn same_key(&self, other: &Self) -> (r: bool) {
        self.0 == other.0
    }

    fn clone_key(&self) -> (r: Self) {
        TypeKey(self.0)
    }
}

/// The address of one component slot: an entity and a key.
pub struct SlotKey<K> {
    pub entity: Entity,
    pub key: K,
}

impl<K: View> View for SlotKey<K> {
    type V = (Entity, K::V);

    open spec fn view(&self) -> (Entity, K::V) {
        (self.entity, self.key@)
    }
}

impl<K: TableKey> TableKey for SlotKey<K> {
    fn same_key(&self, other: &Self) -> (r: bool) {
        self.entity == other.entity && self.key.same_key(&other.key)
    }

    fn clone_key(&self) -> (r: Self) {
        SlotKey { entity: self.entity, key: self.key.clone_key() }
    }
}

} // verus!
