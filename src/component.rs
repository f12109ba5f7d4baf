use vstd::prelude::*;

use crate::builder::{BuildComponents, ComponentBox, SharedComponentBox};
use crate::entity::Entity;
use crate::error::NotFound;
use crate::key::{SlotKey, TableKey, TypeKey};
use crate::table::Table;

verus! {

/// What one (entity, key) slot holds: a value of its own, or a redirect to another slot.
pub enum Slot<K, V> {
    Owned(V),
    Shared(Entity, K),
}

/// The slots of a store, addressed by entity and key view.
pub type Slots<K, V> = Map<(Entity, <K as View>::V), Slot<K, V>>;

/// The slot that `at` resolves to when at most `fuel` redirects are followed.
pub open spec fn resolve_within<K: View, V>(slots: Slots<K, V>, at: (Entity, K::V), fuel: nat) -> Option<
    (Entity, K::V),
>
    decreases fuel,
{
    if !slots.contains_key(at) {
        None
    } else {
        match slots[at] {
            Slot::Owned(_) => Some(at),
            Slot::Shared(src, src_key) => if fuel == 0 {
                None
            } else {
                resolve_within(slots, (src, src_key@), (fuel - 1) as nat)
            },
        }
    }
}

/// The owned slot that `at` resolves to. A chain may take as many redirects as there are
/// slots; one that needs more revisits a slot, so it is a cycle and resolves to nothing.
pub open spec fn resolve<K: View, V>(slots: Slots<K, V>, at: (Entity, K::V)) -> Option<
    (Entity, K::V),
> {
    resolve_within(slots, at, slots.len())
}

/// True when `at` holds a value of its own.
pub open spec fn is_owned<K: View, V>(slots: Slots<K, V>, at: (Entity, K::V)) -> bool {
    slots.contains_key(at) && slots[at] is Owned
}

/// True when `at` holds a redirect.
pub open spec fn is_shared<K: View, V>(slots: Slots<K, V>, at: (Entity, K::V)) -> bool {
    slots.contains_key(at) && slots[at] is Shared
}

/// `slots` with the collected components of `entity` put in: shared ones first, then owned
/// ones, so an owned value wins over a shared one under the same key.
pub open spec fn with_components<K: View, V>(
    slots: Slots<K, V>,
    entity: Entity,
    owned: Map<K::V, V>,
    shared: Map<K::V, (Entity, K)>,
) -> Slots<K, V> {
    Map::new(
        |at: (Entity, K::V)|
            slots.contains_key(at) || (at.0 == entity && (owned.contains_key(at.1)
                || shared.contains_key(at.1))),
        |at: (Entity, K::V)|
            if at.0 == entity && owned.contains_key(at.1) {
                Slot::Owned(owned[at.1])
            } else if at.0 == entity && shared.contains_key(at.1) {
                Slot::Shared(shared[at.1].0, shared[at.1].1)
            } else {
                slots[at]
            },
    )
}

/// True when the slot `at` redirects straight to (`source`, `source_key`).
pub open spec fn redirects_to<K: View, V>(
    slots: Slots<K, V>,
    at: (Entity, K::V),
    source: Entity,
    source_key: K::V,
) -> bool {
    slots.contains_key(at) && match slots[at] {
        Slot::Shared(s, sk) => s == source && sk@ == source_key,
        Slot::Owned(_) => false,
    }
}

/// The slots that remain once every slot of `e` is gone.
pub open spec fn without_entity<K: View, V>(slots: Slots<K, V>, e: Entity) -> Slots<K, V> {
    Map::new(|at: (Entity, K::V)| slots.contains_key(at) && at.0 != e, |at: (Entity, K::V)| slots[at])
}

/// A resolved slot is present and owned.
pub proof fn lemma_resolved_is_owned<K: View, V>(
    slots: Slots<K, V>,
    at: (Entity, K::V),
    fuel: nat,
)
    ensures
        resolve_within(slots, at, fuel) matches Some(o) ==> is_owned(slots, o),
    decreases fuel,
{
    if slots.contains_key(at) {
        if let Slot::Shared(src, src_key) = slots[at] {
            if fuel > 0 {
                lemma_resolved_is_owned(slots, (src, src_key@), (fuel - 1) as nat);
            }
        }
    }
}

/// Where `a` owns the value under `k` and `b` shares it from `a`, both resolve to `a`'s
/// slot; `a` is the origin and `b` is not. A new value put into that slot (as `get_mut`
/// through either entity does) is what both resolve to afterwards.
pub proof fn lemma_shared_slot_is_origin_slot<K: View, V>(
    slots: Slots<K, V>,
    a: Entity,
    b: Entity,
    k: K::V,
    w: V,
)
    requires
        slots.dom().finite(),
        is_owned(slots, (a, k)),
        redirects_to(slots, (b, k), a, k),
    ensures
        is_owned(slots, (a, k)),
        !is_owned(slots, (b, k)),
        resolve(slots, (a, k)) == Some((a, k)),
        resolve(slots, (b, k)) == Some((a, k)),
        resolve(slots.insert((a, k), Slot::Owned(w)), (a, k)) == Some((a, k)),
        resolve(slots.insert((a, k), Slot::Owned(w)), (b, k)) == Some((a, k)),
        slots.insert((a, k), Slot::<K, V>::Owned(w))[(a, k)] == Slot::<K, V>::Owned(w),
{
    reveal_with_fuel(resolve_within, 2);
    let t = slots.insert((a, k), Slot::Owned(w));
    assert(slots.dom().contains((b, k)));
    assert(slots.len() > 0);
    assert(t.dom().contains((b, k)));
    assert(t.dom().finite());
    assert(t.len() > 0);
}

/// Making `b`'s slot under `k` share the value of `a` (which owns one) drops whatever `b`
/// held there: `b` is no origin afterwards, and it resolves to `a`'s value.
pub proof fn lemma_sharing_replaces_own_value<K: View, V>(
    slots: Slots<K, V>,
    a: Entity,
    b: Entity,
    k: K,
)
    requires
        slots.dom().finite(),
        is_owned(slots, (a, k@)),
        a != b,
    ensures
        !is_owned(slots.insert((b, k@), Slot::Shared(a, k)), (b, k@)),
        resolve(slots.insert((b, k@), Slot::Shared(a, k)), (b, k@)) == Some((a, k@)),
        slots.insert((b, k@), Slot::Shared(a, k))[(a, k@)] == slots[(a, k@)],
{
    reveal_with_fuel(resolve_within, 2);
    let t = slots.insert((b, k@), Slot::Shared(a, k));
    assert(t.dom().contains((b, k@)));
    assert(t.dom().finite());
    assert(t.len() > 0);
}

/// Once the owner `a` is removed, a slot of another entity that shared its value under `k`
/// resolves to nothing (so `get` through it fails with not-found).
pub proof fn lemma_removed_owner_leaves_nothing<K: View, V>(
    slots: Slots<K, V>,
    a: Entity,
    b: Entity,
    k: K::V,
)
    requires
        redirects_to(slots, (b, k), a, k),
        a != b,
    ensures
        resolve(without_entity(slots, a), (b, k)) is None,
{
    reveal_with_fuel(resolve_within, 2);
    let t = without_entity(slots, a);
    assert(t.contains_key((b, k)));
    assert(!t.contains_key((a, k)));
}

/// Stores component values per (entity, key) and resolves shared slots to their owners.
pub struct ComponentStore<K, V> {
    entities: Vec<Entity>,
    slots: Table<SlotKey<K>, Slot<K, V>>,
}

/// The store keyed by component type.
pub type TypeComponentStore<V> = ComponentStore<TypeKey, V>;

/// The store keyed by component name.
pub type StringComponentStore<V> = ComponentStore<String, V>;

impl<K: TableKey, V> Default for ComponentStore<K, V> {
    fn default() -> (r: Self)
        ensures
            r.wf(),
            r.slots() == Map::<(Entity, K::V), Slot<K, V>>::empty(),
            r.entities() == Seq::<Entity>::empty(),
    {
        ComponentStore::new()
    }
}

impl<K: TableKey, V> ComponentStore<K, V> {
    /// Every slot, owned or shared.
    pub closed spec fn slots(&self) -> Slots<K, V> {
        self.slots@
    }

    /// The entities that have a slot set, in order of registration.
    pub closed spec fn entities(&self) -> Seq<Entity> {
        self.entities@
    }

    pub closed spec fn wf(&self) -> bool {
        &&& self.slots.wf()
        &&& self.entities@.no_duplicates()
        &&& forall|at: (Entity, K::V)| #[trigger]
            self.slots@.contains_key(at) ==> self.entities@.contains(at.0)
    }

    /// The error for a failed lookup at `entity`.
    pub open spec fn missing(&self, entity: Entity) -> NotFound {
        if self.entities().contains(entity) {
            NotFound::Component(entity)
        } else {
            NotFound::Entity(entity)
        }
    }

    pub proof fn lemma_slots_finite(&self)
        requires
            self.wf(),
        ensures
            self.slots().dom().finite(),
    {
        self.slots.lemma_key_seq();
    }

    pub fn new() -> (r: Self)
        ensures
            r.wf(),
            r.slots() == Map::<(Entity, K::V), Slot<K, V>>::empty(),
            r.entities() == Seq::<Entity>::empty(),
    {
        ComponentStore { entities: Vec::new(), slots: Table::new() }
    }

    fn position_of(&self, entity: Entity) -> (r: Option<usize>)
        ensures
            match r {
                Some(i) => i < self.entities@.len() && self.entities@[i as int] == entity,
                None => !self.entities@.contains(entity),
            },
    {
        let mut i: usize = 0;
        while i < self.entities.len()
            invariant
                i <= self.entities@.len(),
                forall|j: int| 0 <= j < i ==> self.entities@[j] != entity,
            decreases self.entities@.len() - i,
        {
            if self.entities[i] == entity {
                return Some(i);
            }
            i = i + 1;
        }
        None
    }

    /// Returns `true` if the store has a slot set for `entity`.
    pub fn contains_entity(&self, entity: Entity) -> (r: bool)
        ensures
            r == self.entities().contains(entity),
    {
        self.position_of(entity).is_some()
    }

    /// Gives `entity` a slot set, if it has none yet.
    pub fn register_entity(&mut self, entity: Entity)
        requires
            old(self).wf(),
        ensures
            final(self).wf(),
            final(self).slots() == old(self).slots(),
            final(self).entities() == if old(self).entities().contains(entity) {
                old(self).entities()
            } else {
                old(self).entities().push(entity)
            },
    {
        if !self.contains_entity(entity) {
            self.entities.push(entity);
            proof {
                assert forall|at: (Entity, K::V)| #[trigger]
                    self.slots@.contains_key(at) implies self.entities@.contains(at.0) by {
                    let j = choose|j: int|
                        0 <= j < old(self).entities@.len() && old(self).entities@[j] == at.0;
                    assert(self.entities@[j] == at.0);
                }
            }
        }
    }

    /// Returns the number of entities with a slot set; an entity counts once however many
    /// slots it has.
    pub fn len(&self) -> (r: usize)
        ensures
            r == self.entities().len(),
    {
        self.entities.len()
    }

    /// Returns `true` if no entity has a slot set.
    pub fn is_empty(&self) -> (r: bool)
        ensures
            r == (self.entities().len() == 0),
    {
        self.entities.len() == 0
    }

    fn put(&mut self, entity: Entity, key: K, slot: Slot<K, V>)
        requires
            old(self).wf(),
        ensures
            final(self).wf(),
            final(self).slots() == old(self).slots().insert((entity, key@), slot),
            final(self).entities() == if old(self).entities().contains(entity) {
                old(self).entities()
            } else {
                old(self).entities().push(entity)
            },
    {
        self.register_entity(entity);
        self.slots.insert(SlotKey { entity, key }, slot);
        proof {
            if !old(self).entities@.contains(entity) {
                assert(self.entities@[self.entities@.len() - 1] == entity);
            }
            assert(self.entities@.contains(entity));
        }
    }

    /// Puts `component` into the slot (`entity`, `key`), replacing what was there.
    pub fn register_component(&mut self, entity: Entity, key: K, component: V)
        requires
            old(self).wf(),
        ensures
            final(self).wf(),
            final(self).slots() == old(self).slots().insert((entity, key@), Slot::Owned(component)),
            final(self).entities() == if old(self).entities().contains(entity) {
                old(self).entities()
            } else {
                old(self).entities().push(entity)
            },
    {
        self.put(entity, key, Slot::Owned(component));
    }

    /// Makes the slot (`target`, `key`) share the value of (`source`, `source_key`); a value
    /// that the target slot held is dropped. The source need not exist yet.
    pub fn register_shared_by_source_key(
        &mut self,
        key: K,
        source_key: K,
        target: Entity,
        source: Entity,
    )
        requires
            old(self).wf(),
        ensures
            final(self).wf(),
            final(self).slots() == old(self).slots().insert(
                (target, key@),
                Slot::Shared(source, source_key),
            ),
            final(self).entities() == if old(self).entities().contains(target) {
                old(self).entities()
            } else {
                old(self).entities().push(target)
            },
    {
        self.put(target, key, Slot::Shared(source, source_key));
    }

    /// Makes the slot (`target`, `key`) share the value of (`source`, `key`).
    pub fn register_shared_component(&mut self, target: Entity, key: K, source: Entity)
        requires
            old(self).wf(),
        ensures
            final(self).wf(),
            final(self).slots() == old(self).slots().insert(
                (target, key@),
                final(self).slots()[(target, key@)],
            ),
            final(self).slots()[(target, key@)] matches Slot::Shared(s, k) && s == source && k@
                == key@,
            final(self).entities() == if old(self).entities().contains(target) {
                old(self).entities()
            } else {
                old(self).entities().push(target)
            },
    {
        let source_key = key.clone_key();
        self.put(target, key, Slot::Shared(source, source_key));
    }

    /// Returns `true` if `entity` owns the value under `key` (not merely shares it).
    pub fn is_origin(&self, entity: Entity, key: &K) -> (r: bool)
        requires
            self.wf(),
        ensures
            r == is_owned(self.slots(), (entity, key@)),
    {
        let at = SlotKey { entity, key: key.clone_key() };
        match self.slots.get(&at) {
            Some(Slot::Owned(_)) => true,
            _ => false,
        }
    }

    /// Follows the redirects from (`entity`, `key`) to the slot that owns the value.
    pub fn source(&self, entity: Entity, key: &K) -> (r: Result<(Entity, K), NotFound>)
        requires
            self.wf(),
        ensures
            match r {
                Ok(o) => resolve(self.slots(), (entity, key@)) == Some((o.0, o.1@)),
                Err(e) => resolve(self.slots(), (entity, key@)) is None && e == self.missing(
                    entity,
                ),
            },
    {
        let n = self.slots.len();
        let ghost slots = self.slots();
        let ghost start = (entity, key@);
        let mut cur = SlotKey { entity, key: key.clone_key() };
        let mut hops: usize = 0;
        loop
            invariant
                self.wf(),
                slots == self.slots(),
                start == (entity, key@),
                n == slots.len(),
                hops <= n,
                resolve(slots, start) == resolve_within(slots, cur@, (n - hops) as nat),
            decreases n - hops,
        {
            match self.slots.get(&cur) {
                None => {
                    assert(resolve_within(slots, cur@, (n - hops) as nat) is None);
                    let missing = self.not_found_at(entity);
                    return Err(missing);
                },
                Some(Slot::Owned(_)) => {
                    assert(resolve_within(slots, cur@, (n - hops) as nat) == Some(cur@));
                    return Ok((cur.entity, cur.key));
                },
                Some(Slot::Shared(src, src_key)) => {
                    if hops == n {
                        let missing = self.not_found_at(entity);
                        return Err(missing);
                    }
                    hops = hops + 1;
                    cur = SlotKey { entity: *src, key: src_key.clone_key() };
                },
            }
        }
    }

    // The error for a lookup at `entity` that found no owned slot.
    fn not_found_at(&self, entity: Entity) -> (r: NotFound)
        ensures
            r == self.missing(entity),
    {
        if self.contains_entity(entity) {
            NotFound::Component(entity)
        } else {
            NotFound::Entity(entity)
        }
    }

    /// The value under `key` at `entity`, following shared slots to their owner.
    pub fn get(&self, entity: Entity, key: &K) -> (r: Result<&V, NotFound>)
        requires
            self.wf(),
        ensures
            match r {
                Ok(v) => resolve(self.slots(), (entity, key@)) matches Some(o) && self.slots()[o]
                    == Slot::<K, V>::Owned(*v),
                Err(e) => resolve(self.slots(), (entity, key@)) is None && e == self.missing(
                    entity,
                ),
            },
    {
        match self.source(entity, key) {
            Ok((e, k)) => {
                let at = SlotKey { entity: e, key: k };
                proof {
                    lemma_resolved_is_owned(self.slots(), (entity, key@), self.slots().len());
                }
                match self.slots.get(&at) {
                    Some(Slot::Owned(v)) => Ok(v),
                    _ => Err(self.not_found_at(entity)),
                }
            },
            Err(e) => Err(e),
        }
    }

    /// The value under `key` at `entity`, mutably, following shared slots to their owner:
    /// a change through it is seen at every slot that resolves to the same owner.
    pub fn get_mut(&mut self, entity: Entity, key: &K) -> (r: Result<&mut V, NotFound>)
        requires
            old(self).wf(),
        ensures
            final(self).wf(),
            final(self).entities() == old(self).entities(),
            match r {
                Ok(v) => resolve(old(self).slots(), (entity, key@)) matches Some(o)
                    && old(self).slots()[o] == Slot::<K, V>::Owned(*v) && final(self).slots()
                    == old(self).slots().insert(o, Slot::Owned(*final(v))),
                Err(e) => resolve(old(self).slots(), (entity, key@)) is None && e == old(self).missing(entity) && final(self).slots() == old(self).slots(),
            },
    {
        match self.source(entity, key) {
            Ok((e, k)) => {
                let at = SlotKey { entity: e, key: k };
                proof {
                    lemma_resolved_is_owned(self.slots(), (entity, key@), self.slots().len());
                }
                let missing = self.not_found_at(entity);
                let slot = self.slots.get_mut(&at);
                match slot {
                    Some(Slot::Owned(v)) => Ok(v),
                    _ => Err(missing),
                }
            },
            Err(e) => Err(e),
        }
    }
    /// Deletes every slot of `entity`, owned or shared, and its slot set. Slots of other
    /// entities that shared its values stay as they are and resolve to nothing now.
    pub fn remove_entity(&mut self, entity: Entity)
        requires
            old(self).wf(),
        ensures
            final(self).wf(),
            final(self).slots() == without_entity(old(self).slots(), entity),
            forall|e: Entity| #[trigger]
                final(self).entities().contains(e) <==> old(self).entities().contains(e) && e
                    != entity,
    {
        let ghost old_slots = self.slots@;
        let keys = self.slots.keys();
        let ghost ks = self.slots.key_seq();
        proof {
            self.slots.lemma_key_seq();
        }
        let mut j: usize = 0;
        while j < keys.len()
            invariant
                self.slots.wf(),
                self.entities@ == old(self).entities@,
                j <= keys@.len(),
                keys@.map_values(|k: SlotKey<K>| k@) == ks,
                forall|at: (Entity, K::V)| #[trigger]
                    old_slots.contains_key(at) <==> ks.contains(at),
                forall|at: (Entity, K::V)| #[trigger]
                    self.slots@.contains_key(at) <==> (old_slots.contains_key(at) && !(at.0
                        == entity && ks.take(j as int).contains(at))),
                forall|at: (Entity, K::V)| #[trigger]
                    self.slots@.contains_key(at) ==> self.slots@[at] == old_slots[at],
            decreases keys@.len() - j,
        {
            let ghost kj = keys@[j as int]@;
            assert(ks[j as int] == kj);
            if keys[j].entity == entity {
                self.slots.remove(&keys[j]);
            }
            proof {
                assert forall|at: (Entity, K::V)| #[trigger]
                    self.slots@.contains_key(at) <==> (old_slots.contains_key(at) && !(at.0
                        == entity && ks.take(j + 1).contains(at))) by {
                    if ks.take(j + 1).contains(at) && !ks.take(j as int).contains(at) {
                        let m = choose|m: int| 0 <= m < j + 1 && #[trigger] ks.take(j + 1)[m] == at;
                        if m < j {
                            assert(ks.take(j as int)[m] == at);
                        }
                        assert(at == kj);
                    }
                    if ks.take(j as int).contains(at) {
                        let m = choose|m: int| 0 <= m < j && #[trigger] ks.take(j as int)[m] == at;
                        assert(ks.take(j + 1)[m] == at);
                    }
                    if at == kj {
                        assert(ks.take(j + 1)[j as int] == at);
                    }
                }
            }
            j = j + 1;
        }
        proof {
            assert(ks.take(keys@.len() as int) =~= ks);
            assert(self.slots@ =~= without_entity(old_slots, entity));
        }
        let ghost old_entities = self.entities@;
        if let Some(i) = self.position_of(entity) {
            self.entities.remove(i);
            proof {
                assert forall|e: Entity| #[trigger]
                    self.entities@.contains(e) <==> old_entities.contains(e) && e != entity by {
                    if old_entities.contains(e) && e != entity {
                        let m = choose|m: int| 0 <= m < old_entities.len() && #[trigger] old_entities[m] == e;
                        if m < i {
                            assert(self.entities@[m] == e);
                        } else {
                            assert(m != i);
                            assert(self.entities@[m - 1] == e);
                        }
                    }
                    if self.entities@.contains(e) {
                        let m = choose|m: int|
                            0 <= m < self.entities@.len() && #[trigger] self.entities@[m] == e;
                        if m < i {
                            assert(old_entities[m] == e);
                        } else {
                            assert(old_entities[m + 1] == e);
                            assert(old_entities[i as int] == entity);
                        }
                    }
                }
                assert(self.entities@.no_duplicates()) by {
                    assert forall|a: int, b: int|
                        0 <= a < self.entities@.len() && 0 <= b < self.entities@.len() && a
                            != b implies self.entities@[a] != self.entities@[b] by {
                        let a2 = if a < i { a } else { a + 1 };
                        let b2 = if b < i { b } else { b + 1 };
                        assert(self.entities@[a] == old_entities[a2]);
                        assert(self.entities@[b] == old_entities[b2]);
                    }
                }
            }
        }
        proof {
            assert forall|at: (Entity, K::V)| #[trigger]
                self.slots@.contains_key(at) implies self.entities@.contains(at.0) by {
                assert(old_slots.contains_key(at));
                assert(old_entities.contains(at.0));
            }
        }
    }
    /// The entities that share one value: the owner of what (`entity`, `key`) resolves to
    /// first, then every entity with a shared slot that resolves to that same owner, in the
    /// store's order. Where nothing resolves, `entity` alone.
    pub fn entities_of_component(&self, key: &K, entity: Entity) -> (r: Vec<Entity>)
        requires
            self.wf(),
        ensures
            r@.len() >= 1,
            match resolve(self.slots(), (entity, key@)) {
                Some(o) => r@[0] == o.0 && forall|e: Entity| #[trigger]
                    r@.drop_first().contains(e) <==> exists|k: K::V| #[trigger]
                        is_shared(self.slots(), (e, k)) && resolve(self.slots(), (e, k)) == Some(
                            o,
                        ),
                None => r@ == seq![entity],
            },
    {
        let ghost slots = self.slots();
        let ghost start = (entity, key@);
        let origin = match self.source(entity, key) {
            Ok(o) => o,
            Err(_) => (entity, key.clone_key()),
        };
        let ghost o = (origin.0, origin.1@);
        let mut r: Vec<Entity> = Vec::new();
        r.push(origin.0);
        let keys = self.slots.keys();
        let ghost ks = self.slots.key_seq();
        proof {
            self.slots.lemma_key_seq();
            lemma_resolved_is_owned(slots, start, slots.len());
        }
        let mut j: usize = 0;
        while j < keys.len()
            invariant
                self.wf(),
                slots == self.slots(),
                start == (entity, key@),
                o == (origin.0, origin.1@),
                resolve(slots, start) is Some ==> resolve(slots, start) == Some(o),
                resolve(slots, start) is None ==> o == start && !is_owned(slots, o),
                j <= keys@.len(),
                keys@.map_values(|k: SlotKey<K>| k@) == ks,
                forall|at: (Entity, K::V)| #[trigger] slots.contains_key(at) <==> ks.contains(at),
                r@.len() >= 1,
                r@[0] == origin.0,
                forall|e: Entity| #[trigger]
                    r@.drop_first().contains(e) <==> exists|m: int|
                        0 <= m < j && (#[trigger] ks[m]).0 == e && is_shared(slots, ks[m])
                            && resolve(slots, ks[m]) == Some(o),
            decreases keys@.len() - j,
        {
            let ghost before = r@;
            let at = &keys[j];
            assert(ks[j as int] == at@);
            let mut hit = false;
            if let Some(Slot::Shared(_, _)) = self.slots.get(at) {
                if let Ok(found) = self.source(at.entity, &at.key) {
                    if found.0 == origin.0 && found.1.same_key(&origin.1) {
                        hit = true;
                    }
                }
            }
            if hit {
                r.push(at.entity);
            }
            proof {
                assert(ks.contains(at@)) by {
                    assert(ks[j as int] == at@);
                }
                assert(hit == (is_shared(slots, at@) && resolve(slots, at@) == Some(o)));
                assert forall|e: Entity| #[trigger]
                    r@.drop_first().contains(e) <==> exists|m: int|
                        0 <= m < j + 1 && (#[trigger] ks[m]).0 == e && is_shared(slots, ks[m])
                            && resolve(slots, ks[m]) == Some(o) by {
                    if hit {
                        assert(r@.drop_first() =~= before.drop_first().push(at.entity));
                        if r@.drop_first().contains(e) && !before.drop_first().contains(e) {
                            assert(e == at.entity);
                            assert(ks[j as int].0 == e);
                        }
                        if before.drop_first().contains(e) {
                            let w = choose|w: int|
                                0 <= w < before.drop_first().len()
                                    && #[trigger] before.drop_first()[w] == e;
                            assert(r@.drop_first()[w] == e);
                        }
                        if e == at.entity {
                            assert(r@.drop_first()[r@.drop_first().len() - 1] == e);
                        }
                    } else {
                        assert(r@ == before);
                    }
                }
            }
            j = j + 1;
        }
        proof {
            assert forall|e: Entity| #[trigger]
                r@.drop_first().contains(e) implies exists|k: K::V| #[trigger]
                is_shared(slots, (e, k)) && resolve(slots, (e, k)) == Some(o) by {
                let m = choose|m: int|
                    0 <= m < j && (#[trigger] ks[m]).0 == e && is_shared(slots, ks[m])
                        && resolve(slots, ks[m]) == Some(o);
                assert(ks[m] == (e, ks[m].1));
            }
            assert forall|e: Entity|
                (exists|k: K::V| #[trigger]
                is_shared(slots, (e, k)) && resolve(slots, (e, k)) == Some(o)) implies #[trigger]
                r@.drop_first().contains(e) by {
                let k = choose|k: K::V| #[trigger]
                    is_shared(slots, (e, k)) && resolve(slots, (e, k)) == Some(o);
                assert(ks.contains((e, k)));
                let m = choose|m: int| 0 <= m < ks.len() && ks[m] == (e, k);
                assert(ks[m].0 == e);
            }
            if resolve(slots, start) is None {
                if r@.len() > 1 {
                    let e = r@.drop_first()[0];
                    assert(r@.drop_first().contains(e));
                    let m = choose|m: int|
                        0 <= m < j && (#[trigger] ks[m]).0 == e && is_shared(slots, ks[m])
                            && resolve(slots, ks[m]) == Some(o);
                    lemma_resolved_is_owned(slots, ks[m], slots.len());
                }
                assert(r@ =~= seq![entity]);
            }
        }
        r
    }

    /// The key under which `target` shares the value of (`source`, `source_key`) directly.
    pub fn target_key(&self, source: Entity, target: Entity, source_key: &K) -> (r: Result<
        K,
        NotFound,
    >)
        requires
            self.wf(),
        ensures
            match r {
                Ok(k) => redirects_to(self.slots(), (target, k@), source, source_key@),
                Err(e) => e == NotFound::Component(target) && forall|k: K::V|
                    !#[trigger] redirects_to(self.slots(), (target, k), source, source_key@),
            },
    {
        let keys = self.slots.keys();
        let ghost ks = self.slots.key_seq();
        proof {
            self.slots.lemma_key_seq();
        }
        let mut j: usize = 0;
        while j < keys.len()
            invariant
                self.wf(),
                j <= keys@.len(),
                keys@.map_values(|k: SlotKey<K>| k@) == ks,
                forall|at: (Entity, K::V)| #[trigger]
                    self.slots().contains_key(at) <==> ks.contains(at),
                forall|m: int|
                    0 <= m < j ==> !((#[trigger] ks[m]).0 == target && redirects_to(
                        self.slots(),
                        ks[m],
                        source,
                        source_key@,
                    )),
            decreases keys@.len() - j,
        {
            let at = &keys[j];
            assert(ks[j as int] == at@);
            if at.entity == target {
                if let Some(Slot::Shared(s, sk)) = self.slots.get(at) {
                    if *s == source && sk.same_key(source_key) {
                        return Ok(at.key.clone_key());
                    }
                }
                proof {
                    assert(ks.contains(at@));
                }
            }
            j = j + 1;
        }
        proof {
            assert forall|k: K::V|
                !#[trigger] redirects_to(self.slots(), (target, k), source, source_key@) by {
                if self.slots().contains_key((target, k)) {
                    assert(ks.contains((target, k)));
                    let m = choose|m: int| 0 <= m < ks.len() && ks[m] == (target, k);
                    assert(ks[m].0 == target);
                }
            }
        }
        Err(NotFound::Component(target))
    }
    /// Puts the component of `component_box` into the slot of `entity` under its key.
    pub fn register_component_box(&mut self, entity: Entity, component_box: ComponentBox<K, V>)
        requires
            old(self).wf(),
        ensures
            final(self).wf(),
            final(self).slots() == old(self).slots().insert(
                (entity, component_box.key()@),
                Slot::Owned(component_box.component()),
            ),
            final(self).entities() == if old(self).entities().contains(entity) {
                old(self).entities()
            } else {
                old(self).entities().push(entity)
            },
    {
        let (key, component) = component_box.consume();
        self.register_component(entity, key, component);
    }

    /// Makes the slot of `target` under the box's key share the value of the box's source
    /// under the same key.
    pub fn register_shared_component_box(&mut self, target: Entity, source: SharedComponentBox<K>)
        requires
            old(self).wf(),
        ensures
            final(self).wf(),
            final(self).slots() == old(self).slots().insert(
                (target, source.key()@),
                final(self).slots()[(target, source.key()@)],
            ),
            redirects_to(final(self).slots(), (target, source.key()@), source.source(), source.key()@),
            final(self).entities() == if old(self).entities().contains(target) {
                old(self).entities()
            } else {
                old(self).entities().push(target)
            },
    {
        let (key, entity) = source.consume();
        self.register_shared_component(target, key, entity);
    }

    /// Puts the components that a builder collected into the slots of `entity`.
    pub fn append(&mut self, entity: Entity, components: BuildComponents<K, V>)
        requires
            old(self).wf(),
            components.0.wf(),
            components.1.wf(),
        ensures
            final(self).wf(),
            final(self).slots() == with_components(
                old(self).slots(),
                entity,
                components.0@,
                components.1@,
            ),
            final(self).entities() == if old(self).entities().contains(entity) {
                old(self).entities()
            } else {
                old(self).entities().push(entity)
            },
    {
        let ghost old_slots = self.slots();
        let (mut owned, mut shared) = components;
        let ghost all_owned = owned@;
        let ghost all_shared = shared@;
        self.register_entity(entity);
        proof {
            if !old(self).entities@.contains(entity) {
                assert(self.entities@[self.entities@.len() - 1] == entity);
            }
        }
        let ghost ents = self.entities();
        let ghost mut done = Map::<K::V, (Entity, K)>::empty();
        proof {
            assert(with_components(old_slots, entity, Map::empty(), done) =~= old_slots);
            assert(done.union_prefer_right(shared@) =~= all_shared);
        }
        loop
            invariant
                self.wf(),
                shared.wf(),
                self.entities() == ents,
                ents.contains(entity),
                self.slots() == with_components(old_slots, entity, Map::empty(), done),
                done.union_prefer_right(shared@) == all_shared,
                done.dom().disjoint(shared@.dom()),
            ensures
                self.wf(),
                self.entities() == ents,
                self.slots() == with_components(old_slots, entity, Map::empty(), all_shared),
            decreases shared@.dom().len(),
        {
            proof {
                shared.lemma_key_seq();
            }
            match shared.pop() {
                Some((k, v)) => {
                    let ghost kv = k@;
                    self.put(entity, k, Slot::Shared(v.0, v.1));
                    proof {
                        assert(self.slots() =~= with_components(
                            old_slots,
                            entity,
                            Map::empty(),
                            done.insert(kv, v),
                        ));
                        done = done.insert(kv, v);
                        assert(done.union_prefer_right(shared@) =~= all_shared);
                        assert(done.dom().disjoint(shared@.dom()));
                        shared.lemma_key_seq();
                    }
                },
                None => {
                    proof {
                        assert(done =~= all_shared);
                    }
                    break;
                },
            }
        }
        let ghost mut done_owned = Map::<K::V, V>::empty();
        proof {
            assert(with_components(old_slots, entity, done_owned, all_shared) =~= self.slots());
            assert(done_owned.union_prefer_right(owned@) =~= all_owned);
        }
        loop
            invariant
                self.wf(),
                owned.wf(),
                self.entities() == ents,
                ents.contains(entity),
                self.slots() == with_components(old_slots, entity, done_owned, all_shared),
                done_owned.union_prefer_right(owned@) == all_owned,
                done_owned.dom().disjoint(owned@.dom()),
            ensures
                self.wf(),
                self.entities() == ents,
                self.slots() == with_components(old_slots, entity, all_owned, all_shared),
            decreases owned@.dom().len(),
        {
            proof {
                owned.lemma_key_seq();
            }
            match owned.pop() {
                Some((k, v)) => {
                    let ghost kv = k@;
                    self.put(entity, k, Slot::Owned(v));
                    proof {
                        assert(self.slots() =~= with_components(
                            old_slots,
                            entity,
                            done_owned.insert(kv, v),
                            all_shared,
                        ));
                        done_owned = done_owned.insert(kv, v);
                        assert(done_owned.union_prefer_right(owned@) =~= all_owned);
                        assert(done_owned.dom().disjoint(owned@.dom()));
                        owned.lemma_key_seq();
                    }
                },
                None => {
                    proof {
                        assert(done_owned =~= all_owned);
                    }
                    break;
                },
            }
        }
    }
    /// Puts `component` into the slot (`entity`, `key`); the argument order of the
    /// name-keyed store.
    pub fn register(&mut self, key: K, entity: Entity, component: V)
        requires
            old(self).wf(),
        ensures
            final(self).wf(),
            final(self).slots() == old(self).slots().insert((entity, key@), Slot::Owned(component)),
            final(self).entities() == if old(self).entities().contains(entity) {
                old(self).entities()
            } else {
                old(self).entities().push(entity)
            },
    {
        self.register_component(entity, key, component);
    }

    /// Makes the slot (`target`, `key`) share the value of (`source`, `key`); the argument
    /// order of the name-keyed store.
    pub fn register_shared(&mut self, key: K, target: Entity, source: Entity)
        requires
            old(self).wf(),
        ensures
            final(self).wf(),
            final(self).slots() == old(self).slots().insert(
                (target, key@),
                final(self).slots()[(target, key@)],
            ),
            redirects_to(final(self).slots(), (target, key@), source, key@),
            final(self).entities() == if old(self).entities().contains(target) {
                old(self).entities()
            } else {
                old(self).entities().push(target)
            },
    {
        self.register_shared_component(target, key, source);
    }
}

} // verus!
