use vstd::prelude::*;

use crate::error::NotFound;
use crate::manager::EntityComponentManager;
use crate::table::Table;

verus! {

/// The run order of a system: systems run from the smallest priority to the greatest.
pub type Priority = i32;

/// A unit of behaviour that runs once per tick with exclusive access to the entities and
/// their components.
pub trait System<E, K, V> {
    /// `after` is what one run of this system can leave of `before`. A system that states
    /// nothing of its effect keeps this default, which admits every outcome.
    open spec fn ran(
        &self,
        before: EntityComponentManager<E, K, V>,
        after: EntityComponentManager<E, K, V>,
    ) -> bool {
        true
    }

    /// Runs the system.
    fn run(&self, ecm: &mut EntityComponentManager<E, K, V>)
        ensures
            self.ran(*old(ecm), *final(ecm)),
    ;
}

/// A registered system with its priority.
pub struct EntitySystem<S> {
    /// The wrapped system.
    pub system: S,
    /// Its priority.
    pub priority: Priority,
}

impl<S> EntitySystem<S> {
    /// Wraps `system` with the default priority 0.
    pub fn new(system: S) -> (r: Self)
        ensures
            r.system == system,
            r.priority == 0,
    {
        EntitySystem { system, priority: 0 }
    }
}

/// Systems of equal priority run in the order in which they got it: when `b` is placed with
/// priority `p` into a run order that already holds `a` with priority `p`, `a` runs first.
pub proof fn lemma_later_tie_runs_after<S>(
    after: SystemStore<S>,
    before: Seq<u32>,
    a: u32,
    b: u32,
    p: Priority,
)
    requires
        after.placed(before, b, p),
        before.contains(a),
        after.priority_of(a) == p,
    ensures
        exists|i: int, j: int|
            0 <= i < j < after.order().len() && #[trigger] after.order()[i] == a
                && #[trigger] after.order()[j] == b,
{
    let k = choose|k: int|
        0 <= k <= before.len() && after.order() == #[trigger] before.insert(k, b) && (forall|
            m: int,
        |
            0 <= m < k ==> after.priority_of(#[trigger] before[m]) <= p) && (forall|m: int|
            k <= m < before.len() ==> after.priority_of(#[trigger] before[m]) > p);
    let m = choose|m: int| 0 <= m < before.len() && before[m] == a;
    assert(m < k);
    assert(after.order()[m] == a);
    assert(after.order()[k] == b);
}

/// Holds the registered systems, their run order, and the init and cleanup systems.
pub struct SystemStore<S> {
    entity_systems: Table<u32, EntitySystem<S>>,
    init_system: Option<EntitySystem<S>>,
    cleanup_system: Option<EntitySystem<S>>,
    order: Vec<u32>,
}

impl<S> Default for SystemStore<S> {
    fn default() -> (r: Self)
        ensures
            r.wf(),
            r.systems() == Map::<u32, EntitySystem<S>>::empty(),
            r.order() == Seq::<u32>::empty(),
            r.init() is None,
            r.cleanup() is None,
    {
        SystemStore::new()
    }
}

impl<S> SystemStore<S> {
    /// The registered systems by id.
    pub closed spec fn systems(&self) -> Map<u32, EntitySystem<S>> {
        self.entity_systems@
    }

    /// The ids of the registered systems in the order in which a tick runs them.
    pub closed spec fn order(&self) -> Seq<u32> {
        self.order@
    }

    /// The init system, if one is set.
    pub closed spec fn init(&self) -> Option<EntitySystem<S>> {
        self.init_system
    }

    /// The cleanup system, if one is set.
    pub closed spec fn cleanup(&self) -> Option<EntitySystem<S>> {
        self.cleanup_system
    }

    pub open spec fn priority_of(&self, id: u32) -> Priority {
        self.systems()[id].priority
    }

    /// Along the run order priorities never decrease.
    pub open spec fn sorted_by_priority(&self) -> bool {
        forall|i: int, j: int|
            0 <= i < j < self.order().len() ==> self.priority_of(#[trigger] self.order()[i])
                <= self.priority_of(#[trigger] self.order()[j])
    }

    /// The run order is `before` with `id` put after every system of priority at most `p`
    /// and before every system of a greater priority.
    pub open spec fn placed(&self, before: Seq<u32>, id: u32, p: Priority) -> bool {
        exists|k: int|
            0 <= k <= before.len() && self.order() == #[trigger] before.insert(k, id) && (forall|
                m: int,
            |
                0 <= m < k ==> self.priority_of(#[trigger] before[m]) <= p) && (forall|m: int|
                k <= m < before.len() ==> self.priority_of(#[trigger] before[m]) > p)
    }

    pub closed spec fn wf(&self) -> bool {
        &&& self.entity_systems.wf()
        &&& self.order@.no_duplicates()
        &&& forall|id: u32| #[trigger] self.entity_systems@.contains_key(id) <==> self.order@.contains(id)
        &&& self.sorted_by_priority()
    }

    /// In a well-formed store the run order holds every registered system once, sorted by
    /// priority; systems of equal priority keep the order in which they got it.
    pub proof fn lemma_run_order(&self)
        requires
            self.wf(),
        ensures
            self.order().no_duplicates(),
            forall|id: u32| #[trigger] self.systems().contains_key(id) <==> self.order().contains(id),
            self.sorted_by_priority(),
    {
    }

    /// Creates an empty system store.
    pub fn new() -> (r: Self)
        ensures
            r.wf(),
            r.systems() == Map::<u32, EntitySystem<S>>::empty(),
            r.order() == Seq::<u32>::empty(),
            r.init() is None,
            r.cleanup() is None,
    {
        SystemStore {
            entity_systems: Table::new(),
            init_system: None,
            cleanup_system: None,
            order: Vec::new(),
        }
    }

    /// Sets the init system, replacing any earlier one.
    pub fn register_init_system(&mut self, init_system: S)
        requires
            old(self).wf(),
        ensures
            final(self).wf(),
            final(self).init() == Some(EntitySystem { system: init_system, priority: 0 }),
            final(self).cleanup() == old(self).cleanup(),
            final(self).systems() == old(self).systems(),
            final(self).order() == old(self).order(),
    {
        self.init_system = Some(EntitySystem::new(init_system));
        assert(self.order() == old(self).order() && self.systems() == old(self).systems());
    }

    /// Sets the cleanup system, replacing any earlier one.
    pub fn register_cleanup_system(&mut self, cleanup_system: S)
        requires
            old(self).wf(),
        ensures
            final(self).wf(),
            final(self).cleanup() == Some(EntitySystem { system: cleanup_system, priority: 0 }),
            final(self).init() == old(self).init(),
            final(self).systems() == old(self).systems(),
            final(self).order() == old(self).order(),
    {
        self.cleanup_system = Some(EntitySystem::new(cleanup_system));
        assert(self.order() == old(self).order() && self.systems() == old(self).systems());
    }

    fn position(&self, id: u32) -> (r: Option<usize>)
        ensures
            match r {
                Some(i) => i < self.order@.len() && self.order@[i as int] == id,
                None => !self.order@.contains(id),
            },
    {
        let mut i: usize = 0;
        while i < self.order.len()
            invariant
                i <= self.order@.len(),
                forall|j: int| 0 <= j < i ==> self.order@[j] != id,
            decreases self.order@.len() - i,
        {
            if self.order[i] == id {
                return Some(i);
            }
            i = i + 1;
        }
        None
    }

    fn priority_at(&self, k: usize) -> (r: Priority)
        requires
            self.entity_systems.wf(),
            k < self.order@.len(),
            forall|x: u32| #[trigger]
                self.order@.contains(x) ==> self.entity_systems@.contains_key(x),
        ensures
            r == self.priority_of(self.order@[k as int]),
    {
        let x = self.order[k];
        assert(self.order@.contains(x)) by {
            assert(self.order@[k as int] == x);
        }
        match self.entity_systems.get(&x) {
            Some(sys) => sys.priority,
            None => 0,
        }
    }

    // Takes `id` out of the run order.
    fn detach(&mut self, id: u32)
        requires
            old(self).order@.no_duplicates(),
        ensures
            final(self).order@ == old(self).order@.remove_value(id),
            final(self).order@.no_duplicates(),
            !final(self).order@.contains(id),
            forall|x: u32| #[trigger]
                final(self).order@.contains(x) <==> old(self).order@.contains(x) && x != id,
            final(self).entity_systems == old(self).entity_systems,
            final(self).init_system == old(self).init_system,
            final(self).cleanup_system == old(self).cleanup_system,
    {
        let ghost s = self.order@;
        proof {
            s.index_of_first_ensures(id);
        }
        match self.position(id) {
            Some(q) => {
                proof {
                    let f = s.index_of_first(id)->0;
                    assert(f == q as int);
                }
                self.order.remove(q);
                proof {
                    let t = self.order@;
                    assert forall|a: int, b: int|
                        0 <= a < t.len() && 0 <= b < t.len() && a != b implies t[a] != t[b] by {
                        let a2 = if a < q { a } else { a + 1 };
                        let b2 = if b < q { b } else { b + 1 };
                        assert(t[a] == s[a2] && t[b] == s[b2]);
                    }
                    assert forall|x: u32| #[trigger] t.contains(x) <==> s.contains(x) && x != id by {
                        if t.contains(x) {
                            let m = choose|m: int| 0 <= m < t.len() && t[m] == x;
                            let m2 = if m < q { m } else { m + 1 };
                            assert(t[m] == s[m2]);
                        }
                        if s.contains(x) && x != id {
                            let m = choose|m: int| 0 <= m < s.len() && s[m] == x;
                            if m < q {
                                assert(t[m] == x);
                            } else {
                                assert(m != q);
                                assert(t[m - 1] == x);
                            }
                        }
                    }
                }
            },
            None => {},
        }
    }

    // Puts `id`, whose priority is `p`, into the run order after every system of priority
    // at most `p`.
    fn attach(&mut self, id: u32, p: Priority)
        requires
            old(self).entity_systems.wf(),
            old(self).order@.no_duplicates(),
            !old(self).order@.contains(id),
            old(self).systems().contains_key(id),
            old(self).priority_of(id) == p,
            forall|x: u32| #[trigger]
                old(self).order@.contains(x) ==> old(self).entity_systems@.contains_key(x),
            old(self).sorted_by_priority(),
        ensures
            final(self).placed(old(self).order@, id, p),
            final(self).order@.no_duplicates(),
            forall|x: u32| #[trigger]
                final(self).order@.contains(x) <==> old(self).order@.contains(x) || x == id,
            final(self).sorted_by_priority(),
            final(self).entity_systems == old(self).entity_systems,
            final(self).init_system == old(self).init_system,
            final(self).cleanup_system == old(self).cleanup_system,
    {
        let ghost s = self.order@;
        let mut k: usize = 0;
        while k < self.order.len() && self.priority_at(k) <= p
            invariant
                self.order@ == s,
                self.entity_systems == old(self).entity_systems,
                self.entity_systems.wf(),
                k <= s.len(),
                forall|m: int| 0 <= m < k ==> self.priority_of(#[trigger] s[m]) <= p,
                forall|x: u32| #[trigger] s.contains(x) ==> self.entity_systems@.contains_key(x),
            decreases s.len() - k,
        {
            k = k + 1;
        }
        proof {
            assert(self.systems() == old(self).systems());
            assert(s == old(self).order());
            assert forall|m: int| k <= m < s.len() implies self.priority_of(#[trigger] s[m]) > p by {
                if m > k {
                    assert(old(self).priority_of(old(self).order()[k as int]) <= old(self).priority_of(old(self).order()[m]));
                }
            }
        }
        self.order.insert(k, id);
        proof {
            let t = self.order@;
            assert(t == s.insert(k as int, id));
            assert(self.placed(s, id, p));
            assert forall|a: int, b: int|
                0 <= a < t.len() && 0 <= b < t.len() && a != b implies t[a] != t[b] by {
                if a != k && b != k {
                    let a2 = if a < k { a } else { a - 1 };
                    let b2 = if b < k { b } else { b - 1 };
                    assert(t[a] == s[a2] && t[b] == s[b2]);
                } else if a == k {
                    let b2 = if b < k { b } else { b - 1 };
                    assert(t[b] == s[b2]);
                } else {
                    let a2 = if a < k { a } else { a - 1 };
                    assert(t[a] == s[a2]);
                }
            }
            assert forall|x: u32| #[trigger] t.contains(x) <==> s.contains(x) || x == id by {
                if t.contains(x) && x != id {
                    let m = choose|m: int| 0 <= m < t.len() && t[m] == x;
                    let m2 = if m < k { m } else { m - 1 };
                    assert(t[m] == s[m2]);
                }
                if s.contains(x) {
                    let m = choose|m: int| 0 <= m < s.len() && s[m] == x;
                    if m < k {
                        assert(t[m] == x);
                    } else {
                        assert(t[m + 1] == x);
                    }
                }
                if x == id {
                    assert(t[k as int] == id);
                }
            }
            assert(self.systems() == old(self).systems());
            assert forall|i: int, j: int|
                0 <= i < j < t.len() implies self.priority_of(#[trigger] t[i]) <= self.priority_of(
                #[trigger] t[j],
            ) by {
                if i < k && j < k {
                    assert(t[i] == s[i] && t[j] == s[j]);
                    assert(old(self).priority_of(old(self).order()[i]) <= old(self).priority_of(
                        old(self).order()[j],
                    ));
                } else if i < k && j == k {
                    assert(t[i] == s[i]);
                } else if i < k {
                    assert(t[i] == s[i] && t[j] == s[j - 1]);
                    assert(old(self).priority_of(old(self).order()[i]) <= old(self).priority_of(
                        old(self).order()[j - 1],
                    ));
                } else if i == k {
                    assert(t[j] == s[j - 1]);
                } else {
                    assert(t[i] == s[i - 1] && t[j] == s[j - 1]);
                    assert(old(self).priority_of(old(self).order()[i - 1]) <= old(self).priority_of(old(self).order()[j - 1]));
                }
            }
        }
    }
    /// Registers `system` under `system_id` with priority 0, replacing a system registered
    /// under that id before. It runs after the systems of priority at most 0.
    pub fn register_system(&mut self, system: S, system_id: u32)
        requires
            old(self).wf(),
        ensures
            final(self).wf(),
            final(self).systems() == old(self).systems().insert(
                system_id,
                EntitySystem { system, priority: 0 },
            ),
            final(self).placed(old(self).order().remove_value(system_id), system_id, 0),
            final(self).init() == old(self).init(),
            final(self).cleanup() == old(self).cleanup(),
    {
        self.detach(system_id);
        let ghost mid = self.order@;
        self.entity_systems.insert(system_id, EntitySystem::new(system));
        proof {
            assert forall|x: u32| #[trigger]
                self.order@.contains(x) implies self.entity_systems@.contains_key(x) by {
                assert(old(self).order@.contains(x));
            }
            assert forall|i: int, j: int|
                0 <= i < j < self.order@.len() implies self.priority_of(#[trigger] self.order()[i])
                <= self.priority_of(#[trigger] self.order()[j]) by {
                let a = self.order@[i];
                let b = self.order@[j];
                assert(self.order@.contains(a) && self.order@.contains(b));
                let ia = choose|m: int| 0 <= m < old(self).order@.len() && old(self).order@[m] == a;
                let ib = choose|m: int| 0 <= m < old(self).order@.len() && old(self).order@[m] == b;
                assert(old(self).order@.contains(a));
                old(self).order@.index_of_first_ensures(system_id);
                if old(self).order@.contains(system_id) {
                    let q = old(self).order@.index_of_first(system_id)->0;
                    assert(mid == old(self).order@.remove(q));
                    let i2 = if i < q { i } else { i + 1 };
                    let j2 = if j < q { j } else { j + 1 };
                    assert(mid[i] == old(self).order@[i2]);
                    assert(mid[j] == old(self).order@[j2]);
                    assert(old(self).priority_of(old(self).order()[i2]) <= old(self).priority_of(
                        old(self).order()[j2],
                    ));
                } else {
                    assert(old(self).priority_of(old(self).order()[i]) <= old(self).priority_of(
                        old(self).order()[j],
                    ));
                }
            }
        }
        self.attach(system_id, 0);
        proof {
            assert forall|id: u32| #[trigger]
                self.entity_systems@.contains_key(id) <==> self.order@.contains(id) by {
                if id != system_id {
                    assert(old(self).entity_systems@.contains_key(id) <==> old(self).order@.contains(id));
                }
            }
        }
    }

    /// Gives the system `system_id` the priority `priority`: it moves to run after every
    /// other system of priority at most `priority`. Fails if no such system is registered.
    pub fn register_priority(&mut self, priority: Priority, system_id: u32) -> (r: Result<
        (),
        NotFound,
    >)
        requires
            old(self).wf(),
        ensures
            final(self).wf(),
            final(self).init() == old(self).init(),
            final(self).cleanup() == old(self).cleanup(),
            match r {
                Ok(()) => old(self).systems().contains_key(system_id) && final(self).systems()
                    == old(self).systems().insert(
                    system_id,
                    EntitySystem { system: old(self).systems()[system_id].system, priority },
                ) && final(self).placed(
                    old(self).order().remove_value(system_id),
                    system_id,
                    priority,
                ),
                Err(e) => !old(self).systems().contains_key(system_id) && e
                    == NotFound::EntitySystem(system_id) && *final(self) == *old(self),
            },
    {
        if !self.entity_systems.contains_key(&system_id) {
            return Err(NotFound::EntitySystem(system_id));
        }
        self.detach(system_id);
        let ghost mid = self.order@;
        match self.entity_systems.get_mut(&system_id) {
            Some(sys) => {
                sys.priority = priority;
            },
            None => {},
        }
        proof {
            assert forall|x: u32| #[trigger]
                self.order@.contains(x) implies self.entity_systems@.contains_key(x) by {
                assert(old(self).order@.contains(x));
            }
            assert forall|i: int, j: int|
                0 <= i < j < self.order@.len() implies self.priority_of(#[trigger] self.order()[i])
                <= self.priority_of(#[trigger] self.order()[j]) by {
                let a = self.order@[i];
                let b = self.order@[j];
                assert(self.order@.contains(a) && self.order@.contains(b));
                old(self).order@.index_of_first_ensures(system_id);
                let q = old(self).order@.index_of_first(system_id)->0;
                assert(mid == old(self).order@.remove(q));
                let i2 = if i < q { i } else { i + 1 };
                let j2 = if j < q { j } else { j + 1 };
                assert(mid[i] == old(self).order@[i2]);
                assert(mid[j] == old(self).order@[j2]);
                assert(old(self).priority_of(old(self).order()[i2]) <= old(self).priority_of(
                    old(self).order()[j2],
                ));
            }
        }
        self.attach(system_id, priority);
        proof {
            assert forall|id: u32| #[trigger]
                self.entity_systems@.contains_key(id) <==> self.order@.contains(id) by {
                if id != system_id {
                    assert(old(self).entity_systems@.contains_key(id) <==> old(self).order@.contains(id));
                }
            }
        }
        Ok(())
    }

    /// Removes the system `system_id`. Fails if no such system is registered.
    pub fn remove_system(&mut self, system_id: u32) -> (r: Result<(), NotFound>)
        requires
            old(self).wf(),
        ensures
            final(self).wf(),
            final(self).init() == old(self).init(),
            final(self).cleanup() == old(self).cleanup(),
            match r {
                Ok(()) => old(self).systems().contains_key(system_id) && final(self).systems()
                    == old(self).systems().remove(system_id) && final(self).order() == old(self).order().remove_value(system_id),
                Err(e) => !old(self).systems().contains_key(system_id) && e
                    == NotFound::EntitySystem(system_id) && *final(self) == *old(self),
            },
    {
        if !self.entity_systems.contains_key(&system_id) {
            return Err(NotFound::EntitySystem(system_id));
        }
        self.entity_systems.remove(&system_id);
        self.detach(system_id);
        proof {
            let mid = self.order@;
            assert forall|i: int, j: int|
                0 <= i < j < self.order@.len() implies self.priority_of(#[trigger] self.order()[i])
                <= self.priority_of(#[trigger] self.order()[j]) by {
                old(self).order@.index_of_first_ensures(system_id);
                let q = old(self).order@.index_of_first(system_id)->0;
                assert(mid == old(self).order@.remove(q));
                let i2 = if i < q { i } else { i + 1 };
                let j2 = if j < q { j } else { j + 1 };
                assert(mid[i] == old(self).order@[i2]);
                assert(mid[j] == old(self).order@[j2]);
                assert(old(self).priority_of(old(self).order()[i2]) <= old(self).priority_of(
                    old(self).order()[j2],
                ));
                assert(mid[i] != system_id && mid[j] != system_id) by {
                    assert(mid.contains(mid[i]) && mid.contains(mid[j]));
                }
            }
        }
        Ok(())
    }

    /// The system registered under `entity_system_id`.
    pub fn borrow_entity_system(&self, entity_system_id: u32) -> (r: Result<
        &EntitySystem<S>,
        NotFound,
    >)
        requires
            self.wf(),
        ensures
            match r {
                Ok(sys) => self.systems().contains_key(entity_system_id) && *sys == self.systems()[entity_system_id],
                Err(e) => !self.systems().contains_key(entity_system_id) && e
                    == NotFound::EntitySystem(entity_system_id),
            },
    {
        match self.entity_systems.get(&entity_system_id) {
            Some(sys) => Ok(sys),
            None => Err(NotFound::EntitySystem(entity_system_id)),
        }
    }

    /// Returns `true` if a system is registered under `system_id`.
    pub fn contains_system(&self, system_id: u32) -> (r: bool)
        requires
            self.wf(),
        ensures
            r == self.systems().contains_key(system_id),
    {
        self.entity_systems.contains_key(&system_id)
    }

    /// Returns `true` if some registered system has priority `priority`.
    pub fn contains_priority(&self, priority: Priority) -> (r: bool)
        requires
            self.wf(),
        ensures
            r == exists|id: u32| #[trigger]
                self.systems().contains_key(id) && self.systems()[id].priority == priority,
    {
        let mut k: usize = 0;
        while k < self.order.len()
            invariant
                self.wf(),
                k <= self.order@.len(),
                forall|m: int| 0 <= m < k ==> self.priority_of(#[trigger] self.order@[m]) != priority,
            decreases self.order@.len() - k,
        {
            assert(self.order@.contains(self.order@[k as int]));
            if self.priority_at(k) == priority {
                proof {
                    let id = self.order@[k as int];
                    assert(self.order@.contains(id));
                    assert(self.systems().contains_key(id));
                }
                return true;
            }
            k = k + 1;
        }
        proof {
            assert forall|id: u32| #[trigger]
                self.systems().contains_key(id) implies self.systems()[id].priority != priority by {
                assert(self.order@.contains(id));
                let m = choose|m: int| 0 <= m < self.order@.len() && self.order@[m] == id;
                assert(self.priority_of(self.order@[m]) != priority);
            }
        }
        false
    }

    /// The ids of the registered systems in the order in which a tick runs them.
    pub fn schedule(&self) -> (r: Vec<u32>)
        ensures
            r@ == self.order(),
    {
        self.order.clone()
    }

    /// The init system, if one is set.
    pub fn borrow_init_system(&self) -> (r: &Option<EntitySystem<S>>)
        ensures
            *r == self.init(),
    {
        &self.init_system
    }

    /// The cleanup system, if one is set.
    pub fn borrow_cleanup_system(&self) -> (r: &Option<EntitySystem<S>>)
        ensures
            *r == self.cleanup(),
    {
        &self.cleanup_system
    }
}

} // verus!
