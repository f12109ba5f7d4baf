use vstd::prelude::*;

use crate::entity::{Entity, EntityStore, VecEntityStore};
use crate::error::NotFound;
use crate::key::TableKey;
use crate::manager::{EntityBuilder, EntityComponentManager};
use crate::system::{EntitySystem, Priority, System, SystemStore};

verus! {

/// One call of a system's `run` made by the world.
#[derive(PartialEq, Eq, Structural, Clone, Copy, Debug)]
pub enum Invocation {
    /// The init system ran.
    Init,
    /// The registered system with this id ran.
    Run(u32),
    /// The cleanup system ran.
    Cleanup,
}

/// The calls that one tick makes: the init system first if this is the first tick and one
/// is set, then every registered system along the run order.
pub open spec fn tick_plan(first_run: bool, has_init: bool, order: Seq<u32>) -> Seq<Invocation> {
    (if first_run && has_init {
        seq![Invocation::Init]
    } else {
        Seq::<Invocation>::empty()
    }) + order.map_values(|id: u32| Invocation::Run(id))
}

/// The calls that `n` ticks make one after another.
pub open spec fn ticks(first_run: bool, has_init: bool, order: Seq<u32>, n: nat) -> Seq<
    Invocation,
>
    decreases n,
{
    if n == 0 {
        Seq::empty()
    } else {
        tick_plan(first_run, has_init, order) + ticks(false, has_init, order, (n - 1) as nat)
    }
}

/// The calls that teardown makes: the cleanup system, if one is set.
pub open spec fn teardown_plan(has_cleanup: bool) -> Seq<Invocation> {
    if has_cleanup {
        seq![Invocation::Cleanup]
    } else {
        Seq::empty()
    }
}

/// How often `x` occurs in `s`.
pub open spec fn occurrences(s: Seq<Invocation>, x: Invocation) -> nat
    decreases s.len(),
{
    if s.len() == 0 {
        0
    } else {
        occurrences(s.drop_last(), x) + if s.last() == x {
            1nat
        } else {
            0nat
        }
    }
}

proof fn lemma_occurrences_add(a: Seq<Invocation>, b: Seq<Invocation>, x: Invocation)
    ensures
        occurrences(a + b, x) == occurrences(a, x) + occurrences(b, x),
    decreases b.len(),
{
    if b.len() == 0 {
        assert(a + b =~= a);
    } else {
        assert((a + b).drop_last() =~= a + b.drop_last());
        lemma_occurrences_add(a, b.drop_last(), x);
    }
}

proof fn lemma_no_init_or_cleanup_in_runs(order: Seq<u32>)
    ensures
        occurrences(order.map_values(|id: u32| Invocation::Run(id)), Invocation::Init) == 0,
        occurrences(order.map_values(|id: u32| Invocation::Run(id)), Invocation::Cleanup) == 0,
    decreases order.len(),
{
    let runs = order.map_values(|id: u32| Invocation::Run(id));
    if order.len() > 0 {
        assert(runs.drop_last() =~= order.drop_last().map_values(|id: u32| Invocation::Run(id)));
        lemma_no_init_or_cleanup_in_runs(order.drop_last());
    }
}

proof fn lemma_ticks_counts(has_init: bool, order: Seq<u32>, first_run: bool, n: nat)
    ensures
        occurrences(ticks(first_run, has_init, order, n), Invocation::Init) == if first_run
            && has_init && n > 0 {
            1nat
        } else {
            0nat
        },
        occurrences(ticks(first_run, has_init, order, n), Invocation::Cleanup) == 0,
    decreases n,
{
    if n > 0 {
        let runs = order.map_values(|id: u32| Invocation::Run(id));
        let head = if first_run && has_init {
            seq![Invocation::Init]
        } else {
            Seq::<Invocation>::empty()
        };
        lemma_ticks_counts(has_init, order, false, (n - 1) as nat);
        lemma_no_init_or_cleanup_in_runs(order);
        lemma_occurrences_add(head, runs, Invocation::Init);
        lemma_occurrences_add(head, runs, Invocation::Cleanup);
        let rest = ticks(false, has_init, order, (n - 1) as nat);
        lemma_occurrences_add(head + runs, rest, Invocation::Init);
        lemma_occurrences_add(head + runs, rest, Invocation::Cleanup);
        reveal_with_fuel(occurrences, 2);
        if first_run && has_init {
            assert(head.drop_last() =~= Seq::<Invocation>::empty());
        }
    }
}

/// Over `n` ticks of a fresh world followed by its teardown, the init system runs exactly
/// once if it is set (and there was a tick), the cleanup system exactly once if it is set,
/// and no tick runs the cleanup system.
pub proof fn lemma_init_and_cleanup_run_once(
    has_init: bool,
    has_cleanup: bool,
    order: Seq<u32>,
    n: nat,
)
    ensures
        occurrences(ticks(true, has_init, order, n), Invocation::Init) == if has_init && n > 0 {
            1nat
        } else {
            0nat
        },
        occurrences(ticks(true, has_init, order, n), Invocation::Cleanup) == 0,
        occurrences(
            ticks(true, has_init, order, n) + teardown_plan(has_cleanup),
            Invocation::Cleanup,
        ) == if has_cleanup {
            1nat
        } else {
            0nat
        },
{
    lemma_ticks_counts(has_init, order, true, n);
    let t = ticks(true, has_init, order, n);
    lemma_occurrences_add(t, teardown_plan(has_cleanup), Invocation::Cleanup);
    reveal_with_fuel(occurrences, 2);
    if has_cleanup {
        assert(teardown_plan(has_cleanup).drop_last() =~= Seq::<Invocation>::empty());
    }
}

/// A tick runs the registered systems by ascending priority: of two systems that one tick
/// runs, the one that runs first has a priority no greater than the other's.
pub proof fn lemma_tick_runs_by_priority<S>(store: SystemStore<S>, first_run: bool, i: int, j: int)
    requires
        store.wf(),
        0 <= i < j < store.order().len(),
    ensures
        tick_plan(first_run, store.init() is Some, store.order()).contains(
            Invocation::Run(store.order()[i]),
        ),
        store.priority_of(store.order()[i]) <= store.priority_of(store.order()[j]),
{
    store.lemma_run_order();
    let head = if first_run && store.init() is Some {
        seq![Invocation::Init]
    } else {
        Seq::<Invocation>::empty()
    };
    let plan = tick_plan(first_run, store.init() is Some, store.order());
    assert(plan[head.len() + i] == Invocation::Run(store.order()[i]));
}

/// `after` is what `call`, made with the systems of `store`, can leave of `before`.
pub open spec fn call_ran<E, K, V, S: System<E, K, V>>(
    store: SystemStore<S>,
    call: Invocation,
    before: EntityComponentManager<E, K, V>,
    after: EntityComponentManager<E, K, V>,
) -> bool {
    match call {
        Invocation::Init => match store.init() {
            Some(s) => s.system.ran(before, after),
            None => false,
        },
        Invocation::Run(id) => store.systems().contains_key(id) && store.systems()[id].system.ran(
            before,
            after,
        ),
        Invocation::Cleanup => match store.cleanup() {
            Some(s) => s.system.ran(before, after),
            None => false,
        },
    }
}

/// The managers `ms` are the states that the calls of `plan` lead through, one call per
/// step: call `i` takes `ms[i]` to `ms[i + 1]`.
pub open spec fn runs_through<E, K, V, S: System<E, K, V>>(
    store: SystemStore<S>,
    plan: Seq<Invocation>,
    ms: Seq<EntityComponentManager<E, K, V>>,
) -> bool {
    &&& ms.len() == plan.len() + 1
    &&& forall|i: int| 0 <= i < plan.len() ==> #[trigger] call_ran(store, plan[i], ms[i], ms[i + 1])
}

proof fn lemma_runs_through_push<E, K, V, S: System<E, K, V>>(
    store: SystemStore<S>,
    plan: Seq<Invocation>,
    ms: Seq<EntityComponentManager<E, K, V>>,
    call: Invocation,
    next: EntityComponentManager<E, K, V>,
)
    requires
        runs_through(store, plan, ms),
        call_ran(store, call, ms.last(), next),
    ensures
        runs_through(store, plan.push(call), ms.push(next)),
        ms.push(next)[0] == ms[0],
        ms.push(next).last() == next,
{
    let grown_plan = plan.push(call);
    let grown_ms = ms.push(next);
    assert forall|i: int| 0 <= i < grown_plan.len() implies #[trigger] call_ran(store, grown_plan[i], grown_ms[i], grown_ms[i + 1]) by {
        if i < plan.len() {
            assert(grown_plan[i] == plan[i] && grown_ms[i] == ms[i] && grown_ms[i + 1] == ms[i + 1]);
        } else {
            assert(grown_plan[i] == call && grown_ms[i] == ms.last() && grown_ms[i + 1] == next);
        }
    }
}

/// The facade: owns the entities, their components and the systems, and runs the systems.
pub struct World<E, K, V, S> {
    entity_component_manager: EntityComponentManager<E, K, V>,
    system_store: SystemStore<S>,
    system_counter: u32,
    first_run: bool,
    cleaned_up: bool,
    history: Ghost<Seq<Invocation>>,
}

impl<K: TableKey, V, S> World<VecEntityStore, K, V, S> {
    /// Creates a world whose entity store is a `VecEntityStore`.
    pub fn new() -> (r: Self)
        ensures
            r.wf(),
            r.manager().components().slots() == Map::<(Entity, K::V), crate::component::Slot<K, V>>::empty(),
            r.manager().next_entity() == 0,
            r.systems().systems() == Map::<u32, EntitySystem<S>>::empty(),
            r.systems().init() is None,
            r.systems().cleanup() is None,
            r.next_system() == 0,
            r.first_run(),
            !r.cleaned_up(),
            r.history() == Seq::<Invocation>::empty(),
    {
        World::from_entity_store(VecEntityStore { inner: Vec::new() })
    }
}

impl<E: EntityStore, K: TableKey, V, S> World<E, K, V, S> {
    /// The entities and their components.
    pub closed spec fn manager(&self) -> EntityComponentManager<E, K, V> {
        self.entity_component_manager
    }

    /// The registered systems.
    pub closed spec fn systems(&self) -> SystemStore<S> {
        self.system_store
    }

    /// The id that `create_system` hands out next.
    pub closed spec fn next_system(&self) -> u32 {
        self.system_counter
    }

    /// True until the first tick.
    pub closed spec fn first_run(&self) -> bool {
        self.first_run
    }

    /// True once the world has been torn down.
    pub closed spec fn cleaned_up(&self) -> bool {
        self.cleaned_up
    }

    /// Every system call the world has made, in order.
    pub closed spec fn history(&self) -> Seq<Invocation> {
        self.history@
    }

    pub open spec fn wf(&self) -> bool {
        self.manager().wf() && self.systems().wf()
    }

    /// Creates a world around `entity_store`, with no components and no systems.
    pub fn from_entity_store(entity_store: E) -> (r: Self)
        ensures
            r.wf(),
            r.manager().components().slots() == Map::<(Entity, K::V), crate::component::Slot<K, V>>::empty(),
            r.manager().entities() == entity_store,
            r.manager().next_entity() == 0,
            r.systems().systems() == Map::<u32, EntitySystem<S>>::empty(),
            r.systems().init() is None,
            r.systems().cleanup() is None,
            r.next_system() == 0,
            r.first_run(),
            !r.cleaned_up(),
            r.history() == Seq::<Invocation>::empty(),
    {
        World {
            entity_component_manager: EntityComponentManager::new(entity_store),
            system_store: SystemStore::new(),
            system_counter: 0,
            first_run: true,
            cleaned_up: false,
            history: Ghost(Seq::empty()),
        }
    }

    /// Hands out the next entity and returns a builder for it.
    pub fn create_entity(&mut self) -> (r: EntityBuilder<'_, E, K, V>)
        requires
            old(self).wf(),
            old(self).manager().next_entity() < u32::MAX,
        ensures
            r.entity == Entity(old(self).manager().next_entity()),
            r.component_store.wf(),
            r.component_store.slots() == old(self).manager().components().slots(),
            final(self).manager().components() == *final(r.component_store),
            final(self).manager().entities() == *final(r.entity_store),
            final(self).manager().next_entity() == old(self).manager().next_entity() + 1,
            final(self).systems() == old(self).systems(),
            final(self).history() == old(self).history(),
    {
        self.entity_component_manager.create_entity()
    }

    /// Removes `entity` with every slot it has.
    pub fn remove_entity(&mut self, entity: Entity)
        requires
            old(self).wf(),
        ensures
            final(self).wf(),
            final(self).manager().components().slots() == crate::component::without_entity(
                old(self).manager().components().slots(),
                entity,
            ),
            forall|e: Entity| #[trigger]
                final(self).manager().components().entities().contains(e) <==> old(self).manager().components().entities().contains(e) && e != entity,
            E::removed(old(self).manager().entities(), final(self).manager().entities(), entity),
            final(self).systems() == old(self).systems(),
            final(self).history() == old(self).history(),
    {
        self.entity_component_manager.remove_entity(entity);
    }

    /// Sets the init system.
    pub fn register_init_system(&mut self, init_system: S)
        requires
            old(self).wf(),
        ensures
            final(self).wf(),
            final(self).systems().init() == Some(EntitySystem { system: init_system, priority: 0 }),
            final(self).systems().cleanup() == old(self).systems().cleanup(),
            final(self).systems().systems() == old(self).systems().systems(),
            final(self).systems().order() == old(self).systems().order(),
            final(self).manager() == old(self).manager(),
            final(self).first_run() == old(self).first_run(),
            final(self).history() == old(self).history(),
    {
        self.system_store.register_init_system(init_system);
    }

    /// Sets the cleanup system.
    pub fn register_cleanup_system(&mut self, cleanup_system: S)
        requires
            old(self).wf(),
        ensures
            final(self).wf(),
            final(self).systems().cleanup() == Some(
                EntitySystem { system: cleanup_system, priority: 0 },
            ),
            final(self).systems().init() == old(self).systems().init(),
            final(self).systems().systems() == old(self).systems().systems(),
            final(self).systems().order() == old(self).systems().order(),
            final(self).manager() == old(self).manager(),
            final(self).cleaned_up() == old(self).cleaned_up(),
            final(self).history() == old(self).history(),
    {
        self.system_store.register_cleanup_system(cleanup_system);
    }

    /// Registers `system` under the next id, with priority 0, and returns a builder that
    /// can give it another priority.
    pub fn create_system(&mut self, system: S) -> (r: SystemStoreBuilder<'_, S>)
        requires
            old(self).wf(),
            old(self).next_system() < u32::MAX,
        ensures
            r.entity_system_id == old(self).next_system(),
            r.priority == 0,
            r.system_store.wf(),
            r.system_store.systems() == old(self).systems().systems().insert(
                r.entity_system_id,
                EntitySystem { system, priority: 0 },
            ),
            r.system_store.placed(
                old(self).systems().order().remove_value(r.entity_system_id),
                r.entity_system_id,
                0,
            ),
            r.system_store.init() == old(self).systems().init(),
            r.system_store.cleanup() == old(self).systems().cleanup(),
            final(self).systems() == *final(r.system_store),
            final(self).next_system() == old(self).next_system() + 1,
            final(self).manager() == old(self).manager(),
            final(self).first_run() == old(self).first_run(),
            final(self).cleaned_up() == old(self).cleaned_up(),
            final(self).history() == old(self).history(),
    {
        let entity_system_id = self.system_counter;
        self.system_store.register_system(system, entity_system_id);
        self.system_counter = self.system_counter + 1;
        SystemStoreBuilder { entity_system_id, system_store: &mut self.system_store, priority: 0 }
    }

    /// Removes the system `system_id`. Fails if no such system is registered.
    pub fn remove_system(&mut self, system_id: u32) -> (r: Result<(), NotFound>)
        requires
            old(self).wf(),
        ensures
            final(self).wf(),
            match r {
                Ok(()) => old(self).systems().systems().contains_key(system_id) && final(self).systems().systems() == old(self).systems().systems().remove(system_id) && final(self).systems().order() == old(self).systems().order().remove_value(system_id),
                Err(e) => !old(self).systems().systems().contains_key(system_id) && e
                    == NotFound::EntitySystem(system_id) && final(self).systems() == old(self).systems(),
            },
            final(self).systems().init() == old(self).systems().init(),
            final(self).systems().cleanup() == old(self).systems().cleanup(),
            final(self).manager() == old(self).manager(),
            final(self).history() == old(self).history(),
    {
        self.system_store.remove_system(system_id)
    }

    /// Returns a mutable reference to the entities and their components.
    pub fn entity_component_manager(&mut self) -> (r: &mut EntityComponentManager<E, K, V>)
        ensures
            *r == old(self).manager(),
            final(self).manager() == *final(r),
            final(self).systems() == old(self).systems(),
            final(self).history() == old(self).history(),
    {
        &mut self.entity_component_manager
    }
}

impl<E: EntityStore, K: TableKey, V, S: System<E, K, V>> World<E, K, V, S> {
    /// Runs one tick: the init system first if this is the first tick, then every registered
    /// system by ascending priority, systems of equal priority in the order they got it.
    pub fn run(&mut self)
        requires
            old(self).systems().wf(),
        ensures
            final(self).systems() == old(self).systems(),
            final(self).history() == old(self).history() + tick_plan(
                old(self).first_run(),
                old(self).systems().init() is Some,
                old(self).systems().order(),
            ),
            exists|ms: Seq<EntityComponentManager<E, K, V>>|
                #[trigger] runs_through(
                    old(self).systems(),
                    tick_plan(
                        old(self).first_run(),
                        old(self).systems().init() is Some,
                        old(self).systems().order(),
                    ),
                    ms,
                ) && ms[0] == old(self).manager() && ms.last() == final(self).manager(),
            !final(self).first_run(),
            final(self).cleaned_up() == old(self).cleaned_up(),
            final(self).next_system() == old(self).next_system(),
    {
        let ghost h0 = self.history@;
        let ghost store = self.system_store;
        let ghost mut done = Seq::<Invocation>::empty();
        let ghost mut ms = seq![self.entity_component_manager];
        if self.first_run {
            match self.system_store.borrow_init_system() {
                Some(init) => {
                    let ghost before = self.entity_component_manager;
                    init.system.run(&mut self.entity_component_manager);
                    proof {
                        lemma_runs_through_push(
                            store,
                            done,
                            ms,
                            Invocation::Init,
                            self.entity_component_manager,
                        );
                        done = done.push(Invocation::Init);
                        ms = ms.push(self.entity_component_manager);
                        self.history = Ghost(self.history@.push(Invocation::Init));
                    }
                },
                None => {},
            }
            self.first_run = false;
        }
        proof {
            if old(self).first_run && old(self).system_store.init() is Some {
                assert(done =~= seq![Invocation::Init]);
            } else {
                assert(done =~= Seq::<Invocation>::empty());
            }
            assert(self.history@ =~= h0 + done);
        }
        let ghost head = done;
        let order = self.system_store.schedule();
        proof {
            self.system_store.lemma_run_order();
        }
        let mut j: usize = 0;
        while j < order.len()
            invariant
                self.system_store == store,
                store == old(self).system_store,
                self.system_store.wf(),
                order@ == self.system_store.order(),
                j <= order@.len(),
                !self.first_run,
                self.cleaned_up == old(self).cleaned_up,
                self.system_counter == old(self).system_counter,
                done == head + order@.take(j as int).map_values(|id: u32| Invocation::Run(id)),
                self.history@ == h0 + done,
                runs_through(store, done, ms),
                ms[0] == old(self).entity_component_manager,
                ms.last() == self.entity_component_manager,
            decreases order@.len() - j,
        {
            let id = order[j];
            proof {
                self.system_store.lemma_run_order();
                assert(self.system_store.order().contains(id)) by {
                    assert(order@[j as int] == id);
                }
            }
            match self.system_store.borrow_entity_system(id) {
                Ok(sys) => {
                    sys.system.run(&mut self.entity_component_manager);
                    proof {
                        lemma_runs_through_push(
                            store,
                            done,
                            ms,
                            Invocation::Run(id),
                            self.entity_component_manager,
                        );
                        done = done.push(Invocation::Run(id));
                        ms = ms.push(self.entity_component_manager);
                        self.history = Ghost(self.history@.push(Invocation::Run(id)));
                    }
                },
                Err(_) => {
                    assert(false);
                },
            }
            proof {
                assert(order@.take(j + 1) =~= order@.take(j as int).push(id));
                assert(done =~= head + order@.take(j + 1).map_values(|id: u32| Invocation::Run(id)));
                assert(self.history@ =~= h0 + done);
            }
            j = j + 1;
        }
        proof {
            assert(order@.take(order@.len() as int) =~= order@);
            assert(done =~= tick_plan(
                old(self).first_run,
                old(self).system_store.init() is Some,
                old(self).system_store.order(),
            ));
            assert(runs_through(
                old(self).systems(),
                tick_plan(
                    old(self).first_run(),
                    old(self).systems().init() is Some,
                    old(self).systems().order(),
                ),
                ms,
            ));
        }
    }

    /// Tears the world down: runs the cleanup system, if one is set, unless this was done
    /// before. Later calls do nothing. Dropping a world runs nothing: a system may panic,
    /// which a destructor must not, so teardown is this explicit call.
    pub fn shutdown(&mut self)
        ensures
            final(self).history() == old(self).history() + if old(self).cleaned_up() {
                Seq::<Invocation>::empty()
            } else {
                teardown_plan(old(self).systems().cleanup() is Some)
            },
            !old(self).cleaned_up() && old(self).systems().cleanup() is Some ==> old(self).systems().cleanup()->0.system.ran(old(self).manager(), final(self).manager()),
            old(self).cleaned_up() || old(self).systems().cleanup() is None ==> final(self).manager() == old(self).manager(),
            final(self).cleaned_up(),
            final(self).systems() == old(self).systems(),
            final(self).first_run() == old(self).first_run(),
            final(self).next_system() == old(self).next_system(),
    {
        if !self.cleaned_up {
            match self.system_store.borrow_cleanup_system() {
                Some(cleanup) => {
                    cleanup.system.run(&mut self.entity_component_manager);
                    proof {
                        self.history = Ghost(self.history@.push(Invocation::Cleanup));
                    }
                },
                None => {},
            }
            self.cleaned_up = true;
        }
        proof {
            assert(self.history@ =~= old(self).history@ + if old(self).cleaned_up {
                Seq::<Invocation>::empty()
            } else {
                teardown_plan(old(self).system_store.cleanup() is Some)
            });
        }
    }
}

/// Sets the priority of a system that was just created, then finishes its registration.
pub struct SystemStoreBuilder<'a, S> {
    /// The id of the system.
    pub entity_system_id: u32,
    /// The store the system is registered in.
    pub system_store: &'a mut SystemStore<S>,
    /// The priority the system gets.
    pub priority: Priority,
}

impl<'a, S> SystemStoreBuilder<'a, S> {
    /// Sets the priority; the default is 0.
    pub fn with_priority(self, priority: Priority) -> (r: Self)
        ensures
            r.entity_system_id == self.entity_system_id,
            r.priority == priority,
            *r.system_store == *old(self.system_store),
            *final(r.system_store) == *final(self.system_store),
    {
        SystemStoreBuilder {
            entity_system_id: self.entity_system_id,
            system_store: self.system_store,
            priority,
        }
    }

    /// Gives the system its priority and returns its id.
    pub fn build(self) -> (r: u32)
        requires
            old(self.system_store).wf(),
        ensures
            r == self.entity_system_id,
            final(self.system_store).wf(),
            old(self.system_store).systems().contains_key(r) ==> final(self.system_store).systems() == old(self.system_store).systems().insert(
                r,
                EntitySystem { system: old(self.system_store).systems()[r].system, priority: self.priority },
            ) && final(self.system_store).placed(
                old(self.system_store).order().remove_value(r),
                r,
                self.priority,
            ),
            !old(self.system_store).systems().contains_key(r) ==> *final(self.system_store)
                == *old(self.system_store),
    {
        let _ = self.system_store.register_priority(self.priority, self.entity_system_id);
        self.entity_system_id
    }
}

} // verus!
