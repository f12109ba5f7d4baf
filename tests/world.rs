use dces::{
    ComponentBuilder, Entity, EntityComponentManager, EntityStore, NotFound, System, TypeKey,
    VecEntityStore, World,
};

#[derive(Debug, Clone, PartialEq, Default)]
struct Counter(u32);

#[derive(Default)]
struct TestSystem;

impl System<VecEntityStore, TypeKey, u32> for TestSystem {
    fn run(&self, _ecm: &mut EntityComponentManager<VecEntityStore, TypeKey, u32>) {}
}

#[test]
fn world_create_entity() {
    let mut world: World<VecEntityStore, TypeKey, u32, TestSystem> =
        World::from_entity_store(VecEntityStore::default());
    assert_eq!(Entity(0), world.create_entity().build());
    assert_eq!(Entity(1), world.create_entity().build());
}

#[test]
fn world_create_system() {
    let mut world = World::<VecEntityStore, TypeKey, u32, TestSystem>::from_entity_store(
        VecEntityStore::default(),
    );
    assert_eq!(0, world.create_system(TestSystem).build());
    assert_eq!(1, world.create_system(TestSystem).build());
}

#[test]
fn tests_create_entity() {
    let mut world = World::<VecEntityStore, TypeKey, u32, TestSystem>::new();
    assert_eq!(Entity(0), world.create_entity().build());
    assert_eq!(Entity(1), world.create_entity().build());
}

#[test]
fn tests_create_system() {
    let mut world = World::<VecEntityStore, TypeKey, u32, TestSystem>::new();
    assert_eq!(0, world.create_system(TestSystem).build());
    assert_eq!(1, world.create_system(TestSystem).build());
}

enum CounterSystem {
    Update,
    Check(u32),
}

impl System<VecEntityStore, String, Counter> for CounterSystem {
    fn run(&self, ecm: &mut EntityComponentManager<VecEntityStore, String, Counter>) {
        let (e_store, c_store) = ecm.stores_mut();
        let key = String::from("counter");
        for entity in &e_store.inner.clone() {
            if let Ok(comp) = c_store.get_mut(*entity, &key) {
                match self {
                    CounterSystem::Update => comp.0 += 1,
                    CounterSystem::Check(expected) => assert_eq!(comp.0, *expected),
                }
            }
        }
    }
}

#[test]
fn test_update() {
    let mut world = World::from_entity_store(VecEntityStore::default());

    world
        .create_entity()
        .components(
            ComponentBuilder::new()
                .with(String::from("counter"), Counter(0))
                .build(),
        )
        .build();
    world
        .create_entity()
        .components(
            ComponentBuilder::new()
                .with(String::from("counter"), Counter(0))
                .build(),
        )
        .build();

    world.create_system(CounterSystem::Update).with_priority(0).build();
    world
        .create_system(CounterSystem::Check(1))
        .with_priority(1)
        .build();
    world.run();
}

#[test]
fn world_remove_system_and_entity() {
    let mut world = World::<VecEntityStore, TypeKey, u32, TestSystem>::new();
    let id = world.create_system(TestSystem).build();
    assert_eq!(world.remove_system(id), Ok(()));
    assert_eq!(world.remove_system(id), Err(NotFound::EntitySystem(id)));
    let e = world.create_entity().with(TypeKey(0), 4).build();
    world.remove_entity(e);
    let ecm = world.entity_component_manager();
    assert!(ecm.entity_store().inner.is_empty());
    assert_eq!(ecm.component_store().get(e, &TypeKey(0)), Err(NotFound::Entity(e)));
    ecm.entity_store_mut().register_entity(Entity(9));
    assert_eq!(ecm.stores().0.inner, vec![Entity(9)]);
}
