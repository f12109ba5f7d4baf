use dces::{
    EntityComponentManager, NotFound, System, TypeComponentStore, TypeKey, VecEntityStore, World,
};

const C: TypeKey = TypeKey(3);
const LOG: TypeKey = TypeKey(4);
const SIZE: TypeKey = TypeKey(5);

#[test]
fn shared_slot_reads_and_writes_origin_value() {
    let mut store = TypeComponentStore::default();
    let a = dces::Entity(1);
    let b = dces::Entity(2);
    store.register_component(a, C, 5u32);
    store.register_shared_component(b, C, a);
    assert_eq!(store.get(b, &C), Ok(&5));
    assert_eq!(store.get(a, &C), Ok(&5));
    *store.get_mut(b, &C).unwrap() = 8;
    assert_eq!(store.get(a, &C), Ok(&8));
    assert_eq!(store.get(b, &C), Ok(&8));
}

#[test]
fn only_the_owner_is_origin() {
    let mut store = TypeComponentStore::default();
    let a = dces::Entity(1);
    let b = dces::Entity(2);
    store.register_component(a, C, 5u32);
    store.register_shared_component(b, C, a);
    assert!(store.is_origin(a, &C));
    assert!(!store.is_origin(b, &C));
}

#[test]
fn sharing_drops_own_value() {
    let mut store = TypeComponentStore::default();
    let a = dces::Entity(1);
    let b = dces::Entity(2);
    store.register_component(a, C, 5u32);
    store.register_component(b, C, 7u32);
    assert!(store.is_origin(b, &C));
    store.register_shared_component(b, C, a);
    assert!(!store.is_origin(b, &C));
    assert_eq!(store.get(b, &C), Ok(&5));
}

#[test]
fn removing_owner_leaves_sharer_not_found() {
    let mut store = TypeComponentStore::default();
    let a = dces::Entity(1);
    let b = dces::Entity(2);
    store.register_component(a, C, 5u32);
    store.register_shared_component(b, C, a);
    store.remove_entity(a);
    assert_eq!(store.get(b, &C), Err(NotFound::Component(b)));
    assert!(store.get_mut(b, &C).is_err());
    assert_eq!(store.get(a, &C), Err(NotFound::Entity(a)));
}

#[derive(Debug, Clone, PartialEq)]
enum Data {
    Log(Vec<u32>),
    Size { w: u32, h: u32 },
}

enum Recorder {
    Label(u32),
    Grow,
    ExpectSize(u32, u32),
}

type Ecm = EntityComponentManager<VecEntityStore, TypeKey, Data>;

impl System<VecEntityStore, TypeKey, Data> for Recorder {
    fn run(&self, ecm: &mut Ecm) {
        match self {
            Recorder::Label(label) => {
                if let Ok(Data::Log(log)) = ecm.component_store_mut().get_mut(dces::Entity(0), &LOG) {
                    log.push(*label);
                }
            }
            Recorder::Grow => {
                if let Ok(Data::Size { w, h }) =
                    ecm.component_store_mut().get_mut(dces::Entity(0), &SIZE)
                {
                    *w += 1;
                    *h += 1;
                }
            }
            Recorder::ExpectSize(ew, eh) => {
                assert_eq!(
                    ecm.component_store().get(dces::Entity(1), &SIZE),
                    Ok(&Data::Size { w: *ew, h: *eh })
                );
            }
        }
    }
}

fn log_of(world: &mut World<VecEntityStore, TypeKey, Data, Recorder>) -> Vec<u32> {
    match world
        .entity_component_manager()
        .component_store()
        .get(dces::Entity(0), &LOG)
    {
        Ok(Data::Log(log)) => log.clone(),
        _ => panic!("no log"),
    }
}

#[test]
fn tick_runs_by_priority_then_registration() {
    let mut world = World::new();
    world.create_entity().with(LOG, Data::Log(vec![])).build();
    world.create_system(Recorder::Label(0)).with_priority(5).build();
    world.create_system(Recorder::Label(1)).with_priority(1).build();
    world.create_system(Recorder::Label(2)).with_priority(1).build();
    world.create_system(Recorder::Label(3)).with_priority(3).build();
    world.run();
    assert_eq!(log_of(&mut world), vec![1, 2, 3, 0]);
}

#[test]
fn init_runs_once_and_cleanup_once() {
    let mut world = World::new();
    world.create_entity().with(LOG, Data::Log(vec![])).build();
    world.register_init_system(Recorder::Label(100));
    world.register_cleanup_system(Recorder::Label(200));
    world.create_system(Recorder::Label(1)).build();
    for _ in 0..3 {
        world.run();
    }
    assert_eq!(log_of(&mut world), vec![100, 1, 1, 1]);
    world.shutdown();
    world.shutdown();
    assert_eq!(log_of(&mut world), vec![100, 1, 1, 1, 200]);
}

#[test]
fn first_tick_is_spent_without_init_system() {
    let mut world = World::new();
    world.create_entity().with(LOG, Data::Log(vec![])).build();
    world.create_system(Recorder::Label(1)).build();
    world.run();
    world.register_init_system(Recorder::Label(100));
    world.run();
    assert_eq!(log_of(&mut world), vec![1, 1]);
}

#[test]
fn shared_size_round_trip() {
    let mut world = World::new();
    let e1 = world
        .create_entity()
        .with(SIZE, Data::Size { w: 5, h: 5 })
        .build();
    let e2 = world.create_entity().with_shared(SIZE, e1).build();
    world.create_system(Recorder::Grow).with_priority(0).build();
    world.create_system(Recorder::ExpectSize(6, 6)).with_priority(1).build();
    world.run();
    let store = world.entity_component_manager().component_store();
    assert_eq!(store.get(e2, &SIZE), Ok(&Data::Size { w: 6, h: 6 }));
    assert_eq!(store.get(e1, &SIZE), Ok(&Data::Size { w: 6, h: 6 }));
}
