use dces::{
    EntityComponentManager, NotFound, System, SystemStore, SystemStoreBuilder, TypeKey,
    VecEntityStore,
};

struct TestSystem;

impl System<VecEntityStore, TypeKey, u32> for TestSystem {
    fn run(&self, _ecm: &mut EntityComponentManager<VecEntityStore, TypeKey, u32>) {}
}

#[test]
fn system_test_register_system() {
    let mut esm = SystemStore::new();
    esm.register_system(TestSystem, 0);

    assert!(esm.contains_system(0));
}

#[test]
fn test_register_init_system() {
    let mut esm = SystemStore::new();

    assert!(esm.borrow_init_system().is_none());
    esm.register_init_system(TestSystem);

    assert!(esm.borrow_init_system().is_some());
}

#[test]
fn test_register_cleanup_system() {
    let mut esm = SystemStore::new();

    assert!(esm.borrow_cleanup_system().is_none());
    esm.register_cleanup_system(TestSystem);

    assert!(esm.borrow_cleanup_system().is_some());
}

#[test]
fn system_test_remove_system() {
    let mut esm = SystemStore::new();
    esm.register_system(TestSystem, 0);
    assert_eq!(esm.remove_system(0), Ok(()));

    assert!(!esm.contains_system(0));
    assert!(!esm.contains_priority(0));
}

#[test]
fn system_test_register_priority() {
    let mut esm = SystemStore::new();
    esm.register_system(TestSystem, 0);
    assert_eq!(esm.register_priority(5, 0), Ok(()));

    assert_eq!(esm.borrow_entity_system(0).unwrap().priority, 5);
    assert!(esm.contains_priority(5));
}

#[test]
fn test_borrow_init_entity_system() {
    let mut esm = SystemStore::new();
    esm.register_init_system(TestSystem);

    assert!(esm.borrow_init_system().is_some());
}

#[test]
fn test_borrow_cleanup_entity_system() {
    let mut esm = SystemStore::new();
    esm.register_cleanup_system(TestSystem);

    assert!(esm.borrow_cleanup_system().is_some());
}

#[test]
fn system_test_borrow_entity_system() {
    let mut esm = SystemStore::new();
    esm.register_system(TestSystem, 0);

    assert!(esm.borrow_entity_system(0).is_ok());
}

#[test]
fn system_test_build() {
    let mut esm = SystemStore::new();
    esm.register_system(TestSystem, 0);

    {
        let esb = SystemStoreBuilder {
            entity_system_id: 0,
            system_store: &mut esm,
            priority: 0,
        };

        assert_eq!(esb.build(), 0);
    }
}

#[test]
fn unknown_system_is_not_found() {
    let mut esm: SystemStore<TestSystem> = SystemStore::default();
    assert_eq!(esm.remove_system(3), Err(NotFound::EntitySystem(3)));
    assert_eq!(esm.register_priority(1, 3), Err(NotFound::EntitySystem(3)));
    assert!(matches!(esm.borrow_entity_system(3), Err(NotFound::EntitySystem(3))));
}

#[test]
fn schedule_orders_by_priority_then_registration() {
    let mut esm = SystemStore::new();
    for id in 0..4u32 {
        esm.register_system(TestSystem, id);
    }
    esm.register_priority(5, 0).unwrap();
    esm.register_priority(1, 1).unwrap();
    esm.register_priority(1, 2).unwrap();
    esm.register_priority(3, 3).unwrap();
    assert_eq!(esm.schedule(), vec![1, 2, 3, 0]);
    // Moving a system to a priority puts it after the systems already there.
    esm.register_priority(1, 0).unwrap();
    assert_eq!(esm.schedule(), vec![1, 2, 0, 3]);
    assert!(!esm.contains_priority(5));
    esm.remove_system(2).unwrap();
    assert_eq!(esm.schedule(), vec![1, 0, 3]);
}

#[test]
fn negative_priorities_run_first() {
    let mut esm = SystemStore::new();
    esm.register_system(TestSystem, 0);
    esm.register_system(TestSystem, 1);
    esm.register_priority(-4, 1).unwrap();
    assert_eq!(esm.schedule(), vec![1, 0]);
}
