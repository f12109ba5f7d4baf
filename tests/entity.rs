use dces::{
    Entity, EntityBuilder, EntityComponentManager, EntityStore, NotFound, TypeKey, VecEntityStore,
};

#[derive(Copy, Clone, Default, PartialEq, Debug)]
struct TestComponent;

const TEST: TypeKey = TypeKey(0);

type Manager = EntityComponentManager<VecEntityStore, TypeKey, TestComponent>;

#[test]
fn test_entity_from() {
    let entity = Entity::from(2);
    assert_eq!(entity.0, 2);

    let entity = Entity::from(5);
    assert_eq!(entity.0, 5);
}

#[test]
fn entity_test_register_entity() {
    let mut store = VecEntityStore::default();
    let entity_one = Entity::from(1);
    store.register_entity(entity_one);
    let entity_two = Entity::from(2);
    store.register_entity(entity_two);
    let entity_three = Entity::from(3);

    assert!(store.inner.contains(&entity_one));
    assert!(store.inner.contains(&entity_two));
    assert!(!store.inner.contains(&entity_three));
}

#[test]
fn test_register_component() {
    let mut ecm = Manager::new(VecEntityStore { inner: vec![] });
    ecm.register_entity(0.into());
    ecm.register_component(0.into(), TEST, TestComponent);
    assert!(ecm.component_store().get(0.into(), &TEST) == Ok(&TestComponent))
}

#[test]
fn test_register_shared_component() {
    let mut ecm = Manager::new(VecEntityStore { inner: vec![] });
    ecm.register_entity(0.into());
    ecm.register_component(0.into(), TEST, TestComponent);
    ecm.register_entity(1.into());
    ecm.register_shared_component(1.into(), TEST, 0.into());
    assert!(ecm.component_store().get(1.into(), &TEST) == Ok(&TestComponent))
}

#[test]
fn tests_test_build() {
    let mut ecm = Manager::new(VecEntityStore { inner: vec![] });
    let (entity_store, component_store) = ecm.stores_mut();
    let eb = EntityBuilder {
        entity: 0.into(),
        component_store,
        entity_store,
    };

    assert_eq!(eb.build(), 0.into());
}

#[test]
fn test_with() {
    let mut ecm = Manager::new(VecEntityStore { inner: vec![] });
    ecm.register_entity(0.into());

    {
        let (entity_store, component_store) = ecm.stores_mut();
        let eb = EntityBuilder {
            entity: 0.into(),
            component_store,
            entity_store,
        };

        eb.with(TEST, TestComponent);
    }

    assert!(ecm.component_store().get(0.into(), &TEST) == Ok(&TestComponent))
}

#[test]
fn test_with_shared() {
    let mut ecm = Manager::new(VecEntityStore { inner: vec![] });
    ecm.register_entity(0.into());

    {
        let (entity_store, component_store) = ecm.stores_mut();
        let eb = EntityBuilder {
            entity: 0.into(),
            component_store,
            entity_store,
        };

        eb.with(TEST, TestComponent);
    }

    ecm.register_entity(1.into());

    {
        let (entity_store, component_store) = ecm.stores_mut();
        let eb = EntityBuilder {
            entity: 1.into(),
            component_store,
            entity_store,
        };

        eb.with_shared(TEST, 0.into());
    }

    assert!(ecm.component_store().get(1.into(), &TEST) == Ok(&TestComponent))
}

#[test]
fn vec_entity_store_removes_first_occurrence_only() {
    let mut store = VecEntityStore::default();
    store.register_entity(Entity(1));
    store.register_entity(Entity(2));
    store.register_entity(Entity(1));
    store.remove_entity(Entity(1));
    assert_eq!(store.inner, vec![Entity(2), Entity(1)]);
    store.remove_entity(Entity(9));
    assert_eq!(store.inner, vec![Entity(2), Entity(1)]);
}

#[test]
fn manager_hands_out_consecutive_entities() {
    let mut ecm = Manager::new(VecEntityStore::default());
    let a = ecm.create_entity().with(TEST, TestComponent).build();
    let b = ecm.create_entity().build();
    assert_eq!(a, Entity(0));
    assert_eq!(b, Entity(1));
    let (entities, components) = ecm.stores();
    assert_eq!(entities.inner, vec![Entity(0), Entity(1)]);
    assert_eq!(components.len(), 2);
    assert!(components.is_origin(a, &TEST));
}

#[test]
fn manager_remove_entity_clears_both_stores() {
    let mut ecm = Manager::new(VecEntityStore::default());
    let a = ecm.create_entity().with(TEST, TestComponent).build();
    ecm.remove_entity(a);
    assert!(ecm.entity_store().inner.is_empty());
    assert!(ecm.component_store().is_empty());
    assert_eq!(ecm.component_store().get(a, &TEST), Err(NotFound::Entity(a)));
}

#[test]
fn not_found_default_is_unknown() {
    assert_eq!(NotFound::default(), NotFound::Unknown);
}
