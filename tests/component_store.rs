use dces::{
    ComponentBox, Entity, EntityComponentManager, SharedComponentBox, TypeComponentBuilder,
    TypeComponentStore, TypeKey, VecEntityStore,
};

const STRING: TypeKey = TypeKey(1);
const FLOAT: TypeKey = TypeKey(2);

#[derive(Debug, Clone, PartialEq)]
enum Value {
    Text(String),
    Number(f64),
}

#[test]
fn component_store_builder_with() {
    let builder = TypeComponentBuilder::new();
    let component = String::from("Test");
    let (map, _) = builder.with(STRING, component).build();

    assert!(map.contains_key(&STRING));
}

#[test]
fn component_store_builder_with_shared() {
    let builder = TypeComponentBuilder::<String>::new();
    let source = Entity::from(1);
    let (_, map) = builder.with_shared(STRING, source).build();

    assert!(map.contains_key(&STRING));
    assert_eq!(*map.get(&STRING).unwrap(), (source, STRING));
}

#[test]
fn builder_with_shared_box() {
    let builder = TypeComponentBuilder::<String>::new();
    let source = Entity::from(1);
    let (_, map) = builder
        .with_shared_box(SharedComponentBox::new(STRING, source))
        .build();

    assert!(map.contains_key(&STRING));
}

#[test]
fn builder_with_box() {
    let builder = TypeComponentBuilder::new();
    let component = String::from("Test");
    let (map, _) = builder.with_box(ComponentBox::new(STRING, component)).build();

    assert!(map.contains_key(&STRING));
}

#[test]
fn register_entity() {
    let mut store = TypeComponentStore::<String>::default();
    let entity = Entity::from(1);
    store.register_entity(entity);

    assert!(store.contains_entity(entity));
}

#[test]
fn component_store_remove_entity() {
    let mut store = TypeComponentStore::<String>::default();
    let entity = Entity::from(1);
    store.register_entity(entity);
    store.remove_entity(entity);

    assert!(!store.contains_entity(entity));
}

#[test]
fn register_component() {
    let mut store = TypeComponentStore::default();
    let entity = Entity::from(1);
    let component = String::from("Test");

    store.register_entity(entity);
    store.register_component(entity, STRING, component);

    assert!(store.get(entity, &STRING).is_ok());
}

#[test]
fn component_store_len() {
    let mut store = TypeComponentStore::default();
    let entity = Entity::from(1);

    store.register_entity(entity);
    store.register_component(entity, STRING, Value::Text(String::from("Test")));
    store.register_component(entity, FLOAT, Value::Number(5 as f64));

    assert_eq!(store.len(), 1);
}

#[test]
fn register_shared_component() {
    let mut store = TypeComponentStore::default();
    let entity = Entity::from(1);
    let target = Entity::from(2);
    let component = String::from("Test");

    store.register_entity(entity);
    store.register_component(entity, STRING, component);
    store.register_shared_component(target, STRING, entity);

    assert!(store.get(entity, &STRING).is_ok());
    assert!(store.get(target, &STRING).is_ok());
    assert!(store.is_origin(entity, &STRING));
    assert!(!store.is_origin(target, &STRING));
}

#[test]
fn register_component_box() {
    let mut store = TypeComponentStore::default();
    let entity = Entity::from(1);
    let component = String::from("Test");

    store.register_entity(entity);
    store.register_component_box(entity, ComponentBox::new(STRING, component));

    assert!(store.get(entity, &STRING).is_ok());
}

#[test]
fn register_shared_component_box() {
    let mut store = TypeComponentStore::default();
    let entity = Entity::from(1);
    let target = Entity::from(2);
    let component = String::from("Test");

    store.register_entity(entity);
    store.register_component(entity, STRING, component);
    store.register_shared_component_box(target, SharedComponentBox::new(STRING, entity));
    assert!(store.get(entity, &STRING).is_ok());
    assert!(store.get(target, &STRING).is_ok());
    assert!(store.is_origin(entity, &STRING));
    assert!(!store.is_origin(target, &STRING));
}

#[test]
fn tests_test_register_entity() {
    let mut ecm: EntityComponentManager<VecEntityStore, TypeKey, String> =
        EntityComponentManager::new(VecEntityStore::default());
    ecm.register_entity(5.into());
    assert!(ecm.component_store().contains_entity(5.into()));
    assert_eq!(1, ecm.component_store().len());
}

#[test]
fn component_box_consume_returns_key_and_value() {
    let (key, value) = ComponentBox::new(FLOAT, Value::Number(2.5)).consume();
    assert_eq!(key, FLOAT);
    assert_eq!(value, Value::Number(2.5));
    let (key, source) = SharedComponentBox::new(STRING, Entity(7)).consume();
    assert_eq!(key, STRING);
    assert_eq!(source, Entity(7));
}

#[test]
fn builder_later_value_replaces_earlier() {
    let (map, shared) = TypeComponentBuilder::new()
        .with(STRING, String::from("a"))
        .with(STRING, String::from("b"))
        .build();
    assert_eq!(map.len(), 1);
    assert_eq!(map.get(&STRING), Some(&String::from("b")));
    assert_eq!(shared.len(), 0);
}

#[test]
fn append_puts_owned_over_shared() {
    let mut store = TypeComponentStore::default();
    let source = Entity(1);
    let entity = Entity(2);
    store.register_component(source, STRING, String::from("source"));
    store.register_component(source, FLOAT, String::from("float"));
    let components = TypeComponentBuilder::new()
        .with_shared(STRING, source)
        .with_shared(FLOAT, source)
        .with(FLOAT, String::from("own"))
        .build();
    store.append(entity, components);
    assert!(!store.is_origin(entity, &STRING));
    assert_eq!(store.get(entity, &STRING), Ok(&String::from("source")));
    assert!(store.is_origin(entity, &FLOAT));
    assert_eq!(store.get(entity, &FLOAT), Ok(&String::from("own")));
    assert_eq!(store.len(), 2);
}
