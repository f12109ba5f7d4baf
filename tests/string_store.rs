use dces::{Entity, NotFound, StringComponentBuilder, StringComponentStore};

fn key(s: &str) -> String {
    String::from(s)
}

#[test]
fn entities_of_component() {
    let mut store = StringComponentStore::default();
    let source = Entity::from(1);
    let target = Entity::from(2);
    let target_two = Entity::from(3);
    let target_three = Entity::from(4);
    let target_four = Entity::from(5);
    let component = String::from("Test");

    store.register(key("test"), source, component);
    store.register_shared(key("test"), target, source);
    store.register_shared_by_source_key(key("test_next"), key("test"), target_two, source);
    store.register_shared(key("test"), target_three, target);
    store.register_shared_by_source_key(key("test_next"), key("test_next"), target_four, target_two);

    let entities = store.entities_of_component(&key("test"), source);
    assert_eq!(entities.len(), 5);

    let entities = store.entities_of_component(&key("test"), target);
    assert_eq!(entities.len(), 5);

    let entities = store.entities_of_component(&key("test_next"), target_two);
    assert_eq!(entities.len(), 5);

    let entities = store.entities_of_component(&key("test"), target_three);
    assert_eq!(entities.len(), 5);

    let entities = store.entities_of_component(&key("test_next"), target_four);
    assert_eq!(entities.len(), 5);

    assert!(entities.contains(&source));
    assert!(entities.contains(&target));
    assert!(entities.contains(&target_two));
    assert!(entities.contains(&target_three));
    assert!(entities.contains(&target_four));
}

#[test]
fn string_component_store_builder_with() {
    let builder = StringComponentBuilder::new();
    let component = String::from("Test");
    let (map, _) = builder.with(key("test"), component).build();

    assert!(map.contains_key(&String::from("test")));
}

#[test]
fn string_component_store_builder_with_shared() {
    let builder = StringComponentBuilder::<String>::default();
    let source = Entity::from(1);
    let (_, map) = builder.with_shared(key("test"), source).build();

    assert!(map.contains_key(&String::from("test")));
    assert_eq!(
        *map.get(&String::from("test")).unwrap(),
        (source, String::from("test"))
    );
}

#[test]
fn string_component_store_remove_entity() {
    let mut store = StringComponentStore::default();
    let entity = Entity::from(1);
    store.register(key("test"), entity, String::from("Test"));
    store.remove_entity(entity);

    assert!(!store.contains_entity(entity));
}

#[test]
fn register() {
    let mut store = StringComponentStore::default();
    let entity = Entity::from(1);
    let component = String::from("Test");

    store.register(key("test"), entity, component);

    assert!(store.get(entity, &key("test")).is_ok());
}

#[derive(Debug, PartialEq)]
enum Value {
    Text(String),
    Number(f64),
}

#[test]
fn string_component_store_len() {
    let mut store = StringComponentStore::default();
    let entity = Entity::from(1);

    store.register(key("string"), entity, Value::Text(String::from("Test")));
    store.register(key("float"), entity, Value::Number(5 as f64));

    // The store counts entities with a slot set; both values belong to one entity.
    assert_eq!(store.len(), 1);
    assert!(store.is_origin(entity, &key("string")));
    assert!(store.is_origin(entity, &key("float")));
}

#[test]
fn target_key() {
    let mut store = StringComponentStore::default();
    let source = Entity::from(1);
    let target = Entity::from(2);
    let target_two = Entity::from(3);
    let component = String::from("Test");

    store.register(key("test"), source, component);
    store.register_shared_by_source_key(key("test_one"), key("test"), target, source);
    store.register_shared_by_source_key(key("test_two"), key("test"), target_two, source);

    let result_target = store.target_key(source, target, &key("test"));

    assert!(result_target.is_ok());
    assert_eq!(result_target.unwrap(), "test_one");

    let result_target = store.target_key(source, target_two, &key("test"));

    assert!(result_target.is_ok());
    assert_eq!(result_target.unwrap(), "test_two");
}

#[test]
fn register_shared() {
    let mut store = StringComponentStore::default();
    let source = Entity::from(1);
    let target = Entity::from(2);
    let target_next = Entity::from(3);
    let component = String::from("Test");

    store.register(key("test"), source, component);
    store.register_shared(key("test"), target, source);
    store.register_shared_by_source_key(key("test_next"), key("test"), target_next, source);

    assert!(store.get(source, &key("test")).is_ok());
    assert!(store.get(target, &key("test")).is_ok());
    assert!(store.get(target_next, &key("test_next")).is_ok());
    assert!(store.is_origin(source, &key("test")));
    assert!(!store.is_origin(target, &key("test")));
    assert!(!store.is_origin(target_next, &key("test_next")));
}

#[test]
fn target_key_missing_is_component_not_found() {
    let mut store = StringComponentStore::default();
    store.register(key("a"), Entity(1), 1u32);
    store.register_shared(key("a"), Entity(2), Entity(1));
    assert_eq!(
        store.target_key(Entity(1), Entity(2), &key("b")),
        Err(NotFound::Component(Entity(2)))
    );
    assert_eq!(
        store.target_key(Entity(3), Entity(2), &key("a")),
        Err(NotFound::Component(Entity(2)))
    );
}

#[test]
fn long_chain_resolves_to_origin() {
    let mut store = StringComponentStore::default();
    store.register(key("v"), Entity(0), 42u32);
    for i in 1..6u32 {
        store.register_shared(key("v"), Entity(i), Entity(i - 1));
    }
    assert_eq!(store.get(Entity(5), &key("v")), Ok(&42));
    assert_eq!(store.source(Entity(5), &key("v")), Ok((Entity(0), key("v"))));
    *store.get_mut(Entity(3), &key("v")).unwrap() = 7;
    assert_eq!(store.get(Entity(0), &key("v")), Ok(&7));
    assert_eq!(store.get(Entity(5), &key("v")), Ok(&7));
}

#[test]
fn alias_cycle_fails_instead_of_hanging() {
    let mut store: StringComponentStore<u32> = StringComponentStore::default();
    store.register_shared(key("v"), Entity(1), Entity(2));
    store.register_shared(key("v"), Entity(2), Entity(1));
    assert_eq!(store.get(Entity(1), &key("v")), Err(NotFound::Component(Entity(1))));
    assert_eq!(store.get_mut(Entity(2), &key("v")), Err(NotFound::Component(Entity(2))));
    assert_eq!(store.entities_of_component(&key("v"), Entity(1)), vec![Entity(1)]);
}

#[test]
fn missing_entity_and_missing_key_differ() {
    let mut store = StringComponentStore::default();
    store.register(key("a"), Entity(1), 1u32);
    assert_eq!(store.get(Entity(9), &key("a")), Err(NotFound::Entity(Entity(9))));
    assert_eq!(store.get(Entity(1), &key("b")), Err(NotFound::Component(Entity(1))));
}

#[test]
fn forward_reference_resolves_once_source_exists() {
    let mut store = StringComponentStore::default();
    store.register_shared(key("a"), Entity(2), Entity(1));
    assert!(store.get(Entity(2), &key("a")).is_err());
    store.register(key("a"), Entity(1), 3u32);
    assert_eq!(store.get(Entity(2), &key("a")), Ok(&3));
}
