use ggengine::gamecore::components::{Component, ComponentId};
use ggengine::gamecore::entities::{EntityId, EntityRef};
use ggengine::gamecore::storages::ComponentStorage;

#[derive(Debug, Clone, PartialEq)]
enum Value {
    Player,
    Npc,
    Name(&'static str),
    Health(u32),
}

fn player() -> ComponentId {
    ComponentId::of(1)
}
fn npc() -> ComponentId {
    ComponentId::of(2)
}
fn name() -> ComponentId {
    ComponentId::of(3)
}
fn health() -> ComponentId {
    ComponentId::of(4)
}

fn c(id: ComponentId, value: Value) -> Component<Value> {
    Component::new(id, value)
}

fn npcs(storage: &mut ComponentStorage<Value>) -> Vec<EntityId> {
    storage
        .insert_many_entities(vec![
            vec![c(npc(), Value::Npc), c(name(), Value::Name("Alice")), c(health(), Value::Health(5))],
            vec![c(npc(), Value::Npc), c(name(), Value::Name("Bob")), c(health(), Value::Health(10))],
            vec![c(npc(), Value::Npc), c(name(), Value::Name("Charlie")), c(health(), Value::Health(15))],
        ])
        .iter()
        .map(|entity| entity.id())
        .collect()
}

#[test]
fn inserted_entity_holds_its_components() {
    let mut storage: ComponentStorage<Value> = ComponentStorage::new();
    let player_id = storage.insert_entity(vec![c(player(), Value::Player), c(health(), Value::Health(10))]).id();
    assert!(storage.contains_entity(player_id));
    assert!(storage.contains_component(player_id, player()));
    assert_eq!(storage.component(player_id, health()), Some(&Value::Health(10)));
    assert_eq!(storage.component(player_id, name()), None);
    assert!(!storage.contains_component(player_id, name()));
}

#[test]
fn insert_component_returns_previous_value() {
    let mut storage: ComponentStorage<Value> = ComponentStorage::new();
    let player_id = storage.insert_entity(vec![c(player(), Value::Player), c(health(), Value::Health(10))]).id();
    assert_eq!(storage.insert_component(player_id, c(health(), Value::Health(20))), Some(Value::Health(10)));
    assert_eq!(storage.component(player_id, health()), Some(&Value::Health(20)));
    assert_eq!(storage.insert_component(player_id, c(name(), Value::Name("Hero"))), None);
    assert_eq!(storage.component(player_id, name()), Some(&Value::Name("Hero")));
}

#[test]
fn remove_component_then_read_gives_nothing() {
    let mut storage: ComponentStorage<Value> = ComponentStorage::new();
    let player_id = storage.insert_entity(vec![c(player(), Value::Player), c(health(), Value::Health(10))]).id();
    assert_eq!(storage.remove_component(player_id, health()), Some(Value::Health(10)));
    assert_eq!(storage.component(player_id, health()), None);
    assert_eq!(storage.remove_component(player_id, health()), None);
    assert!(storage.contains_component(player_id, player()));
}

#[test]
fn components_of_missing_entities_are_not_touched() {
    let mut storage: ComponentStorage<Value> = ComponentStorage::new();
    let ghost = EntityId(7);
    assert_eq!(storage.insert_component(ghost, c(health(), Value::Health(1))), None);
    assert!(!storage.contains_entity(ghost));
    assert_eq!(storage.component(ghost, health()), None);
    assert!(storage.components(health()).is_none());
}

#[test]
fn remove_entity_drops_it_and_its_components() {
    let mut storage: ComponentStorage<Value> = ComponentStorage::new();
    let player_id = storage.insert_entity(vec![c(player(), Value::Player)]).id();
    assert!(storage.contains_entity(player_id));
    assert!(storage.remove_entity(player_id));
    assert!(!storage.contains_entity(player_id));
    assert!(!storage.contains_component(player_id, player()));
    assert!(!storage.remove_entity(player_id));
}

#[test]
fn removed_ids_are_handed_out_again() {
    let mut storage: ComponentStorage<Value> = ComponentStorage::new();
    let ids = npcs(&mut storage);
    assert_eq!(ids, vec![EntityId(0), EntityId(1), EntityId(2)]);
    assert!(storage.remove_entity(ids[1]));
    let reused = storage.insert_empty_entity().id();
    assert_eq!(reused, ids[1]);
    assert_eq!(storage.component(reused, name()), None);
    let fresh = storage.insert_empty_entity().id();
    assert_eq!(fresh, EntityId(3));
}

#[test]
fn entity_count_and_ids_agree() {
    let mut storage: ComponentStorage<Value> = ComponentStorage::new();
    let ids = npcs(&mut storage);
    assert_eq!(storage.entity_count(), 3);
    assert!(storage.remove_entity(ids[0]));
    assert_eq!(storage.entity_count(), 2);
    assert_eq!(storage.entity_ids(), vec![EntityId(1), EntityId(2)]);
    assert_eq!(storage.entity_ids().len(), storage.entity_count());
}

#[test]
fn components_lists_values_of_live_entities() {
    let mut storage: ComponentStorage<Value> = ComponentStorage::new();
    let ids = npcs(&mut storage);
    assert!(storage.remove_entity(ids[1]));
    let names = storage.components(name()).expect("names were inserted");
    assert_eq!(names, vec![&Value::Name("Alice"), &Value::Name("Charlie")]);
}

#[test]
fn remove_components_takes_the_whole_kind() {
    let mut storage: ComponentStorage<Value> = ComponentStorage::new();
    let ids = npcs(&mut storage);
    let healths = storage.remove_components(health()).expect("healths were inserted");
    assert_eq!(healths, vec![Value::Health(5), Value::Health(10), Value::Health(15)]);
    assert!(!storage.contains_component(ids[0], health()));
    assert!(storage.remove_components(health()).is_none());
    assert!(storage.contains_component(ids[0], name()));
}

#[test]
fn many_components_at_once() {
    let mut storage: ComponentStorage<Value> = ComponentStorage::new();
    let id = storage.insert_empty_entity().id();
    storage.insert_many_components(id, vec![c(name(), Value::Name("Dan")), c(health(), Value::Health(3))]);
    assert_eq!(storage.component(id, name()), Some(&Value::Name("Dan")));
    storage.remove_many_components(id, vec![name(), npc()]);
    assert_eq!(storage.component(id, name()), None);
    assert_eq!(storage.component(id, health()), Some(&Value::Health(3)));
    storage.clear_entity(id);
    assert_eq!(storage.component(id, health()), None);
    assert!(storage.contains_entity(id));
}

#[test]
fn component_mut_changes_the_stored_value() {
    let mut storage: ComponentStorage<Value> = ComponentStorage::new();
    let id = storage.insert_entity(vec![c(health(), Value::Health(3))]).id();
    if let Some(value) = storage.component_mut(id, health()) {
        *value = Value::Health(30);
    }
    assert_eq!(storage.component(id, health()), Some(&Value::Health(30)));
    assert!(storage.component_mut(id, name()).is_none());
}

#[test]
fn entity_handles_read_and_write() {
    let mut storage: ComponentStorage<Value> = ComponentStorage::new();
    let id = {
        let mut entity = storage.insert_empty_entity();
        assert_eq!(entity.insert(c(health(), Value::Health(1))), None);
        entity.insert_many(vec![c(name(), Value::Name("Eve"))]);
        assert!(entity.contains(name()));
        assert_eq!(entity.get(health()), Some(&Value::Health(1)));
        if let Some(value) = entity.get_mut(health()) {
            *value = Value::Health(2);
        }
        assert_eq!(entity.remove(name()), Some(Value::Name("Eve")));
        entity.remove_many(vec![player()]);
        entity.id()
    };
    let entity = storage.entity(id).expect("entity was inserted");
    assert_eq!(entity.id(), id);
    assert_eq!(entity.get(health()), Some(&Value::Health(2)));
    assert!(!entity.contains(name()));
    let mut entity = storage.entity_mut(id).expect("entity was inserted");
    entity.clear();
    assert!(!entity.contains(health()));
    entity.destroy();
    assert!(!storage.contains_entity(id));
    assert!(storage.entity(id).is_none());
}

#[test]
fn clear_removes_everything() {
    let mut storage: ComponentStorage<Value> = ComponentStorage::new();
    let ids = npcs(&mut storage);
    storage.clear();
    assert!(!storage.contains_entity(ids[0]));
    assert_eq!(storage.entity_count(), 0);
    assert_eq!(storage.insert_empty_entity().id(), EntityId(0));
}

#[test]
fn components_mut_changes_values_in_place() {
    let mut storage: ComponentStorage<Value> = ComponentStorage::new();
    let ids = npcs(&mut storage);
    {
        let mut names = storage.components_mut(name()).expect("names were inserted");
        assert_eq!(names.len(), 3);
        *names[1] = Value::Name("Brad");
    }
    assert_eq!(storage.component(ids[1], name()), Some(&Value::Name("Brad")));
    assert!(storage.remove_entity(ids[0]));
    let names: Vec<Value> = storage
        .components_mut(name())
        .expect("names were inserted")
        .into_iter()
        .map(|value| value.clone())
        .collect();
    assert_eq!(names, vec![Value::Name("Brad"), Value::Name("Charlie")]);
    assert!(storage.components_mut(player()).is_none());
}

#[test]
fn mutable_handle_turns_into_immutable_one() {
    let mut storage: ComponentStorage<Value> = ComponentStorage::new();
    let handle = storage.insert_entity(vec![c(health(), Value::Health(4))]);
    let id = handle.id();
    let entity: EntityRef<'_, ComponentStorage<Value>> = EntityRef::from(handle);
    assert_eq!(entity.id(), id);
    assert_eq!(entity.get(health()), Some(&Value::Health(4)));
}
