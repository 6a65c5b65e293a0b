use ggengine::gamecore::components::{Component, ComponentId};
use ggengine::gamecore::entities::EntityId;
use ggengine::gamecore::storages::EntityComponentStorage;

fn npc() -> ComponentId {
    ComponentId::of(10)
}
fn name() -> ComponentId {
    ComponentId::of(11)
}
fn health() -> ComponentId {
    ComponentId::of(12)
}

fn npcs(storage: &mut EntityComponentStorage<String>) -> Vec<EntityId> {
    storage
        .insert_entities(vec![
            vec![Component::new(npc(), String::new()), Component::new(name(), String::from("Alice"))],
            vec![Component::new(npc(), String::new()), Component::new(name(), String::from("Bob"))],
            vec![Component::new(npc(), String::new()), Component::new(name(), String::from("Charlie"))],
        ])
        .iter()
        .map(|entity| entity.id())
        .collect()
}

#[test]
fn entities_count_follows_insertions_and_removals() {
    let mut storage: EntityComponentStorage<String> = EntityComponentStorage::new();
    let ids = npcs(&mut storage);
    assert_eq!(storage.entities_count(), 3);
    assert!(storage.remove_entity(ids[0]));
    assert_eq!(storage.entities_count(), 2);
    assert!(!storage.remove_entity(ids[0]));
    assert!(!storage.contains_entity(ids[0]));
    assert!(storage.contains_entity(ids[1]));
}

#[test]
fn components_are_read_back() {
    let mut storage: EntityComponentStorage<String> = EntityComponentStorage::new();
    let player = storage.insert_entity(vec![Component::new(npc(), String::from("player"))]).id();
    assert!(storage.contains_component(player, npc()));
    assert_eq!(storage.insert_component(player, health(), String::from("10")), None);
    assert_eq!(storage.component(player, health()), Some(&String::from("10")));
    assert_eq!(storage.insert_component(player, health(), String::from("20")), Some(String::from("10")));
    assert_eq!(storage.remove_component(player, npc()), Some(String::from("player")));
    assert!(!storage.contains_component(player, npc()));
}

#[test]
fn components_take_drops_removed_entities() {
    let mut storage: EntityComponentStorage<String> = EntityComponentStorage::new();
    let ids = npcs(&mut storage);
    assert!(storage.remove_entity(ids[1]));
    let names = storage.components_take(name()).expect("names were inserted");
    assert_eq!(names, vec![String::from("Alice"), String::from("Charlie")]);
    assert!(storage.components_take(name()).is_none());
    assert!(!storage.contains_component(ids[0], name()));
}

#[test]
fn components_lists_live_values() {
    let mut storage: EntityComponentStorage<String> = EntityComponentStorage::new();
    let ids = npcs(&mut storage);
    assert!(storage.remove_entity(ids[2]));
    let names = storage.components(name()).expect("names were inserted");
    assert_eq!(names, vec![&String::from("Alice"), &String::from("Bob")]);
    assert!(storage.components(health()).is_none());
}

#[test]
fn get_or_insert_with_inserts_once() {
    let mut storage: EntityComponentStorage<String> = EntityComponentStorage::new();
    let player = storage.insert_entity(vec![Component::new(npc(), String::new())]).id();
    let health_value = storage.component_get_or_insert_with(player, health(), || String::from("10"));
    health_value.push('0');
    assert_eq!(storage.component(player, health()), Some(&String::from("100")));
    let again = storage.component_get_or_insert_with(player, health(), || String::from("5"));
    assert_eq!(again, &String::from("100"));
}

#[test]
fn component_mut_and_bulk_operations() {
    let mut storage: EntityComponentStorage<String> = EntityComponentStorage::new();
    let ids = npcs(&mut storage);
    if let Some(value) = storage.component_mut(ids[1], name()) {
        value.push_str("by");
    }
    assert_eq!(storage.component(ids[1], name()), Some(&String::from("Bobby")));
    storage.insert_components(ids[0], vec![Component::new(health(), String::from("1"))]);
    assert!(storage.contains_component(ids[0], health()));
    storage.remove_components(ids[0], vec![health(), npc()]);
    assert!(!storage.contains_component(ids[0], health()));
    assert!(storage.contains_component(ids[0], name()));
    storage.remove_all_components(ids[0]);
    assert!(!storage.contains_component(ids[0], name()));
    assert!(storage.contains_entity(ids[0]));
}

#[test]
fn entity_handles_and_listing() {
    let mut storage: EntityComponentStorage<String> = EntityComponentStorage::new();
    let ids = npcs(&mut storage);
    assert!(storage.remove_entity(ids[1]));
    let listed: Vec<EntityId> = storage.all_entities().iter().map(|entity| entity.id()).collect();
    assert_eq!(listed, vec![ids[0], ids[2]]);
    assert_eq!(storage.entity(ids[2]).map(|entity| entity.id()), Some(ids[2]));
    assert!(storage.entity(ids[1]).is_none());
    assert!(storage.entity_mut(ids[1]).is_none());
    assert_eq!(storage.entity_mut(ids[0]).map(|entity| entity.id()), Some(ids[0]));
}

#[test]
fn removed_ids_are_reused() {
    let mut storage: EntityComponentStorage<String> = EntityComponentStorage::new();
    let ids = npcs(&mut storage);
    assert!(storage.remove_entity(ids[2]));
    let reused = storage.insert_entity(Vec::new()).id();
    assert_eq!(reused, ids[2]);
    assert!(!storage.contains_component(reused, name()));
    storage.clear();
    assert_eq!(storage.entities_count(), 0);
    assert!(!storage.contains_entity(ids[0]));
}

#[test]
fn components_mut_skips_removed_entities() {
    let mut storage: EntityComponentStorage<String> = EntityComponentStorage::new();
    let ids = npcs(&mut storage);
    assert!(storage.remove_entity(ids[0]));
    {
        let mut names = storage.components_mut(name()).expect("names were inserted");
        assert_eq!(names.len(), 2);
        names[0].push_str("by");
    }
    assert_eq!(storage.component(ids[1], name()), Some(&String::from("Bobby")));
    assert!(storage.components_mut(health()).is_none());
}

#[test]
fn components_disjoint_mut_gives_each_kind() {
    let mut storage: EntityComponentStorage<String> = EntityComponentStorage::new();
    let ids = npcs(&mut storage);
    {
        let mut columns = storage.components_disjoint_mut(vec![npc(), name(), health()]);
        assert_eq!(columns.len(), 3);
        assert!(columns[2].is_none());
        let names = columns[1].as_mut().expect("names were inserted");
        assert_eq!(names.len(), 3);
        names[2].push('!');
        let npcs = columns[0].as_mut().expect("npcs were inserted");
        npcs[0].push_str("npc");
    }
    assert_eq!(storage.component(ids[2], name()), Some(&String::from("Charlie!")));
    assert_eq!(storage.component(ids[0], npc()), Some(&String::from("npc")));
}

#[test]
fn removing_an_id_never_handed_out_changes_nothing() {
    let mut storage: EntityComponentStorage<String> = EntityComponentStorage::new();
    assert!(!storage.remove_entity(EntityId(3)));
    assert_eq!(storage.entities_count(), 0);
    let ids = npcs(&mut storage);
    assert_eq!(ids, vec![EntityId(0), EntityId(1), EntityId(2)]);
    assert!(!storage.remove_entity(EntityId(7)));
    assert_eq!(storage.entities_count(), 3);
}

#[test]
fn insert_entities_after_a_removal_reuses_the_id_and_grows() {
    let mut storage: EntityComponentStorage<String> = EntityComponentStorage::new();
    let first: Vec<EntityId> = storage
        .insert_entities(vec![
            vec![Component::new(name(), String::from("a"))],
            vec![Component::new(name(), String::from("b"))],
        ])
        .iter()
        .map(|entity| entity.id())
        .collect();
    assert!(storage.remove_entity(first[0]));
    let second: Vec<EntityId> = storage
        .insert_entities(vec![
            vec![Component::new(name(), String::from("c"))],
            vec![Component::new(name(), String::from("d"))],
        ])
        .iter()
        .map(|entity| entity.id())
        .collect();
    assert_eq!(second, vec![EntityId(0), EntityId(2)]);
    assert!(storage.contains_entity(second[0]));
    assert!(storage.contains_entity(second[1]));
    assert_eq!(storage.entities_count(), 3);
    assert_eq!(storage.components(name()).expect("names were inserted").len(), 3);
    assert_eq!(storage.component(EntityId(2), name()), Some(&String::from("d")));
}

#[test]
fn reused_id_comes_back_with_only_its_bundle() {
    let mut storage: EntityComponentStorage<String> = EntityComponentStorage::new();
    let first = storage.insert_entity(vec![Component::new(name(), String::from("a"))]).id();
    assert_eq!(storage.insert_component(first, health(), String::from("5")), None);
    assert!(storage.remove_entity(first));
    let second = storage.insert_entity(vec![Component::new(npc(), String::new())]).id();
    assert_eq!(second, first);
    assert!(storage.contains_component(second, npc()));
    assert!(!storage.contains_component(second, name()));
    assert!(!storage.contains_component(second, health()));
}
