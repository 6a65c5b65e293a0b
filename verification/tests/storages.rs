use ggengine::gamecore::events::{Event, EventId};
use ggengine::gamecore::resources::{Resource, ResourceId};
use ggengine::gamecore::storages::{EventStorage, ResourceStorage};

#[test]
fn resources_round_trip() {
    let mut storage: ResourceStorage<i64> = ResourceStorage::new();
    let score = ResourceId::of(1);
    assert!(!storage.contains(score));
    assert_eq!(storage.insert(Resource::new(score, 10)), None);
    assert!(storage.contains(score));
    assert_eq!(storage.resource(score), Some(&10));
    assert_eq!(storage.insert(Resource::new(score, 20)), Some(10));
    if let Some(value) = storage.resource_mut(score) {
        *value += 1;
    }
    assert_eq!(storage.resource(score), Some(&21));
    assert_eq!(storage.remove(score), Some(21));
    assert_eq!(storage.remove(score), None);
    assert!(storage.resource(score).is_none());
    assert!(storage.resource_mut(score).is_none());
}

#[test]
fn resources_of_other_kinds_are_kept() {
    let mut storage: ResourceStorage<i64> = ResourceStorage::new();
    let _ = storage.insert(Resource::new(ResourceId::of(1), 1));
    let _ = storage.insert(Resource::new(ResourceId::of(2), 2));
    assert_eq!(storage.remove(ResourceId::of(1)), Some(1));
    assert_eq!(storage.resource(ResourceId::of(2)), Some(&2));
    storage.clear();
    assert!(!storage.contains(ResourceId::of(2)));
}

#[test]
fn events_are_kept_in_sending_order() {
    let mut storage: EventStorage<&'static str> = EventStorage::new();
    let click = EventId::of(1);
    assert!(!storage.contains(click));
    assert!(storage.events(click).is_none());
    storage.insert(Event::new(click, "first"));
    storage.insert(Event::new(click, "second"));
    storage.insert(Event::new(EventId::of(2), "other"));
    assert!(storage.contains(click));
    assert_eq!(storage.events(click), Some(&vec!["first", "second"]));
    assert_eq!(storage.remove(click), Some(vec!["first", "second"]));
    assert!(!storage.contains(click));
    assert_eq!(storage.remove(click), None);
    assert!(storage.contains(EventId::of(2)));
}

#[test]
fn emptied_events_count_as_absent() {
    let mut storage: EventStorage<&'static str> = EventStorage::new();
    let click = EventId::of(1);
    storage.insert(Event::new(click, "first"));
    let events = storage.events_mut(click).expect("an event was sent");
    events.clear();
    assert!(!storage.contains(click));
    assert!(storage.events_mut(click).is_none());
    assert!(storage.events(click).is_none());
    assert_eq!(storage.remove(click), None);
    storage.clear();
    assert!(storage.events(click).is_none());
}

#[test]
fn typed_values_are_checked_by_kind() {
    let mut event = Event::new(EventId::of(3), 7u8);
    assert!(event.is(EventId::of(3)));
    assert!(!event.is(EventId::of(4)));
    assert_eq!(event.downcast_ref(EventId::of(3)), Some(&7));
    assert_eq!(event.downcast_ref(EventId::of(4)), None);
    if let Some(value) = event.downcast_mut(EventId::of(3)) {
        *value = 8;
    }
    let event = event.downcast(EventId::of(4)).expect_err("wrong kind");
    assert_eq!(event.downcast(EventId::of(3)).ok(), Some(8));
    let resource = Resource::new(ResourceId::of(5), 1i32);
    assert!(resource.is(ResourceId::of(5)));
    assert_eq!(resource.downcast(ResourceId::of(5)).ok(), Some(1));
}
