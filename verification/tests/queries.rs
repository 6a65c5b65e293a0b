use ggengine::gamecore::components::ComponentId;
use ggengine::gamecore::events::EventId;
use ggengine::gamecore::querying::component_query::{ComponentGroup, ComponentGroupsTuple, ComponentQuery};
use ggengine::gamecore::querying::event_query::EventQuery;
use ggengine::gamecore::querying::resource_query::ResourceQuery;
use ggengine::gamecore::querying::system_query::SystemQuery;
use ggengine::gamecore::querying::{QueryParameter, QueryParameterTuple};
use ggengine::gamecore::resources::ResourceId;
use ggengine::gamecore::storages::{ComponentStorage, EventStorage, ResourceStorage, SystemStorage};

#[test]
fn component_groups_count_their_components() {
    let groups = vec![
        ComponentGroup(vec![ComponentId::of(1), ComponentId::of(2)]),
        ComponentGroup(vec![ComponentId::of(3)]),
        ComponentGroup(Vec::new()),
    ];
    assert_eq!(ComponentGroupsTuple::size(&groups), 3);
    assert_eq!(groups.total_components(), 3);
    assert_eq!(QueryParameterTuple::size(&groups[0].0), 2);
    assert_eq!(ComponentId::of(7).kind(), 7);
    let mut storage: ComponentStorage<u8> = ComponentStorage::new();
    let _query = ComponentQuery::new(&mut storage, groups);
}

#[test]
fn queries_are_always_valid() {
    let mut events: EventStorage<u8> = EventStorage::new();
    let event_params = vec![EventId::of(1), EventId::of(2)];
    assert!(EventQuery::<u8, Vec<EventId>>::is_valid(&event_params).is_ok());
    assert!(EventQuery::new(&mut events, event_params).is_ok());
    let mut resources: ResourceStorage<u8> = ResourceStorage::new();
    let resource_params = vec![ResourceId::of(1)];
    assert!(ResourceQuery::<u8, Vec<ResourceId>>::is_valid(&resource_params).is_ok());
    assert!(ResourceQuery::new(&mut resources, resource_params).is_ok());
    let _validated = ResourceQuery::new_validated(&mut resources, vec![ResourceId::of(2)]);
    let mut systems: SystemStorage<u8> = SystemStorage::new();
    let _systems = SystemQuery::new(&mut systems);
}
