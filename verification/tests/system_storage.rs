use ggengine::gamecore::resources::{Resource, ResourceId};
use ggengine::gamecore::scenes::Scene;
use ggengine::gamecore::systems::{DecomposedSystem, System, SystemId, SystemPosition, SystemStorage};

/// A system that appends its number to the log resource (kind 0) when it runs.
#[derive(Debug)]
struct Recorder(u64);

type LogScene = Scene<u32, Vec<u64>, u32, Recorder>;

impl System<u32, Vec<u64>, u32> for Recorder {
    fn spec_id(&self) -> SystemId {
        SystemId::of(self.0)
    }

    fn id(&self) -> SystemId {
        SystemId::of(self.0)
    }

    fn runs_to(&self, _scene: LogScene, _system_after: Self, _scene_after: LogScene) -> bool {
        true
    }

    fn run(&mut self, scene: &mut LogScene) {
        if let Some(log) = scene.resource_storage.resource_mut(ResourceId::of(0)) {
            log.push(self.0);
        }
    }
}

fn id(n: u64) -> SystemId {
    SystemId::of(n)
}

fn storage() -> SystemStorage<Recorder> {
    SystemStorage::new()
}

#[test]
fn insert_positions_give_documented_order() {
    let mut storage = storage();
    storage.insert_system(Recorder(1), SystemPosition::Head);
    storage.insert_system(Recorder(2), SystemPosition::Tail);
    storage.insert_system(Recorder(3), SystemPosition::Head);
    storage.insert_system(Recorder(4), SystemPosition::Before(id(2)));
    storage.insert_system(Recorder(5), SystemPosition::After(id(1)));
    assert_eq!(storage.system_order(), vec![id(3), id(1), id(5), id(4), id(2)]);

    storage.insert_system(Recorder(6), SystemPosition::Before(id(99)));
    storage.insert_system(Recorder(7), SystemPosition::After(id(99)));
    assert_eq!(storage.system_order(), vec![id(6), id(3), id(1), id(5), id(4), id(2), id(7)]);
}

#[test]
fn default_position_is_tail() {
    let mut storage = storage();
    storage.insert_system(Recorder(1), SystemPosition::default());
    storage.insert_system(Recorder(2), SystemPosition::default());
    storage.insert_system(Recorder(3), SystemPosition::default());
    assert_eq!(storage.system_order(), vec![id(1), id(2), id(3)]);
}

#[test]
fn after_head_and_tail_anchors() {
    let mut storage = storage();
    storage.insert_system(Recorder(1), SystemPosition::Head);
    storage.insert_system(Recorder(2), SystemPosition::Tail);
    storage.insert_system(Recorder(3), SystemPosition::Head);
    storage.insert_system(Recorder(4), SystemPosition::After(id(1)));
    assert_eq!(storage.system_order(), vec![id(3), id(1), id(4), id(2)]);
    storage.insert_system(Recorder(5), SystemPosition::After(id(2)));
    storage.insert_system(Recorder(6), SystemPosition::Before(id(3)));
    assert_eq!(storage.system_order(), vec![id(6), id(3), id(1), id(4), id(2), id(5)]);
}

#[test]
fn inserting_a_present_id_changes_nothing() {
    let mut storage = storage();
    storage.insert_system(Recorder(1), SystemPosition::Tail);
    storage.insert_system(Recorder(2), SystemPosition::Tail);
    storage.insert_system(Recorder(1), SystemPosition::Head);
    assert_eq!(storage.system_order(), vec![id(1), id(2)]);
}

#[test]
fn remove_system_keeps_the_others_in_order() {
    let mut storage = storage();
    for n in 1..=4 {
        storage.insert_system(Recorder(n), SystemPosition::Tail);
    }
    assert_eq!(storage.system_order(), vec![id(1), id(2), id(3), id(4)]);
    storage.remove_system(id(2));
    assert_eq!(storage.system_order(), vec![id(1), id(3), id(4)]);
    storage.remove_system(id(1));
    assert_eq!(storage.system_order(), vec![id(3), id(4)]);
    storage.remove_system(id(4));
    assert_eq!(storage.system_order(), vec![id(3)]);
    storage.remove_system(id(3));
    assert!(storage.system_order().is_empty());
    storage.remove_system(id(99));
    assert!(storage.system_order().is_empty());
}

#[test]
fn remove_then_insert_reuses_slots_in_order() {
    let mut storage = storage();
    for n in 1..=5 {
        storage.insert_system(Recorder(n), SystemPosition::Head);
    }
    storage.remove_system(id(5));
    storage.remove_system(id(3));
    storage.insert_system(Recorder(6), SystemPosition::Before(id(2)));
    storage.insert_system(Recorder(7), SystemPosition::After(id(4)));
    assert_eq!(storage.system_order(), vec![id(4), id(7), id(6), id(2), id(1)]);
    assert!(storage.contains_system(id(7)));
    assert!(!storage.contains_system(id(3)));
}

#[test]
fn is_system_taken_follows_take_and_remove() {
    let mut storage = storage();
    assert_eq!(storage.is_system_taken(id(1)), None);
    storage.insert_system(Recorder(1), SystemPosition::default());
    assert_eq!(storage.is_system_taken(id(1)), Some(false));
    assert!(storage.contains_system(id(1)));
    let taken = storage.take_system(id(1));
    assert!(taken.is_some());
    assert_eq!(storage.is_system_taken(id(1)), Some(true));
    assert!(!storage.contains_system(id(1)));
    storage.remove_system(id(1));
    assert_eq!(storage.is_system_taken(id(1)), None);
}

#[test]
fn take_then_return_restores_the_schedule() {
    let mut storage = storage();
    for n in 1..=3 {
        storage.insert_system(Recorder(n), SystemPosition::Tail);
    }
    let taken: DecomposedSystem<Recorder> = storage.take_system(id(2)).expect("system was inserted");
    assert_eq!(taken.id(), id(2));
    assert!(storage.take_system(id(2)).is_none());
    assert_eq!(
        storage.system_order(),
        vec![id(1), SystemStorage::<Recorder>::placeholder_system().id(), id(3)]
    );
    assert!(storage.return_taken_system(taken).is_ok());
    assert_eq!(storage.system_order(), vec![id(1), id(2), id(3)]);
}

#[test]
fn returning_a_system_that_was_not_taken_fails() {
    let mut storage = storage();
    storage.insert_system(Recorder(1), SystemPosition::Tail);
    let stranger = DecomposedSystem::from_system(Recorder(9));
    let refused = storage.return_taken_system(stranger).expect_err("no placeholder for it");
    assert_eq!(refused.id(), id(9));
    let duplicate = DecomposedSystem::from_system(Recorder(1));
    assert!(storage.return_taken_system(duplicate).is_err());
    assert_eq!(storage.system_order(), vec![id(1)]);
}

#[test]
fn placeholder_holds_no_system() {
    let placeholder = SystemStorage::<Recorder>::placeholder_system();
    assert!(placeholder.system_fn().is_none());
    let system = DecomposedSystem::from_system(Recorder(4));
    assert_eq!(system.system_fn().map(|recorder| recorder.0), Some(4));
}

#[test]
fn reorder_keeps_the_schedule() {
    let mut storage = storage();
    for n in 1..=4 {
        storage.insert_system(Recorder(n), SystemPosition::Head);
    }
    storage.remove_system(id(2));
    storage.insert_system(Recorder(5), SystemPosition::After(id(4)));
    let before = storage.system_order();
    storage.reorder();
    assert_eq!(storage.system_order(), before);
    assert_eq!(before, vec![id(4), id(5), id(3), id(1)]);
    storage.remove_system(id(3));
    assert_eq!(storage.system_order(), vec![id(4), id(5), id(1)]);
}

#[test]
fn clear_empties_the_schedule() {
    let mut storage = storage();
    storage.insert_system(Recorder(1), SystemPosition::Tail);
    storage.clear();
    assert!(storage.system_order().is_empty());
    assert!(!storage.contains_system(id(1)));
}

#[test]
fn run_system_schedule_runs_systems_in_order() {
    let mut scene: LogScene = Scene::new();
    let _ = scene.resource_storage.insert(Resource::new(ResourceId::of(0), Vec::new()));
    scene.system_storage.insert_system(Recorder(1), SystemPosition::default());
    scene.system_storage.insert_system(Recorder(2), SystemPosition::default());
    scene.system_storage.insert_system(Recorder(3), SystemPosition::Head);
    SystemStorage::run_system_schedule(&mut scene);
    assert_eq!(scene.resource_storage.resource(ResourceId::of(0)), Some(&vec![3, 1, 2]));
    assert_eq!(scene.system_storage.system_order(), vec![id(3), id(1), id(2)]);
}

#[test]
fn run_system_schedule_skips_taken_systems() {
    let mut scene: LogScene = Scene::new();
    let _ = scene.resource_storage.insert(Resource::new(ResourceId::of(0), Vec::new()));
    for n in 1..=3 {
        scene.system_storage.insert_system(Recorder(n), SystemPosition::Tail);
    }
    let taken = scene.system_storage.take_system(id(2)).expect("system was inserted");
    SystemStorage::run_system_schedule(&mut scene);
    assert_eq!(scene.resource_storage.resource(ResourceId::of(0)), Some(&vec![1, 3]));
    assert!(scene.system_storage.return_taken_system(taken).is_ok());
    SystemStorage::run_system_schedule(&mut scene);
    assert_eq!(scene.resource_storage.resource(ResourceId::of(0)), Some(&vec![1, 3, 1, 2, 3]));
}

#[test]
fn decomposed_system_runs_inner_system() {
    let mut scene: LogScene = Scene::new();
    let _ = scene.resource_storage.insert(Resource::new(ResourceId::of(0), Vec::new()));
    let mut system = DecomposedSystem::from_system(Recorder(8));
    system.run(&mut scene);
    let mut placeholder = SystemStorage::<Recorder>::placeholder_system();
    placeholder.run(&mut scene);
    assert_eq!(scene.resource_storage.resource(ResourceId::of(0)), Some(&vec![8]));
}

#[test]
fn anchored_insertion_into_an_empty_storage() {
    let mut storage = storage();
    storage.insert_system(Recorder(1), SystemPosition::Before(id(2)));
    assert_eq!(storage.system_order(), vec![id(1)]);
    assert!(storage.contains_system(id(1)));
    let mut storage = self::storage();
    storage.insert_system(Recorder(1), SystemPosition::After(id(2)));
    assert_eq!(storage.system_order(), vec![id(1)]);
    assert_eq!(storage.is_system_taken(id(1)), Some(false));
}
