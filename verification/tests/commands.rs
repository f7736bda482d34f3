use vavo::system::commands::{
    CommandQueue, CommandTarget, Commands, ComponentInsert, ComponentKind, EntityId, EntityTracking,
};
use vavo::system::params::CommandsState;
use vavo::tick::Tick;

struct Ids(u32);

impl EntityTracking for Ids {
    fn new_id(&mut self) -> EntityId {
        self.0 += 1;
        EntityId(self.0)
    }
}

/// A world that logs what it is asked to do; `1` is its current tick.
#[derive(Default)]
struct World(Vec<String>, u64);

impl CommandTarget<&'static str> for World {
    fn tick(&self) -> Tick {
        Tick(self.1)
    }
    fn insert_resource(&mut self, type_id: u64, data: &'static str, tick: Tick) {
        self.0.push(format!("insert_resource {type_id} {data} at {}", tick.get()));
    }
    fn remove_resource(&mut self, type_id: u64) {
        self.0.push(format!("remove_resource {type_id}"));
    }
    fn spawn_entity(&mut self, entity_id: EntityId) {
        self.0.push(format!("spawn {}", entity_id.raw()));
    }
    fn despawn_entity(&mut self, entity_id: EntityId) {
        self.0.push(format!("despawn {}", entity_id.raw()));
    }
    fn despawn_entity_recursive(&mut self, entity_id: EntityId) {
        self.0.push(format!("despawn_recursive {}", entity_id.raw()));
    }
    fn insert_component(&mut self, entity_id: EntityId, type_id: u64, replace: bool, data: &'static str) {
        self.0.push(format!("insert {} {type_id} {replace} {data}", entity_id.raw()));
    }
    fn remove_component(&mut self, entity_id: EntityId, type_id: u64) {
        self.0.push(format!("remove {} {type_id}", entity_id.raw()));
    }
    fn add_child(&mut self, parent_id: EntityId, child_id: EntityId) {
        self.0.push(format!("add_child {} {}", parent_id.raw(), child_id.raw()));
    }
    fn remove_child(&mut self, parent_id: EntityId, child_id: EntityId) {
        self.0.push(format!("remove_child {} {}", parent_id.raw(), child_id.raw()));
    }
}

fn plain(type_id: u64, data: &'static str) -> ComponentInsert<&'static str> {
    ComponentInsert { type_id, kind: ComponentKind::Other, data }
}

#[test]
fn commands_are_applied_in_queue_order() {
    let mut ids = Ids(0);
    let mut queue = CommandQueue::new();
    let mut world = World(Vec::new(), 42);
    {
        let mut commands = Commands::new(&mut ids, &mut queue);
        commands.insert_resource(1, "gravity").remove_resource(2);
        let spawned = commands.spawn_empty().insert(plain(10, "pos")).entity_id();
        assert_eq!(spawned.raw(), 1);
        commands.entity(EntityId(7)).remove(10).despawn();
        commands.apply(&mut world);
    }
    assert_eq!(
        world.0,
        vec![
            "insert_resource 1 gravity at 42",
            "remove_resource 2",
            "spawn 1",
            "insert 1 10 true pos",
            "remove 7 10",
            "despawn 7",
        ]
    );
    assert!(queue.internal.is_empty());
}

#[test]
fn transform_inserts_its_global_transform_first() {
    let mut ids = Ids(0);
    let mut queue = CommandQueue::new();
    let mut world = World::default();
    let mut commands = Commands::new(&mut ids, &mut queue);
    let transform = ComponentInsert {
        type_id: 20,
        kind: ComponentKind::Transform { global_type_id: 21, global: "global" },
        data: "local",
    };
    commands.entity(EntityId(3)).insert_if_new(transform);
    commands.apply(&mut world);
    assert_eq!(world.0, vec!["insert 3 21 false global", "insert 3 20 false local"]);
}

#[test]
fn conditional_inserts_follow_the_condition() {
    let mut ids = Ids(0);
    let mut queue = CommandQueue::new();
    let mut world = World::default();
    let mut commands = Commands::new(&mut ids, &mut queue);
    commands
        .entity(EntityId(4))
        .insert_if(plain(1, "yes"), || true)
        .insert_if(plain(2, "no"), || false)
        .insert_if_new_if(plain(3, "kept"), || true)
        .insert_if_new_if(plain(4, "dropped"), || false);
    commands.apply(&mut world);
    assert_eq!(world.0, vec!["insert 4 1 true yes", "insert 4 3 false kept"]);
}

#[test]
fn declined_conditional_inserts_accept_any_component() {
    let mut ids = Ids(0);
    let mut queue = CommandQueue::new();
    let mut world = World::default();
    let mut commands = Commands::new(&mut ids, &mut queue);
    let id = ComponentInsert { type_id: 9, kind: ComponentKind::EntityId, data: "id" };
    let global = ComponentInsert { type_id: 8, kind: ComponentKind::GlobalTransform, data: "global" };
    let e = commands.entity(EntityId(5)).insert_if(id, || false).insert_if_new_if(global, || false);
    assert_eq!(e.entity_id().raw(), 5);
    commands.apply(&mut world);
    assert!(world.0.is_empty());
}

#[test]
fn children_commands_pair_parent_and_child() {
    let mut ids = Ids(100);
    let mut queue = CommandQueue::new();
    let mut world = World::default();
    let mut commands = Commands::new(&mut ids, &mut queue);
    commands
        .entity(EntityId(1))
        .insert_children(vec![EntityId(2), EntityId(3)])
        .insert_child(EntityId(4))
        .remove_children(vec![EntityId(2)])
        .despawn_recursive();
    commands.apply(&mut world);
    assert_eq!(
        world.0,
        vec![
            "add_child 1 2",
            "add_child 1 3",
            "add_child 1 4",
            "remove_child 1 2",
            "despawn_recursive 1",
        ]
    );
}

#[test]
fn with_children_spawns_and_links() {
    let mut ids = Ids(0);
    let mut queue = CommandQueue::new();
    let mut world = World::default();
    let mut commands = Commands::new(&mut ids, &mut queue);
    let parent = commands.spawn_empty().entity_id();
    commands.entity(parent).with_children(|p| {
        p.spawn_empty();
    });
    commands.apply(&mut world);
    assert_eq!(world.0, vec!["spawn 1", "spawn 2", "add_child 1 2"]);
}

#[test]
fn commands_state_starts_empty() {
    let state: CommandsState<&'static str> = CommandsState::default();
    assert!(state.0.internal.is_empty());
}
