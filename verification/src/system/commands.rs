//! Deferred world commands: what systems ask of the world, queued in order and applied later.
use vstd::prelude::*;
use crate::tick::Tick;

verus! {

/// Identifies an entity.
#[derive(Debug, Clone, Copy)]
pub struct EntityId(pub u32);

impl EntityId {
    /// The raw id
    pub fn raw(&self) -> (r: u32)
        ensures
            r == self.0,
    {
        self.0
    }
}

/// Hands out fresh entity ids. Each tracker says, by `issues`, which id it hands out and what
/// it becomes; a tracker that does not define it promises nothing of the ids.
pub trait EntityTracking: Sized {
    /// Handing out `id` takes the tracker from `self` to `next`.
    closed spec fn issues(&self, id: EntityId, next: Self) -> bool {
        true
    }

    /// A new, unused entity id
    fn new_id(&mut self) -> (r: EntityId)
        ensures
            old(self).issues(r, *final(self)),
    ;
}

/// What kind of component is being inserted, as far as insertion treats kinds differently.
pub enum ComponentKind<P> {
    /// The entity's id: cannot be inserted
    EntityId,
    /// The global transform: cannot be inserted, it is derived
    GlobalTransform,
    /// A local transform; `global` is the global transform derived from it, of type
    /// `global_type_id`, inserted alongside
    Transform { global_type_id: u64, global: P },
    /// Any other component
    Other,
}

/// A component to insert: its type, its kind and the data that inserts it.
pub struct ComponentInsert<P> {
    pub type_id: u64,
    pub kind: ComponentKind<P>,
    pub data: P,
}

/// Command to be executed on the world. `P` carries data the world consumes (resource values,
/// component values).
pub enum Command<P> {
    InsertResource(u64, P),
    RemoveResource(u64),
    SpawnEntity(EntityId),
    DespawnEntity(EntityId),
    DespawnEntityRecursive(EntityId),
    /// Entity, component type, whether an existing component is replaced, data
    InsertComponent(EntityId, u64, bool, P),
    RemoveComponent(EntityId, u64),
    /// Parent, child
    AddChild(EntityId, EntityId),
    /// Parent, child
    RemoveChild(EntityId, EntityId),
}

/// Internal queue of commands.
pub struct CommandQueue<P> {
    pub internal: Vec<Command<P>>,
}

/// The world operations that commands stand for. Each world says, by `applies`, what carrying
/// out one command does to it, by `inserts_resource` what inserting a resource stamped with a
/// tick does, and by `at_tick` which tick it is at; a world that does not define them promises
/// nothing of the result.
pub trait CommandTarget<P>: Sized {
    /// Carrying out `command` takes the world from `self` to `next`.
    closed spec fn applies(&self, command: Command<P>, next: Self) -> bool {
        true
    }

    /// Inserting (or replacing) the resource of type `type_id` with `data`, stamped with `tick`,
    /// takes the world from `self` to `next`.
    closed spec fn inserts_resource(&self, type_id: u64, data: P, tick: Tick, next: Self) -> bool {
        true
    }

    /// The world is at tick `tick`.
    closed spec fn at_tick(&self, tick: Tick) -> bool {
        true
    }

    /// The world's current tick.
    fn tick(&self) -> (r: Tick)
        ensures
            self.at_tick(r),
    ;

    /// Inserts (or replaces) the resource of type `type_id`, stamped with `tick`.
    fn insert_resource(&mut self, type_id: u64, data: P, tick: Tick)
        ensures
            old(self).inserts_resource(type_id, data, tick, *final(self)),
    ;

    fn remove_resource(&mut self, type_id: u64)
        ensures
            old(self).applies(Command::RemoveResource(type_id), *final(self)),
    ;

    fn spawn_entity(&mut self, entity_id: EntityId)
        ensures
            old(self).applies(Command::SpawnEntity(entity_id), *final(self)),
    ;

    fn despawn_entity(&mut self, entity_id: EntityId)
        ensures
            old(self).applies(Command::DespawnEntity(entity_id), *final(self)),
    ;

    fn despawn_entity_recursive(&mut self, entity_id: EntityId)
        ensures
            old(self).applies(Command::DespawnEntityRecursive(entity_id), *final(self)),
    ;

    fn insert_component(&mut self, entity_id: EntityId, type_id: u64, replace: bool, data: P)
        ensures
            old(self).applies(Command::InsertComponent(entity_id, type_id, replace, data), *final(self)),
    ;

    fn remove_component(&mut self, entity_id: EntityId, type_id: u64)
        ensures
            old(self).applies(Command::RemoveComponent(entity_id, type_id), *final(self)),
    ;

    fn add_child(&mut self, parent_id: EntityId, child_id: EntityId)
        ensures
            old(self).applies(Command::AddChild(parent_id, child_id), *final(self)),
    ;

    fn remove_child(&mut self, parent_id: EntityId, child_id: EntityId)
        ensures
            old(self).applies(Command::RemoveChild(parent_id, child_id), *final(self)),
    ;
}

/// Carrying out one command took the world from `w` to `next`: an inserted resource is stamped
/// with the world's tick at that moment; any other command is as the world's `applies` says.
pub open spec fn command_applied<P, W: CommandTarget<P>>(w: W, command: Command<P>, next: W) -> bool {
    match command {
        Command::InsertResource(type_id, data) => exists|tick: Tick|
            w.at_tick(tick) && #[trigger] w.inserts_resource(type_id, data, tick, next),
        _ => w.applies(command, next),
    }
}

/// The world went from `ws[0]` to its last state by carrying out `commands` one after another,
/// through the states `ws`.
pub open spec fn applied_through<P, W: CommandTarget<P>>(commands: Seq<Command<P>>, ws: Seq<W>) -> bool {
    &&& ws.len() == commands.len() + 1
    &&& forall|i: int| #![trigger commands[i]] 0 <= i < commands.len() ==> command_applied(ws[i], commands[i], ws[i + 1])
}

/// The world went from `w0` to `w1` by carrying out `commands` in order.
pub open spec fn applied_in_order<P, W: CommandTarget<P>>(w0: W, commands: Seq<Command<P>>, w1: W) -> bool {
    exists|ws: Seq<W>| #[trigger] applied_through(commands, ws) && ws[0] == w0 && ws.last() == w1
}

impl<P> CommandQueue<P> {
    /// Creates new empty command queue.
    pub fn new() -> (r: Self)
        ensures
            r.internal@.len() == 0,
    {
        Self { internal: Vec::new() }
    }

    /// Applies all queued commands to the world, in the order they were queued, and empties the
    /// queue.
    pub fn apply<W: CommandTarget<P>>(&mut self, world: &mut W)
        ensures
            final(self).internal@.len() == 0,
            applied_in_order(*old(world), old(self).internal@, *final(world)),
    {
        let mut commands: Vec<Command<P>> = Vec::new();
        std::mem::swap(&mut commands, &mut self.internal);
        let ghost all = commands@;
        let ghost mut ws: Seq<W> = seq![*world];
        while commands.len() > 0
            invariant
                self.internal@.len() == 0,
                all == old(self).internal@,
                ws.len() + commands@.len() == all.len() + 1,
                commands@ == all.skip(ws.len() - 1),
                ws[0] == *old(world),
                ws.last() == *world,
                applied_through(all.take(ws.len() - 1), ws),
            decreases commands@.len(),
        {
            let ghost w_before = *world;
            let ghost k = ws.len() - 1;
            let command = commands.remove(0);
            proof {
                assert(command == all[k]);
            }
            match command {
                Command::InsertResource(type_id, data) => {
                    let tick = world.tick();
                    world.insert_resource(type_id, data, tick);
                },
                Command::RemoveResource(type_id) => world.remove_resource(type_id),
                Command::SpawnEntity(entity_id) => world.spawn_entity(entity_id),
                Command::DespawnEntity(entity_id) => world.despawn_entity(entity_id),
                Command::DespawnEntityRecursive(entity_id) => world.despawn_entity_recursive(entity_id),
                Command::InsertComponent(entity_id, type_id, replace, data) => world.insert_component(
                    entity_id,
                    type_id,
                    replace,
                    data,
                ),
                Command::RemoveComponent(entity_id, type_id) => world.remove_component(entity_id, type_id),
                Command::AddChild(parent_id, child_id) => world.add_child(parent_id, child_id),
                Command::RemoveChild(parent_id, child_id) => world.remove_child(parent_id, child_id),
            }
            proof {
                assert(command_applied(w_before, all[k], *world));
                let ws2 = ws.push(*world);
                assert forall|i: int| 0 <= i < k + 1 implies #[trigger] command_applied(ws2[i], all.take(k + 1)[i], ws2[i + 1]) by {
                    if i < k {
                        assert(all.take(k)[i] == all.take(k + 1)[i]);
                        assert(ws2[i] == ws[i] && ws2[i + 1] == ws[i + 1]);
                    }
                }
                ws = ws2;
                assert(commands@ =~= all.skip(ws.len() - 1));
            }
        }
        proof {
            assert(all.take(ws.len() - 1) =~= all);
        }
    }
}

/// Queue of commands to be applied to the world.
pub struct Commands<'t, 'q, T: EntityTracking, P> {
    pub tracking: &'t mut T,
    pub queue: &'q mut CommandQueue<P>,
}

/// The commands that inserting `component` into `entity` queues: for a transform, its derived
/// global transform first, then the component itself.
pub open spec fn insert_commands<P>(entity: EntityId, component: ComponentInsert<P>, replace: bool) -> Seq<Command<P>> {
    let own = Command::InsertComponent(entity, component.type_id, replace, component.data);
    match component.kind {
        ComponentKind::Transform { global_type_id, global } => seq![
            Command::InsertComponent(entity, global_type_id, replace, global),
            own,
        ],
        _ => seq![own],
    }
}

/// Inserting a component queues only insertions into that entity, all with the replace flag
/// asked for, and the last of them inserts the component itself with its own type and data; a
/// transform's global transform goes first, an other component alone.
pub proof fn lemma_insert_commands_replace_as_asked<P>(entity: EntityId, component: ComponentInsert<P>, replace: bool)
    ensures
        ({
            let cs = insert_commands(entity, component, replace);
            &&& cs.len() >= 1
            &&& cs.last() == Command::InsertComponent(entity, component.type_id, replace, component.data)
            &&& forall|k: int|
                0 <= k < cs.len() ==> (#[trigger] cs[k]) is InsertComponent && cs[k]->InsertComponent_0 == entity
                    && cs[k]->InsertComponent_2 == replace
            &&& match component.kind {
                ComponentKind::Transform { global_type_id, global } => cs.len() == 2 && cs[0]
                    == Command::InsertComponent(entity, global_type_id, replace, global),
                _ => cs.len() == 1,
            }
        }),
{
}

/// The component may be inserted (ids and global transforms may not).
pub open spec fn insertable<P>(component: ComponentInsert<P>) -> bool {
    !(component.kind is EntityId) && !(component.kind is GlobalTransform)
}

impl<'t, 'q, T: EntityTracking, P> Commands<'t, 'q, T, P> {
    /// Creates new commands manager from a command queue and entity tracking storage.
    pub fn new(tracking: &'t mut T, queue: &'q mut CommandQueue<P>) -> (r: Self)
        ensures
            *r.tracking == *old(tracking),
            *r.queue == *old(queue),
            *final(tracking) == *final(r.tracking),
            *final(queue) == *final(r.queue),
    {
        Self { tracking, queue }
    }

    /// Queues a command to be executed on the world.
    fn queue(&mut self, command: Command<P>)
        ensures
            final(self).queue.internal@ == old(self).queue.internal@.push(command),
            final(self).tracking == old(self).tracking,
            *final(final(self).queue) == *final(old(self).queue),
    {
        self.queue.internal.push(command);
    }

    /// Inserts or replaces a resource of type `type_id` in the world.
    pub fn insert_resource(&mut self, type_id: u64, resource: P) -> (r: &mut Self)
        ensures
            r.queue.internal@ == old(self).queue.internal@.push(Command::InsertResource(type_id, resource)),
            r.tracking == old(self).tracking,
            *final(r.queue) == *final(old(self).queue),
            *final(self) == *final(r),
    {
        self.queue(Command::InsertResource(type_id, resource));
        self
    }

    /// Removes a resource of type `type_id` from the world.
    pub fn remove_resource(&mut self, type_id: u64) -> (r: &mut Self)
        ensures
            r.queue.internal@ == old(self).queue.internal@.push(Command::RemoveResource(type_id)),
            r.tracking == old(self).tracking,
            *final(r.queue) == *final(old(self).queue),
            *final(self) == *final(r),
    {
        self.queue(Command::RemoveResource(type_id));
        self
    }

    /// Spawns a new empty entity and returns its [`EntityCommands`] to modify it.
    pub fn spawn_empty<'a>(&'a mut self) -> (r: EntityCommands<'a, 't, 'q, T, P>)
        ensures
            r.commands.queue.internal@ == old(self).queue.internal@.push(Command::SpawnEntity(r.entity_id)),
            old(self).tracking.issues(r.entity_id, *r.commands.tracking),
            *final(self) == *final(r.commands),
    {
        let new_id = self.tracking.new_id();
        self.queue(Command::SpawnEntity(new_id));
        EntityCommands::new(self, new_id)
    }

    /// Selects an entity and returns its [`EntityCommands`] to modify it.
    pub fn entity<'a>(&'a mut self, entity_id: EntityId) -> (r: EntityCommands<'a, 't, 'q, T, P>)
        ensures
            r.entity_id == entity_id,
            *r.commands == *old(self),
            *final(self) == *final(r.commands),
    {
        EntityCommands::new(self, entity_id)
    }

    /// Applies all queued commands to the world.
    pub fn apply<W: CommandTarget<P>>(&mut self, world: &mut W)
        ensures
            final(self).queue.internal@.len() == 0,
            applied_in_order(*old(world), old(self).queue.internal@, *final(world)),
            *final(final(self).queue) == *final(old(self).queue),
            final(self).tracking == old(self).tracking,
    {
        self.queue.apply(world);
    }
}

/// Commands for a specific entity.
pub struct EntityCommands<'a, 't, 'q, T: EntityTracking, P> {
    pub entity_id: EntityId,
    pub commands: &'a mut Commands<'t, 'q, T, P>,
}

} // verus!

verus! {

impl<'a, 't, 'q, T: EntityTracking, P> EntityCommands<'a, 't, 'q, T, P> {
    /// Creates new entity commands
    fn new(commands: &'a mut Commands<'t, 'q, T, P>, entity_id: EntityId) -> (r: Self)
        ensures
            r.entity_id == entity_id,
            *r.commands == *old(commands),
            *final(commands) == *final(r.commands),
    {
        Self { entity_id, commands }
    }

    /// Returns the id of the entity.
    pub fn entity_id(&self) -> (r: EntityId)
        ensures
            r == self.entity_id,
    {
        self.entity_id
    }

    /// Queues a command; the same commands handle is handed on.
    fn queued(self, command: Command<P>) -> (r: Self)
        ensures
            r.entity_id == self.entity_id,
            r.commands.queue.internal@ == old(self.commands).queue.internal@.push(command),
            *final(r.commands) == *final(old(self.commands)),
    {
        let mut this = self;
        this.commands.queue(command);
        this
    }

    /// Despawn the entity and break its parent-child relationship.
    pub fn despawn(self) -> (r: Self)
        ensures
            r.entity_id == self.entity_id,
            r.commands.queue.internal@ == old(self.commands).queue.internal@.push(Command::DespawnEntity(self.entity_id)),
            *final(r.commands) == *final(old(self.commands)),
    {
        let id = self.entity_id;
        self.queued(Command::DespawnEntity(id))
    }

    /// Despawns the entity and all its children recursively.
    pub fn despawn_recursive(self) -> (r: Self)
        ensures
            r.entity_id == self.entity_id,
            r.commands.queue.internal@ == old(self.commands).queue.internal@.push(Command::DespawnEntityRecursive(self.entity_id)),
            *final(r.commands) == *final(old(self.commands)),
    {
        let id = self.entity_id;
        self.queued(Command::DespawnEntityRecursive(id))
    }

    /// Inserts a component, replacing one of the same type or keeping it.
    fn insert_with(self, component: ComponentInsert<P>, replace: bool) -> (r: Self)
        requires
            insertable(component),
        ensures
            r.entity_id == self.entity_id,
            r.commands.queue.internal@ == old(self.commands).queue.internal@ + insert_commands(
                self.entity_id,
                component,
                replace,
            ),
            *final(r.commands) == *final(old(self.commands)),
    {
        let id = self.entity_id;
        let ComponentInsert { type_id, kind, data } = component;
        match kind {
            ComponentKind::Transform { global_type_id, global } => {
                let this = self.queued(Command::InsertComponent(id, global_type_id, replace, global));
                let r = this.queued(Command::InsertComponent(id, type_id, replace, data));
                assert(r.commands.queue.internal@ =~= old(self.commands).queue.internal@ + insert_commands(id, component, replace));
                r
            },
            _ => {
                let r = self.queued(Command::InsertComponent(id, type_id, replace, data));
                assert(r.commands.queue.internal@ =~= old(self.commands).queue.internal@ + insert_commands(id, component, replace));
                r
            },
        }
    }

    /// Inserts new component to the entity.
    pub fn insert(self, component: ComponentInsert<P>) -> (r: Self)
        requires
            insertable(component),
        ensures
            r.entity_id == self.entity_id,
            r.commands.queue.internal@ == old(self.commands).queue.internal@ + insert_commands(
                self.entity_id,
                component,
                true,
            ),
            *final(r.commands) == *final(old(self.commands)),
    {
        self.insert_with(component, true)
    }

    /// Inserts new component to the entity if the condition returns true.
    pub fn insert_if<C: FnOnce() -> bool>(self, component: ComponentInsert<P>, condition: C) -> (r: Self)
        requires
            forall|b: bool| condition.ensures((), b) && b ==> insertable(component),
            condition.requires(()),
        ensures
            r.entity_id == self.entity_id,
            exists|b: bool|
                condition.ensures((), b) && r.commands.queue.internal@ == old(self.commands).queue.internal@
                    + (if b { insert_commands(self.entity_id, component, true) } else { Seq::empty() }),
            *final(r.commands) == *final(old(self.commands)),
    {
        if condition() {
            self.insert(component)
        } else {
            let r = self;
            assert(r.commands.queue.internal@ =~= old(self.commands).queue.internal@ + Seq::empty());
            r
        }
    }

    /// Inserts new component to the entity if it doesn't exist.
    pub fn insert_if_new(self, component: ComponentInsert<P>) -> (r: Self)
        requires
            insertable(component),
        ensures
            r.entity_id == self.entity_id,
            r.commands.queue.internal@ == old(self.commands).queue.internal@ + insert_commands(
                self.entity_id,
                component,
                false,
            ),
            *final(r.commands) == *final(old(self.commands)),
    {
        self.insert_with(component, false)
    }

    /// Inserts new component to the entity if it doesn't exist, and if the condition returns true.
    pub fn insert_if_new_if<C: FnOnce() -> bool>(self, component: ComponentInsert<P>, condition: C) -> (r: Self)
        requires
            forall|b: bool| condition.ensures((), b) && b ==> insertable(component),
            condition.requires(()),
        ensures
            r.entity_id == self.entity_id,
            exists|b: bool|
                condition.ensures((), b) && r.commands.queue.internal@ == old(self.commands).queue.internal@
                    + (if b { insert_commands(self.entity_id, component, false) } else { Seq::empty() }),
            *final(r.commands) == *final(old(self.commands)),
    {
        if condition() {
            self.insert_if_new(component)
        } else {
            let r = self;
            assert(r.commands.queue.internal@ =~= old(self.commands).queue.internal@ + Seq::empty());
            r
        }
    }

    /// Removes a component of type `type_id` from the entity.
    pub fn remove(self, type_id: u64) -> (r: Self)
        ensures
            r.entity_id == self.entity_id,
            r.commands.queue.internal@ == old(self.commands).queue.internal@.push(Command::RemoveComponent(self.entity_id, type_id)),
            *final(r.commands) == *final(old(self.commands)),
    {
        let id = self.entity_id;
        self.queued(Command::RemoveComponent(id, type_id))
    }

    /// Removes all children in the list from the entity.
    pub fn remove_children(self, children: Vec<EntityId>) -> (r: Self)
        ensures
            r.entity_id == self.entity_id,
            r.commands.queue.internal@ == old(self.commands).queue.internal@ + Seq::new(
                children@.len(),
                |i: int| Command::<P>::RemoveChild(self.entity_id, children@[i]),
            ),
            *final(r.commands) == *final(old(self.commands)),
    {
        let id = self.entity_id;
        let ghost start = old(self.commands).queue.internal@;
        let mut this = self;
        let mut i: usize = 0;
        while i < children.len()
            invariant
                i <= children@.len(),
                this.entity_id == id,
                this.commands.queue.internal@ == start + Seq::new(
                    i as nat,
                    |k: int| Command::<P>::RemoveChild(id, children@[k]),
                ),
                *final(this.commands) == *final(old(self.commands)),
            decreases children@.len() - i,
        {
            this = this.queued(Command::RemoveChild(id, children[i]));
            assert(this.commands.queue.internal@ =~= start + Seq::new(
                (i + 1) as nat,
                |k: int| Command::<P>::RemoveChild(id, children@[k]),
            ));
            i += 1;
        }
        this
    }

    /// Inserts already existing children to the entity.
    pub fn insert_children(self, children: Vec<EntityId>) -> (r: Self)
        ensures
            r.entity_id == self.entity_id,
            r.commands.queue.internal@ == old(self.commands).queue.internal@ + Seq::new(
                children@.len(),
                |i: int| Command::<P>::AddChild(self.entity_id, children@[i]),
            ),
            *final(r.commands) == *final(old(self.commands)),
    {
        let id = self.entity_id;
        let ghost start = old(self.commands).queue.internal@;
        let mut this = self;
        let mut i: usize = 0;
        while i < children.len()
            invariant
                i <= children@.len(),
                this.entity_id == id,
                this.commands.queue.internal@ == start + Seq::new(
                    i as nat,
                    |k: int| Command::<P>::AddChild(id, children@[k]),
                ),
                *final(this.commands) == *final(old(self.commands)),
            decreases children@.len() - i,
        {
            this = this.queued(Command::AddChild(id, children[i]));
            assert(this.commands.queue.internal@ =~= start + Seq::new(
                (i + 1) as nat,
                |k: int| Command::<P>::AddChild(id, children@[k]),
            ));
            i += 1;
        }
        this
    }

    /// Inserts an already existing child to the entity.
    pub fn insert_child(self, child: EntityId) -> (r: Self)
        ensures
            r.entity_id == self.entity_id,
            r.commands.queue.internal@ == old(self.commands).queue.internal@.push(Command::AddChild(self.entity_id, child)),
            *final(r.commands) == *final(old(self.commands)),
    {
        let id = self.entity_id;
        self.queued(Command::AddChild(id, child))
    }
}

} // verus!

verus! {

/// Commands for creating child entities under a parent.
pub struct ParentCommands<'a, 't, 'q, T: EntityTracking, P> {
    pub parent_id: EntityId,
    pub commands: &'a mut Commands<'t, 'q, T, P>,
}

impl<'a, 't, 'q, T: EntityTracking, P> ParentCommands<'a, 't, 'q, T, P> {
    /// Creates new parent commands
    fn new(parent_id: EntityId, commands: &'a mut Commands<'t, 'q, T, P>) -> (r: Self)
        ensures
            r.parent_id == parent_id,
            *r.commands == *old(commands),
            *final(commands) == *final(r.commands),
    {
        Self { parent_id, commands }
    }

    /// Spawns a new empty child entity under the parent and returns its [`EntityCommands`].
    pub fn spawn_empty(&mut self) -> (r: EntityCommands<'_, 't, 'q, T, P>)
        ensures
            r.commands.queue.internal@ == old(self).commands.queue.internal@.push(
                Command::SpawnEntity(r.entity_id),
            ).push(Command::AddChild(old(self).parent_id, r.entity_id)),
            old(self).commands.tracking.issues(r.entity_id, *r.commands.tracking),
            *final(self).commands == *final(r.commands),
            *final(final(self).commands) == *final(old(self).commands),
            final(self).parent_id == old(self).parent_id,
    {
        let child_id = { self.commands.spawn_empty().entity_id };
        let parent_id = self.parent_id;
        self.commands.queue(Command::AddChild(parent_id, child_id));
        EntityCommands::new(self.commands, child_id)
    }
}

impl<'a, 't, 'q, T: EntityTracking, P> EntityCommands<'a, 't, 'q, T, P> {
    /// Takes a closure in which you can create new child entities.
    pub fn with_children<C: FnOnce(&mut ParentCommands<'_, 't, 'q, T, P>)>(self, f: C) -> (r: Self)
        requires
            forall|pc: &mut ParentCommands<'_, 't, 'q, T, P>| f.requires((pc,)),
        ensures
            r.entity_id == self.entity_id,
            exists|pc: &mut ParentCommands<'_, 't, 'q, T, P>|
                {
                    &&& pc.parent_id == self.entity_id
                    &&& *pc.commands == *old(self.commands)
                    &&& f.ensures((pc,), ())
                    &&& *r.commands == *final(pc).commands
                },
    {
        let entity_id = self.entity_id;
        let mut parent_commands = ParentCommands::new(entity_id, self.commands);
        let pc = &mut parent_commands;
        let ghost g = pc;
        f(pc);
        proof {
            assert(exists|x: &mut ParentCommands<'_, 't, 'q, T, P>|
                f.ensures((x,), ()) && *x == *g && *final(x) == parent_commands);
        }
        EntityCommands { entity_id, commands: parent_commands.commands }
    }
}

} // verus!
