//! Pointer interaction with UI nodes: hovering and pressing.
use vstd::prelude::*;
use std::collections::HashMap;
use crate::system::commands::EntityId;

verus! {

broadcast use vstd::std_specs::hash::group_hash_axioms;

/// Marks an UI entity as interactive, enabling mouse events via `Interaction`
#[derive(Debug, Clone, Copy)]
pub struct Button;

/// Enables mouse event tracking for an UI entity, automatically added with `Button`
#[derive(Debug, Clone, Copy, PartialEq, Eq, Structural)]
pub enum Interaction {
    /// Mouse is hovering over the node's bounding box
    Hover,
    /// Left mouse button is held down
    Press,
    /// Neither
    Idle,
}

impl Default for Interaction {
    fn default() -> (r: Self)
        ensures
            r == Interaction::Idle,
    {
        Interaction::Idle
    }
}

/// A node as interaction sees it.
#[derive(Debug, Clone, Copy)]
pub struct InteractionNode {
    pub id: EntityId,
    /// The node is not displayed
    pub hidden: bool,
    /// Its current interaction
    pub interaction: Interaction,
    /// The cursor is inside the node's padding box
    pub hovering: bool,
}

/// What the pointer did this frame.
#[derive(Debug, Clone, Copy)]
pub enum PointerInput {
    /// No mouse button or cursor movement events
    NoEvents,
    /// Events, but the cursor is outside of the window
    OutsideWindow,
    /// Events with the cursor in the window, and the left button's state
    Inside { is_pressed: bool, just_pressed: bool },
}

/// The interaction a node moves to, `None` where it drops back to idle: a hovered node is pressed
/// when the button was just pressed or stays pressed while it is held, and is hovered otherwise;
/// a node that is not hovered stays pressed while the button is held, and goes idle otherwise.
pub open spec fn interaction_after(
    current: Interaction,
    hovering: bool,
    is_pressed: bool,
    just_pressed: bool,
) -> Option<Interaction> {
    if hovering {
        if just_pressed || (current == Interaction::Press && is_pressed) {
            Some(Interaction::Press)
        } else {
            Some(Interaction::Hover)
        }
    } else if current == Interaction::Press && is_pressed && !just_pressed {
        Some(Interaction::Press)
    } else {
        None
    }
}

/// The interaction a node moves to, `None` where it drops back to idle.
pub fn next_interaction(current: Interaction, hovering: bool, is_pressed: bool, just_pressed: bool) -> (r:
    Option<Interaction>)
    ensures
        r == interaction_after(current, hovering, is_pressed, just_pressed),
{
    match (current, hovering, is_pressed, just_pressed) {
        (_, true, _, true) => Some(Interaction::Press),
        (Interaction::Press, true, true, _) => Some(Interaction::Press),
        (_, true, _, _) => Some(Interaction::Hover),
        (Interaction::Press, false, true, false) => Some(Interaction::Press),
        (_, false, _, _) => None,
    }
}

/// The interaction a displayed node moves to, if it does not drop back to idle.
pub open spec fn node_target(n: InteractionNode, is_pressed: bool, just_pressed: bool) -> Option<
    Interaction,
> {
    if n.hidden {
        None
    } else {
        interaction_after(n.interaction, n.hovering, is_pressed, just_pressed)
    }
}

/// Nodes, in order, that move to a new interaction other than idle, with that interaction.
pub open spec fn changed_interactions(
    nodes: Seq<InteractionNode>,
    is_pressed: bool,
    just_pressed: bool,
) -> Seq<(EntityId, Interaction)>
    decreases nodes.len(),
{
    if nodes.len() == 0 {
        Seq::empty()
    } else {
        let prev = changed_interactions(nodes.drop_last(), is_pressed, just_pressed);
        let n = nodes.last();
        match node_target(n, is_pressed, just_pressed) {
            Some(s) => if s != n.interaction {
                prev.push((n.id, s))
            } else {
                prev
            },
            None => prev,
        }
    }
}

/// Nodes, in order, that keep an interaction other than idle.
pub open spec fn kept_interactions(nodes: Seq<InteractionNode>, is_pressed: bool, just_pressed: bool) -> Seq<
    EntityId,
>
    decreases nodes.len(),
{
    if nodes.len() == 0 {
        Seq::empty()
    } else {
        let prev = kept_interactions(nodes.drop_last(), is_pressed, just_pressed);
        let n = nodes.last();
        match node_target(n, is_pressed, just_pressed) {
            Some(s) => if s == n.interaction {
                prev.push(n.id)
            } else {
                prev
            },
            None => prev,
        }
    }
}

/// Nodes with new interactions and nodes that keep theirs; `None` when there were no pointer
/// events. With the cursor outside of the window both are empty, so every interaction resets.
pub fn get_interactions(nodes: &[InteractionNode], pointer: PointerInput) -> (r: Option<
    (Vec<(EntityId, Interaction)>, Vec<EntityId>),
>)
    ensures
        match pointer {
            PointerInput::NoEvents => r is None,
            PointerInput::OutsideWindow => r matches Some((new, keep)) && new@.len() == 0
                && keep@.len() == 0,
            PointerInput::Inside { is_pressed, just_pressed } => r matches Some((new, keep))
                && new@ == changed_interactions(nodes@, is_pressed, just_pressed) && keep@
                == kept_interactions(nodes@, is_pressed, just_pressed),
        },
{
    let (is_pressed, just_pressed) = match pointer {
        PointerInput::NoEvents => {
            return None;
        },
        PointerInput::OutsideWindow => {
            return Some((Vec::new(), Vec::new()));
        },
        PointerInput::Inside { is_pressed, just_pressed } => (is_pressed, just_pressed),
    };
    let mut new: Vec<(EntityId, Interaction)> = Vec::new();
    let mut keep: Vec<EntityId> = Vec::new();
    let mut i: usize = 0;
    while i < nodes.len()
        invariant
            i <= nodes@.len(),
            new@ == changed_interactions(nodes@.take(i as int), is_pressed, just_pressed),
            keep@ == kept_interactions(nodes@.take(i as int), is_pressed, just_pressed),
        decreases nodes@.len() - i,
    {
        let node = nodes[i];
        assert(nodes@.take(i + 1).drop_last() =~= nodes@.take(i as int));
        if !node.hidden {
            match next_interaction(node.interaction, node.hovering, is_pressed, just_pressed) {
                Some(state) => {
                    if state != node.interaction {
                        new.push((node.id, state));
                    } else {
                        keep.push(node.id);
                    }
                },
                None => {},
            }
        }
        i += 1;
    }
    assert(nodes@.take(nodes@.len() as int) =~= nodes@);
    Some((new, keep))
}


/// Idle, under its raw id, for each node whose interaction is not idle.
pub open spec fn resets(nodes: Seq<InteractionNode>) -> Map<u32, Interaction>
    decreases nodes.len(),
{
    if nodes.len() == 0 {
        Map::empty()
    } else {
        let prev = resets(nodes.drop_last());
        let n = nodes.last();
        if n.interaction != Interaction::Idle {
            prev.insert(n.id.0, Interaction::Idle)
        } else {
            prev
        }
    }
}

/// `m` with each change put in, in order.
pub open spec fn with_changes(m: Map<u32, Interaction>, changes: Seq<(EntityId, Interaction)>) -> Map<
    u32,
    Interaction,
>
    decreases changes.len(),
{
    if changes.len() == 0 {
        m
    } else {
        with_changes(m, changes.drop_last()).insert(changes.last().0.0, changes.last().1)
    }
}

/// `m` without the given ids.
pub open spec fn without_ids(m: Map<u32, Interaction>, ids: Seq<EntityId>) -> Map<u32, Interaction>
    decreases ids.len(),
{
    if ids.len() == 0 {
        m
    } else {
        without_ids(m, ids.drop_last()).remove(ids.last().0)
    }
}

/// The interactions to write, by raw entity id: nothing without nodes or pointer events; else
/// every interaction that is not idle resets, new interactions replace those, and nodes that
/// keep theirs are left alone.
pub open spec fn interaction_updates(nodes: Seq<InteractionNode>, pointer: PointerInput) -> Map<
    u32,
    Interaction,
> {
    if nodes.len() == 0 {
        Map::empty()
    } else {
        match pointer {
            PointerInput::NoEvents => Map::empty(),
            PointerInput::OutsideWindow => resets(nodes),
            PointerInput::Inside { is_pressed, just_pressed } => without_ids(
                with_changes(resets(nodes), changed_interactions(nodes, is_pressed, just_pressed)),
                kept_interactions(nodes, is_pressed, just_pressed),
            ),
        }
    }
}

/// Computes the interaction updates of UI nodes for this frame, by raw entity id.
pub fn ui_interaction_update(nodes: &[InteractionNode], pointer: PointerInput) -> (r: HashMap<
    u32,
    Interaction,
>)
    ensures
        r@ == interaction_updates(nodes@, pointer),
{
    if nodes.len() == 0 {
        return HashMap::new();
    }
    let mut updates: HashMap<u32, Interaction> = HashMap::new();
    let mut i: usize = 0;
    while i < nodes.len()
        invariant
            i <= nodes@.len(),
            updates@ == resets(nodes@.take(i as int)),
        decreases nodes@.len() - i,
    {
        assert(nodes@.take(i + 1).drop_last() =~= nodes@.take(i as int));
        if nodes[i].interaction != Interaction::Idle {
            updates.insert(nodes[i].id.0, Interaction::Idle);
        }
        i += 1;
    }
    assert(nodes@.take(nodes@.len() as int) =~= nodes@);
    let ghost base = updates@;
    let (new, keep) = match get_interactions(nodes, pointer) {
        Some(found) => found,
        None => {
            return HashMap::new();
        },
    };
    let mut j: usize = 0;
    while j < new.len()
        invariant
            j <= new@.len(),
            updates@ == with_changes(base, new@.take(j as int)),
        decreases new@.len() - j,
    {
        assert(new@.take(j + 1).drop_last() =~= new@.take(j as int));
        let (id, state) = new[j];
        updates.insert(id.0, state);
        j += 1;
    }
    assert(new@.take(new@.len() as int) =~= new@);
    let ghost changed = updates@;
    let mut k: usize = 0;
    while k < keep.len()
        invariant
            k <= keep@.len(),
            updates@ == without_ids(changed, keep@.take(k as int)),
        decreases keep@.len() - k,
    {
        assert(keep@.take(k + 1).drop_last() =~= keep@.take(k as int));
        updates.remove(&keep[k].0);
        k += 1;
    }
    assert(keep@.take(keep@.len() as int) =~= keep@);
    updates
}


/// No two nodes share an entity.
pub open spec fn unique_ids(nodes: Seq<InteractionNode>) -> bool {
    forall|a: int, b: int|
        0 <= a < nodes.len() && 0 <= b < nodes.len() && a != b ==> #[trigger] nodes[a].id.0
            != #[trigger] nodes[b].id.0
}

/// The interaction a node ends up with this frame: where it goes, or idle.
pub open spec fn final_interaction(n: InteractionNode, is_pressed: bool, just_pressed: bool) -> Interaction {
    match node_target(n, is_pressed, just_pressed) {
        Some(s) => s,
        None => Interaction::Idle,
    }
}

/// `a` and `b` agree at `k`.
pub open spec fn same_at(a: Map<u32, Interaction>, b: Map<u32, Interaction>, k: u32) -> bool {
    a.contains_key(k) == b.contains_key(k) && (a.contains_key(k) ==> a[k] == b[k])
}

proof fn lemma_resets_absent(nodes: Seq<InteractionNode>, k: u32)
    requires
        forall|i: int| 0 <= i < nodes.len() ==> #[trigger] nodes[i].id.0 != k,
    ensures
        !resets(nodes).contains_key(k),
    decreases nodes.len(),
{
    if nodes.len() > 0 {
        let prev = nodes.drop_last();
        assert forall|i: int| 0 <= i < prev.len() implies #[trigger] prev[i].id.0 != k by {
            assert(prev[i] == nodes[i]);
        }
        lemma_resets_absent(prev, k);
        assert(nodes.last() == nodes[nodes.len() - 1]);
    }
}

proof fn lemma_resets_at(nodes: Seq<InteractionNode>, i: int)
    requires
        unique_ids(nodes),
        0 <= i < nodes.len(),
    ensures
        resets(nodes).contains_key(nodes[i].id.0) == (nodes[i].interaction != Interaction::Idle),
        resets(nodes).contains_key(nodes[i].id.0) ==> resets(nodes)[nodes[i].id.0]
            == Interaction::Idle,
    decreases nodes.len(),
{
    let prev = nodes.drop_last();
    let last = nodes.len() - 1;
    assert(nodes.last() == nodes[last]);
    if i == last {
        assert forall|a: int| 0 <= a < prev.len() implies #[trigger] prev[a].id.0 != nodes[i].id.0 by {
            assert(prev[a] == nodes[a]);
        }
        lemma_resets_absent(prev, nodes[i].id.0);
    } else {
        assert(prev[i] == nodes[i]);
        assert forall|a: int, b: int|
            0 <= a < prev.len() && 0 <= b < prev.len() && a != b implies #[trigger] prev[a].id.0
            != #[trigger] prev[b].id.0 by {
            assert(prev[a] == nodes[a] && prev[b] == nodes[b]);
        }
        lemma_resets_at(prev, i);
        assert(nodes[last].id.0 != nodes[i].id.0);
    }
}

proof fn lemma_changes_absent(
    m: Map<u32, Interaction>,
    nodes: Seq<InteractionNode>,
    is_pressed: bool,
    just_pressed: bool,
    k: u32,
)
    requires
        forall|i: int| 0 <= i < nodes.len() ==> #[trigger] nodes[i].id.0 != k,
    ensures
        same_at(with_changes(m, changed_interactions(nodes, is_pressed, just_pressed)), m, k),
    decreases nodes.len(),
{
    if nodes.len() > 0 {
        let prev = nodes.drop_last();
        assert forall|i: int| 0 <= i < prev.len() implies #[trigger] prev[i].id.0 != k by {
            assert(prev[i] == nodes[i]);
        }
        lemma_changes_absent(m, prev, is_pressed, just_pressed, k);
        let pc = changed_interactions(prev, is_pressed, just_pressed);
        let n = nodes.last();
        assert(n == nodes[nodes.len() - 1]);
        if let Some(s) = node_target(n, is_pressed, just_pressed) {
            if s != n.interaction {
                assert(pc.push((n.id, s)).drop_last() =~= pc);
            }
        }
    }
}

proof fn lemma_changes_at(
    m: Map<u32, Interaction>,
    nodes: Seq<InteractionNode>,
    is_pressed: bool,
    just_pressed: bool,
    i: int,
)
    requires
        unique_ids(nodes),
        0 <= i < nodes.len(),
    ensures
        ({
            let w = with_changes(m, changed_interactions(nodes, is_pressed, just_pressed));
            let k = nodes[i].id.0;
            match node_target(nodes[i], is_pressed, just_pressed) {
                Some(s) => if s != nodes[i].interaction {
                    w.contains_key(k) && w[k] == s
                } else {
                    same_at(w, m, k)
                },
                None => same_at(w, m, k),
            }
        }),
    decreases nodes.len(),
{
    let prev = nodes.drop_last();
    let last = nodes.len() - 1;
    let n = nodes.last();
    assert(n == nodes[last]);
    let pc = changed_interactions(prev, is_pressed, just_pressed);
    if let Some(s) = node_target(n, is_pressed, just_pressed) {
        if s != n.interaction {
            assert(pc.push((n.id, s)).drop_last() =~= pc);
        }
    }
    if i == last {
        assert forall|a: int| 0 <= a < prev.len() implies #[trigger] prev[a].id.0 != nodes[i].id.0 by {
            assert(prev[a] == nodes[a]);
        }
        lemma_changes_absent(m, prev, is_pressed, just_pressed, nodes[i].id.0);
    } else {
        assert(prev[i] == nodes[i]);
        assert forall|a: int, b: int|
            0 <= a < prev.len() && 0 <= b < prev.len() && a != b implies #[trigger] prev[a].id.0
            != #[trigger] prev[b].id.0 by {
            assert(prev[a] == nodes[a] && prev[b] == nodes[b]);
        }
        lemma_changes_at(m, prev, is_pressed, just_pressed, i);
        assert(nodes[last].id.0 != nodes[i].id.0);
    }
}

proof fn lemma_kept_absent(
    m: Map<u32, Interaction>,
    nodes: Seq<InteractionNode>,
    is_pressed: bool,
    just_pressed: bool,
    k: u32,
)
    requires
        forall|i: int| 0 <= i < nodes.len() ==> #[trigger] nodes[i].id.0 != k,
    ensures
        same_at(without_ids(m, kept_interactions(nodes, is_pressed, just_pressed)), m, k),
    decreases nodes.len(),
{
    if nodes.len() > 0 {
        let prev = nodes.drop_last();
        assert forall|i: int| 0 <= i < prev.len() implies #[trigger] prev[i].id.0 != k by {
            assert(prev[i] == nodes[i]);
        }
        lemma_kept_absent(m, prev, is_pressed, just_pressed, k);
        let pk = kept_interactions(prev, is_pressed, just_pressed);
        let n = nodes.last();
        assert(n == nodes[nodes.len() - 1]);
        if let Some(s) = node_target(n, is_pressed, just_pressed) {
            if s == n.interaction {
                assert(pk.push(n.id).drop_last() =~= pk);
            }
        }
    }
}

proof fn lemma_kept_at(
    m: Map<u32, Interaction>,
    nodes: Seq<InteractionNode>,
    is_pressed: bool,
    just_pressed: bool,
    i: int,
)
    requires
        unique_ids(nodes),
        0 <= i < nodes.len(),
    ensures
        ({
            let w = without_ids(m, kept_interactions(nodes, is_pressed, just_pressed));
            let k = nodes[i].id.0;
            if node_target(nodes[i], is_pressed, just_pressed) == Some(nodes[i].interaction) {
                !w.contains_key(k)
            } else {
                same_at(w, m, k)
            }
        }),
    decreases nodes.len(),
{
    let prev = nodes.drop_last();
    let last = nodes.len() - 1;
    let n = nodes.last();
    assert(n == nodes[last]);
    let pk = kept_interactions(prev, is_pressed, just_pressed);
    if let Some(s) = node_target(n, is_pressed, just_pressed) {
        if s == n.interaction {
            assert(pk.push(n.id).drop_last() =~= pk);
        }
    }
    if i == last {
        assert forall|a: int| 0 <= a < prev.len() implies #[trigger] prev[a].id.0 != nodes[i].id.0 by {
            assert(prev[a] == nodes[a]);
        }
        lemma_kept_absent(m, prev, is_pressed, just_pressed, nodes[i].id.0);
    } else {
        assert(prev[i] == nodes[i]);
        assert forall|a: int, b: int|
            0 <= a < prev.len() && 0 <= b < prev.len() && a != b implies #[trigger] prev[a].id.0
            != #[trigger] prev[b].id.0 by {
            assert(prev[a] == nodes[a] && prev[b] == nodes[b]);
        }
        lemma_kept_at(m, prev, is_pressed, just_pressed, i);
        assert(nodes[last].id.0 != nodes[i].id.0);
    }
}

/// With pointer events inside the window, a node's interaction is written exactly when it
/// changes, and what is written is where the node ends up: a new interaction, or idle when it
/// drops out of hover and press (entities are distinct).
pub proof fn lemma_updates_write_changes_only(
    nodes: Seq<InteractionNode>,
    is_pressed: bool,
    just_pressed: bool,
    i: int,
)
    requires
        unique_ids(nodes),
        0 <= i < nodes.len(),
    ensures
        ({
            let u = interaction_updates(nodes, PointerInput::Inside { is_pressed, just_pressed });
            let k = nodes[i].id.0;
            let target = final_interaction(nodes[i], is_pressed, just_pressed);
            &&& u.contains_key(k) == (target != nodes[i].interaction)
            &&& u.contains_key(k) ==> u[k] == target
        }),
{
    let r = resets(nodes);
    let w = with_changes(r, changed_interactions(nodes, is_pressed, just_pressed));
    lemma_resets_at(nodes, i);
    lemma_changes_at(r, nodes, is_pressed, just_pressed, i);
    lemma_kept_at(w, nodes, is_pressed, just_pressed, i);
}

} // verus!
