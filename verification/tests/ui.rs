use vavo::renderer::Face;
use vavo::system::commands::EntityId;
use vavo::ui::interactivity::{
    get_interactions, next_interaction, ui_interaction_update, Interaction, InteractionNode,
    PointerInput,
};
use vavo::ui::node::{AlignItems, BoxSizing, Display, FlexDirection, JustifyContent, Position};
use vavo::ui::interactivity::Interaction::{Hover, Idle, Press};
use vavo::ui::node::FlexDirection::{Column, ColumnReverse, Row, RowReverse};

fn node(id: u32, interaction: Interaction, hovering: bool) -> InteractionNode {
    InteractionNode { id: EntityId(id), hidden: false, interaction, hovering }
}

#[test]
fn interaction_table() {
    // hovered: a fresh press presses, a held press stays pressed, else hover
    assert_eq!(next_interaction(Idle, true, true, true), Some(Press));
    assert_eq!(next_interaction(Hover, true, true, false), Some(Hover));
    assert_eq!(next_interaction(Press, true, true, false), Some(Press));
    assert_eq!(next_interaction(Press, true, false, false), Some(Hover));
    assert_eq!(next_interaction(Idle, true, false, false), Some(Hover));
    // not hovered: a held press survives, everything else drops
    assert_eq!(next_interaction(Press, false, true, false), Some(Press));
    assert_eq!(next_interaction(Press, false, true, true), None);
    assert_eq!(next_interaction(Press, false, false, false), None);
    assert_eq!(next_interaction(Hover, false, true, false), None);
}

#[test]
fn interactions_split_into_new_and_kept() {
    let nodes = [
        node(1, Interaction::Idle, true),
        node(2, Interaction::Hover, true),
        node(3, Interaction::Hover, false),
        InteractionNode { id: EntityId(4), hidden: true, interaction: Interaction::Idle, hovering: true },
    ];
    let pointer = PointerInput::Inside { is_pressed: false, just_pressed: false };
    let (new, keep) = get_interactions(&nodes, pointer).unwrap();
    assert_eq!(new.iter().map(|(id, i)| (id.raw(), *i)).collect::<Vec<_>>(), vec![(1, Interaction::Hover)]);
    assert_eq!(keep.iter().map(|id| id.raw()).collect::<Vec<_>>(), vec![2]);

    assert!(get_interactions(&nodes, PointerInput::NoEvents).is_none());
    let (new, keep) = get_interactions(&nodes, PointerInput::OutsideWindow).unwrap();
    assert!(new.is_empty() && keep.is_empty());
}

#[test]
fn updates_write_only_changes() {
    let nodes = [
        node(1, Interaction::Idle, true),
        node(2, Interaction::Hover, true),
        node(3, Interaction::Hover, false),
        node(4, Interaction::Press, false),
        node(5, Interaction::Idle, false),
    ];
    let updates = ui_interaction_update(
        &nodes,
        PointerInput::Inside { is_pressed: true, just_pressed: false },
    );
    assert_eq!(updates.len(), 2);
    assert_eq!(updates.get(&1), Some(&Interaction::Hover));
    assert_eq!(updates.get(&3), Some(&Interaction::Idle));
    // 2 keeps its hover, 4 stays pressed while the button is held, 5 stays idle
    assert!(updates.get(&2).is_none());
    assert!(updates.get(&4).is_none());
    assert!(updates.get(&5).is_none());

    let pressed = ui_interaction_update(
        &nodes,
        PointerInput::Inside { is_pressed: true, just_pressed: true },
    );
    assert_eq!(pressed.get(&1), Some(&Interaction::Press));
    assert_eq!(pressed.get(&2), Some(&Interaction::Press));
    assert_eq!(pressed.get(&4), Some(&Interaction::Idle));
}

#[test]
fn pointer_outside_resets_and_no_events_changes_nothing() {
    let nodes = [node(1, Interaction::Hover, true), node(2, Interaction::Idle, true)];
    let reset = ui_interaction_update(&nodes, PointerInput::OutsideWindow);
    assert_eq!(reset.len(), 1);
    assert_eq!(reset.get(&1), Some(&Interaction::Idle));
    assert!(ui_interaction_update(&nodes, PointerInput::NoEvents).is_empty());
    assert!(ui_interaction_update(&[], PointerInput::OutsideWindow).is_empty());
}

#[test]
fn hidden_nodes_lose_their_interaction() {
    let nodes = [InteractionNode { id: EntityId(9), hidden: true, interaction: Interaction::Press, hovering: true }];
    let updates = ui_interaction_update(&nodes, PointerInput::Inside { is_pressed: true, just_pressed: true });
    assert_eq!(updates.get(&9), Some(&Interaction::Idle));
}

#[test]
fn flex_direction_axes() {
    for d in [Row, RowReverse, Column, ColumnReverse] {
        assert_ne!(d.is_row(), d.is_column());
    }
    assert!(RowReverse.is_reverse() && ColumnReverse.is_reverse());
    assert!(!Row.is_reverse() && !Column.is_reverse());
    assert!(Row.is_row() && RowReverse.is_row());
    assert!(Column.is_column() && ColumnReverse.is_column());
}

#[test]
fn layout_defaults() {
    assert_eq!(Display::default(), Display::Block);
    assert_eq!(Position::default(), Position::Relative);
    assert_eq!(FlexDirection::default(), FlexDirection::Row);
    assert_eq!(JustifyContent::default(), JustifyContent::FlexStart);
    assert_eq!(AlignItems::default(), AlignItems::Stretch);
    assert_eq!(BoxSizing::default(), BoxSizing::BorderBox);
    assert_eq!(Interaction::default(), Interaction::Idle);
    assert_eq!(Face::default(), Face::Back);
}
