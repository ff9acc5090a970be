//! Cursor movement over breadcrumb chains, displayable path assembly, and
//! structure component indexing.

use spacers::Command;
use spacers::Component;
use spacers::Cursor;
use spacers::Galaxy;
use spacers::NavigationView;
use spacers::Object;
use spacers::ParentBuilder;
use spacers::Path;
use spacers::PathEntry;
use spacers::Position;
use spacers::Relation;
use spacers::Structure;

fn two_level_view() -> (Galaxy, NavigationView) {
    let mut galaxy = Galaxy::new();
    let sun = galaxy
        .spawn_object(
            Object::builder().name("Sun"),
            ParentBuilder::Position(Position::new(0, 0).unwrap()),
        )
        .unwrap();
    let planet = galaxy
        .spawn_object(
            Object::builder().name("Planet"),
            ParentBuilder::Relation(sun, Relation::Orbit(1_000)),
        )
        .unwrap();
    let ship = galaxy
        .spawn_object(
            Object::builder().name("Ship"),
            ParentBuilder::Relation(planet, Relation::Orbit(10)),
        )
        .unwrap();
    let mut view = NavigationView::new();
    view.reset_to(&galaxy, ship);
    (galaxy, view)
}

#[test]
fn cursor_wraps_after_length_plus_one_rights() {
    let (galaxy, mut view) = two_level_view();
    assert_eq!(view.chain.len(), 2);
    for _ in 0..3 {
        view.apply(Command::MoveRight, &galaxy);
    }
    assert_eq!(view.cursor, Cursor::At(0));
}

#[test]
fn cursor_wraps_after_length_plus_one_lefts() {
    let (galaxy, mut view) = two_level_view();
    for _ in 0..3 {
        view.apply(Command::MoveLeft, &galaxy);
    }
    assert_eq!(view.cursor, Cursor::At(1));
}

#[test]
fn cursor_on_an_empty_chain_stays_at_the_start() {
    let galaxy = Galaxy::new();
    let mut view = NavigationView::new();
    view.apply(Command::MoveLeft, &galaxy);
    assert_eq!(view.cursor, Cursor::At(0));
    view.apply(Command::MoveLeft, &galaxy);
    assert_eq!(view.cursor, Cursor::At(0));
    view.apply(Command::MoveRight, &galaxy);
    assert_eq!(view.cursor, Cursor::At(0));
}

#[test]
fn cancel_clears_the_cursor_and_keeps_the_chain() {
    let (galaxy, mut view) = two_level_view();
    view.apply(Command::MoveRight, &galaxy);
    assert_eq!(view.cursor, Cursor::At(0));
    let chain_before = view.chain.clone();
    view.apply(Command::Cancel, &galaxy);
    assert_eq!(view.cursor, Cursor::Unset);
    assert_eq!(view.chain, chain_before);
}

#[test]
fn confirm_at_the_root_entry_clears_the_chain() {
    let (galaxy, mut view) = two_level_view();
    let sun = view.chain[0];
    view.apply(Command::MoveRight, &galaxy);
    assert_eq!(view.cursor, Cursor::At(0));
    view.apply(Command::Confirm, &galaxy);
    assert_eq!(view.focus, Some(sun));
    assert!(view.chain.is_empty());
    assert_eq!(view.cursor, Cursor::Unset);
}

#[test]
fn reset_to_handle_recomputes_the_chain() {
    let (galaxy, mut view) = two_level_view();
    let planet = view.chain[1];
    let sun = view.chain[0];
    view.apply(Command::MoveRight, &galaxy);
    view.apply(Command::ResetToHandle(planet), &galaxy);
    assert_eq!(view.focus, Some(planet));
    assert_eq!(view.chain, vec![sun]);
    assert_eq!(view.cursor, Cursor::Unset);
}

#[test]
fn path_splits_anchor_middle_and_focus() {
    let (galaxy, view) = two_level_view();
    let sun = view.chain[0];
    let planet = view.chain[1];
    let ship = view.focus.unwrap();
    let anchor = match galaxy.get_object(sun).unwrap().parent {
        spacers::Parent::Position(pos) => pos,
        _ => panic!("the sun is root anchored"),
    };
    let entries = vec![
        PathEntry::Position(anchor),
        PathEntry::Object(sun),
        PathEntry::Object(planet),
        PathEntry::Object(ship),
    ];
    let path = Path::from_entries(2, entries);
    assert_eq!(path.index, 2);
    assert_eq!(path.position, Some(anchor));
    assert_eq!(path.objects, vec![sun, planet]);
    assert_eq!(path.object, Some(ship));
    assert_eq!(path.entry_count(), 4);

    assert_eq!(path.get_index(0), Some(PathEntry::Position(anchor)));
    assert_eq!(path.get_index(1), Some(PathEntry::Object(sun)));
    assert_eq!(path.get_index(2), Some(PathEntry::Object(planet)));
    assert_eq!(path.get_index(3), Some(PathEntry::Object(ship)));
    assert_eq!(path.get_index(4), None);
}

#[test]
fn path_handles_missing_anchor_and_focus() {
    let empty = Path::from_entries(0, Vec::new());
    assert_eq!(empty.position, None);
    assert_eq!(empty.object, None);
    assert!(empty.objects.is_empty());
    assert_eq!(empty.entry_count(), 0);
    assert_eq!(empty.get_index(0), None);

    let (_, view) = two_level_view();
    let sun = view.chain[0];
    let only_objects = Path::from_entries(0, vec![PathEntry::Object(sun)]);
    assert_eq!(only_objects.position, None);
    // a single entity entry is the focus, not a middle entry
    assert!(only_objects.objects.is_empty());
    assert_eq!(only_objects.object, Some(sun));
    assert_eq!(only_objects.get_index(0), None);
    assert_eq!(only_objects.get_index(1), Some(PathEntry::Object(sun)));
}

#[test]
fn confirm_without_a_selection_changes_nothing() {
    let (galaxy, mut view) = two_level_view();
    let chain_before = view.chain.clone();
    let focus_before = view.focus;
    view.apply(Command::Confirm, &galaxy);
    assert_eq!(view.cursor, Cursor::Unset);
    assert_eq!(view.chain, chain_before);
    assert_eq!(view.focus, focus_before);
}

#[test]
fn deep_chains_grow_with_depth() {
    let mut galaxy = Galaxy::new();
    let root = galaxy
        .spawn_object(
            Object::builder().name("Root"),
            ParentBuilder::Position(Position::new(0, 0).unwrap()),
        )
        .unwrap();
    let mut chain = vec![root];
    for depth in 1..5 {
        let below = galaxy
            .spawn_object(
                Object::builder().mass(depth),
                ParentBuilder::Relation(*chain.last().unwrap(), Relation::Orbit(depth as usize)),
            )
            .unwrap();
        chain.push(below);
    }
    let focus = *chain.last().unwrap();
    let resolved = galaxy.resolve_chain(focus);
    assert_eq!(resolved.len(), 4);
    assert_eq!(resolved, chain[..4].to_vec());
}

#[test]
fn structure_indexes_reactors_by_kind() {
    let components = vec![
        Component::Reactor(()),
        Component::Cargo,
        Component::Thruster,
        Component::Reactor(()),
        Component::Drill,
        Component::Reactor(()),
    ];
    let structure = Structure::new(components);
    assert_eq!(structure.components_count(), 6);
    assert_eq!(structure.reactors().len(), 3);

    let bare = Structure::new(Vec::new());
    assert_eq!(bare.components_count(), 0);
    assert!(bare.reactors().is_empty());
}
