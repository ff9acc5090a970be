//! End-to-end scenarios: a small solar system and breadcrumb navigation
//! over it.

use spacers::Command;
use spacers::Cursor;
use spacers::Galaxy;
use spacers::NavigationView;
use spacers::Object;
use spacers::ParentBuilder;
use spacers::Position;
use spacers::Relation;

/// Spawns the sun at (1.2, 0.7) — in milli-unit coordinates — with a planet
/// and a ship orbiting below it, and returns their handles.
fn solar_system(galaxy: &mut Galaxy) -> (spacers::ObjectHandle, spacers::ObjectHandle, spacers::ObjectHandle) {
    let sun_position = Position::new(1200, 700).unwrap();
    let sun = galaxy
        .spawn_object(
            Object::builder().name("Sun").mass(300_000_000),
            ParentBuilder::Position(sun_position),
        )
        .unwrap();
    let planet = galaxy
        .spawn_object(
            Object::builder().name("Planet").mass(700_000),
            ParentBuilder::Relation(sun, Relation::Orbit(1_200_000)),
        )
        .unwrap();
    let ship = galaxy
        .spawn_object(
            Object::builder().name("Ship").mass(10_000),
            ParentBuilder::Relation(planet, Relation::Orbit(20_000)),
        )
        .unwrap();
    (sun, planet, ship)
}

#[test]
fn sun_planet_ship_scenario() {
    let mut galaxy = Galaxy::new();
    let (sun, planet, ship) = solar_system(&mut galaxy);

    let chain = galaxy.resolve_chain(ship);
    assert_eq!(chain, vec![sun, planet]);

    let ship_object = galaxy.get_object(ship).unwrap();
    assert_eq!(ship_object.mass, 10_000);
    assert_eq!(ship_object.name, "Ship");

    assert_eq!(galaxy.spatial_count(), 1);
    let everywhere_low = Position::new(-100_000_000, -100_000_000).unwrap();
    let everywhere_high = Position::new(100_000_000, 100_000_000).unwrap();
    let roots = galaxy.objects_in_box(everywhere_low, everywhere_high);
    assert_eq!(roots, vec![sun]);

    let planet_object = galaxy.get_object(planet).unwrap();
    assert_eq!(planet_object.children_count(), 1);
    assert_eq!(planet_object.get_child(ship), Some(&Relation::Orbit(20_000)));
    assert!(planet_object.get_child(sun).is_none());
}

#[test]
fn cursor_confirm_reroots_to_planet() {
    let mut galaxy = Galaxy::new();
    let (sun, planet, ship) = solar_system(&mut galaxy);

    let mut view = NavigationView::new();
    view.reset_to(&galaxy, ship);
    assert_eq!(view.chain, vec![sun, planet]);
    assert_eq!(view.cursor, Cursor::Unset);

    view.apply(Command::MoveLeft, &galaxy);
    assert_eq!(view.cursor, Cursor::At(1));

    view.apply(Command::Confirm, &galaxy);
    assert_eq!(view.focus, Some(planet));
    assert_eq!(view.chain, vec![sun]);
    assert_eq!(view.cursor, Cursor::Unset);
}
