//! Spawning, lookup, defaults, errors, maneuvers and the spatial index.

use spacers::Body;
use spacers::Composition;
use spacers::Galaxy;
use spacers::Maneuver;
use spacers::Object;
use spacers::ObjectKind;
use spacers::Parent;
use spacers::ParentBuilder;
use spacers::Position;
use spacers::Relation;
use spacers::SpawnError;

fn root_position(x: i64, y: i64) -> ParentBuilder {
    ParentBuilder::Position(Position::new(x, y).unwrap())
}

#[test]
fn spawn_round_trip_keeps_attributes() {
    let mut galaxy = Galaxy::new();
    let kind = ObjectKind::Body(Body {
        composition: Composition { hydrogen: 700_000, helium: 280_000, rock: 0, ice: 0, metals: 20_000 },
        radius: 695_700,
    });
    let handle = galaxy
        .spawn_object(
            Object::builder().name("Star").mass(1_989_000).kind(kind),
            root_position(0, 0),
        )
        .unwrap();
    let object = galaxy.get_object(handle).unwrap();
    assert_eq!(object.mass, 1_989_000);
    assert_eq!(object.name, "Star");
    match &object.kind {
        ObjectKind::Body(body) => {
            assert_eq!(body.radius, 695_700);
            assert_eq!(body.composition.hydrogen, 700_000);
            assert_eq!(body.composition.metals, 20_000);
        },
        _ => panic!("spawned a body, fetched something else"),
    }
    match object.parent {
        Parent::Position(pos) => {
            assert_eq!(pos.x(), 0);
            assert_eq!(pos.y(), 0);
        },
        Parent::Relation(_, _) => panic!("a root anchor came back as an orbit"),
    }
}

#[test]
fn spawn_applies_defaults() {
    let mut galaxy = Galaxy::new();
    let handle = galaxy.spawn_object(Object::builder(), root_position(5, -5)).unwrap();
    let object = galaxy.get_object(handle).unwrap();
    assert_eq!(object.mass, 1_000_000);
    assert_eq!(object.name, "Object");
    match &object.kind {
        ObjectKind::Body(body) => {
            assert_eq!(body.radius, 1_000);
            assert_eq!(body.composition, Composition::default());
            assert_eq!(body.composition.rock, 1_000_000);
        },
        _ => panic!("the default kind is a body"),
    }
    assert_eq!(object.children_count(), 0);
}

#[test]
fn spawn_rejects_unknown_parent() {
    let mut donor = Galaxy::new();
    let foreign = donor.spawn_object(Object::builder(), root_position(1, 1)).unwrap();

    let mut galaxy = Galaxy::new();
    let result = galaxy.spawn_object(
        Object::builder().name("Stray"),
        ParentBuilder::Relation(foreign, Relation::Orbit(10)),
    );
    assert_eq!(result, Err(SpawnError::InvalidParent));
    assert_eq!(galaxy.count(), 0);
    assert!(galaxy.get_object(foreign).is_none());
}

#[test]
fn handles_stay_distinct() {
    let mut galaxy = Galaxy::new();
    let mut handles = Vec::new();
    for i in 0..8 {
        handles.push(galaxy.spawn_object(Object::builder().mass(i + 1), root_position(i as i64, 0)).unwrap());
    }
    for a in 0..handles.len() {
        for b in (a + 1)..handles.len() {
            assert_ne!(handles[a], handles[b]);
        }
    }
    for (i, handle) in handles.iter().enumerate() {
        assert_eq!(galaxy.get_object(*handle).unwrap().mass, i as u64 + 1);
    }
    assert_eq!(galaxy.count(), 8);
}

#[test]
fn nested_children_spawn_below_their_parent() {
    let mut galaxy = Galaxy::new();
    let moon = Object::builder().name("Moon").mass(50_000);
    let station = Object::builder().name("Station").mass(500);
    let planet = galaxy
        .spawn_object(
            Object::builder()
                .name("Planet")
                .mass(700_000)
                .child(moon, Relation::Orbit(30_000))
                .child(station, Relation::Orbit(400)),
            root_position(10, 20),
        )
        .unwrap();
    assert_eq!(galaxy.count(), 3);
    assert_eq!(galaxy.spatial_count(), 1);

    let planet_object = galaxy.get_object(planet).unwrap();
    assert_eq!(planet_object.children_count(), 2);
    let mut names = Vec::new();
    for (child, relation) in planet_object.children.iter() {
        let child_object = galaxy.get_object(*child).unwrap();
        match child_object.parent {
            Parent::Relation(parent, parent_relation) => {
                assert_eq!(parent, planet);
                assert_eq!(parent_relation, *relation);
            },
            Parent::Position(_) => panic!("a nested child must orbit its parent"),
        }
        assert_eq!(galaxy.resolve_chain(*child), vec![planet]);
        names.push(child_object.name);
    }
    names.sort();
    assert_eq!(names, vec!["Moon", "Station"]);
}

#[test]
fn insert_child_replaces_an_existing_entry() {
    let mut galaxy = Galaxy::new();
    let anchor = galaxy.spawn_object(Object::builder(), root_position(0, 0)).unwrap();
    let mut object = Object {
        parent: Parent::Position(Position::new(3, 4).unwrap()),
        children: Vec::new(),
        mass: 1,
        name: "Bare",
        kind: ObjectKind::Body(Body { composition: Composition::default(), radius: 1 }),
    };
    object.insert_child(anchor, Relation::Orbit(100));
    assert_eq!(object.children_count(), 1);
    object.insert_child(anchor, Relation::Orbit(250));
    assert_eq!(object.children_count(), 1);
    assert_eq!(object.get_child(anchor), Some(&Relation::Orbit(250)));
}

#[test]
fn maneuvers_follow_the_builder() {
    let mut galaxy = Galaxy::new();
    let nimble = galaxy
        .spawn_object(Object::builder().name("Tug").maneuver(Maneuver), root_position(2, 2))
        .unwrap();
    let inert = galaxy.spawn_object(Object::builder().name("Rock"), root_position(4, 4)).unwrap();
    assert_eq!(galaxy.get_maneuver(nimble), Some(&Maneuver));
    assert!(galaxy.get_maneuver(inert).is_none());
}

#[test]
fn box_lookup_finds_exactly_the_roots_inside() {
    let mut galaxy = Galaxy::new();
    let near = galaxy.spawn_object(Object::builder().name("Near"), root_position(10, 10)).unwrap();
    let edge = galaxy.spawn_object(Object::builder().name("Edge"), root_position(50, 50)).unwrap();
    let far = galaxy.spawn_object(Object::builder().name("Far"), root_position(900, 900)).unwrap();
    let moon = galaxy
        .spawn_object(
            Object::builder().name("Moon"),
            ParentBuilder::Relation(near, Relation::Orbit(5)),
        )
        .unwrap();
    assert_eq!(galaxy.spatial_count(), 3);

    // corners in either order, boundary included, orbiters never listed
    let mut found = galaxy.objects_in_box(
        Position::new(50, 50).unwrap(),
        Position::new(0, 0).unwrap(),
    );
    found.sort_by_key(|h| format!("{:?}", h));
    let mut expected = vec![near, edge];
    expected.sort_by_key(|h| format!("{:?}", h));
    assert_eq!(found, expected);

    let nothing = galaxy.objects_in_box(
        Position::new(-100, -100).unwrap(),
        Position::new(-1, -1).unwrap(),
    );
    assert!(nothing.is_empty());

    let all = galaxy.objects_in_box(
        Position::new(-1_000, -1_000).unwrap(),
        Position::new(1_000, 1_000).unwrap(),
    );
    assert_eq!(all.len(), 3);
    assert!(all.contains(&near) && all.contains(&edge) && all.contains(&far));
    assert!(!all.contains(&moon));
}

#[test]
fn resolve_chain_of_a_root_is_empty() {
    let mut galaxy = Galaxy::new();
    let sun = galaxy.spawn_object(Object::builder().name("Sun"), root_position(0, 0)).unwrap();
    assert!(galaxy.resolve_chain(sun).is_empty());
}

#[test]
fn positions_beyond_the_coordinate_limit_are_rejected() {
    assert!(Position::new(100_000_000, -100_000_000).is_some());
    assert!(Position::new(100_000_001, 0).is_none());
    assert!(Position::new(0, -100_000_001).is_none());
    let position = Position::new(-7, 12).unwrap();
    assert_eq!(position.x(), -7);
    assert_eq!(position.y(), 12);
}
