use scene_layout::entity::{Entity, Position};
use scene_layout::error::PlacementError;
use scene_layout::facts::{Fact, Term};
use scene_layout::geometry::BoundingBox;
use scene_layout::placement::{apply, first_malformed};
use scene_layout::registry::Registry;

fn at(id: &str, x: i32, y: i32, z: i32) -> Fact {
    Fact::new("at", vec![Term::symbolic(id), Term::number(x), Term::number(y), Term::number(z)])
}

fn registry_of(entries: &[(&str, u32)]) -> Registry {
    let mut r = Registry::new();
    for (name, suffix) in entries {
        r.add_entity(Entity::with_suffix(name.to_string(), *suffix, BoundingBox::unit()));
    }
    r
}

fn origin() -> Position {
    Position { x: 0, y: 0, z: 0 }
}

#[test]
fn an_atom_places_its_entity_with_second_and_third_coordinate_exchanged() {
    let mut r = registry_of(&[("a", 1)]);
    assert_eq!(apply(&vec![at("a1", 2, 3, 4)], &mut r), Ok(()));
    assert_eq!(r.entity(0).position(), Position { x: 2, y: 4, z: 3 });
}

#[test]
fn an_entity_that_no_atom_names_stays_at_the_origin() {
    let mut r = registry_of(&[("a", 1), ("b", 2), ("c", 3)]);
    assert_eq!(apply(&vec![at("a1", 2, 3, 4), at("c3", -1, 0, 9)], &mut r), Ok(()));
    assert_eq!(r.entity(0).position(), Position { x: 2, y: 4, z: 3 });
    assert_eq!(r.entity(1).position(), origin());
    assert_eq!(r.entity(2).position(), Position { x: -1, y: 9, z: 0 });
}

#[test]
fn an_atom_for_an_unknown_id_moves_nothing() {
    let mut r = registry_of(&[("a", 1)]);
    assert_eq!(apply(&vec![at("a", 2, 3, 4), at("a11", 2, 3, 4)], &mut r), Ok(()));
    assert_eq!(r.entity(0).position(), origin());
}

#[test]
fn the_last_atom_that_names_an_entity_decides() {
    let mut r = registry_of(&[("a", 1)]);
    let model = vec![at("a1", 1, 1, 1), at("b2", 7, 7, 7), at("a1", 5, 6, 7)];
    assert_eq!(apply(&model, &mut r), Ok(()));
    assert_eq!(r.entity(0).position(), Position { x: 5, y: 7, z: 6 });
}

#[test]
fn entities_that_share_an_id_move_together() {
    let mut r = registry_of(&[("a", 1), ("a", 1)]);
    assert_eq!(apply(&vec![at("a1", 1, 2, 3)], &mut r), Ok(()));
    assert_eq!(r.entity(0).position(), Position { x: 1, y: 3, z: 2 });
    assert_eq!(r.entity(1).position(), Position { x: 1, y: 3, z: 2 });
}

#[test]
fn an_empty_model_moves_nothing() {
    let mut r = registry_of(&[("a", 1)]);
    assert_eq!(apply(&vec![at("a1", 9, 8, 7)], &mut r), Ok(()));
    assert_eq!(apply(&Vec::new(), &mut r), Ok(()));
    assert_eq!(r.entity(0).position(), Position { x: 9, y: 7, z: 8 });
}

#[test]
fn a_numeric_first_argument_is_read_as_its_numeral() {
    let mut r = Registry::new();
    r.add_entity(Entity::with_suffix(String::new(), 42, BoundingBox::unit()));
    let atom = Fact::new(
        "at",
        vec![Term::number(42), Term::number(1), Term::number(2), Term::number(3)],
    );
    assert_eq!(apply(&vec![atom], &mut r), Ok(()));
    assert_eq!(r.entity(0).position(), Position { x: 1, y: 3, z: 2 });
}

#[test]
fn an_atom_of_another_arity_is_an_error_and_nothing_moves() {
    let mut r = registry_of(&[("a", 1)]);
    let short = Fact::new("at", vec![Term::symbolic("a1"), Term::number(1), Term::number(2)]);
    let model = vec![at("a1", 2, 3, 4), short];
    assert_eq!(apply(&model, &mut r), Err(PlacementError::MalformedModelAtom { atom: 1 }));
    assert_eq!(r.entity(0).position(), origin());
}

#[test]
fn an_atom_of_five_or_no_arguments_is_an_error() {
    let mut r = registry_of(&[("a", 1)]);
    let long = Fact::new(
        "at",
        vec![
            Term::symbolic("a1"),
            Term::number(1),
            Term::number(2),
            Term::number(3),
            Term::number(4),
        ],
    );
    assert_eq!(apply(&vec![long], &mut r), Err(PlacementError::MalformedModelAtom { atom: 0 }));
    let none = Fact::new("done", Vec::new());
    assert_eq!(apply(&vec![none], &mut r), Err(PlacementError::MalformedModelAtom { atom: 0 }));
}

#[test]
fn a_coordinate_that_is_no_number_is_an_error() {
    let mut r = registry_of(&[("a", 1)]);
    let atom = Fact::new(
        "at",
        vec![Term::symbolic("a1"), Term::number(1), Term::symbolic("up"), Term::number(3)],
    );
    let model = vec![atom, at("a1", 1, 2, 3)];
    assert_eq!(apply(&model, &mut r), Err(PlacementError::MalformedModelAtom { atom: 0 }));
    assert_eq!(r.entity(0).position(), origin());
}

#[test]
fn first_malformed_finds_the_first_atom_that_is_no_placement() {
    assert_eq!(first_malformed(&vec![at("a", 1, 2, 3), at("b", 1, 2, 3)]), None);
    assert_eq!(first_malformed(&Vec::new()), None);
    let bad = Fact::new("x", vec![Term::symbolic("a")]);
    assert_eq!(first_malformed(&vec![at("a", 1, 2, 3), bad, Fact::new("y", Vec::new())]), Some(1));
}

#[test]
fn placing_moves_the_named_entity_only_and_changes_nothing_else_of_it() {
    let mut r = registry_of(&[("a", 1), ("b", 2)]);
    assert_eq!(apply(&vec![at("b2", 4, 5, 6)], &mut r), Ok(()));
    assert_eq!(r.len(), 2);
    assert_eq!(r.entity(0).position(), origin());
    assert_eq!(r.entity(1).position(), Position { x: 4, y: 6, z: 5 });
    assert_eq!(r.entity(1).id(), "b2");
    assert_eq!(r.entity(1).name(), "b");
    assert_eq!(r.entity(1).bounding_box(), BoundingBox::unit());
}

#[test]
fn extreme_coordinates_are_kept() {
    let mut r = registry_of(&[("a", 1)]);
    assert_eq!(apply(&vec![at("a1", i32::MIN, i32::MAX, -1)], &mut r), Ok(()));
    assert_eq!(r.entity(0).position(), Position { x: i32::MIN, y: -1, z: i32::MAX });
}
