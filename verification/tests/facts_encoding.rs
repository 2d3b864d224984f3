use scene_layout::entity::Entity;
use scene_layout::error::PlacementError;
use scene_layout::facts::{encode, listed, same_fact, same_term, Fact, Term};
use scene_layout::geometry::{BoundingBox, Point3};
use scene_layout::registry::Registry;
use std::collections::HashSet;

fn p(x: f32, y: f32, z: f32) -> Point3 {
    Point3::from_bits(x.to_bits(), y.to_bits(), z.to_bits())
}

fn sized(x: f32, y: f32, z: f32) -> BoundingBox {
    BoundingBox::new(p(0.0, 0.0, 0.0), p(x, y, z))
}

fn written(t: &Term) -> String {
    match t {
        Term::Symbolic(s) => s.clone(),
        Term::Number(n) => format!("{}", n),
    }
}

fn text(f: &Fact) -> String {
    let args: Vec<String> = f.args.iter().map(written).collect();
    format!("{}({})", f.predicate, args.join(","))
}

fn registry_of(entries: &[(&str, u32, BoundingBox)]) -> Registry {
    let mut r = Registry::new();
    for (name, suffix, b) in entries {
        r.add_entity(Entity::with_suffix(name.to_string(), *suffix, *b));
    }
    r
}

#[test]
fn each_entity_gives_object_type_and_size() {
    let r = registry_of(&[("chair", 17, sized(2.0, 3.5, 1.0))]);
    let facts = encode(&r).unwrap();
    let texts: Vec<String> = facts.iter().map(text).collect();
    assert_eq!(
        texts,
        vec!["object(chair17)", "type(chair17,chair)", "size(chair17,2,3,1)"]
    );
}

#[test]
fn size_fields_are_clamped_then_cut() {
    let r = registry_of(&[("box", 1, sized(0.3, 5.7, 0.3))]);
    let facts = encode(&r).unwrap();
    assert_eq!(text(&facts[2]), "size(box1,1,5,1)");
}

#[test]
fn size_of_an_inverted_box_is_one_cell_each_way() {
    let r = registry_of(&[("ghost", 5, BoundingBox::empty())]);
    let facts = encode(&r).unwrap();
    assert_eq!(text(&facts[2]), "size(ghost5,1,1,1)");
}

#[test]
fn registry_of_n_entities_gives_three_n_distinct_facts() {
    let mut entries: Vec<(String, u32)> = Vec::new();
    for i in 0..25u32 {
        entries.push((format!("thing{}", i % 4), i));
    }
    let mut r = Registry::new();
    for (name, suffix) in &entries {
        r.add_entity(Entity::with_suffix(name.clone(), *suffix, sized(1.0, 2.0, 3.0)));
    }
    let facts = encode(&r).unwrap();
    assert_eq!(facts.len(), 75);
    let set: HashSet<String> = facts.iter().map(text).collect();
    assert_eq!(set.len(), 75);
}

#[test]
fn empty_registry_gives_no_facts() {
    let facts = encode(&Registry::new()).unwrap();
    assert!(facts.is_empty());
}

#[test]
fn encoding_twice_gives_the_same_facts() {
    let r = registry_of(&[("a", 1, sized(2.0, 2.0, 2.0)), ("b", 2, sized(1.0, 1.0, 1.0))]);
    let first: Vec<String> = encode(&r).unwrap().iter().map(text).collect();
    let second: Vec<String> = encode(&r).unwrap().iter().map(text).collect();
    assert_eq!(first, second);
}

#[test]
fn the_fact_set_does_not_depend_on_the_order_of_entities() {
    let one = registry_of(&[("a", 1, sized(2.0, 2.0, 2.0)), ("b", 2, sized(1.0, 1.0, 1.0))]);
    let other = registry_of(&[("b", 2, sized(1.0, 1.0, 1.0)), ("a", 1, sized(2.0, 2.0, 2.0))]);
    let first: HashSet<String> = encode(&one).unwrap().iter().map(text).collect();
    let second: HashSet<String> = encode(&other).unwrap().iter().map(text).collect();
    assert_eq!(first, second);
}

#[test]
fn a_name_that_is_no_constant_is_turned_down() {
    let r = registry_of(&[
        ("chair", 1, BoundingBox::unit()),
        ("Big Table", 2, BoundingBox::unit()),
        ("", 3, BoundingBox::unit()),
    ]);
    assert_eq!(encode(&r).unwrap_err(), PlacementError::InvalidToken { entity: 1 });
}

#[test]
fn an_empty_name_is_turned_down() {
    let r = registry_of(&[("", 3, BoundingBox::unit())]);
    assert_eq!(encode(&r).unwrap_err(), PlacementError::InvalidToken { entity: 0 });
}

#[test]
fn terms_and_facts_are_built_from_plain_values() {
    let f = Fact::new("at", vec![Term::symbolic("a1"), Term::number(-3)]);
    assert_eq!(text(&f), "at(a1,-3)");
}

#[test]
fn entities_equal_in_id_name_and_box_give_their_facts_once() {
    let r = registry_of(&[("a", 7, sized(2.0, 2.0, 2.0)), ("a", 7, sized(2.0, 2.0, 2.0))]);
    let texts: Vec<String> = encode(&r).unwrap().iter().map(text).collect();
    assert_eq!(texts, vec!["object(a7)", "type(a7,a)", "size(a7,2,2,2)"]);
}

#[test]
fn entities_that_share_an_id_share_only_the_facts_that_are_equal() {
    let r = registry_of(&[
        ("chair", 10, sized(1.0, 1.0, 1.0)),
        ("chair1", 0, sized(1.0, 1.0, 3.0)),
    ]);
    let texts: Vec<String> = encode(&r).unwrap().iter().map(text).collect();
    assert_eq!(
        texts,
        vec![
            "object(chair10)",
            "type(chair10,chair)",
            "size(chair10,1,1,1)",
            "type(chair10,chair1)",
            "size(chair10,1,1,3)"
        ]
    );
}

#[test]
fn no_fact_is_listed_twice_whatever_the_registry() {
    let mut r = Registry::new();
    for i in 0..30u32 {
        let name = format!("thing{}", i % 3);
        r.add_entity(Entity::with_suffix(name, i % 5, sized(1.0, (i % 2 + 1) as f32, 1.0)));
    }
    let facts = encode(&r).unwrap();
    let set: HashSet<String> = facts.iter().map(text).collect();
    assert_eq!(set.len(), facts.len());
    assert!(facts.len() < 90);
    for i in 0..r.len() {
        let e = r.entity(i);
        assert!(set.contains(&format!("object({})", e.id())));
        assert!(set.contains(&format!("type({},{})", e.id(), e.name())));
        let c = e.cells();
        assert!(set.contains(&format!("size({},{},{},{})", e.id(), c.x, c.y, c.z)));
    }
}

#[test]
fn terms_are_the_same_by_kind_and_content() {
    assert!(same_term(&Term::symbolic("a"), &Term::symbolic("a")));
    assert!(!same_term(&Term::symbolic("a"), &Term::symbolic("b")));
    assert!(same_term(&Term::number(3), &Term::number(3)));
    assert!(!same_term(&Term::number(3), &Term::number(4)));
    assert!(!same_term(&Term::symbolic("3"), &Term::number(3)));
    assert!(!same_term(&Term::number(3), &Term::symbolic("3")));
}

#[test]
fn facts_are_the_same_by_predicate_and_arguments() {
    let f = Fact::new("at", vec![Term::symbolic("a"), Term::number(1)]);
    assert!(same_fact(&f, &Fact::new("at", vec![Term::symbolic("a"), Term::number(1)])));
    assert!(!same_fact(&f, &Fact::new("on", vec![Term::symbolic("a"), Term::number(1)])));
    assert!(!same_fact(&f, &Fact::new("at", vec![Term::symbolic("a"), Term::number(2)])));
    assert!(!same_fact(&f, &Fact::new("at", vec![Term::symbolic("a")])));
    assert!(!same_fact(&f, &Fact::new("at", vec![Term::number(1), Term::symbolic("a")])));
    assert!(same_fact(&Fact::new("p", Vec::new()), &Fact::new("p", Vec::new())));
}

#[test]
fn a_fact_is_listed_where_one_like_it_is_in_the_list() {
    let list = vec![
        Fact::new("object", vec![Term::symbolic("a")]),
        Fact::new("size", vec![Term::symbolic("a"), Term::number(1)]),
    ];
    assert!(listed(&list, &Fact::new("size", vec![Term::symbolic("a"), Term::number(1)])));
    assert!(!listed(&list, &Fact::new("object", vec![Term::symbolic("b")])));
    assert!(!listed(&Vec::new(), &Fact::new("object", vec![Term::symbolic("a")])));
}
