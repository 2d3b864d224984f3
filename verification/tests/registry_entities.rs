use scene_layout::entity::{Entity, Position};
use scene_layout::error::PlacementError;
use scene_layout::geometry::{BoundingBox, Cells, Point3};
use scene_layout::registry::{resolved_box, PendingNames, Registry};

fn p(x: f32, y: f32, z: f32) -> Point3 {
    Point3::from_bits(x.to_bits(), y.to_bits(), z.to_bits())
}

fn cube(side: f32) -> Vec<Point3> {
    vec![
        p(0.0, 0.0, 0.0),
        p(side, 0.0, 0.0),
        p(0.0, side, 0.0),
        p(0.0, 0.0, side),
        p(side, side, side),
    ]
}

fn model(side: f32) -> Option<Vec<Vec<Point3>>> {
    Some(vec![cube(side)])
}

fn pending(names: &[&str]) -> PendingNames {
    let mut q = PendingNames::new();
    for n in names {
        q.register(n.to_string());
    }
    q
}

#[test]
fn names_are_kept_in_the_order_of_registration() {
    let q = pending(&["chair", "table", "chair"]);
    assert_eq!(q.len(), 3);
    assert_eq!(q.name(0), "chair");
    assert_eq!(q.name(1), "table");
    assert_eq!(q.name(2), "chair");
}

#[test]
fn any_name_can_be_registered() {
    let q = pending(&["", "Not A Constant", "x-1"]);
    assert_eq!(q.len(), 3);
    assert_eq!(q.name(1), "Not A Constant");
}

#[test]
fn clear_removes_every_name() {
    let mut q = pending(&["a", "b"]);
    q.clear();
    assert_eq!(q.len(), 0);
}

#[test]
fn an_entity_is_made_at_the_origin_with_its_id() {
    let e = Entity::with_suffix("chair".to_string(), 1234, BoundingBox::unit());
    assert_eq!(e.name(), "chair");
    assert_eq!(e.id(), "chair1234");
    assert_eq!(e.suffix(), 1234);
    assert_eq!(e.position(), Position { x: 0, y: 0, z: 0 });
    assert_eq!(e.bounding_box(), BoundingBox::unit());
    assert_eq!(e.scale().to_bits(), 0.0f32.to_bits());
    assert_eq!(e.cells(), Cells { x: 1, y: 1, z: 1 });
}

#[test]
fn an_entity_with_a_random_suffix_starts_with_its_name() {
    let e = Entity::new("lamp".to_string(), BoundingBox::unit());
    assert_eq!(e.name(), "lamp");
    assert!(e.id().starts_with("lamp"));
    let suffix = &e.id()["lamp".len()..];
    assert!(!suffix.is_empty());
    assert!(suffix.chars().all(|c| c.is_ascii_digit()));
    assert_eq!(format!("{}", suffix.parse::<u32>().unwrap()), suffix);
    assert_eq!(format!("{}", e.suffix()), suffix);
    assert_eq!(e.position(), Position { x: 0, y: 0, z: 0 });
}

#[test]
fn the_same_name_twice_gives_two_ids() {
    let mut registry = Registry::new();
    let mut q = pending(&["chair", "chair"]);
    let meshes = vec![model(1.0), model(1.0)];
    assert_eq!(registry.materialize_all(&mut q, &meshes), Ok(()));
    assert_eq!(registry.len(), 2);
    assert_eq!(registry.entity(0).name(), registry.entity(1).name());
    assert_ne!(registry.entity(0).id(), registry.entity(1).id());
}

#[test]
fn different_suffixes_give_different_ids() {
    let a = Entity::with_suffix("chair".to_string(), 1, BoundingBox::unit());
    let b = Entity::with_suffix("chair".to_string(), 10, BoundingBox::unit());
    let c = Entity::with_suffix("chair1".to_string(), 0, BoundingBox::unit());
    assert_ne!(a.id(), b.id());
    assert_eq!(b.id(), c.id());
}

#[test]
fn materializing_makes_one_entity_per_name_in_order() {
    let mut registry = Registry::new();
    registry.add_entity(Entity::with_suffix("floor".to_string(), 0, BoundingBox::unit()));
    let mut q = pending(&["chair", "table"]);
    let meshes = vec![model(2.0), model(0.5)];
    let r = registry.materialize_with(&mut q, &meshes, &vec![7, 4294967295]);
    assert_eq!(r, Ok(()));
    assert_eq!(q.len(), 0);
    assert_eq!(registry.len(), 3);
    assert_eq!(registry.entity(0).id(), "floor0");
    assert_eq!(registry.entity(1).name(), "chair");
    assert_eq!(registry.entity(1).id(), "chair7");
    assert_eq!(registry.entity(1).cells(), Cells { x: 2, y: 2, z: 2 });
    assert_eq!(registry.entity(2).name(), "table");
    assert_eq!(registry.entity(2).id(), "table4294967295");
    assert_eq!(registry.entity(2).cells(), Cells { x: 1, y: 1, z: 1 });
    assert_eq!(registry.entity(2).position(), Position { x: 0, y: 0, z: 0 });
}

#[test]
fn materialized_entities_carry_the_box_of_their_mesh() {
    let mut registry = Registry::new();
    let mut q = pending(&["shelf"]);
    let mesh = vec![p(-1.0, 0.0, 2.0), p(3.0, 0.25, 9.5)];
    assert_eq!(registry.materialize_with(&mut q, &vec![Some(vec![mesh])], &vec![1]), Ok(()));
    let b = registry.entity(0).bounding_box();
    assert_eq!(b, BoundingBox::new(p(-1.0, 0.0, 2.0), p(3.0, 0.25, 9.5)));
    assert_eq!(registry.entity(0).cells(), Cells { x: 4, y: 1, z: 7 });
}

#[test]
fn an_empty_mesh_gives_an_entity_with_the_inverted_box() {
    let mut registry = Registry::new();
    let mut q = pending(&["ghost"]);
    assert_eq!(registry.materialize_with(&mut q, &vec![Some(vec![Vec::new()])], &vec![3]), Ok(()));
    assert_eq!(registry.entity(0).bounding_box(), BoundingBox::empty());
    assert_eq!(registry.entity(0).cells(), Cells { x: 1, y: 1, z: 1 });
}

#[test]
fn a_name_without_geometry_stops_everything() {
    let mut registry = Registry::new();
    registry.add_entity(Entity::with_suffix("floor".to_string(), 0, BoundingBox::unit()));
    let mut q = pending(&["chair", "table", "lamp"]);
    let meshes = vec![model(1.0), None, model(1.0)];
    let r = registry.materialize_with(&mut q, &meshes, &vec![1, 2, 3]);
    assert_eq!(r, Err(PlacementError::AssetResolution { index: 1 }));
    assert_eq!(registry.len(), 1);
    assert_eq!(q.len(), 3);
    assert_eq!(q.name(0), "chair");
}

#[test]
fn too_few_meshes_count_as_missing_geometry() {
    let mut registry = Registry::new();
    let mut q = pending(&["chair", "table"]);
    let r = registry.materialize_all(&mut q, &vec![model(1.0)]);
    assert_eq!(r, Err(PlacementError::AssetResolution { index: 1 }));
    assert_eq!(registry.len(), 0);
    assert_eq!(q.len(), 2);
}

#[test]
fn first_unresolved_finds_the_first_gap() {
    let q = pending(&["a", "b", "c"]);
    let all = vec![model(1.0), model(1.0), model(1.0)];
    assert_eq!(Registry::first_unresolved(&q, &all), None);
    let gap = vec![None, None, model(1.0)];
    assert_eq!(Registry::first_unresolved(&q, &gap), Some(0));
    assert_eq!(Registry::first_unresolved(&PendingNames::new(), &Vec::new()), None);
}

#[test]
fn nothing_pending_makes_nothing() {
    let mut registry = Registry::new();
    let mut q = PendingNames::new();
    assert_eq!(registry.materialize_all(&mut q, &Vec::new()), Ok(()));
    assert_eq!(registry.len(), 0);
}

#[test]
fn a_model_without_a_sub_mesh_has_no_geometry() {
    let mut registry = Registry::new();
    let mut q = pending(&["chair", "table"]);
    let models = vec![model(1.0), Some(Vec::new())];
    let r = registry.materialize_with(&mut q, &models, &vec![1, 2]);
    assert_eq!(r, Err(PlacementError::AssetResolution { index: 1 }));
    assert_eq!(registry.len(), 0);
    assert_eq!(q.len(), 2);
    assert_eq!(Registry::first_unresolved(&q, &models), Some(1));
}

#[test]
fn only_the_first_sub_mesh_of_a_model_is_measured() {
    let mut registry = Registry::new();
    let mut q = pending(&["chair"]);
    let models = vec![Some(vec![cube(2.0), cube(9.0)])];
    assert_eq!(registry.materialize_with(&mut q, &models, &vec![1]), Ok(()));
    assert_eq!(registry.entity(0).cells(), Cells { x: 2, y: 2, z: 2 });
}

#[test]
fn the_box_of_what_was_resolved() {
    assert_eq!(resolved_box(&None), None);
    assert_eq!(resolved_box(&Some(Vec::new())), None);
    assert_eq!(resolved_box(&Some(vec![Vec::new()])), Some(BoundingBox::empty()));
    let b = resolved_box(&model(3.0)).unwrap();
    assert_eq!(b, BoundingBox::new(p(0.0, 0.0, 0.0), p(3.0, 3.0, 3.0)));
}
