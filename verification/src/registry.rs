//! The names that a script asked for, and the entities made of them.
use crate::entity::{fresh_entity, random_suffix, Entity, EntityView, Position};
use crate::error::PlacementError;
use crate::geometry::{first_mesh_box, spec_first_mesh_box, BoundingBox, Point3};
use vstd::prelude::*;
use vstd::string::*;

verus! {

/// The names that wait to be made into entities, in the order in which they
/// were registered. Names are only ever appended, and all leave at once.
#[derive(Debug)]
pub struct PendingNames {
    names: Vec<String>,
}

impl View for PendingNames {
    type V = Seq<Seq<char>>;

    closed spec fn view(&self) -> Seq<Seq<char>> {
        Seq::new(self.names@.len(), |i: int| self.names@[i]@)
    }
}

impl PendingNames {
    pub fn new() -> (p: PendingNames)
        ensures
            p@ == Seq::<Seq<char>>::empty(),
    {
        let p = PendingNames { names: Vec::new() };
        assert(p@ =~= Seq::<Seq<char>>::empty());
        p
    }

    /// Appends `name`. No name is turned away here.
    pub fn register(&mut self, name: String)
        ensures
            final(self)@ == old(self)@.push(name@),
    {
        self.names.push(name);
        assert(self@ =~= old(self)@.push(name@));
    }

    pub fn len(&self) -> (n: usize)
        ensures
            n == self@.len(),
    {
        self.names.len()
    }

    pub fn name(&self, i: usize) -> (s: &String)
        requires
            i < self@.len(),
        ensures
            s@ == self@[i as int],
    {
        &self.names[i]
    }

    /// Removes every name.
    pub fn clear(&mut self)
        ensures
            final(self)@ == Seq::<Seq<char>>::empty(),
    {
        self.names.clear();
        assert(self@ =~= Seq::<Seq<char>>::empty());
    }
}

/// The entities of the scene, in the order in which they were made.
/// Entities are only ever appended.
#[derive(Debug)]
pub struct Registry {
    entities: Vec<Entity>,
}

impl View for Registry {
    type V = Seq<EntityView>;

    closed spec fn view(&self) -> Seq<EntityView> {
        Seq::new(self.entities@.len(), |i: int| self.entities@[i]@)
    }
}

/// The bounding box of what was resolved for a name: that of the first
/// sub-mesh of its model. There is none where no model was resolved, or
/// where the model has no sub-mesh.
pub open spec fn model_box(model: Option<Vec<Vec<Point3>>>) -> Option<BoundingBox> {
    match model {
        Some(meshes) => spec_first_mesh_box(meshes@),
        None => None,
    }
}

/// Whether every one of the first `count` names has geometry.
pub open spec fn all_resolved(models: Seq<Option<Vec<Vec<Point3>>>>, count: int) -> bool {
    forall|i: int| 0 <= i < count ==> i < models.len() && model_box(#[trigger] models[i]) is Some
}

/// The entities made of `names`: one for each name, in order, with the
/// bounding box of its model and the id that its suffix gives.
pub open spec fn materialized(
    names: Seq<Seq<char>>,
    models: Seq<Option<Vec<Vec<Point3>>>>,
    suffixes: Seq<u32>,
) -> Seq<EntityView> {
    Seq::new(
        names.len(),
        |i: int| fresh_entity(names[i], suffixes[i] as nat, model_box(models[i])->Some_0),
    )
}

/// The bounding box of what was resolved for a name, if there is one.
pub fn resolved_box(model: &Option<Vec<Vec<Point3>>>) -> (r: Option<BoundingBox>)
    ensures
        r == model_box(*model),
{
    match model {
        Some(meshes) => first_mesh_box(meshes),
        None => None,
    }
}

impl Registry {
    pub fn new() -> (r: Registry)
        ensures
            r@ == Seq::<EntityView>::empty(),
    {
        let r = Registry { entities: Vec::new() };
        assert(r@ =~= Seq::<EntityView>::empty());
        r
    }

    pub fn len(&self) -> (n: usize)
        ensures
            n == self@.len(),
    {
        self.entities.len()
    }

    pub fn entity(&self, i: usize) -> (e: &Entity)
        requires
            i < self@.len(),
        ensures
            e@ == self@[i as int],
    {
        &self.entities[i]
    }

    /// Appends `e`.
    pub fn add_entity(&mut self, e: Entity)
        ensures
            final(self)@ == old(self)@.push(e@),
    {
        self.entities.push(e);
        assert(self@ =~= old(self)@.push(e@));
    }

    /// Moves the entity at `i`; nothing else changes.
    pub(crate) fn set_position(&mut self, i: usize, position: Position)
        requires
            i < old(self)@.len(),
        ensures
            final(self)@ == old(self)@.update(
                i as int,
                (EntityView { position, ..old(self)@[i as int] }),
            ),
    {
        self.entities[i].set_position(position);
        assert(self@ =~= old(self)@.update(
            i as int,
            (EntityView { position, ..old(self)@[i as int] }),
        ));
    }

    /// The first pending name without geometry, if there is one.
    pub fn first_unresolved(pending: &PendingNames, models: &Vec<Option<Vec<Vec<Point3>>>>) -> (r:
        Option<usize>)
        ensures
            r is None <==> all_resolved(models@, pending@.len() as int),
            r matches Some(index) ==> {
                &&& index < pending@.len()
                &&& all_resolved(models@, index as int)
                &&& (index >= models@.len() || model_box(models@[index as int]) is None)
            },
    {
        let mut i: usize = 0;
        while i < pending.len()
            invariant
                i <= pending@.len(),
                all_resolved(models@, i as int),
            decreases pending@.len() - i,
        {
            if i >= models.len() {
                return Some(i);
            }
            if resolved_box(&models[i]).is_none() {
                return Some(i);
            }
            i = i + 1;
        }
        None
    }

    /// Makes an entity of every pending name, in the order of registration,
    /// with `suffixes` for the ids, then clears the pending names. Each
    /// entity gets the bounding box of the first sub-mesh of its model.
    ///
    /// Where a name has no model, or a model without a sub-mesh, nothing is
    /// made at all: the registry and the pending names stay as they were.
    pub fn materialize_with(
        &mut self,
        pending: &mut PendingNames,
        models: &Vec<Option<Vec<Vec<Point3>>>>,
        suffixes: &Vec<u32>,
    ) -> (r: Result<(), PlacementError>)
        requires
            suffixes@.len() == old(pending)@.len(),
        ensures
            r is Ok <==> all_resolved(models@, old(pending)@.len() as int),
            r is Ok ==> {
                &&& final(self)@ == old(self)@ + materialized(old(pending)@, models@, suffixes@)
                &&& final(pending)@ == Seq::<Seq<char>>::empty()
            },
            r matches Err(e) ==> {
                &&& final(self)@ == old(self)@
                &&& final(pending)@ == old(pending)@
                &&& e matches PlacementError::AssetResolution { index }
                &&& index < old(pending)@.len()
                &&& all_resolved(models@, index as int)
                &&& (index >= models@.len() || model_box(models@[index as int]) is None)
            },
    {
        match Self::first_unresolved(pending, models) {
            Some(index) => {
                return Err(PlacementError::AssetResolution { index });
            },
            None => {},
        }
        let ghost made = materialized(pending@, models@, suffixes@);
        let mut i: usize = 0;
        while i < pending.len()
            invariant
                i <= pending@.len(),
                pending@ == old(pending)@,
                suffixes@.len() == pending@.len(),
                all_resolved(models@, pending@.len() as int),
                made == materialized(pending@, models@, suffixes@),
                self@ == old(self)@ + made.take(i as int),
            decreases pending@.len() - i,
        {
            let name: String = pending.name(i).clone();
            assert(model_box(models@[i as int]) is Some);
            let bounding_box: BoundingBox = match resolved_box(&models[i]) {
                Some(b) => b,
                None => BoundingBox::empty(),
            };
            let e = Entity::with_suffix(name, suffixes[i], bounding_box);
            assert(e@ == made[i as int]);
            self.add_entity(e);
            assert(self@ =~= old(self)@ + made.take(i + 1));
            i = i + 1;
        }
        assert(made.take(i as int) =~= made);
        pending.clear();
        Ok(())
    }

    /// Makes an entity of every pending name, in the order of registration,
    /// each with an id that ends in a random number, then clears the pending
    /// names. Each entity gets the bounding box of the first sub-mesh of its
    /// model.
    ///
    /// Where a name has no model, or a model without a sub-mesh, nothing is
    /// made at all: the registry and the pending names stay as they were.
    pub fn materialize_all(
        &mut self,
        pending: &mut PendingNames,
        models: &Vec<Option<Vec<Vec<Point3>>>>,
    ) -> (r: Result<(), PlacementError>)
        ensures
            r is Ok <==> all_resolved(models@, old(pending)@.len() as int),
            r is Ok ==> {
                &&& exists|suffixes: Seq<u32>|
                    suffixes.len() == old(pending)@.len() && final(self)@ == old(self)@
                        + materialized(old(pending)@, models@, suffixes)
                &&& final(pending)@ == Seq::<Seq<char>>::empty()
            },
            r matches Err(e) ==> {
                &&& final(self)@ == old(self)@
                &&& final(pending)@ == old(pending)@
                &&& e matches PlacementError::AssetResolution { index }
                &&& index < old(pending)@.len()
                &&& all_resolved(models@, index as int)
                &&& (index >= models@.len() || model_box(models@[index as int]) is None)
            },
    {
        let mut suffixes: Vec<u32> = Vec::new();
        let mut i: usize = 0;
        while i < pending.len()
            invariant
                i <= pending@.len(),
                suffixes@.len() == i,
            decreases pending@.len() - i,
        {
            suffixes.push(random_suffix());
            i = i + 1;
        }
        self.materialize_with(pending, models, &suffixes)
    }
}

} // verus!
