//! A named object of the scene.
use crate::geometry::{BoundingBox, Cells};
use crate::scalar::Scalar;
use crate::text::{
    decimal, is_constant, lemma_constant_with_numeral, lemma_decimal_digits_differ,
    push_decimal_digits,
};
use vstd::prelude::*;
use vstd::string::*;

verus! {

/// Where an entity stands, in whole grid units of the render frame.
#[derive(Clone, Copy, Debug, PartialEq, Eq, Structural)]
pub struct Position {
    pub x: i32,
    pub y: i32,
    pub z: i32,
}

/// An object of the scene: what it is called, how it is told apart, where
/// it stands and how large it is.
#[derive(Debug)]
pub struct Entity {
    name: String,
    id: String,
    suffix: u32,
    position: Position,
    bounding_box: BoundingBox,
    scale: Scalar,
}

/// What an entity holds, as plain values. The id is not held: it is made
/// of the name and the suffix.
pub struct EntityView {
    pub name: Seq<char>,
    pub suffix: nat,
    pub position: Position,
    pub bounding_box: BoundingBox,
    pub scale: Scalar,
}

/// The origin.
pub open spec fn origin() -> Position {
    Position { x: 0, y: 0, z: 0 }
}

/// The id of an entity: its name, followed by the decimal numeral of its
/// suffix.
pub open spec fn entity_id(name: Seq<char>, suffix: nat) -> Seq<char> {
    name + decimal(suffix as int)
}

impl EntityView {
    /// The id: the name, followed by the decimal numeral of the suffix.
    pub open spec fn id(self) -> Seq<char> {
        entity_id(self.name, self.suffix)
    }
}

/// An entity as it is made: at the origin, with scale zero.
pub open spec fn fresh_entity(name: Seq<char>, suffix: nat, bounding_box: BoundingBox) -> EntityView {
    EntityView {
        name,
        suffix,
        position: origin(),
        bounding_box,
        scale: Scalar { bits: 0 },
    }
}

impl View for Entity {
    type V = EntityView;

    closed spec fn view(&self) -> EntityView {
        EntityView {
            name: self.name@,
            suffix: self.suffix as nat,
            position: self.position,
            bounding_box: self.bounding_box,
            scale: self.scale,
        }
    }
}

/// `rand::random::<u32>()`: a number drawn from the thread's generator.
/// Nothing is claimed of the number.
#[verifier::external_body]
pub(crate) fn random_suffix() -> (n: u32) {
    rand::random::<u32>()
}

impl Entity {
    /// The id that is held is the one that name and suffix give.
    #[verifier::type_invariant]
    spec fn id_is_made_of_name(self) -> bool {
        self.id@ == entity_id(self.name@, self.suffix as nat)
    }

    /// The entity called `name` whose id ends in the numeral of `suffix`.
    pub fn with_suffix(name: String, suffix: u32, bounding_box: BoundingBox) -> (e: Entity)
        ensures
            e@ == fresh_entity(name@, suffix as nat, bounding_box),
    {
        let mut id = name.clone();
        push_decimal_digits(&mut id, suffix);
        Entity {
            name,
            id,
            suffix,
            position: Position { x: 0, y: 0, z: 0 },
            bounding_box,
            scale: Scalar::zero(),
        }
    }

    /// The entity called `name`, with an id that ends in a random number.
    pub fn new(name: String, bounding_box: BoundingBox) -> (e: Entity)
        ensures
            exists|suffix: u32| e@ == fresh_entity(name@, suffix as nat, bounding_box),
    {
        let suffix: u32 = random_suffix();
        let e = Entity::with_suffix(name, suffix, bounding_box);
        assert(e@ == fresh_entity(name@, suffix as nat, bounding_box));
        e
    }

    pub fn name(&self) -> (s: &String)
        ensures
            s@ == self@.name,
    {
        &self.name
    }

    pub fn id(&self) -> (s: &String)
        ensures
            s@ == self@.id(),
    {
        proof {
            use_type_invariant(self);
        }
        &self.id
    }

    pub fn suffix(&self) -> (n: u32)
        ensures
            n == self@.suffix,
    {
        self.suffix
    }

    pub fn position(&self) -> (p: Position)
        ensures
            p == self@.position,
    {
        self.position
    }

    pub fn bounding_box(&self) -> (b: BoundingBox)
        ensures
            b == self@.bounding_box,
    {
        self.bounding_box
    }

    pub fn scale(&self) -> (s: Scalar)
        ensures
            s == self@.scale,
    {
        self.scale
    }

    /// Moves the entity; nothing else of it changes.
    pub(crate) fn set_position(&mut self, position: Position)
        ensures
            final(self)@ == (EntityView { position, ..old(self)@ }),
    {
        proof {
            use_type_invariant(&*self);
        }
        self.position = position;
    }

    /// The grid cells that the entity takes on each axis.
    pub fn cells(&self) -> (c: Cells)
        ensures
            (c.x as int, c.y as int, c.z as int) == self@.bounding_box.spec_cells(),
            c.x >= 1,
            c.y >= 1,
            c.z >= 1,
    {
        self.bounding_box.cells()
    }
}

/// Two ids made of one name are equal only where their suffixes are: the
/// same name made into an entity twice has two ids as soon as the two
/// numbers drawn differ.
pub proof fn lemma_ids_differ_with_suffixes(name: Seq<char>, a: nat, b: nat)
    ensures
        entity_id(name, a) == entity_id(name, b) <==> a == b,
{
    let x = entity_id(name, a);
    let y = entity_id(name, b);
    if x == y {
        assert(x.subrange(name.len() as int, x.len() as int) =~= decimal(a as int));
        assert(y.subrange(name.len() as int, y.len() as int) =~= decimal(b as int));
        lemma_decimal_digits_differ(a, b);
    }
}

/// Two entities of one name have the same id only where they have the same
/// suffix.
pub proof fn lemma_same_name_same_id(a: EntityView, b: EntityView)
    requires
        a.name == b.name,
    ensures
        a.id() == b.id() <==> a.suffix == b.suffix,
{
    lemma_ids_differ_with_suffixes(a.name, a.suffix, b.suffix);
}

/// The id of an entity whose name is a symbolic constant is one too,
/// whatever its suffix.
pub proof fn lemma_id_of_constant_is_constant(name: Seq<char>, suffix: nat)
    requires
        is_constant(name),
    ensures
        is_constant(entity_id(name, suffix)),
{
    lemma_constant_with_numeral(name, suffix);
}

} // verus!
