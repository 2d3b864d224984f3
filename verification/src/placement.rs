//! Writing a model of the solver back onto the entities.
use crate::entity::{EntityView, Position};
use crate::error::PlacementError;
use crate::facts::{facts_view, Fact, FactView, Term, TermView};
use crate::registry::Registry;
use crate::text::{decimal, decimal_of_i32};
use vstd::prelude::*;
use vstd::string::*;

verus! {

/// Whether a shown atom is a placement: a tuple `(id, x, y, z)` of exactly
/// four arguments, the last three of them numbers.
pub open spec fn is_placement(atom: FactView) -> bool {
    &&& atom.args.len() == 4
    &&& atom.args[1] is Number
    &&& atom.args[2] is Number
    &&& atom.args[3] is Number
}

/// Whether every one of the first `count` atoms is a placement.
pub open spec fn all_placements(atoms: Seq<FactView>, count: int) -> bool {
    forall|k: int| 0 <= k < count ==> is_placement(#[trigger] atoms[k])
}

/// A term as it is written: a number by its decimal numeral.
pub open spec fn term_text(t: TermView) -> Seq<char> {
    match t {
        TermView::Symbolic(s) => s,
        TermView::Number(n) => decimal(n as int),
    }
}

/// Whether a placement speaks of the entity with this id.
pub open spec fn names(atom: FactView, id: Seq<char>) -> bool {
    term_text(atom.args[0]) == id
}

/// Where a placement `(id, x, y, z)` puts its entity: at `(x, z, y)`. The
/// solver counts its third coordinate upwards, the render frame its second.
pub open spec fn remap(atom: FactView) -> Position {
    Position {
        x: atom.args[1]->Number_0,
        y: atom.args[3]->Number_0,
        z: atom.args[2]->Number_0,
    }
}

/// Where the entity with this id stands once the atoms are applied in
/// order: where the last atom that names it puts it, or at `start` where
/// none names it.
pub open spec fn resolved(atoms: Seq<FactView>, id: Seq<char>, start: Position) -> Position
    decreases atoms.len(),
{
    if atoms.len() == 0 {
        start
    } else if names(atoms.last(), id) {
        remap(atoms.last())
    } else {
        resolved(atoms.drop_last(), id, start)
    }
}

/// The entities once the atoms are applied: each moved to where the atoms
/// put it, otherwise as it was.
pub open spec fn placed(entities: Seq<EntityView>, atoms: Seq<FactView>) -> Seq<EntityView> {
    Seq::new(
        entities.len(),
        |i: int|
            EntityView {
                position: resolved(atoms, entities[i].id(), entities[i].position),
                ..entities[i]
            },
    )
}

/// The first atom that is no placement, where there is one.
pub open spec fn first_misplaced(atoms: Seq<FactView>) -> int {
    choose|k: int| 0 <= k < atoms.len() && all_placements(atoms, k) && !is_placement(atoms[k])
}

/// What applying a model yields: the entities as the atoms place them, or
/// the first atom that is no placement.
pub open spec fn placing(entities: Seq<EntityView>, atoms: Seq<FactView>) -> Result<
    Seq<EntityView>,
    PlacementError,
> {
    if all_placements(atoms, atoms.len() as int) {
        Ok(placed(entities, atoms))
    } else {
        Err(PlacementError::MalformedModelAtom { atom: first_misplaced(atoms) as usize })
    }
}

/// The first atom that is no placement is the one before which all are.
pub proof fn lemma_first_misplaced(atoms: Seq<FactView>, k: int)
    requires
        0 <= k < atoms.len(),
        all_placements(atoms, k),
        !is_placement(atoms[k]),
    ensures
        first_misplaced(atoms) == k,
        !all_placements(atoms, atoms.len() as int),
{
    let j = first_misplaced(atoms);
    if j < k {
        assert(is_placement(atoms[j]));
    } else if k < j {
        assert(is_placement(atoms[k]));
    }
}

/// The first atom of the model that is no placement, if there is one.
pub fn first_malformed(model: &Vec<Fact>) -> (r: Option<usize>)
    ensures
        r is None <==> all_placements(facts_view(model@), model@.len() as int),
        r matches Some(atom) ==> {
            &&& atom < model@.len()
            &&& all_placements(facts_view(model@), atom as int)
            &&& !is_placement(model@[atom as int]@)
        },
{
    let mut k: usize = 0;
    while k < model.len()
        invariant
            k <= model@.len(),
            all_placements(facts_view(model@), k as int),
        decreases model@.len() - k,
    {
        let atom = &model[k];
        let mut well_formed: bool = atom.args.len() == 4;
        if well_formed {
            let x: bool = match &atom.args[1] {
                Term::Number(_) => true,
                Term::Symbolic(_) => false,
            };
            let y: bool = match &atom.args[2] {
                Term::Number(_) => true,
                Term::Symbolic(_) => false,
            };
            let z: bool = match &atom.args[3] {
                Term::Number(_) => true,
                Term::Symbolic(_) => false,
            };
            well_formed = x && y && z;
        }
        assert(well_formed == is_placement(atom@));
        if !well_formed {
            assert(facts_view(model@)[k as int] == atom@);
            return Some(k);
        }
        k = k + 1;
    }
    None
}

/// Whether a placement speaks of the entity with this id.
fn atom_names(atom: &Fact, id: &String) -> (r: bool)
    requires
        atom@.args.len() >= 1,
    ensures
        r == names(atom@, id@),
{
    match &atom.args[0] {
        Term::Symbolic(s) => *s == *id,
        Term::Number(n) => decimal_of_i32(*n) == *id,
    }
}

/// The number that a term holds, or zero where it holds none.
fn term_number(t: &Term) -> (n: i32)
    ensures
        t@ is Number ==> n == t@->Number_0,
{
    match t {
        Term::Number(n) => *n,
        Term::Symbolic(_) => 0,
    }
}

/// Applies a model to the registry: every entity that a shown atom
/// `(id, x, y, z)` names by its id is moved to `(x, z, y)`; where several
/// atoms name it the last one decides; an entity that no atom names stays
/// where it is.
///
/// Where any atom of the model is no placement the model is turned down as
/// a whole and no entity moves.
pub fn apply(model: &Vec<Fact>, registry: &mut Registry) -> (r: Result<(), PlacementError>)
    ensures
        match r {
            Ok(_) => placing(old(registry)@, facts_view(model@)) == Ok::<
                Seq<EntityView>,
                PlacementError,
            >(final(registry)@),
            Err(e) => placing(old(registry)@, facts_view(model@)) == Err::<
                Seq<EntityView>,
                PlacementError,
            >(e),
        },
        r is Ok <==> all_placements(facts_view(model@), model@.len() as int),
        r is Ok ==> final(registry)@ == placed(old(registry)@, facts_view(model@)),
        r matches Err(e) ==> {
            &&& final(registry)@ == old(registry)@
            &&& e matches PlacementError::MalformedModelAtom { atom }
            &&& atom < model@.len()
            &&& all_placements(facts_view(model@), atom as int)
            &&& !is_placement(model@[atom as int]@)
        },
{
    match first_malformed(model) {
        Some(atom) => {
            proof {
                lemma_first_misplaced(facts_view(model@), atom as int);
            }
            return Err(PlacementError::MalformedModelAtom { atom });
        },
        None => {},
    }
    let ghost atoms = facts_view(model@);
    let ghost before = registry@;
    let ghost after = placed(before, atoms);
    let mut i: usize = 0;
    while i < registry.len()
        invariant
            i <= registry@.len(),
            registry@.len() == before.len(),
            atoms == facts_view(model@),
            after == placed(before, atoms),
            all_placements(atoms, model@.len() as int),
            forall|j: int| 0 <= j < i ==> registry@[j] == after[j],
            forall|j: int| i <= j < before.len() ==> registry@[j] == before[j],
        decreases registry@.len() - i,
    {
        let e = registry.entity(i);
        let mut position: Position = e.position();
        let mut k: usize = 0;
        while k < model.len()
            invariant
                k <= model@.len(),
                atoms == facts_view(model@),
                all_placements(atoms, model@.len() as int),
                e@ == before[i as int],
                position == resolved(atoms.take(k as int), e@.id(), e@.position),
            decreases model@.len() - k,
        {
            let atom = &model[k];
            proof {
                let next = atoms.take(k + 1);
                assert(next.drop_last() =~= atoms.take(k as int));
                assert(next.last() == atom@);
                assert(is_placement(atoms[k as int]));
            }
            if atom_names(atom, e.id()) {
                position = Position {
                    x: term_number(&atom.args[1]),
                    y: term_number(&atom.args[3]),
                    z: term_number(&atom.args[2]),
                };
            }
            k = k + 1;
        }
        assert(atoms.take(k as int) =~= atoms);
        registry.set_position(i, position);
        i = i + 1;
    }
    assert(registry@ =~= after);
    Ok(())
}

/// An entity that no atom names stays where it is.
pub proof fn lemma_unnamed_stays(atoms: Seq<FactView>, id: Seq<char>, start: Position)
    requires
        forall|k: int| 0 <= k < atoms.len() ==> !names(#[trigger] atoms[k], id),
    ensures
        resolved(atoms, id, start) == start,
    decreases atoms.len(),
{
    if atoms.len() > 0 {
        assert(!names(atoms[atoms.len() - 1], id));
        lemma_unnamed_stays(atoms.drop_last(), id, start);
    }
}

/// An entity stands where the last atom that names it puts it, with the
/// solver's second and third coordinate exchanged.
pub proof fn lemma_last_naming_atom_decides(
    atoms: Seq<FactView>,
    id: Seq<char>,
    start: Position,
    k: int,
)
    requires
        0 <= k < atoms.len(),
        names(atoms[k], id),
        forall|j: int| k < j < atoms.len() ==> !names(#[trigger] atoms[j], id),
    ensures
        resolved(atoms, id, start) == remap(atoms[k]),
    decreases atoms.len(),
{
    if k < atoms.len() - 1 {
        assert(!names(atoms[atoms.len() - 1], id));
        lemma_last_naming_atom_decides(atoms.drop_last(), id, start, k);
    }
}

/// Applying a model changes nothing of an entity but its position, and
/// neither adds nor removes one.
pub proof fn lemma_placing_keeps_entities(entities: Seq<EntityView>, atoms: Seq<FactView>, i: int)
    requires
        0 <= i < entities.len(),
    ensures
        placed(entities, atoms).len() == entities.len(),
        placed(entities, atoms)[i].name == entities[i].name,
        placed(entities, atoms)[i].id() == entities[i].id(),
        placed(entities, atoms)[i].suffix == entities[i].suffix,
        placed(entities, atoms)[i].bounding_box == entities[i].bounding_box,
        placed(entities, atoms)[i].scale == entities[i].scale,
{
}

} // verus!
