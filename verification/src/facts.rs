//! Facts, and the encoding of the registry as facts.
use crate::entity::{lemma_id_of_constant_is_constant, Entity, EntityView};
use crate::error::PlacementError;
use crate::registry::Registry;
use crate::text::{check_constant, is_constant};
use vstd::prelude::*;
use vstd::string::*;

verus! {

/// An argument of a fact: a number, or any other symbol by its written form.
#[derive(Debug)]
pub enum Term {
    Symbolic(String),
    Number(i32),
}

/// A term, as plain values.
pub enum TermView {
    Symbolic(Seq<char>),
    Number(i32),
}

impl View for Term {
    type V = TermView;

    open spec fn view(&self) -> TermView {
        match self {
            Term::Symbolic(s) => TermView::Symbolic(s@),
            Term::Number(n) => TermView::Number(*n),
        }
    }
}

/// A ground atom: a predicate and its arguments. The facts handed to the
/// solver and the shown atoms of a model are both of this form.
#[derive(Debug)]
pub struct Fact {
    pub predicate: String,
    pub args: Vec<Term>,
}

/// A fact, as plain values.
pub struct FactView {
    pub predicate: Seq<char>,
    pub args: Seq<TermView>,
}

impl View for Fact {
    type V = FactView;

    open spec fn view(&self) -> FactView {
        FactView {
            predicate: self.predicate@,
            args: Seq::new(self.args@.len(), |i: int| self.args@[i]@),
        }
    }
}

/// The facts of a vector, as plain values.
pub open spec fn facts_view(facts: Seq<Fact>) -> Seq<FactView> {
    Seq::new(facts.len(), |i: int| facts[i]@)
}

/// `object(id)`: the entity exists.
pub open spec fn object_fact(e: EntityView) -> FactView {
    FactView { predicate: "object"@, args: seq![TermView::Symbolic(e.id())] }
}

/// `type(id, name)`: what kind of object the entity is.
pub open spec fn type_fact(e: EntityView) -> FactView {
    FactView {
        predicate: "type"@,
        args: seq![TermView::Symbolic(e.id()), TermView::Symbolic(e.name)],
    }
}

/// `size(id, sx, sy, sz)`: the grid cells that the entity takes on each
/// axis.
pub open spec fn size_fact(e: EntityView) -> FactView {
    let cells = e.bounding_box.spec_cells();
    FactView {
        predicate: "size"@,
        args: seq![
            TermView::Symbolic(e.id()),
            TermView::Number(cells.0 as i32),
            TermView::Number(cells.1 as i32),
            TermView::Number(cells.2 as i32),
        ],
    }
}

/// The three facts of one entity.
pub open spec fn entity_facts(e: EntityView) -> Seq<FactView> {
    seq![object_fact(e), type_fact(e), size_fact(e)]
}

/// The facts of all entities: three for each, entity after entity.
pub open spec fn encoded(entities: Seq<EntityView>) -> Seq<FactView> {
    Seq::new(3 * entities.len(), |k: int| entity_facts(entities[k / 3])[k % 3])
}

/// `facts` with `fact` listed after them, unless it is among them already.
pub open spec fn listing(facts: Seq<FactView>, fact: FactView) -> Seq<FactView> {
    if facts.contains(fact) {
        facts
    } else {
        facts.push(fact)
    }
}

/// A sequence of facts with every repeat left out: each fact stands where
/// it stood first.
pub open spec fn without_repeats(facts: Seq<FactView>) -> Seq<FactView>
    decreases facts.len(),
{
    if facts.len() == 0 {
        Seq::empty()
    } else {
        listing(without_repeats(facts.drop_last()), facts.last())
    }
}

/// The facts that are handed to the solver: those of all entities, entity
/// after entity, each fact once. Facts form a set, so a fact that two
/// entities share is listed for the first of them only.
pub open spec fn emitted(entities: Seq<EntityView>) -> Seq<FactView> {
    without_repeats(encoded(entities))
}

/// The facts of the first `count` entities, each fact once.
#[verifier::opaque]
pub open spec fn emitted_up_to(entities: Seq<EntityView>, count: int) -> Seq<FactView> {
    without_repeats(encoded(entities).take(3 * count))
}

/// Whether the id and the name of an entity can stand in a fact.
pub open spec fn encodable(e: EntityView) -> bool {
    is_constant(e.id()) && is_constant(e.name)
}

/// Whether every one of the first `count` entities can be encoded.
pub open spec fn all_encodable(entities: Seq<EntityView>, count: int) -> bool {
    forall|i: int| 0 <= i < count ==> encodable(#[trigger] entities[i])
}

/// The first entity that cannot be encoded, where there is one.
pub open spec fn first_unencodable(entities: Seq<EntityView>) -> int {
    choose|i: int| 0 <= i < entities.len() && all_encodable(entities, i) && !encodable(entities[i])
}

/// What encoding yields: the facts of all entities, each once, or the first
/// entity whose id or name is no symbolic constant.
pub open spec fn encoding(entities: Seq<EntityView>) -> Result<Seq<FactView>, PlacementError> {
    if all_encodable(entities, entities.len() as int) {
        Ok(emitted(entities))
    } else {
        Err(PlacementError::InvalidToken { entity: first_unencodable(entities) as usize })
    }
}

impl Term {
    pub fn symbolic(s: &str) -> (t: Term)
        ensures
            t@ == TermView::Symbolic(s@),
    {
        Term::Symbolic(String::from_str(s))
    }

    pub fn number(n: i32) -> (t: Term)
        ensures
            t@ == TermView::Number(n),
    {
        Term::Number(n)
    }
}

impl Fact {
    pub fn new(predicate: &str, args: Vec<Term>) -> (f: Fact)
        ensures
            f@.predicate == predicate@,
            f@.args == Seq::new(args@.len(), |i: int| args@[i]@),
    {
        Fact { predicate: String::from_str(predicate), args }
    }
}

/// Whether two terms are the same.
pub fn same_term(a: &Term, b: &Term) -> (r: bool)
    ensures
        r == (a@ == b@),
{
    match a {
        Term::Symbolic(s) => match b {
            Term::Symbolic(t) => *s == *t,
            Term::Number(_) => false,
        },
        Term::Number(n) => match b {
            Term::Symbolic(_) => false,
            Term::Number(m) => *n == *m,
        },
    }
}

/// Whether two facts are the same: the same predicate and the same
/// arguments.
pub fn same_fact(a: &Fact, b: &Fact) -> (r: bool)
    ensures
        r == (a@ == b@),
{
    if !(a.predicate == b.predicate) {
        return false;
    }
    if a.args.len() != b.args.len() {
        assert(a@.args.len() != b@.args.len());
        return false;
    }
    let mut i: usize = 0;
    while i < a.args.len()
        invariant
            i <= a.args@.len(),
            a.args@.len() == b.args@.len(),
            forall|j: int| 0 <= j < i ==> a.args@[j]@ == b.args@[j]@,
        decreases a.args@.len() - i,
    {
        if !same_term(&a.args[i], &b.args[i]) {
            assert(a@.args[i as int] != b@.args[i as int]);
            return false;
        }
        i = i + 1;
    }
    assert(a@.args =~= b@.args);
    true
}

/// Whether `fact` is among `facts`.
pub fn listed(facts: &Vec<Fact>, fact: &Fact) -> (r: bool)
    ensures
        r == facts_view(facts@).contains(fact@),
{
    let mut k: usize = 0;
    while k < facts.len()
        invariant
            k <= facts@.len(),
            forall|j: int| 0 <= j < k ==> facts_view(facts@)[j] != fact@,
        decreases facts@.len() - k,
    {
        if same_fact(&facts[k], fact) {
            assert(facts_view(facts@)[k as int] == fact@);
            return true;
        }
        k = k + 1;
    }
    false
}

/// Appends `fact` unless it is listed already.
fn push_new(facts: &mut Vec<Fact>, fact: Fact)
    ensures
        facts_view(final(facts)@) == listing(facts_view(old(facts)@), fact@),
{
    if !listed(facts, &fact) {
        facts.push(fact);
        assert(facts_view(facts@) =~= facts_view(old(facts)@).push(fact@));
    }
}

/// The fact `object(id)`.
fn object_of(id: &String) -> (f: Fact)
    ensures
        f@ == (FactView { predicate: "object"@, args: seq![TermView::Symbolic(id@)] }),
{
    let mut args: Vec<Term> = Vec::new();
    args.push(Term::Symbolic(id.clone()));
    let f = Fact { predicate: String::from_str("object"), args };
    assert(f@.args =~= seq![TermView::Symbolic(id@)]);
    f
}

/// The fact `type(id, name)`.
fn type_of(id: &String, name: &String) -> (f: Fact)
    ensures
        f@ == (FactView {
            predicate: "type"@,
            args: seq![TermView::Symbolic(id@), TermView::Symbolic(name@)],
        }),
{
    let mut args: Vec<Term> = Vec::new();
    args.push(Term::Symbolic(id.clone()));
    args.push(Term::Symbolic(name.clone()));
    let f = Fact { predicate: String::from_str("type"), args };
    assert(f@.args =~= seq![TermView::Symbolic(id@), TermView::Symbolic(name@)]);
    f
}

/// The fact `size(id, sx, sy, sz)`.
fn size_of(id: &String, sx: i32, sy: i32, sz: i32) -> (f: Fact)
    ensures
        f@ == (FactView {
            predicate: "size"@,
            args: seq![
                TermView::Symbolic(id@),
                TermView::Number(sx),
                TermView::Number(sy),
                TermView::Number(sz),
            ],
        }),
{
    let mut args: Vec<Term> = Vec::new();
    args.push(Term::Symbolic(id.clone()));
    args.push(Term::Number(sx));
    args.push(Term::Number(sy));
    args.push(Term::Number(sz));
    let f = Fact { predicate: String::from_str("size"), args };
    assert(f@.args =~= seq![
        TermView::Symbolic(id@),
        TermView::Number(sx),
        TermView::Number(sy),
        TermView::Number(sz),
    ]);
    f
}

/// The three facts of an entity, listed after `facts`, each unless it is
/// listed already.
pub open spec fn listing_entity(facts: Seq<FactView>, e: EntityView) -> Seq<FactView> {
    listing(listing(listing(facts, object_fact(e)), type_fact(e)), size_fact(e))
}

/// Lists the three facts of `e`, each unless it is listed already.
fn push_entity_facts(facts: &mut Vec<Fact>, e: &Entity)
    ensures
        facts_view(final(facts)@) == listing_entity(facts_view(old(facts)@), e@),
{
    let c = e.cells();
    push_new(facts, object_of(e.id()));
    push_new(facts, type_of(e.id(), e.name()));
    push_new(facts, size_of(e.id(), c.x, c.y, c.z));
}

/// Encodes the registry as facts: for every entity `object(id)`,
/// `type(id, name)` and `size(id, sx, sy, sz)`, entity after entity. The
/// facts form a set: a fact that is listed already is not listed again.
///
/// Fails on the first entity whose id or name is no symbolic constant, and
/// then yields no fact at all.
pub fn encode(registry: &Registry) -> (r: Result<Vec<Fact>, PlacementError>)
    ensures
        match r {
            Ok(facts) => encoding(registry@) == Ok::<Seq<FactView>, PlacementError>(
                facts_view(facts@),
            ),
            Err(e) => encoding(registry@) == Err::<Seq<FactView>, PlacementError>(e),
        },
        r is Ok <==> all_encodable(registry@, registry@.len() as int),
        r matches Ok(facts) ==> {
            &&& facts_view(facts@) == emitted(registry@)
            &&& facts_view(facts@).no_duplicates()
            &&& facts_view(facts@).to_set() == encoded(registry@).to_set()
            &&& facts@.len() <= 3 * registry@.len()
            &&& distinct_ids(registry@) ==> facts@.len() == 3 * registry@.len()
            &&& distinct_ids(registry@) ==> facts_view(facts@) == encoded(registry@)
        },
        r matches Err(e) ==> {
            &&& e matches PlacementError::InvalidToken { entity }
            &&& entity < registry@.len()
            &&& all_encodable(registry@, entity as int)
            &&& !encodable(registry@[entity as int])
        },
{
    let mut facts: Vec<Fact> = Vec::new();
    let mut i: usize = 0;
    proof {
        lemma_emitted_up_to(registry@);
    }
    while i < registry.len()
        invariant
            i <= registry@.len(),
            all_encodable(registry@, i as int),
            facts_view(facts@) == emitted_up_to(registry@, i as int),
        decreases registry@.len() - i,
    {
        let e = registry.entity(i);
        if !check_constant(e.id().as_str()) || !check_constant(e.name().as_str()) {
            proof {
                lemma_first_unencodable(registry@, i as int);
            }
            return Err(PlacementError::InvalidToken { entity: i });
        }
        proof {
            lemma_three_more(registry@, i as int);
        }
        push_entity_facts(&mut facts, e);
        i = i + 1;
    }
    proof {
        lemma_emitted_up_to(registry@);
        lemma_three_facts_each(registry@);
    }
    Ok(facts)
}

/// Of no entity there is no fact, and the facts of all entities are those
/// that are handed to the solver.
proof fn lemma_emitted_up_to(entities: Seq<EntityView>)
    ensures
        emitted_up_to(entities, 0) == Seq::<FactView>::empty(),
        emitted_up_to(entities, entities.len() as int) == emitted(entities),
{
    reveal(emitted_up_to);
    let all = encoded(entities);
    assert(all.take(0) =~= Seq::<FactView>::empty());
    assert(all.take(3 * (entities.len() as int)) =~= all);
}

/// Leaving out the repeats of one fact more is leaving out the repeats of
/// those before it, then listing that fact unless it is listed.
proof fn lemma_take_one_more(facts: Seq<FactView>, k: int)
    requires
        0 <= k < facts.len(),
    ensures
        without_repeats(facts.take(k + 1)) == listing(without_repeats(facts.take(k)), facts[k]),
{
    let next = facts.take(k + 1);
    assert(next.drop_last() =~= facts.take(k));
    assert(next.last() == facts[k]);
}

/// The facts up to and with those of entity `i` are the facts before it,
/// with its three facts listed one after the other.
proof fn lemma_three_more(entities: Seq<EntityView>, i: int)
    requires
        0 <= i < entities.len(),
    ensures
        emitted_up_to(entities, i + 1) == listing_entity(
            emitted_up_to(entities, i),
            entities[i],
        ),
{
    reveal(emitted_up_to);
    let all = encoded(entities);
    let e = entities[i];
    assert((3 * i) / 3 == i && (3 * i + 1) / 3 == i && (3 * i + 2) / 3 == i);
    assert((3 * i) % 3 == 0 && (3 * i + 1) % 3 == 1 && (3 * i + 2) % 3 == 2);
    assert(all[3 * i] == entity_facts(e)[0]);
    assert(all[3 * i + 1] == entity_facts(e)[1]);
    assert(all[3 * i + 2] == entity_facts(e)[2]);
    lemma_take_one_more(all, 3 * i);
    lemma_take_one_more(all, 3 * i + 1);
    lemma_take_one_more(all, 3 * i + 2);
}

/// Leaving out repeats leaves no fact twice and loses none: the result has
/// no duplicates and holds the same facts. A sequence without duplicates
/// stays as it is.
pub proof fn lemma_without_repeats(facts: Seq<FactView>)
    ensures
        without_repeats(facts).no_duplicates(),
        without_repeats(facts).to_set() == facts.to_set(),
        without_repeats(facts).len() <= facts.len(),
        facts.no_duplicates() ==> without_repeats(facts) == facts,
{
    lemma_without_repeats_holds_the_same(facts);
}

/// Leaving out repeats loses no fact and adds none.
proof fn lemma_without_repeats_holds_the_same(facts: Seq<FactView>)
    ensures
        without_repeats(facts).no_duplicates(),
        forall|f: FactView| without_repeats(facts).contains(f) <==> facts.contains(f),
        without_repeats(facts).to_set() == facts.to_set(),
        without_repeats(facts).len() <= facts.len(),
        facts.no_duplicates() ==> without_repeats(facts) == facts,
    decreases facts.len(),
{
    let r = without_repeats(facts);
    if facts.len() == 0 {
        assert(r.to_set() =~= facts.to_set());
    } else {
        let init = facts.drop_last();
        let last = facts.last();
        let before = without_repeats(init);
        lemma_without_repeats_holds_the_same(init);
        assert(r == listing(before, last));
        assert forall|f: FactView| r.contains(f) <==> facts.contains(f) by {
            if facts.contains(f) {
                let k = choose|k: int| 0 <= k < facts.len() && facts[k] == f;
                if k < facts.len() - 1 {
                    assert(init[k] == f);
                    assert(init.contains(f));
                }
                if f != last {
                    assert(init.contains(f));
                    assert(before.contains(f));
                }
                if before.contains(f) {
                    let j = choose|j: int| 0 <= j < before.len() && before[j] == f;
                    assert(r[j] == f);
                } else {
                    assert(f == last);
                    assert(r[before.len() as int] == f);
                }
            }
            if r.contains(f) {
                let j = choose|j: int| 0 <= j < r.len() && r[j] == f;
                if j < before.len() {
                    assert(before[j] == f);
                    assert(before.contains(f));
                    assert(init.contains(f));
                    let k = choose|k: int| 0 <= k < init.len() && init[k] == f;
                    assert(facts[k] == f);
                } else {
                    assert(facts[facts.len() - 1] == f);
                }
            }
        }
        assert(r.to_set() =~= facts.to_set());
        if facts.no_duplicates() {
            assert forall|i: int, j: int| 0 <= i < init.len() && 0 <= j < init.len() && i
                != j implies init[i] != init[j] by {
                assert(facts[i] != facts[j]);
            }
            if init.contains(last) {
                let k = choose|k: int| 0 <= k < init.len() && init[k] == last;
                assert(facts[k] == facts[facts.len() - 1]);
            }
            assert(!before.contains(last));
            assert(r =~= facts);
        }
    }
}

/// Whether no two entities share an id.
pub open spec fn distinct_ids(entities: Seq<EntityView>) -> bool {
    forall|i: int, j: int|
        0 <= i < entities.len() && 0 <= j < entities.len() && i != j ==> entities[i].id()
            != entities[j].id()
}

/// The facts handed to the solver form a set: no fact occurs twice. Each
/// entity has three facts; and where no two entities share an id, none of
/// them is shared, so that the set has three times as many members as there
/// are entities.
pub proof fn lemma_three_facts_each(entities: Seq<EntityView>)
    ensures
        emitted(entities).no_duplicates(),
        emitted(entities).to_set() == encoded(entities).to_set(),
        emitted(entities).len() <= encoded(entities).len() == 3 * entities.len(),
        distinct_ids(entities) ==> encoded(entities).no_duplicates(),
        distinct_ids(entities) ==> emitted(entities) == encoded(entities),
        distinct_ids(entities) ==> emitted(entities).to_set().len() == 3 * entities.len(),
{
    lemma_without_repeats(encoded(entities));
    if distinct_ids(entities) {
        lemma_distinct_ids_distinct_facts(entities);
    }
}

/// Where no two entities share an id, no two of their facts are the same.
proof fn lemma_distinct_ids_distinct_facts(entities: Seq<EntityView>)
    requires
        distinct_ids(entities),
    ensures
        encoded(entities).no_duplicates(),
        encoded(entities).to_set().len() == 3 * entities.len(),
{
    let facts = encoded(entities);
    assert forall|k: int, l: int|
        0 <= k < facts.len() && 0 <= l < facts.len() && k != l implies facts[k] != facts[l] by {
        lemma_two_facts_differ(entities, k, l);
    }
    facts.unique_seq_to_set();
}

/// Two facts at different places differ: those of one entity in the number
/// of their arguments, those of two entities in the id.
proof fn lemma_two_facts_differ(entities: Seq<EntityView>, k: int, l: int)
    requires
        distinct_ids(entities),
        0 <= k < 3 * entities.len(),
        0 <= l < 3 * entities.len(),
        k != l,
    ensures
        encoded(entities)[k] != encoded(entities)[l],
{
    let i = k / 3;
    let j = l / 3;
    let one = entity_facts(entities[i])[k % 3];
    let other = entity_facts(entities[j])[l % 3];
    assert(encoded(entities)[k] == one);
    assert(encoded(entities)[l] == other);
    assert(one.args.len() == (if k % 3 == 0 { 1int } else if k % 3 == 1 { 2int } else { 4int }));
    assert(other.args.len() == (if l % 3 == 0 { 1int } else if l % 3 == 1 { 2int } else { 4int }));
    assert(one.args[0] == TermView::Symbolic(entities[i].id()));
    assert(other.args[0] == TermView::Symbolic(entities[j].id()));
    if k % 3 == l % 3 {
        assert(i != j);
        assert(entities[i].id() != entities[j].id());
    }
}

/// Whether an entity can be encoded hangs on its name alone: the id of a
/// name that is a symbolic constant is one too.
pub proof fn lemma_encodable_by_name(e: EntityView)
    ensures
        encodable(e) <==> is_constant(e.name),
{
    if is_constant(e.name) {
        lemma_id_of_constant_is_constant(e.name, e.suffix);
    }
}

/// Encoding succeeds exactly where every name is a symbolic constant.
pub proof fn lemma_encoding_needs_constant_names(entities: Seq<EntityView>)
    ensures
        encoding(entities) is Ok <==> forall|i: int|
            0 <= i < entities.len() ==> is_constant(#[trigger] entities[i].name),
{
    assert forall|i: int| 0 <= i < entities.len() implies (encodable(#[trigger] entities[i])
        <==> is_constant(entities[i].name)) by {
        lemma_encodable_by_name(entities[i]);
    }
    if forall|i: int| 0 <= i < entities.len() ==> is_constant(#[trigger] entities[i].name) {
        assert(all_encodable(entities, entities.len() as int));
    }
}

/// Encoding is a function of the entities alone: registries that hold
/// the same entities in the same order encode alike, fact for fact or
/// failure for failure.
pub proof fn lemma_encoding_is_pure(one: Seq<EntityView>, other: Seq<EntityView>)
    requires
        one.len() == other.len(),
        forall|i: int| 0 <= i < one.len() ==> one[i] == other[i],
    ensures
        encoding(one) == encoding(other),
{
    assert(one =~= other);
}

/// The set of facts depends on which entities there are, not on their
/// order: two sequences of the same entities encode to the same set.
pub proof fn lemma_fact_set_ignores_order(one: Seq<EntityView>, other: Seq<EntityView>)
    requires
        forall|i: int| 0 <= i < one.len() ==> other.contains(#[trigger] one[i]),
        forall|j: int| 0 <= j < other.len() ==> one.contains(#[trigger] other[j]),
    ensures
        encoded(one).to_set() == encoded(other).to_set(),
        emitted(one).to_set() == emitted(other).to_set(),
{
    lemma_without_repeats(encoded(one));
    lemma_without_repeats(encoded(other));
    assert forall|f: FactView| encoded(one).to_set().contains(f) implies encoded(
        other,
    ).to_set().contains(f) by {
        lemma_fact_is_found_again(one, other, f);
    }
    assert forall|f: FactView| encoded(other).to_set().contains(f) implies encoded(
        one,
    ).to_set().contains(f) by {
        lemma_fact_is_found_again(other, one, f);
    }
    assert(encoded(one).to_set() =~= encoded(other).to_set());
}

/// A fact of `one` is a fact of `other` where every entity of `one` is in
/// `other`.
proof fn lemma_fact_is_found_again(one: Seq<EntityView>, other: Seq<EntityView>, f: FactView)
    requires
        forall|i: int| 0 <= i < one.len() ==> other.contains(#[trigger] one[i]),
        encoded(one).to_set().contains(f),
    ensures
        encoded(other).to_set().contains(f),
{
    let k = choose|k: int| 0 <= k < encoded(one).len() && encoded(one)[k] == f;
    let i = k / 3;
    assert(other.contains(one[i]));
    let j = choose|j: int| 0 <= j < other.len() && other[j] == one[i];
    let l = 3 * j + k % 3;
    assert(l / 3 == j && l % 3 == k % 3);
    assert(encoded(other)[l] == f);
    assert(encoded(other).contains(f));
}

/// The first entity that cannot be encoded is the one before which all can.
pub proof fn lemma_first_unencodable(entities: Seq<EntityView>, i: int)
    requires
        0 <= i < entities.len(),
        all_encodable(entities, i),
        !encodable(entities[i]),
    ensures
        first_unencodable(entities) == i,
        !all_encodable(entities, entities.len() as int),
{
    let j = first_unencodable(entities);
    if j < i {
        assert(encodable(entities[j]));
    } else if i < j {
        assert(encodable(entities[i]));
    }
}

} // verus!
