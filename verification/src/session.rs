//! One placement pass, as the decisions between the steps of the solver.
//!
//! The solver itself is driven from outside: the caller performs each
//! `Action` and reports what came of it as an `Event`. `step` decides what
//! follows. A pass reads the program, grounds it together with the facts of
//! the registry, opens a session, and resumes it once: the first model is
//! taken and the session closed. No second model is asked for, so the
//! layout is one that satisfies the program, not a best one.
use crate::entity::EntityView;
use crate::error::PlacementError;
use crate::facts::{encode, encoding, facts_view, Fact, FactView};
use crate::placement::{apply, placing};
use crate::registry::Registry;
use vstd::prelude::*;
use vstd::string::*;

verus! {

/// How far a pass has come.
#[derive(Clone, Copy, Debug, PartialEq, Eq, Structural)]
pub enum Phase {
    /// Nothing has been asked for yet.
    Idle,
    /// The program text is being read.
    Reading,
    /// The program and the facts are being grounded.
    Grounding,
    /// The solve session is being opened.
    Opening,
    /// The session was resumed; a model, the end of the search or a failure
    /// follows.
    Searching,
    /// A model was applied; the session is being closed.
    Closing,
    /// No model was applied, for the reason held; the session is being
    /// closed.
    Abandoning(PlacementError),
    /// The pass is over and the entities are placed.
    Placed,
    /// The pass is over and has failed.
    Failed(PlacementError),
}

/// What the caller reports.
#[derive(Debug)]
pub enum Event {
    /// The pass is to begin.
    Start,
    /// The program was read; its text.
    ProgramRead(String),
    /// The program could not be read.
    ProgramUnreadable,
    /// Grounding succeeded.
    Grounded,
    /// Grounding failed.
    GroundingFailed,
    /// The solve session is open.
    SessionOpened,
    /// The resume gave a model; its shown atoms.
    Model(Vec<Fact>),
    /// The resume gave no model: the search is exhausted.
    SearchExhausted,
    /// The session is closed.
    SessionClosed,
    /// The solver reported an error.
    SolverFailed,
}

/// What the caller is to do next.
#[derive(Debug)]
pub enum Action {
    /// Read the program text.
    ReadProgram,
    /// Load the program as one part without parameters, add the facts, and
    /// ground.
    Ground { program: String, facts: Vec<Fact> },
    /// Open a solve session that yields one model at a time.
    OpenSession,
    /// Resume the session once.
    Resume,
    /// Close the session.
    CloseSession,
    /// Nothing more: the entities are placed.
    Finish,
    /// Nothing more: the pass has failed.
    Abort(PlacementError),
}

/// An event, as plain values.
pub enum EventView {
    Start,
    ProgramRead(Seq<char>),
    ProgramUnreadable,
    Grounded,
    GroundingFailed,
    SessionOpened,
    Model(Seq<FactView>),
    SearchExhausted,
    SessionClosed,
    SolverFailed,
}

/// An action, as plain values.
pub enum ActionView {
    ReadProgram,
    Ground { program: Seq<char>, facts: Seq<FactView> },
    OpenSession,
    Resume,
    CloseSession,
    Finish,
    Abort(PlacementError),
}

impl View for Event {
    type V = EventView;

    open spec fn view(&self) -> EventView {
        match self {
            Event::Start => EventView::Start,
            Event::ProgramRead(text) => EventView::ProgramRead(text@),
            Event::ProgramUnreadable => EventView::ProgramUnreadable,
            Event::Grounded => EventView::Grounded,
            Event::GroundingFailed => EventView::GroundingFailed,
            Event::SessionOpened => EventView::SessionOpened,
            Event::Model(atoms) => EventView::Model(facts_view(atoms@)),
            Event::SearchExhausted => EventView::SearchExhausted,
            Event::SessionClosed => EventView::SessionClosed,
            Event::SolverFailed => EventView::SolverFailed,
        }
    }
}

impl View for Action {
    type V = ActionView;

    open spec fn view(&self) -> ActionView {
        match self {
            Action::ReadProgram => ActionView::ReadProgram,
            Action::Ground { program, facts } => ActionView::Ground {
                program: program@,
                facts: facts_view(facts@),
            },
            Action::OpenSession => ActionView::OpenSession,
            Action::Resume => ActionView::Resume,
            Action::CloseSession => ActionView::CloseSession,
            Action::Finish => ActionView::Finish,
            Action::Abort(e) => ActionView::Abort(*e),
        }
    }
}

/// A pass that has failed, with nothing changed.
pub open spec fn failed(e: PlacementError, entities: Seq<EntityView>) -> (
    Phase,
    ActionView,
    Seq<EntityView>,
) {
    (Phase::Failed(e), ActionView::Abort(e), entities)
}

/// What follows an event: the next phase, the next action, and the
/// entities as they then are.
pub open spec fn next(phase: Phase, event: EventView, entities: Seq<EntityView>) -> (
    Phase,
    ActionView,
    Seq<EntityView>,
) {
    match phase {
        Phase::Placed => (Phase::Placed, ActionView::Finish, entities),
        Phase::Failed(e) => failed(e, entities),
        Phase::Idle => match event {
            EventView::Start => (Phase::Reading, ActionView::ReadProgram, entities),
            _ => failed(PlacementError::OutOfOrder, entities),
        },
        Phase::Reading => match event {
            EventView::ProgramRead(program) => match encoding(entities) {
                Ok(facts) => (Phase::Grounding, ActionView::Ground { program, facts }, entities),
                Err(e) => failed(e, entities),
            },
            EventView::ProgramUnreadable => failed(PlacementError::ProgramRead, entities),
            _ => failed(PlacementError::OutOfOrder, entities),
        },
        Phase::Grounding => match event {
            EventView::Grounded => (Phase::Opening, ActionView::OpenSession, entities),
            EventView::GroundingFailed => failed(PlacementError::Grounding, entities),
            _ => failed(PlacementError::OutOfOrder, entities),
        },
        Phase::Opening => match event {
            EventView::SessionOpened => (Phase::Searching, ActionView::Resume, entities),
            EventView::SolverFailed => failed(PlacementError::Solve, entities),
            _ => failed(PlacementError::OutOfOrder, entities),
        },
        Phase::Searching => match event {
            EventView::Model(atoms) => match placing(entities, atoms) {
                Ok(moved) => (Phase::Closing, ActionView::CloseSession, moved),
                Err(e) => (Phase::Abandoning(e), ActionView::CloseSession, entities),
            },
            EventView::SearchExhausted => (
                Phase::Abandoning(PlacementError::NoPlacement),
                ActionView::CloseSession,
                entities,
            ),
            EventView::SolverFailed => failed(PlacementError::Solve, entities),
            _ => failed(PlacementError::OutOfOrder, entities),
        },
        Phase::Closing => match event {
            EventView::SessionClosed => (Phase::Placed, ActionView::Finish, entities),
            EventView::SolverFailed => failed(PlacementError::Solve, entities),
            _ => failed(PlacementError::OutOfOrder, entities),
        },
        Phase::Abandoning(e) => match event {
            EventView::SessionClosed => failed(e, entities),
            EventView::SolverFailed => failed(e, entities),
            _ => failed(PlacementError::OutOfOrder, entities),
        },
    }
}

/// A pass that has failed.
fn fail(e: PlacementError) -> (r: (Phase, Action))
    ensures
        r.0 == Phase::Failed(e),
        r.1@ == ActionView::Abort(e),
{
    (Phase::Failed(e), Action::Abort(e))
}

/// Decides what follows `event` in `phase`: the next phase and the action
/// that the caller is to perform. The registry changes at one point only,
/// where the first model is applied.
pub fn step(phase: Phase, event: Event, registry: &mut Registry) -> (r: (Phase, Action))
    ensures
        (r.0, r.1@, final(registry)@) == next(phase, event@, old(registry)@),
{
    match phase {
        Phase::Placed => (Phase::Placed, Action::Finish),
        Phase::Failed(e) => fail(e),
        Phase::Idle => match event {
            Event::Start => (Phase::Reading, Action::ReadProgram),
            _ => fail(PlacementError::OutOfOrder),
        },
        Phase::Reading => match event {
            Event::ProgramRead(program) => match encode(registry) {
                Ok(facts) => (Phase::Grounding, Action::Ground { program, facts }),
                Err(e) => fail(e),
            },
            Event::ProgramUnreadable => fail(PlacementError::ProgramRead),
            _ => fail(PlacementError::OutOfOrder),
        },
        Phase::Grounding => match event {
            Event::Grounded => (Phase::Opening, Action::OpenSession),
            Event::GroundingFailed => fail(PlacementError::Grounding),
            _ => fail(PlacementError::OutOfOrder),
        },
        Phase::Opening => match event {
            Event::SessionOpened => (Phase::Searching, Action::Resume),
            Event::SolverFailed => fail(PlacementError::Solve),
            _ => fail(PlacementError::OutOfOrder),
        },
        Phase::Searching => match event {
            Event::Model(atoms) => match apply(&atoms, registry) {
                Ok(()) => (Phase::Closing, Action::CloseSession),
                Err(e) => (Phase::Abandoning(e), Action::CloseSession),
            },
            Event::SearchExhausted => (
                Phase::Abandoning(PlacementError::NoPlacement),
                Action::CloseSession,
            ),
            Event::SolverFailed => fail(PlacementError::Solve),
            _ => fail(PlacementError::OutOfOrder),
        },
        Phase::Closing => match event {
            Event::SessionClosed => (Phase::Placed, Action::Finish),
            Event::SolverFailed => fail(PlacementError::Solve),
            _ => fail(PlacementError::OutOfOrder),
        },
        Phase::Abandoning(e) => match event {
            Event::SessionClosed => fail(e),
            Event::SolverFailed => fail(e),
            _ => fail(PlacementError::OutOfOrder),
        },
    }
}

/// Entities move at one point of a pass only: where a model arrives while
/// the session is searching, and every atom of the model is a placement.
pub proof fn lemma_only_a_model_moves(phase: Phase, event: EventView, entities: Seq<EntityView>)
    ensures
        next(phase, event, entities).2 != entities ==> {
            &&& phase == Phase::Searching
            &&& event is Model
            &&& placing(entities, event->Model_0) is Ok
        },
{
}

/// The first model ends the search: whatever the model holds, the session
/// is closed next and is not resumed again.
pub proof fn lemma_first_model_wins(event: EventView, entities: Seq<EntityView>)
    requires
        event is Model,
    ensures
        next(Phase::Searching, event, entities).1 == ActionView::CloseSession,
        next(Phase::Searching, event, entities).0 != Phase::Searching,
{
}

/// A pass that is over stays over: no event moves an entity or leads to
/// another action.
pub proof fn lemma_finished_stays(phase: Phase, event: EventView, entities: Seq<EntityView>)
    requires
        phase == Phase::Placed || phase is Failed,
    ensures
        next(phase, event, entities).0 == phase,
        next(phase, event, entities).2 == entities,
        next(phase, event, entities).1 is Finish || next(phase, event, entities).1 is Abort,
{
}

/// A pass ends as placed only through a model: `Placed` is entered from
/// `Closing` alone, and `Closing` from `Searching` on a model alone.
pub proof fn lemma_placed_needs_a_model(phase: Phase, event: EventView, entities: Seq<EntityView>)
    ensures
        next(phase, event, entities).0 == Phase::Placed ==> phase == Phase::Closing || phase
            == Phase::Placed,
        next(phase, event, entities).0 == Phase::Closing ==> phase == Phase::Searching && event is Model,
{
}

} // verus!
