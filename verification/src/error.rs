//! The ways in which a placement pass fails.
use vstd::prelude::*;

verus! {

/// Why a placement pass was given up. Every one of them ends the pass: no
/// entity is placed in part.
#[derive(Clone, Copy, Debug, PartialEq, Eq, Structural)]
pub enum PlacementError {
    /// No geometry could be had for the pending name at `index`.
    AssetResolution { index: usize },
    /// The id or the name of the entity at `entity` is no symbolic constant.
    InvalidToken { entity: usize },
    /// The constraint program could not be read.
    ProgramRead,
    /// The program and the facts could not be grounded.
    Grounding,
    /// The solver failed while a session was opened, resumed or closed.
    Solve,
    /// The search ended without a model.
    NoPlacement,
    /// The shown atom at `atom` is no tuple `(id, x, y, z)` with three numbers.
    MalformedModelAtom { atom: usize },
    /// An event arrived that the session was not waiting for.
    OutOfOrder,
}

/// A script that failed to run. The pass goes on with the names registered
/// before the failure.
#[derive(Debug)]
pub struct ScriptLoadError {
    /// What the script host reported.
    pub diagnostic: String,
}

} // verus!
