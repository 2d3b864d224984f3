//! The bridge to the script host: a script asks for entities by name.
//!
//! The script host is run from outside. It is given one capability, a
//! function that registers a name (`PendingNames::register`), under the
//! name `registration_name`. What is to be run is `script_text`, and what
//! the run came to is judged by `script_outcome`.
use crate::error::ScriptLoadError;
use vstd::prelude::*;
use vstd::string::*;

verus! {

/// The name under which a script finds the registration function: `Add`.
pub fn registration_name() -> (name: &'static str)
    ensures
        name@ == "Add"@,
{
    "Add"
}

/// The name under which the script is run, for the script host's
/// diagnostics: `Main Script`.
pub fn chunk_name() -> (name: &'static str)
    ensures
        name@ == "Main Script"@,
{
    "Main Script"
}

/// The text to run for what was found where the script should be. A script
/// that is missing counts as an empty one: it asks for no entity, and that
/// is no failure.
pub fn script_text(found: Option<String>) -> (text: String)
    ensures
        found matches Some(contents) ==> text@ == contents@,
        found is None ==> text@ == Seq::<char>::empty(),
{
    match found {
        Some(contents) => contents,
        None => String::new(),
    }
}

/// What a run of the script comes to. A run that ended well is a success.
/// One that failed is a `ScriptLoadError` that carries the script host's
/// diagnostic as it came; the names registered before the failure stay, and
/// the pass goes on.
pub fn script_outcome(ran: Result<(), String>) -> (r: Result<(), ScriptLoadError>)
    ensures
        ran is Ok <==> r is Ok,
        ran matches Err(text) ==> r matches Err(e) && e.diagnostic@ == text@,
{
    match ran {
        Ok(()) => Ok(()),
        Err(diagnostic) => Err(ScriptLoadError { diagnostic }),
    }
}

} // verus!
