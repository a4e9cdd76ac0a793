//! What can go wrong while a process is limited.

use vstd::prelude::*;

verus! {

/// The failures of the library.
#[derive(Clone, Copy, PartialEq, Eq, Debug, Structural)]
pub enum Error {
    /// The target process is dead.
    DeadTarget,
    /// The limiting thread could not be spawned.
    Spawn,
    /// The command could not be sent to the limiting thread.
    Send,
}

impl Error {
    /// What the failure is, in words.
    pub fn message(&self) -> (text: &'static str)
        ensures
            text@ == match *self {
                Error::DeadTarget => "The target process is dead"@,
                Error::Spawn => "Couldn't spawn the limiting thread"@,
                Error::Send => "Couldn't send command to the limiting thread"@,
            },
    {
        match self {
            Error::DeadTarget => "The target process is dead",
            Error::Spawn => "Couldn't spawn the limiting thread",
            Error::Send => "Couldn't send command to the limiting thread",
        }
    }
}

} // verus!
