//! Launch executables inside a game's Proton prefix.

pub mod proton;
pub mod tools;

use crate::text::push_str;
use vstd::prelude::*;

verus! {

/// Why a launch into a prefix failed.
#[derive(Debug)]
pub enum LaunchError {
    /// The game's Proton directory could not be resolved (no prefix yet).
    NoProtonDir,
    /// The process failed to spawn; carries the script path and the system's
    /// description of the failure.
    Spawn { path: String, message: String },
}

/// The human-readable description of a launch error.
pub open spec fn launch_error_text(e: LaunchError) -> Seq<char> {
    match e {
        LaunchError::NoProtonDir => "no Proton directory found for this game (has it been run yet?)"@,
        LaunchError::Spawn { path, message } => "failed to start process `"@ + path@ + "`: "@
            + message@,
    }
}

impl LaunchError {
    /// The human-readable description of the error (its `Display` text).
    pub fn message(&self) -> (res: String)
        ensures
            res@ == launch_error_text(*self),
            *self is NoProtonDir ==> res@
                == "no Proton directory found for this game (has it been run yet?)"@,
            *self matches LaunchError::Spawn { path, message } ==> res@ == "failed to start process `"@
                + path@ + "`: "@ + message@,
    {
        let mut out = String::new();
        match self {
            LaunchError::NoProtonDir => {
                push_str(&mut out, "no Proton directory found for this game (has it been run yet?)");
            },
            LaunchError::Spawn { path, message } => {
                push_str(&mut out, "failed to start process `");
                push_str(&mut out, path.as_str());
                push_str(&mut out, "`: ");
                push_str(&mut out, message.as_str());
            },
        }
        out
    }
}

} // verus!
