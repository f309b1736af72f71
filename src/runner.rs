//! What the host-side runner is asked to do.
use vstd::prelude::*;

verus! {

/// Build the boot image, or build it and start it in an emulator.
#[derive(Clone, Copy, Debug, PartialEq, Eq, Structural)]
pub enum RunnerCommand {
    Build,
    Run { debug: bool },
}

} // verus!
