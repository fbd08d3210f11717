//! The arguments of the commands.

use vstd::prelude::*;

use crate::rebuild::Mode;

verus! {

/// What a rebuild is asked to do on the command line.
#[derive(Debug, Clone, Copy, PartialEq, Eq, Structural)]
pub enum RebuildMode {
    Switch,
    Boot,
    Test,
}

/// The mode of a rebuild that is asked for.
pub open spec fn mode_of(m: RebuildMode) -> Mode {
    match m {
        RebuildMode::Switch => Mode::Switch,
        RebuildMode::Boot => Mode::Boot,
        RebuildMode::Test => Mode::Test,
    }
}

impl vstd::std_specs::convert::FromSpecImpl<RebuildMode> for Mode {
    open spec fn obeys_from_spec() -> bool {
        true
    }

    open spec fn from_spec(m: RebuildMode) -> Mode {
        mode_of(m)
    }
}

impl From<RebuildMode> for Mode {
    fn from(m: RebuildMode) -> (r: Mode) {
        match m {
            RebuildMode::Switch => Mode::Switch,
            RebuildMode::Boot => Mode::Boot,
            RebuildMode::Test => Mode::Test,
        }
    }
}

} // verus!
