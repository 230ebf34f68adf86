//! Settings of the command-line host.

use vstd::prelude::*;

verus! {

/// The settings with which the host runs. There are none yet.
#[derive(Debug, Clone, Copy, PartialEq, Eq, Structural)]
pub struct CliConfig {}

impl CliConfig {
    pub fn new() -> (config: CliConfig)
        ensures
            config == (CliConfig {  }),
    {
        Self {  }
    }
}

} // verus!
