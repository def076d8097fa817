//! A named on/off switch for diagnostic scene dumps.  The kernel itself
//! stays free of output; a consumer that wants to trace intermediate
//! algorithm state queries the switch and performs its own logging.
use vstd::prelude::*;

verus! {

/// A diagnostic channel: a target name and whether it is enabled.
pub struct SceneLogger {
    target: &'static str,
    enabled: bool,
}

impl SceneLogger {
    pub closed spec fn spec_target(self) -> &'static str {
        self.target
    }

    pub closed spec fn spec_enabled(self) -> bool {
        self.enabled
    }

    pub fn new(target: &'static str, enabled: bool) -> (r: SceneLogger)
        ensures
            r.spec_target() == target,
            r.spec_enabled() == enabled,
    {
        SceneLogger { target, enabled }
    }

    pub fn is_enabled(&self) -> (r: bool)
        ensures
            r == self.spec_enabled(),
    {
        self.enabled
    }

    /// The name under which this channel's output is filed.
    pub fn target(&self) -> (r: &'static str)
        ensures
            r == self.spec_target(),
    {
        self.target
    }
}

} // verus!
