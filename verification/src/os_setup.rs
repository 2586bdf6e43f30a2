//! Plain values describing local processes.
//!
//! Starting, inspecting and stopping the auxiliary tool processes is
//! external state management and lives in the application shell; the types
//! it speaks in are declared here.

use vstd::prelude::*;

verus! {

/// A process identifier.
#[derive(Clone, Copy, Debug, Eq, PartialEq, Structural)]
pub struct Pid(pub u32);

/// A TCP port.
#[derive(Clone, Copy, Debug, Eq, PartialEq, Structural)]
pub struct Port(pub u32);

/// A command name, as the process table reports it.
#[derive(Debug)]
pub struct Cmd(pub String);

impl Clone for Cmd {
    fn clone(&self) -> (r: Self)
        ensures
            r.0@ == self.0@,
    {
        Cmd(self.0.clone())
    }
}

impl PartialEq for Cmd {
    fn eq(&self, other: &Self) -> (r: bool) {
        self.0 == other.0
    }
}

impl vstd::std_specs::cmp::PartialEqSpecImpl for Cmd {
    open spec fn obeys_eq_spec() -> bool {
        true
    }

    open spec fn eq_spec(&self, other: &Self) -> bool {
        self.0@ == other.0@
    }
}

impl Cmd {
    /// A command name from its characters.
    pub fn from_name(s: &str) -> (r: Self)
        ensures
            r.0@ == s@,
    {
        Cmd(String::from_str(s))
    }
}

} // verus!
