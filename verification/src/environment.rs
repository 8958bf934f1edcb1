//! Runtime environments: the virtual machine's configuration together with
//! its registry of system calls.

use vstd::prelude::*;

verus! {

/// Handle of a runtime environment. The environment itself is kept by whoever
/// loads and runs programs; the cache only needs to tell whether two programs
/// were loaded under one and the same environment, which is the case exactly
/// when their handles are equal.
#[derive(Clone, Copy, Debug, PartialEq, Eq, Structural, Hash)]
pub struct ProgramRuntimeEnvironment {
    pub id: u64,
}

/// Globally shared RBPF config and syscall registry
///
/// This is only valid in an epoch range as long as no feature affecting RBPF is activated.
#[derive(Clone, Copy, Debug, PartialEq, Eq, Structural)]
pub struct ProgramRuntimeEnvironments {
    /// For program runtime V1
    pub program_runtime_v1: ProgramRuntimeEnvironment,
    /// For program runtime V2
    pub program_runtime_v2: ProgramRuntimeEnvironment,
}

impl ProgramRuntimeEnvironments {
    /// `environment` is one of the two of this pair.
    pub open spec fn contains(&self, environment: ProgramRuntimeEnvironment) -> bool {
        environment == self.program_runtime_v1 || environment == self.program_runtime_v2
    }
}

impl Default for ProgramRuntimeEnvironments {
    /// Both runtimes start out with the empty environment, whose handle is 0.
    fn default() -> (environments: Self)
        ensures
            environments.program_runtime_v1.id == 0,
            environments.program_runtime_v2.id == 0,
    {
        let empty_loader = ProgramRuntimeEnvironment { id: 0 };
        ProgramRuntimeEnvironments {
            program_runtime_v1: empty_loader,
            program_runtime_v2: empty_loader,
        }
    }
}

} // verus!
