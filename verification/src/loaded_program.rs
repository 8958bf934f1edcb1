//! One version of one program, as the cache holds it.

use crate::address::Address;
use crate::environment::ProgramRuntimeEnvironment;
use crate::fork_graph::Slot;
use crate::outside::{
    is_bpf_loader, is_bpf_loader_deprecated, is_bpf_loader_upgradeable, is_loader_v4,
    BPF_LOADER_DEPRECATED_ID, BPF_LOADER_ID, BPF_LOADER_UPGRADEABLE_ID, LOADER_V4_ID,
};
use vstd::prelude::*;

verus! {

pub const DELAY_VISIBILITY_SLOT_OFFSET: Slot = 1;

/// Handle of a verified and compiled program, with the environment under
/// which it was loaded.
#[derive(Clone, Copy, Debug, PartialEq, Eq, Structural)]
pub struct Executable {
    pub loader: ProgramRuntimeEnvironment,
    pub handle: u64,
}

impl Executable {
    pub fn get_loader(&self) -> (loader: &ProgramRuntimeEnvironment)
        ensures
            *loader == self.loader,
    {
        &self.loader
    }
}

/// Handle of a program that is built into the validator.
#[derive(Clone, Copy, Debug, PartialEq, Eq, Structural)]
pub struct BuiltinProgram {
    pub handle: u64,
}

/// Actual payload of [LoadedProgram].
#[derive(Clone, Copy, Debug, PartialEq, Eq, Structural)]
pub enum LoadedProgramType {
    /// Tombstone for programs which currently do not pass the verifier but could if the feature set changed.
    FailedVerification(ProgramRuntimeEnvironment),
    /// Tombstone for programs that were either explicitly closed or never deployed.
    ///
    /// It's also used for accounts belonging to program loaders, that don't actually contain program code (e.g. buffer accounts for LoaderV3 programs).
    Closed,
    /// Tombstone for programs which have recently been modified but the new version is not visible yet.
    DelayVisibility,
    /// Successfully verified but not currently compiled.
    ///
    /// It continues to track usage statistics even when the compiled executable of the program is evicted from memory.
    Unloaded(ProgramRuntimeEnvironment),
    /// Verified and compiled program of loader-v1 or loader-v2
    LegacyV0(Executable),
    /// Verified and compiled program of loader-v3 (aka upgradable loader)
    LegacyV1(Executable),
    /// Verified and compiled program of loader-v4
    Typed(Executable),
    /// A built-in program which is not stored on-chain but backed into and distributed with the validator
    Builtin(BuiltinProgram),
}

impl Default for LoadedProgramType {
    fn default() -> (program: Self)
        ensures
            program == LoadedProgramType::Closed,
    {
        LoadedProgramType::Closed
    }
}

impl LoadedProgramType {
    /// The environment that the payload carries, if it carries one.
    pub open spec fn environment(self) -> Option<ProgramRuntimeEnvironment> {
        match self {
            LoadedProgramType::LegacyV0(program)
            | LoadedProgramType::LegacyV1(program)
            | LoadedProgramType::Typed(program) => Some(program.loader),
            LoadedProgramType::FailedVerification(env) | LoadedProgramType::Unloaded(env) => Some(
                env,
            ),
            _ => None,
        }
    }

    /// The payload stands for a program that is absent or cannot be used.
    pub open spec fn tombstone(self) -> bool {
        self is FailedVerification || self is Closed || self is DelayVisibility
    }

    /// The payload is a verified and compiled program that was deployed
    /// on-chain.
    pub open spec fn loaded(self) -> bool {
        self is LegacyV0 || self is LegacyV1 || self is Typed
    }

    /// Returns a reference to its environment if it has one
    pub fn get_environment(&self) -> (environment: Option<&ProgramRuntimeEnvironment>)
        ensures
            match environment {
                Some(env) => self.environment() == Some(*env),
                None => self.environment() is None,
            },
    {
        match self {
            LoadedProgramType::LegacyV0(program)
            | LoadedProgramType::LegacyV1(program)
            | LoadedProgramType::Typed(program) => Some(program.get_loader()),
            LoadedProgramType::FailedVerification(env) | LoadedProgramType::Unloaded(env) => Some(
                env,
            ),
            _ => None,
        }
    }
}


/// The sum of two counters as a counter that wraps around.
pub open spec fn wrapping_sum(a: u64, b: u64) -> u64 {
    if a + b > u64::MAX {
        (a + b - 0x1_0000_0000_0000_0000) as u64
    } else {
        (a + b) as u64
    }
}

/// Holds a program version at a specific address and on a specific slot / fork.
///
/// It contains the actual program in [LoadedProgramType] and a bunch of meta-data.
#[derive(Clone, Copy, Debug)]
pub struct LoadedProgram {
    /// The program of this entry
    pub program: LoadedProgramType,
    /// Size of account that stores the program and program data
    pub account_size: usize,
    /// Slot in which the program was (re)deployed
    pub deployment_slot: Slot,
    /// Slot in which this entry will become active (can be in the future)
    pub effective_slot: Slot,
    /// How often this entry was used by a transaction
    pub tx_usage_counter: u64,
    /// How often this entry was used by an instruction
    pub ix_usage_counter: u64,
    /// Latest slot in which the entry was used
    pub latest_access_slot: u64,
}

impl View for LoadedProgram {
    type V = LoadedProgram;

    open spec fn view(&self) -> LoadedProgram {
        *self
    }
}

/// What a lookup asks of a program entry beyond being visible on the fork.
#[derive(Clone, Copy, Debug, PartialEq, Eq, Structural)]
pub enum LoadedProgramMatchCriteria {
    DeployedOnOrAfterSlot(Slot),
    Tombstone,
    NoCriteria,
}

/// Time measurements for loading a single [LoadedProgram].
#[derive(Debug)]
pub struct LoadProgramMetrics {
    /// Program address, but as text
    pub program_id: String,
    /// Microseconds it took to create the runtime environment
    pub register_syscalls_us: u64,
    /// Microseconds it took to load the ELF
    pub load_elf_us: u64,
    /// Microseconds it took to verify the code
    pub verify_code_us: u64,
    /// Microseconds it took to compile the code
    pub jit_compile_us: u64,
}

impl LoadedProgram {
    /// An entry becomes effective no earlier than it was deployed.
    pub open spec fn wf(self) -> bool {
        self.effective_slot >= self.deployment_slot
    }

    /// A tombstone for `slot`: no account, both slots `slot`, counters at zero.
    pub open spec fn tombstone_at(slot: Slot, reason: LoadedProgramType) -> LoadedProgram {
        LoadedProgram {
            program: reason,
            account_size: 0,
            deployment_slot: slot,
            effective_slot: slot,
            tx_usage_counter: 0,
            ix_usage_counter: 0,
            latest_access_slot: 0,
        }
    }

    /// The entry with its compiled program dropped, where it has one that was
    /// deployed on-chain: everything but the payload stays.
    pub open spec fn unloaded(self) -> Option<LoadedProgram> {
        match self.program {
            LoadedProgramType::LegacyV0(program)
            | LoadedProgramType::LegacyV1(program)
            | LoadedProgramType::Typed(program) => Some(
                LoadedProgram { program: LoadedProgramType::Unloaded(program.loader), ..self },
            ),
            _ => None,
        }
    }

    /// At `slot` the entry is deployed on-chain but not yet effective, its
    /// delay being the one slot that every deployment waits.
    pub open spec fn implicit_delay_visibility_tombstone(self, slot: Slot) -> bool {
        &&& !(self.program is Builtin)
        &&& self.effective_slot - self.deployment_slot == DELAY_VISIBILITY_SLOT_OFFSET
        &&& self.deployment_slot <= slot < self.effective_slot
    }

    /// The transaction counter halved once for each slot since the last use,
    /// but no more than 63 times.
    pub open spec fn decayed_usage(self, now: Slot) -> u64 {
        let age: int = if now >= self.latest_access_slot {
            now - self.latest_access_slot
        } else {
            0
        };
        let decaying_for: u64 = if age > 63 {
            63
        } else {
            age as u64
        };
        self.tx_usage_counter >> decaying_for
    }

    /// The entry as it is after a use at `slot` by `usage_count` transactions.
    pub open spec fn used(self, slot: Slot, usage_count: u64) -> LoadedProgram {
        LoadedProgram {
            latest_access_slot: if slot > self.latest_access_slot {
                slot
            } else {
                self.latest_access_slot
            },
            tx_usage_counter: wrapping_sum(self.tx_usage_counter, usage_count),
            ..self
        }
    }

    /// Two entries stand for the same version when they agree in both slots
    /// and in whether they are tombstones.
    pub open spec fn same_version(self, other: LoadedProgram) -> bool {
        &&& self.effective_slot == other.effective_slot
        &&& self.deployment_slot == other.deployment_slot
        &&& self.program.tombstone() == other.program.tombstone()
    }

    pub fn to_unloaded(&self) -> (unloaded: Option<Self>)
        ensures
            unloaded == self.unloaded(),
    {
        match &self.program {
            LoadedProgramType::LegacyV0(_)
            | LoadedProgramType::LegacyV1(_)
            | LoadedProgramType::Typed(_) => {},
            LoadedProgramType::FailedVerification(_)
            | LoadedProgramType::Closed
            | LoadedProgramType::DelayVisibility
            | LoadedProgramType::Unloaded(_)
            | LoadedProgramType::Builtin(_) => {
                return None;
            },
        }
        let environment = match self.program.get_environment() {
            Some(environment) => *environment,
            None => {
                return None;
            },
        };
        Some(
            LoadedProgram {
                program: LoadedProgramType::Unloaded(environment),
                account_size: self.account_size,
                deployment_slot: self.deployment_slot,
                effective_slot: self.effective_slot,
                tx_usage_counter: self.tx_usage_counter,
                ix_usage_counter: self.ix_usage_counter,
                latest_access_slot: self.latest_access_slot,
            },
        )
    }

    /// Creates a new built-in program
    pub fn new_builtin(deployment_slot: Slot, account_size: usize, builtin: BuiltinProgram) -> (entry:
        Self)
        ensures
            entry == (LoadedProgram {
                program: LoadedProgramType::Builtin(builtin),
                account_size,
                deployment_slot,
                effective_slot: deployment_slot,
                tx_usage_counter: 0,
                ix_usage_counter: 0,
                latest_access_slot: 0,
            }),
            entry.wf(),
    {
        LoadedProgram {
            deployment_slot,
            account_size,
            effective_slot: deployment_slot,
            tx_usage_counter: 0,
            program: LoadedProgramType::Builtin(builtin),
            ix_usage_counter: 0,
            latest_access_slot: 0,
        }
    }

    pub fn new_tombstone(slot: Slot, reason: LoadedProgramType) -> (tombstone: Self)
        requires
            reason.tombstone(),
        ensures
            tombstone == Self::tombstone_at(slot, reason),
            tombstone.wf(),
    {
        LoadedProgram {
            program: reason,
            account_size: 0,
            deployment_slot: slot,
            effective_slot: slot,
            tx_usage_counter: 0,
            ix_usage_counter: 0,
            latest_access_slot: 0,
        }
    }

    pub fn is_tombstone(&self) -> (tombstone: bool)
        ensures
            tombstone == self.program.tombstone(),
    {
        match self.program {
            LoadedProgramType::FailedVerification(_)
            | LoadedProgramType::Closed
            | LoadedProgramType::DelayVisibility => true,
            _ => false,
        }
    }

    pub fn is_implicit_delay_visibility_tombstone(&self, slot: Slot) -> (delayed: bool)
        ensures
            delayed == self.implicit_delay_visibility_tombstone(slot),
    {
        let builtin = match self.program {
            LoadedProgramType::Builtin(_) => true,
            _ => false,
        };
        !builtin && self.effective_slot.saturating_sub(self.deployment_slot)
            == DELAY_VISIBILITY_SLOT_OFFSET && slot >= self.deployment_slot && slot
            < self.effective_slot
    }

    pub fn update_access_slot(&mut self, slot: Slot)
        ensures
            *final(self) == (LoadedProgram {
                latest_access_slot: if slot > old(self).latest_access_slot {
                    slot
                } else {
                    old(self).latest_access_slot
                },
                ..*old(self)
            }),
    {
        if slot > self.latest_access_slot {
            self.latest_access_slot = slot;
        }
    }

    pub fn decayed_usage_counter(&self, now: Slot) -> (counter: u64)
        ensures
            counter == self.decayed_usage(now),
            counter <= self.tx_usage_counter,
    {
        let last_access = self.latest_access_slot;
        // Shifting the u64 value for more than 63 will cause an overflow.
        let age: u64 = if now >= last_access {
            now - last_access
        } else {
            0
        };
        let decaying_for: u64 = if age > 63 {
            63
        } else {
            age
        };
        let tx_usage_counter = self.tx_usage_counter;
        assert(tx_usage_counter >> decaying_for <= tx_usage_counter) by (bit_vector)
            requires
                decaying_for <= 63,
        ;
        tx_usage_counter >> decaying_for
    }
}

impl PartialEq for LoadedProgram {
    fn eq(&self, other: &Self) -> (equal: bool) {
        self.effective_slot == other.effective_slot && self.deployment_slot
            == other.deployment_slot && self.is_tombstone() == other.is_tombstone()
    }
}

impl vstd::std_specs::cmp::PartialEqSpecImpl for LoadedProgram {
    open spec fn obeys_eq_spec() -> bool {
        true
    }

    open spec fn eq_spec(&self, other: &Self) -> bool {
        self.same_version(*other)
    }
}


/// The payload that a program compiled as `executable` has when its account
/// is owned by the loader at `loader_key`; none where that is no loader of
/// programs.
pub open spec fn payload_for_loader(loader_key: Address, executable: Executable) -> Option<
    LoadedProgramType,
> {
    if loader_key.bytes == BPF_LOADER_DEPRECATED_ID {
        Some(LoadedProgramType::LegacyV0(executable))
    } else if loader_key.bytes == BPF_LOADER_ID || loader_key.bytes == BPF_LOADER_UPGRADEABLE_ID {
        Some(LoadedProgramType::LegacyV1(executable))
    } else if loader_key.bytes == LOADER_V4_ID {
        Some(LoadedProgramType::Typed(executable))
    } else {
        None
    }
}

impl LoadedProgramType {
    /// The payload for a program compiled as `executable`, by the loader
    /// that owns its account.
    pub fn for_loader(loader_key: &Address, executable: Executable) -> (program: Option<Self>)
        ensures
            program == payload_for_loader(*loader_key, executable),
    {
        if is_bpf_loader_deprecated(loader_key) {
            Some(LoadedProgramType::LegacyV0(executable))
        } else if is_bpf_loader(loader_key) || is_bpf_loader_upgradeable(loader_key) {
            Some(LoadedProgramType::LegacyV1(executable))
        } else if is_loader_v4(loader_key) {
            Some(LoadedProgramType::Typed(executable))
        } else {
            None
        }
    }
}

impl LoadedProgram {
    /// Creates a new user program from its compiled form.
    pub fn new(
        loader_key: &Address,
        deployment_slot: Slot,
        effective_slot: Slot,
        executable: Executable,
        account_size: usize,
    ) -> (entry: Self)
        requires
            payload_for_loader(*loader_key, executable) is Some,
            effective_slot >= deployment_slot,
        ensures
            entry == (LoadedProgram {
                program: payload_for_loader(*loader_key, executable)->0,
                account_size,
                deployment_slot,
                effective_slot,
                tx_usage_counter: 0,
                ix_usage_counter: 0,
                latest_access_slot: 0,
            }),
            entry.wf(),
    {
        let program = LoadedProgramType::for_loader(loader_key, executable).unwrap();
        LoadedProgram {
            deployment_slot,
            account_size,
            effective_slot,
            tx_usage_counter: 0,
            program,
            ix_usage_counter: 0,
            latest_access_slot: 0,
        }
    }
}


impl Default for LoadedProgram {
    /// The tombstone of a closed program in slot 0.
    fn default() -> (entry: Self)
        ensures
            entry == LoadedProgram::tombstone_at(0, LoadedProgramType::Closed),
    {
        LoadedProgram::new_tombstone(0, LoadedProgramType::Closed)
    }
}

impl Default for LoadProgramMetrics {
    fn default() -> (metrics: Self)
        ensures
            metrics.program_id@.len() == 0,
            metrics.register_syscalls_us == 0,
            metrics.load_elf_us == 0,
            metrics.verify_code_us == 0,
            metrics.jit_compile_us == 0,
    {
        LoadProgramMetrics {
            program_id: String::new(),
            register_syscalls_us: 0,
            load_elf_us: 0,
            verify_code_us: 0,
            jit_compile_us: 0,
        }
    }
}

} // verus!
