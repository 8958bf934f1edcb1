//! What becomes of a program account when it is loaded, and the rounds in
//! which a batch gets the programs that the cache does not have yet.

use crate::address::Address;
use crate::batch::{BatchView, LoadedProgramsForTxBatch};
use crate::cache::{ProgramCache, ProgramCacheView};
use crate::environment::{ProgramRuntimeEnvironment, ProgramRuntimeEnvironments};
use crate::extract::{counted, extraction, lemma_extraction_frame, Extraction, SearchItem};
use crate::fork_graph::{Epoch, ForkGraph, Slot};
use crate::loaded_program::{
    payload_for_loader, Executable, LoadedProgram, LoadedProgramType,
    DELAY_VISIBILITY_SLOT_OFFSET,
};
use crate::loading_task::LoadingTaskCookie;
use crate::outside::{
    first_slot_in_epoch, get_first_slot_in_epoch, loader_v4_id, program_data_offset,
    size_of_programdata_metadata, LOADER_V4_ID,
};
use crate::second_level::WorkerId;
use solana_sdk::epoch_schedule::EpochSchedule;
use vstd::prelude::*;

verus! {

/// What the accounts of a program tell about it.
#[derive(Clone, Copy, Debug)]
pub enum ProgramAccountLoadResult {
    /// There is no account at the address of the program.
    AccountNotFound,
    /// The account is closed, or it or its program data cannot be read.
    InvalidAccountData,
    /// A program of the first or second loader: the owner of its account
    /// and the length of the account's data, which is the program.
    ProgramOfLoaderV1orV2 { owner: Address, data_len: usize },
    /// A program of the upgradeable loader: the owner of its account, the
    /// lengths of the data of the account and of its program data account,
    /// which holds the program behind some metadata, and the slot in which
    /// it was deployed.
    ProgramOfLoaderV3 {
        owner: Address,
        program_data_len: usize,
        programdata_data_len: usize,
        slot: Slot,
    },
    /// A program of the fourth loader: the length of the data of its
    /// account, which holds the program behind its state, and the slot in
    /// which it was deployed.
    ProgramOfLoaderV4 { data_len: usize, slot: Slot },
}

/// The account whose data holds the program.
#[derive(Clone, Copy, Debug, PartialEq, Eq, Structural)]
pub enum ProgramSource {
    /// The account of the program itself.
    ProgramAccount,
    /// The program data account of a program of the upgradeable loader.
    ProgramDataAccount,
}

/// A program to load, verify and compile.
#[derive(Clone, Copy, Debug)]
pub struct ProgramLoadRequest {
    /// The account whose data holds the program.
    pub source: ProgramSource,
    /// Where in that data the program begins.
    pub offset: usize,
    /// The loader that owns the program.
    pub loader_key: Address,
    /// The size of the accounts that store the program.
    pub account_size: usize,
    /// The slot in which the program was deployed.
    pub deployment_slot: Slot,
    /// The environment to load the program under.
    pub environment: ProgramRuntimeEnvironment,
    /// The program was verified before: verification may be skipped.
    pub reloading: bool,
}

/// What is to be done about a program account.
#[derive(Clone, Copy, Debug)]
pub enum ProgramLoadPlan {
    /// Nothing is to be loaded: this entry stands for the program.
    Settled(LoadedProgram),
    /// The program is to be loaded as the request says.
    Load(ProgramLoadRequest),
}

/// What came of loading a program.
#[derive(Clone, Copy, Debug, PartialEq, Eq, Structural)]
pub enum ProgramLoadOutcome {
    /// The program was loaded, verified and compiled.
    Loaded(Executable),
    /// The bytes are no program that can be loaded, or loading broke down.
    Invalid,
    /// The program was read, but the verifier or the compiler rejected it
    /// under the environment of the request.
    Rejected,
}

/// What is to be done about a program whose accounts tell `accounts`, for a
/// batch of `slot` under `environments`.
///
/// A program without an account, or whose account cannot be read, or whose
/// data is too short to hold a program behind its metadata, is settled as
/// closed in `slot`. Everything else is loaded: programs of the first two
/// loaders as deployed in slot 0 and from the start of their account, the
/// others from behind their metadata; programs of the fourth loader under
/// the second environment, the others under the first.
pub open spec fn load_plan(
    accounts: ProgramAccountLoadResult,
    environments: ProgramRuntimeEnvironments,
    slot: Slot,
    reload: bool,
) -> ProgramLoadPlan {
    let closed = ProgramLoadPlan::Settled(
        LoadedProgram::tombstone_at(slot, LoadedProgramType::Closed),
    );
    match accounts {
        ProgramAccountLoadResult::AccountNotFound => closed,
        ProgramAccountLoadResult::InvalidAccountData => closed,
        ProgramAccountLoadResult::ProgramOfLoaderV1orV2 { owner, data_len } => {
            ProgramLoadPlan::Load(
                ProgramLoadRequest {
                    source: ProgramSource::ProgramAccount,
                    offset: 0,
                    loader_key: owner,
                    account_size: data_len,
                    deployment_slot: 0,
                    environment: environments.program_runtime_v1,
                    reloading: reload,
                },
            )
        },
        ProgramAccountLoadResult::ProgramOfLoaderV3 {
            owner,
            program_data_len,
            programdata_data_len,
            slot: deployment_slot,
        } => {
            if programdata_data_len < 45 {
                closed
            } else {
                ProgramLoadPlan::Load(
                    ProgramLoadRequest {
                        source: ProgramSource::ProgramDataAccount,
                        offset: 45,
                        loader_key: owner,
                        account_size: if program_data_len + programdata_data_len > usize::MAX {
                            usize::MAX
                        } else {
                            (program_data_len + programdata_data_len) as usize
                        },
                        deployment_slot,
                        environment: environments.program_runtime_v1,
                        reloading: reload,
                    },
                )
            }
        },
        ProgramAccountLoadResult::ProgramOfLoaderV4 { data_len, slot: deployment_slot } => {
            if data_len < 48 {
                closed
            } else {
                ProgramLoadPlan::Load(
                    ProgramLoadRequest {
                        source: ProgramSource::ProgramAccount,
                        offset: 48,
                        loader_key: Address { bytes: LOADER_V4_ID },
                        account_size: data_len,
                        deployment_slot,
                        environment: environments.program_runtime_v2,
                        reloading: reload,
                    },
                )
            }
        },
    }
}

/// The slot in which a program deployed in `deployment_slot` becomes
/// effective: the next one, if there is a next one.
pub open spec fn effective_after(deployment_slot: Slot) -> Slot {
    if deployment_slot == u64::MAX {
        u64::MAX
    } else {
        (deployment_slot + DELAY_VISIBILITY_SLOT_OFFSET) as u64
    }
}

/// The entry for a program that was to be loaded as `request` says for a
/// batch of `slot`: the compiled program, effective one slot after its
/// deployment; where the bytes were no program, or the account is owned by
/// no loader of programs, a tombstone for a closed program; and where the
/// program was rejected, a tombstone that names the environment under which
/// it failed. The tombstones are of `slot`.
pub open spec fn loaded_entry(
    request: ProgramLoadRequest,
    outcome: ProgramLoadOutcome,
    slot: Slot,
) -> LoadedProgram {
    match outcome {
        ProgramLoadOutcome::Loaded(executable) => match payload_for_loader(
            request.loader_key,
            executable,
        ) {
            Some(program) => LoadedProgram {
                program,
                account_size: request.account_size,
                deployment_slot: request.deployment_slot,
                effective_slot: effective_after(request.deployment_slot),
                tx_usage_counter: 0,
                ix_usage_counter: 0,
                latest_access_slot: 0,
            },
            None => LoadedProgram::tombstone_at(slot, LoadedProgramType::Closed),
        },
        ProgramLoadOutcome::Invalid => LoadedProgram::tombstone_at(slot, LoadedProgramType::Closed),
        ProgramLoadOutcome::Rejected => LoadedProgram::tombstone_at(
            slot,
            LoadedProgramType::FailedVerification(request.environment),
        ),
    }
}

/// The entry as it goes into the cache after it was made in `slot` under
/// `environments`: where these are not the current environments of the
/// cache, the entry becomes effective no earlier than the epoch that they
/// are for begins; and it counts as used in `slot`.
pub open spec fn published_entry(
    entry: LoadedProgram,
    environments: ProgramRuntimeEnvironments,
    cache_environments: ProgramRuntimeEnvironments,
    first_slot_in_effective_epoch: Slot,
    slot: Slot,
) -> LoadedProgram {
    LoadedProgram {
        effective_slot: if environments != cache_environments && first_slot_in_effective_epoch
            > entry.effective_slot {
            first_slot_in_effective_epoch
        } else {
            entry.effective_slot
        },
        latest_access_slot: if slot > entry.latest_access_slot {
            slot
        } else {
            entry.latest_access_slot
        },
        ..entry
    }
}

/// Says what is to be done about a program, given what its accounts tell.
pub fn plan_program_load(
    accounts: &ProgramAccountLoadResult,
    environments: &ProgramRuntimeEnvironments,
    slot: Slot,
    reload: bool,
) -> (plan: ProgramLoadPlan)
    ensures
        plan == load_plan(*accounts, *environments, slot, reload),
{
    let closed = ProgramLoadPlan::Settled(
        LoadedProgram::new_tombstone(slot, LoadedProgramType::Closed),
    );
    match accounts {
        ProgramAccountLoadResult::AccountNotFound => closed,
        ProgramAccountLoadResult::InvalidAccountData => closed,
        ProgramAccountLoadResult::ProgramOfLoaderV1orV2 { owner, data_len } => {
            ProgramLoadPlan::Load(
                ProgramLoadRequest {
                    source: ProgramSource::ProgramAccount,
                    offset: 0,
                    loader_key: *owner,
                    account_size: *data_len,
                    deployment_slot: 0,
                    environment: environments.program_runtime_v1,
                    reloading: reload,
                },
            )
        },
        ProgramAccountLoadResult::ProgramOfLoaderV3 {
            owner,
            program_data_len,
            programdata_data_len,
            slot: deployment_slot,
        } => {
            let offset = size_of_programdata_metadata();
            if *programdata_data_len < offset {
                closed
            } else {
                ProgramLoadPlan::Load(
                    ProgramLoadRequest {
                        source: ProgramSource::ProgramDataAccount,
                        offset,
                        loader_key: *owner,
                        account_size: program_data_len.saturating_add(*programdata_data_len),
                        deployment_slot: *deployment_slot,
                        environment: environments.program_runtime_v1,
                        reloading: reload,
                    },
                )
            }
        },
        ProgramAccountLoadResult::ProgramOfLoaderV4 { data_len, slot: deployment_slot } => {
            let offset = program_data_offset();
            if *data_len < offset {
                closed
            } else {
                let loader_key = loader_v4_id();
                assert(loader_key == (Address { bytes: LOADER_V4_ID }));
                ProgramLoadPlan::Load(
                    ProgramLoadRequest {
                        source: ProgramSource::ProgramAccount,
                        offset,
                        loader_key,
                        account_size: *data_len,
                        deployment_slot: *deployment_slot,
                        environment: environments.program_runtime_v2,
                        reloading: reload,
                    },
                )
            }
        },
    }
}

/// Makes the entry for a program that was to be loaded as `request` says
/// for a batch of `slot`, out of what came of loading it.
pub fn load_program_from_bytes(
    request: &ProgramLoadRequest,
    outcome: ProgramLoadOutcome,
    slot: Slot,
) -> (entry: LoadedProgram)
    ensures
        entry == loaded_entry(*request, outcome, slot),
        entry.wf(),
{
    match outcome {
        ProgramLoadOutcome::Loaded(executable) => {
            match LoadedProgramType::for_loader(&request.loader_key, executable) {
                Some(_) => LoadedProgram::new(
                    &request.loader_key,
                    request.deployment_slot,
                    request.deployment_slot.saturating_add(DELAY_VISIBILITY_SLOT_OFFSET),
                    executable,
                    request.account_size,
                ),
                None => LoadedProgram::new_tombstone(slot, LoadedProgramType::Closed),
            }
        },
        ProgramLoadOutcome::Invalid => LoadedProgram::new_tombstone(
            slot,
            LoadedProgramType::Closed,
        ),
        ProgramLoadOutcome::Rejected => LoadedProgram::new_tombstone(
            slot,
            LoadedProgramType::FailedVerification(request.environment),
        ),
    }
}

/// Makes an entry that was made in `slot` under `environments` ready for a
/// cache whose current environments are `cache_environments`, the epoch
/// that `environments` are for beginning in `first_slot_in_effective_epoch`.
///
/// There can be two entries per program when the environment changes.
/// One for the old environment before the epoch boundary and one for the new environment after the epoch boundary.
/// These two entries have the same deployment slot, so they must differ in their effective slot instead.
/// This is done by setting the effective slot of the entry for the new environment to the epoch boundary.
pub fn publish_at(
    entry: LoadedProgram,
    environments: &ProgramRuntimeEnvironments,
    cache_environments: &ProgramRuntimeEnvironments,
    first_slot_in_effective_epoch: Slot,
    slot: Slot,
) -> (published: LoadedProgram)
    ensures
        published == published_entry(
            entry,
            *environments,
            *cache_environments,
            first_slot_in_effective_epoch,
            slot,
        ),
        entry.wf() ==> published.wf(),
{
    let mut loaded_program = entry;
    if environments.program_runtime_v1 != cache_environments.program_runtime_v1
        || environments.program_runtime_v2 != cache_environments.program_runtime_v2 {
        if first_slot_in_effective_epoch > loaded_program.effective_slot {
            loaded_program.effective_slot = first_slot_in_effective_epoch;
        }
    }
    loaded_program.update_access_slot(slot);
    loaded_program
}

/// Makes an entry that was made in `slot` under the environments of
/// `effective_epoch` ready for the cache, the epochs beginning where the
/// schedule says.
pub fn publish_loaded_program(
    entry: LoadedProgram,
    cache: &ProgramCache,
    epoch_schedule: &EpochSchedule,
    effective_epoch: Epoch,
    slot: Slot,
) -> (published: LoadedProgram)
    ensures
        published == published_entry(
            entry,
            cache@.environments_for_epoch(effective_epoch),
            cache@.environments,
            first_slot_in_epoch(*epoch_schedule, effective_epoch),
            slot,
        ),
        entry.wf() ==> published.wf(),
{
    publish_at(
        entry,
        cache.get_environments_for_epoch(effective_epoch),
        &cache.environments,
        get_first_slot_in_epoch(epoch_schedule, effective_epoch),
        slot,
    )
}

impl LoadedProgramsForTxBatch {
    pub fn new_from_cache(slot: Slot, epoch: Epoch, cache: &ProgramCache) -> (batch: Self)
        ensures
            batch.wf(),
            batch@ == BatchView::from_cache(slot, epoch, cache@),
    {
        LoadedProgramsForTxBatch::new(
            slot,
            *cache.get_environments_for_epoch(epoch),
            cache.get_upcoming_environments_for_epoch(epoch),
            cache.latest_root_epoch,
        )
    }
}

impl BatchView {
    /// A batch of `slot` in `epoch` that has no programs yet, with the
    /// environments that the cache has for that epoch.
    pub open spec fn from_cache(slot: Slot, epoch: Epoch, cache: ProgramCacheView) -> BatchView {
        BatchView {
            keys: Seq::empty(),
            entries: Map::empty(),
            slot,
            environments: cache.environments_for_epoch(epoch),
            upcoming_environments: cache.upcoming_environments_for_epoch(epoch),
            latest_root_epoch: cache.latest_root_epoch,
            hit_max_limit: false,
        }
    }
}

/// What the worker of a batch has to do next to get the programs of the
/// batch.
#[derive(Clone, Copy, Debug, PartialEq, Eq)]
pub enum ReplenishAction {
    /// Load this program, used by this many transactions, and hand it in
    /// with the next round.
    Load(Address, u64),
    /// Wait until the cookie of the loading tasks is no longer this one:
    /// other workers are loading what the batch misses.
    Wait(LoadingTaskCookie),
    /// Nothing: the batch is complete, or it was given up.
    Finished,
}

/// The rounds in which the worker of one batch gets the programs of the
/// batch from the cache, loading those that the cache lacks and that no
/// other worker is loading. Each round is made while the caller holds the
/// cache and the fork graph still; between the rounds the worker loads or
/// waits, and holds neither.
#[derive(Debug)]
pub struct ProgramCacheReplenishment {
    /// The slot of the batch.
    pub slot: Slot,
    /// The epoch of the batch.
    pub epoch: Epoch,
    /// The worker of the batch.
    pub worker: WorkerId,
    /// Whether the batch is given up when a program that was loaded for it
    /// finds its place in the cache taken.
    pub limit_to_load_programs: bool,
    /// The programs that the batch still misses.
    pub missing_programs: Vec<SearchItem>,
    /// The programs that the batch has; none before the first round.
    pub loaded_programs_for_txs: Option<LoadedProgramsForTxBatch>,
    /// The program that the worker loaded since the last round.
    pub program_to_store: Option<(Address, LoadedProgram)>,
}

/// Where the rounds of a batch stand: the cache, the batch, and what the
/// worker has to do.
pub struct ReplenishRound {
    pub cache: ProgramCacheView,
    pub batch: BatchView,
    pub missing_programs: Seq<SearchItem>,
    pub finished: bool,
    pub task: Option<(Address, u64)>,
}

/// One round for a batch of `slot` in `epoch`.
///
/// The batch starts out empty. A program that the worker loaded is handed
/// in; if its place was taken and `limit` holds, the batch is given up: it
/// is marked, and the round ends. Otherwise the programs that the batch
/// misses are extracted, a first round being counted. The batch is
/// finished when no task fell to the worker and nothing is missing.
pub open spec fn replenish_round<FG: ForkGraph>(
    graph: &FG,
    cache: ProgramCacheView,
    batch: Option<BatchView>,
    missing_programs: Seq<SearchItem>,
    program_to_store: Option<(Address, LoadedProgram)>,
    slot: Slot,
    epoch: Epoch,
    worker: WorkerId,
    limit: bool,
) -> ReplenishRound {
    let is_first_round = batch is None;
    let started = if is_first_round {
        BatchView::from_cache(slot, epoch, cache)
    } else {
        batch->0
    };
    let stored = match program_to_store {
        Some((key, program)) => cache.finish_cooperative_loading_task(graph, slot, key, program),
        None => cache,
    };
    let given_up = match program_to_store {
        Some((key, program)) => limit && cache.assign_rejected(key, program),
        None => false,
    };
    if given_up {
        ReplenishRound {
            cache: stored,
            batch: BatchView { hit_max_limit: true, ..started },
            missing_programs,
            finished: true,
            task: None,
        }
    } else {
        let result = extraction(graph, stored, started, missing_programs, worker);
        ReplenishRound {
            cache: counted(result, is_first_round),
            batch: result.batch,
            missing_programs: result.remaining,
            finished: result.task is None && result.remaining.len() == 0,
            task: result.task,
        }
    }
}

impl ProgramCacheReplenishment {
    /// The batch is well-formed, if there is one, and the program to hand
    /// in, if there is one, is.
    pub open spec fn wf(&self) -> bool {
        &&& self.loaded_programs_for_txs matches Some(batch) ==> batch.wf() && batch.slot
            == self.slot
        &&& self.program_to_store matches Some((_, program)) ==> program.wf()
    }

    /// The programs that the batch has, before the first round none.
    pub open spec fn batch_view(&self) -> Option<BatchView> {
        match self.loaded_programs_for_txs {
            Some(batch) => Some(batch@),
            None => None,
        }
    }

    /// Begins the rounds for a batch that needs the given programs.
    pub fn new(
        slot: Slot,
        epoch: Epoch,
        worker: WorkerId,
        limit_to_load_programs: bool,
        missing_programs: Vec<SearchItem>,
    ) -> (rounds: Self)
        ensures
            rounds.wf(),
            rounds.slot == slot,
            rounds.epoch == epoch,
            rounds.worker == worker,
            rounds.limit_to_load_programs == limit_to_load_programs,
            rounds.missing_programs == missing_programs,
            rounds.loaded_programs_for_txs is None,
            rounds.program_to_store is None,
    {
        ProgramCacheReplenishment {
            slot,
            epoch,
            worker,
            limit_to_load_programs,
            missing_programs,
            loaded_programs_for_txs: None,
            program_to_store: None,
        }
    }

    /// Takes the program that the worker loaded for `key`, to hand it in
    /// with the next round. It counts as used by as many transactions as
    /// use it in the batch.
    pub fn store(&mut self, key: Address, program: LoadedProgram, usage_count: u64)
        requires
            old(self).wf(),
            program.wf(),
        ensures
            final(self).wf(),
            final(self).program_to_store == Some(
                (key, LoadedProgram { tx_usage_counter: usage_count, ..program }),
            ),
            final(self).slot == old(self).slot,
            final(self).epoch == old(self).epoch,
            final(self).worker == old(self).worker,
            final(self).limit_to_load_programs == old(self).limit_to_load_programs,
            final(self).missing_programs == old(self).missing_programs,
            final(self).loaded_programs_for_txs == old(self).loaded_programs_for_txs,
    {
        let mut program = program;
        program.tx_usage_counter = usage_count;
        self.program_to_store = Some((key, program));
    }

    /// Makes one round, and says what the worker has to do next.
    pub fn round<FG: ForkGraph>(&mut self, cache: &mut ProgramCache, fork_graph: &FG) -> (action:
        ReplenishAction)
        requires
            old(self).wf(),
            old(cache).wf(),
            old(self).program_to_store matches Some((key, _)) ==> old(cache)@.level(
                key,
            ).cooperative_loading_lock == Some((old(self).slot, old(self).worker)),
        ensures
            final(self).wf(),
            final(cache).wf(),
            final(cache).loading_task_waiter == old(cache).loading_task_waiter,
            final(self).slot == old(self).slot,
            final(self).epoch == old(self).epoch,
            final(self).worker == old(self).worker,
            final(self).limit_to_load_programs == old(self).limit_to_load_programs,
            final(self).program_to_store is None,
            ({
                let round = replenish_round(
                    fork_graph,
                    old(cache)@,
                    old(self).batch_view(),
                    old(self).missing_programs@,
                    old(self).program_to_store,
                    old(self).slot,
                    old(self).epoch,
                    old(self).worker,
                    old(self).limit_to_load_programs,
                );
                &&& final(cache)@ == round.cache
                &&& final(self).batch_view() == Some(round.batch)
                &&& final(self).missing_programs@ == round.missing_programs
                &&& match action {
                    ReplenishAction::Load(key, usage_count) => round.task == Some(
                        (key, usage_count),
                    ),
                    ReplenishAction::Wait(_) => round.task is None && !round.finished,
                    ReplenishAction::Finished => round.task is None && round.finished,
                }
            }),
    {
        // Initialize our local cache.
        let is_first_round = self.loaded_programs_for_txs.is_none();
        let mut batch = match self.loaded_programs_for_txs.take() {
            Some(batch) => batch,
            None => LoadedProgramsForTxBatch::new_from_cache(self.slot, self.epoch, cache),
        };
        // Submit our last completed loading task.
        if let Some((key, program)) = self.program_to_store.take() {
            if cache.finish_cooperative_loading_task(
                fork_graph,
                self.slot,
                key,
                program,
                self.worker,
            ) && self.limit_to_load_programs {
                // This branch is taken when there is an error in assigning a program to a
                // cache slot.
                batch.hit_max_limit = true;
                self.loaded_programs_for_txs = Some(batch);
                return ReplenishAction::Finished;
            }
        }
        proof {
            lemma_extraction_frame(
                fork_graph,
                Extraction {
                    cache: cache@,
                    batch: batch@,
                    remaining: Seq::empty(),
                    task: None,
                },
                self.missing_programs@,
                self.missing_programs@.len() as int,
                self.worker,
            );
        }
        // Figure out which program needs to be loaded next.
        let program_to_load = cache.extract(
            fork_graph,
            &mut self.missing_programs,
            &mut batch,
            is_first_round,
            self.worker,
        );
        let task_cookie = cache.loading_task_waiter.cookie();
        let finished = self.missing_programs.is_empty();
        self.loaded_programs_for_txs = Some(batch);
        match program_to_load {
            Some((key, count)) => ReplenishAction::Load(key, count),
            None => {
                if finished {
                    ReplenishAction::Finished
                } else {
                    // Sleep until the next finish_cooperative_loading_task() call.
                    // Once a task completes we'll wake up and try to load the
                    // missing programs inside the tx batch again.
                    ReplenishAction::Wait(task_cookie)
                }
            },
        }
    }

    /// Ends the rounds and hands out the programs of the batch.
    pub fn finish(self) -> (batch: Option<LoadedProgramsForTxBatch>)
        ensures
            batch == self.loaded_programs_for_txs,
    {
        self.loaded_programs_for_txs
    }
}


/// The number that eight bytes stand for, the least significant first.
pub open spec fn le_u64(bytes: Seq<u8>) -> int {
    bytes[0] + bytes[1] * 0x100 + bytes[2] * 0x1_0000 + bytes[3] * 0x100_0000 + bytes[4]
        * 0x1_0000_0000 + bytes[5] * 0x100_0000_0000 + bytes[6] * 0x1_0000_0000_0000 + bytes[7]
        * 0x100_0000_0000_0000
}

/// The slot in which the program of an account of the fourth loader was
/// deployed, as the data of the account says.
///
/// The data begins with the state of the program: the slot of its last
/// deployment in eight bytes, the address of its authority, and its status
/// in eight more bytes, all numbers least significant byte first. There is
/// no program to load where the data is too short for a state, or where the
/// status is 0, which says that the program is retracted.
pub open spec fn loader_v4_deployment(data: Seq<u8>) -> Option<Slot> {
    if data.len() < 48 || le_u64(data.subrange(40, 48)) == 0 {
        None
    } else {
        Some(le_u64(data.subrange(0, 8)) as u64)
    }
}

/// Reads eight bytes of `data` from `at` on as a number, the least
/// significant byte first.
pub fn read_le_u64(data: &[u8], at: usize) -> (number: u64)
    requires
        at + 8 <= data@.len(),
    ensures
        number == le_u64(data@.subrange(at as int, at + 8)),
{
    let ghost bytes = data@.subrange(at as int, at + 8);
    assert(bytes[0] == data@[at + 0] && bytes[1] == data@[at + 1] && bytes[2] == data@[at + 2]
        && bytes[3] == data@[at + 3] && bytes[4] == data@[at + 4] && bytes[5] == data@[at + 5]
        && bytes[6] == data@[at + 6] && bytes[7] == data@[at + 7]);
    (data[at] as u64) + (data[at + 1] as u64) * 0x100 + (data[at + 2] as u64) * 0x1_0000 + (data[at
        + 3] as u64) * 0x100_0000 + (data[at + 4] as u64) * 0x1_0000_0000 + (data[at + 5] as u64)
        * 0x100_0000_0000 + (data[at + 6] as u64) * 0x1_0000_0000_0000 + (data[at + 7] as u64)
        * 0x100_0000_0000_0000
}

/// Reads from the data of an account of the fourth loader the slot in which
/// its program was deployed, if it holds a program that is not retracted.
pub fn loader_v4_deployment_slot(data: &[u8]) -> (slot: Option<Slot>)
    ensures
        slot == loader_v4_deployment(data@),
{
    if data.len() < program_data_offset() {
        return None;
    }
    let status = read_le_u64(data, 40);
    if status == 0 {
        return None;
    }
    Some(read_le_u64(data, 0))
}

} // verus!
