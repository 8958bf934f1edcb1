use program_cache::address::Address;
use program_cache::cache::ProgramCache;
use program_cache::environment::{ProgramRuntimeEnvironment, ProgramRuntimeEnvironments};
use program_cache::extract::SearchItem;
use program_cache::fork_graph::{BlockRelation, Epoch, ForkGraph, Slot};
use program_cache::loaded_program::{
    Executable, LoadedProgram, LoadedProgramMatchCriteria, LoadedProgramType,
};
use program_cache::loader::{
    load_program_from_bytes, loader_v4_deployment_slot, plan_program_load,
    publish_loaded_program, ProgramAccountLoadResult, ProgramCacheReplenishment,
    ProgramLoadOutcome, ProgramLoadPlan, ProgramLoadRequest, ProgramSource, ReplenishAction,
};
use program_cache::loading_task::LoadingTaskCookie;
use program_cache::outside::{BPF_LOADER_DEPRECATED_ID, BPF_LOADER_UPGRADEABLE_ID, LOADER_V4_ID};
use solana_sdk::epoch_schedule::EpochSchedule;
use solana_sdk::loader_v4::{LoaderV4State, LoaderV4Status};

/// All slots lie on one fork.
struct OneFork;

impl ForkGraph for OneFork {
    fn relationship(&self, a: Slot, b: Slot) -> BlockRelation {
        if a < b {
            BlockRelation::Ancestor
        } else if a == b {
            BlockRelation::Equal
        } else {
            BlockRelation::Descendant
        }
    }

    fn slot_epoch(&self, _slot: Slot) -> Option<Epoch> {
        Some(0)
    }
}

fn key(n: u8) -> Address {
    Address::new([n; 32])
}

fn env(id: u64) -> ProgramRuntimeEnvironment {
    ProgramRuntimeEnvironment { id }
}

fn environments(v1: u64, v2: u64) -> ProgramRuntimeEnvironments {
    ProgramRuntimeEnvironments {
        program_runtime_v1: env(v1),
        program_runtime_v2: env(v2),
    }
}

fn request(plan: ProgramLoadPlan) -> ProgramLoadRequest {
    match plan {
        ProgramLoadPlan::Load(request) => request,
        ProgramLoadPlan::Settled(entry) => panic!("settled as {entry:?}"),
    }
}

fn settled(plan: ProgramLoadPlan) -> LoadedProgram {
    match plan {
        ProgramLoadPlan::Settled(entry) => entry,
        ProgramLoadPlan::Load(request) => panic!("to load as {request:?}"),
    }
}

#[test]
fn invalid_account_is_settled_as_closed() {
    for accounts in [
        ProgramAccountLoadResult::InvalidAccountData,
        ProgramAccountLoadResult::AccountNotFound,
    ] {
        let entry = settled(plan_program_load(&accounts, &environments(1, 2), 77, false));
        assert_eq!(entry.program, LoadedProgramType::Closed);
        assert_eq!(entry.deployment_slot, 77);
        assert_eq!(entry.effective_slot, 77);
        assert_eq!(entry.account_size, 0);
    }
}

#[test]
fn program_of_the_first_loaders_is_loaded_whole() {
    let owner = Address::new(BPF_LOADER_DEPRECATED_ID);
    let plan = request(plan_program_load(
        &ProgramAccountLoadResult::ProgramOfLoaderV1orV2 {
            owner,
            data_len: 1000,
        },
        &environments(1, 2),
        77,
        true,
    ));
    assert_eq!(plan.source, ProgramSource::ProgramAccount);
    assert_eq!(plan.offset, 0);
    assert!(plan.loader_key == owner);
    assert_eq!(plan.account_size, 1000);
    assert_eq!(plan.deployment_slot, 0);
    assert_eq!(plan.environment, env(1));
    assert!(plan.reloading);
}

#[test]
fn upgradeable_program_is_loaded_from_behind_its_metadata() {
    let owner = Address::new(BPF_LOADER_UPGRADEABLE_ID);
    let plan = request(plan_program_load(
        &ProgramAccountLoadResult::ProgramOfLoaderV3 {
            owner,
            program_data_len: 36,
            programdata_data_len: 45,
            slot: 50,
        },
        &environments(1, 2),
        77,
        false,
    ));
    assert_eq!(plan.source, ProgramSource::ProgramDataAccount);
    assert_eq!(plan.offset, 45);
    assert_eq!(
        plan.offset,
        solana_sdk::bpf_loader_upgradeable::UpgradeableLoaderState::size_of_programdata_metadata()
    );
    assert!(plan.loader_key == owner);
    assert_eq!(plan.account_size, 81);
    assert_eq!(plan.deployment_slot, 50);
    assert_eq!(plan.environment, env(1));
    assert!(!plan.reloading);

    let plan = request(plan_program_load(
        &ProgramAccountLoadResult::ProgramOfLoaderV3 {
            owner,
            program_data_len: usize::MAX,
            programdata_data_len: 45,
            slot: 50,
        },
        &environments(1, 2),
        77,
        false,
    ));
    assert_eq!(plan.account_size, usize::MAX);
}

#[test]
fn upgradeable_program_without_room_for_metadata_is_closed() {
    let entry = settled(plan_program_load(
        &ProgramAccountLoadResult::ProgramOfLoaderV3 {
            owner: Address::new(BPF_LOADER_UPGRADEABLE_ID),
            program_data_len: 36,
            programdata_data_len: 44,
            slot: 50,
        },
        &environments(1, 2),
        77,
        false,
    ));
    assert_eq!(entry.program, LoadedProgramType::Closed);
    assert_eq!(entry.deployment_slot, 77);
    assert_eq!(entry.effective_slot, 77);
}

#[test]
fn program_of_the_fourth_loader_is_loaded_from_behind_its_state() {
    let plan = request(plan_program_load(
        &ProgramAccountLoadResult::ProgramOfLoaderV4 {
            data_len: 48,
            slot: 60,
        },
        &environments(1, 2),
        77,
        false,
    ));
    assert_eq!(plan.source, ProgramSource::ProgramAccount);
    assert_eq!(plan.offset, 48);
    assert_eq!(
        plan.offset,
        solana_sdk::loader_v4::LoaderV4State::program_data_offset()
    );
    assert!(plan.loader_key == Address::new(LOADER_V4_ID));
    assert_eq!(plan.account_size, 48);
    assert_eq!(plan.deployment_slot, 60);
    assert_eq!(plan.environment, env(2));

    let entry = settled(plan_program_load(
        &ProgramAccountLoadResult::ProgramOfLoaderV4 {
            data_len: 47,
            slot: 60,
        },
        &environments(1, 2),
        77,
        false,
    ));
    assert_eq!(entry.program, LoadedProgramType::Closed);
    assert_eq!(entry.deployment_slot, 77);
}

#[test]
fn loaded_program_becomes_effective_a_slot_later() {
    let plan = request(plan_program_load(
        &ProgramAccountLoadResult::ProgramOfLoaderV4 {
            data_len: 500,
            slot: 60,
        },
        &environments(1, 2),
        77,
        false,
    ));
    let executable = Executable {
        loader: env(2),
        handle: 5,
    };
    let entry = load_program_from_bytes(&plan, ProgramLoadOutcome::Loaded(executable), 77);
    assert_eq!(entry.program, LoadedProgramType::Typed(executable));
    assert_eq!(entry.deployment_slot, 60);
    assert_eq!(entry.effective_slot, 61);
    assert_eq!(entry.account_size, 500);
    assert_eq!(entry.tx_usage_counter, 0);

    // In the last slot there is no slot later.
    let last = ProgramLoadRequest {
        deployment_slot: u64::MAX,
        ..plan
    };
    assert_eq!(
        load_program_from_bytes(&last, ProgramLoadOutcome::Loaded(executable), 77).effective_slot,
        u64::MAX
    );
}

#[test]
fn failed_load_leaves_a_tombstone() {
    let plan = request(plan_program_load(
        &ProgramAccountLoadResult::ProgramOfLoaderV3 {
            owner: Address::new(BPF_LOADER_UPGRADEABLE_ID),
            program_data_len: 36,
            programdata_data_len: 1000,
            slot: 50,
        },
        &environments(1, 2),
        77,
        false,
    ));
    // What the verifier rejects may pass under another environment.
    let entry = load_program_from_bytes(&plan, ProgramLoadOutcome::Rejected, 77);
    assert_eq!(entry.program, LoadedProgramType::FailedVerification(env(1)));
    assert_eq!(entry.deployment_slot, 77);
    assert_eq!(entry.effective_slot, 77);
    assert_eq!(entry.account_size, 0);
    // A program of no known loader is as good as closed.
    let strange = ProgramLoadRequest {
        loader_key: key(9),
        ..plan
    };
    let loaded = ProgramLoadOutcome::Loaded(Executable {
        loader: env(1),
        handle: 1,
    });
    let entry = load_program_from_bytes(&strange, loaded, 77);
    assert_eq!(entry.program, LoadedProgramType::Closed);
    assert_eq!(entry.deployment_slot, 77);
    // What is no program at all is as good as closed.
    let entry = load_program_from_bytes(&plan, ProgramLoadOutcome::Invalid, 77);
    assert_eq!(entry.program, LoadedProgramType::Closed);
    assert_eq!(entry.deployment_slot, 77);
    assert_eq!(entry.effective_slot, 77);
}

#[test]
fn published_program_counts_as_used() {
    let mut cache = ProgramCache::new(0, 0);
    cache.environments = environments(1, 2);
    let schedule = EpochSchedule::without_warmup();
    let entry = LoadedProgram::new_tombstone(10, LoadedProgramType::Closed);
    let published = publish_loaded_program(entry, &cache, &schedule, 0, 33);
    assert_eq!(published.effective_slot, 10);
    assert_eq!(published.latest_access_slot, 33);
    assert_eq!(published.deployment_slot, 10);
}

#[test]
fn program_for_the_next_epoch_waits_for_it() {
    let mut cache = ProgramCache::new(0, 0);
    cache.environments = environments(1, 2);
    cache.upcoming_environments = Some(environments(3, 4));
    let schedule = EpochSchedule::without_warmup();
    let boundary = schedule.get_first_slot_in_epoch(1);
    assert_eq!(boundary, 432_000);
    let entry = LoadedProgram {
        effective_slot: 431_991,
        ..LoadedProgram::new_tombstone(431_990, LoadedProgramType::Closed)
    };
    // In the epoch of the root the entry is for the current environments.
    let published = publish_loaded_program(entry, &cache, &schedule, 0, 431_995);
    assert_eq!(published.effective_slot, 431_991);
    // In the next epoch it is for the upcoming ones.
    let published = publish_loaded_program(entry, &cache, &schedule, 1, 431_995);
    assert_eq!(published.effective_slot, 432_000);
    assert_eq!(published.latest_access_slot, 431_995);
    // An entry that becomes effective later stays as it is.
    let late = LoadedProgram {
        deployment_slot: 432_010,
        effective_slot: 432_011,
        ..entry
    };
    let published = publish_loaded_program(late, &cache, &schedule, 1, 431_995);
    assert_eq!(published.effective_slot, 432_011);
    // With warmup the epochs begin elsewhere.
    let warmup = EpochSchedule::default();
    assert_eq!(warmup.get_first_slot_in_epoch(1), 32);
    let published = publish_loaded_program(
        LoadedProgram::new_tombstone(5, LoadedProgramType::Closed),
        &cache,
        &warmup,
        1,
        6,
    );
    assert_eq!(published.effective_slot, 32);
}

fn typed(deployment_slot: Slot) -> LoadedProgram {
    LoadedProgram {
        program: LoadedProgramType::Typed(Executable {
            loader: env(2),
            handle: deployment_slot,
        }),
        account_size: 0,
        deployment_slot,
        effective_slot: deployment_slot + 1,
        tx_usage_counter: 0,
        ix_usage_counter: 0,
        latest_access_slot: 0,
    }
}

fn item(k: Address, count: u64) -> SearchItem {
    (k, (LoadedProgramMatchCriteria::NoCriteria, count))
}

#[test]
fn rounds_load_what_the_cache_lacks() {
    let mut cache = ProgramCache::new(0, 0);
    cache.environments = environments(1, 2);
    cache.assign_program(key(1), typed(5));
    let mut rounds =
        ProgramCacheReplenishment::new(20, 0, 1, false, vec![item(key(1), 2), item(key(2), 3), item(key(3), 4)]);

    assert_eq!(
        rounds.round(&mut cache, &OneFork),
        ReplenishAction::Load(key(2), 3)
    );
    assert_eq!(cache.stats.hits, 1);
    assert_eq!(cache.stats.misses, 2);
    rounds.store(key(2), typed(10), 3);

    assert_eq!(
        rounds.round(&mut cache, &OneFork),
        ReplenishAction::Load(key(3), 4)
    );
    // Only the first round is counted.
    assert_eq!(cache.stats.hits, 1);
    assert_eq!(cache.stats.misses, 2);
    rounds.store(key(3), LoadedProgram::new_tombstone(20, LoadedProgramType::Closed), 4);

    assert_eq!(rounds.round(&mut cache, &OneFork), ReplenishAction::Finished);
    let batch = rounds.finish().unwrap();
    assert!(!batch.hit_max_limit);
    assert_eq!(batch.slot(), 20);
    assert_eq!(batch.find(&key(1)).unwrap().tx_usage_counter, 2);
    // The program handed in counted as used 3 times, and was then used by the batch.
    assert_eq!(batch.find(&key(2)).unwrap().tx_usage_counter, 6);
    assert_eq!(batch.find(&key(2)).unwrap().deployment_slot, 10);
    assert_eq!(batch.find(&key(3)).unwrap().program, LoadedProgramType::Closed);
    assert_eq!(batch.find(&key(3)).unwrap().tx_usage_counter, 8);
    assert_eq!(cache.stats.insertions, 3);
}

#[test]
fn rounds_wait_for_what_others_load() {
    let mut cache = ProgramCache::new(0, 0);
    cache.environments = environments(1, 2);
    let mut first = ProgramCacheReplenishment::new(20, 0, 1, false, vec![item(key(1), 1)]);
    let mut second = ProgramCacheReplenishment::new(20, 0, 2, false, vec![item(key(1), 1)]);
    assert_eq!(
        first.round(&mut cache, &OneFork),
        ReplenishAction::Load(key(1), 1)
    );
    assert_eq!(
        second.round(&mut cache, &OneFork),
        ReplenishAction::Wait(LoadingTaskCookie(0))
    );
    first.store(key(1), typed(10), 1);
    assert_eq!(first.round(&mut cache, &OneFork), ReplenishAction::Finished);
    assert_eq!(
        cache.loading_task_waiter.wait(LoadingTaskCookie(0)),
        LoadingTaskCookie(1)
    );
    assert_eq!(second.round(&mut cache, &OneFork), ReplenishAction::Finished);
    assert_eq!(second.finish().unwrap().find(&key(1)).unwrap().deployment_slot, 10);
    assert_eq!(cache.stats.insertions, 1);
}

#[test]
fn rounds_give_up_when_a_place_is_taken() {
    for limit in [true, false] {
        let mut cache = ProgramCache::new(0, 0);
        cache.environments = environments(1, 2);
        cache.assign_program(
            key(1),
            LoadedProgram::new_tombstone(10, LoadedProgramType::FailedVerification(env(2))),
        );
        let missing = vec![(key(1), (LoadedProgramMatchCriteria::DeployedOnOrAfterSlot(11), 1))];
        let mut rounds = ProgramCacheReplenishment::new(20, 0, 1, limit, missing);
        assert_eq!(
            rounds.round(&mut cache, &OneFork),
            ReplenishAction::Load(key(1), 1)
        );
        rounds.store(
            key(1),
            LoadedProgram::new_tombstone(10, LoadedProgramType::Closed),
            1,
        );
        let action = rounds.round(&mut cache, &OneFork);
        assert_eq!(cache.stats.replacements, 1);
        if limit {
            assert_eq!(action, ReplenishAction::Finished);
            let batch = rounds.finish().unwrap();
            assert!(batch.hit_max_limit);
            assert_eq!(batch.slot(), 20);
        } else {
            // The program is still missing, and the worker takes it on again.
            assert_eq!(action, ReplenishAction::Load(key(1), 1));
            assert!(!rounds.finish().unwrap().hit_max_limit);
        }
    }
}

#[test]
fn rounds_without_programs_finish_at_once() {
    let mut cache = ProgramCache::new(0, 0);
    let mut rounds = ProgramCacheReplenishment::new(20, 0, 1, true, vec![]);
    assert!(rounds.loaded_programs_for_txs.is_none());
    assert_eq!(rounds.round(&mut cache, &OneFork), ReplenishAction::Finished);
    assert_eq!(rounds.finish().unwrap().entries.len(), 0);
}

fn loader_v4_account(slot: u64, status: u64, program: &[u8]) -> Vec<u8> {
    let mut data = Vec::new();
    data.extend_from_slice(&slot.to_le_bytes());
    data.extend_from_slice(&[7u8; 32]);
    data.extend_from_slice(&status.to_le_bytes());
    data.extend_from_slice(program);
    data
}

#[test]
fn numbers_are_read_least_significant_byte_first() {
    let data = [1u8, 2, 3, 4, 5, 6, 7, 8, 9, 10];
    assert_eq!(program_cache::loader::read_le_u64(&data, 0), 0x0807_0605_0403_0201);
    assert_eq!(program_cache::loader::read_le_u64(&data, 2), 0x0a09_0807_0605_0403);
    assert_eq!(
        program_cache::loader::read_le_u64(&u64::MAX.to_le_bytes(), 0),
        u64::MAX
    );
    assert_eq!(program_cache::loader::read_le_u64(&[0u8; 8], 0), 0);
}

#[test]
fn deployment_slot_of_the_fourth_loader_is_read_from_the_state() {
    // 1 is deployed, 2 is finalized.
    assert_eq!(
        loader_v4_deployment_slot(&loader_v4_account(1234, 1, b"elf")),
        Some(1234)
    );
    assert_eq!(
        loader_v4_deployment_slot(&loader_v4_account(u64::MAX, 2, b"")),
        Some(u64::MAX)
    );
    // 0 is retracted.
    assert_eq!(loader_v4_deployment_slot(&loader_v4_account(1234, 0, b"elf")), None);
    // Too short for a state.
    let short = loader_v4_account(1234, 1, b"");
    assert_eq!(loader_v4_deployment_slot(&short[..47]), None);
    assert_eq!(loader_v4_deployment_slot(&[]), None);
}

#[test]
fn state_of_the_fourth_loader_is_laid_out_as_the_sdk_has_it() {
    assert_eq!(std::mem::size_of::<LoaderV4State>(), 48);
    assert_eq!(LoaderV4Status::Retracted as u64, 0);
    assert_eq!(LoaderV4Status::Deployed as u64, 1);
    assert_eq!(LoaderV4Status::Finalized as u64, 2);
}

#[test]
fn publish_at_moves_to_the_epoch_boundary_for_other_environments() {
    let entry = LoadedProgram {
        effective_slot: 101,
        latest_access_slot: 7,
        ..LoadedProgram::new_tombstone(100, LoadedProgramType::Closed)
    };
    use_publish_at(entry);
}

fn use_publish_at(entry: LoadedProgram) {
    let current = environments(1, 2);
    let same = program_cache::loader::publish_at(entry, &current, &current, 500, 3);
    assert_eq!(same.effective_slot, 101);
    assert_eq!(same.latest_access_slot, 7);
    for other in [environments(9, 2), environments(1, 9), environments(8, 9)] {
        let moved = program_cache::loader::publish_at(entry, &other, &current, 500, 300);
        assert_eq!(moved.effective_slot, 500);
        assert_eq!(moved.latest_access_slot, 300);
        assert_eq!(moved.deployment_slot, 100);
        let kept = program_cache::loader::publish_at(entry, &other, &current, 50, 300);
        assert_eq!(kept.effective_slot, 101);
    }
}
