use percentage::Percentage;
use program_cache::address::Address;
use program_cache::batch::LoadedProgramsForTxBatch;
use program_cache::cache::{ProgramCache, MAX_LOADED_ENTRY_COUNT};
use program_cache::environment::{ProgramRuntimeEnvironment, ProgramRuntimeEnvironments};
use program_cache::extract::{Lookup, SearchItem};
use program_cache::fork_graph::{BlockRelation, Epoch, ForkGraph, Slot};
use program_cache::loaded_program::{
    BuiltinProgram, Executable, LoadedProgram, LoadedProgramMatchCriteria, LoadedProgramType,
};
use program_cache::second_level::{Assignment, SecondLevel};

/// A fork graph given by the parent of each slot; slots without a parent
/// are roots of their own trees.
struct Forks {
    parents: Vec<(Slot, Slot)>,
}

impl Forks {
    fn chain(slots: &[Slot]) -> Self {
        let mut forks = Forks { parents: vec![] };
        forks.branch(slots);
        forks
    }

    fn branch(&mut self, slots: &[Slot]) {
        for pair in slots.windows(2) {
            if !self.parents.contains(&(pair[1], pair[0])) {
                self.parents.push((pair[1], pair[0]));
            }
        }
    }

    fn known(&self, slot: Slot) -> bool {
        self.parents.iter().any(|(c, p)| *c == slot || *p == slot)
    }

    fn is_ancestor(&self, a: Slot, b: Slot) -> bool {
        let mut at = b;
        loop {
            match self.parents.iter().find(|(c, _)| *c == at) {
                Some((_, p)) if *p == a => return true,
                Some((_, p)) => at = *p,
                None => return false,
            }
        }
    }
}

impl ForkGraph for Forks {
    fn relationship(&self, a: Slot, b: Slot) -> BlockRelation {
        if !self.known(a) || !self.known(b) {
            BlockRelation::Unknown
        } else if a == b {
            BlockRelation::Equal
        } else if self.is_ancestor(a, b) {
            BlockRelation::Ancestor
        } else if self.is_ancestor(b, a) {
            BlockRelation::Descendant
        } else {
            BlockRelation::Unrelated
        }
    }

    fn slot_epoch(&self, _slot: Slot) -> Option<Epoch> {
        Some(0)
    }
}

fn address(n: u16) -> Address {
    let mut bytes = [0u8; 32];
    bytes[0] = (n >> 8) as u8;
    bytes[1] = n as u8;
    Address::new(bytes)
}

fn env(id: u64) -> ProgramRuntimeEnvironment {
    ProgramRuntimeEnvironment { id }
}

fn envs(v1: u64, v2: u64) -> ProgramRuntimeEnvironments {
    ProgramRuntimeEnvironments {
        program_runtime_v1: env(v1),
        program_runtime_v2: env(v2),
    }
}

fn typed(environment: u64, deployment_slot: Slot, effective_slot: Slot) -> LoadedProgram {
    LoadedProgram {
        program: LoadedProgramType::Typed(Executable {
            loader: env(environment),
            handle: deployment_slot,
        }),
        account_size: 0,
        deployment_slot,
        effective_slot,
        tx_usage_counter: 0,
        ix_usage_counter: 0,
        latest_access_slot: 0,
    }
}

fn with_usage(mut entry: LoadedProgram, tx_usage_counter: u64) -> LoadedProgram {
    entry.tx_usage_counter = tx_usage_counter;
    entry
}

fn new_cache(root_slot: Slot) -> ProgramCache {
    let mut cache = ProgramCache::new(root_slot, 0);
    cache.environments = envs(1, 2);
    cache
}

fn versions(cache: &ProgramCache, key: &Address) -> Vec<LoadedProgram> {
    match cache.entries.find(key) {
        Some(index) => cache.entries.values[index].slot_versions.clone(),
        None => vec![],
    }
}

fn slots(cache: &ProgramCache, key: &Address) -> Vec<(Slot, Slot)> {
    versions(cache, key)
        .iter()
        .map(|entry| (entry.deployment_slot, entry.effective_slot))
        .collect()
}

fn lock(cache: &ProgramCache, key: &Address) -> Option<(Slot, u64)> {
    cache
        .entries
        .find(key)
        .and_then(|index| cache.entries.values[index].cooperative_loading_lock)
}

fn loaded_count(cache: &ProgramCache) -> usize {
    cache.get_flattened_entries(true, true).len()
}

fn batch(slot: Slot) -> LoadedProgramsForTxBatch {
    LoadedProgramsForTxBatch::new(slot, envs(1, 2), None, 0)
}

fn search(key: Address, count: u64) -> SearchItem {
    (key, (LoadedProgramMatchCriteria::NoCriteria, count))
}

#[test]
fn new_cache_is_empty() {
    let cache = ProgramCache::new(5, 2);
    assert_eq!(cache.latest_root_slot, 5);
    assert_eq!(cache.latest_root_epoch, 2);
    assert_eq!(cache.environments, ProgramRuntimeEnvironments::default());
    assert_eq!(cache.upcoming_environments, None);
    assert!(cache.programs_to_recompile.is_empty());
    assert_eq!(cache.entries.len(), 0);
    assert_eq!(cache.stats.insertions, 0);
    assert_eq!(MAX_LOADED_ENTRY_COUNT, 256);
}

#[test]
fn assign_keeps_versions_sorted() {
    let mut cache = new_cache(0);
    let a = address(1);
    assert!(!cache.assign_program(a, typed(2, 20, 21)));
    assert!(!cache.assign_program(a, typed(2, 10, 11)));
    assert!(!cache.assign_program(a, typed(2, 30, 31)));
    assert!(!cache.assign_program(a, typed(2, 15, 21)));
    assert!(!cache.assign_program(a, typed(2, 5, 31)));
    assert_eq!(
        slots(&cache, &a),
        vec![(10, 11), (15, 21), (20, 21), (5, 31), (30, 31)]
    );
    assert_eq!(cache.stats.insertions, 5);
    assert_eq!(cache.stats.reloads, 0);
    assert_eq!(cache.stats.replacements, 0);
}

#[test]
fn assign_rejects_a_second_program_in_the_same_slots() {
    let mut cache = new_cache(0);
    let a = address(1);
    assert!(!cache.assign_program(a, with_usage(typed(2, 10, 11), 3)));
    assert!(cache.assign_program(a, with_usage(typed(2, 10, 11), 4)));
    assert_eq!(versions(&cache, &a).len(), 1);
    assert_eq!(versions(&cache, &a)[0].tx_usage_counter, 3);
    assert_eq!(cache.stats.insertions, 1);
    assert_eq!(cache.stats.replacements, 1);

    // A tombstone does not replace a program either, nor a program a failed one.
    assert!(cache.assign_program(a, LoadedProgram {
        effective_slot: 11,
        ..LoadedProgram::new_tombstone(10, LoadedProgramType::Closed)
    }));
    let b = address(2);
    assert!(!cache.assign_program(
        b,
        LoadedProgram::new_tombstone(10, LoadedProgramType::FailedVerification(env(2)))
    ));
    assert!(cache.assign_program(b, typed(2, 10, 10)));
    assert_eq!(cache.stats.replacements, 3);
}

#[test]
fn assign_replaces_closed_and_unloaded_and_takes_over_the_counters() {
    let mut cache = new_cache(0);
    let a = address(1);
    let mut closed = LoadedProgram::new_tombstone(10, LoadedProgramType::Closed);
    closed.tx_usage_counter = 5;
    closed.ix_usage_counter = 7;
    assert!(!cache.assign_program(a, closed));
    let mut loaded = typed(2, 10, 10);
    loaded.tx_usage_counter = 1;
    loaded.ix_usage_counter = 2;
    assert!(!cache.assign_program(a, loaded));
    let stored = versions(&cache, &a);
    assert_eq!(stored.len(), 1);
    assert_eq!(stored[0].program, loaded.program);
    assert_eq!(stored[0].tx_usage_counter, 6);
    assert_eq!(stored[0].ix_usage_counter, 9);
    assert_eq!(cache.stats.insertions, 1);
    assert_eq!(cache.stats.reloads, 1);

    let b = address(2);
    let unloaded = with_usage(typed(2, 20, 21), u64::MAX).to_unloaded().unwrap();
    assert!(!cache.assign_program(b, unloaded));
    assert!(!cache.assign_program(b, with_usage(typed(2, 20, 21), 2)));
    // The counters wrap around.
    assert_eq!(versions(&cache, &b)[0].tx_usage_counter, 1);
    assert_eq!(cache.stats.reloads, 2);
}

#[test]
fn assign_replaces_a_builtin_by_a_builtin() {
    let mut cache = new_cache(0);
    let a = address(1);
    assert!(!cache.assign_program(a, LoadedProgram::new_builtin(0, 1, BuiltinProgram { handle: 1 })));
    assert!(!cache.assign_program(a, LoadedProgram::new_builtin(0, 2, BuiltinProgram { handle: 2 })));
    let stored = versions(&cache, &a);
    assert_eq!(stored.len(), 1);
    assert_eq!(
        stored[0].program,
        LoadedProgramType::Builtin(BuiltinProgram { handle: 2 })
    );
    assert!(cache.assign_program(a, typed(2, 0, 0)));
}

#[test]
fn second_level_assignment_names_what_happened() {
    let mut level = SecondLevel::default();
    assert_eq!(level.assign(typed(2, 10, 11)), Assignment::Inserted);
    assert_eq!(level.assign(typed(2, 10, 11)), Assignment::Rejected);
    assert_eq!(level.search(&typed(2, 10, 11)), 0);
    assert_eq!(level.search(&typed(2, 11, 11)), 1);
    assert_eq!(level.search(&typed(2, 9, 11)), 0);
    let unloaded = typed(2, 20, 21).to_unloaded().unwrap();
    assert_eq!(level.assign(unloaded), Assignment::Inserted);
    assert_eq!(level.assign(typed(2, 20, 21)), Assignment::Replaced);
}

#[test]
fn extract_hits_a_visible_program() {
    // Seed: address A, entry (deployment=10, effective=11, payload=Typed(env)). Batch slot 20.
    let forks = Forks::chain(&[0, 10, 20]);
    let mut cache = new_cache(0);
    let a = address(1);
    cache.assign_program(a, typed(2, 10, 11));
    let mut search_for = vec![search(a, 3)];
    let mut view = batch(20);
    let task = cache.extract(&forks, &mut search_for, &mut view, true, 1);
    assert_eq!(task, None);
    assert!(search_for.is_empty());
    let found = view.find(&a).unwrap();
    assert_eq!(found.program, typed(2, 10, 11).program);
    assert_eq!(found.deployment_slot, 10);
    assert_eq!(found.effective_slot, 11);
    assert_eq!(found.tx_usage_counter, 3);
    assert_eq!(found.latest_access_slot, 20);
    // The use is counted in the cache as well.
    assert_eq!(versions(&cache, &a)[0].tx_usage_counter, 3);
    assert_eq!(versions(&cache, &a)[0].latest_access_slot, 20);
    assert_eq!(lock(&cache, &a), None);
    assert_eq!(cache.stats.hits, 1);
    assert_eq!(cache.stats.misses, 0);
}

#[test]
fn extract_hides_a_program_in_its_deployment_slot() {
    // Seed: A at (deployment=20, effective=21, Typed(env)). Batch slot 20 on the same fork.
    let forks = Forks::chain(&[0, 10, 20]);
    let mut cache = new_cache(0);
    let a = address(1);
    cache.assign_program(a, typed(2, 20, 21));
    let mut search_for = vec![search(a, 1)];
    let mut view = batch(20);
    let task = cache.extract(&forks, &mut search_for, &mut view, true, 1);
    assert_eq!(task, None);
    assert!(search_for.is_empty());
    let found = view.find(&a).unwrap();
    assert_eq!(found.program, LoadedProgramType::DelayVisibility);
    assert_eq!(found.deployment_slot, 20);
    assert_eq!(found.effective_slot, 20);
    assert!(found.is_tombstone());
    // The program in the cache was not used.
    assert_eq!(versions(&cache, &a)[0].tx_usage_counter, 0);
}

#[test]
fn extract_returns_the_program_in_its_effective_slot() {
    let forks = Forks::chain(&[0, 20, 21]);
    let mut cache = new_cache(0);
    let a = address(1);
    cache.assign_program(a, typed(2, 20, 21));
    let mut search_for = vec![search(a, 1)];
    let mut view = batch(21);
    assert_eq!(cache.extract(&forks, &mut search_for, &mut view, true, 1), None);
    assert_eq!(view.find(&a).unwrap().program, typed(2, 20, 21).program);
}

#[test]
fn extract_prefers_the_newest_visible_version() {
    let mut forks = Forks::chain(&[0, 10, 20, 30]);
    forks.branch(&[10, 25, 35]);
    let mut cache = new_cache(0);
    let a = address(1);
    cache.assign_program(a, typed(2, 10, 11));
    cache.assign_program(a, typed(2, 20, 21));
    cache.assign_program(a, typed(2, 25, 26));

    let mut view = batch(30);
    let mut search_for = vec![search(a, 1)];
    assert_eq!(cache.extract(&forks, &mut search_for, &mut view, false, 1), None);
    assert_eq!(view.find(&a).unwrap().deployment_slot, 20);

    let mut view = batch(35);
    let mut search_for = vec![search(a, 1)];
    assert_eq!(cache.extract(&forks, &mut search_for, &mut view, false, 1), None);
    assert_eq!(view.find(&a).unwrap().deployment_slot, 25);

    let mut view = batch(10);
    let mut search_for = vec![search(a, 1)];
    assert_eq!(cache.extract(&forks, &mut search_for, &mut view, false, 1), None);
    assert_eq!(view.find(&a).unwrap().program, LoadedProgramType::DelayVisibility);
    assert_eq!(view.find(&a).unwrap().deployment_slot, 10);
    // No round was a first round.
    assert_eq!(cache.stats.hits, 0);
}

#[test]
fn extract_sees_what_was_deployed_up_to_the_root() {
    // Slot 5 is unknown to the fork graph, but it is not behind the root.
    let forks = Forks::chain(&[10, 20]);
    let mut cache = new_cache(5);
    let a = address(1);
    cache.assign_program(a, typed(2, 5, 6));
    let mut view = batch(20);
    let mut search_for = vec![search(a, 1)];
    assert_eq!(cache.extract(&forks, &mut search_for, &mut view, true, 1), None);
    assert_eq!(view.find(&a).unwrap().deployment_slot, 5);

    // Slot 7 is behind the root and unknown: not on the fork of the batch.
    let b = address(2);
    cache.assign_program(b, typed(2, 7, 8));
    let mut search_for = vec![search(b, 1)];
    assert_eq!(
        cache.extract(&forks, &mut search_for, &mut view, false, 1),
        Some((b, 1))
    );
}

#[test]
fn extract_misses_what_the_criteria_exclude() {
    let forks = Forks::chain(&[0, 10, 20]);
    let a = address(1);

    let mut cache = new_cache(0);
    cache.assign_program(a, typed(2, 10, 11));
    let mut view = batch(20);
    let mut search_for = vec![(a, (LoadedProgramMatchCriteria::DeployedOnOrAfterSlot(11), 1))];
    assert_eq!(
        cache.extract(&forks, &mut search_for, &mut view, true, 1),
        Some((a, 1))
    );
    assert_eq!(search_for.len(), 1);
    assert!(view.find(&a).is_none());
    assert_eq!(cache.stats.misses, 1);
    assert_eq!(cache.stats.hits, 0);

    let mut cache = new_cache(0);
    cache.assign_program(a, typed(2, 10, 11));
    let mut search_for = vec![(a, (LoadedProgramMatchCriteria::DeployedOnOrAfterSlot(10), 1))];
    assert_eq!(cache.extract(&forks, &mut search_for, &mut view, true, 1), None);

    let mut cache = new_cache(0);
    cache.assign_program(a, typed(2, 10, 11));
    let mut view = batch(20);
    let mut search_for = vec![(a, (LoadedProgramMatchCriteria::Tombstone, 1))];
    assert_eq!(
        cache.extract(&forks, &mut search_for, &mut view, true, 1),
        Some((a, 1))
    );
    let b = address(2);
    cache.assign_program(b, LoadedProgram::new_tombstone(10, LoadedProgramType::Closed));
    let mut search_for = vec![(b, (LoadedProgramMatchCriteria::Tombstone, 1))];
    assert_eq!(cache.extract(&forks, &mut search_for, &mut view, false, 2), None);
    assert_eq!(view.find(&b).unwrap().program, LoadedProgramType::Closed);
}

#[test]
fn extract_misses_unloaded_programs_and_other_environments() {
    let forks = Forks::chain(&[0, 5, 10, 20]);
    let mut cache = new_cache(0);
    let a = address(1);
    cache.assign_program(a, typed(2, 10, 11).to_unloaded().unwrap());
    let mut view = batch(20);
    let mut search_for = vec![search(a, 4)];
    assert_eq!(
        cache.extract(&forks, &mut search_for, &mut view, true, 9),
        Some((a, 4))
    );
    assert_eq!(lock(&cache, &a), Some((20, 9)));

    // A program of another environment is passed over for an older one.
    let b = address(2);
    cache.assign_program(b, typed(2, 5, 6));
    cache.assign_program(b, typed(7, 10, 11));
    let mut search_for = vec![search(b, 1)];
    assert_eq!(cache.extract(&forks, &mut search_for, &mut view, false, 9), None);
    assert_eq!(view.find(&b).unwrap().deployment_slot, 5);
}

#[test]
fn extract_gives_one_task_at_most() {
    let forks = Forks::chain(&[0, 10, 20]);
    let mut cache = new_cache(0);
    let (a, b, c) = (address(1), address(2), address(3));
    cache.assign_program(b, typed(2, 10, 11));
    let mut search_for = vec![search(a, 1), search(b, 2), search(c, 3)];
    let mut view = batch(20);
    let task = cache.extract(&forks, &mut search_for, &mut view, true, 1);
    assert_eq!(task, Some((a, 1)));
    assert_eq!(search_for, vec![search(a, 1), search(c, 3)]);
    assert_eq!(lock(&cache, &a), Some((20, 1)));
    // The second miss got neither a task nor a second level.
    assert_eq!(lock(&cache, &c), None);
    assert_eq!(cache.entries.find(&c), None);
    assert_eq!(cache.stats.misses, 2);
    assert_eq!(cache.stats.hits, 1);
}

#[test]
fn two_workers_load_one_program_once() {
    let forks = Forks::chain(&[0, 10, 20]);
    let mut cache = new_cache(0);
    let a = address(1);

    // W1 gets the task.
    let mut missing1 = vec![search(a, 2)];
    let mut view1 = batch(20);
    assert_eq!(
        cache.extract(&forks, &mut missing1, &mut view1, true, 1),
        Some((a, 2))
    );
    // W2 gets none, and observes the cookie.
    let mut missing2 = vec![search(a, 5)];
    let mut view2 = batch(20);
    assert_eq!(cache.extract(&forks, &mut missing2, &mut view2, true, 2), None);
    assert_eq!(missing2.len(), 1);
    assert_eq!(lock(&cache, &a), Some((20, 1)));
    let cookie = cache.loading_task_waiter.cookie();

    // W1 loads and hands the program in.
    let loaded = with_usage(typed(2, 10, 11), 2);
    assert!(!cache.finish_cooperative_loading_task(&forks, 20, a, loaded, 1));
    assert_eq!(lock(&cache, &a), None);
    assert_eq!(cache.stats.lost_insertions, 0);

    // W2 wakes up and finds the program.
    assert_ne!(cache.loading_task_waiter.wait(cookie), cookie);
    assert_eq!(cache.extract(&forks, &mut missing2, &mut view2, false, 2), None);
    assert!(missing2.is_empty());
    assert_eq!(view2.find(&a).unwrap().tx_usage_counter, 7);
    // And so does W1.
    assert_eq!(cache.extract(&forks, &mut missing1, &mut view1, false, 1), None);
    assert_eq!(view1.find(&a).unwrap().deployment_slot, 10);
}

#[test]
fn finish_counts_an_insertion_that_the_worker_cannot_see() {
    let mut forks = Forks::chain(&[0, 10, 20]);
    forks.branch(&[10, 15]);
    let mut cache = new_cache(0);
    let a = address(1);
    let mut missing = vec![search(a, 1)];
    let mut view = batch(20);
    assert_eq!(
        cache.extract(&forks, &mut missing, &mut view, true, 1),
        Some((a, 1))
    );
    // The program was deployed in slot 15, which is not on the fork of slot 20.
    assert!(!cache.finish_cooperative_loading_task(&forks, 20, a, typed(2, 15, 16), 1));
    assert_eq!(cache.stats.lost_insertions, 1);
    assert_eq!(slots(&cache, &a), vec![(15, 16)]);
    assert_eq!(cache.stats.insertions, 1);
}

#[test]
fn finish_says_when_the_place_was_taken() {
    let forks = Forks::chain(&[0, 10, 20]);
    let mut cache = new_cache(0);
    let a = address(1);
    cache.assign_program(
        a,
        LoadedProgram::new_tombstone(10, LoadedProgramType::FailedVerification(env(2))),
    );
    let mut missing = vec![(a, (LoadedProgramMatchCriteria::DeployedOnOrAfterSlot(11), 1))];
    let mut view = batch(20);
    assert_eq!(
        cache.extract(&forks, &mut missing, &mut view, true, 1),
        Some((a, 1))
    );
    assert!(cache.finish_cooperative_loading_task(
        &forks,
        20,
        a,
        LoadedProgram::new_tombstone(10, LoadedProgramType::Closed),
        1
    ));
    assert_eq!(cache.stats.replacements, 1);
    assert_eq!(lock(&cache, &a), None);
}

#[test]
fn lookup_says_hit_delay_or_miss() {
    let forks = Forks::chain(&[0, 10, 20]);
    let list = vec![typed(2, 10, 11), typed(2, 20, 21)];
    let criteria = LoadedProgramMatchCriteria::NoCriteria;
    assert_eq!(
        ProgramCache::lookup(&forks, &list, 0, 20, &envs(1, 2), &criteria),
        Lookup::Delayed(20)
    );
    assert_eq!(
        ProgramCache::lookup(&forks, &list, 0, 10, &envs(1, 2), &criteria),
        Lookup::Delayed(10)
    );
    assert_eq!(
        ProgramCache::lookup(&forks, &list, 0, 0, &envs(1, 2), &criteria),
        Lookup::Miss
    );
    let forks = Forks::chain(&[0, 10, 20, 21]);
    assert_eq!(
        ProgramCache::lookup(&forks, &list, 0, 21, &envs(1, 2), &criteria),
        Lookup::Hit(1)
    );
    assert_eq!(
        ProgramCache::lookup(&forks, &list, 0, 21, &envs(1, 3), &criteria),
        Lookup::Miss
    );
    assert_eq!(
        ProgramCache::lookup(&forks, &vec![], 0, 21, &envs(1, 2), &criteria),
        Lookup::Miss
    );
    assert!(ProgramCache::matches_environment(&typed(2, 1, 2), &envs(1, 2)));
    assert!(ProgramCache::matches_environment(&typed(1, 1, 2), &envs(1, 2)));
    assert!(!ProgramCache::matches_environment(&typed(3, 1, 2), &envs(1, 2)));
    assert!(ProgramCache::matches_environment(
        &LoadedProgram::new_tombstone(1, LoadedProgramType::Closed),
        &envs(1, 2)
    ));
    assert!(ProgramCache::matches_loaded_program_criteria(
        &typed(2, 5, 6),
        &LoadedProgramMatchCriteria::DeployedOnOrAfterSlot(5)
    ));
    assert!(!ProgramCache::matches_loaded_program_criteria(
        &typed(2, 5, 6),
        &LoadedProgramMatchCriteria::DeployedOnOrAfterSlot(6)
    ));
}

#[test]
fn prune_drops_outdated_environments_at_the_epoch_boundary() {
    // State: current env_old, upcoming env_new, one entry X at (dep=100, eff=101, Typed(env_old)).
    let forks = Forks::chain(&[100, 200]);
    let mut cache = ProgramCache::new(0, 1);
    cache.environments = envs(1, 1);
    cache.upcoming_environments = Some(envs(2, 2));
    let x = address(1);
    cache.assign_program(x, typed(1, 100, 101));
    cache.programs_to_recompile.push((x, typed(1, 100, 101)));

    cache.prune(&forks, 200, 2);
    assert_eq!(cache.environments, envs(2, 2));
    assert_eq!(cache.upcoming_environments, None);
    assert!(cache.programs_to_recompile.is_empty());
    assert!(versions(&cache, &x).is_empty());
    assert_eq!(cache.entries.find(&x), None);
    assert_eq!(cache.stats.prunes_environment, 1);
    assert_eq!(cache.stats.prunes_orphan, 0);
    assert_eq!(cache.stats.empty_entries, 1);
    assert_eq!(cache.latest_root_slot, 200);
    assert_eq!(cache.latest_root_epoch, 2);
}

#[test]
fn prune_keeps_recompiled_programs_at_the_epoch_boundary() {
    let forks = Forks::chain(&[100, 150, 200]);
    let mut cache = ProgramCache::new(0, 1);
    cache.environments = envs(1, 1);
    cache.upcoming_environments = Some(envs(2, 2));
    let x = address(1);
    cache.assign_program(x, typed(1, 100, 101));
    cache.assign_program(x, typed(2, 100, 160));
    cache.prune(&forks, 200, 2);
    assert_eq!(slots(&cache, &x), vec![(100, 160)]);
    assert_eq!(cache.stats.prunes_environment, 1);
}

#[test]
fn prune_in_the_same_epoch_keeps_the_upcoming_environments() {
    let forks = Forks::chain(&[100, 200]);
    let mut cache = ProgramCache::new(0, 1);
    cache.environments = envs(1, 1);
    cache.upcoming_environments = Some(envs(2, 2));
    let x = address(1);
    cache.assign_program(x, typed(1, 100, 101));
    cache.prune(&forks, 200, 1);
    assert_eq!(cache.environments, envs(1, 1));
    assert_eq!(cache.upcoming_environments, Some(envs(2, 2)));
    assert_eq!(slots(&cache, &x), vec![(100, 101)]);
    assert_eq!(cache.stats.prunes_environment, 0);
}

#[test]
fn prune_removes_orphans() {
    // X at (dep=50, eff=51) on fork F1, Y at (dep=60, eff=61) on fork F2;
    // relationship(50, 100) = Unrelated, relationship(60, 100) = Ancestor.
    let mut forks = Forks::chain(&[40, 60, 100]);
    forks.branch(&[40, 50]);
    let mut cache = new_cache(45);
    let a = address(1);
    cache.assign_program(a, typed(2, 50, 51));
    cache.assign_program(a, typed(2, 60, 61));
    assert_eq!(forks.relationship(50, 100), BlockRelation::Unrelated);
    assert_eq!(forks.relationship(60, 100), BlockRelation::Ancestor);
    cache.prune(&forks, 100, 0);
    assert_eq!(slots(&cache, &a), vec![(60, 61)]);
    assert_eq!(cache.stats.prunes_orphan, 1);
    assert_eq!(cache.stats.empty_entries, 0);
    assert_eq!(cache.latest_root_slot, 100);
}

#[test]
fn prune_keeps_the_newest_ancestor_and_the_descendants() {
    let mut forks = Forks::chain(&[0, 10, 20, 30, 40, 50]);
    forks.branch(&[30, 45]);
    forks.branch(&[20, 35]);
    let mut cache = new_cache(0);
    let a = address(1);
    for slot in [10, 20, 35, 40, 45, 50] {
        cache.assign_program(a, typed(2, slot, slot + 1));
    }
    cache.prune(&forks, 30, 0);
    // 20 is the newest ancestor of the root; 10 is superseded; 35 is on
    // another fork; 40, 45 and 50 descend from the root.
    assert_eq!(slots(&cache, &a), vec![(20, 21), (40, 41), (45, 46), (50, 51)]);
    // Only what was deployed before the new root is counted as an orphan.
    assert_eq!(cache.stats.prunes_orphan, 1);
}

#[test]
fn prune_keeps_older_ancestors_of_another_environment() {
    let forks = Forks::chain(&[0, 10, 20, 30]);
    let mut cache = new_cache(0);
    let a = address(1);
    cache.assign_program(a, typed(9, 10, 11));
    cache.assign_program(a, typed(2, 20, 21));
    cache.prune(&forks, 30, 0);
    assert_eq!(slots(&cache, &a), vec![(10, 11), (20, 21)]);
    assert_eq!(cache.stats.prunes_orphan, 0);

    // A tombstone without environment is superseded.
    let b = address(2);
    cache.assign_program(b, LoadedProgram::new_tombstone(10, LoadedProgramType::Closed));
    cache.assign_program(b, typed(2, 20, 21));
    cache.prune(&forks, 30, 0);
    assert_eq!(slots(&cache, &b), vec![(20, 21)]);
}

#[test]
fn prune_keeps_second_levels_with_a_loading_task() {
    let mut forks = Forks::chain(&[0, 10, 20]);
    forks.branch(&[0, 5]);
    let mut cache = new_cache(0);
    let (a, b) = (address(1), address(2));
    cache.assign_program(a, typed(2, 5, 6));
    cache.assign_program(b, typed(2, 5, 6));
    let mut view = batch(20);
    let mut missing = vec![search(a, 1)];
    assert_eq!(
        cache.extract(&forks, &mut missing, &mut view, true, 1),
        Some((a, 1))
    );
    cache.prune(&forks, 10, 0);
    assert!(versions(&cache, &a).is_empty());
    assert_eq!(lock(&cache, &a), Some((20, 1)));
    assert_eq!(cache.entries.find(&b), None);
    assert_eq!(cache.stats.prunes_orphan, 2);
    assert_eq!(cache.stats.empty_entries, 1);
}

#[test]
fn prune_twice_is_prune_once() {
    let mut forks = Forks::chain(&[0, 10, 20, 30, 40]);
    forks.branch(&[20, 25]);
    let mut cache = new_cache(0);
    let (a, b) = (address(1), address(2));
    for slot in [10, 20, 25, 40] {
        cache.assign_program(a, typed(2, slot, slot + 1));
    }
    cache.assign_program(b, typed(2, 25, 26));
    cache.prune(&forks, 30, 0);
    let once_a = slots(&cache, &a);
    let once_stats = (
        cache.stats.prunes_orphan,
        cache.stats.prunes_environment,
        cache.stats.empty_entries,
    );
    assert_eq!(once_a, vec![(20, 21), (40, 41)]);
    assert_eq!(cache.entries.find(&b), None);
    cache.prune(&forks, 30, 0);
    assert_eq!(slots(&cache, &a), once_a);
    assert_eq!(
        (
            cache.stats.prunes_orphan,
            cache.stats.prunes_environment,
            cache.stats.empty_entries
        ),
        once_stats
    );
    assert_eq!(cache.entries.len(), 1);
}

#[test]
fn prune_by_deployment_slot_removes_that_slot_only() {
    let mut cache = new_cache(0);
    let (a, b) = (address(1), address(2));
    cache.assign_program(a, typed(2, 10, 11));
    cache.assign_program(a, typed(2, 20, 21));
    cache.assign_program(b, typed(2, 20, 21));
    cache.prune_by_deployment_slot(20);
    assert_eq!(slots(&cache, &a), vec![(10, 11)]);
    assert_eq!(cache.entries.find(&b), None);
    assert_eq!(cache.stats.empty_entries, 1);
    cache.prune_by_deployment_slot(99);
    assert_eq!(slots(&cache, &a), vec![(10, 11)]);
    assert_eq!(cache.stats.empty_entries, 1);
}

#[test]
fn remove_programs_removes_whole_addresses() {
    let mut cache = new_cache(0);
    let (a, b, c) = (address(1), address(2), address(3));
    cache.assign_program(a, typed(2, 10, 11));
    cache.assign_program(b, typed(2, 10, 11));
    cache.assign_program(c, typed(2, 10, 11));
    cache.remove_programs(&vec![a, address(9), c, a]);
    assert_eq!(cache.entries.find(&a), None);
    assert_eq!(cache.entries.find(&c), None);
    assert_eq!(slots(&cache, &b), vec![(10, 11)]);
    assert_eq!(cache.entries.len(), 1);
}

#[test]
fn flattened_entries_are_the_compiled_programs() {
    let mut cache = new_cache(0);
    let (a, b) = (address(1), address(2));
    let v0 = LoadedProgram {
        program: LoadedProgramType::LegacyV0(Executable { loader: env(1), handle: 1 }),
        ..typed(1, 10, 11)
    };
    let v1 = LoadedProgram {
        program: LoadedProgramType::LegacyV1(Executable { loader: env(1), handle: 2 }),
        ..typed(1, 20, 21)
    };
    cache.assign_program(a, v1);
    cache.assign_program(a, v0);
    cache.assign_program(a, typed(2, 30, 31).to_unloaded().unwrap());
    cache.assign_program(a, LoadedProgram::new_tombstone(40, LoadedProgramType::Closed));
    cache.assign_program(b, typed(2, 5, 6));
    cache.assign_program(b, LoadedProgram::new_builtin(0, 0, BuiltinProgram { handle: 1 }));

    let all = cache.get_flattened_entries(true, true);
    let all: Vec<(Address, Slot)> = all.iter().map(|(k, e)| (*k, e.deployment_slot)).collect();
    assert_eq!(all, vec![(a, 10), (a, 20), (b, 5)]);
    let v1_only = cache.get_flattened_entries(true, false);
    let v1_only: Vec<(Address, Slot)> = v1_only.iter().map(|(k, e)| (*k, e.deployment_slot)).collect();
    assert_eq!(v1_only, vec![(a, 10), (a, 20)]);
    let v2_only = cache.get_flattened_entries(false, true);
    let v2_only: Vec<(Address, Slot)> = v2_only.iter().map(|(k, e)| (*k, e.deployment_slot)).collect();
    assert_eq!(v2_only, vec![(b, 5)]);
    assert!(cache.get_flattened_entries(false, false).is_empty());
}

#[test]
fn unload_keeps_the_counters_and_counts_the_eviction() {
    let mut cache = new_cache(0);
    let a = address(1);
    let mut once = typed(2, 10, 11);
    once.tx_usage_counter = 1;
    once.ix_usage_counter = 4;
    once.latest_access_slot = 12;
    cache.assign_program(a, once);
    cache.assign_program(a, with_usage(typed(2, 20, 21), 9));
    cache.unload_program_entry(&a, &once);
    let stored = versions(&cache, &a);
    assert_eq!(stored[0].program, LoadedProgramType::Unloaded(env(2)));
    assert_eq!(stored[0].tx_usage_counter, 1);
    assert_eq!(stored[0].ix_usage_counter, 4);
    assert_eq!(stored[0].latest_access_slot, 12);
    assert_eq!(stored[1].program, typed(2, 20, 21).program);
    assert_eq!(cache.stats.one_hit_wonders, 1);
    let index = cache.stats.evictions.find(&a).unwrap();
    assert_eq!(cache.stats.evictions.values[index], 1);

    cache.unload_program_entry(&a, &typed(2, 20, 21));
    assert_eq!(cache.stats.one_hit_wonders, 1);
    assert_eq!(cache.stats.evictions.values[index], 2);
    // What is unloaded already stays as it is.
    cache.unload_program_entry(&a, &typed(2, 20, 21));
    assert_eq!(cache.stats.evictions.values[index], 2);
    assert_eq!(loaded_count(&cache), 0);
}

#[test]
fn evict_less_used_takes_the_second_on_a_tie() {
    let mut cache = new_cache(0);
    let (a, b, c) = (address(1), address(2), address(3));
    cache.assign_program(a, with_usage(typed(2, 10, 11), 8));
    cache.assign_program(b, with_usage(typed(2, 10, 11), 8));
    cache.assign_program(c, with_usage(typed(2, 10, 11), 2));
    let mut candidates = cache.get_flattened_entries(true, true);
    // A and B are used equally: the second one goes.
    cache.evict_less_used(&mut candidates, 0, 1, 0);
    assert_eq!(versions(&cache, &b)[0].program, LoadedProgramType::Unloaded(env(2)));
    assert_eq!(versions(&cache, &a)[0].program, typed(2, 10, 11).program);
    // The last candidate took the place of the one removed.
    let left: Vec<Address> = candidates.iter().map(|(k, _)| *k).collect();
    assert_eq!(left, vec![a, c]);
    // C is used less than A: the first index goes.
    cache.evict_less_used(&mut candidates, 1, 0, 0);
    assert_eq!(versions(&cache, &c)[0].program, LoadedProgramType::Unloaded(env(2)));
    let left: Vec<Address> = candidates.iter().map(|(k, _)| *k).collect();
    assert_eq!(left, vec![a]);
    // Both indices may name one candidate.
    cache.evict_less_used(&mut candidates, 0, 0, 0);
    assert!(candidates.is_empty());
    assert_eq!(loaded_count(&cache), 0);
}

#[test]
fn evict_less_used_goes_by_the_decayed_counter() {
    let mut cache = new_cache(0);
    let (a, b) = (address(1), address(2));
    let mut much_but_long_ago = typed(2, 10, 11);
    much_but_long_ago.tx_usage_counter = 1000;
    much_but_long_ago.latest_access_slot = 0;
    let mut little_but_now = typed(2, 10, 11);
    little_but_now.tx_usage_counter = 10;
    little_but_now.latest_access_slot = 20;
    cache.assign_program(a, much_but_long_ago);
    cache.assign_program(b, little_but_now);
    let mut candidates = cache.get_flattened_entries(true, true);
    cache.evict_less_used(&mut candidates, 0, 1, 20);
    assert_eq!(versions(&cache, &a)[0].program, LoadedProgramType::Unloaded(env(2)));
    assert_eq!(versions(&cache, &b)[0].program, little_but_now.program);
}

#[test]
fn random_eviction_shrinks_to_the_share() {
    // 300 compiled entries, each last used in slot 0, used 0 to 299 times.
    let mut cache = new_cache(0);
    for n in 0..300u16 {
        cache.assign_program(address(n), with_usage(typed(2, 10, 11), n as u64));
    }
    assert_eq!(loaded_count(&cache), 300);
    cache.evict_using_2s_random_selection(Percentage::from(90), 1000);
    assert_eq!(loaded_count(&cache), 230);
    assert!(loaded_count(&cache) <= 231);
    let mut evicted = 0;
    for n in 0..300u16 {
        let stored = versions(&cache, &address(n));
        assert_eq!(stored.len(), 1);
        assert_eq!(stored[0].tx_usage_counter, n as u64);
        assert_eq!(stored[0].deployment_slot, 10);
        match stored[0].program {
            LoadedProgramType::Unloaded(environment) => {
                assert_eq!(environment, env(2));
                evicted += 1;
            }
            program => assert_eq!(program, typed(2, 10, 11).program),
        }
    }
    assert_eq!(evicted, 70);
    assert_eq!(cache.stats.evictions.len(), 70);
}

#[test]
fn random_eviction_leaves_a_small_cache_alone() {
    let mut cache = new_cache(0);
    for n in 0..230u16 {
        cache.assign_program(address(n), typed(2, 10, 11));
    }
    cache.evict_using_2s_random_selection(Percentage::from(90), 0);
    assert_eq!(loaded_count(&cache), 230);
    cache.evict_using_2s_random_selection(Percentage::from(50), 0);
    assert_eq!(loaded_count(&cache), 128);
    cache.evict_using_2s_random_selection(Percentage::from(0), 0);
    assert_eq!(loaded_count(&cache), 0);
}

#[test]
fn sort_and_unload_drops_the_least_used() {
    let mut cache = new_cache(0);
    for n in 0..260u16 {
        // Usage grows with n, but for a few that were never used.
        let usage = if n % 100 == 0 { 0 } else { 1000 + n as u64 };
        cache.assign_program(address(n), with_usage(typed(2, 10, 11), usage));
    }
    cache.sort_and_unload(Percentage::from(98));
    // 98% of 256 is 250: ten programs go, the three unused ones first.
    assert_eq!(loaded_count(&cache), 250);
    for n in 0..260u16 {
        let unloaded = matches!(
            versions(&cache, &address(n))[0].program,
            LoadedProgramType::Unloaded(_)
        );
        assert_eq!(unloaded, n % 100 == 0 || (1..=7).contains(&n), "program {n}");
    }
}

#[test]
fn sort_by_usage_is_stable() {
    let entries = vec![
        (address(1), with_usage(typed(2, 1, 2), 5)),
        (address(2), with_usage(typed(2, 1, 2), 3)),
        (address(3), with_usage(typed(2, 1, 2), 5)),
        (address(4), with_usage(typed(2, 1, 2), 0)),
        (address(5), with_usage(typed(2, 1, 2), 3)),
    ];
    let sorted = ProgramCache::sort_by_usage(&entries);
    let order: Vec<Address> = sorted.iter().map(|(k, _)| *k).collect();
    assert_eq!(
        order,
        vec![address(4), address(2), address(5), address(1), address(3)]
    );
}

#[test]
fn merge_assigns_every_program_of_the_batch() {
    let mut cache = new_cache(0);
    let (a, b) = (address(1), address(2));
    cache.assign_program(a, typed(2, 10, 11));
    let mut modified = batch(20);
    modified.replenish(a, typed(2, 20, 21));
    modified.replenish(b, LoadedProgram::new_tombstone(20, LoadedProgramType::Closed));
    cache.merge(&modified);
    assert_eq!(slots(&cache, &a), vec![(10, 11), (20, 21)]);
    assert_eq!(slots(&cache, &b), vec![(20, 20)]);
    assert_eq!(cache.stats.insertions, 3);

    let before = cache.stats.insertions;
    cache.merge(&batch(30));
    assert_eq!(cache.stats.insertions, before);
    assert_eq!(cache.entries.len(), 2);
}

#[test]
fn environments_go_by_the_epoch() {
    let mut cache = ProgramCache::new(0, 3);
    cache.environments = envs(1, 2);
    assert_eq!(*cache.get_environments_for_epoch(3), envs(1, 2));
    assert_eq!(*cache.get_environments_for_epoch(4), envs(1, 2));
    assert_eq!(cache.get_upcoming_environments_for_epoch(3), None);
    cache.upcoming_environments = Some(envs(5, 6));
    assert_eq!(*cache.get_environments_for_epoch(3), envs(1, 2));
    assert_eq!(*cache.get_environments_for_epoch(4), envs(5, 6));
    assert_eq!(cache.get_upcoming_environments_for_epoch(3), Some(envs(5, 6)));
    assert_eq!(cache.get_upcoming_environments_for_epoch(4), None);
}

#[test]
fn fork_graph_tells_the_relation() {
    let mut forks = Forks::chain(&[1, 2, 3]);
    forks.branch(&[2, 4]);
    assert_eq!(forks.relationship(1, 3), BlockRelation::Ancestor);
    assert_eq!(forks.relationship(3, 1), BlockRelation::Descendant);
    assert_eq!(forks.relationship(2, 2), BlockRelation::Equal);
    assert_eq!(forks.relationship(3, 4), BlockRelation::Unrelated);
    assert_eq!(forks.relationship(3, 9), BlockRelation::Unknown);
    assert_eq!(forks.slot_epoch(3), Some(0));
}

#[test]
fn slot_versions_are_handed_out_in_their_order() {
    let mut cache = new_cache(0);
    let a = address(1);
    cache.assign_program(a, typed(2, 20, 21));
    cache.assign_program(a, typed(2, 10, 11));
    let stored = cache.get_slot_versions_for_tests(&a);
    assert_eq!(stored.len(), 2);
    assert_eq!(stored[0].deployment_slot, 10);
    assert_eq!(stored[1].deployment_slot, 20);
    assert!(cache.get_slot_versions_for_tests(&address(2)).is_empty());
}

#[test]
fn unload_program_entries_unloads_the_first_ones() {
    let mut cache = new_cache(0);
    let entries = vec![
        (address(1), typed(2, 10, 11)),
        (address(2), typed(2, 10, 11)),
        (address(3), typed(2, 10, 11)),
    ];
    for (key, entry) in entries.iter() {
        cache.assign_program(*key, *entry);
    }
    cache.unload_program_entries(&entries, 2);
    assert_eq!(versions(&cache, &address(1))[0].program, LoadedProgramType::Unloaded(env(2)));
    assert_eq!(versions(&cache, &address(2))[0].program, LoadedProgramType::Unloaded(env(2)));
    assert_eq!(versions(&cache, &address(3))[0].program, typed(2, 10, 11).program);
}

#[test]
fn second_level_index_makes_a_second_level() {
    let mut cache = new_cache(0);
    assert_eq!(cache.second_level_index(address(5)), 0);
    assert_eq!(cache.second_level_index(address(6)), 1);
    assert_eq!(cache.second_level_index(address(5)), 0);
    assert_eq!(cache.entries.len(), 2);
    // Second levels without versions and without a task do not outlast a pruning.
    cache.remove_programs_with_no_entries();
    assert_eq!(cache.entries.len(), 0);
    assert_eq!(cache.stats.empty_entries, 2);
}

#[test]
fn evict_to_leaves_the_target() {
    let mut cache = new_cache(0);
    for n in 0..20u16 {
        cache.assign_program(address(n), with_usage(typed(2, 10, 11), n as u64));
    }
    cache.evict_to(25, 0);
    assert_eq!(loaded_count(&cache), 20);
    cache.evict_to(12, 0);
    assert_eq!(loaded_count(&cache), 12);
    cache.evict_to(12, 0);
    assert_eq!(loaded_count(&cache), 12);
    cache.evict_to(0, 0);
    assert_eq!(loaded_count(&cache), 0);
    // Nothing but the compiled programs is gone.
    for n in 0..20u16 {
        let stored = versions(&cache, &address(n));
        assert_eq!(stored.len(), 1);
        assert_eq!(stored[0].program, LoadedProgramType::Unloaded(env(2)));
        assert_eq!(stored[0].tx_usage_counter, n as u64);
    }
    assert_eq!(cache.stats.evictions.len(), 20);
    assert_eq!(cache.stats.one_hit_wonders, 1);
}

#[test]
fn sort_and_unload_to_unloads_in_the_order_of_use() {
    let mut cache = new_cache(0);
    let usage = [5u64, 1, 9, 1, 7];
    for (n, usage) in usage.iter().enumerate() {
        cache.assign_program(address(n as u16), with_usage(typed(2, 10, 11), *usage));
    }
    cache.sort_and_unload_to(3);
    let unloaded: Vec<bool> = (0..5u16)
        .map(|n| {
            matches!(
                versions(&cache, &address(n))[0].program,
                LoadedProgramType::Unloaded(_)
            )
        })
        .collect();
    assert_eq!(unloaded, vec![false, true, false, true, false]);
    assert_eq!(cache.stats.one_hit_wonders, 2);
    cache.sort_and_unload_to(2);
    assert!(matches!(
        versions(&cache, &address(0))[0].program,
        LoadedProgramType::Unloaded(_)
    ));
    assert_eq!(loaded_count(&cache), 2);
}

#[test]
fn prune_after_the_end_of_a_recompilation_phase_may_remove_more() {
    let forks = Forks::chain(&[10, 20, 30, 100]);
    let mut cache = ProgramCache::new(0, 1);
    cache.environments = envs(1, 1);
    cache.upcoming_environments = Some(envs(2, 2));
    let a = address(1);
    cache.assign_program(a, typed(2, 10, 11));
    cache.assign_program(a, typed(2, 20, 21));
    cache.assign_program(a, typed(1, 30, 31));
    // The newest ancestor is of the old environment and goes for that; the
    // older ones are of another environment than it and stay.
    cache.prune(&forks, 100, 2);
    assert_eq!(slots(&cache, &a), vec![(10, 11), (20, 21)]);
    assert_eq!(cache.stats.prunes_environment, 1);
    assert_eq!(cache.stats.prunes_orphan, 0);
    // Now the newest ancestor is of the same environment as the older one.
    cache.prune(&forks, 100, 2);
    assert_eq!(slots(&cache, &a), vec![(20, 21)]);
    assert_eq!(cache.stats.prunes_orphan, 1);
}

/// A fork graph that says nothing of epochs.
struct WithoutEpochs;

impl ForkGraph for WithoutEpochs {
    fn relationship(&self, a: Slot, b: Slot) -> BlockRelation {
        if a == b {
            BlockRelation::Equal
        } else {
            BlockRelation::Unrelated
        }
    }
}

#[test]
fn graph_without_epochs_puts_every_slot_into_epoch_zero() {
    assert_eq!(WithoutEpochs.slot_epoch(0), Some(0));
    assert_eq!(WithoutEpochs.slot_epoch(432_000), Some(0));
    assert_eq!(WithoutEpochs.slot_epoch(u64::MAX), Some(0));
    assert_eq!(WithoutEpochs.relationship(3, 3), BlockRelation::Equal);
}
