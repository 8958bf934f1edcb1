//! Taking out of the cache the programs that a batch asks for.

use crate::address::Address;
use crate::address_map::AddressMap;
use crate::batch::{BatchView, LoadedProgramsForTxBatch};
use crate::cache::{ProgramCache, ProgramCacheView};
use crate::environment::ProgramRuntimeEnvironments;
use crate::fork_graph::{on_fork_of, BlockRelation, ForkGraph, Slot};
use crate::loaded_program::{
    wrapping_sum, LoadedProgram, LoadedProgramMatchCriteria, LoadedProgramType,
};
use crate::second_level::{key_lt, SecondLevelView, WorkerId};
use crate::stats::StatsView;
use vstd::prelude::*;

verus! {

/// A program that a batch asks for: its address, what the batch asks of the
/// entry, and the number of transactions of the batch that use it.
pub type SearchItem = (Address, (LoadedProgramMatchCriteria, u64));

/// The entry was loaded under one of `environments`, or under none.
pub open spec fn matches_environment(
    entry: LoadedProgram,
    environments: ProgramRuntimeEnvironments,
) -> bool {
    match entry.program.environment() {
        Some(environment) => environments.contains(environment),
        None => true,
    }
}

/// The entry meets `criteria`.
pub open spec fn matches_criteria(
    entry: LoadedProgram,
    criteria: LoadedProgramMatchCriteria,
) -> bool {
    match criteria {
        LoadedProgramMatchCriteria::DeployedOnOrAfterSlot(slot) => entry.deployment_slot >= slot,
        LoadedProgramMatchCriteria::Tombstone => entry.program.tombstone(),
        LoadedProgramMatchCriteria::NoCriteria => true,
    }
}

/// The entry was deployed on the fork of `slot`: at or before the root, or
/// in `slot` itself or one of its ancestors.
pub open spec fn visible<FG: ForkGraph>(
    graph: &FG,
    entry: LoadedProgram,
    root: Slot,
    slot: Slot,
) -> bool {
    entry.deployment_slot <= root || on_fork_of(graph, entry.deployment_slot, slot)
}

/// The entry is effective in `slot` and fits the environments of the batch.
pub open spec fn usable(
    entry: LoadedProgram,
    slot: Slot,
    environments: ProgramRuntimeEnvironments,
) -> bool {
    slot >= entry.effective_slot && matches_environment(entry, environments)
}

/// The entry decides a lookup in `slot`: it is visible there, and either
/// usable or deployed but not yet effective.
pub open spec fn decisive<FG: ForkGraph>(
    graph: &FG,
    entry: LoadedProgram,
    root: Slot,
    slot: Slot,
    environments: ProgramRuntimeEnvironments,
) -> bool {
    visible(graph, entry, root, slot) && (usable(entry, slot, environments)
        || entry.implicit_delay_visibility_tombstone(slot))
}

/// What a lookup among the versions of one address comes to.
#[derive(Clone, Copy, Debug, PartialEq, Eq, Structural)]
pub enum Lookup {
    /// The version at this index serves the batch.
    Hit(usize),
    /// The program was deployed in this slot and is not yet effective.
    Delayed(Slot),
    /// No version serves the batch: the program has to be loaded.
    Miss,
}

/// The lookup among the first `n` of `versions`, from the newest down: the
/// newest decisive version settles it. A usable one is a hit, unless it
/// fails the criteria or is unloaded, which makes a miss; one that is not
/// yet effective makes a delay.
pub open spec fn lookup<FG: ForkGraph>(
    graph: &FG,
    versions: Seq<LoadedProgram>,
    n: int,
    root: Slot,
    slot: Slot,
    environments: ProgramRuntimeEnvironments,
    criteria: LoadedProgramMatchCriteria,
) -> Lookup
    decreases n,
{
    if n <= 0 {
        Lookup::Miss
    } else {
        let entry = versions[n - 1];
        if !decisive(graph, entry, root, slot, environments) {
            lookup(graph, versions, n - 1, root, slot, environments, criteria)
        } else if usable(entry, slot, environments) {
            if !matches_criteria(entry, criteria) || entry.program is Unloaded {
                Lookup::Miss
            } else {
                Lookup::Hit((n - 1) as usize)
            }
        } else {
            Lookup::Delayed(entry.deployment_slot)
        }
    }
}

/// Where a batch stands while it takes its programs out of the cache.
pub struct Extraction {
    /// The cache.
    pub cache: ProgramCacheView,
    /// The programs that the batch has so far.
    pub batch: BatchView,
    /// The programs that the batch still misses, in the order in which it
    /// asked for them.
    pub remaining: Seq<SearchItem>,
    /// The program that the worker of the batch has taken on to load.
    pub task: Option<(Address, u64)>,
}

/// The extraction after the batch asked for `item`.
///
/// A hit is counted as a use of the version, which goes into the batch. A
/// delay puts a fresh tombstone into the batch. A miss stays among the
/// remaining items; as long as the worker has no task, the address gets a
/// second level, and the worker takes the loading on if nobody else has.
pub open spec fn extract_step<FG: ForkGraph>(
    graph: &FG,
    state: Extraction,
    item: SearchItem,
    worker: WorkerId,
) -> Extraction {
    let key = item.0;
    let criteria = item.1.0;
    let usage_count = item.1.1;
    let level = state.cache.level(key);
    let slot = state.batch.slot;
    match lookup(
        graph,
        level.slot_versions,
        level.slot_versions.len() as int,
        state.cache.latest_root_slot,
        slot,
        state.batch.environments,
        criteria,
    ) {
        Lookup::Hit(index) => {
            let entry = level.slot_versions[index as int].used(slot, usage_count);
            Extraction {
                cache: state.cache.with_level(
                    key,
                    SecondLevelView {
                        slot_versions: level.slot_versions.update(index as int, entry),
                        ..level
                    },
                ),
                batch: state.batch.replenish(key, entry),
                ..state
            }
        },
        Lookup::Delayed(deployment_slot) => {
            let tombstone = LoadedProgram::tombstone_at(
                deployment_slot,
                LoadedProgramType::DelayVisibility,
            ).used(slot, usage_count);
            Extraction { batch: state.batch.replenish(key, tombstone), ..state }
        },
        Lookup::Miss => {
            if state.task is Some {
                Extraction { remaining: state.remaining.push(item), ..state }
            } else if level.cooperative_loading_lock is Some {
                Extraction {
                    cache: state.cache.touched(key),
                    remaining: state.remaining.push(item),
                    ..state
                }
            } else {
                Extraction {
                    cache: state.cache.with_level(
                        key,
                        SecondLevelView { cooperative_loading_lock: Some((slot, worker)), ..level },
                    ),
                    remaining: state.remaining.push(item),
                    task: Some((key, usage_count)),
                    ..state
                }
            }
        },
    }
}

/// The extraction after the batch asked for the first `n` of `items`, one
/// after the other.
pub open spec fn extract_first<FG: ForkGraph>(
    graph: &FG,
    start: Extraction,
    items: Seq<SearchItem>,
    n: int,
    worker: WorkerId,
) -> Extraction
    decreases n,
{
    if n <= 0 {
        start
    } else {
        extract_step(graph, extract_first(graph, start, items, n - 1, worker), items[n - 1], worker)
    }
}

/// The extraction of `items` for `batch` out of `cache`, before it is
/// counted.
pub open spec fn extraction<FG: ForkGraph>(
    graph: &FG,
    cache: ProgramCacheView,
    batch: BatchView,
    items: Seq<SearchItem>,
    worker: WorkerId,
) -> Extraction {
    extract_first(
        graph,
        Extraction { cache, batch, remaining: Seq::empty(), task: None },
        items,
        items.len() as int,
        worker,
    )
}

/// The cache of an extraction with, in a first round, the remaining items
/// counted as misses and the entries of the batch as hits.
pub open spec fn counted(state: Extraction, is_first_round: bool) -> ProgramCacheView {
    if is_first_round {
        ProgramCacheView {
            stats: StatsView {
                misses: wrapping_sum(state.cache.stats.misses, state.remaining.len() as u64),
                hits: wrapping_sum(state.cache.stats.hits, state.batch.keys.len() as u64),
                ..state.cache.stats
            },
            ..state.cache
        }
    } else {
        state.cache
    }
}

impl ProgramCache {
    pub fn matches_environment(
        entry: &LoadedProgram,
        environments: &ProgramRuntimeEnvironments,
    ) -> (matches: bool)
        ensures
            matches == matches_environment(*entry, *environments),
    {
        match entry.program.get_environment() {
            None => true,
            Some(environment) => *environment == environments.program_runtime_v1 || *environment
                == environments.program_runtime_v2,
        }
    }

    pub fn matches_loaded_program_criteria(
        program: &LoadedProgram,
        criteria: &LoadedProgramMatchCriteria,
    ) -> (matches: bool)
        ensures
            matches == matches_criteria(*program, *criteria),
    {
        match criteria {
            LoadedProgramMatchCriteria::DeployedOnOrAfterSlot(slot) => {
                program.deployment_slot >= *slot
            },
            LoadedProgramMatchCriteria::Tombstone => program.is_tombstone(),
            LoadedProgramMatchCriteria::NoCriteria => true,
        }
    }

    /// Looks among `versions`, from the newest down, for the one that serves
    /// a batch of `slot`.
    pub fn lookup<FG: ForkGraph>(
        fork_graph: &FG,
        versions: &Vec<LoadedProgram>,
        root: Slot,
        slot: Slot,
        environments: &ProgramRuntimeEnvironments,
        criteria: &LoadedProgramMatchCriteria,
    ) -> (found: Lookup)
        ensures
            found == lookup(
                fork_graph,
                versions@,
                versions@.len() as int,
                root,
                slot,
                *environments,
                *criteria,
            ),
            found matches Lookup::Hit(index) ==> index < versions@.len(),
    {
        let mut n: usize = versions.len();
        proof {
            lemma_lookup_hit(
                fork_graph,
                versions@,
                versions@.len() as int,
                root,
                slot,
                *environments,
                *criteria,
            );
        }
        while n > 0
            invariant
                n <= versions@.len(),
                lookup(
                    fork_graph,
                    versions@,
                    versions@.len() as int,
                    root,
                    slot,
                    *environments,
                    *criteria,
                ) == lookup(fork_graph, versions@, n as int, root, slot, *environments, *criteria),
            decreases n,
        {
            let entry = &versions[n - 1];
            let on_fork = if entry.deployment_slot <= root {
                true
            } else {
                match fork_graph.relationship(entry.deployment_slot, slot) {
                    BlockRelation::Equal | BlockRelation::Ancestor => true,
                    _ => false,
                }
            };
            if on_fork {
                if slot >= entry.effective_slot && Self::matches_environment(entry, environments) {
                    if !Self::matches_loaded_program_criteria(entry, criteria) {
                        return Lookup::Miss;
                    }
                    if let LoadedProgramType::Unloaded(_environment) = &entry.program {
                        return Lookup::Miss;
                    }
                    return Lookup::Hit(n - 1);
                } else if entry.is_implicit_delay_visibility_tombstone(slot) {
                    // Found a program entry on the current fork, but it's not effective
                    // yet. It indicates that the program has delayed visibility.
                    return Lookup::Delayed(entry.deployment_slot);
                }
            }
            n -= 1;
        }
        Lookup::Miss
    }

    /// Serves one item of a batch: puts the version that serves it into the
    /// batch, or says that the item stays open, taking the loading on for
    /// `worker` if that is possible.
    pub fn extract_one<FG: ForkGraph>(
        &mut self,
        fork_graph: &FG,
        item: &SearchItem,
        loaded_programs_for_tx_batch: &mut LoadedProgramsForTxBatch,
        cooperative_loading_task: &mut Option<(Address, u64)>,
        worker: WorkerId,
    ) -> (open: bool)
        requires
            old(self).wf(),
            old(loaded_programs_for_tx_batch).wf(),
        ensures
            final(self).wf(),
            final(loaded_programs_for_tx_batch).wf(),
            final(self).loading_task_waiter == old(self).loading_task_waiter,
            ({
                let before = Extraction {
                    cache: old(self)@,
                    batch: old(loaded_programs_for_tx_batch)@,
                    remaining: Seq::empty(),
                    task: *old(cooperative_loading_task),
                };
                let after = extract_step(fork_graph, before, *item, worker);
                &&& final(self)@ == after.cache
                &&& final(loaded_programs_for_tx_batch)@ == after.batch
                &&& *final(cooperative_loading_task) == after.task
                &&& open == (after.remaining.len() == 1)
            }),
    {
        let key = item.0;
        let usage_count = item.1.1;
        let slot = loaded_programs_for_tx_batch.slot;
        let position = self.entries.find(&key);
        let found = match position {
            Some(index) => {
                proof {
                    self.entries.lemma_view_at(index as int);
                }
                Self::lookup(
                    fork_graph,
                    &self.entries.values[index].slot_versions,
                    self.latest_root_slot,
                    slot,
                    &loaded_programs_for_tx_batch.environments,
                    &item.1.0,
                )
            },
            None => Lookup::Miss,
        };
        match found {
            Lookup::Hit(version) => {
                let index = position.unwrap();
                let ghost versions = self.entries.values@[index as int].slot_versions@;
                let mut entry_to_return = self.entries.values[index].slot_versions[version];
                entry_to_return.update_access_slot(slot);
                entry_to_return.tx_usage_counter = entry_to_return.tx_usage_counter.wrapping_add(
                    usage_count,
                );
                self.entries.values[index].slot_versions[version] = entry_to_return;
                proof {
                    AddressMap::lemma_view_after_update(
                        &old(self).entries,
                        &self.entries,
                        index as int,
                    );
                    let after = self.entries.values@[index as int].slot_versions@;
                    assert(after =~= versions.update(version as int, entry_to_return));
                    assert(versions[version as int].wf());
                    assert forall|i: int, j: int| 0 <= i < j < after.len() implies key_lt(
                        after[i],
                        after[j],
                    ) by {
                        assert(key_lt(versions[i], versions[j]));
                    }
                    assert forall|i: int| 0 <= i < after.len() implies (#[trigger] after[i]).wf() by {
                        assert(versions[i].wf());
                    }
                    assert forall|i: int| 0 <= i < self.entries.values@.len() implies (
                    #[trigger] self.entries.values@[i])@.wf() by {
                        if i != index {
                            assert(self.entries.values@[i] == old(self).entries.values@[i]);
                        }
                    }
                }
                loaded_programs_for_tx_batch.replenish(key, entry_to_return);
                false
            },
            Lookup::Delayed(deployment_slot) => {
                let mut entry_to_return = LoadedProgram::new_tombstone(
                    deployment_slot,
                    LoadedProgramType::DelayVisibility,
                );
                entry_to_return.update_access_slot(slot);
                entry_to_return.tx_usage_counter = entry_to_return.tx_usage_counter.wrapping_add(
                    usage_count,
                );
                loaded_programs_for_tx_batch.replenish(key, entry_to_return);
                false
            },
            Lookup::Miss => {
                if cooperative_loading_task.is_none() {
                    // We have not selected a task so far
                    let index = self.second_level_index(key);
                    if self.entries.values[index].cooperative_loading_lock.is_none() {
                        // Select this missing entry which is not selected by any other TX batch yet
                        let ghost touched = *self;
                        *cooperative_loading_task = Some((key, usage_count));
                        self.entries.values[index].cooperative_loading_lock = Some((slot, worker));
                        proof {
                            AddressMap::lemma_view_after_update(
                                &touched.entries,
                                &self.entries,
                                index as int,
                            );
                            assert(self@.levels =~= old(self)@.with_level(
                                key,
                                SecondLevelView {
                                    cooperative_loading_lock: Some((slot, worker)),
                                    ..old(self)@.level(key)
                                },
                            ).levels);
                            assert forall|i: int|
                                0 <= i < self.entries.values@.len() implies (
                            #[trigger] self.entries.values@[i])@.wf() by {
                                if i != index {
                                    assert(self.entries.values@[i] == touched.entries.values@[i]);
                                }
                            }
                        }
                    }
                }
                true
            },
        }
    }

    /// Extracts a subset of the programs relevant to a transaction batch
    /// and returns which program accounts the accounts DB needs to load.
    ///
    /// The items are served one after the other. Those that the cache can
    /// serve go into the batch; the others stay in `search_for`. The program
    /// returned, if any, is the one that `worker` has to load for all.
    pub fn extract<FG: ForkGraph>(
        &mut self,
        fork_graph: &FG,
        search_for: &mut Vec<SearchItem>,
        loaded_programs_for_tx_batch: &mut LoadedProgramsForTxBatch,
        is_first_round: bool,
        worker: WorkerId,
    ) -> (cooperative_loading_task: Option<(Address, u64)>)
        requires
            old(self).wf(),
            old(loaded_programs_for_tx_batch).wf(),
        ensures
            final(self).wf(),
            final(loaded_programs_for_tx_batch).wf(),
            final(self).loading_task_waiter == old(self).loading_task_waiter,
            ({
                let result = extraction(
                    fork_graph,
                    old(self)@,
                    old(loaded_programs_for_tx_batch)@,
                    old(search_for)@,
                    worker,
                );
                &&& final(self)@ == counted(result, is_first_round)
                &&& final(loaded_programs_for_tx_batch)@ == result.batch
                &&& final(search_for)@ == result.remaining
                &&& cooperative_loading_task == result.task
            }),
    {
        let mut cooperative_loading_task: Option<(Address, u64)> = None;
        let mut remaining: Vec<SearchItem> = Vec::new();
        let ghost start = Extraction {
            cache: self@,
            batch: loaded_programs_for_tx_batch@,
            remaining: Seq::empty(),
            task: None,
        };
        let ghost items = search_for@;
        let mut i: usize = 0;
        while i < search_for.len()
            invariant
                self.wf(),
                loaded_programs_for_tx_batch.wf(),
                self.loading_task_waiter == old(self).loading_task_waiter,
                search_for@ == items,
                i <= items.len(),
                remaining@.len() <= i,
                ({
                    let state = extract_first(fork_graph, start, items, i as int, worker);
                    &&& self@ == state.cache
                    &&& loaded_programs_for_tx_batch@ == state.batch
                    &&& remaining@ == state.remaining
                    &&& cooperative_loading_task == state.task
                }),
            decreases items.len() - i,
        {
            let item = search_for[i];
            let ghost before = extract_first(fork_graph, start, items, i as int, worker);
            let open = self.extract_one(
                fork_graph,
                &item,
                loaded_programs_for_tx_batch,
                &mut cooperative_loading_task,
                worker,
            );
            if open {
                remaining.push(item);
            }
            proof {
                let alone = Extraction { remaining: Seq::empty(), ..before };
                let stepped = extract_step(fork_graph, alone, item, worker);
                let after = extract_step(fork_graph, before, item, worker);
                assert(after.cache == stepped.cache);
                assert(after.batch == stepped.batch);
                assert(after.task == stepped.task);
                assert(after.remaining =~= before.remaining + stepped.remaining);
                if open {
                    assert(stepped.remaining =~= seq![item]);
                } else {
                    assert(stepped.remaining =~= Seq::empty());
                }
                assert(remaining@ =~= after.remaining);
            }
            i += 1;
        }
        *search_for = remaining;
        if is_first_round {
            self.stats.misses = self.stats.misses.wrapping_add(search_for.len() as u64);
            self.stats.hits = self.stats.hits.wrapping_add(
                loaded_programs_for_tx_batch.entries.len() as u64,
            );
        }
        cooperative_loading_task
    }
}

/// A hit names the newest version that decides the lookup, which is usable,
/// meets the criteria and is not unloaded; a delay names the slot of a
/// visible version that is not yet effective.
pub proof fn lemma_lookup_hit<FG: ForkGraph>(
    graph: &FG,
    versions: Seq<LoadedProgram>,
    n: int,
    root: Slot,
    slot: Slot,
    environments: ProgramRuntimeEnvironments,
    criteria: LoadedProgramMatchCriteria,
)
    requires
        n <= versions.len() <= usize::MAX,
    ensures
        match lookup(graph, versions, n, root, slot, environments, criteria) {
            Lookup::Hit(index) => {
                &&& 0 <= index < n
                &&& decisive(graph, versions[index as int], root, slot, environments)
                &&& usable(versions[index as int], slot, environments)
                &&& matches_criteria(versions[index as int], criteria)
                &&& !(versions[index as int].program is Unloaded)
                &&& forall|j: int|
                    index < j < n ==> !decisive(
                        graph,
                        #[trigger] versions[j],
                        root,
                        slot,
                        environments,
                    )
            },
            Lookup::Delayed(deployment_slot) => exists|index: int|
                {
                    &&& 0 <= index < n
                    &&& (#[trigger] versions[index]).deployment_slot == deployment_slot
                    &&& visible(graph, versions[index], root, slot)
                    &&& versions[index].implicit_delay_visibility_tombstone(slot)
                },
            Lookup::Miss => true,
        },
    decreases n,
{
    if n > 0 {
        let entry = versions[n - 1];
        if !decisive(graph, entry, root, slot, environments) {
            lemma_lookup_hit(graph, versions, n - 1, root, slot, environments, criteria);
        } else if usable(entry, slot, environments) {
        } else {
            assert(versions[n - 1].deployment_slot == entry.deployment_slot);
        }
    }
}


/// What an extraction leaves as it was: the slot and the environments of
/// the batch; the roots, the environments and the counters of the cache;
/// and every loading task that a worker held before.
pub open spec fn extraction_frame(before: Extraction, after: Extraction) -> bool {
    &&& after.batch.slot == before.batch.slot
    &&& after.batch.environments == before.batch.environments
    &&& after.batch.upcoming_environments == before.batch.upcoming_environments
    &&& after.batch.latest_root_epoch == before.batch.latest_root_epoch
    &&& after.batch.hit_max_limit == before.batch.hit_max_limit
    &&& after.cache.latest_root_slot == before.cache.latest_root_slot
    &&& after.cache.latest_root_epoch == before.cache.latest_root_epoch
    &&& after.cache.environments == before.cache.environments
    &&& after.cache.upcoming_environments == before.cache.upcoming_environments
    &&& after.cache.programs_to_recompile == before.cache.programs_to_recompile
    &&& after.cache.stats == before.cache.stats
    &&& before.task is Some ==> after.task == before.task
    &&& forall|key: Address|
        (#[trigger] before.cache.level(key)).cooperative_loading_lock is Some
            ==> after.cache.level(key).cooperative_loading_lock == before.cache.level(
            key,
        ).cooperative_loading_lock
}

/// An extraction leaves the frame of the batch and of the cache as it was.
/// In particular a loading task stays with the worker that holds it: no
/// second worker gets the task of an address.
pub proof fn lemma_extraction_frame<FG: ForkGraph>(
    graph: &FG,
    start: Extraction,
    items: Seq<SearchItem>,
    n: int,
    worker: WorkerId,
)
    requires
        0 <= n <= items.len(),
    ensures
        extraction_frame(start, extract_first(graph, start, items, n, worker)),
    decreases n,
{
    if n > 0 {
        lemma_extraction_frame(graph, start, items, n - 1, worker);
        let before = extract_first(graph, start, items, n - 1, worker);
        let after = extract_first(graph, start, items, n, worker);
        assert(after == extract_step(graph, before, items[n - 1], worker));
        assert forall|key: Address|
            (#[trigger] start.cache.level(key)).cooperative_loading_lock is Some implies after.cache.level(
            key,
        ).cooperative_loading_lock == start.cache.level(key).cooperative_loading_lock by {
            assert(before.cache.level(key).cooperative_loading_lock == start.cache.level(
                key,
            ).cooperative_loading_lock);
        }
    }
}

} // verus!
