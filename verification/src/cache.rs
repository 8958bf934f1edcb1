//! The cache of programs that all batches share, with the operations that
//! fill it and empty it.

use crate::address::Address;
use crate::address_map::{lemma_position_range, AddressMap};
use crate::batch::{environments_for_epoch, BatchView, LoadedProgramsForTxBatch};
use crate::environment::ProgramRuntimeEnvironments;
use crate::fork_graph::{on_fork_of, BlockRelation, Epoch, ForkGraph, Slot};
use crate::loaded_program::{wrapping_sum, LoadedProgram};
use crate::loading_task::LoadingTaskWaiter;
use crate::second_level::{
    assign, assignment, sorted, Assignment, SecondLevel, SecondLevelView, WorkerId,
};
use crate::stats::{Stats, StatsView};
use std::sync::Arc;
use vstd::prelude::*;

verus! {

pub const MAX_LOADED_ENTRY_COUNT: usize = 256;

/// This structure is the global cache of loaded, verified and compiled programs.
///
/// It ...
/// - is validator global and fork graph aware, so it can optimize the commonalities across banks.
/// - handles the visibility rules of un/re/deployments.
/// - stores the usage statistics and verification status of each program.
/// - is elastic and uses a probabilistic eviction stragety based on the usage statistics.
/// - also keeps the compiled executables around, but only for the most used programs.
/// - supports various kinds of tombstones to avoid loading programs which can not be loaded.
/// - cleans up entries on orphan branches when the block store is rerooted.
/// - supports the recompilation phase before feature activations which can change cached programs.
/// - manages the environments of the programs and upcoming environments for the next epoch.
/// - allows for cooperative loading of TX batches which hit the same missing programs simultaneously.
/// - enforces that all programs used in a batch are eagerly loaded ahead of execution.
/// - is not persisted to disk or a snapshot, so it needs to cold start and warm up first.
///
/// The fork graph is not kept in the cache: the operations that ask it take
/// it as an argument, held still by the caller for as long as they run.
#[derive(Debug)]
pub struct ProgramCache {
    /// A two level index:
    ///
    /// The first level is for the address at which programs are deployed and the second level for the slot (and thus also fork).
    pub entries: AddressMap<SecondLevel>,
    /// The slot of the last rerooting
    pub latest_root_slot: Slot,
    /// The epoch of the last rerooting
    pub latest_root_epoch: Epoch,
    /// Environments of the current epoch
    pub environments: ProgramRuntimeEnvironments,
    /// Anticipated replacement for `environments` at the next epoch
    ///
    /// This is `None` during most of an epoch, and only `Some` around the boundaries (at the end and beginning of an epoch).
    /// More precisely, it starts with the recompilation phase a few hundred slots before the epoch boundary,
    /// and it ends with the first rerooting after the epoch boundary.
    pub upcoming_environments: Option<ProgramRuntimeEnvironments>,
    /// List of loaded programs which should be recompiled before the next epoch (but don't have to).
    pub programs_to_recompile: Vec<(Address, LoadedProgram)>,
    /// Statistics counters
    pub stats: Stats,
    /// Coordinates TX batches waiting for others to complete their task during cooperative loading
    pub loading_task_waiter: Arc<LoadingTaskWaiter>,
}

/// What a [ProgramCache] holds: the second level of each address, the
/// addresses in the order in which they came in, and the other fields.
pub struct ProgramCacheView {
    pub keys: Seq<Address>,
    pub levels: Map<Address, SecondLevelView>,
    pub latest_root_slot: Slot,
    pub latest_root_epoch: Epoch,
    pub environments: ProgramRuntimeEnvironments,
    pub upcoming_environments: Option<ProgramRuntimeEnvironments>,
    pub programs_to_recompile: Seq<(Address, LoadedProgram)>,
    pub stats: StatsView,
}

impl ProgramCacheView {
    /// The second levels are those of the addresses in `keys`, none of which
    /// occurs twice, and in each of them the versions are sorted and
    /// well-formed.
    pub open spec fn wf(self) -> bool {
        &&& self.keys.no_duplicates()
        &&& self.levels.dom() == self.keys.to_set()
        &&& forall|key: Address| #[trigger]
            self.levels.dom().contains(key) ==> self.levels[key].wf()
    }

    /// A cache without programs, rooted at the given slot and epoch.
    pub open spec fn empty(root_slot: Slot, root_epoch: Epoch) -> ProgramCacheView {
        ProgramCacheView {
            keys: Seq::empty(),
            levels: Map::empty(),
            latest_root_slot: root_slot,
            latest_root_epoch: root_epoch,
            environments: ProgramRuntimeEnvironments {
                program_runtime_v1: crate::environment::ProgramRuntimeEnvironment { id: 0 },
                program_runtime_v2: crate::environment::ProgramRuntimeEnvironment { id: 0 },
            },
            upcoming_environments: None,
            programs_to_recompile: Seq::empty(),
            stats: StatsView::zero(),
        }
    }

    /// The second level of `key`; an address that the cache does not know
    /// has neither versions nor a loading task.
    pub open spec fn level(self, key: Address) -> SecondLevelView {
        if self.levels.dom().contains(key) {
            self.levels[key]
        } else {
            SecondLevelView::empty()
        }
    }

    /// The versions of the program at `key`.
    pub open spec fn versions(self, key: Address) -> Seq<LoadedProgram> {
        self.level(key).slot_versions
    }

    /// The cache with `level` as the second level of `key`; an address that
    /// is new to the cache comes behind the others.
    pub open spec fn with_level(self, key: Address, level: SecondLevelView) -> ProgramCacheView {
        ProgramCacheView {
            keys: if self.keys.contains(key) {
                self.keys
            } else {
                self.keys.push(key)
            },
            levels: self.levels.insert(key, level),
            ..self
        }
    }

    /// The cache in which `key` has a second level, an empty one if it had
    /// none.
    pub open spec fn touched(self, key: Address) -> ProgramCacheView {
        self.with_level(key, self.level(key))
    }

    /// The cache after `entry` was assigned to the versions of `key`, with
    /// the assignment counted as an insertion, a reload or a replacement.
    pub open spec fn assign_program(self, key: Address, entry: LoadedProgram) -> ProgramCacheView {
        let level = self.level(key);
        let assigned = SecondLevelView {
            slot_versions: assign(level.slot_versions, entry),
            ..level
        };
        let stats = match assignment(level.slot_versions, entry) {
            Assignment::Inserted => StatsView {
                insertions: wrapping_sum(self.stats.insertions, 1),
                ..self.stats
            },
            Assignment::Replaced => StatsView {
                reloads: wrapping_sum(self.stats.reloads, 1),
                ..self.stats
            },
            Assignment::Rejected => StatsView {
                replacements: wrapping_sum(self.stats.replacements, 1),
                ..self.stats
            },
        };
        ProgramCacheView { stats, ..self.with_level(key, assigned) }
    }

    /// The slots of `entry` are taken at `key` by a version that does not
    /// give way to it.
    pub open spec fn assign_rejected(self, key: Address, entry: LoadedProgram) -> bool {
        assignment(self.versions(key), entry) == Assignment::Rejected
    }

    /// The cache after the first `n` entries of `batch`, in the order of its
    /// keys, were assigned one by one.
    pub open spec fn merge_first(self, batch: BatchView, n: int) -> ProgramCacheView
        decreases n,
    {
        if n <= 0 {
            self
        } else {
            self.merge_first(batch, n - 1).assign_program(
                batch.keys[n - 1],
                batch.entries[batch.keys[n - 1]],
            )
        }
    }

    /// The cache after all entries of `batch` were assigned.
    pub open spec fn merge(self, batch: BatchView) -> ProgramCacheView {
        self.merge_first(batch, batch.keys.len() as int)
    }

    /// The environments that apply in `epoch`.
    pub open spec fn environments_for_epoch(self, epoch: Epoch) -> ProgramRuntimeEnvironments {
        environments_for_epoch(
            self.environments,
            self.upcoming_environments,
            self.latest_root_epoch,
            epoch,
        )
    }

    /// The environments that a batch of `epoch` has to expect for the next
    /// epoch: those that the cache expects, if `epoch` is that of its root.
    pub open spec fn upcoming_environments_for_epoch(self, epoch: Epoch) -> Option<
        ProgramRuntimeEnvironments,
    > {
        if epoch == self.latest_root_epoch {
            self.upcoming_environments
        } else {
            None
        }
    }
}

/// Changing the second level of an address, or giving it one, keeps a cache
/// well-formed if the new level is.
pub proof fn lemma_with_level_wf(cache: ProgramCacheView, key: Address, level: SecondLevelView)
    requires
        cache.wf(),
        level.wf(),
    ensures
        cache.with_level(key, level).wf(),
        cache.with_level(key, level).level(key) == level,
        forall|other: Address|
            other != key ==> cache.with_level(key, level).level(other) == cache.level(other),
{
    let after = cache.with_level(key, level);
    if cache.keys.contains(key) {
        assert(after.levels.dom() =~= after.keys.to_set());
    } else {
        let keys = after.keys;
        assert forall|a: int, b: int|
            0 <= a < keys.len() && 0 <= b < keys.len() && a != b implies keys[a] != keys[b] by {
            if a < keys.len() - 1 {
                assert(cache.keys[a] == keys[a]);
            }
            if b < keys.len() - 1 {
                assert(cache.keys[b] == keys[b]);
            }
        }
        assert forall|k: Address| after.levels.dom().contains(k) <==> keys.to_set().contains(
            k,
        ) by {
            if keys.contains(k) {
                let a = keys.index_of(k);
                if a < keys.len() - 1 {
                    assert(cache.keys[a] == k);
                    assert(cache.keys.contains(k));
                }
            }
            if cache.keys.contains(k) {
                let a = cache.keys.index_of(k);
                assert(keys[a] == k);
            }
            if k == key {
                assert(keys[keys.len() - 1] == key);
            }
        }
        assert(after.levels.dom() =~= keys.to_set());
    }
}

impl View for ProgramCache {
    type V = ProgramCacheView;

    open spec fn view(&self) -> ProgramCacheView {
        ProgramCacheView {
            keys: self.entries.keys@,
            levels: self.entries@,
            latest_root_slot: self.latest_root_slot,
            latest_root_epoch: self.latest_root_epoch,
            environments: self.environments,
            upcoming_environments: self.upcoming_environments,
            programs_to_recompile: self.programs_to_recompile@,
            stats: self.stats@,
        }
    }
}

impl ProgramCache {
    /// Each address has one second level, whose versions are sorted and
    /// well-formed, and the evictions are counted once for each address.
    pub open spec fn wf(&self) -> bool {
        &&& self.entries.wf()
        &&& self.stats.wf()
        &&& forall|i: int|
            0 <= i < self.entries.values@.len() ==> (#[trigger] self.entries.values@[i])@.wf()
    }

    /// The view of a well-formed cache is well-formed.
    pub proof fn lemma_view_wf(&self)
        requires
            self.wf(),
        ensures
            self@.wf(),
    {
        assert(self@.levels.dom() =~= self@.keys.to_set());
        assert forall|key: Address| #[trigger]
            self@.levels.dom().contains(key) implies self@.levels[key].wf() by {
            lemma_position_range(self.entries.keys@, key);
        }
    }

    pub fn new(root_slot: Slot, root_epoch: Epoch) -> (cache: Self)
        ensures
            cache.wf(),
            cache@ == ProgramCacheView::empty(root_slot, root_epoch),
    {
        let cache = ProgramCache {
            entries: AddressMap::new(),
            latest_root_slot: root_slot,
            latest_root_epoch: root_epoch,
            environments: ProgramRuntimeEnvironments::default(),
            upcoming_environments: None,
            programs_to_recompile: Vec::new(),
            stats: Stats::default(),
            loading_task_waiter: Arc::new(LoadingTaskWaiter::new()),
        };
        assert(cache@.levels =~= Map::empty());
        cache
    }

    /// Returns the current environments depending on the given epoch
    pub fn get_environments_for_epoch(&self, epoch: Epoch) -> (environments:
        &ProgramRuntimeEnvironments)
        ensures
            *environments == self@.environments_for_epoch(epoch),
    {
        if epoch != self.latest_root_epoch {
            if let Some(upcoming_environments) = self.upcoming_environments.as_ref() {
                return upcoming_environments;
            }
        }
        &self.environments
    }

    /// Returns the upcoming environments depending on the given epoch
    pub fn get_upcoming_environments_for_epoch(&self, epoch: Epoch) -> (environments: Option<
        ProgramRuntimeEnvironments,
    >)
        ensures
            environments == self@.upcoming_environments_for_epoch(epoch),
    {
        if epoch == self.latest_root_epoch {
            return self.upcoming_environments;
        }
        None
    }

    /// The index of the second level of `key`, which is made if there is
    /// none.
    pub fn second_level_index(&mut self, key: Address) -> (index: usize)
        requires
            old(self).wf(),
        ensures
            final(self).wf(),
            final(self)@ == old(self)@.touched(key),
            index < final(self).entries.keys@.len(),
            final(self).entries.keys@[index as int] == key,
            final(self).entries.values@[index as int]@ == old(self)@.level(key),
            final(self).loading_task_waiter == old(self).loading_task_waiter,
    {
        match self.entries.find(&key) {
            Some(index) => {
                proof {
                    self.entries.lemma_view_at(index as int);
                    assert(self@.levels =~= old(self)@.levels.insert(key, old(self)@.level(key)));
                }
                index
            },
            None => {
                self.entries.push(key, SecondLevel::default());
                proof {
                    assert(self.entries.keys@.drop_last() =~= old(self).entries.keys@);
                    AddressMap::lemma_view_after_push(&old(self).entries, &self.entries);
                    assert forall|i: int| 0 <= i < self.entries.values@.len() implies (
                    #[trigger] self.entries.values@[i])@.wf() by {
                        if i < old(self).entries.values@.len() {
                            assert(self.entries.values@[i] == old(self).entries.values@[i]);
                        }
                    }
                }
                self.entries.len() - 1
            },
        }
    }

    /// Insert a single entry. It's typically called during transaction loading,
    /// when the cache doesn't contain the entry corresponding to program `key`.
    ///
    /// Returns whether the slots of the entry were taken by a version that
    /// stays in its place.
    pub fn assign_program(&mut self, key: Address, entry: LoadedProgram) -> (occupied: bool)
        requires
            old(self).wf(),
            entry.wf(),
        ensures
            final(self).wf(),
            final(self)@ == old(self)@.assign_program(key, entry),
            occupied == old(self)@.assign_rejected(key, entry),
            final(self).loading_task_waiter == old(self).loading_task_waiter,
    {
        let index = self.second_level_index(key);
        let ghost touched = *self;
        let outcome = self.entries.values[index].assign(entry);
        proof {
            AddressMap::lemma_view_after_update(&touched.entries, &self.entries, index as int);
            assert(self@.levels =~= old(self)@.assign_program(key, entry).levels);
            assert forall|i: int| 0 <= i < self.entries.values@.len() implies (
            #[trigger] self.entries.values@[i])@.wf() by {
                if i != index {
                    assert(self.entries.values@[i] == touched.entries.values@[i]);
                }
            }
        }
        match outcome {
            Assignment::Inserted => {
                self.stats.insertions = self.stats.insertions.wrapping_add(1);
                false
            },
            Assignment::Replaced => {
                self.stats.reloads = self.stats.reloads.wrapping_add(1);
                false
            },
            Assignment::Rejected => {
                self.stats.replacements = self.stats.replacements.wrapping_add(1);
                true
            },
        }
    }

    pub fn merge(&mut self, tx_batch_cache: &LoadedProgramsForTxBatch)
        requires
            old(self).wf(),
            tx_batch_cache.wf(),
            forall|key: Address| #[trigger]
                tx_batch_cache@.entries.dom().contains(key) ==> tx_batch_cache@.entries[key].wf(),
        ensures
            final(self).wf(),
            final(self)@ == old(self)@.merge(tx_batch_cache@),
            final(self).loading_task_waiter == old(self).loading_task_waiter,
    {
        let mut i: usize = 0;
        while i < tx_batch_cache.entries.len()
            invariant
                self.wf(),
                tx_batch_cache.wf(),
                forall|key: Address| #[trigger]
                    tx_batch_cache@.entries.dom().contains(key)
                        ==> tx_batch_cache@.entries[key].wf(),
                i <= tx_batch_cache.entries.keys@.len(),
                self@ == old(self)@.merge_first(tx_batch_cache@, i as int),
                self.loading_task_waiter == old(self).loading_task_waiter,
            decreases tx_batch_cache.entries.keys@.len() - i,
        {
            proof {
                tx_batch_cache.entries.lemma_view_at(i as int);
            }
            self.assign_program(tx_batch_cache.entries.keys[i], tx_batch_cache.entries.values[i]);
            i += 1;
        }
    }
}


impl ProgramCacheView {
    /// The cache after the worker that loaded `entry` for a batch of `slot`
    /// handed it in: the loading task of `key` is over, the entry is counted
    /// as lost if it was deployed behind the root on a fork that `slot` is
    /// not on, and then it is assigned.
    pub open spec fn finish_cooperative_loading_task<FG: ForkGraph>(
        self,
        graph: &FG,
        slot: Slot,
        key: Address,
        entry: LoadedProgram,
    ) -> ProgramCacheView {
        let unlocked = self.with_level(
            key,
            SecondLevelView { cooperative_loading_lock: None, ..self.level(key) },
        );
        let lost = entry.deployment_slot > self.latest_root_slot && !on_fork_of(
            graph,
            entry.deployment_slot,
            slot,
        );
        (ProgramCacheView {
            stats: StatsView {
                lost_insertions: if lost {
                    wrapping_sum(self.stats.lost_insertions, 1)
                } else {
                    self.stats.lost_insertions
                },
                ..self.stats
            },
            ..unlocked
        }).assign_program(key, entry)
    }
}

impl ProgramCache {
    /// Called for each program that is done loading, by the worker that
    /// took the loading on.
    ///
    /// Returns whether the slots of the program were taken by a version that
    /// stays in its place. The workers that wait for a program to be loaded
    /// are woken up.
    pub fn finish_cooperative_loading_task<FG: ForkGraph>(
        &mut self,
        fork_graph: &FG,
        slot: Slot,
        key: Address,
        loaded_program: LoadedProgram,
        worker: WorkerId,
    ) -> (was_occupied: bool)
        requires
            old(self).wf(),
            loaded_program.wf(),
            old(self)@.level(key).cooperative_loading_lock == Some((slot, worker)),
        ensures
            final(self).wf(),
            final(self)@ == old(self)@.finish_cooperative_loading_task(
                fork_graph,
                slot,
                key,
                loaded_program,
            ),
            was_occupied == old(self)@.assign_rejected(key, loaded_program),
            final(self).loading_task_waiter == old(self).loading_task_waiter,
    {
        let index = self.second_level_index(key);
        let ghost touched = *self;
        self.entries.values[index].cooperative_loading_lock = None;
        proof {
            AddressMap::lemma_view_after_update(&touched.entries, &self.entries, index as int);
            assert(self@.levels =~= old(self)@.with_level(
                key,
                SecondLevelView { cooperative_loading_lock: None, ..old(self)@.level(key) },
            ).levels);
            assert forall|i: int| 0 <= i < self.entries.values@.len() implies (
            #[trigger] self.entries.values@[i])@.wf() by {
                if i != index {
                    assert(self.entries.values@[i] == touched.entries.values@[i]);
                }
            }
        }
        // Check that it will be visible to our own fork once inserted
        if loaded_program.deployment_slot > self.latest_root_slot {
            let on_fork = match fork_graph.relationship(loaded_program.deployment_slot, slot) {
                BlockRelation::Equal | BlockRelation::Ancestor => true,
                _ => false,
            };
            if !on_fork {
                self.stats.lost_insertions = self.stats.lost_insertions.wrapping_add(1);
            }
        }
        let ghost unlocked = self@;
        let was_occupied = self.assign_program(key, loaded_program);
        proof {
            assert(unlocked.level(key).slot_versions == old(self)@.level(key).slot_versions);
        }
        self.loading_task_waiter.notify();
        was_occupied
    }
}


impl ProgramCache {
    /// Returns the `slot_versions` of the second level for the given program id.
    pub fn get_slot_versions_for_tests(&self, key: &Address) -> (versions: &[LoadedProgram])
        requires
            self.wf(),
        ensures
            versions@ == self@.versions(*key),
    {
        match self.entries.find(key) {
            Some(index) => {
                proof {
                    self.entries.lemma_view_at(index as int);
                }
                self.entries.values[index].slot_versions.as_slice()
            },
            None => {
                let empty: &[LoadedProgram] = &[];
                assert(empty@ =~= Seq::empty());
                empty
            },
        }
    }
}

} // verus!
