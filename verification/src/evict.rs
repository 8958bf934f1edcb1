//! Dropping compiled programs that are used little, to bound the memory the
//! cache takes.

use crate::address::Address;
use crate::address_map::{lemma_position_range, AddressMap};
use crate::cache::{ProgramCache, ProgramCacheView, MAX_LOADED_ENTRY_COUNT};
use crate::fork_graph::Slot;
use crate::loaded_program::{wrapping_sum, LoadedProgram, LoadedProgramType};
use crate::outside::{apply_percentage, percentage_value, random_index};
use crate::second_level::{key_eq, key_lt, sorted, SecondLevelView};
use crate::stats::StatsView;
use percentage::PercentageInteger;
use vstd::prelude::*;

verus! {

/// The entry is a compiled program of a runtime that is asked for.
pub open spec fn included(entry: LoadedProgram, v1: bool, v2: bool) -> bool {
    ||| (entry.program is LegacyV0 || entry.program is LegacyV1) && v1
    ||| entry.program is Typed && v2
}

/// Those of the first `n` of `versions` that are compiled programs of a
/// runtime asked for, each with `key`.
pub open spec fn level_entries(
    key: Address,
    versions: Seq<LoadedProgram>,
    n: int,
    v1: bool,
    v2: bool,
) -> Seq<(Address, LoadedProgram)>
    decreases n,
{
    if n <= 0 {
        Seq::empty()
    } else if included(versions[n - 1], v1, v2) {
        level_entries(key, versions, n - 1, v1, v2).push((key, versions[n - 1]))
    } else {
        level_entries(key, versions, n - 1, v1, v2)
    }
}

/// A version of the list stands for the same version as `entry`.
pub open spec fn has_version(versions: Seq<LoadedProgram>, entry: LoadedProgram) -> bool {
    exists|i: int| 0 <= i < versions.len() && (#[trigger] versions[i]).same_version(entry)
}

/// The index of a version of the list that stands for the same version as
/// `entry`. In a sorted list there is no more than one.
pub open spec fn version_index(versions: Seq<LoadedProgram>, entry: LoadedProgram) -> int {
    choose|i: int| 0 <= i < versions.len() && (#[trigger] versions[i]).same_version(entry)
}

/// In a sorted list, a version that stands for the same version as `entry`
/// is the one at `version_index`.
pub proof fn lemma_version_index(versions: Seq<LoadedProgram>, entry: LoadedProgram, i: int)
    requires
        sorted(versions),
        0 <= i < versions.len(),
        versions[i].same_version(entry),
    ensures
        has_version(versions, entry),
        version_index(versions, entry) == i,
{
    let j = version_index(versions, entry);
    assert(0 <= j < versions.len() && versions[j].same_version(entry));
    if j < i {
        assert(key_lt(versions[j], versions[i]));
    }
    if i < j {
        assert(key_lt(versions[i], versions[j]));
    }
}

/// The number of compiled on-chain programs among the first `n` of
/// `versions`.
pub open spec fn loaded_in(versions: Seq<LoadedProgram>, n: int) -> nat
    decreases n,
{
    if n <= 0 {
        0
    } else if versions[n - 1].program.loaded() {
        loaded_in(versions, n - 1) + 1
    } else {
        loaded_in(versions, n - 1)
    }
}

impl ProgramCacheView {
    /// The compiled programs of the runtimes asked for in the second levels
    /// of the first `n` addresses, each with its address.
    pub open spec fn flattened_first(self, n: int, v1: bool, v2: bool) -> Seq<
        (Address, LoadedProgram),
    >
        decreases n,
    {
        if n <= 0 {
            Seq::empty()
        } else {
            let key = self.keys[n - 1];
            let versions = self.levels[key].slot_versions;
            self.flattened_first(n - 1, v1, v2) + level_entries(
                key,
                versions,
                versions.len() as int,
                v1,
                v2,
            )
        }
    }

    /// All compiled programs of the runtimes asked for, each with its
    /// address: address by address, and for each address from the oldest
    /// version to the newest.
    pub open spec fn flattened(self, v1: bool, v2: bool) -> Seq<(Address, LoadedProgram)> {
        self.flattened_first(self.keys.len() as int, v1, v2)
    }

    /// The number of compiled on-chain programs in the second levels of the
    /// first `n` addresses.
    pub open spec fn loaded_first(self, n: int) -> nat
        decreases n,
    {
        if n <= 0 {
            0
        } else {
            let versions = self.levels[self.keys[n - 1]].slot_versions;
            self.loaded_first(n - 1) + loaded_in(versions, versions.len() as int)
        }
    }

    /// The number of compiled on-chain programs in the cache.
    pub open spec fn loaded_count(self) -> nat {
        self.loaded_first(self.keys.len() as int)
    }

    /// The cache after the version of `program` that `remove_entry` stands
    /// for gave up its compiled program, which is counted as an eviction,
    /// and as a one-hit wonder if a single transaction used it. A version
    /// that has no compiled program to give up stays as it is, and so does
    /// the cache if it has no such version.
    pub open spec fn unload(self, program: Address, remove_entry: LoadedProgram) -> ProgramCacheView {
        let level = self.level(program);
        let versions = level.slot_versions;
        if !has_version(versions, remove_entry) {
            self
        } else {
            let index = version_index(versions, remove_entry);
            match versions[index].unloaded() {
                None => self,
                Some(unloaded) => ProgramCacheView {
                    stats: (StatsView {
                        one_hit_wonders: if versions[index].tx_usage_counter == 1 {
                            wrapping_sum(self.stats.one_hit_wonders, 1)
                        } else {
                            self.stats.one_hit_wonders
                        },
                        ..self.stats
                    }).evicted(program),
                    ..self.with_level(
                        program,
                        SecondLevelView { slot_versions: versions.update(index, unloaded), ..level },
                    )
                },
            }
        }
    }

    /// The cache after the first `n` of `remove` were unloaded.
    pub open spec fn unload_first(
        self,
        remove: Seq<(Address, LoadedProgram)>,
        n: int,
    ) -> ProgramCacheView
        decreases n,
    {
        if n <= 0 {
            self
        } else {
            self.unload_first(remove, n - 1).unload(remove[n - 1].0, remove[n - 1].1)
        }
    }
}

/// The index of the candidate to evict among two: the first if it is used
/// less than the second, and else the second.
pub open spec fn less_used(
    candidates: Seq<(Address, LoadedProgram)>,
    index1: int,
    index2: int,
    now: Slot,
) -> int {
    if candidates[index1].1.decayed_usage(now) < candidates[index2].1.decayed_usage(now) {
        index1
    } else {
        index2
    }
}

/// The number of compiled programs that the share `shrink_to` of the
/// greatest number of loaded entries allows.
pub open spec fn shrink_target(shrink_to: PercentageInteger) -> nat {
    (MAX_LOADED_ENTRY_COUNT * percentage_value(shrink_to) / 100) as nat
}

/// The number of programs to unload so that no more than `target` stay.
pub open spec fn excess(candidates: nat, target: nat) -> nat {
    if candidates > target {
        (candidates - target) as nat
    } else {
        0
    }
}

impl ProgramCache {
    /// Returns the list of loaded programs which are verified and compiled.
    pub fn get_flattened_entries(
        &self,
        include_program_runtime_v1: bool,
        include_program_runtime_v2: bool,
    ) -> (entries: Vec<(Address, LoadedProgram)>)
        requires
            self.wf(),
        ensures
            entries@ == self@.flattened(include_program_runtime_v1, include_program_runtime_v2),
    {
        let mut entries: Vec<(Address, LoadedProgram)> = Vec::new();
        let mut i: usize = 0;
        while i < self.entries.len()
            invariant
                self.wf(),
                i <= self.entries.keys@.len(),
                entries@ == self@.flattened_first(
                    i as int,
                    include_program_runtime_v1,
                    include_program_runtime_v2,
                ),
            decreases self.entries.keys@.len() - i,
        {
            let id = self.entries.keys[i];
            let second_level = &self.entries.values[i];
            proof {
                self.entries.lemma_view_at(i as int);
            }
            let ghost before = entries@;
            let mut j: usize = 0;
            while j < second_level.slot_versions.len()
                invariant
                    j <= second_level.slot_versions@.len(),
                    entries@ == before + level_entries(
                        id,
                        second_level.slot_versions@,
                        j as int,
                        include_program_runtime_v1,
                        include_program_runtime_v2,
                    ),
                decreases second_level.slot_versions@.len() - j,
            {
                let program = second_level.slot_versions[j];
                let wanted = match program.program {
                    LoadedProgramType::LegacyV0(_) | LoadedProgramType::LegacyV1(_) => {
                        include_program_runtime_v1
                    },
                    LoadedProgramType::Typed(_) => include_program_runtime_v2,
                    _ => false,
                };
                if wanted {
                    entries.push((id, program));
                }
                j += 1;
            }
            i += 1;
        }
        entries
    }

    /// The index of the first of `versions` that stands for the same
    /// version as `entry`.
    fn find_version(versions: &Vec<LoadedProgram>, entry: &LoadedProgram) -> (found: Option<usize>)
        ensures
            match found {
                Some(i) => i < versions@.len() && versions@[i as int].same_version(*entry),
                None => !has_version(versions@, *entry),
            },
    {
        let mut i: usize = 0;
        while i < versions.len()
            invariant
                i <= versions@.len(),
                forall|j: int| 0 <= j < i ==> !(#[trigger] versions@[j]).same_version(*entry),
            decreases versions@.len() - i,
        {
            if versions[i] == *entry {
                return Some(i);
            }
            i += 1;
        }
        None
    }

    /// Drops the compiled program of the version of `program` that
    /// `remove_entry` stands for, if there is such a version and it has one.
    fn unload_if_present(&mut self, program: &Address, remove_entry: &LoadedProgram)
        requires
            old(self).wf(),
        ensures
            final(self).wf(),
            final(self)@ == old(self)@.unload(*program, *remove_entry),
            final(self).loading_task_waiter == old(self).loading_task_waiter,
    {
        let index = match self.entries.find(program) {
            Some(index) => index,
            None => {
                return ;
            },
        };
        proof {
            self.entries.lemma_view_at(index as int);
        }
        let ghost versions = self.entries.values@[index as int].slot_versions@;
        let i = match Self::find_version(&self.entries.values[index].slot_versions, remove_entry) {
            Some(i) => i,
            None => {
                return ;
            },
        };
        proof {
            lemma_version_index(versions, *remove_entry, i as int);
        }
        let candidate = self.entries.values[index].slot_versions[i];
        // Certain entry types cannot be unloaded, such as tombstones, or already unloaded entries.
        // For such entries, `to_unloaded()` will return None.
        // These entry types do not occupy much memory.
        if let Some(unloaded) = candidate.to_unloaded() {
            if candidate.tx_usage_counter == 1 {
                self.stats.one_hit_wonders = self.stats.one_hit_wonders.wrapping_add(1);
            }
            self.stats.count_eviction(*program);
            self.entries.values[index].slot_versions[i] = unloaded;
            proof {
                AddressMap::lemma_view_after_update(&old(self).entries, &self.entries, index as int);
                let after = self.entries.values@[index as int].slot_versions@;
                assert(after =~= versions.update(i as int, unloaded));
                assert(versions[i as int].wf());
                assert forall|a: int, b: int| 0 <= a < b < after.len() implies key_lt(
                    after[a],
                    after[b],
                ) by {
                    assert(key_lt(versions[a], versions[b]));
                }
                assert forall|a: int| 0 <= a < after.len() implies (#[trigger] after[a]).wf() by {
                    assert(versions[a].wf());
                }
                assert forall|a: int| 0 <= a < self.entries.values@.len() implies (
                #[trigger] self.entries.values@[a])@.wf() by {
                    if a != index {
                        assert(self.entries.values@[a] == old(self).entries.values@[a]);
                    }
                }
            }
        }
    }

    /// This function removes the given entry for the given program from the cache.
    /// The function expects that the program and entry exists in the cache.
    pub fn unload_program_entry(&mut self, program: &Address, remove_entry: &LoadedProgram)
        requires
            old(self).wf(),
            old(self)@.levels.dom().contains(*program),
            has_version(old(self)@.versions(*program), *remove_entry),
        ensures
            final(self).wf(),
            final(self)@ == old(self)@.unload(*program, *remove_entry),
            final(self).loading_task_waiter == old(self).loading_task_waiter,
    {
        self.unload_if_present(program, remove_entry);
    }
}


/// The candidates are compiled programs that the cache holds, no two of
/// them the same version of the same program.
pub open spec fn candidates_of(
    cache: ProgramCacheView,
    candidates: Seq<(Address, LoadedProgram)>,
) -> bool {
    &&& forall|a: int|
        0 <= a < candidates.len() ==> {
            let candidate = #[trigger] candidates[a];
            &&& cache.levels.dom().contains(candidate.0)
            &&& candidate.1.program.loaded()
            &&& cache.levels[candidate.0].slot_versions.contains(candidate.1)
        }
    &&& forall|a: int, b: int|
        0 <= a < b < candidates.len() ==> !(candidates[a].0 == candidates[b].0 && key_eq(
            candidates[a].1,
            candidates[b].1,
        ))
}

/// `after` is `before` with some compiled programs dropped: the same
/// addresses, loading tasks, roots and environments, the same counters but
/// for those of evictions and of one-hit wonders, and version by version
/// either the same entry or the one that is left when its compiled program
/// is dropped.
pub open spec fn unloading_of(before: ProgramCacheView, after: ProgramCacheView) -> bool {
    &&& after.keys == before.keys
    &&& after.levels.dom() == before.levels.dom()
    &&& after.latest_root_slot == before.latest_root_slot
    &&& after.latest_root_epoch == before.latest_root_epoch
    &&& after.environments == before.environments
    &&& after.upcoming_environments == before.upcoming_environments
    &&& after.programs_to_recompile == before.programs_to_recompile
    &&& after.stats == (StatsView {
        evictions: after.stats.evictions,
        one_hit_wonders: after.stats.one_hit_wonders,
        ..before.stats
    })
    &&& forall|key: Address| #[trigger]
        before.levels.dom().contains(key) ==> {
            let old_level = before.levels[key];
            let new_level = after.levels[key];
            &&& new_level.cooperative_loading_lock == old_level.cooperative_loading_lock
            &&& new_level.slot_versions.len() == old_level.slot_versions.len()
            &&& forall|i: int|
                0 <= i < old_level.slot_versions.len() ==> {
                    ||| #[trigger] new_level.slot_versions[i] == old_level.slot_versions[i]
                    ||| Some(new_level.slot_versions[i]) == old_level.slot_versions[i].unloaded()
                }
        }
}

/// The entries that one second level contributes have its address, are
/// versions of it, and come in the order of the versions.
pub proof fn lemma_level_entries(
    key: Address,
    versions: Seq<LoadedProgram>,
    n: int,
    v1: bool,
    v2: bool,
)
    requires
        0 <= n <= versions.len(),
    ensures
        ({
            let entries = level_entries(key, versions, n, v1, v2);
            &&& forall|a: int|
                0 <= a < entries.len() ==> {
                    &&& (#[trigger] entries[a]).0 == key
                    &&& included(entries[a].1, v1, v2)
                    &&& exists|i: int| 0 <= i < n && versions[i] == entries[a].1
                }
            &&& sorted(versions) ==> forall|a: int, b: int|
                0 <= a < b < entries.len() ==> key_lt(entries[a].1, entries[b].1)
            &&& v1 && v2 ==> entries.len() == loaded_in(versions, n)
        }),
    decreases n,
{
    if n > 0 {
        lemma_level_entries(key, versions, n - 1, v1, v2);
        let before = level_entries(key, versions, n - 1, v1, v2);
        let entries = level_entries(key, versions, n, v1, v2);
        assert forall|a: int| 0 <= a < entries.len() implies {
            &&& (#[trigger] entries[a]).0 == key
            &&& included(entries[a].1, v1, v2)
            &&& exists|i: int| 0 <= i < n && versions[i] == entries[a].1
        } by {
            if a < before.len() {
                assert(entries[a] == before[a]);
                let i = choose|i: int| 0 <= i < n - 1 && versions[i] == before[a].1;
                assert(versions[i] == entries[a].1);
            } else {
                assert(versions[n - 1] == entries[a].1);
            }
        }
        if sorted(versions) {
            assert forall|a: int, b: int| 0 <= a < b < entries.len() implies key_lt(
                entries[a].1,
                entries[b].1,
            ) by {
                if b < before.len() {
                    assert(entries[a] == before[a] && entries[b] == before[b]);
                } else {
                    assert(entries[a] == before[a]);
                    let i = choose|i: int| 0 <= i < n - 1 && versions[i] == before[a].1;
                    assert(key_lt(versions[i], versions[n - 1]));
                }
            }
        }
    }
}

/// The compiled programs that a well-formed cache lists are candidates of
/// it, as many as it holds compiled programs.
pub proof fn lemma_flattened(cache: ProgramCacheView, n: int)
    requires
        cache.wf(),
        0 <= n <= cache.keys.len(),
    ensures
        candidates_of(cache, cache.flattened_first(n, true, true)),
        cache.flattened_first(n, true, true).len() == cache.loaded_first(n),
        forall|a: int|
            0 <= a < cache.flattened_first(n, true, true).len() ==> exists|k: int|
                0 <= k < n && cache.keys[k] == (#[trigger] cache.flattened_first(
                    n,
                    true,
                    true,
                )[a]).0,
    decreases n,
{
    if n > 0 {
        lemma_flattened(cache, n - 1);
        let key = cache.keys[n - 1];
        assert(cache.keys.contains(key));
        assert(cache.keys.to_set().contains(key));
        assert(cache.levels.dom().contains(key));
        let versions = cache.levels[key].slot_versions;
        assert(cache.levels[key].wf());
        lemma_level_entries(key, versions, versions.len() as int, true, true);
        let before = cache.flattened_first(n - 1, true, true);
        let added = level_entries(key, versions, versions.len() as int, true, true);
        let entries = cache.flattened_first(n, true, true);
        assert(entries == before + added);
        assert forall|a: int| 0 <= a < entries.len() implies exists|k: int|
            0 <= k < n && cache.keys[k] == (#[trigger] entries[a]).0 by {
            if a < before.len() {
                assert(entries[a] == before[a]);
                let k = choose|k: int| 0 <= k < n - 1 && cache.keys[k] == before[a].0;
                assert(cache.keys[k] == entries[a].0);
            } else {
                assert(entries[a] == added[a - before.len()]);
                assert(cache.keys[n - 1] == entries[a].0);
            }
        }
        assert forall|a: int| 0 <= a < entries.len() implies {
            let candidate = #[trigger] entries[a];
            &&& cache.levels.dom().contains(candidate.0)
            &&& candidate.1.program.loaded()
            &&& cache.levels[candidate.0].slot_versions.contains(candidate.1)
        } by {
            if a < before.len() {
                assert(entries[a] == before[a]);
            } else {
                let c = added[a - before.len()];
                assert(entries[a] == c);
                let i = choose|i: int| 0 <= i < versions.len() && versions[i] == c.1;
                assert(versions[i] == c.1);
            }
        }
        assert forall|a: int, b: int| 0 <= a < b < entries.len() implies !(entries[a].0
            == entries[b].0 && key_eq(entries[a].1, entries[b].1)) by {
            if b < before.len() {
                assert(entries[a] == before[a] && entries[b] == before[b]);
            } else if a < before.len() {
                assert(entries[a] == before[a]);
                assert(entries[b] == added[b - before.len()]);
                let k = choose|k: int| 0 <= k < n - 1 && cache.keys[k] == before[a].0;
                assert(cache.keys[k] != cache.keys[n - 1]);
            } else {
                assert(entries[a] == added[a - before.len()]);
                assert(entries[b] == added[b - before.len()]);
                assert(key_lt(added[a - before.len()].1, added[b - before.len()].1));
            }
        }
    }
}

/// Dropping the compiled program of one version lowers the number of
/// compiled programs among the versions up to it by none, and among more of
/// them by one.
pub proof fn lemma_loaded_in_update(
    versions: Seq<LoadedProgram>,
    index: int,
    unloaded: LoadedProgram,
    n: int,
)
    requires
        0 <= index < versions.len(),
        0 <= n <= versions.len(),
        versions[index].program.loaded(),
        !unloaded.program.loaded(),
    ensures
        loaded_in(versions.update(index, unloaded), n) + (if index < n {
            1nat
        } else {
            0nat
        }) == loaded_in(versions, n),
    decreases n,
{
    if n > 0 {
        lemma_loaded_in_update(versions, index, unloaded, n - 1);
    }
}

/// A change of the second level of one address changes the number of
/// compiled programs in the cache by as much as it changes the number in
/// that second level.
pub proof fn lemma_loaded_first_update(
    cache: ProgramCacheView,
    key: Address,
    level: SecondLevelView,
    n: int,
)
    requires
        cache.wf(),
        cache.levels.dom().contains(key),
        0 <= n <= cache.keys.len(),
    ensures
        ({
            let after = cache.with_level(key, level);
            let position = crate::address_map::position(cache.keys, key);
            let old_versions = cache.levels[key].slot_versions;
            let new_versions = level.slot_versions;
            after.loaded_first(n) + (if position < n {
                loaded_in(old_versions, old_versions.len() as int)
            } else {
                0nat
            }) == cache.loaded_first(n) + (if position < n {
                loaded_in(new_versions, new_versions.len() as int)
            } else {
                0nat
            })
        }),
    decreases n,
{
    lemma_position_range(cache.keys, key);
    if n > 0 {
        lemma_loaded_first_update(cache, key, level, n - 1);
        let after = cache.with_level(key, level);
        assert(cache.keys.to_set().contains(key));
        assert(after.keys == cache.keys);
        let position = crate::address_map::position(cache.keys, key);
        if n - 1 == position {
        } else {
            assert(cache.keys[n - 1] != key) by {
                if cache.keys[n - 1] == key {
                    crate::address_map::lemma_position(cache.keys, key, n - 1);
                }
            }
        }
    }
}

/// Unloading a candidate drops the compiled program of one version, and
/// leaves the other candidates candidates of the cache.
pub proof fn lemma_unload_candidate(
    cache: ProgramCacheView,
    candidates: Seq<(Address, LoadedProgram)>,
    index: int,
)
    requires
        cache.wf(),
        candidates_of(cache, candidates),
        0 <= index < candidates.len(),
    ensures
        ({
            let after = cache.unload(candidates[index].0, candidates[index].1);
            let rest = candidates.update(index, candidates.last()).drop_last();
            &&& after.wf()
            &&& candidates_of(after, rest)
            &&& after.loaded_count() + 1 == cache.loaded_count()
            &&& unloading_of(cache, after)
        }),
{
    let candidate = candidates[index];
    let key = candidate.0;
    let after = cache.unload(key, candidate.1);
    let rest = candidates.update(index, candidates.last()).drop_last();
    let level = cache.levels[key];
    let versions = level.slot_versions;
    assert(cache.levels.dom().contains(key));
    assert(level.wf());
    let i = versions.index_of(candidate.1);
    assert(0 <= i < versions.len() && versions[i] == candidate.1);
    lemma_version_index(versions, candidate.1, i);
    let unloaded = versions[i].unloaded()->0;
    let new_level = SecondLevelView { slot_versions: versions.update(i, unloaded), ..level };
    assert(after.levels == cache.levels.insert(key, new_level));
    assert(cache.keys.to_set().contains(key));
    assert(after.keys == cache.keys);
    // the new level is well-formed
    assert forall|a: int, b: int| 0 <= a < b < new_level.slot_versions.len() implies key_lt(
        new_level.slot_versions[a],
        new_level.slot_versions[b],
    ) by {
        assert(key_lt(versions[a], versions[b]));
    }
    assert forall|a: int| 0 <= a < new_level.slot_versions.len() implies (
    #[trigger] new_level.slot_versions[a]).wf() by {
        assert(versions[a].wf());
    }
    crate::cache::lemma_with_level_wf(cache, key, new_level);
    let touched = cache.with_level(key, new_level);
    assert(after.keys == touched.keys && after.levels == touched.levels);
    assert(after.wf());
    // the count
    lemma_loaded_first_update(cache, key, new_level, cache.keys.len() as int);
    lemma_loaded_in_update(versions, i, unloaded, versions.len() as int);
    lemma_position_range(cache.keys, key);
    assert(after.loaded_first(cache.keys.len() as int) == touched.loaded_first(
        cache.keys.len() as int,
    )) by {
        lemma_loaded_first_same(after, touched, cache.keys.len() as int);
    }
    // the other candidates
    assert forall|a: int| 0 <= a < rest.len() implies {
        let other = #[trigger] rest[a];
        &&& after.levels.dom().contains(other.0)
        &&& other.1.program.loaded()
        &&& after.levels[other.0].slot_versions.contains(other.1)
    } by {
        let a_before = if a == index {
            candidates.len() - 1
        } else {
            a
        };
        assert(rest[a] == candidates[a_before]);
        let other = candidates[a_before];
        assert(a_before != index);
        if other.0 == key {
            let j = versions.index_of(other.1);
            assert(0 <= j < versions.len() && versions[j] == other.1);
            if a_before < index {
                assert(!(candidates[a_before].0 == candidates[index].0 && key_eq(
                    candidates[a_before].1,
                    candidates[index].1,
                )));
            } else {
                assert(!(candidates[index].0 == candidates[a_before].0 && key_eq(
                    candidates[index].1,
                    candidates[a_before].1,
                )));
            }
            assert(j != i);
            assert(new_level.slot_versions[j] == other.1);
        } else {
            assert(after.levels[other.0] == cache.levels[other.0]);
        }
    }
    assert forall|a: int, b: int| 0 <= a < b < rest.len() implies !(rest[a].0 == rest[b].0
        && key_eq(rest[a].1, rest[b].1)) by {
        let a_before = if a == index {
            candidates.len() - 1
        } else {
            a
        };
        let b_before = if b == index {
            candidates.len() - 1
        } else {
            b
        };
        assert(rest[a] == candidates[a_before] && rest[b] == candidates[b_before]);
        if a_before < b_before {
            assert(!(candidates[a_before].0 == candidates[b_before].0 && key_eq(
                candidates[a_before].1,
                candidates[b_before].1,
            )));
        } else {
            assert(!(candidates[b_before].0 == candidates[a_before].0 && key_eq(
                candidates[b_before].1,
                candidates[a_before].1,
            )));
        }
    }
    // what stays
    assert(after.levels.dom() =~= cache.levels.dom());
    assert forall|k: Address| #[trigger] cache.levels.dom().contains(k) implies {
        let old_level = cache.levels[k];
        let new_level = after.levels[k];
        &&& new_level.cooperative_loading_lock == old_level.cooperative_loading_lock
        &&& new_level.slot_versions.len() == old_level.slot_versions.len()
        &&& forall|x: int|
            0 <= x < old_level.slot_versions.len() ==> {
                ||| #[trigger] new_level.slot_versions[x] == old_level.slot_versions[x]
                ||| Some(new_level.slot_versions[x]) == old_level.slot_versions[x].unloaded()
            }
    } by {}
}

/// Two caches with the same addresses and second levels hold the same number
/// of compiled programs.
pub proof fn lemma_loaded_first_same(a: ProgramCacheView, b: ProgramCacheView, n: int)
    requires
        a.keys == b.keys,
        a.levels == b.levels,
    ensures
        a.loaded_first(n) == b.loaded_first(n),
    decreases n,
{
    if n > 0 {
        lemma_loaded_first_same(a, b, n - 1);
    }
}

/// What is left after compiled programs were dropped twice in a row is what
/// is left after some were dropped.
pub proof fn lemma_unloading_chain(
    first: ProgramCacheView,
    second: ProgramCacheView,
    third: ProgramCacheView,
)
    requires
        unloading_of(first, second),
        unloading_of(second, third),
    ensures
        unloading_of(first, third),
{
    assert forall|key: Address| #[trigger] first.levels.dom().contains(key) implies {
        let old_level = first.levels[key];
        let new_level = third.levels[key];
        &&& new_level.cooperative_loading_lock == old_level.cooperative_loading_lock
        &&& new_level.slot_versions.len() == old_level.slot_versions.len()
        &&& forall|i: int|
            0 <= i < old_level.slot_versions.len() ==> {
                ||| #[trigger] new_level.slot_versions[i] == old_level.slot_versions[i]
                ||| Some(new_level.slot_versions[i]) == old_level.slot_versions[i].unloaded()
            }
    } by {
        assert(second.levels.dom().contains(key));
        let a = first.levels[key].slot_versions;
        let b = second.levels[key].slot_versions;
        let c = third.levels[key].slot_versions;
        assert forall|i: int| 0 <= i < a.len() implies {
            ||| #[trigger] c[i] == a[i]
            ||| Some(c[i]) == a[i].unloaded()
        } by {
            assert(b[i] == a[i] || Some(b[i]) == a[i].unloaded());
            assert(c[i] == b[i] || Some(c[i]) == b[i].unloaded());
        }
    }
}

impl ProgramCache {
    /// Of the two candidates at the given indices, evicts the one that is
    /// used less, or the second if neither is, and takes it off the list.
    pub fn evict_less_used(
        &mut self,
        candidates: &mut Vec<(Address, LoadedProgram)>,
        index1: usize,
        index2: usize,
        now: Slot,
    )
        requires
            old(self).wf(),
            index1 < old(candidates)@.len(),
            index2 < old(candidates)@.len(),
        ensures
            final(self).wf(),
            final(self).loading_task_waiter == old(self).loading_task_waiter,
            ({
                let evicted = less_used(old(candidates)@, index1 as int, index2 as int, now);
                &&& final(candidates)@ == old(candidates)@.update(
                    evicted,
                    old(candidates)@.last(),
                ).drop_last()
                &&& final(self)@ == old(self)@.unload(
                    old(candidates)@[evicted].0,
                    old(candidates)@[evicted].1,
                )
            }),
    {
        let usage_counter1 = candidates[index1].1.decayed_usage_counter(now);
        let usage_counter2 = candidates[index2].1.decayed_usage_counter(now);
        let (program, entry) = if usage_counter1 < usage_counter2 {
            candidates.swap_remove(index1)
        } else {
            candidates.swap_remove(index2)
        };
        self.unload_if_present(&program, &entry);
    }

    /// Evicts programs using 2's random selection, choosing the least used program out of the two entries.
    /// The eviction is performed enough number of times to leave no more than
    /// `target` compiled programs.
    ///
    /// Which programs are evicted is left to chance. Whatever it is, the
    /// cache ends up with its compiled programs fewer by their excess over
    /// `target`, and is otherwise what it was.
    pub fn evict_to(&mut self, target: usize, now: Slot)
        requires
            old(self).wf(),
        ensures
            final(self).wf(),
            final(self).loading_task_waiter == old(self).loading_task_waiter,
            final(self)@.loaded_count() + excess(old(self)@.loaded_count(), target as nat) == old(
                self,
            )@.loaded_count(),
            unloading_of(old(self)@, final(self)@),
    {
        let mut candidates = self.get_flattened_entries(true, true);
        let num_to_unload = candidates.len().saturating_sub(target);
        proof {
            self.lemma_view_wf();
            lemma_flattened(self@, self@.keys.len() as int);
            lemma_unloading_same(self@);
        }
        let mut unloaded: usize = 0;
        while unloaded < num_to_unload
            invariant
                self.wf(),
                self.loading_task_waiter == old(self).loading_task_waiter,
                unloaded <= num_to_unload,
                candidates@.len() + unloaded == old(self)@.loaded_count(),
                num_to_unload <= old(self)@.loaded_count(),
                candidates_of(self@, candidates@),
                self@.loaded_count() + unloaded == old(self)@.loaded_count(),
                unloading_of(old(self)@, self@),
            decreases num_to_unload - unloaded,
        {
            let index1 = random_index(candidates.len());
            let index2 = random_index(candidates.len());
            proof {
                self.lemma_view_wf();
                lemma_unload_candidate(
                    self@,
                    candidates@,
                    less_used(candidates@, index1 as int, index2 as int, now),
                );
                lemma_unloading_chain(
                    old(self)@,
                    self@,
                    self@.unload(
                        candidates@[less_used(candidates@, index1 as int, index2 as int, now)].0,
                        candidates@[less_used(candidates@, index1 as int, index2 as int, now)].1,
                    ),
                );
            }
            self.evict_less_used(&mut candidates, index1, index2, now);
            unloaded += 1;
        }
    }

    /// Evicts programs using 2's random selection, choosing the least used program out of the two entries.
    /// The eviction is performed enough number of times to reduce the cache usage to the given percentage.
    pub fn evict_using_2s_random_selection(&mut self, shrink_to: PercentageInteger, now: Slot)
        requires
            old(self).wf(),
        ensures
            final(self).wf(),
            final(self).loading_task_waiter == old(self).loading_task_waiter,
            final(self)@.loaded_count() + excess(
                old(self)@.loaded_count(),
                shrink_target(shrink_to),
            ) == old(self)@.loaded_count(),
            unloading_of(old(self)@, final(self)@),
    {
        self.evict_to(apply_percentage(&shrink_to, MAX_LOADED_ENTRY_COUNT), now);
    }
}

/// A cache is what is left of itself after no compiled program was dropped.
pub proof fn lemma_unloading_same(cache: ProgramCacheView)
    ensures
        unloading_of(cache, cache),
{
}


/// Where `entry` goes among the first `n` of a list ordered by use: behind
/// the last of them that is not used more than it.
pub open spec fn usage_point(
    entries: Seq<(Address, LoadedProgram)>,
    entry: (Address, LoadedProgram),
    n: int,
) -> int
    decreases n,
{
    if n <= 0 {
        0
    } else if entries[n - 1].1.tx_usage_counter > entry.1.tx_usage_counter {
        usage_point(entries, entry, n - 1)
    } else {
        n
    }
}

/// The first `n` of `entries` ordered by the number of transactions that
/// used them, the least used first; entries used equally often keep their
/// order.
pub open spec fn sorted_by_usage(entries: Seq<(Address, LoadedProgram)>, n: int) -> Seq<
    (Address, LoadedProgram),
>
    decreases n,
{
    if n <= 0 {
        Seq::empty()
    } else {
        let before = sorted_by_usage(entries, n - 1);
        before.insert(usage_point(before, entries[n - 1], before.len() as int), entries[n - 1])
    }
}

/// No entry is used more than one behind it.
pub open spec fn ordered_by_usage(entries: Seq<(Address, LoadedProgram)>) -> bool {
    forall|i: int, j: int|
        0 <= i < j < entries.len() ==> entries[i].1.tx_usage_counter
            <= entries[j].1.tx_usage_counter
}

/// The place for an entry lies within the list, with the entries used more
/// than it behind it and the entry before it, if any, not used more.
pub proof fn lemma_usage_point(
    entries: Seq<(Address, LoadedProgram)>,
    entry: (Address, LoadedProgram),
    n: int,
)
    requires
        0 <= n <= entries.len(),
    ensures
        ({
            let p = usage_point(entries, entry, n);
            &&& 0 <= p <= n
            &&& forall|i: int|
                p <= i < n ==> (#[trigger] entries[i]).1.tx_usage_counter
                    > entry.1.tx_usage_counter
            &&& p > 0 ==> entries[p - 1].1.tx_usage_counter <= entry.1.tx_usage_counter
        }),
    decreases n,
{
    if n > 0 && entries[n - 1].1.tx_usage_counter > entry.1.tx_usage_counter {
        lemma_usage_point(entries, entry, n - 1);
    }
}

/// Sorting by use gives a list that is ordered by use and as long as the
/// one sorted.
pub proof fn lemma_sorted_by_usage(entries: Seq<(Address, LoadedProgram)>, n: int)
    requires
        0 <= n <= entries.len(),
    ensures
        ordered_by_usage(sorted_by_usage(entries, n)),
        sorted_by_usage(entries, n).len() == n,
    decreases n,
{
    if n > 0 {
        lemma_sorted_by_usage(entries, n - 1);
        let before = sorted_by_usage(entries, n - 1);
        let entry = entries[n - 1];
        lemma_usage_point(before, entry, before.len() as int);
        let p = usage_point(before, entry, before.len() as int);
        let after = sorted_by_usage(entries, n);
        assert forall|i: int, j: int| 0 <= i < j < after.len() implies after[i].1.tx_usage_counter
            <= after[j].1.tx_usage_counter by {
            if j < p {
            } else if j == p {
                if p > 0 && i < p - 1 {
                    assert(before[i].1.tx_usage_counter <= before[p - 1].1.tx_usage_counter);
                }
            } else if i < p {
                assert(before[i].1.tx_usage_counter <= before[j - 1].1.tx_usage_counter);
            } else if i == p {
                assert(before[j - 1].1.tx_usage_counter > entry.1.tx_usage_counter);
            } else {
                assert(before[i - 1].1.tx_usage_counter <= before[j - 1].1.tx_usage_counter);
            }
        }
    }
}

impl ProgramCacheView {
    /// The cache after its compiled programs were sorted by use and their
    /// excess over `target` was unloaded, the least used first.
    pub open spec fn sort_and_unload_to(self, target: nat) -> ProgramCacheView {
        let candidates = self.flattened(true, true);
        self.unload_first(
            sorted_by_usage(candidates, candidates.len() as int),
            excess(candidates.len(), target) as int,
        )
    }
}

impl ProgramCache {
    /// Orders the entries by the number of transactions that used them, the
    /// least used first; entries used equally often keep their order.
    pub fn sort_by_usage(entries: &Vec<(Address, LoadedProgram)>) -> (sorted: Vec<
        (Address, LoadedProgram),
    >)
        ensures
            sorted@ == sorted_by_usage(entries@, entries@.len() as int),
            sorted@.len() == entries@.len(),
            ordered_by_usage(sorted@),
    {
        let mut sorted: Vec<(Address, LoadedProgram)> = Vec::new();
        let mut i: usize = 0;
        while i < entries.len()
            invariant
                i <= entries@.len(),
                sorted@ == sorted_by_usage(entries@, i as int),
                sorted@.len() == i,
            decreases entries@.len() - i,
        {
            let entry = entries[i];
            let mut p: usize = sorted.len();
            while p > 0 && sorted[p - 1].1.tx_usage_counter > entry.1.tx_usage_counter
                invariant
                    p <= sorted@.len(),
                    usage_point(sorted@, entry, sorted@.len() as int) == usage_point(
                        sorted@,
                        entry,
                        p as int,
                    ),
                decreases p,
            {
                p -= 1;
            }
            sorted.insert(p, entry);
            i += 1;
        }
        proof {
            lemma_sorted_by_usage(entries@, entries@.len() as int);
        }
        sorted
    }

    /// Unloads the first `n` of the given entries.
    pub fn unload_program_entries(&mut self, remove: &Vec<(Address, LoadedProgram)>, n: usize)
        requires
            old(self).wf(),
            n <= remove@.len(),
        ensures
            final(self).wf(),
            final(self)@ == old(self)@.unload_first(remove@, n as int),
            final(self).loading_task_waiter == old(self).loading_task_waiter,
    {
        let mut i: usize = 0;
        while i < n
            invariant
                self.wf(),
                i <= n <= remove@.len(),
                self@ == old(self)@.unload_first(remove@, i as int),
                self.loading_task_waiter == old(self).loading_task_waiter,
            decreases n - i,
        {
            let program = remove[i].0;
            let entry = remove[i].1;
            self.unload_if_present(&program, &entry);
            i += 1;
        }
    }

    /// Unloads the programs which were used least, so that no more than
    /// `target` compiled programs stay.
    pub fn sort_and_unload_to(&mut self, target: usize)
        requires
            old(self).wf(),
        ensures
            final(self).wf(),
            final(self)@ == old(self)@.sort_and_unload_to(target as nat),
            final(self).loading_task_waiter == old(self).loading_task_waiter,
    {
        let candidates = self.get_flattened_entries(true, true);
        let sorted_candidates = Self::sort_by_usage(&candidates);
        let num_to_unload = sorted_candidates.len().saturating_sub(target);
        self.unload_program_entries(&sorted_candidates, num_to_unload);
    }

    /// Unloads programs which were used infrequently
    pub fn sort_and_unload(&mut self, shrink_to: PercentageInteger)
        requires
            old(self).wf(),
        ensures
            final(self).wf(),
            final(self)@ == old(self)@.sort_and_unload_to(shrink_target(shrink_to)),
            final(self).loading_task_waiter == old(self).loading_task_waiter,
    {
        self.sort_and_unload_to(apply_percentage(&shrink_to, MAX_LOADED_ENTRY_COUNT));
    }
}

} // verus!
