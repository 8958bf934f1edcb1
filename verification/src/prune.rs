//! Removing from the cache what a new root leaves behind.

use crate::address::Address;
use crate::address_map::{lemma_position_range, AddressMap};
use crate::cache::{ProgramCache, ProgramCacheView};
use crate::environment::{ProgramRuntimeEnvironment, ProgramRuntimeEnvironments};
use crate::extract::matches_environment;
use crate::fork_graph::{BlockRelation, Epoch, ForkGraph, Slot};
use crate::loaded_program::{wrapping_sum, LoadedProgram};
use crate::second_level::{all_wf, key_lt, sorted, SecondLevel, SecondLevelView};
use crate::stats::StatsView;
use vstd::prelude::*;

verus! {

/// `n` as a counter that wraps around.
pub open spec fn wrapped(n: int) -> u64 {
    (n % 0x1_0000_0000_0000_0000) as u64
}

/// What a rerooting goes by.
#[derive(Clone, Copy, Debug)]
pub struct Reroot {
    /// The slot of the new root.
    pub new_root_slot: Slot,
    /// The slot of the root so far.
    pub latest_root_slot: Slot,
    /// The rerooting enters a new epoch for which environments were
    /// prepared, and ends the time in which programs were recompiled for it.
    pub recompilation_phase_ends: bool,
    /// The environments that apply after the rerooting.
    pub environments: ProgramRuntimeEnvironments,
}

/// What came of going through versions from the newest down.
pub struct PruneScan {
    /// The versions that stay, in their order.
    pub kept: Seq<LoadedProgram>,
    /// A version deployed before the new root, on its fork, was met.
    pub first_ancestor_found: bool,
    /// The environment of the first such version.
    pub first_ancestor_env: Option<ProgramRuntimeEnvironment>,
    /// The number of versions removed because they are off the fork of the
    /// new root or were superseded on it.
    pub orphans: nat,
    /// The number of versions removed because of their environment.
    pub outdated: nat,
}

/// The scan with `entry` in front of the versions kept, unless the
/// rerooting ends a recompilation phase and the entry does not fit the new
/// environments: then it is removed for its environment.
pub open spec fn keep_if_current(scan: PruneScan, entry: LoadedProgram, reroot: Reroot) -> PruneScan {
    if reroot.recompilation_phase_ends && !matches_environment(entry, reroot.environments) {
        PruneScan { outdated: scan.outdated + 1, ..scan }
    } else {
        PruneScan { kept: seq![entry] + scan.kept, ..scan }
    }
}

/// The scan of the versions from index `from` on, the newest first.
///
/// A version deployed at or after the new root stays if its slot is the new
/// root or descends from it. Of those deployed before the new root, on its
/// fork or no later than the old root, the newest stays, and an older one
/// only if its environment differs from that of the newest. All others are
/// orphans.
pub open spec fn prune_scan<FG: ForkGraph>(
    graph: &FG,
    versions: Seq<LoadedProgram>,
    from: int,
    reroot: Reroot,
) -> PruneScan
    decreases versions.len() - from,
{
    if from >= versions.len() {
        PruneScan {
            kept: Seq::empty(),
            first_ancestor_found: false,
            first_ancestor_env: None,
            orphans: 0,
            outdated: 0,
        }
    } else {
        let newer = prune_scan(graph, versions, from + 1, reroot);
        let entry = versions[from];
        let relation = graph.relation(entry.deployment_slot, reroot.new_root_slot);
        if entry.deployment_slot >= reroot.new_root_slot {
            if relation == BlockRelation::Equal || relation == BlockRelation::Descendant {
                keep_if_current(newer, entry, reroot)
            } else {
                newer
            }
        } else if relation == BlockRelation::Ancestor || entry.deployment_slot
            <= reroot.latest_root_slot {
            if !newer.first_ancestor_found {
                keep_if_current(
                    PruneScan {
                        first_ancestor_found: true,
                        first_ancestor_env: entry.program.environment(),
                        ..newer
                    },
                    entry,
                    reroot,
                )
            } else if entry.program.environment() is Some && newer.first_ancestor_env is Some
                && entry.program.environment() != newer.first_ancestor_env {
                keep_if_current(newer, entry, reroot)
            } else {
                PruneScan { orphans: newer.orphans + 1, ..newer }
            }
        } else {
            PruneScan { orphans: newer.orphans + 1, ..newer }
        }
    }
}

/// A version that a rerooting may leave in place: deployed on the new root
/// or a descendant of it, or before the new root on its fork or no later
/// than the old root; and, where a recompilation phase ends, fitting the new
/// environments.
pub open spec fn retainable<FG: ForkGraph>(graph: &FG, entry: LoadedProgram, reroot: Reroot) -> bool {
    let relation = graph.relation(entry.deployment_slot, reroot.new_root_slot);
    &&& if entry.deployment_slot >= reroot.new_root_slot {
        relation == BlockRelation::Equal || relation == BlockRelation::Descendant
    } else {
        relation == BlockRelation::Ancestor || entry.deployment_slot <= reroot.latest_root_slot
    }
    &&& reroot.recompilation_phase_ends ==> matches_environment(entry, reroot.environments)
}

/// Each version that a scan keeps is a version of the list, at or behind
/// the index where the scan began, and one that the rerooting may leave in
/// place; the scan accounts for every version it went through.
pub proof fn lemma_prune_scan<FG: ForkGraph>(
    graph: &FG,
    versions: Seq<LoadedProgram>,
    from: int,
    reroot: Reroot,
)
    requires
        0 <= from <= versions.len(),
    ensures
        ({
            let scan = prune_scan(graph, versions, from, reroot);
            &&& scan.kept.len() + scan.orphans + scan.outdated <= versions.len() - from
            &&& forall|i: int|
                0 <= i < scan.kept.len() ==> {
                    &&& retainable(graph, #[trigger] scan.kept[i], reroot)
                    &&& exists|j: int| from <= j < versions.len() && versions[j] == scan.kept[i]
                }
            &&& sorted(versions) ==> sorted(scan.kept)
            &&& all_wf(versions) ==> all_wf(scan.kept)
        }),
    decreases versions.len() - from,
{
    if from < versions.len() {
        lemma_prune_scan(graph, versions, from + 1, reroot);
        let newer = prune_scan(graph, versions, from + 1, reroot);
        let scan = prune_scan(graph, versions, from, reroot);
        let entry = versions[from];
        if scan.kept.len() == newer.kept.len() + 1 {
            assert(scan.kept =~= seq![entry] + newer.kept);
            assert forall|i: int| 0 <= i < scan.kept.len() implies {
                &&& retainable(graph, #[trigger] scan.kept[i], reroot)
                &&& exists|j: int| from <= j < versions.len() && versions[j] == scan.kept[i]
            } by {
                if i == 0 {
                    assert(versions[from] == scan.kept[0]);
                } else {
                    assert(scan.kept[i] == newer.kept[i - 1]);
                    let j = choose|j: int|
                        from + 1 <= j < versions.len() && versions[j] == newer.kept[i - 1];
                    assert(versions[j] == scan.kept[i]);
                }
            }
            if sorted(versions) {
                assert forall|a: int, b: int| 0 <= a < b < scan.kept.len() implies key_lt(
                    scan.kept[a],
                    scan.kept[b],
                ) by {
                    assert(scan.kept[b] == newer.kept[b - 1]);
                    if a == 0 {
                        let j = choose|j: int|
                            from + 1 <= j < versions.len() && versions[j] == newer.kept[b - 1];
                        assert(key_lt(versions[from], versions[j]));
                    } else {
                        assert(scan.kept[a] == newer.kept[a - 1]);
                        assert(key_lt(newer.kept[a - 1], newer.kept[b - 1]));
                    }
                }
            }
            if all_wf(versions) {
                assert forall|i: int| 0 <= i < scan.kept.len() implies (
                #[trigger] scan.kept[i]).wf() by {
                    if i == 0 {
                        assert(versions[from].wf());
                    } else {
                        assert(newer.kept[i - 1].wf());
                    }
                }
            }
        } else {
            assert(scan.kept == newer.kept);
            assert forall|i: int| 0 <= i < scan.kept.len() implies {
                &&& retainable(graph, #[trigger] scan.kept[i], reroot)
                &&& exists|j: int| from <= j < versions.len() && versions[j] == scan.kept[i]
            } by {
                let j = choose|j: int|
                    from + 1 <= j < versions.len() && versions[j] == newer.kept[i];
                assert(versions[j] == scan.kept[i]);
            }
        }
    }
}

impl SecondLevel {
    /// Removes the versions that the rerooting leaves behind, and returns
    /// how many were removed as orphans and how many for their environment.
    pub fn prune<FG: ForkGraph>(&mut self, fork_graph: &FG, reroot: &Reroot) -> (removed: (
        usize,
        usize,
    ))
        ensures
            ({
                let scan = prune_scan(fork_graph, old(self).slot_versions@, 0, *reroot);
                &&& final(self).slot_versions@ == scan.kept
                &&& removed.0 == scan.orphans
                &&& removed.1 == scan.outdated
            }),
            final(self).cooperative_loading_lock == old(self).cooperative_loading_lock,
            sorted(old(self).slot_versions@) ==> sorted(final(self).slot_versions@),
            all_wf(old(self).slot_versions@) ==> all_wf(final(self).slot_versions@),
    {
        let ghost versions = self.slot_versions@;
        proof {
            lemma_prune_scan(fork_graph, versions, 0, *reroot);
        }
        // Remove entries un/re/deployed on orphan forks
        let mut first_ancestor_found = false;
        let mut first_ancestor_env: Option<ProgramRuntimeEnvironment> = None;
        let mut orphans: usize = 0;
        let mut outdated: usize = 0;
        let mut i: usize = self.slot_versions.len();
        while i > 0
            invariant
                i <= versions.len() <= usize::MAX,
                self.cooperative_loading_lock == old(self).cooperative_loading_lock,
                ({
                    let scan = prune_scan(fork_graph, versions, i as int, *reroot);
                    &&& self.slot_versions@ == versions.take(i as int) + scan.kept
                    &&& first_ancestor_found == scan.first_ancestor_found
                    &&& first_ancestor_env == scan.first_ancestor_env
                    &&& orphans == scan.orphans
                    &&& outdated == scan.outdated
                    &&& scan.kept.len() + scan.orphans + scan.outdated <= versions.len() - i
                }),
            decreases i,
        {
            let ghost newer = prune_scan(fork_graph, versions, i as int, *reroot);
            proof {
                lemma_prune_scan(fork_graph, versions, i as int - 1, *reroot);
            }
            i -= 1;
            let entry = self.slot_versions[i];
            assert(entry == versions[i as int]);
            let relation = fork_graph.relationship(entry.deployment_slot, reroot.new_root_slot);
            let mut orphan = false;
            let retain = if entry.deployment_slot >= reroot.new_root_slot {
                match relation {
                    BlockRelation::Equal | BlockRelation::Descendant => true,
                    _ => false,
                }
            } else if (match relation {
                BlockRelation::Ancestor => true,
                _ => false,
            }) || entry.deployment_slot <= reroot.latest_root_slot {
                if !first_ancestor_found {
                    first_ancestor_found = true;
                    first_ancestor_env = match entry.program.get_environment() {
                        Some(environment) => Some(*environment),
                        None => None,
                    };
                    true
                } else {
                    // Do not prune the entry if the runtime environment of the entry is different
                    // than the entry that was previously found (stored in first_ancestor_env).
                    // Different environment indicates that this entry might belong to an older
                    // epoch that had a different environment (e.g. different feature set).
                    // Once the root moves to the new/current epoch, the entry will get pruned.
                    // But, until then the entry might still be getting used by an older slot.
                    let differs = match (entry.program.get_environment(), first_ancestor_env) {
                        (Some(entry_env), Some(env)) => *entry_env != env,
                        _ => false,
                    };
                    if !differs {
                        orphan = true;
                    }
                    differs
                }
            } else {
                orphan = true;
                false
            };
            if orphan {
                orphans += 1;
            }
            // Remove outdated environment of previous feature set
            let retain = if retain && reroot.recompilation_phase_ends
                && !ProgramCache::matches_environment(&entry, &reroot.environments) {
                outdated += 1;
                false
            } else {
                retain
            };
            if !retain {
                self.slot_versions.remove(i);
                assert(self.slot_versions@ =~= versions.take(i as int) + newer.kept);
            } else {
                assert(self.slot_versions@ =~= versions.take(i as int) + (seq![entry]
                    + newer.kept));
            }
        }
        assert(self.slot_versions@ =~= prune_scan(fork_graph, versions, 0, *reroot).kept);
        (orphans, outdated)
    }
}


/// The addresses whose second level holds a version or a loading task.
pub open spec fn live(levels: Map<Address, SecondLevelView>) -> spec_fn(Address) -> bool {
    |key: Address| !levels[key].vacant()
}

/// The second level after a rerooting: what the scan of its versions keeps.
pub open spec fn pruned_level<FG: ForkGraph>(
    graph: &FG,
    level: SecondLevelView,
    reroot: Reroot,
) -> SecondLevelView {
    SecondLevelView { slot_versions: prune_scan(graph, level.slot_versions, 0, reroot).kept, ..level }
}

/// The second level without the versions deployed in `slot`.
pub open spec fn without_deployment(level: SecondLevelView, slot: Slot) -> SecondLevelView {
    SecondLevelView {
        slot_versions: level.slot_versions.filter(
            |entry: LoadedProgram| entry.deployment_slot != slot,
        ),
        ..level
    }
}

impl ProgramCacheView {
    /// The cache without the second levels that hold neither a version nor
    /// a loading task, each of which is counted as an empty entry.
    pub open spec fn without_vacant(self) -> ProgramCacheView {
        let keys = self.keys.filter(live(self.levels));
        ProgramCacheView {
            keys,
            levels: self.levels.restrict(keys.to_set()),
            stats: StatsView {
                empty_entries: wrapped(self.stats.empty_entries + self.keys.len() - keys.len()),
                ..self.stats
            },
            ..self
        }
    }

    /// The number of versions that a rerooting removes as orphans from the
    /// second levels of the first `n` addresses.
    pub open spec fn orphans<FG: ForkGraph>(self, graph: &FG, reroot: Reroot, n: int) -> nat
        decreases n,
    {
        if n <= 0 {
            0
        } else {
            self.orphans(graph, reroot, n - 1) + prune_scan(
                graph,
                self.levels[self.keys[n - 1]].slot_versions,
                0,
                reroot,
            ).orphans
        }
    }

    /// The number of versions that a rerooting removes for their environment
    /// from the second levels of the first `n` addresses.
    pub open spec fn outdated<FG: ForkGraph>(self, graph: &FG, reroot: Reroot, n: int) -> nat
        decreases n,
    {
        if n <= 0 {
            0
        } else {
            self.outdated(graph, reroot, n - 1) + prune_scan(
                graph,
                self.levels[self.keys[n - 1]].slot_versions,
                0,
                reroot,
            ).outdated
        }
    }

    /// What a rerooting to the given slot and epoch goes by.
    pub open spec fn reroot(self, new_root_slot: Slot, new_root_epoch: Epoch) -> Reroot {
        let ends = new_root_epoch != self.latest_root_epoch && self.upcoming_environments is Some;
        Reroot {
            new_root_slot,
            latest_root_slot: self.latest_root_slot,
            recompilation_phase_ends: ends,
            environments: if ends {
                self.upcoming_environments->0
            } else {
                self.environments
            },
        }
    }

    /// The cache after a rerooting to the given slot and epoch.
    ///
    /// In a new epoch the upcoming environments, if there are any, become
    /// the current ones, and the list of programs to recompile is emptied.
    /// Every second level is pruned, the versions removed are counted, and
    /// the second levels left empty are removed.
    pub open spec fn prune<FG: ForkGraph>(
        self,
        graph: &FG,
        new_root_slot: Slot,
        new_root_epoch: Epoch,
    ) -> ProgramCacheView {
        let reroot = self.reroot(new_root_slot, new_root_epoch);
        let n = self.keys.len() as int;
        (ProgramCacheView {
            levels: self.levels.map_values(
                |level: SecondLevelView| pruned_level(graph, level, reroot),
            ),
            latest_root_slot: new_root_slot,
            latest_root_epoch: new_root_epoch,
            environments: reroot.environments,
            upcoming_environments: if new_root_epoch != self.latest_root_epoch {
                None
            } else {
                self.upcoming_environments
            },
            programs_to_recompile: if reroot.recompilation_phase_ends {
                Seq::empty()
            } else {
                self.programs_to_recompile
            },
            stats: StatsView {
                prunes_orphan: wrapped(self.stats.prunes_orphan + self.orphans(graph, reroot, n)),
                prunes_environment: wrapped(
                    self.stats.prunes_environment + self.outdated(graph, reroot, n),
                ),
                ..self.stats
            },
            ..self
        }).without_vacant()
    }

    /// The cache without the versions deployed in `slot`, and without the
    /// second levels that this leaves empty.
    pub open spec fn prune_by_deployment_slot(self, slot: Slot) -> ProgramCacheView {
        (ProgramCacheView {
            levels: self.levels.map_values(|level: SecondLevelView| without_deployment(level, slot)),
            ..self
        }).without_vacant()
    }

    /// The cache without the second level of `key`.
    pub open spec fn without_key(self, key: Address) -> ProgramCacheView {
        ProgramCacheView {
            keys: if self.keys.contains(key) {
                self.keys.remove(crate::address_map::position(self.keys, key))
            } else {
                self.keys
            },
            levels: self.levels.remove(key),
            ..self
        }
    }

    /// The cache without the second levels of the first `n` of `keys`.
    pub open spec fn remove_first(self, keys: Seq<Address>, n: int) -> ProgramCacheView
        decreases n,
    {
        if n <= 0 {
            self
        } else {
            self.remove_first(keys, n - 1).without_key(keys[n - 1])
        }
    }

    /// The cache without the second levels of `keys`.
    pub open spec fn remove_programs(self, keys: Seq<Address>) -> ProgramCacheView {
        self.remove_first(keys, keys.len() as int)
    }
}

/// The filter of a list that ends in `last` is the filter of the others,
/// with `last` behind it if it passes.
pub proof fn lemma_filter_push<A>(s: Seq<A>, last: A, pred: spec_fn(A) -> bool)
    ensures
        s.push(last).filter(pred) == if pred(last) {
            s.filter(pred).push(last)
        } else {
            s.filter(pred)
        },
{
    reveal(Seq::filter);
    assert(s.push(last).drop_last() =~= s);
}

impl SecondLevel {
    /// Removes the versions deployed in `slot`.
    pub fn remove_deployed_in(&mut self, slot: Slot)
        ensures
            final(self)@ == without_deployment(old(self)@, slot),
            sorted(old(self).slot_versions@) ==> sorted(final(self).slot_versions@),
            all_wf(old(self).slot_versions@) ==> all_wf(final(self).slot_versions@),
    {
        let ghost versions = self.slot_versions@;
        let ghost pred = |entry: LoadedProgram| entry.deployment_slot != slot;
        let mut i: usize = 0;
        let ghost mut n: int = 0;
        assert(versions.take(0).filter(pred) =~= Seq::empty()) by {
            reveal(Seq::filter);
        }
        while i < self.slot_versions.len()
            invariant
                0 <= n <= versions.len(),
                i <= self.slot_versions@.len(),
                self.cooperative_loading_lock == old(self).cooperative_loading_lock,
                i == versions.take(n).filter(pred).len(),
                self.slot_versions@ == versions.take(n).filter(pred) + versions.skip(n),
                pred == |entry: LoadedProgram| entry.deployment_slot != slot,
                forall|a: int|
                    0 <= a < i ==> exists|b: int|
                        0 <= b < n && #[trigger] self.slot_versions@[a] == versions[b],
                sorted(versions) ==> forall|a: int, b: int|
                    0 <= a < b < i ==> key_lt(self.slot_versions@[a], self.slot_versions@[b]),
            decreases versions.len() - n,
        {
            let ghost before = self.slot_versions@;
            assert(before[i as int] == versions[n]);
            assert(versions.take(n + 1) =~= versions.take(n).push(versions[n]));
            proof {
                lemma_filter_push(versions.take(n), versions[n], pred);
            }
            if self.slot_versions[i].deployment_slot != slot {
                assert(before =~= versions.take(n + 1).filter(pred) + versions.skip(n + 1));
                proof {
                    if sorted(versions) {
                        assert forall|a: int| 0 <= a < i implies key_lt(
                            before[a],
                            before[i as int],
                        ) by {
                            let b = choose|b: int| 0 <= b < n && before[a] == versions[b];
                            assert(key_lt(versions[b], versions[n]));
                        }
                    }
                }
                i += 1;
            } else {
                self.slot_versions.remove(i);
                assert(self.slot_versions@ =~= versions.take(n + 1).filter(pred) + versions.skip(
                    n + 1,
                ));
            }
            proof {
                n = n + 1;
            }
        }
        proof {
            assert(n == versions.len()) by {
                if n < versions.len() {
                    assert(self.slot_versions@.len() == i + versions.len() - n);
                }
            }
            assert(versions.take(n) =~= versions);
            assert(self.slot_versions@ =~= versions.filter(pred));
            if all_wf(versions) {
                assert forall|a: int| 0 <= a < self.slot_versions@.len() implies (
                #[trigger] self.slot_versions@[a]).wf() by {
                    let a_before = choose|a_before: int|
                        0 <= a_before < n && self.slot_versions@[a] == versions[a_before];
                    assert(versions[a_before].wf());
                }
            }
        }
    }
}

/// Adding to a wrapped counter, with wraparound, gives the wrapped sum.
pub proof fn lemma_wrapped_add(n: int, more: u64)
    requires
        n >= 0,
    ensures
        wrapping_sum(wrapped(n), more) == wrapped(n + more),
{
}

impl ProgramCache {
    /// Removes the second levels that hold neither a version nor a loading
    /// task, and counts them.
    pub fn remove_programs_with_no_entries(&mut self)
        requires
            old(self).wf(),
        ensures
            final(self).wf(),
            final(self)@ == old(self)@.without_vacant(),
            final(self).loading_task_waiter == old(self).loading_task_waiter,
    {
        let num_programs_before_removal = self.entries.len();
        let ghost keys = self.entries.keys@;
        let ghost levels = self.entries@;
        let ghost pred = live(levels);
        let mut i: usize = 0;
        let ghost mut n: int = 0;
        assert(keys.take(0).filter(pred) =~= Seq::empty()) by {
            reveal(Seq::filter);
        }
        proof {
            assert forall|key: Address| #[trigger]
                self.entries.keys@.contains(key) implies levels.dom().contains(key)
                && self.entries@[key] == levels[key] by {}
        }
        while i < self.entries.len()
            invariant
                self.wf(),
                0 <= n <= keys.len(),
                keys.len() == num_programs_before_removal,
                i <= self.entries.keys@.len(),
                i == keys.take(n).filter(pred).len(),
                self.entries.keys@ == keys.take(n).filter(pred) + keys.skip(n),
                forall|key: Address| #[trigger]
                    self.entries.keys@.contains(key) ==> levels.dom().contains(key)
                        && self.entries@[key] == levels[key],
                pred == live(levels),
                self.latest_root_slot == old(self).latest_root_slot,
                self.latest_root_epoch == old(self).latest_root_epoch,
                self.environments == old(self).environments,
                self.upcoming_environments == old(self).upcoming_environments,
                self.programs_to_recompile == old(self).programs_to_recompile,
                self.stats == old(self).stats,
                self.loading_task_waiter == old(self).loading_task_waiter,
            decreases keys.len() - n,
        {
            let ghost before = *self;
            let ghost key = keys[n];
            assert(self.entries.keys@[i as int] == key);
            assert(keys.take(n + 1) =~= keys.take(n).push(key));
            proof {
                lemma_filter_push(keys.take(n), key, pred);
                self.entries.lemma_view_at(i as int);
                assert(self.entries.keys@.contains(key));
            }
            let vacant = self.entries.values[i].slot_versions.is_empty()
                && self.entries.values[i].cooperative_loading_lock.is_none();
            if vacant {
                self.entries.remove_at(i);
                proof {
                    AddressMap::lemma_view_after_remove(&before.entries, &self.entries, i as int);
                    crate::address_map::lemma_remove_keeps_distinct(before.entries.keys@, i as int);
                    assert(self.entries.keys@ =~= keys.take(n + 1).filter(pred) + keys.skip(n + 1));
                    assert forall|other: Address| #[trigger]
                        self.entries.keys@.contains(other) implies levels.dom().contains(other)
                        && self.entries@[other] == levels[other] by {
                        assert(other != key);
                        assert(before.entries.keys@.contains(other));
                    }
                    assert forall|j: int| 0 <= j < self.entries.values@.len() implies (
                    #[trigger] self.entries.values@[j])@.wf() by {
                        if j < i {
                            assert(self.entries.values@[j] == before.entries.values@[j]);
                        } else {
                            assert(self.entries.values@[j] == before.entries.values@[j + 1]);
                        }
                    }
                }
            } else {
                assert(self.entries.keys@ =~= keys.take(n + 1).filter(pred) + keys.skip(n + 1));
                i += 1;
            }
            proof {
                n = n + 1;
            }
        }
        proof {
            assert(n == keys.len()) by {
                if n < keys.len() {
                    assert(self.entries.keys@.len() == i + keys.len() - n);
                }
            }
            assert(keys.take(n) =~= keys);
            assert(self.entries.keys@ =~= keys.filter(pred));
            assert forall|key: Address|
                self.entries@.dom().contains(key) <==> levels.restrict(
                    self.entries.keys@.to_set(),
                ).dom().contains(key) by {
                if self.entries.keys@.contains(key) {
                    assert(levels.dom().contains(key));
                }
            }
            assert(self.entries@ =~= levels.restrict(self.entries.keys@.to_set()));
            keys.lemma_filter_len(pred);
        }
        let removed = num_programs_before_removal - self.entries.len();
        proof {
            lemma_wrapped_add(self.stats.empty_entries as int, removed as u64);
        }
        self.stats.empty_entries = self.stats.empty_entries.wrapping_add(removed as u64);
    }

    /// Removes every version that was deployed in `slot`.
    pub fn prune_by_deployment_slot(&mut self, slot: Slot)
        requires
            old(self).wf(),
        ensures
            final(self).wf(),
            final(self)@ == old(self)@.prune_by_deployment_slot(slot),
            final(self).loading_task_waiter == old(self).loading_task_waiter,
    {
        let mut i: usize = 0;
        while i < self.entries.len()
            invariant
                self.wf(),
                i <= self.entries.keys@.len(),
                self.entries.keys@ == old(self).entries.keys@,
                self.entries.values@.len() == old(self).entries.values@.len(),
                forall|j: int|
                    0 <= j < i ==> (#[trigger] self.entries.values@[j])@ == without_deployment(
                        old(self).entries.values@[j]@,
                        slot,
                    ),
                forall|j: int|
                    i <= j < self.entries.values@.len() ==> #[trigger] self.entries.values@[j]
                        == old(self).entries.values@[j],
                self.latest_root_slot == old(self).latest_root_slot,
                self.latest_root_epoch == old(self).latest_root_epoch,
                self.environments == old(self).environments,
                self.upcoming_environments == old(self).upcoming_environments,
                self.programs_to_recompile == old(self).programs_to_recompile,
                self.stats == old(self).stats,
                self.loading_task_waiter == old(self).loading_task_waiter,
            decreases self.entries.keys@.len() - i,
        {
            let ghost before = *self;
            assert(before.entries.values@[i as int]@.wf());
            self.entries.values[i].remove_deployed_in(slot);
            proof {
                assert forall|j: int| 0 <= j < self.entries.values@.len() implies (
                #[trigger] self.entries.values@[j])@.wf() by {
                    if j != i {
                        assert(self.entries.values@[j] == before.entries.values@[j]);
                    }
                }
            }
            i += 1;
        }
        proof {
            let expected = old(self)@.levels.map_values(
                |level: SecondLevelView| without_deployment(level, slot),
            );
            assert forall|key: Address| self@.levels.dom().contains(key) implies #[trigger] self@.levels[key]
                == expected[key] by {
                lemma_position_range(self.entries.keys@, key);
            }
            assert(self@.levels =~= expected);
        }
        self.remove_programs_with_no_entries();
    }

    /// Before rerooting the blockstore this removes all superfluous entries
    pub fn prune<FG: ForkGraph>(
        &mut self,
        fork_graph: &FG,
        new_root_slot: Slot,
        new_root_epoch: Epoch,
    )
        requires
            old(self).wf(),
            new_root_slot >= old(self).latest_root_slot,
        ensures
            final(self).wf(),
            final(self)@ == old(self)@.prune(fork_graph, new_root_slot, new_root_epoch),
            final(self).loading_task_waiter == old(self).loading_task_waiter,
    {
        let mut recompilation_phase_ends = false;
        if self.latest_root_epoch != new_root_epoch {
            self.latest_root_epoch = new_root_epoch;
            let upcoming_environments = self.upcoming_environments;
            self.upcoming_environments = None;
            if let Some(upcoming_environments) = upcoming_environments {
                recompilation_phase_ends = true;
                self.environments = upcoming_environments;
                self.programs_to_recompile.clear();
            }
        }
        let reroot = Reroot {
            new_root_slot,
            latest_root_slot: self.latest_root_slot,
            recompilation_phase_ends,
            environments: self.environments,
        };
        assert(reroot == old(self)@.reroot(new_root_slot, new_root_epoch));
        let ghost start = *self;
        let mut i: usize = 0;
        while i < self.entries.len()
            invariant
                self.wf(),
                old(self).wf(),
                i <= self.entries.keys@.len(),
                self.entries.keys@ == old(self).entries.keys@,
                self.entries.values@.len() == old(self).entries.values@.len(),
                forall|j: int|
                    0 <= j < i ==> (#[trigger] self.entries.values@[j])@ == pruned_level(
                        fork_graph,
                        old(self).entries.values@[j]@,
                        reroot,
                    ),
                forall|j: int|
                    i <= j < self.entries.values@.len() ==> #[trigger] self.entries.values@[j]
                        == old(self).entries.values@[j],
                self.latest_root_slot == start.latest_root_slot,
                self.latest_root_epoch == start.latest_root_epoch,
                self.environments == start.environments,
                self.upcoming_environments == start.upcoming_environments,
                self.programs_to_recompile == start.programs_to_recompile,
                self.loading_task_waiter == old(self).loading_task_waiter,
                self.stats@ == (StatsView {
                    prunes_orphan: wrapped(
                        old(self).stats.prunes_orphan + old(self)@.orphans(
                            fork_graph,
                            reroot,
                            i as int,
                        ),
                    ),
                    prunes_environment: wrapped(
                        old(self).stats.prunes_environment + old(self)@.outdated(
                            fork_graph,
                            reroot,
                            i as int,
                        ),
                    ),
                    ..old(self).stats@
                }),
            decreases self.entries.keys@.len() - i,
        {
            let ghost before = *self;
            proof {
                old(self).entries.lemma_view_at(i as int);
            }
            assert(before.entries.values@[i as int]@.wf());
            let removed = self.entries.values[i].prune(fork_graph, &reroot);
            proof {
                assert forall|j: int| 0 <= j < self.entries.values@.len() implies (
                #[trigger] self.entries.values@[j])@.wf() by {
                    if j != i {
                        assert(self.entries.values@[j] == before.entries.values@[j]);
                    }
                }
                lemma_wrapped_add(
                    old(self).stats.prunes_orphan + old(self)@.orphans(fork_graph, reroot, i as int),
                    removed.0 as u64,
                );
                lemma_wrapped_add(
                    old(self).stats.prunes_environment + old(self)@.outdated(
                        fork_graph,
                        reroot,
                        i as int,
                    ),
                    removed.1 as u64,
                );
            }
            self.stats.prunes_orphan = self.stats.prunes_orphan.wrapping_add(removed.0 as u64);
            self.stats.prunes_environment = self.stats.prunes_environment.wrapping_add(
                removed.1 as u64,
            );
            i += 1;
        }
        proof {
            let expected = old(self)@.levels.map_values(
                |level: SecondLevelView| pruned_level(fork_graph, level, reroot),
            );
            assert forall|key: Address| self@.levels.dom().contains(key) implies #[trigger] self@.levels[key]
                == expected[key] by {
                lemma_position_range(self.entries.keys@, key);
            }
            assert(self@.levels =~= expected);
        }
        self.remove_programs_with_no_entries();
        self.latest_root_slot = new_root_slot;
    }

    /// Removes all the entries at the given keys, if they exist
    pub fn remove_programs(&mut self, keys: &Vec<Address>)
        requires
            old(self).wf(),
        ensures
            final(self).wf(),
            final(self)@ == old(self)@.remove_programs(keys@),
            final(self).loading_task_waiter == old(self).loading_task_waiter,
    {
        let mut i: usize = 0;
        while i < keys.len()
            invariant
                self.wf(),
                i <= keys@.len(),
                self@ == old(self)@.remove_first(keys@, i as int),
                self.loading_task_waiter == old(self).loading_task_waiter,
            decreases keys@.len() - i,
        {
            let ghost before = *self;
            match self.entries.find(&keys[i]) {
                Some(index) => {
                    self.entries.remove_at(index);
                    proof {
                        AddressMap::lemma_view_after_remove(
                            &before.entries,
                            &self.entries,
                            index as int,
                        );
                        assert forall|j: int| 0 <= j < self.entries.values@.len() implies (
                        #[trigger] self.entries.values@[j])@.wf() by {
                            if j < index {
                                assert(self.entries.values@[j] == before.entries.values@[j]);
                            } else {
                                assert(self.entries.values@[j] == before.entries.values@[j + 1]);
                            }
                        }
                    }
                },
                None => {
                    assert(self@.levels.remove(keys@[i as int]) =~= self@.levels);
                },
            }
            i += 1;
        }
    }
}

} // verus!
