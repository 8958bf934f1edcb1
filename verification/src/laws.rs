//! What holds of the cache across its operations.

use crate::address::Address;
use crate::batch::BatchView;
use crate::cache::{lemma_with_level_wf, ProgramCacheView};
use crate::environment::ProgramRuntimeEnvironments;
use crate::extract::{
    decisive, extract_first, extract_step, extraction_frame, lemma_extraction_frame,
    lemma_lookup_hit, lookup, matches_criteria, usable, visible, Extraction, Lookup, SearchItem,
};
use crate::fork_graph::{consistent, BlockRelation, Epoch, ForkGraph, Slot};
use crate::loaded_program::{LoadedProgram, LoadedProgramMatchCriteria, LoadedProgramType};
use crate::prune::{
    lemma_filter_push, lemma_prune_scan, live, prune_scan, pruned_level, retainable, PruneScan,
    Reroot,
};
use crate::second_level::{
    assign, assignment, insertion_point, key_eq, key_lt, lemma_assign_keeps_order,
    lemma_insertion_point, sorted, Assignment, SecondLevelView, WorkerId,
};
use vstd::prelude::*;

verus! {

/// Every version that a rerooting leaves in the cache was deployed on the
/// new root or on a descendant of it, or before the new root on an ancestor
/// of it or no later than the old root; and it was in the cache before.
pub proof fn law_prune_retains<FG: ForkGraph>(
    cache: ProgramCacheView,
    graph: &FG,
    new_root_slot: Slot,
    new_root_epoch: Epoch,
    key: Address,
    index: int,
)
    requires
        cache.wf(),
        cache.prune(graph, new_root_slot, new_root_epoch).levels.dom().contains(key),
        0 <= index < cache.prune(graph, new_root_slot, new_root_epoch).versions(key).len(),
    ensures
        ({
            let entry = cache.prune(graph, new_root_slot, new_root_epoch).versions(key)[index];
            let relation = graph.relation(entry.deployment_slot, new_root_slot);
            &&& cache.versions(key).contains(entry)
            &&& retainable(graph, entry, cache.reroot(new_root_slot, new_root_epoch))
            &&& relation == BlockRelation::Equal || relation == BlockRelation::Descendant
                || relation == BlockRelation::Ancestor || entry.deployment_slot
                <= cache.latest_root_slot
        }),
{
    let reroot = cache.reroot(new_root_slot, new_root_epoch);
    let after = cache.prune(graph, new_root_slot, new_root_epoch);
    assert(cache.levels.dom().contains(key));
    let versions = cache.levels[key].slot_versions;
    assert(after.levels[key] == pruned_level(graph, cache.levels[key], reroot));
    lemma_prune_scan(graph, versions, 0, reroot);
    let entry = after.versions(key)[index];
    let j = choose|j: int| 0 <= j < versions.len() && versions[j] == entry;
    assert(versions[j] == entry);
}

/// A lookup among the versions of a program hits a version that is visible
/// on the fork of the batch, effective in its slot, loaded under its
/// environments, and newer than every other version that could decide the
/// lookup; a delay names the slot in which a visible version was deployed
/// that is not yet effective.
pub proof fn law_lookup_serves_visible<FG: ForkGraph>(
    graph: &FG,
    versions: Seq<LoadedProgram>,
    root: Slot,
    slot: Slot,
    environments: ProgramRuntimeEnvironments,
    criteria: LoadedProgramMatchCriteria,
)
    requires
        versions.len() <= usize::MAX,
    ensures
        match lookup(graph, versions, versions.len() as int, root, slot, environments, criteria) {
            Lookup::Hit(index) => {
                &&& index < versions.len()
                &&& visible(graph, versions[index as int], root, slot)
                &&& slot >= versions[index as int].effective_slot
                &&& matches_criteria(versions[index as int], criteria)
            },
            Lookup::Delayed(deployment_slot) => exists|index: int|
                {
                    &&& 0 <= index < versions.len()
                    &&& (#[trigger] versions[index]).deployment_slot == deployment_slot
                    &&& visible(graph, versions[index], root, slot)
                    &&& versions[index].implicit_delay_visibility_tombstone(slot)
                },
            Lookup::Miss => true,
        },
{
    lemma_lookup_hit(graph, versions, versions.len() as int, root, slot, environments, criteria);
}

/// When a batch has asked the cache for a program and does not miss it,
/// what the batch finds under its address is a version of the program that
/// is visible on the fork of the batch and effective in its slot, counted
/// as used; or a tombstone that says that a version deployed in the named
/// slot is not visible yet.
pub proof fn law_batch_finds_visible<FG: ForkGraph>(
    graph: &FG,
    state: Extraction,
    item: SearchItem,
    worker: WorkerId,
)
    requires
        state.cache.versions(item.0).len() <= usize::MAX,
        extract_step(graph, state, item, worker).remaining == state.remaining,
    ensures
        ({
            let versions = state.cache.versions(item.0);
            let slot = state.batch.slot;
            let found = extract_step(graph, state, item, worker).batch.find(item.0);
            &&& found is Some
            &&& {
                ||| exists|index: int|
                    {
                        &&& 0 <= index < versions.len()
                        &&& found->0 == (#[trigger] versions[index]).used(slot, item.1.1)
                        &&& visible(graph, versions[index], state.cache.latest_root_slot, slot)
                        &&& slot >= versions[index].effective_slot
                    }
                ||| exists|index: int|
                    {
                        &&& 0 <= index < versions.len()
                        &&& found->0.program is DelayVisibility
                        &&& found->0.deployment_slot == (#[trigger] versions[index]).deployment_slot
                        &&& visible(graph, versions[index], state.cache.latest_root_slot, slot)
                    }
            }
        }),
{
    let versions = state.cache.versions(item.0);
    let slot = state.batch.slot;
    let root = state.cache.latest_root_slot;
    lemma_lookup_hit(
        graph,
        versions,
        versions.len() as int,
        root,
        slot,
        state.batch.environments,
        item.1.0,
    );
    match lookup(
        graph,
        versions,
        versions.len() as int,
        root,
        slot,
        state.batch.environments,
        item.1.0,
    ) {
        Lookup::Hit(index) => {
            assert(versions[index as int].used(slot, item.1.1) == versions[index as int].used(
                slot,
                item.1.1,
            ));
        },
        Lookup::Delayed(deployment_slot) => {
            let index = choose|index: int|
                {
                    &&& 0 <= index < versions.len()
                    &&& (#[trigger] versions[index]).deployment_slot == deployment_slot
                    &&& visible(graph, versions[index], root, slot)
                    &&& versions[index].implicit_delay_visibility_tombstone(slot)
                };
            assert(versions[index].deployment_slot == deployment_slot);
        },
        Lookup::Miss => {
            assert(extract_step(graph, state, item, worker).remaining.len()
                == state.remaining.len() + 1);
        },
    }
}

/// After an entry was assigned to the versions of a program, a lookup in a
/// slot in which the entry is visible and effective, under environments
/// that it fits and with criteria that it meets, hits the entry, provided
/// that the assignment was not rejected, that the entry is no tombstone of
/// an unloaded program, and that no newer version decides the lookup.
pub proof fn law_assigned_entry_is_found<FG: ForkGraph>(
    graph: &FG,
    versions: Seq<LoadedProgram>,
    entry: LoadedProgram,
    root: Slot,
    slot: Slot,
    environments: ProgramRuntimeEnvironments,
    criteria: LoadedProgramMatchCriteria,
)
    requires
        sorted(versions),
        versions.len() < usize::MAX,
        assignment(versions, entry) != Assignment::Rejected,
        visible(graph, entry, root, slot),
        usable(entry, slot, environments),
        matches_criteria(entry, criteria),
        !(entry.program is Unloaded),
        forall|i: int|
            0 <= i < versions.len() && key_lt(entry, #[trigger] versions[i]) ==> !decisive(
                graph,
                versions[i],
                root,
                slot,
                environments,
            ),
    ensures
        ({
            let assigned = assign(versions, entry);
            let found = lookup(
                graph,
                assigned,
                assigned.len() as int,
                root,
                slot,
                environments,
                criteria,
            );
            &&& found == Lookup::Hit(insertion_point(versions, entry) as usize)
            &&& assigned[insertion_point(versions, entry)].program == entry.program
            &&& key_eq(assigned[insertion_point(versions, entry)], entry)
            &&& assigned[insertion_point(versions, entry)].account_size == entry.account_size
        }),
{
    lemma_insertion_point(versions, entry);
    let p = insertion_point(versions, entry);
    let assigned = assign(versions, entry);
    assert forall|j: int| p < j < assigned.len() implies !decisive(
        graph,
        #[trigger] assigned[j],
        root,
        slot,
        environments,
    ) by {
        match assignment(versions, entry) {
            Assignment::Inserted => {
                assert(assigned[j] == versions[j - 1]);
                assert(!key_lt(versions[j - 1], entry));
                if j - 1 > p {
                    assert(key_lt(versions[p], versions[j - 1]));
                }
                assert(key_lt(entry, versions[j - 1]));
            },
            Assignment::Replaced => {
                assert(assigned[j] == versions[j]);
                assert(key_lt(versions[p], versions[j]));
                assert(key_lt(entry, versions[j]));
            },
            Assignment::Rejected => {},
        }
    }
    lemma_lookup_skips(
        graph,
        assigned,
        assigned.len() as int,
        p,
        root,
        slot,
        environments,
        criteria,
    );
}

/// A lookup passes over the versions that do not decide it.
pub proof fn lemma_lookup_skips<FG: ForkGraph>(
    graph: &FG,
    versions: Seq<LoadedProgram>,
    n: int,
    m: int,
    root: Slot,
    slot: Slot,
    environments: ProgramRuntimeEnvironments,
    criteria: LoadedProgramMatchCriteria,
)
    requires
        0 <= m < n <= versions.len(),
        forall|j: int| m < j < n ==> !decisive(graph, #[trigger] versions[j], root, slot, environments),
    ensures
        lookup(graph, versions, n, root, slot, environments, criteria) == lookup(
            graph,
            versions,
            m + 1,
            root,
            slot,
            environments,
            criteria,
        ),
    decreases n,
{
    if n > m + 1 {
        assert(!decisive(graph, versions[n - 1], root, slot, environments));
        lemma_lookup_skips(graph, versions, n - 1, m, root, slot, environments, criteria);
    }
}

/// A program that was deployed on-chain one slot before it becomes
/// effective is hidden behind a tombstone from a batch of the slot of its
/// deployment.
pub proof fn law_find_in_deployment_slot(batch: BatchView, key: Address)
    requires
        batch.entries.dom().contains(key),
        !(batch.entries[key].program is Builtin),
        batch.entries[key].effective_slot == batch.entries[key].deployment_slot + 1,
        batch.slot == batch.entries[key].deployment_slot,
    ensures
        batch.find(key) == Some(
            LoadedProgram::tombstone_at(
                batch.entries[key].deployment_slot,
                LoadedProgramType::DelayVisibility,
            ),
        ),
{
}

/// A batch of the slot in which an entry becomes effective, or of a later
/// one, finds the entry itself.
pub proof fn law_find_in_effective_slot(batch: BatchView, key: Address)
    requires
        batch.entries.dom().contains(key),
        batch.slot >= batch.entries[key].effective_slot,
    ensures
        batch.find(key) == Some(batch.entries[key]),
{
}

/// A lookup in the slot in which the only version of a program was
/// deployed, one slot before it becomes effective, comes to a delay; in the
/// slot in which the version becomes effective it is a hit, if the version
/// fits the environments, meets the criteria and is not unloaded.
pub proof fn law_lookup_at_the_boundary<FG: ForkGraph>(
    graph: &FG,
    entry: LoadedProgram,
    root: Slot,
    environments: ProgramRuntimeEnvironments,
    criteria: LoadedProgramMatchCriteria,
)
    requires
        !(entry.program is Builtin),
        entry.effective_slot == entry.deployment_slot + 1,
    ensures
        visible(graph, entry, root, entry.deployment_slot) ==> lookup(
            graph,
            seq![entry],
            1,
            root,
            entry.deployment_slot,
            environments,
            criteria,
        ) == Lookup::Delayed(entry.deployment_slot),
        visible(graph, entry, root, entry.effective_slot) && usable(
            entry,
            entry.effective_slot,
            environments,
        ) && matches_criteria(entry, criteria) && !(entry.program is Unloaded) ==> lookup(
            graph,
            seq![entry],
            1,
            root,
            entry.effective_slot,
            environments,
            criteria,
        ) == Lookup::Hit(0),
{
    assert(seq![entry][0] == entry);
}

/// An entry that was last used 63 slots ago or earlier counts as used by
/// the transaction counter halved 63 times: no more than once.
pub proof fn law_decay_stops(entry: LoadedProgram, now: Slot)
    requires
        now - entry.latest_access_slot >= 63,
    ensures
        entry.decayed_usage(now) == entry.tx_usage_counter >> 63,
        entry.decayed_usage(now) <= 1,
{
    let counter = entry.tx_usage_counter;
    assert(counter >> 63 <= 1) by (bit_vector);
}

/// Merging a batch without programs into the cache changes nothing.
pub proof fn law_cache_merge_empty(cache: ProgramCacheView, batch: BatchView)
    requires
        batch.keys.len() == 0,
    ensures
        cache.merge(batch) == cache,
{
}


/// A scan from an index on is the scan of the versions from that index on.
pub proof fn lemma_prune_scan_shift<FG: ForkGraph>(
    graph: &FG,
    versions: Seq<LoadedProgram>,
    from: int,
    reroot: Reroot,
)
    requires
        0 <= from <= versions.len(),
    ensures
        prune_scan(graph, versions, from, reroot) == prune_scan(
            graph,
            versions.skip(from),
            0,
            reroot,
        ),
    decreases versions.len() - from,
{
    let tail = versions.skip(from);
    if from < versions.len() {
        lemma_prune_scan_shift(graph, versions, from + 1, reroot);
        lemma_prune_scan_shift(graph, tail, 1, reroot);
        assert(tail.skip(1) =~= versions.skip(from + 1));
        assert(tail[0] == versions[from]);
    }
}

/// The rerooting that follows a rerooting to the same slot and epoch.
pub open spec fn rerooted_again(reroot: Reroot) -> Reroot {
    Reroot {
        latest_root_slot: reroot.new_root_slot,
        recompilation_phase_ends: false,
        ..reroot
    }
}

/// What a scan keeps, a second scan for the same root keeps as well, if the
/// first scan removed no version for its environment.
pub proof fn lemma_prune_scan_again<FG: ForkGraph>(
    graph: &FG,
    versions: Seq<LoadedProgram>,
    from: int,
    reroot: Reroot,
)
    requires
        0 <= from <= versions.len(),
        prune_scan(graph, versions, from, reroot).outdated == 0,
        reroot.latest_root_slot <= reroot.new_root_slot,
    ensures
        ({
            let first = prune_scan(graph, versions, from, reroot);
            prune_scan(graph, first.kept, 0, rerooted_again(reroot)) == (PruneScan {
                orphans: 0,
                outdated: 0,
                ..first
            })
        }),
    decreases versions.len() - from,
{
    let again = rerooted_again(reroot);
    if from < versions.len() {
        lemma_prune_scan_again(graph, versions, from + 1, reroot);
        let newer = prune_scan(graph, versions, from + 1, reroot);
        let first = prune_scan(graph, versions, from, reroot);
        let entry = versions[from];
        if first.kept.len() == newer.kept.len() + 1 {
            assert(first.kept =~= seq![entry] + newer.kept);
            lemma_prune_scan_shift(graph, first.kept, 1, again);
            assert(first.kept.skip(1) =~= newer.kept);
            assert(first.kept[0] == entry);
        } else {
            assert(first.kept == newer.kept);
        }
    }
}

/// The filter of a list holds the entries of the list that pass.
pub proof fn lemma_filter_members<A>(s: Seq<A>, pred: spec_fn(A) -> bool)
    ensures
        forall|x: A| #[trigger] s.filter(pred).contains(x) <==> s.contains(x) && pred(x),
    decreases s.len(),
{
    if s.len() == 0 {
        reveal(Seq::filter);
        assert(s.filter(pred) =~= Seq::<A>::empty());
    } else {
        let front = s.drop_last();
        lemma_filter_members(front, pred);
        assert(s =~= front.push(s.last()));
        lemma_filter_push(front, s.last(), pred);
        let filtered = s.filter(pred);
        let inner = front.filter(pred);
        assert forall|x: A| #[trigger] filtered.contains(x) <==> s.contains(x) && pred(x) by {
            if filtered.contains(x) {
                let i = choose|i: int| 0 <= i < filtered.len() && filtered[i] == x;
                if pred(s.last()) && i == filtered.len() - 1 {
                    assert(s[s.len() - 1] == x);
                } else {
                    assert(inner[i] == x);
                    assert(inner.contains(x));
                    assert(front.contains(x));
                    let j = choose|j: int| 0 <= j < front.len() && front[j] == x;
                    assert(s[j] == x);
                }
            }
            if s.contains(x) && pred(x) {
                let j = choose|j: int| 0 <= j < s.len() && s[j] == x;
                if j == s.len() - 1 {
                    assert(filtered[filtered.len() - 1] == x);
                } else {
                    assert(front[j] == x);
                    assert(front.contains(x));
                    assert(inner.contains(x));
                    let i = choose|i: int| 0 <= i < inner.len() && inner[i] == x;
                    assert(filtered[i] == x);
                }
            }
        }
    }
}

/// Filtering a list whose entries all pass gives the list.
pub proof fn lemma_filter_all<A>(s: Seq<A>, pred: spec_fn(A) -> bool, n: int)
    requires
        0 <= n <= s.len(),
        forall|i: int| 0 <= i < s.len() ==> pred(#[trigger] s[i]),
    ensures
        s.take(n).filter(pred) == s.take(n),
    decreases n,
{
    if n == 0 {
        reveal(Seq::filter);
        assert(s.take(0) =~= Seq::<A>::empty());
    } else {
        lemma_filter_all(s, pred, n - 1);
        assert(s.take(n) =~= s.take(n - 1).push(s[n - 1]));
        lemma_filter_push(s.take(n - 1), s[n - 1], pred);
    }
}

/// Rerooting the cache a second time to the same slot and epoch changes
/// nothing, provided that the first rerooting removed no version for its
/// environment.
///
/// Where the first rerooting ends a recompilation phase and removes the
/// newest ancestor of an address for its environment, the second one may
/// remove older versions that the first one kept for being of another
/// environment than that ancestor.
pub proof fn law_prune_twice<FG: ForkGraph>(
    cache: ProgramCacheView,
    graph: &FG,
    new_root_slot: Slot,
    new_root_epoch: Epoch,
)
    requires
        cache.wf(),
        new_root_slot >= cache.latest_root_slot,
        cache.outdated(
            graph,
            cache.reroot(new_root_slot, new_root_epoch),
            cache.keys.len() as int,
        ) == 0,
    ensures
        cache.prune(graph, new_root_slot, new_root_epoch).prune(
            graph,
            new_root_slot,
            new_root_epoch,
        ) == cache.prune(graph, new_root_slot, new_root_epoch),
{
    let reroot = cache.reroot(new_root_slot, new_root_epoch);
    let once = cache.prune(graph, new_root_slot, new_root_epoch);
    let again = once.reroot(new_root_slot, new_root_epoch);
    assert(again == rerooted_again(reroot));
    let twice = once.prune(graph, new_root_slot, new_root_epoch);
    let pruned = cache.levels.map_values(
        |level: SecondLevelView| pruned_level(graph, level, reroot),
    );
    let kept_keys = cache.keys.filter(live(pruned));
    assert(once.keys == kept_keys);
    lemma_filter_members(cache.keys, live(pruned));
    // every address left has a second level that is not vacant and that a
    // second scan leaves as it is
    assert forall|i: int| 0 <= i < once.keys.len() implies {
        &&& once.levels.dom().contains(#[trigger] once.keys[i])
        &&& !once.levels[once.keys[i]].vacant()
        &&& pruned_level(graph, once.levels[once.keys[i]], again) == once.levels[once.keys[i]]
        &&& prune_scan(graph, once.levels[once.keys[i]].slot_versions, 0, again).orphans == 0
        &&& prune_scan(graph, once.levels[once.keys[i]].slot_versions, 0, again).outdated == 0
    } by {
        let key = once.keys[i];
        assert(kept_keys.contains(key));
        assert(cache.keys.contains(key));
        assert(cache.keys.to_set().contains(key));
        assert(cache.levels.dom().contains(key));
        assert(live(pruned)(key));
        assert(once.keys.to_set().contains(key));
        assert(once.levels[key] == pruned[key]);
        let k = choose|k: int| 0 <= k < cache.keys.len() && cache.keys[k] == key;
        lemma_none_outdated(cache, graph, reroot, cache.keys.len() as int, k);
        lemma_prune_scan_again(graph, cache.levels[key].slot_versions, 0, reroot);
    }
    assert forall|key: Address| #[trigger] once.levels.dom().contains(key) implies pruned_level(
        graph,
        once.levels[key],
        again,
    ) == once.levels[key] by {
        assert(once.keys.to_set().contains(key));
        let i = once.keys.index_of(key);
        assert(once.keys[i] == key);
    }
    let repruned = once.levels.map_values(
        |level: SecondLevelView| pruned_level(graph, level, again),
    );
    assert(repruned =~= once.levels);
    assert forall|i: int| 0 <= i < once.keys.len() implies live(repruned)(
        #[trigger] once.keys[i],
    ) by {}
    lemma_filter_all(once.keys, live(repruned), once.keys.len() as int);
    assert(once.keys.take(once.keys.len() as int) =~= once.keys);
    assert(twice.keys == once.keys);
    assert(twice.levels =~= once.levels) by {
        assert forall|key: Address| once.levels.dom().contains(key) implies once.keys.to_set().contains(
            key,
        ) by {}
    }
    lemma_no_prunes(once, graph, again, once.keys.len() as int);
    assert(twice.stats == once.stats);
}

/// Where a rerooting removes no version for its environment from the
/// second levels of the first `n` addresses, it removes none from any of
/// them.
pub proof fn lemma_none_outdated<FG: ForkGraph>(
    cache: ProgramCacheView,
    graph: &FG,
    reroot: Reroot,
    n: int,
    k: int,
)
    requires
        0 <= k < n <= cache.keys.len(),
        cache.outdated(graph, reroot, n) == 0,
    ensures
        prune_scan(graph, cache.levels[cache.keys[k]].slot_versions, 0, reroot).outdated == 0,
    decreases n,
{
    if k < n - 1 {
        lemma_none_outdated(cache, graph, reroot, n - 1, k);
    }
}

/// A rerooting that leaves every second level as it is removes nothing.
pub proof fn lemma_no_prunes<FG: ForkGraph>(
    cache: ProgramCacheView,
    graph: &FG,
    reroot: Reroot,
    n: int,
)
    requires
        0 <= n <= cache.keys.len(),
        forall|i: int|
            0 <= i < cache.keys.len() ==> {
                &&& prune_scan(
                    graph,
                    cache.levels[#[trigger] cache.keys[i]].slot_versions,
                    0,
                    reroot,
                ).orphans == 0
                &&& prune_scan(graph, cache.levels[cache.keys[i]].slot_versions, 0, reroot).outdated
                    == 0
            },
    ensures
        cache.orphans(graph, reroot, n) == 0,
        cache.outdated(graph, reroot, n) == 0,
    decreases n,
{
    if n > 0 {
        lemma_no_prunes(cache, graph, reroot, n - 1);
        assert(prune_scan(graph, cache.levels[cache.keys[n - 1]].slot_versions, 0, reroot).orphans
            == 0);
    }
}

/// Merging a batch without entries into another changes nothing.
pub proof fn law_batch_merge_empty(batch: BatchView, other: BatchView)
    requires
        other.keys.len() == 0,
    ensures
        batch.merge(other) == batch,
{
}

/// After a batch was replenished with an entry, a lookup of its address
/// finds that entry, or the tombstone that hides it while it is not yet
/// effective; lookups of other addresses find what they found before.
pub proof fn law_find_after_replenish(
    batch: BatchView,
    key: Address,
    entry: LoadedProgram,
    other: Address,
)
    ensures
        batch.replenish(key, entry).find(key) == Some(
            if entry.implicit_delay_visibility_tombstone(batch.slot) {
                LoadedProgram::tombstone_at(
                    entry.deployment_slot,
                    LoadedProgramType::DelayVisibility,
                )
            } else {
                entry
            },
        ),
        other != key ==> batch.replenish(key, entry).find(other) == batch.find(other),
{
}


/// Under a consistent fork graph a program is hidden from the slot of its
/// own deployment: a lookup there, among versions of which the newest was
/// deployed on-chain in that slot and becomes effective in the next, comes
/// to a delay.
pub proof fn law_lookup_in_deployment_slot<FG: ForkGraph>(
    graph: &FG,
    versions: Seq<LoadedProgram>,
    root: Slot,
    environments: ProgramRuntimeEnvironments,
    criteria: LoadedProgramMatchCriteria,
)
    requires
        consistent(graph),
        versions.len() > 0,
        !(versions.last().program is Builtin),
        versions.last().effective_slot == versions.last().deployment_slot + 1,
    ensures
        lookup(
            graph,
            versions,
            versions.len() as int,
            root,
            versions.last().deployment_slot,
            environments,
            criteria,
        ) == Lookup::Delayed(versions.last().deployment_slot),
{
    let entry = versions.last();
    assert(graph.relation(entry.deployment_slot, entry.deployment_slot) == BlockRelation::Equal);
}

/// Assigning a well-formed entry leaves the versions of every address
/// sorted, with no two versions of an address in the same slots, and every
/// version effective no earlier than deployed.
pub proof fn law_assign_keeps_order(cache: ProgramCacheView, key: Address, entry: LoadedProgram)
    requires
        cache.wf(),
        entry.wf(),
    ensures
        cache.assign_program(key, entry).wf(),
{
    let level = cache.level(key);
    lemma_assign_keeps_order(level.slot_versions, entry);
    let assigned = SecondLevelView { slot_versions: assign(level.slot_versions, entry), ..level };
    lemma_with_level_wf(cache, key, assigned);
    let with_level = cache.with_level(key, assigned);
    let after = cache.assign_program(key, entry);
    assert(after.keys == with_level.keys && after.levels == with_level.levels);
}

/// Serving an item of a batch leaves the versions of every address sorted
/// and well-formed.
pub proof fn law_extract_keeps_order<FG: ForkGraph>(
    graph: &FG,
    state: Extraction,
    item: SearchItem,
    worker: WorkerId,
)
    requires
        state.cache.wf(),
        state.cache.versions(item.0).len() <= usize::MAX,
    ensures
        extract_step(graph, state, item, worker).cache.wf(),
{
    let key = item.0;
    let level = state.cache.level(key);
    let versions = level.slot_versions;
    let slot = state.batch.slot;
    lemma_lookup_hit(
        graph,
        versions,
        versions.len() as int,
        state.cache.latest_root_slot,
        slot,
        state.batch.environments,
        item.1.0,
    );
    match lookup(
        graph,
        versions,
        versions.len() as int,
        state.cache.latest_root_slot,
        slot,
        state.batch.environments,
        item.1.0,
    ) {
        Lookup::Hit(index) => {
            let used = versions[index as int].used(slot, item.1.1);
            let after = versions.update(index as int, used);
            assert(state.cache.levels.dom().contains(key));
            assert(level.wf());
            assert forall|i: int, j: int| 0 <= i < j < after.len() implies key_lt(
                after[i],
                after[j],
            ) by {
                assert(key_lt(versions[i], versions[j]));
            }
            assert forall|i: int| 0 <= i < after.len() implies (#[trigger] after[i]).wf() by {
                assert(versions[i].wf());
            }
            lemma_with_level_wf(
                state.cache,
                key,
                SecondLevelView { slot_versions: after, ..level },
            );
        },
        Lookup::Delayed(_) => {},
        Lookup::Miss => {
            if state.cache.levels.dom().contains(key) {
                assert(level.wf());
            }
            lemma_with_level_wf(state.cache, key, level);
            lemma_with_level_wf(
                state.cache,
                key,
                SecondLevelView { cooperative_loading_lock: Some((slot, worker)), ..level },
            );
        },
    }
}

/// The filter of a list without duplicates has no duplicates.
pub proof fn lemma_filter_keeps_distinct<A>(s: Seq<A>, pred: spec_fn(A) -> bool)
    requires
        s.no_duplicates(),
    ensures
        s.filter(pred).no_duplicates(),
    decreases s.len(),
{
    if s.len() == 0 {
        reveal(Seq::filter);
        assert(s.filter(pred) =~= Seq::<A>::empty());
    } else {
        let front = s.drop_last();
        assert forall|i: int, j: int| 0 <= i < front.len() && 0 <= j < front.len() && i
            != j implies front[i] != front[j] by {
            assert(front[i] == s[i] && front[j] == s[j]);
        }
        lemma_filter_keeps_distinct(front, pred);
        lemma_filter_members(front, pred);
        assert(s =~= front.push(s.last()));
        lemma_filter_push(front, s.last(), pred);
        let inner = front.filter(pred);
        let filtered = s.filter(pred);
        if pred(s.last()) {
            assert(!inner.contains(s.last())) by {
                if front.contains(s.last()) {
                    let i = choose|i: int| 0 <= i < front.len() && front[i] == s.last();
                    assert(s[i] == s[s.len() - 1]);
                }
            }
            assert forall|i: int, j: int| 0 <= i < filtered.len() && 0 <= j < filtered.len() && i
                != j implies filtered[i] != filtered[j] by {
                if i < inner.len() && j < inner.len() {
                    assert(filtered[i] == inner[i] && filtered[j] == inner[j]);
                } else if i < inner.len() {
                    assert(filtered[i] == inner[i]);
                    assert(inner.contains(filtered[i]));
                } else {
                    assert(filtered[j] == inner[j]);
                    assert(inner.contains(filtered[j]));
                }
            }
        }
    }
}

/// Rerooting leaves the versions of every address sorted and well-formed,
/// and no address twice.
pub proof fn law_prune_keeps_order<FG: ForkGraph>(
    cache: ProgramCacheView,
    graph: &FG,
    new_root_slot: Slot,
    new_root_epoch: Epoch,
)
    requires
        cache.wf(),
    ensures
        cache.prune(graph, new_root_slot, new_root_epoch).wf(),
{
    let reroot = cache.reroot(new_root_slot, new_root_epoch);
    let after = cache.prune(graph, new_root_slot, new_root_epoch);
    let pruned = cache.levels.map_values(
        |level: SecondLevelView| pruned_level(graph, level, reroot),
    );
    lemma_filter_keeps_distinct(cache.keys, live(pruned));
    lemma_filter_members(cache.keys, live(pruned));
    assert(after.keys == cache.keys.filter(live(pruned)));
    assert forall|key: Address| after.levels.dom().contains(key) <==> after.keys.to_set().contains(
        key,
    ) by {
        if after.keys.contains(key) {
            assert(cache.keys.contains(key));
            assert(cache.keys.to_set().contains(key));
        }
    }
    assert(after.levels.dom() =~= after.keys.to_set());
    assert forall|key: Address| #[trigger] after.levels.dom().contains(key) implies after.levels[key].wf() by {
        assert(cache.levels.dom().contains(key));
        assert(cache.levels[key].wf());
        lemma_prune_scan(graph, cache.levels[key].slot_versions, 0, reroot);
    }
}

/// The program that an extraction leaves to the worker is one that the
/// batch still misses, and its loading task is held by the worker, for the
/// slot of the batch.
pub proof fn law_task_is_held<FG: ForkGraph>(
    graph: &FG,
    start: Extraction,
    items: Seq<SearchItem>,
    n: int,
    worker: WorkerId,
)
    requires
        0 <= n <= items.len(),
        start.task is None,
    ensures
        ({
            let result = extract_first(graph, start, items, n, worker);
            result.task matches Some((key, _)) ==> result.cache.level(key).cooperative_loading_lock
                == Some((start.batch.slot, worker))
        }),
    decreases n,
{
    if n > 0 {
        law_task_is_held(graph, start, items, n - 1, worker);
        lemma_extraction_frame(graph, start, items, n - 1, worker);
        let before = extract_first(graph, start, items, n - 1, worker);
        let after = extract_step(graph, before, items[n - 1], worker);
        assert(extract_first(graph, start, items, n, worker) == after);
        lemma_extraction_frame(graph, before, seq![items[n - 1]], 1, worker);
        assert(extract_first(graph, before, seq![items[n - 1]], 1, worker) == after) by {
            reveal_with_fuel(extract_first, 2);
        }
        assert(extraction_frame(before, after));
        match before.task {
            Some((key, _)) => {
                assert(before.cache.level(key).cooperative_loading_lock is Some);
            },
            None => {},
        }
    }
}

/// When a worker has handed in the program that it loaded, the loading task
/// of the address is over.
pub proof fn law_finish_ends_the_task<FG: ForkGraph>(
    cache: ProgramCacheView,
    graph: &FG,
    slot: Slot,
    key: Address,
    entry: LoadedProgram,
)
    ensures
        cache.finish_cooperative_loading_task(graph, slot, key, entry).level(
            key,
        ).cooperative_loading_lock is None,
{
}

/// A batch that asks for a program right after an entry was assigned to
/// it gets that entry, counted as used, and no program is left to load for
/// it: provided that the assignment was not rejected, and that the entry is
/// visible and effective in the slot of the batch, fits its environments,
/// meets its criteria, is not unloaded, and is newer than every other
/// version that could decide the lookup.
pub proof fn law_assigned_entry_is_extracted<FG: ForkGraph>(
    graph: &FG,
    cache: ProgramCacheView,
    batch: BatchView,
    key: Address,
    entry: LoadedProgram,
    criteria: LoadedProgramMatchCriteria,
    usage_count: u64,
    worker: WorkerId,
)
    requires
        cache.wf(),
        cache.versions(key).len() < usize::MAX,
        !cache.assign_rejected(key, entry),
        visible(graph, entry, cache.latest_root_slot, batch.slot),
        usable(entry, batch.slot, batch.environments),
        matches_criteria(entry, criteria),
        !(entry.program is Unloaded),
        forall|i: int|
            0 <= i < cache.versions(key).len() && key_lt(entry, #[trigger] cache.versions(key)[i])
                ==> !decisive(
                graph,
                cache.versions(key)[i],
                cache.latest_root_slot,
                batch.slot,
                batch.environments,
            ),
    ensures
        ({
            let state = Extraction {
                cache: cache.assign_program(key, entry),
                batch,
                remaining: Seq::empty(),
                task: None,
            };
            let after = extract_step(graph, state, (key, (criteria, usage_count)), worker);
            let found = after.batch.find(key);
            &&& after.task is None
            &&& after.remaining.len() == 0
            &&& found is Some
            &&& found->0.program == entry.program
            &&& key_eq(found->0, entry)
            &&& found->0.account_size == entry.account_size
            &&& found->0.latest_access_slot >= batch.slot
        }),
{
    let versions = cache.versions(key);
    if cache.levels.dom().contains(key) {
        assert(cache.levels[key].wf());
    }
    law_assigned_entry_is_found(
        graph,
        versions,
        entry,
        cache.latest_root_slot,
        batch.slot,
        batch.environments,
        criteria,
    );
    lemma_insertion_point(versions, entry);
    let assigned = cache.assign_program(key, entry);
    assert(assigned.versions(key) == assign(versions, entry));
}

} // verus!
