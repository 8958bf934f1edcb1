//! The programs that one batch of transactions works with.

use crate::address::Address;
use crate::address_map::AddressMap;
use crate::environment::ProgramRuntimeEnvironments;
use crate::fork_graph::{Epoch, Slot};
use crate::loaded_program::{LoadedProgram, LoadedProgramType};
use vstd::prelude::*;

verus! {

/// Local view into the program cache which was extracted for a specific TX batch.
///
/// This isolation enables the global cache to continue to evolve (e.g. evictions),
/// while the TX batch is guaranteed it will continue to find all the programs it requires.
/// For program management instructions this also buffers them before they are merged back into the global cache.
#[derive(Clone, Debug)]
pub struct LoadedProgramsForTxBatch {
    /// The address of a program, and the corresponding program entry valid
    /// for the slot in which a transaction is being executed.
    pub entries: AddressMap<LoadedProgram>,
    pub slot: Slot,
    pub environments: ProgramRuntimeEnvironments,
    /// Anticipated replacement for `environments` at the next epoch.
    ///
    /// This is `None` during most of an epoch, and only `Some` around the boundaries (at the end and beginning of an epoch).
    /// More precisely, it starts with the recompilation phase a few hundred slots before the epoch boundary,
    /// and it ends with the first rerooting after the epoch boundary.
    /// Needed when a program is deployed at the last slot of an epoch, becomes effective in the next epoch.
    /// So needs to be compiled with the environment for the next epoch.
    pub upcoming_environments: Option<ProgramRuntimeEnvironments>,
    /// The epoch of the last rerooting
    pub latest_root_epoch: Epoch,
    pub hit_max_limit: bool,
}

/// What a [LoadedProgramsForTxBatch] holds: its entries by address, the
/// addresses in the order in which they came in, and its other fields.
pub struct BatchView {
    pub keys: Seq<Address>,
    pub entries: Map<Address, LoadedProgram>,
    pub slot: Slot,
    pub environments: ProgramRuntimeEnvironments,
    pub upcoming_environments: Option<ProgramRuntimeEnvironments>,
    pub latest_root_epoch: Epoch,
    pub hit_max_limit: bool,
}

/// The environments that apply in `epoch`: the upcoming ones, if there are
/// any, in any epoch but that of the latest root, and else the current ones.
pub open spec fn environments_for_epoch(
    environments: ProgramRuntimeEnvironments,
    upcoming_environments: Option<ProgramRuntimeEnvironments>,
    latest_root_epoch: Epoch,
    epoch: Epoch,
) -> ProgramRuntimeEnvironments {
    if epoch != latest_root_epoch && upcoming_environments is Some {
        upcoming_environments->0
    } else {
        environments
    }
}

impl BatchView {
    /// The entries are those of the addresses in `keys`, none of which
    /// occurs twice.
    pub open spec fn wf(self) -> bool {
        &&& self.keys.no_duplicates()
        &&& self.entries.dom() == self.keys.to_set()
    }

    /// The batch with `entry` under `key`, in place of what was there.
    pub open spec fn replenish(self, key: Address, entry: LoadedProgram) -> BatchView {
        BatchView {
            keys: if self.keys.contains(key) {
                self.keys
            } else {
                self.keys.push(key)
            },
            entries: self.entries.insert(key, entry),
            ..self
        }
    }

    /// What a lookup of `key` gives: nothing where the batch has no entry for
    /// it; a fresh tombstone where the entry is deployed but not yet
    /// effective in the batch's slot; and else the entry.
    pub open spec fn find(self, key: Address) -> Option<LoadedProgram> {
        if !self.entries.dom().contains(key) {
            None
        } else {
            let entry = self.entries[key];
            if entry.implicit_delay_visibility_tombstone(self.slot) {
                Some(
                    LoadedProgram::tombstone_at(
                        entry.deployment_slot,
                        LoadedProgramType::DelayVisibility,
                    ),
                )
            } else {
                Some(entry)
            }
        }
    }

    /// The batch after the first `n` entries of `other`, in the order of its
    /// keys, were put into it one by one.
    pub open spec fn merge_first(self, other: BatchView, n: int) -> BatchView
        decreases n,
    {
        if n <= 0 {
            self
        } else {
            self.merge_first(other, n - 1).replenish(
                other.keys[n - 1],
                other.entries[other.keys[n - 1]],
            )
        }
    }

    /// The batch after all entries of `other` were put into it.
    pub open spec fn merge(self, other: BatchView) -> BatchView {
        self.merge_first(other, other.keys.len() as int)
    }
}

impl View for LoadedProgramsForTxBatch {
    type V = BatchView;

    open spec fn view(&self) -> BatchView {
        BatchView {
            keys: self.entries.keys@,
            entries: self.entries@,
            slot: self.slot,
            environments: self.environments,
            upcoming_environments: self.upcoming_environments,
            latest_root_epoch: self.latest_root_epoch,
            hit_max_limit: self.hit_max_limit,
        }
    }
}

impl LoadedProgramsForTxBatch {
    /// Each address has one entry.
    pub open spec fn wf(&self) -> bool {
        self.entries.wf()
    }

    pub fn new(
        slot: Slot,
        environments: ProgramRuntimeEnvironments,
        upcoming_environments: Option<ProgramRuntimeEnvironments>,
        latest_root_epoch: Epoch,
    ) -> (batch: Self)
        ensures
            batch.wf(),
            batch@ == (BatchView {
                keys: Seq::empty(),
                entries: Map::empty(),
                slot,
                environments,
                upcoming_environments,
                latest_root_epoch,
                hit_max_limit: false,
            }),
    {
        let batch = LoadedProgramsForTxBatch {
            entries: AddressMap::new(),
            slot,
            environments,
            upcoming_environments,
            latest_root_epoch,
            hit_max_limit: false,
        };
        assert(batch@.entries =~= Map::empty());
        batch
    }

    /// Returns the current environments depending on the given epoch
    pub fn get_environments_for_epoch(&self, epoch: Epoch) -> (environments:
        &ProgramRuntimeEnvironments)
        ensures
            *environments == environments_for_epoch(
                self.environments,
                self.upcoming_environments,
                self.latest_root_epoch,
                epoch,
            ),
    {
        if epoch != self.latest_root_epoch {
            if let Some(upcoming_environments) = self.upcoming_environments.as_ref() {
                return upcoming_environments;
            }
        }
        &self.environments
    }

    /// Refill the cache with a single entry. It's typically called during transaction loading, and
    /// transaction processing (for program management instructions).
    /// It replaces the existing entry (if any) with the provided entry. The return value contains
    /// `true` if an entry existed.
    /// The function also returns the newly inserted value.
    pub fn replenish(&mut self, key: Address, entry: LoadedProgram) -> (result: (
        bool,
        LoadedProgram,
    ))
        requires
            old(self).wf(),
        ensures
            final(self).wf(),
            final(self)@ == old(self)@.replenish(key, entry),
            result.0 == old(self)@.entries.dom().contains(key),
            result.1 == entry,
    {
        match self.entries.find(&key) {
            Some(i) => {
                self.entries.values[i] = entry;
                proof {
                    AddressMap::lemma_view_after_update(
                        &old(self).entries,
                        &self.entries,
                        i as int,
                    );
                }
                (true, entry)
            },
            None => {
                self.entries.push(key, entry);
                proof {
                    assert(self.entries.keys@.drop_last() =~= old(self).entries.keys@);
                    AddressMap::lemma_view_after_push(&old(self).entries, &self.entries);
                }
                (false, entry)
            },
        }
    }

    pub fn find(&self, key: &Address) -> (found: Option<LoadedProgram>)
        requires
            self.wf(),
        ensures
            found == self@.find(*key),
    {
        match self.entries.find(key) {
            Some(i) => {
                proof {
                    self.entries.lemma_view_at(i as int);
                }
                let entry = &self.entries.values[i];
                if entry.is_implicit_delay_visibility_tombstone(self.slot) {
                    // Found a program entry on the current fork, but it's not effective
                    // yet. It indicates that the program has delayed visibility. Return
                    // the tombstone to reflect that.
                    Some(
                        LoadedProgram::new_tombstone(
                            entry.deployment_slot,
                            LoadedProgramType::DelayVisibility,
                        ),
                    )
                } else {
                    Some(*entry)
                }
            },
            None => None,
        }
    }

    pub fn slot(&self) -> (slot: Slot)
        ensures
            slot == self.slot,
    {
        self.slot
    }

    pub fn set_slot_for_tests(&mut self, slot: Slot)
        ensures
            final(self)@ == (BatchView { slot, ..old(self)@ }),
            final(self).entries == old(self).entries,
    {
        self.slot = slot;
    }

    pub fn merge(&mut self, other: &Self)
        requires
            old(self).wf(),
            other.wf(),
        ensures
            final(self).wf(),
            final(self)@ == old(self)@.merge(other@),
    {
        let mut i: usize = 0;
        while i < other.entries.len()
            invariant
                self.wf(),
                other.wf(),
                i <= other.entries.keys@.len(),
                self@ == old(self)@.merge_first(other@, i as int),
            decreases other.entries.keys@.len() - i,
        {
            proof {
                other.entries.lemma_view_at(i as int);
            }
            self.replenish(other.entries.keys[i], other.entries.values[i]);
            i += 1;
        }
    }
}

impl Default for LoadedProgramsForTxBatch {
    /// An empty batch of slot 0 under the empty environments.
    fn default() -> (batch: Self)
        ensures
            batch.wf(),
            batch@.keys.len() == 0,
            batch.slot == 0,
            batch.upcoming_environments is None,
            batch.latest_root_epoch == 0,
            !batch.hit_max_limit,
    {
        LoadedProgramsForTxBatch::new(0, ProgramRuntimeEnvironments::default(), None, 0)
    }
}

} // verus!
