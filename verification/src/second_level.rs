//! All versions of the program at one address.

use crate::fork_graph::Slot;
use crate::loaded_program::{wrapping_sum, LoadedProgram, LoadedProgramType};
use vstd::prelude::*;

verus! {

/// Identifies the worker that loads a program on behalf of all others.
pub type WorkerId = u64;

/// `a` comes before `b`: it becomes effective earlier, or in the same slot
/// and was deployed earlier.
pub open spec fn key_lt(a: LoadedProgram, b: LoadedProgram) -> bool {
    a.effective_slot < b.effective_slot || (a.effective_slot == b.effective_slot
        && a.deployment_slot < b.deployment_slot)
}

/// `a` and `b` agree in both slots.
pub open spec fn key_eq(a: LoadedProgram, b: LoadedProgram) -> bool {
    a.effective_slot == b.effective_slot && a.deployment_slot == b.deployment_slot
}

/// Each version comes before all those behind it, so no two agree in both
/// slots.
pub open spec fn sorted(versions: Seq<LoadedProgram>) -> bool {
    forall|i: int, j: int| 0 <= i < j < versions.len() ==> key_lt(versions[i], versions[j])
}

/// Every version becomes effective no earlier than it was deployed.
pub open spec fn all_wf(versions: Seq<LoadedProgram>) -> bool {
    forall|i: int| 0 <= i < versions.len() ==> (#[trigger] versions[i]).wf()
}

/// The number of versions that come before `entry`.
pub open spec fn insertion_point(versions: Seq<LoadedProgram>, entry: LoadedProgram) -> int
    decreases versions.len(),
{
    if versions.len() == 0 {
        0
    } else if key_lt(versions.last(), entry) {
        insertion_point(versions.drop_last(), entry) + 1
    } else {
        insertion_point(versions.drop_last(), entry)
    }
}

/// In a sorted list the versions before the insertion point are those that
/// come before `entry`, and no other index divides the list so.
pub proof fn lemma_insertion_point(versions: Seq<LoadedProgram>, entry: LoadedProgram)
    requires
        sorted(versions),
    ensures
        0 <= insertion_point(versions, entry) <= versions.len(),
        forall|i: int|
            0 <= i < insertion_point(versions, entry) ==> key_lt(#[trigger] versions[i], entry),
        forall|i: int|
            insertion_point(versions, entry) <= i < versions.len() ==> !key_lt(
                #[trigger] versions[i],
                entry,
            ),
    decreases versions.len(),
{
    if versions.len() > 0 {
        let front = versions.drop_last();
        assert forall|i: int, j: int| 0 <= i < j < front.len() implies key_lt(
            front[i],
            front[j],
        ) by {
            assert(front[i] == versions[i] && front[j] == versions[j]);
        }
        lemma_insertion_point(front, entry);
        let p = insertion_point(front, entry);
        if key_lt(versions.last(), entry) {
            assert forall|i: int| 0 <= i < versions.len() implies key_lt(
                #[trigger] versions[i],
                entry,
            ) by {
                if i < versions.len() - 1 {
                    assert(key_lt(versions[i], versions[versions.len() - 1]));
                }
            }
            assert(p == front.len()) by {
                if p < front.len() {
                    assert(front[p] == versions[p]);
                    assert(!key_lt(front[p], entry));
                }
            }
        } else {
            assert forall|i: int| 0 <= i < p implies key_lt(#[trigger] versions[i], entry) by {
                assert(front[i] == versions[i]);
            }
            assert forall|i: int| p <= i < versions.len() implies !key_lt(
                #[trigger] versions[i],
                entry,
            ) by {
                if i < versions.len() - 1 {
                    assert(front[i] == versions[i]);
                }
            }
        }
    }
}

/// An index that divides a sorted list into the versions before `entry` and
/// the others is the insertion point.
pub proof fn lemma_insertion_point_unique(
    versions: Seq<LoadedProgram>,
    entry: LoadedProgram,
    p: int,
)
    requires
        sorted(versions),
        0 <= p <= versions.len(),
        forall|i: int| 0 <= i < p ==> key_lt(#[trigger] versions[i], entry),
        forall|i: int| p <= i < versions.len() ==> !key_lt(#[trigger] versions[i], entry),
    ensures
        insertion_point(versions, entry) == p,
{
    lemma_insertion_point(versions, entry);
    let q = insertion_point(versions, entry);
    if q < p {
        assert(key_lt(versions[q], entry));
    }
    if p < q {
        assert(key_lt(versions[p], entry));
    }
}

/// The slots of `entry` are taken by a version of the list.
pub open spec fn occupied(versions: Seq<LoadedProgram>, entry: LoadedProgram) -> bool {
    let p = insertion_point(versions, entry);
    p < versions.len() && key_eq(versions[p], entry)
}

/// Whether a version with payload `existing` may give way to one with
/// payload `incoming` that has the same slots: a builtin to a builtin, and a
/// closed or unloaded program to a compiled one.
pub open spec fn replaceable(existing: LoadedProgramType, incoming: LoadedProgramType) -> bool {
    ||| existing is Builtin && incoming is Builtin
    ||| (existing is Closed || existing is Unloaded) && incoming.loaded()
}

/// `incoming` with the two usage counters of `existing` added to its own.
pub open spec fn with_counters_of(incoming: LoadedProgram, existing: LoadedProgram) -> LoadedProgram {
    LoadedProgram {
        tx_usage_counter: wrapping_sum(incoming.tx_usage_counter, existing.tx_usage_counter),
        ix_usage_counter: wrapping_sum(incoming.ix_usage_counter, existing.ix_usage_counter),
        ..incoming
    }
}

/// What assigning a version to a list came to.
#[derive(Clone, Copy, Debug, PartialEq, Eq, Structural)]
pub enum Assignment {
    /// The slots were free: the version was inserted.
    Inserted,
    /// The slots were taken by a version that gave way.
    Replaced,
    /// The slots were taken by a version that stays.
    Rejected,
}

/// What assigning `entry` to `versions` comes to.
pub open spec fn assignment(versions: Seq<LoadedProgram>, entry: LoadedProgram) -> Assignment {
    let p = insertion_point(versions, entry);
    if occupied(versions, entry) {
        if replaceable(versions[p].program, entry.program) {
            Assignment::Replaced
        } else {
            Assignment::Rejected
        }
    } else {
        Assignment::Inserted
    }
}

/// The list after `entry` was assigned to it.
pub open spec fn assign(versions: Seq<LoadedProgram>, entry: LoadedProgram) -> Seq<LoadedProgram> {
    let p = insertion_point(versions, entry);
    match assignment(versions, entry) {
        Assignment::Inserted => versions.insert(p, entry),
        Assignment::Replaced => versions.update(p, with_counters_of(entry, versions[p])),
        Assignment::Rejected => versions,
    }
}

/// Assigning a version keeps the list sorted, and its versions well-formed.
pub proof fn lemma_assign_keeps_order(versions: Seq<LoadedProgram>, entry: LoadedProgram)
    requires
        sorted(versions),
    ensures
        sorted(assign(versions, entry)),
        all_wf(versions) && entry.wf() ==> all_wf(assign(versions, entry)),
{
    lemma_insertion_point(versions, entry);
    let p = insertion_point(versions, entry);
    let after = assign(versions, entry);
    match assignment(versions, entry) {
        Assignment::Inserted => {
            assert forall|i: int, j: int| 0 <= i < j < after.len() implies key_lt(
                after[i],
                after[j],
            ) by {
                if j < p {
                    assert(key_lt(versions[i], versions[j]));
                } else if j == p {
                    assert(key_lt(versions[i], entry));
                } else if i < p {
                    assert(key_lt(versions[i], versions[j - 1]));
                } else if i == p {
                    assert(!key_lt(versions[j - 1], entry));
                    if j - 1 > p {
                        assert(key_lt(versions[p], versions[j - 1]));
                    }
                    assert(!key_eq(versions[p], entry));
                    assert(!key_lt(versions[p], entry));
                } else {
                    assert(key_lt(versions[i - 1], versions[j - 1]));
                }
            }
            if all_wf(versions) && entry.wf() {
                assert forall|i: int| 0 <= i < after.len() implies (#[trigger] after[i]).wf() by {
                    if i < p {
                        assert(versions[i].wf());
                    } else if i > p {
                        assert(versions[i - 1].wf());
                    }
                }
            }
        },
        Assignment::Replaced => {
            assert forall|i: int, j: int| 0 <= i < j < after.len() implies key_lt(
                after[i],
                after[j],
            ) by {
                assert(key_lt(versions[i], versions[j]));
            }
            if all_wf(versions) && entry.wf() {
                assert forall|i: int| 0 <= i < after.len() implies (#[trigger] after[i]).wf() by {
                    if i != p {
                        assert(versions[i].wf());
                    }
                }
            }
        },
        Assignment::Rejected => {},
    }
}

/// Contains all the program versions at a specific address.
#[derive(Debug)]
pub struct SecondLevel {
    /// List of all versions (across all forks) of a program sorted by the slot in which they were modified
    pub slot_versions: Vec<LoadedProgram>,
    /// `Some` if there is currently a cooperative loading task for this program address
    ///
    /// It is possible that multiple TX batches from different slots need different versions of a program.
    /// However, that can only be figured out once a program is loaded and its deployment slot is known.
    pub cooperative_loading_lock: Option<(Slot, WorkerId)>,
}

/// What a [SecondLevel] holds.
pub struct SecondLevelView {
    pub slot_versions: Seq<LoadedProgram>,
    pub cooperative_loading_lock: Option<(Slot, WorkerId)>,
}

impl SecondLevelView {
    /// No version, and nobody loading one.
    pub open spec fn empty() -> SecondLevelView {
        SecondLevelView { slot_versions: Seq::empty(), cooperative_loading_lock: None }
    }

    /// The versions are sorted and each of them is well-formed.
    pub open spec fn wf(self) -> bool {
        sorted(self.slot_versions) && all_wf(self.slot_versions)
    }

    /// Neither a version nor a loading task is left.
    pub open spec fn vacant(self) -> bool {
        self.slot_versions.len() == 0 && self.cooperative_loading_lock is None
    }
}

impl View for SecondLevel {
    type V = SecondLevelView;

    open spec fn view(&self) -> SecondLevelView {
        SecondLevelView {
            slot_versions: self.slot_versions@,
            cooperative_loading_lock: self.cooperative_loading_lock,
        }
    }
}

impl Default for SecondLevel {
    fn default() -> (level: Self)
        ensures
            level@ == SecondLevelView::empty(),
    {
        SecondLevel { slot_versions: Vec::new(), cooperative_loading_lock: None }
    }
}

impl SecondLevel {
    /// The number of versions that come before `entry`, found by halving.
    pub fn search(&self, entry: &LoadedProgram) -> (p: usize)
        requires
            sorted(self.slot_versions@),
        ensures
            p == insertion_point(self.slot_versions@, *entry),
            p <= self.slot_versions@.len(),
    {
        let mut low: usize = 0;
        let mut high: usize = self.slot_versions.len();
        while low < high
            invariant
                sorted(self.slot_versions@),
                0 <= low <= high <= self.slot_versions@.len(),
                forall|i: int| 0 <= i < low ==> key_lt(#[trigger] self.slot_versions@[i], *entry),
                forall|i: int|
                    high <= i < self.slot_versions@.len() ==> !key_lt(
                        #[trigger] self.slot_versions@[i],
                        *entry,
                    ),
            decreases high - low,
        {
            let mid = low + (high - low) / 2;
            let at = &self.slot_versions[mid];
            let before = at.effective_slot < entry.effective_slot || (at.effective_slot
                == entry.effective_slot && at.deployment_slot < entry.deployment_slot);
            if before {
                assert forall|i: int| 0 <= i < mid + 1 implies key_lt(
                    #[trigger] self.slot_versions@[i],
                    *entry,
                ) by {
                    if i < mid {
                        assert(key_lt(self.slot_versions@[i], self.slot_versions@[mid as int]));
                    }
                }
                low = mid + 1;
            } else {
                assert forall|i: int| mid <= i < self.slot_versions@.len() implies !key_lt(
                    #[trigger] self.slot_versions@[i],
                    *entry,
                ) by {
                    if i > mid {
                        assert(key_lt(self.slot_versions@[mid as int], self.slot_versions@[i]));
                    }
                }
                high = mid;
            }
        }
        proof {
            lemma_insertion_point_unique(self.slot_versions@, *entry, low as int);
        }
        low
    }

    /// Assigns `entry` to the versions: it is inserted where its slots are
    /// free, and replaces the version that holds them where that one may
    /// give way, taking over its usage counters.
    pub fn assign(&mut self, entry: LoadedProgram) -> (outcome: Assignment)
        requires
            sorted(old(self).slot_versions@),
        ensures
            outcome == assignment(old(self).slot_versions@, entry),
            final(self).slot_versions@ == assign(old(self).slot_versions@, entry),
            final(self).cooperative_loading_lock == old(self).cooperative_loading_lock,
            sorted(final(self).slot_versions@),
            all_wf(old(self).slot_versions@) && entry.wf() ==> all_wf(final(self).slot_versions@),
    {
        proof {
            lemma_assign_keeps_order(self.slot_versions@, entry);
        }
        let index = self.search(&entry);
        if index < self.slot_versions.len() && self.slot_versions[index].effective_slot
            == entry.effective_slot && self.slot_versions[index].deployment_slot
            == entry.deployment_slot {
            let existing = self.slot_versions[index];
            let allowed = match (existing.program, entry.program) {
                (LoadedProgramType::Builtin(_), LoadedProgramType::Builtin(_))
                | (LoadedProgramType::Closed, LoadedProgramType::LegacyV0(_))
                | (LoadedProgramType::Closed, LoadedProgramType::LegacyV1(_))
                | (LoadedProgramType::Closed, LoadedProgramType::Typed(_))
                | (LoadedProgramType::Unloaded(_), LoadedProgramType::LegacyV0(_))
                | (LoadedProgramType::Unloaded(_), LoadedProgramType::LegacyV1(_))
                | (LoadedProgramType::Unloaded(_), LoadedProgramType::Typed(_)) => true,
                _ => false,
            };
            if !allowed {
                return Assignment::Rejected;
            }
            // Copy over the usage counter to the new entry
            let mut entry = entry;
            entry.tx_usage_counter = entry.tx_usage_counter.wrapping_add(
                existing.tx_usage_counter,
            );
            entry.ix_usage_counter = entry.ix_usage_counter.wrapping_add(
                existing.ix_usage_counter,
            );
            self.slot_versions[index] = entry;
            Assignment::Replaced
        } else {
            self.slot_versions.insert(index, entry);
            Assignment::Inserted
        }
    }
}

} // verus!
