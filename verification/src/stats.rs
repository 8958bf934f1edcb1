//! Counters that the cache keeps of what it did.

use crate::address::Address;
use crate::address_map::AddressMap;
use vstd::prelude::*;

verus! {

/// Global cache statistics for [crate::cache::ProgramCache].
///
/// Each counter but those of `evictions` wraps around; those stop at
/// `u64::MAX`.
#[derive(Debug)]
pub struct Stats {
    /// a program was already in the cache
    pub hits: u64,
    /// a program was not found and loaded instead
    pub misses: u64,
    /// a compiled executable was unloaded
    pub evictions: AddressMap<u64>,
    /// an unloaded program was loaded again (opposite of eviction)
    pub reloads: u64,
    /// a program was loaded or un/re/deployed
    pub insertions: u64,
    /// a program was loaded but can not be extracted on its own fork anymore
    pub lost_insertions: u64,
    /// a program which was already in the cache was reloaded by mistake
    pub replacements: u64,
    /// a program was only used once before being unloaded
    pub one_hit_wonders: u64,
    /// a program became unreachable in the fork graph because of rerooting
    pub prunes_orphan: u64,
    /// a program got pruned because it was not recompiled for the next epoch
    pub prunes_environment: u64,
    /// the second level of an address was empty because all slot versions got pruned
    pub empty_entries: u64,
}

/// What the counters stand at.
pub struct StatsView {
    pub hits: u64,
    pub misses: u64,
    pub evictions: Map<Address, u64>,
    pub reloads: u64,
    pub insertions: u64,
    pub lost_insertions: u64,
    pub replacements: u64,
    pub one_hit_wonders: u64,
    pub prunes_orphan: u64,
    pub prunes_environment: u64,
    pub empty_entries: u64,
}

impl StatsView {
    /// All counters at zero.
    pub open spec fn zero() -> StatsView {
        StatsView {
            hits: 0,
            misses: 0,
            evictions: Map::empty(),
            reloads: 0,
            insertions: 0,
            lost_insertions: 0,
            replacements: 0,
            one_hit_wonders: 0,
            prunes_orphan: 0,
            prunes_environment: 0,
            empty_entries: 0,
        }
    }

    /// The counters after one more eviction at `program`.
    pub open spec fn evicted(self, program: Address) -> StatsView {
        let count: u64 = if !self.evictions.dom().contains(program) {
            1
        } else if self.evictions[program] == u64::MAX {
            u64::MAX
        } else {
            (self.evictions[program] + 1) as u64
        };
        StatsView { evictions: self.evictions.insert(program, count), ..self }
    }
}

impl View for Stats {
    type V = StatsView;

    open spec fn view(&self) -> StatsView {
        StatsView {
            hits: self.hits,
            misses: self.misses,
            evictions: self.evictions@,
            reloads: self.reloads,
            insertions: self.insertions,
            lost_insertions: self.lost_insertions,
            replacements: self.replacements,
            one_hit_wonders: self.one_hit_wonders,
            prunes_orphan: self.prunes_orphan,
            prunes_environment: self.prunes_environment,
            empty_entries: self.empty_entries,
        }
    }
}

impl Default for Stats {
    fn default() -> (stats: Self)
        ensures
            stats@ == StatsView::zero(),
            stats.wf(),
    {
        let stats = Stats {
            hits: 0,
            misses: 0,
            evictions: AddressMap::new(),
            reloads: 0,
            insertions: 0,
            lost_insertions: 0,
            replacements: 0,
            one_hit_wonders: 0,
            prunes_orphan: 0,
            prunes_environment: 0,
            empty_entries: 0,
        };
        assert(stats@.evictions =~= Map::empty());
        stats
    }
}

impl Stats {
    /// The evictions are counted once for each address.
    pub open spec fn wf(&self) -> bool {
        self.evictions.wf()
    }

    pub fn reset(&mut self)
        ensures
            final(self)@ == StatsView::zero(),
            final(self).wf(),
    {
        *self = Stats::default();
    }

    /// Counts one more eviction at `program`.
    pub fn count_eviction(&mut self, program: Address)
        requires
            old(self).wf(),
        ensures
            final(self).wf(),
            final(self)@ == old(self)@.evicted(program),
    {
        match self.evictions.find(&program) {
            Some(i) => {
                let count = self.evictions.values[i];
                self.evictions.values[i] = count.saturating_add(1);
                proof {
                    AddressMap::lemma_view_after_update(
                        &old(self).evictions,
                        &self.evictions,
                        i as int,
                    );
                    old(self).evictions.lemma_view_at(i as int);
                }
            },
            None => {
                self.evictions.push(program, 1);
                proof {
                    assert(self.evictions.keys@.drop_last() =~= old(self).evictions.keys@);
                    AddressMap::lemma_view_after_push(&old(self).evictions, &self.evictions);
                }
            },
        }
    }
}

} // verus!
