//! The relation between blocks on the fork tree, as the cache asks for it.

use vstd::prelude::*;

verus! {

/// Number of a block.
pub type Slot = u64;

/// Number of an epoch, a span of slots.
pub type Epoch = u64;

/// Relationship between two fork IDs
#[derive(Copy, Clone, Debug, PartialEq, Eq, Structural)]
pub enum BlockRelation {
    /// The slot is on the same fork and is an ancestor of the other slot
    Ancestor,
    /// The two slots are equal and are on the same fork
    Equal,
    /// The slot is on the same fork and is a descendant of the other slot
    Descendant,
    /// The slots are on two different forks and may have had a common ancestor at some point
    Unrelated,
    /// Either one or both of the slots are either older than the latest root, or are in future
    Unknown,
}

/// Maps relationship between two slots.
///
/// The cache reads the graph while its caller holds it still, so within one
/// operation the answers are those of one fixed relation, `relation`.
/// Implementations are not verified here: what the cache proves of its results
/// holds for a graph whose `relationship` returns what `relation` says.
pub trait ForkGraph {
    /// The relation of slot `a` to slot `b`. An implementation that is
    /// written without the verifier has no need to define it.
    open spec fn relation(&self, a: Slot, b: Slot) -> BlockRelation {
        arbitrary()
    }

    /// Returns the BlockRelation of A to B
    fn relationship(&self, a: Slot, b: Slot) -> (relation: BlockRelation)
        ensures
            relation == self.relation(a, b),
    ;

    /// Returns the epoch of the given slot
    ///
    /// A graph that does not say otherwise puts every slot into epoch 0.
    fn slot_epoch(&self, _slot: Slot) -> (epoch: Option<Epoch>)
        default_ensures
            epoch == Some(0u64),
    {
        Some(0)
    }
}

/// `a` is `b` itself or one of its ancestors.
pub open spec fn on_fork_of<FG: ForkGraph>(graph: &FG, a: Slot, b: Slot) -> bool {
    graph.relation(a, b) == BlockRelation::Equal || graph.relation(a, b) == BlockRelation::Ancestor
}

/// The graph relates every slot to itself as equal, and every slot to its
/// ancestors as their descendant.
pub open spec fn consistent<FG: ForkGraph>(graph: &FG) -> bool {
    &&& forall|a: Slot| #[trigger] graph.relation(a, a) == BlockRelation::Equal
    &&& forall|a: Slot, b: Slot|
        #[trigger] graph.relation(a, b) == BlockRelation::Ancestor ==> graph.relation(b, a)
            == BlockRelation::Descendant
}

} // verus!
