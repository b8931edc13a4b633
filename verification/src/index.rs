//! The secondary index from transition identifiers to the identifiers of
//! the anchors that commit them.

use std::collections::BTreeMap;
use vstd::prelude::*;

verus! {

broadcast use vstd::std_specs::btree::group_btree_axioms, vstd::laws_cmp::group_laws_cmp;

/// An ordered-map-backed index from a transition's node identifier to the
/// identifier of the anchor that commits it.
pub struct BtreeIndex {
    pub index: BTreeMap<u64, u64>,
}

impl BtreeIndex {
    pub fn new() -> (r: Self)
        ensures
            r.index@ == Map::<u64, u64>::empty(),
    {
        BtreeIndex { index: BTreeMap::new() }
    }

    /// Register the anchor that commits a transition. A transition maps to
    /// exactly one anchor; a second registration for the same transition
    /// replaces the earlier mapping.
    pub fn insert(&mut self, transition_id: u64, anchor_id: u64)
        ensures
            final(self).index@ == old(self).index@.insert(transition_id, anchor_id),
    {
        self.index.insert(transition_id, anchor_id);
    }

    /// The anchor that commits this transition, if it was ever anchored
    /// locally.
    pub fn anchor_id_by_transition_id(&self, transition_id: u64) -> (r: Option<u64>)
        ensures
            match r {
                Some(a) => self.index@.contains_key(transition_id) && a
                    == self.index@[transition_id],
                None => !self.index@.contains_key(transition_id),
            },
    {
        match self.index.get(&transition_id) {
            Some(a) => Some(*a),
            None => None,
        }
    }
}

} // verus!
