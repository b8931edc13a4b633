//! The keyed persistence backend of the stash.
//!
//! Every entity kind is kept in an ordered map keyed by its identifier;
//! insertion is keyed by the value's own identifier, so re-insertion of
//! identical content is a no-op and the store is resumable after a partial
//! merge. Beside each map an insertion log of its keys is kept, which gives
//! the enumeration accessors a stable order.

use std::collections::{BTreeMap, BTreeSet};
use vstd::prelude::*;

use crate::node::{Anchor, Extension, Genesis, Transition};

verus! {

broadcast use vstd::std_specs::btree::group_btree_axioms, vstd::laws_cmp::group_laws_cmp;

/// A key log holds exactly the keys of a map, each once.
pub open spec fn log_matches<V>(m: Map<u64, V>, log: Seq<u64>) -> bool {
    &&& forall|i: int, j: int| 0 <= i < j < log.len() ==> log[i] != log[j]
    &&& forall|i: int| 0 <= i < log.len() ==> m.contains_key(#[trigger] log[i])
    &&& forall|k: u64| m.contains_key(k) ==> log.contains(k)
}

proof fn lemma_log_insert<V>(m: Map<u64, V>, log: Seq<u64>, k: u64, v: V)
    requires
        log_matches(m, log),
        !m.contains_key(k),
    ensures
        log_matches(m.insert(k, v), log.push(k)),
{
    let log2 = log.push(k);
    assert(forall|i: int| 0 <= i < log.len() ==> log2[i] == log[i]);
    assert(log2[log.len() as int] == k);
    assert forall|k2: u64| m.insert(k, v).contains_key(k2) implies log2.contains(k2) by {
        if k2 == k {
            assert(log2[log.len() as int] == k2);
        } else {
            assert(m.contains_key(k2));
            assert(log.contains(k2));
            let i = choose|i: int| 0 <= i < log.len() && log[i] == k2;
            assert(log2[i] == k2);
        }
    }
}

proof fn lemma_log_overwrite<V>(m: Map<u64, V>, log: Seq<u64>, k: u64, v: V)
    requires
        log_matches(m, log),
        m.contains_key(k),
    ensures
        log_matches(m.insert(k, v), log),
{
}

/// The in-memory store: one table per entity kind, plus the set of known
/// schema identifiers.
pub struct MemStore {
    pub geneses: BTreeMap<u64, Genesis>,
    pub transitions: BTreeMap<u64, Transition>,
    pub extensions: BTreeMap<u64, Extension>,
    pub anchors: BTreeMap<u64, Anchor>,
    pub schemas: BTreeSet<u64>,
    pub genesis_ids: Vec<u64>,
    pub transition_ids: Vec<u64>,
    pub extension_ids: Vec<u64>,
    pub anchor_ids: Vec<u64>,
}

impl MemStore {
    /// Internal coherence: every value is keyed by its own identifier and
    /// every key log matches its map.
    pub open spec fn wf(&self) -> bool {
        &&& forall|k: u64|
            self.geneses@.contains_key(k) ==> (#[trigger] self.geneses@[k]).id == k
        &&& forall|k: u64|
            self.transitions@.contains_key(k) ==> (#[trigger] self.transitions@[k]).id == k
        &&& forall|k: u64|
            self.extensions@.contains_key(k) ==> (#[trigger] self.extensions@[k]).id == k
        &&& forall|k: u64| self.anchors@.contains_key(k) ==> (#[trigger] self.anchors@[k]).id == k
        &&& log_matches(self.geneses@, self.genesis_ids@)
        &&& log_matches(self.transitions@, self.transition_ids@)
        &&& log_matches(self.extensions@, self.extension_ids@)
        &&& log_matches(self.anchors@, self.anchor_ids@)
    }

    pub fn new() -> (r: MemStore)
        ensures
            r.wf(),
            r.geneses@ == Map::<u64, Genesis>::empty(),
            r.transitions@ == Map::<u64, Transition>::empty(),
            r.extensions@ == Map::<u64, Extension>::empty(),
            r.anchors@ == Map::<u64, Anchor>::empty(),
            r.schemas@ == Set::<u64>::empty(),
    {
        MemStore {
            geneses: BTreeMap::new(),
            transitions: BTreeMap::new(),
            extensions: BTreeMap::new(),
            anchors: BTreeMap::new(),
            schemas: BTreeSet::new(),
            genesis_ids: Vec::new(),
            transition_ids: Vec::new(),
            extension_ids: Vec::new(),
            anchor_ids: Vec::new(),
        }
    }

    pub fn genesis(&self, contract_id: u64) -> (r: Option<&Genesis>)
        ensures
            match r {
                Some(g) => self.geneses@.contains_key(contract_id) && *g
                    == self.geneses@[contract_id],
                None => !self.geneses@.contains_key(contract_id),
            },
    {
        self.geneses.get(&contract_id)
    }

    pub fn transition(&self, node_id: u64) -> (r: Option<&Transition>)
        ensures
            match r {
                Some(t) => self.transitions@.contains_key(node_id) && *t
                    == self.transitions@[node_id],
                None => !self.transitions@.contains_key(node_id),
            },
    {
        self.transitions.get(&node_id)
    }

    pub fn extension(&self, node_id: u64) -> (r: Option<&Extension>)
        ensures
            match r {
                Some(e) => self.extensions@.contains_key(node_id) && *e
                    == self.extensions@[node_id],
                None => !self.extensions@.contains_key(node_id),
            },
    {
        self.extensions.get(&node_id)
    }

    pub fn anchor(&self, anchor_id: u64) -> (r: Option<&Anchor>)
        ensures
            match r {
                Some(a) => self.anchors@.contains_key(anchor_id) && *a
                    == self.anchors@[anchor_id],
                None => !self.anchors@.contains_key(anchor_id),
            },
    {
        self.anchors.get(&anchor_id)
    }

    pub fn has_schema(&self, schema_id: u64) -> (r: bool)
        ensures
            r == self.schemas@.contains(schema_id),
    {
        self.schemas.contains(&schema_id)
    }

    pub fn add_schema(&mut self, schema_id: u64)
        requires
            old(self).wf(),
        ensures
            final(self).wf(),
            final(self).schemas@ == old(self).schemas@.insert(schema_id),
            final(self).geneses@ == old(self).geneses@,
            final(self).transitions@ == old(self).transitions@,
            final(self).extensions@ == old(self).extensions@,
            final(self).anchors@ == old(self).anchors@,
            final(self).genesis_ids@ == old(self).genesis_ids@,
            final(self).transition_ids@ == old(self).transition_ids@,
            final(self).extension_ids@ == old(self).extension_ids@,
            final(self).anchor_ids@ == old(self).anchor_ids@,
    {
        self.schemas.insert(schema_id);
    }

    /// Persist a genesis keyed by its identifier. A later value under the
    /// same key replaces the earlier one, which makes re-insertion of
    /// identical content a no-op.
    pub fn add_genesis(&mut self, g: Genesis)
        requires
            old(self).wf(),
        ensures
            final(self).wf(),
            final(self).geneses@ == old(self).geneses@.insert(g.id, g),
            final(self).transitions@ == old(self).transitions@,
            final(self).extensions@ == old(self).extensions@,
            final(self).anchors@ == old(self).anchors@,
            final(self).schemas@ == old(self).schemas@,
            final(self).transition_ids@ == old(self).transition_ids@,
            final(self).extension_ids@ == old(self).extension_ids@,
            final(self).anchor_ids@ == old(self).anchor_ids@,
    {
        let id = g.id;
        let present = self.geneses.contains_key(&id);
        proof {
            if present {
                lemma_log_overwrite(self.geneses@, self.genesis_ids@, id, g);
            } else {
                lemma_log_insert(self.geneses@, self.genesis_ids@, id, g);
            }
        }
        if !present {
            self.genesis_ids.push(id);
        }
        self.geneses.insert(id, g);
    }

    pub fn add_transition(&mut self, t: Transition)
        requires
            old(self).wf(),
        ensures
            final(self).wf(),
            final(self).transitions@ == old(self).transitions@.insert(t.id, t),
            final(self).geneses@ == old(self).geneses@,
            final(self).extensions@ == old(self).extensions@,
            final(self).anchors@ == old(self).anchors@,
            final(self).schemas@ == old(self).schemas@,
            final(self).genesis_ids@ == old(self).genesis_ids@,
            final(self).extension_ids@ == old(self).extension_ids@,
            final(self).anchor_ids@ == old(self).anchor_ids@,
    {
        let id = t.id;
        let present = self.transitions.contains_key(&id);
        proof {
            if present {
                lemma_log_overwrite(self.transitions@, self.transition_ids@, id, t);
            } else {
                lemma_log_insert(self.transitions@, self.transition_ids@, id, t);
            }
        }
        if !present {
            self.transition_ids.push(id);
        }
        self.transitions.insert(id, t);
    }

    pub fn add_extension(&mut self, e: Extension)
        requires
            old(self).wf(),
        ensures
            final(self).wf(),
            final(self).extensions@ == old(self).extensions@.insert(e.id, e),
            final(self).geneses@ == old(self).geneses@,
            final(self).transitions@ == old(self).transitions@,
            final(self).anchors@ == old(self).anchors@,
            final(self).schemas@ == old(self).schemas@,
            final(self).genesis_ids@ == old(self).genesis_ids@,
            final(self).transition_ids@ == old(self).transition_ids@,
            final(self).anchor_ids@ == old(self).anchor_ids@,
    {
        let id = e.id;
        let present = self.extensions.contains_key(&id);
        proof {
            if present {
                lemma_log_overwrite(self.extensions@, self.extension_ids@, id, e);
            } else {
                lemma_log_insert(self.extensions@, self.extension_ids@, id, e);
            }
        }
        if !present {
            self.extension_ids.push(id);
        }
        self.extensions.insert(id, e);
    }

    pub fn add_anchor(&mut self, a: Anchor)
        requires
            old(self).wf(),
        ensures
            final(self).wf(),
            final(self).anchors@ == old(self).anchors@.insert(a.id, a),
            final(self).geneses@ == old(self).geneses@,
            final(self).transitions@ == old(self).transitions@,
            final(self).extensions@ == old(self).extensions@,
            final(self).schemas@ == old(self).schemas@,
            final(self).genesis_ids@ == old(self).genesis_ids@,
            final(self).transition_ids@ == old(self).transition_ids@,
            final(self).extension_ids@ == old(self).extension_ids@,
    {
        let id = a.id;
        let present = self.anchors.contains_key(&id);
        proof {
            if present {
                lemma_log_overwrite(self.anchors@, self.anchor_ids@, id, a);
            } else {
                lemma_log_insert(self.anchors@, self.anchor_ids@, id, a);
            }
        }
        if !present {
            self.anchor_ids.push(id);
        }
        self.anchors.insert(id, a);
    }
}

} // verus!
