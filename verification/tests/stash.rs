use rgb_stash::assign::{conceal_state, Assignment, Assignments, SealPart, StateData, StatePart};
use rgb_stash::node::{
    Anchor, Consignment, Extension, Genesis, Node, OwnedRights, ParentOwnedRight,
    ParentPublicRight, Transition,
};
use rgb_stash::seal::{conceal_seal, endpoint_conceal, hash_eq, SealDefinition, SealEndpoint};
use rgb_stash::stash::{Error, Runtime};

fn seal(n: u8) -> SealDefinition {
    SealDefinition { txid: [n; 32], vout: n as u32, blinding: 1000 + n as u64 }
}

fn revealed_item(n: u8, amount: u64) -> Assignment {
    Assignment {
        seal: SealPart::Revealed(seal(n)),
        state: StatePart::Revealed(StateData::Amount(amount)),
    }
}

fn owned_rights(items: Vec<Assignment>) -> Vec<OwnedRights> {
    vec![OwnedRights { right_type: 1, assignments: Assignments::DiscreteFiniteField(items) }]
}

fn genesis(id: u64) -> Genesis {
    Genesis { id, schema_id: 7, owned_rights: owned_rights(vec![revealed_item(9, 100)]) }
}

fn transition(id: u64, parents: Vec<u64>, items: Vec<Assignment>) -> Transition {
    Transition {
        id,
        owned_rights: owned_rights(items),
        parent_owned_rights: parents
            .iter()
            .map(|p| ParentOwnedRight { parent: *p, right_type: 1, index: 0 })
            .collect(),
        parent_public_rights: vec![],
    }
}

fn anchor(id: u64) -> Anchor {
    Anchor { id, txid: [id as u8; 32] }
}

/// A stash holding G(1) <- T1(2), T1 anchored by A1(10).
fn simple_stash() -> Runtime {
    let mut rt = Runtime::new();
    rt.storage.add_genesis(genesis(1));
    rt.storage.add_transition(transition(2, vec![1], vec![revealed_item(2, 50)]));
    rt.storage.add_anchor(anchor(10));
    rt.indexer.insert(2, 10);
    rt
}

fn items_of(t: &Transition) -> &Vec<Assignment> {
    match &t.owned_rights[0].assignments {
        Assignments::DiscreteFiniteField(v) => v,
        _ => panic!("unexpected assignment kind"),
    }
}

#[test]
fn consign_simple_scenario() {
    let rt = simple_stash();
    let t1 = transition(2, vec![1], vec![revealed_item(2, 50)]);
    let e1 = SealEndpoint::Revealed(seal(2));
    let c = rt
        .consign(1, &Node::Transition(t1.clone()), Some(&anchor(10)), &vec![e1])
        .expect("consign must succeed");
    assert_eq!(c.genesis, genesis(1));
    assert_eq!(c.endpoints, vec![(2u64, e1)]);
    assert_eq!(c.state_extensions.len(), 0);
    assert_eq!(c.state_transitions.len(), 1);
    assert_eq!(c.state_transitions[0].0, anchor(10));
    // the exposed endpoint keeps its item revealed
    assert_eq!(items_of(&c.state_transitions[0].1), items_of(&t1));
}

#[test]
fn consign_conceals_unexposed_target_items() {
    let rt = simple_stash();
    let t1 = transition(2, vec![1], vec![revealed_item(2, 50), revealed_item(3, 25)]);
    let e1 = SealEndpoint::Revealed(seal(2));
    let c = rt
        .consign(1, &Node::Transition(t1), Some(&anchor(10)), &vec![e1])
        .expect("consign must succeed");
    let items = items_of(&c.state_transitions[0].1);
    assert_eq!(items.len(), 2);
    // exposed item stays revealed
    assert_eq!(items[0], revealed_item(2, 50));
    // the other item is fully concealed: a commitment per half, the
    // revealed payload absent
    assert_eq!(
        items[1],
        Assignment {
            seal: SealPart::Concealed(conceal_seal(&seal(3))),
            state: StatePart::Concealed(conceal_state(&StateData::Amount(25))),
        }
    );
}

#[test]
fn consign_genesis_is_rejected() {
    let rt = simple_stash();
    let r = rt.consign(1, &Node::Genesis(genesis(1)), None, &vec![]);
    assert_eq!(r, Err(Error::GenesisNode));
}

#[test]
fn consign_transition_needs_anchor() {
    let rt = simple_stash();
    let t1 = transition(2, vec![1], vec![revealed_item(2, 50)]);
    let r = rt.consign(1, &Node::Transition(t1), None, &vec![]);
    assert_eq!(r, Err(Error::AnchorParameterIsRequired));
}

#[test]
fn consign_missing_genesis_is_storage_error() {
    let rt = Runtime::new();
    let t1 = transition(2, vec![1], vec![]);
    let r = rt.consign(1, &Node::Transition(t1), Some(&anchor(10)), &vec![]);
    assert_eq!(r, Err(Error::StorageError));
}

#[test]
fn consign_unindexed_ancestor_is_index_error() {
    let mut rt = Runtime::new();
    rt.storage.add_genesis(genesis(1));
    rt.storage.add_transition(transition(2, vec![1], vec![]));
    // no index entry for node 2
    let t3 = transition(3, vec![2], vec![]);
    let r = rt.consign(1, &Node::Transition(t3), Some(&anchor(11)), &vec![]);
    assert_eq!(r, Err(Error::IndexError));
}

#[test]
fn consign_missing_ancestor_is_storage_error() {
    let mut rt = Runtime::new();
    rt.storage.add_genesis(genesis(1));
    rt.storage.add_anchor(anchor(10));
    rt.indexer.insert(2, 10);
    // node 2 is indexed and anchored but stored neither as transition nor
    // as extension
    let t3 = transition(3, vec![2], vec![]);
    let r = rt.consign(1, &Node::Transition(t3), Some(&anchor(11)), &vec![]);
    assert_eq!(r, Err(Error::StorageError));
}

#[test]
fn consign_ambiguous_ancestor_is_storage_error() {
    let mut rt = Runtime::new();
    rt.storage.add_genesis(genesis(1));
    rt.storage.add_transition(transition(2, vec![1], vec![]));
    rt.storage.add_extension(Extension {
        id: 2,
        owned_rights: vec![],
        parent_owned_rights: vec![],
        parent_public_rights: vec![],
    });
    rt.storage.add_anchor(anchor(10));
    rt.indexer.insert(2, 10);
    let t3 = transition(3, vec![2], vec![]);
    let r = rt.consign(1, &Node::Transition(t3), Some(&anchor(11)), &vec![]);
    assert_eq!(r, Err(Error::StorageError));
}

/// Ancestor closure on a branching graph of depth three: the consignment of
/// a leaf contains every ancestor, each fully concealed.
#[test]
fn consign_closure_on_branching_graph() {
    let mut rt = Runtime::new();
    rt.storage.add_genesis(genesis(1));
    for (id, parents, aid) in [
        (2u64, vec![1u64], 10u64),
        (3, vec![1], 11),
        (4, vec![2, 3], 12),
        (5, vec![4, 2], 13),
    ] {
        rt.storage.add_transition(transition(id, parents.clone(), vec![revealed_item(
            id as u8, id,
        )]));
        rt.storage.add_anchor(anchor(aid));
        rt.indexer.insert(id, aid);
    }
    let leaf = transition(6, vec![5, 3], vec![revealed_item(6, 1)]);
    let c = rt
        .consign(1, &Node::Transition(leaf), Some(&anchor(14)), &vec![])
        .expect("consign must succeed");
    // closure: every parent referenced by an included transition is genesis
    // or included
    let included: Vec<u64> = c.state_transitions.iter().map(|(_, t)| t.id).collect();
    for (_, t) in &c.state_transitions {
        for p in &t.parent_owned_rights {
            assert!(p.parent == 1 || included.contains(&p.parent));
        }
    }
    // ancestors 2..=5 are all included exactly once, leaf first
    assert_eq!(c.state_transitions[0].1.id, 6);
    let mut ancestors = included[1..].to_vec();
    ancestors.sort();
    assert_eq!(ancestors, vec![2, 3, 4, 5]);
    // every ancestor item is fully concealed
    for (_, t) in &c.state_transitions[1..] {
        for item in items_of(t) {
            assert!(matches!(item.seal, SealPart::Concealed(_)));
            assert!(matches!(item.state, StatePart::Concealed(_)));
        }
    }
}

/// Extract on one stash, ingest into a fresh one, extract again: the second
/// consignment equals the first.
#[test]
fn consign_merge_consign_round_trip() {
    let rt_a = simple_stash();
    let t1 = transition(2, vec![1], vec![revealed_item(2, 50), revealed_item(3, 25)]);
    let e1 = SealEndpoint::Revealed(seal(2));
    let node = Node::Transition(t1);
    let a1 = anchor(10);
    let c = rt_a.consign(1, &node, Some(&a1), &vec![e1]).expect("first consign");
    let mut rt_b = Runtime::new();
    rt_b.merge(&c, &vec![]).expect("merge");
    let c2 = rt_b.consign(1, &node, Some(&a1), &vec![e1]).expect("second consign");
    assert_eq!(c, c2);
}

/// The round trip holds too when the receiving stash reveals items from
/// known seals: re-extraction conceals them again to the same commitment.
#[test]
fn round_trip_with_revelation() {
    let rt_a = simple_stash();
    let t1 = transition(2, vec![1], vec![revealed_item(2, 50), revealed_item(3, 25)]);
    let node = Node::Transition(t1);
    let a1 = anchor(10);
    let c = rt_a.consign(1, &node, Some(&a1), &vec![]).expect("first consign");
    let mut rt_b = Runtime::new();
    rt_b.merge(&c, &vec![seal(3)]).expect("merge");
    let c2 = rt_b.consign(1, &node, Some(&a1), &vec![]).expect("second consign");
    assert_eq!(c, c2);
}

/// Merging the same consignment twice stores exactly what merging it once
/// does.
#[test]
fn merge_is_idempotent() {
    let rt_a = simple_stash();
    let t1 = transition(2, vec![1], vec![revealed_item(2, 50)]);
    let c = rt_a
        .consign(1, &Node::Transition(t1), Some(&anchor(10)), &vec![])
        .expect("consign");
    let known = vec![seal(2)];
    let mut once = Runtime::new();
    once.merge(&c, &known).expect("merge once");
    let mut twice = Runtime::new();
    twice.merge(&c, &known).expect("merge first");
    twice.merge(&c, &known).expect("merge second");
    assert_eq!(once.storage.geneses, twice.storage.geneses);
    assert_eq!(once.storage.transitions, twice.storage.transitions);
    assert_eq!(once.storage.extensions, twice.storage.extensions);
    assert_eq!(once.storage.anchors, twice.storage.anchors);
    assert_eq!(once.indexer.index, twice.indexer.index);
}

/// A concealed item whose seal pre-image is among the known seals has its
/// seal revealed after the merge; one without a matching pre-image stays
/// concealed, and hidden state is never recovered from a seal pre-image.
#[test]
fn merge_reveals_known_seals() {
    let state_commitment = conceal_state(&StateData::Amount(50));
    let concealed_known = Assignment {
        seal: SealPart::Concealed(conceal_seal(&seal(4))),
        state: StatePart::Concealed(state_commitment),
    };
    let concealed_unknown = Assignment {
        seal: SealPart::Concealed(conceal_seal(&seal(5))),
        state: StatePart::Concealed(conceal_state(&StateData::Amount(25))),
    };
    let t1 = transition(2, vec![1], vec![concealed_known, concealed_unknown.clone()]);
    let c = Consignment {
        genesis: genesis(1),
        endpoints: vec![],
        state_transitions: vec![(anchor(10), t1)],
        state_extensions: vec![],
    };
    let mut rt = Runtime::new();
    rt.merge(&c, &vec![seal(4)]).expect("merge");
    let stored = rt.get_transition(2).expect("stored transition");
    let items = items_of(&stored);
    // the matching item's seal is revealed; its state stays a commitment,
    // since known seals supply no state pre-image
    assert_eq!(
        items[0],
        Assignment {
            seal: SealPart::Revealed(seal(4)),
            state: StatePart::Concealed(state_commitment),
        }
    );
    assert_eq!(items[1], concealed_unknown);
}

/// Merging also persists the genesis and the index entry, so the receiving
/// stash can consign on its own.
#[test]
fn merge_persists_everything() {
    let rt_a = simple_stash();
    let t1 = transition(2, vec![1], vec![revealed_item(2, 50)]);
    let c = rt_a
        .consign(1, &Node::Transition(t1), Some(&anchor(10)), &vec![])
        .expect("consign");
    let mut rt_b = Runtime::new();
    rt_b.merge(&c, &vec![]).expect("merge");
    assert_eq!(rt_b.get_genesis(1).expect("genesis"), genesis(1));
    assert!(rt_b.get_transition(2).is_ok());
    assert_eq!(rt_b.get_anchor(10).expect("anchor"), anchor(10));
    assert_eq!(rt_b.indexer.anchor_id_by_transition_id(2), Some(10));
}

/// Extensions travel through consign and merge without anchors.
#[test]
fn extension_ancestors_are_carried() {
    let mut rt = Runtime::new();
    rt.storage.add_genesis(genesis(1));
    rt.storage.add_extension(Extension {
        id: 2,
        owned_rights: owned_rights(vec![revealed_item(2, 10)]),
        parent_owned_rights: vec![],
        parent_public_rights: vec![ParentPublicRight { parent: 1, right_type: 3 }],
    });
    rt.storage.add_transition(transition(3, vec![2], vec![revealed_item(3, 5)]));
    rt.storage.add_anchor(anchor(10));
    rt.indexer.insert(3, 10);
    rt.storage.add_anchor(anchor(11));
    rt.indexer.insert(2, 11);
    let leaf = transition(4, vec![3], vec![revealed_item(4, 1)]);
    let c = rt
        .consign(1, &Node::Transition(leaf), Some(&anchor(12)), &vec![])
        .expect("consign");
    assert_eq!(c.state_extensions.len(), 1);
    assert_eq!(c.state_extensions[0].id, 2);
    let mut rt_b = Runtime::new();
    rt_b.merge(&c, &vec![]).expect("merge");
    assert!(rt_b.get_extension(2).is_ok());
}

/// Consigning an extension target: no anchor is needed.
#[test]
fn consign_extension_target() {
    let mut rt = Runtime::new();
    rt.storage.add_genesis(genesis(1));
    let ext = Extension {
        id: 2,
        owned_rights: owned_rights(vec![revealed_item(2, 10)]),
        parent_owned_rights: vec![],
        parent_public_rights: vec![ParentPublicRight { parent: 1, right_type: 3 }],
    };
    let c = rt.consign(1, &Node::Extension(ext.clone()), None, &vec![]).expect("consign");
    assert_eq!(c.state_transitions.len(), 0);
    assert_eq!(c.state_extensions.len(), 1);
    assert_eq!(c.state_extensions[0].id, 2);
}

/// The concealment commitment is a digest, not the seal handed back: two
/// different seals conceal to different commitments, and concealing the
/// same seal twice gives the same commitment.
#[test]
fn concealment_is_a_deterministic_digest() {
    let h1 = conceal_seal(&seal(1));
    let h1b = conceal_seal(&seal(1));
    let h2 = conceal_seal(&seal(2));
    assert!(hash_eq(&h1, &h1b));
    assert!(!hash_eq(&h1, &h2));
    assert_ne!(h1, seal(1).txid);
    // state commitments hide the payload too, deterministically
    assert_eq!(conceal_state(&StateData::Amount(7)), conceal_state(&StateData::Amount(7)));
    assert_ne!(conceal_state(&StateData::Amount(7)), conceal_state(&StateData::Amount(8)));
    assert_ne!(conceal_state(&StateData::Void), conceal_state(&StateData::Data(vec![0])));
    // a concealed endpoint carries its commitment unchanged
    assert_eq!(endpoint_conceal(&SealEndpoint::Concealed(h2)), h2);
    assert_eq!(endpoint_conceal(&SealEndpoint::Revealed(seal(1))), h1);
}

#[test]
fn schema_and_stub_surface() {
    let mut rt = Runtime::new();
    rt.storage.add_schema(7);
    assert_eq!(rt.get_schema(7), Ok(7));
    assert_eq!(rt.get_schema(8), Err(Error::StorageError));
    let c = Consignment {
        genesis: genesis(1),
        endpoints: vec![],
        state_transitions: vec![],
        state_extensions: vec![],
    };
    assert_eq!(rt.forget(&c), Ok(0));
    assert_eq!(rt.prune(), Ok(0));
    assert!(rt.disclose().is_ok());
}

#[test]
fn point_lookups_report_missing_entries() {
    let rt = Runtime::new();
    assert_eq!(rt.get_genesis(1), Err(Error::StorageError));
    assert_eq!(rt.get_transition(1), Err(Error::StorageError));
    assert_eq!(rt.get_extension(1), Err(Error::StorageError));
    assert_eq!(rt.get_anchor(1), Err(Error::StorageError));
}

#[test]
fn iterators_enumerate_stored_entities() {
    let rt = simple_stash();
    let mut gi = rt.genesis_iter();
    assert_eq!(gi.remaining(), 1);
    assert_eq!(gi.peek().expect("one genesis").id, 1);
    gi.advance();
    assert!(gi.peek().is_none());
    gi.rewind();
    assert_eq!(gi.remaining(), 1);
    let ti = rt.transition_iter();
    assert_eq!(ti.remaining(), 1);
    assert_eq!(ti.peek().expect("one transition").id, 2);
    assert_eq!(rt.extension_iter().remaining(), 0);
    let ai = rt.anchor_iter();
    assert_eq!(ai.peek().expect("one anchor").id, 10);
    let mut nids = Vec::new();
    let mut ni = rt.nid_iter();
    while let Some(id) = ni.peek() {
        nids.push(*id);
        ni.advance();
    }
    nids.sort();
    assert_eq!(nids, vec![1, 2]);
}

/// Re-adding a value under the same identifier replaces it; the store keys
/// everything by the value's own identifier.
#[test]
fn store_is_keyed_and_idempotent() {
    let mut rt = Runtime::new();
    rt.storage.add_genesis(genesis(1));
    rt.storage.add_genesis(genesis(1));
    assert_eq!(rt.genesis_iter().remaining(), 1);
    assert_eq!(rt.get_genesis(1), Ok(genesis(1)));
}
