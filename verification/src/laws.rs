//! The algebra of concealment, revelation and merging.
//!
//! These laws tie the stash operations together: which items an extraction
//! reveals, which items an ingestion recovers, that concealment is one-way
//! and idempotent, that revelation never changes what a later concealment
//! yields (the heart of the extract-ingest round trip), and that ingesting
//! the same consignment twice stores exactly what ingesting it once does.

use vstd::map::*;
use vstd::prelude::*;

use crate::assign::{
    conceal_item_except_spec, conceal_item_spec, conceal_items_spec, find_known_spec,
    item_fully_concealed, item_seal_commitment, reveal_item_spec, AssignmentView,
    AssignmentsView, SealPartView,
};
use crate::node::{
    conceal_extension_all_spec, conceal_extension_except_spec, conceal_owned_seq_spec,
    conceal_transition_all_spec, conceal_transition_except_spec, reveal_extension_spec,
    reveal_owned_seq_spec, reveal_transition_spec, Anchor, ConsignmentView, ExtensionView,
    OwnedRightsView, TransitionView,
};
use crate::seal::seal_conceal_spec;
use crate::seal::SealDefinition;
use crate::stash::{merge_extensions_spec, merge_spec, merge_transitions_spec, StashView};

verus! {

/// An item of the consigned target stays as it is exactly when the
/// commitment of its seal is among the exposed ones; every other item
/// comes out fully concealed - both halves replaced by commitments, the
/// revealed payload absent.
pub proof fn lemma_conceal_except_pointwise(a: AssignmentView, keep: Seq<Seq<u8>>)
    ensures
        keep.contains(item_seal_commitment(a)) ==> conceal_item_except_spec(a, keep) == a,
        !keep.contains(item_seal_commitment(a)) ==> conceal_item_except_spec(a, keep)
            == conceal_item_spec(a),
        item_fully_concealed(conceal_item_spec(a)),
{
}

/// The first matching known seal exists exactly when some known seal's
/// commitment equals the looked-up one, and what it returns matches.
pub proof fn lemma_find_known_characterization(known: Seq<SealDefinition>, h: Seq<u8>)
    ensures
        (find_known_spec(known, h) is Some) <==> (exists|i: int|
            0 <= i < known.len() && seal_conceal_spec(#[trigger] known[i]) == h),
        find_known_spec(known, h) is Some ==> seal_conceal_spec(
            find_known_spec(known, h)->Some_0,
        ) == h && known.contains(find_known_spec(known, h)->Some_0),
    decreases known.len(),
{
    if known.len() == 0 {
    } else {
        lemma_find_known_characterization(known.drop_first(), h);
        if seal_conceal_spec(known[0]) == h {
            assert(seal_conceal_spec(known[0]) == h);
        } else {
            let rest = known.drop_first();
            if find_known_spec(known, h) is Some {
                let k = find_known_spec(known, h)->Some_0;
                assert(find_known_spec(rest, h) == Some(k));
                assert(rest.contains(k));
                let i = choose|i: int| 0 <= i < rest.len() && rest[i] == k;
                assert(known[i + 1] == k);
            }
            if exists|i: int| 0 <= i < known.len() && seal_conceal_spec(#[trigger] known[i]) == h {
                let i = choose|i: int|
                    0 <= i < known.len() && seal_conceal_spec(#[trigger] known[i]) == h;
                assert(i != 0);
                assert(rest[i - 1] == known[i]);
            }
        }
    }
}

/// Ingestion recovers exactly the seals whose pre-image is known: a
/// concealed seal with a matching known seal becomes revealed (with the
/// first matching seal), one without stays concealed, a revealed seal is
/// left alone, and the state half is never touched - its pre-image is not
/// supplied.
pub proof fn lemma_reveal_pointwise(a: AssignmentView, known: Seq<SealDefinition>)
    ensures
        forall|h: Seq<u8>, k: SealDefinition|
            a.seal == SealPartView::Concealed(h) && find_known_spec(known, h) == Some(k)
                ==> reveal_item_spec(a, known) == (AssignmentView {
                seal: SealPartView::Revealed(k),
                state: a.state,
            }) && seal_conceal_spec(k) == h,
        forall|h: Seq<u8>|
            a.seal == SealPartView::Concealed(h) && find_known_spec(known, h) is None
                ==> reveal_item_spec(a, known) == a,
        a.seal is Revealed ==> reveal_item_spec(a, known) == a,
        reveal_item_spec(a, known).state == a.state,
{
    if a.seal is Concealed {
        let h = a.seal->Concealed_0;
        lemma_find_known_characterization(known, h);
    }
}

/// Concealing twice is concealing once.
pub proof fn lemma_conceal_item_idempotent(a: AssignmentView)
    ensures
        conceal_item_spec(conceal_item_spec(a)) == conceal_item_spec(a),
{
}

/// Partial concealment never changes what full concealment then yields.
pub proof fn lemma_conceal_item_after_except(a: AssignmentView, keep: Seq<Seq<u8>>)
    ensures
        conceal_item_spec(conceal_item_except_spec(a, keep)) == conceal_item_spec(a),
{
}

/// Revelation never changes what full concealment then yields: recovering a
/// seal from its pre-image and concealing it again gives the commitment
/// back.
pub proof fn lemma_conceal_item_after_reveal(a: AssignmentView, known: Seq<SealDefinition>)
    ensures
        conceal_item_spec(reveal_item_spec(a, known)) == conceal_item_spec(a),
{
    lemma_reveal_pointwise(a, known);
    if a.seal is Concealed {
        let h = a.seal->Concealed_0;
        lemma_find_known_characterization(known, h);
    }
}

proof fn lemma_conceal_assignments_after_reveal(a: AssignmentsView, known: Seq<SealDefinition>)
    ensures
        crate::assign::conceal_assignments_spec(crate::assign::reveal_assignments_spec(a, known))
            == crate::assign::conceal_assignments_spec(a),
{
    let ra = crate::assign::reveal_assignments_spec(a, known);
    let items = crate::assign::assignments_items(a);
    let ritems = crate::assign::assignments_items(ra);
    assert forall|j: int|
        0 <= j < items.len() implies conceal_item_spec(#[trigger] ritems[j]) == conceal_item_spec(
        items[j],
    ) by {
        if !(a is Declarative) {
            assert(ritems[j] == reveal_item_spec(items[j], known));
        }
        lemma_conceal_item_after_reveal(items[j], known);
    }
    assert(conceal_items_spec(ritems) =~= conceal_items_spec(items));
}

proof fn lemma_conceal_owned_after_reveal(s: Seq<OwnedRightsView>, known: Seq<SealDefinition>)
    ensures
        conceal_owned_seq_spec(reveal_owned_seq_spec(s, known)) == conceal_owned_seq_spec(s),
{
    let rs = reveal_owned_seq_spec(s, known);
    assert forall|i: int|
        0 <= i < s.len() implies #[trigger] conceal_owned_seq_spec(rs)[i]
            == conceal_owned_seq_spec(s)[i] by {
        lemma_conceal_assignments_after_reveal(s[i].assignments, known);
    }
    assert(conceal_owned_seq_spec(rs) =~= conceal_owned_seq_spec(s));
}

/// Round-trip core for transitions: merging reveals, but a later extraction
/// conceals ancestors fully, and what it conceals to is unchanged.
pub proof fn lemma_conceal_transition_after_reveal(t: TransitionView, known: Seq<SealDefinition>)
    ensures
        conceal_transition_all_spec(reveal_transition_spec(t, known))
            == conceal_transition_all_spec(t),
{
    lemma_conceal_owned_after_reveal(t.owned_rights, known);
}

/// Round-trip core for extensions.
pub proof fn lemma_conceal_extension_after_reveal(e: ExtensionView, known: Seq<SealDefinition>)
    ensures
        conceal_extension_all_spec(reveal_extension_spec(e, known))
            == conceal_extension_all_spec(e),
{
    lemma_conceal_owned_after_reveal(e.owned_rights, known);
}

proof fn lemma_conceal_owned_idempotent_general(s: Seq<OwnedRightsView>, keep: Seq<Seq<u8>>)
    ensures
        conceal_owned_seq_spec(conceal_owned_seq_spec(s)) == conceal_owned_seq_spec(s),
        conceal_owned_seq_spec(crate::node::conceal_owned_seq_except_spec(s, keep))
            == conceal_owned_seq_spec(s),
{
    let cs = conceal_owned_seq_spec(s);
    let es = crate::node::conceal_owned_seq_except_spec(s, keep);
    assert forall|i: int|
        0 <= i < s.len() implies #[trigger] conceal_owned_seq_spec(cs)[i]
            == conceal_owned_seq_spec(s)[i] && conceal_owned_seq_spec(es)[i]
            == conceal_owned_seq_spec(s)[i] by {
        let a = s[i].assignments;
        let items = crate::assign::assignments_items(a);
        let citems = crate::assign::assignments_items(
            crate::assign::conceal_assignments_spec(a),
        );
        let eitems = crate::assign::assignments_items(
            crate::assign::conceal_assignments_except_spec(a, keep),
        );
        assert forall|j: int|
            0 <= j < items.len() implies conceal_item_spec(#[trigger] citems[j])
                == conceal_item_spec(items[j]) && conceal_item_spec(eitems[j])
                == conceal_item_spec(items[j]) by {
            assert(citems[j] == conceal_item_spec(items[j]));
            assert(eitems[j] == conceal_item_except_spec(items[j], keep));
            lemma_conceal_item_idempotent(items[j]);
            lemma_conceal_item_after_except(items[j], keep);
        }
        assert(conceal_items_spec(citems) =~= conceal_items_spec(items));
        assert(conceal_items_spec(eitems) =~= conceal_items_spec(items));
    }
    assert(conceal_owned_seq_spec(cs) =~= conceal_owned_seq_spec(s));
    assert(conceal_owned_seq_spec(es) =~= conceal_owned_seq_spec(s));
}

/// Full concealment of a transition is idempotent, and partial concealment
/// of the target conceals to the same thing: a second extraction of an
/// already concealed ancestor reproduces it exactly.
pub proof fn lemma_conceal_transition_idempotent(t: TransitionView, keep: Seq<Seq<u8>>)
    ensures
        conceal_transition_all_spec(conceal_transition_all_spec(t))
            == conceal_transition_all_spec(t),
        conceal_transition_all_spec(conceal_transition_except_spec(t, keep))
            == conceal_transition_all_spec(t),
{
    lemma_conceal_owned_idempotent_general(t.owned_rights, keep);
}

/// Full concealment of an extension is idempotent in the same way.
pub proof fn lemma_conceal_extension_idempotent(e: ExtensionView, keep: Seq<Seq<u8>>)
    ensures
        conceal_extension_all_spec(conceal_extension_all_spec(e))
            == conceal_extension_all_spec(e),
        conceal_extension_all_spec(conceal_extension_except_spec(e, keep))
            == conceal_extension_all_spec(e),
{
    lemma_conceal_owned_idempotent_general(e.owned_rights, keep);
}

/// The last entry of the list whose transition carries this identifier.
pub open spec fn last_transition_entry(
    es: Seq<(Anchor, TransitionView)>,
    id: u64,
) -> Option<(Anchor, TransitionView)>
    decreases es.len(),
{
    if es.len() == 0 {
        None
    } else {
        let rest = last_transition_entry(es.drop_first(), id);
        if rest is Some {
            rest
        } else if es[0].1.id == id {
            Some(es[0])
        } else {
            None
        }
    }
}

/// The last anchor of the list carrying this identifier.
pub open spec fn last_anchor_entry(es: Seq<(Anchor, TransitionView)>, aid: u64) -> Option<Anchor>
    decreases es.len(),
{
    if es.len() == 0 {
        None
    } else {
        let rest = last_anchor_entry(es.drop_first(), aid);
        if rest is Some {
            rest
        } else if es[0].0.id == aid {
            Some(es[0].0)
        } else {
            None
        }
    }
}

/// The last extension of the list carrying this identifier.
pub open spec fn last_extension_entry(es: Seq<ExtensionView>, id: u64) -> Option<ExtensionView>
    decreases es.len(),
{
    if es.len() == 0 {
        None
    } else {
        let rest = last_extension_entry(es.drop_first(), id);
        if rest is Some {
            rest
        } else if es[0].id == id {
            Some(es[0])
        } else {
            None
        }
    }
}

/// What ingesting a transition list does, key by key: the last entry for a
/// key wins; keys without an entry are untouched; nothing else changes.
pub proof fn lemma_merge_transitions_lookup(
    s: StashView,
    entries: Seq<(Anchor, TransitionView)>,
    known: Seq<SealDefinition>,
)
    ensures
        ({
            let m = merge_transitions_spec(s, entries, known);
            &&& m.geneses == s.geneses
            &&& m.extensions == s.extensions
            &&& m.schemas == s.schemas
            &&& forall|id: u64|
                #![trigger last_transition_entry(entries, id)]
                match last_transition_entry(entries, id) {
                    Some(en) => m.transitions.contains_key(id) && m.transitions[id]
                        == reveal_transition_spec(en.1, known),
                    None => (m.transitions.contains_key(id) <==> s.transitions.contains_key(id))
                        && (s.transitions.contains_key(id) ==> m.transitions[id]
                        == s.transitions[id]),
                }
            &&& forall|aid: u64|
                #![trigger last_anchor_entry(entries, aid)]
                match last_anchor_entry(entries, aid) {
                    Some(a) => m.anchors.contains_key(aid) && m.anchors[aid] == a,
                    None => (m.anchors.contains_key(aid) <==> s.anchors.contains_key(aid)) && (
                    s.anchors.contains_key(aid) ==> m.anchors[aid] == s.anchors[aid]),
                }
            &&& forall|id: u64|
                #![trigger last_transition_entry(entries, id)]
                match last_transition_entry(entries, id) {
                    Some(en) => m.index.contains_key(id) && m.index[id] == en.0.id,
                    None => (m.index.contains_key(id) <==> s.index.contains_key(id)) && (
                    s.index.contains_key(id) ==> m.index[id] == s.index[id]),
                }
        }),
    decreases entries.len(),
{
    if entries.len() == 0 {
    } else {
        let a = entries[0].0;
        let t = reveal_transition_spec(entries[0].1, known);
        let s2 = StashView {
            anchors: s.anchors.insert(a.id, a),
            transitions: s.transitions.insert(t.id, t),
            index: s.index.insert(t.id, a.id),
            ..s
        };
        lemma_merge_transitions_lookup(s2, entries.drop_first(), known);
        assert(t.id == entries[0].1.id);
        let m = merge_transitions_spec(s2, entries.drop_first(), known);
        assert(merge_transitions_spec(s, entries, known) == m);
        assert forall|id: u64|
            #![trigger last_transition_entry(entries, id)]
            match last_transition_entry(entries, id) {
                Some(en) => m.transitions.contains_key(id) && m.transitions[id]
                    == reveal_transition_spec(en.1, known),
                None => (m.transitions.contains_key(id) <==> s.transitions.contains_key(id)) && (
                s.transitions.contains_key(id) ==> m.transitions[id] == s.transitions[id]),
            } by {
            let lr = last_transition_entry(entries.drop_first(), id);
            if lr is None {
                assert((m.transitions.contains_key(id) <==> s2.transitions.contains_key(id)) && (
                s2.transitions.contains_key(id) ==> m.transitions[id] == s2.transitions[id]));
            }
        }
        assert forall|aid: u64|
            #![trigger last_anchor_entry(entries, aid)]
            match last_anchor_entry(entries, aid) {
                Some(x) => m.anchors.contains_key(aid) && m.anchors[aid] == x,
                None => (m.anchors.contains_key(aid) <==> s.anchors.contains_key(aid)) && (
                s.anchors.contains_key(aid) ==> m.anchors[aid] == s.anchors[aid]),
            } by {
            let lr = last_anchor_entry(entries.drop_first(), aid);
            if lr is None {
                assert((m.anchors.contains_key(aid) <==> s2.anchors.contains_key(aid)) && (
                s2.anchors.contains_key(aid) ==> m.anchors[aid] == s2.anchors[aid]));
            }
        }
        assert forall|id: u64|
            #![trigger last_transition_entry(entries, id)]
            match last_transition_entry(entries, id) {
                Some(en) => m.index.contains_key(id) && m.index[id] == en.0.id,
                None => (m.index.contains_key(id) <==> s.index.contains_key(id)) && (
                s.index.contains_key(id) ==> m.index[id] == s.index[id]),
            } by {
            let lr = last_transition_entry(entries.drop_first(), id);
            if lr is None {
                assert((m.index.contains_key(id) <==> s2.index.contains_key(id)) && (
                s2.index.contains_key(id) ==> m.index[id] == s2.index[id]));
            }
        }
    }
}

/// What ingesting an extension list does, key by key.
pub proof fn lemma_merge_extensions_lookup(
    s: StashView,
    entries: Seq<ExtensionView>,
    known: Seq<SealDefinition>,
)
    ensures
        ({
            let m = merge_extensions_spec(s, entries, known);
            &&& m.geneses == s.geneses
            &&& m.transitions == s.transitions
            &&& m.anchors == s.anchors
            &&& m.index == s.index
            &&& m.schemas == s.schemas
            &&& forall|id: u64|
                #![trigger last_extension_entry(entries, id)]
                match last_extension_entry(entries, id) {
                    Some(en) => m.extensions.contains_key(id) && m.extensions[id]
                        == reveal_extension_spec(en, known),
                    None => (m.extensions.contains_key(id) <==> s.extensions.contains_key(id))
                        && (s.extensions.contains_key(id) ==> m.extensions[id]
                        == s.extensions[id]),
                }
        }),
    decreases entries.len(),
{
    if entries.len() == 0 {
    } else {
        let e = reveal_extension_spec(entries[0], known);
        let s2 = StashView { extensions: s.extensions.insert(e.id, e), ..s };
        lemma_merge_extensions_lookup(s2, entries.drop_first(), known);
        assert(e.id == entries[0].id);
        let m = merge_extensions_spec(s2, entries.drop_first(), known);
        assert(merge_extensions_spec(s, entries, known) == m);
        assert forall|id: u64|
            #![trigger last_extension_entry(entries, id)]
            match last_extension_entry(entries, id) {
                Some(en) => m.extensions.contains_key(id) && m.extensions[id]
                    == reveal_extension_spec(en, known),
                None => (m.extensions.contains_key(id) <==> s.extensions.contains_key(id)) && (
                s.extensions.contains_key(id) ==> m.extensions[id] == s.extensions[id]),
            } by {
            let lr = last_extension_entry(entries.drop_first(), id);
            if lr is None {
                assert((m.extensions.contains_key(id) <==> s2.extensions.contains_key(id)) && (
                s2.extensions.contains_key(id) ==> m.extensions[id] == s2.extensions[id]));
            }
        }
    }
}


/// Stash-level round trip: after ingesting a consignment, fully concealing
/// any stored transition or extension it carried yields exactly what fully
/// concealing the carried entry yields. Since an extraction hands ancestors
/// out fully concealed, and full concealment is idempotent, a re-extraction
/// from the receiving stash reproduces each carried ancestor exactly.
pub proof fn lemma_merge_round_trip(s: StashView, c: ConsignmentView, known: Seq<SealDefinition>)
    ensures
        forall|id: u64|
            #![trigger last_transition_entry(c.state_transitions, id)]
            last_transition_entry(c.state_transitions, id) is Some ==> {
                let en = last_transition_entry(c.state_transitions, id)->Some_0;
                let m = merge_spec(s, c, known);
                &&& m.transitions.contains_key(id)
                &&& conceal_transition_all_spec(m.transitions[id]) == conceal_transition_all_spec(
                    en.1,
                )
                &&& m.index.contains_key(id) && m.index[id] == en.0.id
            },
        forall|id: u64|
            #![trigger last_extension_entry(c.state_extensions, id)]
            last_extension_entry(c.state_extensions, id) is Some ==> {
                let en = last_extension_entry(c.state_extensions, id)->Some_0;
                let m = merge_spec(s, c, known);
                &&& m.extensions.contains_key(id)
                &&& conceal_extension_all_spec(m.extensions[id]) == conceal_extension_all_spec(en)
            },
{
    let s1 = StashView { geneses: s.geneses.insert(c.genesis.id, c.genesis), ..s };
    let mt = merge_transitions_spec(s1, c.state_transitions, known);
    let m = merge_extensions_spec(mt, c.state_extensions, known);
    lemma_merge_transitions_lookup(s1, c.state_transitions, known);
    lemma_merge_extensions_lookup(mt, c.state_extensions, known);
    assert forall|id: u64|
        last_transition_entry(c.state_transitions, id) is Some implies {
        let en = last_transition_entry(c.state_transitions, id)->Some_0;
        &&& m.transitions.contains_key(id)
        &&& conceal_transition_all_spec(m.transitions[id]) == conceal_transition_all_spec(en.1)
        &&& m.index.contains_key(id) && m.index[id] == en.0.id
    } by {
        let en = last_transition_entry(c.state_transitions, id)->Some_0;
        assert(m.transitions[id] == reveal_transition_spec(en.1, known));
        lemma_conceal_transition_after_reveal(en.1, known);
    }
    assert forall|id: u64|
        last_extension_entry(c.state_extensions, id) is Some implies {
        let en = last_extension_entry(c.state_extensions, id)->Some_0;
        &&& m.extensions.contains_key(id)
        &&& conceal_extension_all_spec(m.extensions[id]) == conceal_extension_all_spec(en)
    } by {
        let en = last_extension_entry(c.state_extensions, id)->Some_0;
        assert(m.extensions[id] == reveal_extension_spec(en, known));
        lemma_conceal_extension_after_reveal(en, known);
    }
}

/// Ingesting the same consignment twice stores exactly what ingesting it
/// once does: everything is keyed by its own identifier, so the second pass
/// re-writes the same entries.
pub proof fn lemma_merge_idempotent(
    s: StashView,
    c: ConsignmentView,
    known: Seq<SealDefinition>,
)
    ensures
        merge_spec(merge_spec(s, c, known), c, known) == merge_spec(s, c, known),
{
    let s1 = StashView { geneses: s.geneses.insert(c.genesis.id, c.genesis), ..s };
    let m1t = merge_transitions_spec(s1, c.state_transitions, known);
    let m1 = merge_extensions_spec(m1t, c.state_extensions, known);
    let s2 = StashView { geneses: m1.geneses.insert(c.genesis.id, c.genesis), ..m1 };
    let m2t = merge_transitions_spec(s2, c.state_transitions, known);
    let m2 = merge_extensions_spec(m2t, c.state_extensions, known);
    lemma_merge_transitions_lookup(s1, c.state_transitions, known);
    lemma_merge_extensions_lookup(m1t, c.state_extensions, known);
    lemma_merge_transitions_lookup(s2, c.state_transitions, known);
    lemma_merge_extensions_lookup(m2t, c.state_extensions, known);
    assert(m2.geneses =~= m1.geneses);
    assert_maps_equal!(m2.transitions, m1.transitions, k => {
        let le = last_transition_entry(c.state_transitions, k);
    });
    assert_maps_equal!(m2.anchors, m1.anchors, k => {
        let le = last_anchor_entry(c.state_transitions, k);
    });
    assert_maps_equal!(m2.index, m1.index, k => {
        let le = last_transition_entry(c.state_transitions, k);
    });
    assert_maps_equal!(m2.extensions, m1.extensions, k => {
        let le = last_extension_entry(c.state_extensions, k);
    });
    assert(m2.schemas == m1.schemas);
    assert(m2 =~= m1);
    assert(merge_spec(s, c, known) == m1);
    assert(merge_spec(m1, c, known) == m2);
}

} // verus!
