//! Vertices of the contract state graph and the consignment artifact.
//!
//! The graph is a DAG of content-addressed nodes: the unique genesis root,
//! ledger-anchored state transitions, and anchor-free state extensions.
//! Parent links are stored as plain identifiers and resolved through the
//! store on demand.

use vstd::prelude::*;

use crate::assign::{
    assignments_all_concealed, assignments_items, conceal_assignments,
    conceal_assignments_except, conceal_assignments_except_spec, conceal_assignments_spec,
    conceal_item_spec, conceal_items_spec, dup_assignments, reveal_assignments,
    reveal_assignments_spec, Assignments, AssignmentsView,
};
use crate::seal::{hashes_view, SealDefinition, SealEndpoint};

verus! {

/// One consumed parent reference: the parent node, the owned-rights type
/// consumed from it, and the index of the consumed assignment.
#[derive(Clone, Copy, PartialEq, Eq, Debug)]
pub struct ParentOwnedRight {
    pub parent: u64,
    pub right_type: u16,
    pub index: u16,
}

/// One observed parent reference: the parent node and the public-rights type
/// referenced without being consumed.
#[derive(Clone, Copy, PartialEq, Eq, Debug)]
pub struct ParentPublicRight {
    pub parent: u64,
    pub right_type: u16,
}

/// All assignments of one owned-rights type.
#[derive(Clone, PartialEq, Eq, Debug)]
pub struct OwnedRights {
    pub right_type: u16,
    pub assignments: Assignments,
}

#[verifier::ext_equal]
pub struct OwnedRightsView {
    pub right_type: u16,
    pub assignments: AssignmentsView,
}

impl View for OwnedRights {
    type V = OwnedRightsView;

    open spec fn view(&self) -> OwnedRightsView {
        OwnedRightsView { right_type: self.right_type, assignments: self.assignments@ }
    }
}

pub open spec fn owned_seq_view(s: Seq<OwnedRights>) -> Seq<OwnedRightsView> {
    s.map_values(|o: OwnedRights| o@)
}

/// The unique root node of a contract; its identifier is the contract
/// identifier.
#[derive(Clone, PartialEq, Eq, Debug)]
pub struct Genesis {
    pub id: u64,
    pub schema_id: u64,
    pub owned_rights: Vec<OwnedRights>,
}

#[verifier::ext_equal]
pub struct GenesisView {
    pub id: u64,
    pub schema_id: u64,
    pub owned_rights: Seq<OwnedRightsView>,
}

impl View for Genesis {
    type V = GenesisView;

    open spec fn view(&self) -> GenesisView {
        GenesisView {
            id: self.id,
            schema_id: self.schema_id,
            owned_rights: owned_seq_view(self.owned_rights@),
        }
    }
}

/// A non-root node bound to the base ledger through exactly one anchor.
#[derive(Clone, PartialEq, Eq, Debug)]
pub struct Transition {
    pub id: u64,
    pub owned_rights: Vec<OwnedRights>,
    pub parent_owned_rights: Vec<ParentOwnedRight>,
    pub parent_public_rights: Vec<ParentPublicRight>,
}

#[verifier::ext_equal]
pub struct TransitionView {
    pub id: u64,
    pub owned_rights: Seq<OwnedRightsView>,
    pub parent_owned_rights: Seq<ParentOwnedRight>,
    pub parent_public_rights: Seq<ParentPublicRight>,
}

impl View for Transition {
    type V = TransitionView;

    open spec fn view(&self) -> TransitionView {
        TransitionView {
            id: self.id,
            owned_rights: owned_seq_view(self.owned_rights@),
            parent_owned_rights: self.parent_owned_rights@,
            parent_public_rights: self.parent_public_rights@,
        }
    }
}

/// A non-root node extending public rights without a ledger anchor.
#[derive(Clone, PartialEq, Eq, Debug)]
pub struct Extension {
    pub id: u64,
    pub owned_rights: Vec<OwnedRights>,
    pub parent_owned_rights: Vec<ParentOwnedRight>,
    pub parent_public_rights: Vec<ParentPublicRight>,
}

#[verifier::ext_equal]
pub struct ExtensionView {
    pub id: u64,
    pub owned_rights: Seq<OwnedRightsView>,
    pub parent_owned_rights: Seq<ParentOwnedRight>,
    pub parent_public_rights: Seq<ParentPublicRight>,
}

impl View for Extension {
    type V = ExtensionView;

    open spec fn view(&self) -> ExtensionView {
        ExtensionView {
            id: self.id,
            owned_rights: owned_seq_view(self.owned_rights@),
            parent_owned_rights: self.parent_owned_rights@,
            parent_public_rights: self.parent_public_rights@,
        }
    }
}

/// A commitment structure proving that a transition was accepted at a
/// specific point of the base ledger's history; opaque to the stash.
#[derive(Clone, Copy, PartialEq, Eq, Debug)]
pub struct Anchor {
    pub id: u64,
    pub txid: [u8; 32],
}

/// A vertex of the contract graph, as handed to `consign`.
#[derive(Clone, PartialEq, Eq, Debug)]
pub enum Node {
    Genesis(Genesis),
    Transition(Transition),
    Extension(Extension),
}

#[verifier::ext_equal]
pub enum NodeView {
    Genesis(GenesisView),
    Transition(TransitionView),
    Extension(ExtensionView),
}

impl View for Node {
    type V = NodeView;

    open spec fn view(&self) -> NodeView {
        match self {
            Node::Genesis(g) => NodeView::Genesis(g@),
            Node::Transition(t) => NodeView::Transition(t@),
            Node::Extension(e) => NodeView::Extension(e@),
        }
    }
}

pub open spec fn node_id_spec(n: NodeView) -> u64 {
    match n {
        NodeView::Genesis(g) => g.id,
        NodeView::Transition(t) => t.id,
        NodeView::Extension(e) => e.id,
    }
}

/// All parent identifiers referenced by a node: owned-rights parents first,
/// then public-rights parents.
pub open spec fn parent_ids_of(
    owned: Seq<ParentOwnedRight>,
    public: Seq<ParentPublicRight>,
) -> Seq<u64> {
    owned.map_values(|p: ParentOwnedRight| p.parent) + public.map_values(
        |p: ParentPublicRight| p.parent,
    )
}

pub open spec fn transition_parent_ids(t: TransitionView) -> Seq<u64> {
    parent_ids_of(t.parent_owned_rights, t.parent_public_rights)
}

pub open spec fn extension_parent_ids(e: ExtensionView) -> Seq<u64> {
    parent_ids_of(e.parent_owned_rights, e.parent_public_rights)
}

pub open spec fn node_parent_ids(n: NodeView) -> Seq<u64> {
    match n {
        NodeView::Genesis(_) => Seq::empty(),
        NodeView::Transition(t) => transition_parent_ids(t),
        NodeView::Extension(e) => extension_parent_ids(e),
    }
}

pub open spec fn conceal_owned_seq_spec(s: Seq<OwnedRightsView>) -> Seq<OwnedRightsView> {
    s.map_values(
        |o: OwnedRightsView| OwnedRightsView {
            right_type: o.right_type,
            assignments: conceal_assignments_spec(o.assignments),
        },
    )
}

pub open spec fn conceal_owned_seq_except_spec(
    s: Seq<OwnedRightsView>,
    keep: Seq<Seq<u8>>,
) -> Seq<OwnedRightsView> {
    s.map_values(
        |o: OwnedRightsView| OwnedRightsView {
            right_type: o.right_type,
            assignments: conceal_assignments_except_spec(o.assignments, keep),
        },
    )
}

pub open spec fn reveal_owned_seq_spec(
    s: Seq<OwnedRightsView>,
    known: Seq<SealDefinition>,
) -> Seq<OwnedRightsView> {
    s.map_values(
        |o: OwnedRightsView| OwnedRightsView {
            right_type: o.right_type,
            assignments: reveal_assignments_spec(o.assignments, known),
        },
    )
}

/// Whether every assignment item of every group is concealed.
pub open spec fn owned_seq_all_concealed(s: Seq<OwnedRightsView>) -> bool {
    forall|i: int| 0 <= i < s.len() ==> assignments_all_concealed(#[trigger] s[i].assignments)
}

/// Full concealment leaves no revealed item behind.
pub proof fn lemma_conceal_owned_all_concealed(s: Seq<OwnedRightsView>)
    ensures
        owned_seq_all_concealed(conceal_owned_seq_spec(s)),
{
    let cs = conceal_owned_seq_spec(s);
    assert forall|i: int|
        0 <= i < cs.len() implies assignments_all_concealed(#[trigger] cs[i].assignments) by {
        let items = assignments_items(s[i].assignments);
        let citems = assignments_items(cs[i].assignments);
        assert(citems =~= conceal_items_spec(items));
        assert forall|j: int|
            0 <= j < citems.len() implies crate::assign::item_fully_concealed(citems[j]) by {
            assert(citems[j] == conceal_item_spec(items[j]));
        }
    }
}

/// Full concealment of a transition: all assignment items concealed, the
/// structural links untouched.
pub open spec fn conceal_transition_all_spec(t: TransitionView) -> TransitionView {
    TransitionView { owned_rights: conceal_owned_seq_spec(t.owned_rights), ..t }
}

pub open spec fn conceal_transition_except_spec(t: TransitionView, keep: Seq<Seq<u8>>) -> TransitionView {
    TransitionView { owned_rights: conceal_owned_seq_except_spec(t.owned_rights, keep), ..t }
}

pub open spec fn reveal_transition_spec(t: TransitionView, known: Seq<SealDefinition>) -> TransitionView {
    TransitionView { owned_rights: reveal_owned_seq_spec(t.owned_rights, known), ..t }
}

pub open spec fn conceal_extension_all_spec(e: ExtensionView) -> ExtensionView {
    ExtensionView { owned_rights: conceal_owned_seq_spec(e.owned_rights), ..e }
}

pub open spec fn conceal_extension_except_spec(e: ExtensionView, keep: Seq<Seq<u8>>) -> ExtensionView {
    ExtensionView { owned_rights: conceal_owned_seq_except_spec(e.owned_rights, keep), ..e }
}

pub open spec fn reveal_extension_spec(e: ExtensionView, known: Seq<SealDefinition>) -> ExtensionView {
    ExtensionView { owned_rights: reveal_owned_seq_spec(e.owned_rights, known), ..e }
}

fn dup_parent_owned(v: &Vec<ParentOwnedRight>) -> (r: Vec<ParentOwnedRight>)
    ensures
        r@ == v@,
{
    let mut r: Vec<ParentOwnedRight> = Vec::new();
    let mut i: usize = 0;
    while i < v.len()
        invariant
            i <= v.len(),
            r@.len() == i,
            forall|k: int| 0 <= k < i ==> r@[k] == v@[k],
        decreases v.len() - i,
    {
        r.push(v[i]);
        i = i + 1;
    }
    proof {
        assert(r@ =~= v@);
    }
    r
}

fn dup_parent_public(v: &Vec<ParentPublicRight>) -> (r: Vec<ParentPublicRight>)
    ensures
        r@ == v@,
{
    let mut r: Vec<ParentPublicRight> = Vec::new();
    let mut i: usize = 0;
    while i < v.len()
        invariant
            i <= v.len(),
            r@.len() == i,
            forall|k: int| 0 <= k < i ==> r@[k] == v@[k],
        decreases v.len() - i,
    {
        r.push(v[i]);
        i = i + 1;
    }
    proof {
        assert(r@ =~= v@);
    }
    r
}

pub fn dup_owned_seq(v: &Vec<OwnedRights>) -> (r: Vec<OwnedRights>)
    ensures
        owned_seq_view(r@) == owned_seq_view(v@),
{
    let mut r: Vec<OwnedRights> = Vec::new();
    let mut i: usize = 0;
    while i < v.len()
        invariant
            i <= v.len(),
            r@.len() == i,
            forall|k: int| 0 <= k < i ==> r@[k]@ == (v@[k]@),
        decreases v.len() - i,
    {
        r.push(
            OwnedRights {
                right_type: v[i].right_type,
                assignments: dup_assignments(&v[i].assignments),
            },
        );
        i = i + 1;
    }
    proof {
        assert(owned_seq_view(r@) =~= owned_seq_view(v@));
    }
    r
}

fn conceal_owned_seq(v: &Vec<OwnedRights>) -> (r: Vec<OwnedRights>)
    ensures
        owned_seq_view(r@) == conceal_owned_seq_spec(owned_seq_view(v@)),
{
    let mut r: Vec<OwnedRights> = Vec::new();
    let mut i: usize = 0;
    while i < v.len()
        invariant
            i <= v.len(),
            r@.len() == i,
            forall|k: int| 0 <= k < i ==> r@[k]@ == (OwnedRightsView { right_type: v@[k]@.right_type, assignments: conceal_assignments_spec(v@[k]@.assignments) }),
        decreases v.len() - i,
    {
        r.push(
            OwnedRights {
                right_type: v[i].right_type,
                assignments: conceal_assignments(&v[i].assignments),
            },
        );
        i = i + 1;
    }
    proof {
        assert(owned_seq_view(r@) =~= conceal_owned_seq_spec(owned_seq_view(v@)));
    }
    r
}

fn conceal_owned_seq_except(v: &Vec<OwnedRights>, keep: &Vec<[u8; 32]>) -> (r: Vec<OwnedRights>)
    ensures
        owned_seq_view(r@) == conceal_owned_seq_except_spec(owned_seq_view(v@), hashes_view(keep@)),
{
    let mut r: Vec<OwnedRights> = Vec::new();
    let mut i: usize = 0;
    while i < v.len()
        invariant
            i <= v.len(),
            r@.len() == i,
            forall|k: int| 0 <= k < i ==> r@[k]@ == (OwnedRightsView { right_type: v@[k]@.right_type, assignments: conceal_assignments_except_spec(v@[k]@.assignments, hashes_view(keep@)) }),
        decreases v.len() - i,
    {
        r.push(
            OwnedRights {
                right_type: v[i].right_type,
                assignments: conceal_assignments_except(&v[i].assignments, keep),
            },
        );
        i = i + 1;
    }
    proof {
        assert(owned_seq_view(r@) =~= conceal_owned_seq_except_spec(owned_seq_view(v@), hashes_view(keep@)));
    }
    r
}

fn reveal_owned_seq(v: &Vec<OwnedRights>, known: &Vec<SealDefinition>) -> (r: Vec<OwnedRights>)
    ensures
        owned_seq_view(r@) == reveal_owned_seq_spec(owned_seq_view(v@), known@),
{
    let mut r: Vec<OwnedRights> = Vec::new();
    let mut i: usize = 0;
    while i < v.len()
        invariant
            i <= v.len(),
            r@.len() == i,
            forall|k: int| 0 <= k < i ==> r@[k]@ == (OwnedRightsView { right_type: v@[k]@.right_type, assignments: reveal_assignments_spec(v@[k]@.assignments, known@) }),
        decreases v.len() - i,
    {
        r.push(
            OwnedRights {
                right_type: v[i].right_type,
                assignments: reveal_assignments(&v[i].assignments, known),
            },
        );
        i = i + 1;
    }
    proof {
        assert(owned_seq_view(r@) =~= reveal_owned_seq_spec(owned_seq_view(v@), known@));
    }
    r
}

pub fn dup_genesis(g: &Genesis) -> (r: Genesis)
    ensures
        r@ == g@,
{
    Genesis { id: g.id, schema_id: g.schema_id, owned_rights: dup_owned_seq(&g.owned_rights) }
}

pub fn dup_transition(t: &Transition) -> (r: Transition)
    ensures
        r@ == t@,
{
    Transition {
        id: t.id,
        owned_rights: dup_owned_seq(&t.owned_rights),
        parent_owned_rights: dup_parent_owned(&t.parent_owned_rights),
        parent_public_rights: dup_parent_public(&t.parent_public_rights),
    }
}

pub fn dup_extension(e: &Extension) -> (r: Extension)
    ensures
        r@ == e@,
{
    Extension {
        id: e.id,
        owned_rights: dup_owned_seq(&e.owned_rights),
        parent_owned_rights: dup_parent_owned(&e.parent_owned_rights),
        parent_public_rights: dup_parent_public(&e.parent_public_rights),
    }
}

pub fn conceal_transition_all(t: &Transition) -> (r: Transition)
    ensures
        r@ == conceal_transition_all_spec(t@),
{
    Transition {
        id: t.id,
        owned_rights: conceal_owned_seq(&t.owned_rights),
        parent_owned_rights: dup_parent_owned(&t.parent_owned_rights),
        parent_public_rights: dup_parent_public(&t.parent_public_rights),
    }
}

pub fn conceal_transition_except(t: &Transition, keep: &Vec<[u8; 32]>) -> (r: Transition)
    ensures
        r@ == conceal_transition_except_spec(t@, hashes_view(keep@)),
{
    Transition {
        id: t.id,
        owned_rights: conceal_owned_seq_except(&t.owned_rights, keep),
        parent_owned_rights: dup_parent_owned(&t.parent_owned_rights),
        parent_public_rights: dup_parent_public(&t.parent_public_rights),
    }
}

pub fn reveal_transition(t: &Transition, known: &Vec<SealDefinition>) -> (r: Transition)
    ensures
        r@ == reveal_transition_spec(t@, known@),
{
    Transition {
        id: t.id,
        owned_rights: reveal_owned_seq(&t.owned_rights, known),
        parent_owned_rights: dup_parent_owned(&t.parent_owned_rights),
        parent_public_rights: dup_parent_public(&t.parent_public_rights),
    }
}

pub fn conceal_extension_all(e: &Extension) -> (r: Extension)
    ensures
        r@ == conceal_extension_all_spec(e@),
{
    Extension {
        id: e.id,
        owned_rights: conceal_owned_seq(&e.owned_rights),
        parent_owned_rights: dup_parent_owned(&e.parent_owned_rights),
        parent_public_rights: dup_parent_public(&e.parent_public_rights),
    }
}

pub fn conceal_extension_except(e: &Extension, keep: &Vec<[u8; 32]>) -> (r: Extension)
    ensures
        r@ == conceal_extension_except_spec(e@, hashes_view(keep@)),
{
    Extension {
        id: e.id,
        owned_rights: conceal_owned_seq_except(&e.owned_rights, keep),
        parent_owned_rights: dup_parent_owned(&e.parent_owned_rights),
        parent_public_rights: dup_parent_public(&e.parent_public_rights),
    }
}

pub fn reveal_extension(e: &Extension, known: &Vec<SealDefinition>) -> (r: Extension)
    ensures
        r@ == reveal_extension_spec(e@, known@),
{
    Extension {
        id: e.id,
        owned_rights: reveal_owned_seq(&e.owned_rights, known),
        parent_owned_rights: dup_parent_owned(&e.parent_owned_rights),
        parent_public_rights: dup_parent_public(&e.parent_public_rights),
    }
}

/// Collect all parent identifiers of a transition or extension.
pub fn collect_parent_ids(
    owned: &Vec<ParentOwnedRight>,
    public: &Vec<ParentPublicRight>,
) -> (r: Vec<u64>)
    ensures
        r@ == parent_ids_of(owned@, public@),
{
    let mut r: Vec<u64> = Vec::new();
    let mut i: usize = 0;
    while i < owned.len()
        invariant
            i <= owned.len(),
            r@ =~= owned@.subrange(0, i as int).map_values(|p: ParentOwnedRight| p.parent),
        decreases owned.len() - i,
    {
        r.push(owned[i].parent);
        i = i + 1;
    }
    proof {
        assert(owned@.subrange(0, owned@.len() as int) =~= owned@);
        assert(r@ =~= owned@.map_values(|p: ParentOwnedRight| p.parent));
    }
    let mut j: usize = 0;
    while j < public.len()
        invariant
            j <= public.len(),
            r@ =~= owned@.map_values(|p: ParentOwnedRight| p.parent) + public@.subrange(
                0,
                j as int,
            ).map_values(|p: ParentPublicRight| p.parent),
        decreases public.len() - j,
    {
        r.push(public[j].parent);
        j = j + 1;
    }
    proof {
        assert(public@.subrange(0, public@.len() as int) =~= public@);
        assert(r@ =~= parent_ids_of(owned@, public@));
    }
    r
}

/// The transferable proof artifact: the genesis, the endpoints exposed in
/// the clear, and the ancestor-complete lists of anchored transitions and
/// extensions.
#[derive(Clone, PartialEq, Eq, Debug)]
pub struct Consignment {
    pub genesis: Genesis,
    pub endpoints: Vec<(u64, SealEndpoint)>,
    pub state_transitions: Vec<(Anchor, Transition)>,
    pub state_extensions: Vec<Extension>,
}

#[verifier::ext_equal]
pub struct ConsignmentView {
    pub genesis: GenesisView,
    pub endpoints: Seq<(u64, SealEndpoint)>,
    pub state_transitions: Seq<(Anchor, TransitionView)>,
    pub state_extensions: Seq<ExtensionView>,
}

pub open spec fn anchored_seq_view(s: Seq<(Anchor, Transition)>) -> Seq<(Anchor, TransitionView)> {
    s.map_values(|p: (Anchor, Transition)| (p.0, p.1@))
}

pub open spec fn extension_seq_view(s: Seq<Extension>) -> Seq<ExtensionView> {
    s.map_values(|e: Extension| e@)
}

impl View for Consignment {
    type V = ConsignmentView;

    open spec fn view(&self) -> ConsignmentView {
        ConsignmentView {
            genesis: self.genesis@,
            endpoints: self.endpoints@,
            state_transitions: anchored_seq_view(self.state_transitions@),
            state_extensions: extension_seq_view(self.state_extensions@),
        }
    }
}

/// Whether the consignment contains a transition or extension with this
/// identifier.
pub open spec fn includes_id(c: ConsignmentView, id: u64) -> bool {
    (exists|i: int| 0 <= i < c.state_transitions.len() && (#[trigger] c.state_transitions[i]).1.id
        == id) || (exists|i: int|
        0 <= i < c.state_extensions.len() && (#[trigger] c.state_extensions[i]).id == id)
}

pub open spec fn parents_included(c: ConsignmentView, parents: Seq<u64>) -> bool {
    forall|j: int|
        0 <= j < parents.len() ==> (#[trigger] parents[j]) == c.genesis.id || includes_id(
            c,
            parents[j],
        )
}

/// The closure invariant of a consignment: every parent referenced by any
/// included transition or extension is the genesis or itself included.
pub open spec fn is_ancestor_closed(c: ConsignmentView) -> bool {
    (forall|i: int|
        0 <= i < c.state_transitions.len() ==> parents_included(
            c,
            transition_parent_ids((#[trigger] c.state_transitions[i]).1),
        )) && (forall|i: int|
        0 <= i < c.state_extensions.len() ==> parents_included(
            c,
            extension_parent_ids(#[trigger] c.state_extensions[i]),
        ))
}

} // verus!
