//! The stash runtime: graph accessors, proof extraction (`consign`) and
//! proof ingestion (`merge`).

use std::collections::{BTreeSet, VecDeque};
use vstd::prelude::*;
use vstd::set_lib::{lemma_len_subset, lemma_len_union};

use crate::index::BtreeIndex;
use crate::node::{
    anchored_seq_view, conceal_extension_all, conceal_extension_all_spec,
    conceal_extension_except, conceal_extension_except_spec, conceal_transition_all,
    conceal_transition_all_spec, conceal_transition_except, conceal_transition_except_spec,
    collect_parent_ids, dup_extension, dup_genesis, dup_transition, extension_parent_ids,
    extension_seq_view, includes_id, is_ancestor_closed, lemma_conceal_owned_all_concealed,
    node_id_spec, node_parent_ids, owned_seq_all_concealed,
    parents_included, reveal_extension, reveal_extension_spec, reveal_transition,
    reveal_transition_spec, transition_parent_ids, Anchor, Consignment, ConsignmentView,
    Extension, ExtensionView, Genesis, GenesisView, Node, NodeView, Transition, TransitionView,
};
use crate::seal::{conceal_endpoints, endpoints_conceal_spec, SealDefinition, SealEndpoint};
use crate::store::MemStore;

verus! {

broadcast use vstd::std_specs::btree::group_btree_axioms, vstd::laws_cmp::group_laws_cmp, vstd::std_specs::vecdeque::group_vec_dequeue_axioms, vstd::set_lib::group_set_lib_default;

/// The errors of the stash surface.
#[derive(Clone, Copy, PartialEq, Eq, Debug)]
pub enum Error {
    /// The store misses an entity it should hold, or an ancestor chain is
    /// broken or ambiguous.
    StorageError,
    /// The secondary index has no anchor for a transition.
    IndexError,
    /// `consign` was asked for a transition without its anchor.
    AnchorParameterIsRequired,
    /// `consign` was asked for the genesis itself.
    GenesisNode,
}

/// A public-disclosure artifact; its structure is open work and carries
/// nothing yet.
#[derive(Clone, Copy, PartialEq, Eq, Debug)]
pub struct Disclosure {}

/// A finite, restartable sequence of stored entities, handed out by the
/// enumeration accessors.
pub struct DumbIter<T> {
    pub items: Vec<T>,
    pub pos: usize,
}

impl<T> DumbIter<T> {
    pub fn from_items(items: Vec<T>) -> (r: Self)
        ensures
            r.items == items,
            r.pos == 0,
    {
        DumbIter { items, pos: 0 }
    }

    pub fn remaining(&self) -> (r: usize)
        ensures
            r == if self.pos <= self.items@.len() {
                self.items@.len() - self.pos
            } else {
                0int
            },
    {
        if self.pos <= self.items.len() {
            self.items.len() - self.pos
        } else {
            0
        }
    }

    /// The entity the cursor stands on, if any.
    pub fn peek(&self) -> (r: Option<&T>)
        ensures
            match r {
                Some(x) => self.pos < self.items@.len() && *x == self.items@[self.pos as int],
                None => self.pos >= self.items@.len(),
            },
    {
        if self.pos < self.items.len() {
            Some(&self.items[self.pos])
        } else {
            None
        }
    }

    /// Move the cursor one entity forward.
    pub fn advance(&mut self)
        ensures
            final(self).items == old(self).items,
            final(self).pos == if old(self).pos < old(self).items@.len() {
                old(self).pos + 1
            } else {
                old(self).pos as int
            },
    {
        if self.pos < self.items.len() {
            self.pos = self.pos + 1;
        }
    }

    /// Restart the sequence from its beginning.
    pub fn rewind(&mut self)
        ensures
            final(self).items == old(self).items,
            final(self).pos == 0,
    {
        self.pos = 0;
    }
}

/// The mathematical state of a stash: what is stored, and how transitions
/// are indexed to their anchors.
#[verifier::ext_equal]
pub struct StashView {
    pub geneses: Map<u64, GenesisView>,
    pub transitions: Map<u64, TransitionView>,
    pub extensions: Map<u64, ExtensionView>,
    pub anchors: Map<u64, Anchor>,
    pub index: Map<u64, u64>,
    pub schemas: Set<u64>,
}

/// The stash: the store and the index it owns, and the operations over
/// them.
pub struct Runtime {
    pub storage: MemStore,
    pub indexer: BtreeIndex,
}

impl View for Runtime {
    type V = StashView;

    open spec fn view(&self) -> StashView {
        StashView {
            geneses: self.storage.geneses@.map_values(|g: Genesis| g@),
            transitions: self.storage.transitions@.map_values(|t: Transition| t@),
            extensions: self.storage.extensions@.map_values(|e: Extension| e@),
            anchors: self.storage.anchors@,
            index: self.indexer.index@,
            schemas: self.storage.schemas@,
        }
    }
}

pub open spec fn anchor_view(a: Option<&Anchor>) -> Option<Anchor> {
    match a {
        Some(x) => Some(*x),
        None => None,
    }
}

/// One ancestor transition entry: the fully concealed form of a stored
/// transition, under the anchor that the index names for it.
pub open spec fn ancestor_entry_ok(s: StashView, en: (Anchor, TransitionView)) -> bool {
    &&& s.transitions.contains_key(en.1.id)
    &&& en.1 == conceal_transition_all_spec(s.transitions[en.1.id])
    &&& s.index.contains_key(en.1.id)
    &&& s.anchors.contains_key(s.index[en.1.id])
    &&& en.0 == s.anchors[s.index[en.1.id]]
    &&& owned_seq_all_concealed(en.1.owned_rights)
}

/// One ancestor extension entry: the fully concealed form of a stored
/// extension.
pub open spec fn ancestor_ext_ok(s: StashView, e: ExtensionView) -> bool {
    &&& s.extensions.contains_key(e.id)
    &&& e == conceal_extension_all_spec(s.extensions[e.id])
    &&& owned_seq_all_concealed(e.owned_rights)
}

/// What holds of the ancestor entries of a consignment extracted from stash
/// state `s`: each is the fully concealed form of a stored node, and each
/// transition carries the anchor its index entry names.
pub open spec fn consign_ancestors_ok(
    c: ConsignmentView,
    s: StashView,
    ts_from: int,
    es_from: int,
) -> bool {
    &&& forall|i: int|
        ts_from <= i < c.state_transitions.len() ==> ancestor_entry_ok(
            s,
            #[trigger] c.state_transitions[i],
        )
    &&& forall|i: int|
        es_from <= i < c.state_extensions.len() ==> ancestor_ext_ok(
            s,
            #[trigger] c.state_extensions[i],
        )
}

/// Every parent of `parents` is the contract root, already visited, or
/// still queued for the traversal.
pub open spec fn parents_pending(
    cid: u64,
    visited: Set<u64>,
    queue: Seq<u64>,
    parents: Seq<u64>,
) -> bool {
    forall|j: int|
        0 <= j < parents.len() ==> (#[trigger] parents[j]) == cid || visited.contains(parents[j])
            || queue.contains(parents[j])
}

/// Whether `v` stands among the ancestor entries collected so far.
pub open spec fn included_ancestor(
    tsv: Seq<(Anchor, TransitionView)>,
    esv: Seq<ExtensionView>,
    ts_from: int,
    es_from: int,
    v: u64,
) -> bool {
    (exists|i: int| ts_from <= i < tsv.len() && (#[trigger] tsv[i]).1.id == v) || (exists|i: int|
        es_from <= i < esv.len() && (#[trigger] esv[i]).id == v)
}


/// The identifiers of a consignment's entries are pairwise distinct: the
/// target and every ancestor appear exactly once, also on diamond-shaped
/// ancestor graphs.
pub open spec fn entries_distinct(c: ConsignmentView) -> bool {
    &&& forall|i: int, j: int|
        0 <= i < j < c.state_transitions.len() ==> (#[trigger] c.state_transitions[i]).1.id != (
        #[trigger] c.state_transitions[j]).1.id
    &&& forall|i: int, j: int|
        0 <= i < j < c.state_extensions.len() ==> (#[trigger] c.state_extensions[i]).id != (
        #[trigger] c.state_extensions[j]).id
    &&& forall|i: int, j: int|
        0 <= i < c.state_transitions.len() && 0 <= j < c.state_extensions.len() ==> (
        #[trigger] c.state_transitions[i]).1.id != (#[trigger] c.state_extensions[j]).id
}

/// One resolution step of the traversal: `from` resolves to exactly one
/// stored node, whose parents contain `to`.
pub open spec fn parent_step(s: StashView, from: u64, to: u64) -> bool {
    ||| (s.transitions.contains_key(from) && !s.extensions.contains_key(from)
        && transition_parent_ids(s.transitions[from]).contains(to))
    ||| (s.extensions.contains_key(from) && !s.transitions.contains_key(from)
        && extension_parent_ids(s.extensions[from]).contains(to))
}

/// A chain of identifiers from a direct parent of the target down to `id`,
/// stepping through stored, unambiguous nodes and never passing through the
/// contract root.
pub open spec fn ancestor_path(
    s: StashView,
    cid: u64,
    n: NodeView,
    path: Seq<u64>,
    id: u64,
) -> bool {
    &&& path.len() > 0
    &&& path[path.len() - 1] == id
    &&& node_parent_ids(n).contains(path[0])
    &&& forall|i: int| 0 <= i < path.len() ==> (#[trigger] path[i]) != cid
    &&& forall|i: int| 0 <= i < path.len() - 1 ==> parent_step(s, #[trigger] path[i], path[i + 1])
}

/// `id` is transitively referenced by the target through stored ancestors.
pub open spec fn referenced_ancestor(s: StashView, cid: u64, n: NodeView, id: u64) -> bool {
    exists|path: Seq<u64>| ancestor_path(s, cid, n, path, id)
}

/// `id` resolves during a traversal: the index names an anchor for it, that
/// anchor is stored, and exactly one node is stored under it.
pub open spec fn ancestor_resolvable(s: StashView, id: u64) -> bool {
    &&& s.index.contains_key(id)
    &&& s.anchors.contains_key(s.index[id])
    &&& (s.transitions.contains_key(id) <==> !s.extensions.contains_key(id))
}

/// Every ancestor entry of the consignment is transitively referenced by
/// the target: nothing beyond the target's ancestor closure is handed out.
pub open spec fn consign_entries_referenced(
    c: ConsignmentView,
    s: StashView,
    cid: u64,
    n: NodeView,
    ts_from: int,
    es_from: int,
) -> bool {
    &&& forall|i: int|
        ts_from <= i < c.state_transitions.len() ==> referenced_ancestor(
            s,
            cid,
            n,
            (#[trigger] c.state_transitions[i]).1.id,
        )
    &&& forall|i: int|
        es_from <= i < c.state_extensions.len() ==> referenced_ancestor(
            s,
            cid,
            n,
            (#[trigger] c.state_extensions[i]).id,
        )
}

/// A direct parent of the target is a referenced ancestor.
proof fn lemma_path_base(s: StashView, cid: u64, n: NodeView, p: u64)
    requires
        p != cid,
        node_parent_ids(n).contains(p),
    ensures
        referenced_ancestor(s, cid, n, p),
{
    let pth = seq![p];
    assert(pth[0] == p);
    assert(ancestor_path(s, cid, n, pth, p));
}

/// A parent of a referenced ancestor is itself referenced.
proof fn lemma_path_extend(s: StashView, cid: u64, n: NodeView, cur: u64, p: u64)
    requires
        referenced_ancestor(s, cid, n, cur),
        p != cid,
        parent_step(s, cur, p),
    ensures
        referenced_ancestor(s, cid, n, p),
{
    let pth = choose|pth: Seq<u64>| ancestor_path(s, cid, n, pth, cur);
    let p2 = pth.push(p);
    assert(p2[p2.len() - 1] == p);
    assert(p2[0] == pth[0]);
    assert forall|i: int| 0 <= i < p2.len() implies (#[trigger] p2[i]) != cid by {
        if i < pth.len() {
            assert(p2[i] == pth[i]);
        }
    }
    assert forall|i: int|
        0 <= i < p2.len() - 1 implies parent_step(s, #[trigger] p2[i], p2[i + 1]) by {
        if i < pth.len() - 1 {
            assert(p2[i] == pth[i]);
            assert(p2[i + 1] == pth[i + 1]);
        } else {
            assert(p2[i] == pth[pth.len() - 1]);
            assert(p2[i + 1] == p);
        }
    }
    assert(ancestor_path(s, cid, n, p2, p));
}

proof fn lemma_queue_drop(pre: Seq<u64>, cur: u64, post: Seq<u64>)
    requires
        pre.len() > 0,
        cur == pre[0],
        post == pre.drop_first(),
    ensures
        forall|p: u64| pre.contains(p) && p != cur ==> post.contains(p),
{
    assert forall|p: u64| pre.contains(p) && p != cur implies post.contains(p) by {
        let i = choose|i: int| 0 <= i < pre.len() && pre[i] == p;
        assert(i != 0);
        assert(post[i - 1] == p);
    }
}

proof fn lemma_queue_append(q: Seq<u64>, add: Seq<u64>)
    ensures
        forall|p: u64| q.contains(p) ==> (q + add).contains(p),
        forall|j: int| 0 <= j < add.len() ==> (q + add).contains((#[trigger] add[j])),
{
    assert forall|p: u64| q.contains(p) implies (q + add).contains(p) by {
        let i = choose|i: int| 0 <= i < q.len() && q[i] == p;
        assert((q + add)[i] == p);
    }
    assert forall|j: int| 0 <= j < add.len() implies (q + add).contains((add[j])) by {
        assert((q + add)[q.len() + j] == add[j]);
    }
}

/// What a successful `consign` returns: the stored genesis, the endpoint
/// list over the target's identifier, the target node with exactly the
/// exposed endpoints left revealed, fully concealed stored ancestors, and
/// ancestor closure.
pub open spec fn consign_ok(
    c: ConsignmentView,
    s: StashView,
    contract_id: u64,
    n: NodeView,
    anchor: Option<Anchor>,
    expose: Seq<SealEndpoint>,
) -> bool {
    let keep = endpoints_conceal_spec(expose);
    &&& s.geneses.contains_key(contract_id)
    &&& c.genesis == s.geneses[contract_id]
    &&& c.endpoints == expose.map_values(|e: SealEndpoint| (node_id_spec(n), e))
    &&& match n {
        NodeView::Genesis(_) => false,
        NodeView::Transition(t) => {
            &&& anchor is Some
            &&& c.state_transitions.len() >= 1
            &&& c.state_transitions[0].0 == anchor.unwrap()
            &&& c.state_transitions[0].1 == conceal_transition_except_spec(t, keep)
            &&& consign_ancestors_ok(c, s, 1, 0)
            &&& consign_entries_referenced(c, s, contract_id, n, 1, 0)
        },
        NodeView::Extension(e) => {
            &&& c.state_extensions.len() >= 1
            &&& c.state_extensions[0] == conceal_extension_except_spec(e, keep)
            &&& consign_ancestors_ok(c, s, 0, 1)
            &&& consign_entries_referenced(c, s, contract_id, n, 0, 1)
        },
    }
    &&& entries_distinct(c)
    &&& is_ancestor_closed(c)
}

/// Ingesting the anchored transitions of a consignment, first to last: the
/// anchor, the transition in its revealed form, and the index entry tying
/// them.
pub open spec fn merge_transitions_spec(
    s: StashView,
    entries: Seq<(Anchor, TransitionView)>,
    known: Seq<SealDefinition>,
) -> StashView
    decreases entries.len(),
{
    if entries.len() == 0 {
        s
    } else {
        let a = entries[0].0;
        let t = reveal_transition_spec(entries[0].1, known);
        let s2 = StashView {
            anchors: s.anchors.insert(a.id, a),
            transitions: s.transitions.insert(t.id, t),
            index: s.index.insert(t.id, a.id),
            ..s
        };
        merge_transitions_spec(s2, entries.drop_first(), known)
    }
}

/// Ingesting the extensions of a consignment, first to last, in their
/// revealed forms.
pub open spec fn merge_extensions_spec(
    s: StashView,
    entries: Seq<ExtensionView>,
    known: Seq<SealDefinition>,
) -> StashView
    decreases entries.len(),
{
    if entries.len() == 0 {
        s
    } else {
        let e = reveal_extension_spec(entries[0], known);
        let s2 = StashView { extensions: s.extensions.insert(e.id, e), ..s };
        merge_extensions_spec(s2, entries.drop_first(), known)
    }
}

/// The whole of `merge`: the genesis, then every (anchor, transition) pair,
/// then every extension.
pub open spec fn merge_spec(
    s: StashView,
    c: ConsignmentView,
    known: Seq<SealDefinition>,
) -> StashView {
    let s1 = StashView { geneses: s.geneses.insert(c.genesis.id, c.genesis), ..s };
    merge_extensions_spec(merge_transitions_spec(s1, c.state_transitions, known), c.state_extensions, known)
}


proof fn lemma_pending_after_pop(
    cid: u64,
    visited: Set<u64>,
    pre: Seq<u64>,
    post: Seq<u64>,
    cur: u64,
    parents: Seq<u64>,
)
    requires
        parents_pending(cid, visited, pre, parents),
        pre.len() > 0,
        cur == pre[0],
        post == pre.drop_first(),
        cur == cid || visited.contains(cur),
    ensures
        parents_pending(cid, visited, post, parents),
{
    lemma_queue_drop(pre, cur, post);
    assert forall|j: int|
        0 <= j < parents.len() implies (#[trigger] parents[j]) == cid || visited.contains(
        parents[j],
    ) || post.contains(parents[j]) by {
        if parents[j] != cid && !visited.contains(parents[j]) {
            assert(pre.contains(parents[j]));
            assert(parents[j] != cur);
        }
    }
}

proof fn lemma_pending_after_visit(
    cid: u64,
    pre_vis: Set<u64>,
    vis2: Set<u64>,
    pre: Seq<u64>,
    post: Seq<u64>,
    cur: u64,
    parents: Seq<u64>,
)
    requires
        parents_pending(cid, pre_vis, pre, parents),
        pre.len() > 0,
        cur == pre[0],
        vis2 == pre_vis.insert(cur),
        forall|p: u64| pre.drop_first().contains(p) ==> post.contains(p),
    ensures
        parents_pending(cid, vis2, post, parents),
{
    lemma_queue_drop(pre, cur, pre.drop_first());
    assert forall|j: int|
        0 <= j < parents.len() implies (#[trigger] parents[j]) == cid || vis2.contains(parents[j])
            || post.contains(parents[j]) by {
        if parents[j] != cid && !vis2.contains(parents[j]) {
            assert(!pre_vis.contains(parents[j]));
            assert(parents[j] != cur);
            assert(pre.contains(parents[j]));
            assert(pre.drop_first().contains(parents[j]));
        }
    }
}

proof fn lemma_geneses_view_insert(m: Map<u64, Genesis>, g: Genesis)
    ensures
        m.insert(g.id, g).map_values(|x: Genesis| x@) =~= m.map_values(|x: Genesis| x@).insert(
            g.id,
            g@,
        ),
{
}

proof fn lemma_transitions_view_insert(m: Map<u64, Transition>, t: Transition)
    ensures
        m.insert(t.id, t).map_values(|x: Transition| x@) =~= m.map_values(
            |x: Transition| x@,
        ).insert(t.id, t@),
{
}

proof fn lemma_extensions_view_insert(m: Map<u64, Extension>, e: Extension)
    ensures
        m.insert(e.id, e).map_values(|x: Extension| x@) =~= m.map_values(
            |x: Extension| x@,
        ).insert(e.id, e@),
{
}


/// Append every identifier of `ids` to the back of the queue.
fn enqueue_all(sources: &mut VecDeque<u64>, ids: &Vec<u64>)
    ensures
        final(sources)@ == old(sources)@ + ids@,
{
    let mut i: usize = 0;
    while i < ids.len()
        invariant
            i <= ids.len(),
            sources@.len() == old(sources)@.len() + i,
            forall|k: int| 0 <= k < old(sources)@.len() ==> sources@[k] == old(sources)@[k],
            forall|k: int|
                0 <= k < i ==> sources@[old(sources)@.len() + k] == ids@[k],
        decreases ids.len() - i,
    {
        sources.push_back(ids[i]);
        i = i + 1;
    }
    proof {
        assert(sources@ =~= old(sources)@ + ids@);
    }
}


/// Append every identifier of `ids` to `out`.
fn push_ids(out: &mut Vec<u64>, ids: &Vec<u64>)
    ensures
        final(out)@ == old(out)@ + ids@,
{
    let mut i: usize = 0;
    while i < ids.len()
        invariant
            i <= ids.len(),
            out@.len() == old(out)@.len() + i,
            forall|k: int| 0 <= k < old(out)@.len() ==> out@[k] == old(out)@[k],
            forall|k: int| 0 <= k < i ==> out@[old(out)@.len() + k] == ids@[k],
        decreases ids.len() - i,
    {
        out.push(ids[i]);
        i = i + 1;
    }
    proof {
        assert(out@ =~= old(out)@ + ids@);
    }
}


/// With the work queue drained, pending parents are all root-or-visited,
/// and every visited identifier stands among the entries: the consignment
/// is ancestor-closed.
proof fn lemma_closure_from_pending(c: ConsignmentView, cid: u64, visited: Set<u64>, q: Seq<u64>)
    requires
        q.len() == 0,
        c.genesis.id == cid,
        forall|i: int|
            0 <= i < c.state_transitions.len() ==> parents_pending(
                cid,
                visited,
                q,
                transition_parent_ids((#[trigger] c.state_transitions[i]).1),
            ),
        forall|i: int|
            0 <= i < c.state_extensions.len() ==> parents_pending(
                cid,
                visited,
                q,
                extension_parent_ids(#[trigger] c.state_extensions[i]),
            ),
        forall|v: u64|
            visited.contains(v) ==> included_ancestor(
                c.state_transitions,
                c.state_extensions,
                0,
                0,
                v,
            ),
    ensures
        is_ancestor_closed(c),
{
    assert forall|i: int|
        0 <= i < c.state_transitions.len() implies parents_included(
        c,
        transition_parent_ids((#[trigger] c.state_transitions[i]).1),
    ) by {
        let parents = transition_parent_ids(c.state_transitions[i].1);
        assert forall|j: int|
            0 <= j < parents.len() implies (#[trigger] parents[j]) == c.genesis.id || includes_id(
            c,
            parents[j],
        ) by {
            let p = parents[j];
            if p != cid {
                assert(!q.contains(p));
                assert(visited.contains(p));
                lemma_included_to_includes(c, p);
            }
        }
    }
    assert forall|i: int|
        0 <= i < c.state_extensions.len() implies parents_included(
        c,
        extension_parent_ids(#[trigger] c.state_extensions[i]),
    ) by {
        let parents = extension_parent_ids(c.state_extensions[i]);
        assert forall|j: int|
            0 <= j < parents.len() implies (#[trigger] parents[j]) == c.genesis.id || includes_id(
            c,
            parents[j],
        ) by {
            let p = parents[j];
            if p != cid {
                assert(!q.contains(p));
                assert(visited.contains(p));
                lemma_included_to_includes(c, p);
            }
        }
    }
}

/// An identifier among the entries is included in the consignment.
proof fn lemma_included_to_includes(c: ConsignmentView, p: u64)
    requires
        included_ancestor(c.state_transitions, c.state_extensions, 0, 0, p),
    ensures
        includes_id(c, p),
{
    if exists|m: int|
        0 <= m < c.state_transitions.len() && (#[trigger] c.state_transitions[m]).1.id == p {
        let m = choose|m: int|
            0 <= m < c.state_transitions.len() && (#[trigger] c.state_transitions[m]).1.id == p;
        assert(c.state_transitions[m].1.id == p);
    } else {
        let m = choose|m: int|
            0 <= m < c.state_extensions.len() && (#[trigger] c.state_extensions[m]).id == p;
        assert(c.state_extensions[m].id == p);
    }
}

impl Runtime {
    pub open spec fn wf(&self) -> bool {
        self.storage.wf()
    }

    pub fn new() -> (r: Runtime)
        ensures
            r.wf(),
            r@.geneses == Map::<u64, GenesisView>::empty(),
            r@.transitions == Map::<u64, TransitionView>::empty(),
            r@.extensions == Map::<u64, ExtensionView>::empty(),
            r@.anchors == Map::<u64, Anchor>::empty(),
            r@.index == Map::<u64, u64>::empty(),
            r@.schemas == Set::<u64>::empty(),
    {
        let r = Runtime { storage: MemStore::new(), indexer: BtreeIndex::new() };
        proof {
            assert(r@.geneses =~= Map::<u64, GenesisView>::empty());
            assert(r@.transitions =~= Map::<u64, TransitionView>::empty());
            assert(r@.extensions =~= Map::<u64, ExtensionView>::empty());
        }
        r
    }

    /// A schema identifier the stash knows, or the store's not-found error.
    pub fn get_schema(&self, schema_id: u64) -> (r: Result<u64, Error>)
        ensures
            self@.schemas.contains(schema_id) ==> r == Ok::<u64, Error>(schema_id),
            !self@.schemas.contains(schema_id) ==> r == Err::<u64, Error>(Error::StorageError),
    {
        if self.storage.has_schema(schema_id) {
            Ok(schema_id)
        } else {
            Err(Error::StorageError)
        }
    }

    pub fn get_genesis(&self, contract_id: u64) -> (r: Result<Genesis, Error>)
        ensures
            match r {
                Ok(g) => self@.geneses.contains_key(contract_id) && g@ == self@.geneses[contract_id],
                Err(e) => !self@.geneses.contains_key(contract_id) && e == Error::StorageError,
            },
    {
        match self.storage.genesis(contract_id) {
            Some(g) => Ok(dup_genesis(g)),
            None => Err(Error::StorageError),
        }
    }

    pub fn get_transition(&self, node_id: u64) -> (r: Result<Transition, Error>)
        ensures
            match r {
                Ok(t) => self@.transitions.contains_key(node_id) && t@ == self@.transitions[node_id],
                Err(e) => !self@.transitions.contains_key(node_id) && e == Error::StorageError,
            },
    {
        match self.storage.transition(node_id) {
            Some(t) => Ok(dup_transition(t)),
            None => Err(Error::StorageError),
        }
    }

    pub fn get_extension(&self, node_id: u64) -> (r: Result<Extension, Error>)
        ensures
            match r {
                Ok(e) => self@.extensions.contains_key(node_id) && e@ == self@.extensions[node_id],
                Err(e) => !self@.extensions.contains_key(node_id) && e == Error::StorageError,
            },
    {
        match self.storage.extension(node_id) {
            Some(e) => Ok(dup_extension(e)),
            None => Err(Error::StorageError),
        }
    }

    pub fn get_anchor(&self, anchor_id: u64) -> (r: Result<Anchor, Error>)
        ensures
            match r {
                Ok(a) => self@.anchors.contains_key(anchor_id) && a == self@.anchors[anchor_id],
                Err(e) => !self@.anchors.contains_key(anchor_id) && e == Error::StorageError,
            },
    {
        match self.storage.anchor(anchor_id) {
            Some(a) => Ok(*a),
            None => Err(Error::StorageError),
        }
    }

    /// Ingest a received consignment: reveal every concealed assignment
    /// whose seal pre-image stands in `known_seals`, then persist - the
    /// genesis first, each anchor before its transition together with the
    /// index entry tying them, then every extension. Re-merging the same
    /// consignment changes nothing, since everything is keyed by its own
    /// identifier.
    pub fn merge(
        &mut self,
        consignment: &Consignment,
        known_seals: &Vec<SealDefinition>,
    ) -> (r: Result<(), Error>)
        requires
            old(self).wf(),
        ensures
            final(self).wf(),
            r is Ok,
            final(self)@ == merge_spec(old(self)@, consignment@, known_seals@),
    {
        let ghost s0 = self@;
        let g = dup_genesis(&consignment.genesis);
        proof {
            lemma_geneses_view_insert(self.storage.geneses@, g);
        }
        self.storage.add_genesis(g);
        let ghost s1 = StashView { geneses: s0.geneses.insert(consignment@.genesis.id, consignment@.genesis), ..s0 };
        proof {
            assert(self@ =~= s1);
        }
        let ghost entries = anchored_seq_view(consignment.state_transitions@);
        proof {
            assert(entries.len() == consignment.state_transitions@.len());
            assert(entries.skip(0) =~= entries);
        }
        let mut i: usize = 0;
        while i < consignment.state_transitions.len()
            invariant
                self.wf(),
                i <= consignment.state_transitions.len(),
                entries.len() == consignment.state_transitions@.len(),
                entries == anchored_seq_view(consignment.state_transitions@),
                merge_transitions_spec(self@, entries.skip(i as int), known_seals@)
                    == merge_transitions_spec(s1, entries, known_seals@),
            decreases consignment.state_transitions.len() - i,
        {
            let ghost pre = self@;
            let a = consignment.state_transitions[i].0;
            let rt = reveal_transition(&consignment.state_transitions[i].1, known_seals);
            proof {
                lemma_transitions_view_insert(self.storage.transitions@, rt);
            }
            let rt_id = rt.id;
            self.storage.add_anchor(a);
            self.storage.add_transition(rt);
            self.indexer.insert(rt_id, a.id);
            proof {
                let sk = entries.skip(i as int);
                assert(sk.len() == entries.len() - i);
                assert(sk[0] == entries[i as int]);
                assert(entries[i as int]
                    == (consignment.state_transitions@[i as int].0, consignment.state_transitions@[i as int].1@));
                assert(rt@ == reveal_transition_spec(sk[0].1, known_seals@));
                let stepped = StashView {
                    anchors: pre.anchors.insert(sk[0].0.id, sk[0].0),
                    transitions: pre.transitions.insert(rt@.id, rt@),
                    index: pre.index.insert(rt@.id, sk[0].0.id),
                    ..pre
                };
                assert(self@ =~= stepped);
                assert(sk.drop_first() =~= entries.skip(i as int + 1));
            }
            i = i + 1;
        }
        proof {
            assert(entries.skip(entries.len() as int).len() == 0);
            assert(self@ == merge_transitions_spec(s1, entries, known_seals@));
        }
        let ghost s2 = self@;
        let ghost eseq = extension_seq_view(consignment.state_extensions@);
        proof {
            assert(eseq.len() == consignment.state_extensions@.len());
            assert(eseq.skip(0) =~= eseq);
        }
        let mut j: usize = 0;
        while j < consignment.state_extensions.len()
            invariant
                self.wf(),
                j <= consignment.state_extensions.len(),
                eseq.len() == consignment.state_extensions@.len(),
                eseq == extension_seq_view(consignment.state_extensions@),
                merge_extensions_spec(self@, eseq.skip(j as int), known_seals@)
                    == merge_extensions_spec(s2, eseq, known_seals@),
            decreases consignment.state_extensions.len() - j,
        {
            let ghost pre = self@;
            let re = reveal_extension(&consignment.state_extensions[j], known_seals);
            proof {
                lemma_extensions_view_insert(self.storage.extensions@, re);
            }
            self.storage.add_extension(re);
            proof {
                let sk = eseq.skip(j as int);
                assert(sk.len() == eseq.len() - j);
                assert(sk[0] == eseq[j as int]);
                assert(eseq[j as int] == consignment.state_extensions@[j as int]@);
                assert(re@ == reveal_extension_spec(sk[0], known_seals@));
                let stepped = StashView { extensions: pre.extensions.insert(re@.id, re@), ..pre };
                assert(self@ =~= stepped);
                assert(sk.drop_first() =~= eseq.skip(j as int + 1));
            }
            j = j + 1;
        }
        proof {
            assert(eseq.skip(eseq.len() as int).len() == 0);
            assert(self@ == merge_extensions_spec(s2, eseq, known_seals@));
            assert(consignment@.state_transitions == entries);
            assert(consignment@.state_extensions == eseq);
            assert(self@ == merge_spec(s0, consignment@, known_seals@));
        }
        Ok(())
    }

    /// Extract a transferable proof for one node: load the contract's
    /// genesis, keep exactly the exposed endpoints of the target revealed,
    /// then walk every ancestor breadth-first, concealing each fully, until
    /// the whole sub-graph down to the genesis is included.
    #[verifier::loop_isolation(false)]
    #[verifier::rlimit(100)]
    pub fn consign(
        &self,
        contract_id: u64,
        node: &Node,
        anchor: Option<&Anchor>,
        expose: &Vec<SealEndpoint>,
    ) -> (r: Result<Consignment, Error>)
        requires
            self.wf(),
        ensures
            match r {
                Ok(c) => consign_ok(c@, self@, contract_id, node@, anchor_view(anchor), expose@),
                Err(_) => true,
            },
            !self@.geneses.contains_key(contract_id) ==> r == Err::<Consignment, Error>(
                Error::StorageError,
            ),
            (self@.geneses.contains_key(contract_id) && node@ is Genesis) <==> r == Err::<
                Consignment,
                Error,
            >(Error::GenesisNode),
            (self@.geneses.contains_key(contract_id) && node@ is Transition && anchor_view(anchor)
                is None) <==> r == Err::<Consignment, Error>(Error::AnchorParameterIsRequired),
            r == Err::<Consignment, Error>(Error::IndexError) ==> exists|id: u64|
                #[trigger] referenced_ancestor(self@, contract_id, node@, id)
                    && !self@.index.contains_key(id),
            (r == Err::<Consignment, Error>(Error::StorageError) && self@.geneses.contains_key(
                contract_id,
            )) ==> exists|id: u64|
                #[trigger] referenced_ancestor(self@, contract_id, node@, id)
                    && self@.index.contains_key(id) && (!self@.anchors.contains_key(
                    self@.index[id],
                ) || (self@.transitions.contains_key(id) <==> self@.extensions.contains_key(id))),
            (self@.geneses.contains_key(contract_id) && !(node@ is Genesis) && (node@ is Transition
                ==> anchor_view(anchor) is Some) && (forall|id: u64|
                #[trigger] referenced_ancestor(self@, contract_id, node@, id)
                    ==> ancestor_resolvable(self@, id))) ==> r is Ok,
    {
        let ghost all_resolvable: bool = forall|id: u64|
            #[trigger] referenced_ancestor(self@, contract_id, node@, id) ==> ancestor_resolvable(
                self@,
                id,
            );
        let genesis = match self.storage.genesis(contract_id) {
            Some(g) => g,
            None => {
                return Err(Error::StorageError);
            },
        };
        let concealed_endpoints = conceal_endpoints(expose);
        let ghost keep = endpoints_conceal_spec(expose@);
        let mut state_transitions: Vec<(Anchor, Transition)> = Vec::new();
        let mut state_extensions: Vec<Extension> = Vec::new();
        let mut sources: VecDeque<u64> = VecDeque::new();
        let node_id: u64;
        let ghost mut tgt_ts: int = 0;
        let ghost mut tgt_es: int = 0;
        let ghost anc_opt = anchor_view(anchor);
        match node {
            Node::Genesis(_) => {
                return Err(Error::GenesisNode);
            },
            Node::Transition(t) => {
                let a = match anchor {
                    Some(a) => *a,
                    None => {
                        return Err(Error::AnchorParameterIsRequired);
                    },
                };
                let ct = conceal_transition_except(t, &concealed_endpoints);
                state_transitions.push((a, ct));
                node_id = t.id;
                let parents = collect_parent_ids(&t.parent_owned_rights, &t.parent_public_rights);
                enqueue_all(&mut sources, &parents);
                proof {
                    tgt_ts = 1;
                }
            },
            Node::Extension(e) => {
                let ce = conceal_extension_except(e, &concealed_endpoints);
                state_extensions.push(ce);
                node_id = e.id;
                let parents = collect_parent_ids(&e.parent_owned_rights, &e.parent_public_rights);
                enqueue_all(&mut sources, &parents);
                proof {
                    tgt_es = 1;
                }
            },
        }
        proof {
            assert(sources@ == node_parent_ids(node@));
            assert forall|j: int| 0 <= j < sources@.len() implies sources@.contains(
                #[trigger] sources@[j],
            ) by {}
            assert forall|j: int|
                0 <= j < sources@.len() implies sources@[j] == contract_id || referenced_ancestor(
                self@,
                contract_id,
                node@,
                sources@[j],
            ) by {
                if sources@[j] != contract_id {
                    lemma_path_base(self@, contract_id, node@, sources@[j]);
                }
            }
        }
        let mut visited: BTreeSet<u64> = BTreeSet::new();
        visited.insert(node_id);
        proof {
            let avs = anchored_seq_view(state_transitions@);
            let esv = extension_seq_view(state_extensions@);
            match node@ {
                NodeView::Genesis(_) => {},
                NodeView::Transition(t) => {
                    assert(avs[0] == (state_transitions@[0].0, state_transitions@[0].1@));
                    assert(avs[0].1.id == node_id);
                },
                NodeView::Extension(e) => {
                    assert(esv[0] == state_extensions@[0]@);
                    assert(esv[0].id == node_id);
                },
            }
            assert forall|v: u64| visited@.contains(v) implies included_ancestor(
                avs,
                esv,
                0,
                0,
                v,
            ) by {
                assert(v == node_id);
            }
        }
        let ghost t_dom_len = self.storage.transitions@.dom().len();
        let ghost e_dom_len = self.storage.extensions@.dom().len();
        while sources.len() > 0
            invariant
                visited@.finite(),
                visited@.len() <= t_dom_len + e_dom_len + 1,
                visited@.contains(node_id),
                forall|v: u64|
                    visited@.contains(v) ==> self.storage.transitions@.contains_key(v)
                        || self.storage.extensions@.contains_key(v) || v == node_id,
                forall|k: int|
                    0 <= k < sources@.len() ==> sources@[k] == contract_id || referenced_ancestor(
                        self@,
                        contract_id,
                        node@,
                        #[trigger] sources@[k],
                    ),
                forall|i: int|
                    0 <= i < state_transitions@.len() ==> visited@.contains(
                        (#[trigger] state_transitions@[i]).1@.id,
                    ),
                forall|i: int|
                    0 <= i < state_extensions@.len() ==> visited@.contains(
                        (#[trigger] state_extensions@[i])@.id,
                    ),
                forall|i: int, j: int|
                    0 <= i < j < state_transitions@.len() ==> (
                    #[trigger] state_transitions@[i]).1@.id != (
                    #[trigger] state_transitions@[j]).1@.id,
                forall|i: int, j: int|
                    0 <= i < j < state_extensions@.len() ==> (#[trigger] state_extensions@[i])@.id
                        != (#[trigger] state_extensions@[j])@.id,
                forall|i: int, j: int|
                    0 <= i < state_transitions@.len() && 0 <= j < state_extensions@.len() ==> (
                    #[trigger] state_transitions@[i]).1@.id != (
                    #[trigger] state_extensions@[j])@.id,
                forall|i: int|
                    tgt_ts <= i < state_transitions@.len() ==> referenced_ancestor(
                        self@,
                        contract_id,
                        node@,
                        (#[trigger] state_transitions@[i]).1@.id,
                    ),
                forall|i: int|
                    tgt_es <= i < state_extensions@.len() ==> referenced_ancestor(
                        self@,
                        contract_id,
                        node@,
                        (#[trigger] state_extensions@[i])@.id,
                    ),
                state_transitions@.len() >= tgt_ts,
                state_extensions@.len() >= tgt_es,
                match node@ {
                    NodeView::Genesis(_) => false,
                    NodeView::Transition(t) => tgt_ts == 1 && tgt_es == 0 && anc_opt is Some
                        && state_transitions@[0].0 == anc_opt.unwrap()
                        && state_transitions@[0].1@ == conceal_transition_except_spec(t, keep),
                    NodeView::Extension(e) => tgt_ts == 0 && tgt_es == 1 && state_extensions@[0]@
                        == conceal_extension_except_spec(e, keep),
                },
                forall|i: int|
                    tgt_ts <= i < state_transitions@.len() ==> ancestor_entry_ok(
                        self@,
                        ((#[trigger] state_transitions@[i]).0, state_transitions@[i].1@),
                    ),
                forall|i: int|
                    tgt_es <= i < state_extensions@.len() ==> ancestor_ext_ok(
                        self@,
                        (#[trigger] state_extensions@[i])@,
                    ),
                forall|v: u64|
                    visited@.contains(v) ==> included_ancestor(
                        anchored_seq_view(state_transitions@),
                        extension_seq_view(state_extensions@),
                        0,
                        0,
                        v,
                    ),
                forall|i: int|
                    0 <= i < state_transitions@.len() ==> parents_pending(
                        contract_id,
                        visited@,
                        sources@,
                        transition_parent_ids((#[trigger] state_transitions@[i]).1@),
                    ),
                forall|i: int|
                    0 <= i < state_extensions@.len() ==> parents_pending(
                        contract_id,
                        visited@,
                        sources@,
                        extension_parent_ids((#[trigger] state_extensions@[i])@),
                    ),
            decreases t_dom_len + e_dom_len + 1 - visited@.len(), sources@.len(),
        {
            let ghost pre_q = sources@;
            let ghost pre_vis = visited@;
            let cur = sources.pop_front().unwrap();
            proof {
                assert(cur == pre_q[0]);
                assert(sources@ == pre_q.drop_first());
            }
            if cur == contract_id {
                proof {
                    assert forall|i: int|
                        0 <= i < state_transitions@.len() implies parents_pending(
                        contract_id,
                        visited@,
                        sources@,
                        transition_parent_ids((#[trigger] state_transitions@[i]).1@),
                    ) by {
                        lemma_pending_after_pop(
                            contract_id,
                            visited@,
                            pre_q,
                            sources@,
                            cur,
                            transition_parent_ids(state_transitions@[i].1@),
                        );
                    }
                    assert forall|i: int|
                        0 <= i < state_extensions@.len() implies parents_pending(
                        contract_id,
                        visited@,
                        sources@,
                        extension_parent_ids((#[trigger] state_extensions@[i])@),
                    ) by {
                        lemma_pending_after_pop(
                            contract_id,
                            visited@,
                            pre_q,
                            sources@,
                            cur,
                            extension_parent_ids(state_extensions@[i]@),
                        );
                    }
                    assert forall|k: int|
                        0 <= k < sources@.len() implies sources@[k] == contract_id
                        || referenced_ancestor(
                        self@,
                        contract_id,
                        node@,
                        #[trigger] sources@[k],
                    ) by {
                        assert(sources@[k] == pre_q[k + 1]);
                    }
                }
            } else if visited.contains(&cur) {
                proof {
                    assert forall|i: int|
                        0 <= i < state_transitions@.len() implies parents_pending(
                        contract_id,
                        visited@,
                        sources@,
                        transition_parent_ids((#[trigger] state_transitions@[i]).1@),
                    ) by {
                        lemma_pending_after_pop(
                            contract_id,
                            visited@,
                            pre_q,
                            sources@,
                            cur,
                            transition_parent_ids(state_transitions@[i].1@),
                        );
                    }
                    assert forall|i: int|
                        0 <= i < state_extensions@.len() implies parents_pending(
                        contract_id,
                        visited@,
                        sources@,
                        extension_parent_ids((#[trigger] state_extensions@[i])@),
                    ) by {
                        lemma_pending_after_pop(
                            contract_id,
                            visited@,
                            pre_q,
                            sources@,
                            cur,
                            extension_parent_ids(state_extensions@[i]@),
                        );
                    }
                    assert forall|k: int|
                        0 <= k < sources@.len() implies sources@[k] == contract_id
                        || referenced_ancestor(
                        self@,
                        contract_id,
                        node@,
                        #[trigger] sources@[k],
                    ) by {
                        assert(sources@[k] == pre_q[k + 1]);
                    }
                }
            } else {
                proof {
                    assert(referenced_ancestor(self@, contract_id, node@, cur));
                }
                let anchor_id = match self.indexer.anchor_id_by_transition_id(cur) {
                    Some(x) => x,
                    None => {
                        proof {
                            assert(!self@.index.contains_key(cur));
                            if all_resolvable {
                                assert(ancestor_resolvable(self@, cur));
                                assert(false);
                            }
                        }
                        return Err(Error::IndexError);
                    },
                };
                let anc = match self.storage.anchor(anchor_id) {
                    Some(a) => *a,
                    None => {
                        proof {
                            assert(self@.index.contains_key(cur) && !self@.anchors.contains_key(
                                self@.index[cur],
                            ));
                            if all_resolvable {
                                assert(ancestor_resolvable(self@, cur));
                                assert(false);
                            }
                        }
                        return Err(Error::StorageError);
                    },
                };
                let t_found = self.storage.transition(cur);
                let e_found = self.storage.extension(cur);
                match (t_found, e_found) {
                    (Some(t), None) => {
                        let ct = conceal_transition_all(t);
                        let parents = collect_parent_ids(
                            &t.parent_owned_rights,
                            &t.parent_public_rights,
                        );
                        let ghost pre_ts = state_transitions@;
                        let ghost pre_es = state_extensions@;
                        state_transitions.push((anc, ct));
                        visited.insert(cur);
                        let ghost mid_q = sources@;
                        enqueue_all(&mut sources, &parents);
                        proof {
                            lemma_queue_append(mid_q, parents@);
                            lemma_conceal_owned_all_concealed(t@.owned_rights);
                            assert(self@.transitions.contains_key(cur));
                            assert(self@.transitions[cur] == t@);
                            assert(t@.id == cur);
                            assert(ancestor_entry_ok(self@, (anc, ct@)));
                            let avs = anchored_seq_view(state_transitions@);
                            let esv = extension_seq_view(state_extensions@);
                            assert(avs.len() == pre_ts.len() + 1);
                            assert(avs[pre_ts.len() as int] == (anc, ct@));
                            assert forall|v: u64| visited@.contains(v) implies included_ancestor(
                                avs,
                                esv,
                                0,
                                0,
                                v,
                            ) by {
                                if v == cur {
                                    assert(avs[pre_ts.len() as int].1.id == v);
                                } else {
                                    assert(pre_vis.contains(v));
                                    let pre_avs = anchored_seq_view(pre_ts);
                                    if exists|i: int|
                                        0 <= i < pre_avs.len() && (#[trigger] pre_avs[i]).1.id
                                            == v {
                                        let i = choose|i: int|
                                            0 <= i < pre_avs.len() && (
                                            #[trigger] pre_avs[i]).1.id == v;
                                        assert(avs[i] == pre_avs[i]);
                                    }
                                }
                            }
                            assert forall|i: int|
                                0 <= i < state_transitions@.len() implies parents_pending(
                                contract_id,
                                visited@,
                                sources@,
                                transition_parent_ids((#[trigger] state_transitions@[i]).1@),
                            ) by {
                                if i < pre_ts.len() {
                                    assert(state_transitions@[i] == pre_ts[i]);
                                    lemma_pending_after_visit(
                                        contract_id,
                                        pre_vis,
                                        visited@,
                                        pre_q,
                                        sources@,
                                        cur,
                                        transition_parent_ids(pre_ts[i].1@),
                                    );
                                } else {
                                    assert(state_transitions@[i].1@ == ct@);
                                    assert(transition_parent_ids(ct@) == parents@);
                                }
                            }
                            assert forall|i: int|
                                0 <= i < state_extensions@.len() implies parents_pending(
                                contract_id,
                                visited@,
                                sources@,
                                extension_parent_ids((#[trigger] state_extensions@[i])@),
                            ) by {
                                lemma_pending_after_visit(
                                    contract_id,
                                    pre_vis,
                                    visited@,
                                    pre_q,
                                    sources@,
                                    cur,
                                    extension_parent_ids(state_extensions@[i]@),
                                );
                            }
                            lemma_len_union(
                                self.storage.transitions@.dom(),
                                self.storage.extensions@.dom(),
                            );
                            lemma_len_subset(
                                visited@,
                                self.storage.transitions@.dom().union(
                                    self.storage.extensions@.dom(),
                                ).insert(node_id),
                            );
                            assert(referenced_ancestor(self@, contract_id, node@, cur));
                            assert(self@.transitions.contains_key(cur)
                                <==> self.storage.transitions@.contains_key(cur));
                            assert(self@.extensions.contains_key(cur)
                                <==> self.storage.extensions@.contains_key(cur));
                            assert forall|k: int|
                                0 <= k < sources@.len() implies sources@[k] == contract_id
                                || referenced_ancestor(
                                self@,
                                contract_id,
                                node@,
                                #[trigger] sources@[k],
                            ) by {
                                if k < mid_q.len() {
                                    assert(sources@[k] == mid_q[k]);
                                    assert(mid_q[k] == pre_q[k + 1]);
                                } else {
                                    let p = parents@[k - mid_q.len()];
                                    assert(sources@[k] == p);
                                    if p != contract_id {
                                        assert(parents@.contains(p));
                                        assert(parent_step(self@, cur, p));
                                        lemma_path_extend(self@, contract_id, node@, cur, p);
                                    }
                                }
                            }
                            assert forall|i: int, j: int|
                                0 <= i < j < state_transitions@.len() implies (
                                #[trigger] state_transitions@[i]).1@.id != (
                                #[trigger] state_transitions@[j]).1@.id by {
                                assert(state_transitions@[i] == pre_ts[i]);
                                if j == pre_ts.len() {
                                    assert(pre_vis.contains(pre_ts[i].1@.id));
                                } else {
                                    assert(state_transitions@[j] == pre_ts[j]);
                                }
                            }
                            assert forall|i: int, j: int|
                                0 <= i < state_transitions@.len() && 0 <= j
                                    < state_extensions@.len() implies (
                                #[trigger] state_transitions@[i]).1@.id != (
                                #[trigger] state_extensions@[j])@.id by {
                                assert(pre_vis.contains(state_extensions@[j]@.id));
                                if i < pre_ts.len() {
                                    assert(state_transitions@[i] == pre_ts[i]);
                                    assert(pre_vis.contains(pre_ts[i].1@.id));
                                }
                            }
                            assert forall|i: int|
                                tgt_ts <= i < state_transitions@.len() implies referenced_ancestor(
                                self@,
                                contract_id,
                                node@,
                                (#[trigger] state_transitions@[i]).1@.id,
                            ) by {
                                if i < pre_ts.len() {
                                    assert(state_transitions@[i] == pre_ts[i]);
                                }
                            }
                        }
                    },
                    (None, Some(e)) => {
                        let ce = conceal_extension_all(e);
                        let parents = collect_parent_ids(
                            &e.parent_owned_rights,
                            &e.parent_public_rights,
                        );
                        let ghost pre_ts = state_transitions@;
                        let ghost pre_es = state_extensions@;
                        state_extensions.push(ce);
                        visited.insert(cur);
                        let ghost mid_q = sources@;
                        enqueue_all(&mut sources, &parents);
                        proof {
                            lemma_queue_append(mid_q, parents@);
                            lemma_conceal_owned_all_concealed(e@.owned_rights);
                            assert(self@.extensions.contains_key(cur));
                            assert(self@.extensions[cur] == e@);
                            assert(e@.id == cur);
                            assert(ancestor_ext_ok(self@, ce@));
                            let avs = anchored_seq_view(state_transitions@);
                            let esv = extension_seq_view(state_extensions@);
                            assert(esv.len() == pre_es.len() + 1);
                            assert(esv[pre_es.len() as int] == ce@);
                            assert forall|v: u64| visited@.contains(v) implies included_ancestor(
                                avs,
                                esv,
                                0,
                                0,
                                v,
                            ) by {
                                if v == cur {
                                    assert(esv[pre_es.len() as int].id == v);
                                } else {
                                    assert(pre_vis.contains(v));
                                    let pre_esv = extension_seq_view(pre_es);
                                    if exists|i: int|
                                        0 <= i < pre_esv.len() && (#[trigger] pre_esv[i]).id
                                            == v {
                                        let i = choose|i: int|
                                            0 <= i < pre_esv.len() && (
                                            #[trigger] pre_esv[i]).id == v;
                                        assert(esv[i] == pre_esv[i]);
                                    }
                                }
                            }
                            assert forall|i: int|
                                0 <= i < state_transitions@.len() implies parents_pending(
                                contract_id,
                                visited@,
                                sources@,
                                transition_parent_ids((#[trigger] state_transitions@[i]).1@),
                            ) by {
                                lemma_pending_after_visit(
                                    contract_id,
                                    pre_vis,
                                    visited@,
                                    pre_q,
                                    sources@,
                                    cur,
                                    transition_parent_ids(state_transitions@[i].1@),
                                );
                            }
                            assert forall|i: int|
                                0 <= i < state_extensions@.len() implies parents_pending(
                                contract_id,
                                visited@,
                                sources@,
                                extension_parent_ids((#[trigger] state_extensions@[i])@),
                            ) by {
                                if i < pre_es.len() {
                                    assert(state_extensions@[i] == pre_es[i]);
                                    lemma_pending_after_visit(
                                        contract_id,
                                        pre_vis,
                                        visited@,
                                        pre_q,
                                        sources@,
                                        cur,
                                        extension_parent_ids(pre_es[i]@),
                                    );
                                } else {
                                    assert(state_extensions@[i]@ == ce@);
                                    assert(extension_parent_ids(ce@) == parents@);
                                }
                            }
                            lemma_len_union(
                                self.storage.transitions@.dom(),
                                self.storage.extensions@.dom(),
                            );
                            lemma_len_subset(
                                visited@,
                                self.storage.transitions@.dom().union(
                                    self.storage.extensions@.dom(),
                                ).insert(node_id),
                            );
                            assert(referenced_ancestor(self@, contract_id, node@, cur));
                            assert(self@.transitions.contains_key(cur)
                                <==> self.storage.transitions@.contains_key(cur));
                            assert(self@.extensions.contains_key(cur)
                                <==> self.storage.extensions@.contains_key(cur));
                            assert forall|k: int|
                                0 <= k < sources@.len() implies sources@[k] == contract_id
                                || referenced_ancestor(
                                self@,
                                contract_id,
                                node@,
                                #[trigger] sources@[k],
                            ) by {
                                if k < mid_q.len() {
                                    assert(sources@[k] == mid_q[k]);
                                    assert(mid_q[k] == pre_q[k + 1]);
                                } else {
                                    let p = parents@[k - mid_q.len()];
                                    assert(sources@[k] == p);
                                    if p != contract_id {
                                        assert(parents@.contains(p));
                                        assert(parent_step(self@, cur, p));
                                        lemma_path_extend(self@, contract_id, node@, cur, p);
                                    }
                                }
                            }
                            assert forall|i: int, j: int|
                                0 <= i < j < state_extensions@.len() implies (
                                #[trigger] state_extensions@[i])@.id != (
                                #[trigger] state_extensions@[j])@.id by {
                                assert(state_extensions@[i] == pre_es[i]);
                                if j == pre_es.len() {
                                    assert(pre_vis.contains(pre_es[i]@.id));
                                } else {
                                    assert(state_extensions@[j] == pre_es[j]);
                                }
                            }
                            assert forall|i: int, j: int|
                                0 <= i < state_transitions@.len() && 0 <= j
                                    < state_extensions@.len() implies (
                                #[trigger] state_transitions@[i]).1@.id != (
                                #[trigger] state_extensions@[j])@.id by {
                                assert(pre_vis.contains(state_transitions@[i].1@.id));
                                if j < pre_es.len() {
                                    assert(state_extensions@[j] == pre_es[j]);
                                    assert(pre_vis.contains(pre_es[j]@.id));
                                }
                            }
                            assert forall|i: int|
                                tgt_es <= i < state_extensions@.len() implies referenced_ancestor(
                                self@,
                                contract_id,
                                node@,
                                (#[trigger] state_extensions@[i])@.id,
                            ) by {
                                if i < pre_es.len() {
                                    assert(state_extensions@[i] == pre_es[i]);
                                }
                            }
                        }
                    },
                    _ => {
                        proof {
                            assert(self@.transitions.contains_key(cur)
                                <==> self.storage.transitions@.contains_key(cur));
                            assert(self@.extensions.contains_key(cur)
                                <==> self.storage.extensions@.contains_key(cur));
                            assert(self@.index.contains_key(cur) && self@.anchors.contains_key(
                                self@.index[cur],
                            ));
                            assert(self@.transitions.contains_key(cur)
                                <==> self@.extensions.contains_key(cur));
                            if all_resolvable {
                                assert(ancestor_resolvable(self@, cur));
                                assert(false);
                            }
                        }
                        return Err(Error::StorageError);
                    },
                }
            }
        }
        let ghost fts = state_transitions@;
        let ghost fes = state_extensions@;
        proof {
            assert forall|i: int|
                0 <= i < fts.len() implies parents_pending(
                contract_id,
                visited@,
                sources@,
                transition_parent_ids((#[trigger] fts[i]).1@),
            ) by {
                assert(fts[i] == state_transitions@[i]);
            }
            assert forall|i: int|
                0 <= i < fes.len() implies parents_pending(
                contract_id,
                visited@,
                sources@,
                extension_parent_ids((#[trigger] fes[i])@),
            ) by {
                assert(fes[i] == state_extensions@[i]);
            }
            assert forall|v: u64| visited@.contains(v) implies included_ancestor(
                anchored_seq_view(fts),
                extension_seq_view(fes),
                0,
                0,
                v,
            ) by {
                assert(fts == state_transitions@);
                assert(fes == state_extensions@);
            }
            assert forall|i: int, j: int|
                0 <= i < j < fts.len() implies (#[trigger] fts[i]).1@.id != (
                #[trigger] fts[j]).1@.id by {
                assert(fts[i] == state_transitions@[i]);
                assert(fts[j] == state_transitions@[j]);
            }
            assert forall|i: int, j: int|
                0 <= i < j < fes.len() implies (#[trigger] fes[i])@.id != (
                #[trigger] fes[j])@.id by {
                assert(fes[i] == state_extensions@[i]);
                assert(fes[j] == state_extensions@[j]);
            }
            assert forall|i: int, j: int|
                0 <= i < fts.len() && 0 <= j < fes.len() implies (#[trigger] fts[i]).1@.id != (
                #[trigger] fes[j])@.id by {
                assert(fts[i] == state_transitions@[i]);
                assert(fes[j] == state_extensions@[j]);
            }
            assert forall|i: int|
                tgt_ts <= i < fts.len() implies referenced_ancestor(
                self@,
                contract_id,
                node@,
                (#[trigger] fts[i]).1@.id,
            ) by {
                assert(fts[i] == state_transitions@[i]);
            }
            assert forall|i: int|
                tgt_es <= i < fes.len() implies referenced_ancestor(
                self@,
                contract_id,
                node@,
                (#[trigger] fes[i])@.id,
            ) by {
                assert(fes[i] == state_extensions@[i]);
            }
        }
        let mut endpoints: Vec<(u64, SealEndpoint)> = Vec::new();
        let mut k: usize = 0;
        while k < expose.len()
            invariant
                k <= expose.len(),
                endpoints@.len() == k,
                forall|j: int| 0 <= j < k ==> endpoints@[j] == (node_id, expose@[j]),
            decreases expose.len() - k,
        {
            endpoints.push((node_id, expose[k]));
            k = k + 1;
        }
        let c = Consignment {
            genesis: dup_genesis(genesis),
            endpoints,
            state_transitions,
            state_extensions,
        };
        proof {
            assert(c@.endpoints =~= expose@.map_values(
                |e: SealEndpoint| (node_id_spec(node@), e),
            ));
            assert(c@.genesis == self@.geneses[contract_id]);
            assert(c@.genesis.id == contract_id);
            assert(consign_ancestors_ok(c@, self@, tgt_ts, tgt_es));
            assert forall|i: int|
                0 <= i < c@.state_transitions.len() implies parents_pending(
                contract_id,
                visited@,
                sources@,
                transition_parent_ids((#[trigger] c@.state_transitions[i]).1),
            ) by {
                assert(c.state_transitions@[i] == fts[i]);
                assert(c@.state_transitions[i].1 == fts[i].1@);
            }
            assert forall|i: int|
                0 <= i < c@.state_extensions.len() implies parents_pending(
                contract_id,
                visited@,
                sources@,
                extension_parent_ids(#[trigger] c@.state_extensions[i]),
            ) by {
                assert(c.state_extensions@[i] == fes[i]);
                assert(c@.state_extensions[i] == fes[i]@);
            }
            assert(c@.state_transitions == anchored_seq_view(fts));
            assert(c@.state_extensions == extension_seq_view(fes));
            lemma_closure_from_pending(c@, contract_id, visited@, sources@);
            assert(is_ancestor_closed(c@));
            assert forall|i: int, j: int|
                0 <= i < j < c@.state_transitions.len() implies (
                #[trigger] c@.state_transitions[i]).1.id != (
                #[trigger] c@.state_transitions[j]).1.id by {
                assert(c.state_transitions@[i] == fts[i]);
                assert(c.state_transitions@[j] == fts[j]);
            }
            assert forall|i: int, j: int|
                0 <= i < j < c@.state_extensions.len() implies (
                #[trigger] c@.state_extensions[i]).id != (#[trigger] c@.state_extensions[j]).id by {
                assert(c.state_extensions@[i] == fes[i]);
                assert(c.state_extensions@[j] == fes[j]);
            }
            assert forall|i: int, j: int|
                0 <= i < c@.state_transitions.len() && 0 <= j
                    < c@.state_extensions.len() implies (
                #[trigger] c@.state_transitions[i]).1.id != (
                #[trigger] c@.state_extensions[j]).id by {
                assert(c.state_transitions@[i] == fts[i]);
                assert(c.state_extensions@[j] == fes[j]);
            }
            assert(entries_distinct(c@));
            assert forall|i: int|
                tgt_ts <= i < c@.state_transitions.len() implies referenced_ancestor(
                self@,
                contract_id,
                node@,
                (#[trigger] c@.state_transitions[i]).1.id,
            ) by {
                assert(c.state_transitions@[i] == fts[i]);
            }
            assert forall|i: int|
                tgt_es <= i < c@.state_extensions.len() implies referenced_ancestor(
                self@,
                contract_id,
                node@,
                (#[trigger] c@.state_extensions[i]).id,
            ) by {
                assert(c.state_extensions@[i] == fes[i]);
            }
            assert(consign_entries_referenced(c@, self@, contract_id, node@, tgt_ts, tgt_es));
            assert(consign_ok(c@, self@, contract_id, node@, anc_opt, expose@));
        }
        Ok(c)
    }

    /// Enumerate every stored genesis, in insertion order.
    pub fn genesis_iter(&self) -> (r: DumbIter<Genesis>)
        requires
            self.wf(),
        ensures
            r.pos == 0,
            forall|i: int, j: int|
                0 <= i < j < r.items@.len() ==> (#[trigger] r.items@[i]).id != (
                #[trigger] r.items@[j]).id,
            forall|i: int|
                0 <= i < r.items@.len() ==> self@.geneses.contains_key(
                    (#[trigger] r.items@[i]).id,
                ) && r.items@[i]@ == self@.geneses[r.items@[i].id],
            forall|k: u64|
                #[trigger] self@.geneses.contains_key(k) ==> exists|i: int|
                    0 <= i < r.items@.len() && (#[trigger] r.items@[i]).id == k,
    {
        let ids = &self.storage.genesis_ids;
        let mut items: Vec<Genesis> = Vec::new();
        let mut i: usize = 0;
        while i < ids.len()
            invariant
                self.wf(),
                ids == &self.storage.genesis_ids,
                i <= ids@.len(),
                items@.len() == i,
                forall|m: int| 0 <= m < i ==> (#[trigger] items@[m]).id == ids@[m],
                forall|m: int|
                    0 <= m < i ==> (#[trigger] items@[m])@ == self@.geneses[ids@[m]],
            decreases ids@.len() - i,
        {
            let g = self.storage.genesis(ids[i]).unwrap();
            items.push(dup_genesis(g));
            i = i + 1;
        }
        proof {
            assert forall|k: u64| #[trigger] self@.geneses.contains_key(k) implies exists|m: int|
                0 <= m < items@.len() && (#[trigger] items@[m]).id == k by {
                assert(self.storage.geneses@.contains_key(k));
                assert(ids@.contains(k));
                let m = choose|m: int| 0 <= m < ids@.len() && ids@[m] == k;
                assert(items@[m].id == k);
            }
        }
        DumbIter::from_items(items)
    }

    /// Enumerate every stored anchor, in insertion order.
    pub fn anchor_iter(&self) -> (r: DumbIter<Anchor>)
        requires
            self.wf(),
        ensures
            r.pos == 0,
            forall|i: int, j: int|
                0 <= i < j < r.items@.len() ==> (#[trigger] r.items@[i]).id != (
                #[trigger] r.items@[j]).id,
            forall|i: int|
                0 <= i < r.items@.len() ==> self@.anchors.contains_key(
                    (#[trigger] r.items@[i]).id,
                ) && r.items@[i] == self@.anchors[r.items@[i].id],
            forall|k: u64|
                #[trigger] self@.anchors.contains_key(k) ==> exists|i: int|
                    0 <= i < r.items@.len() && (#[trigger] r.items@[i]).id == k,
    {
        let ids = &self.storage.anchor_ids;
        let mut items: Vec<Anchor> = Vec::new();
        let mut i: usize = 0;
        while i < ids.len()
            invariant
                self.wf(),
                ids == &self.storage.anchor_ids,
                i <= ids@.len(),
                items@.len() == i,
                forall|m: int| 0 <= m < i ==> (#[trigger] items@[m]).id == ids@[m],
                forall|m: int| 0 <= m < i ==> (#[trigger] items@[m]) == self@.anchors[ids@[m]],
            decreases ids@.len() - i,
        {
            let a = self.storage.anchor(ids[i]).unwrap();
            items.push(*a);
            i = i + 1;
        }
        proof {
            assert forall|k: u64| #[trigger] self@.anchors.contains_key(k) implies exists|m: int|
                0 <= m < items@.len() && (#[trigger] items@[m]).id == k by {
                assert(self.storage.anchors@.contains_key(k));
                assert(ids@.contains(k));
                let m = choose|m: int| 0 <= m < ids@.len() && ids@[m] == k;
                assert(items@[m].id == k);
            }
        }
        DumbIter::from_items(items)
    }

    /// Enumerate every stored transition, in insertion order.
    pub fn transition_iter(&self) -> (r: DumbIter<Transition>)
        requires
            self.wf(),
        ensures
            r.pos == 0,
            forall|i: int, j: int|
                0 <= i < j < r.items@.len() ==> (#[trigger] r.items@[i]).id != (
                #[trigger] r.items@[j]).id,
            forall|i: int|
                0 <= i < r.items@.len() ==> self@.transitions.contains_key(
                    (#[trigger] r.items@[i]).id,
                ) && r.items@[i]@ == self@.transitions[r.items@[i].id],
            forall|k: u64|
                #[trigger] self@.transitions.contains_key(k) ==> exists|i: int|
                    0 <= i < r.items@.len() && (#[trigger] r.items@[i]).id == k,
    {
        let ids = &self.storage.transition_ids;
        let mut items: Vec<Transition> = Vec::new();
        let mut i: usize = 0;
        while i < ids.len()
            invariant
                self.wf(),
                ids == &self.storage.transition_ids,
                i <= ids@.len(),
                items@.len() == i,
                forall|m: int| 0 <= m < i ==> (#[trigger] items@[m]).id == ids@[m],
                forall|m: int|
                    0 <= m < i ==> (#[trigger] items@[m])@ == self@.transitions[ids@[m]],
            decreases ids@.len() - i,
        {
            let t = self.storage.transition(ids[i]).unwrap();
            items.push(dup_transition(t));
            i = i + 1;
        }
        proof {
            assert forall|k: u64|
                #[trigger] self@.transitions.contains_key(k) implies exists|m: int|
                0 <= m < items@.len() && (#[trigger] items@[m]).id == k by {
                assert(self.storage.transitions@.contains_key(k));
                assert(ids@.contains(k));
                let m = choose|m: int| 0 <= m < ids@.len() && ids@[m] == k;
                assert(items@[m].id == k);
            }
        }
        DumbIter::from_items(items)
    }

    /// Enumerate every stored extension, in insertion order.
    pub fn extension_iter(&self) -> (r: DumbIter<Extension>)
        requires
            self.wf(),
        ensures
            r.pos == 0,
            forall|i: int, j: int|
                0 <= i < j < r.items@.len() ==> (#[trigger] r.items@[i]).id != (
                #[trigger] r.items@[j]).id,
            forall|i: int|
                0 <= i < r.items@.len() ==> self@.extensions.contains_key(
                    (#[trigger] r.items@[i]).id,
                ) && r.items@[i]@ == self@.extensions[r.items@[i].id],
            forall|k: u64|
                #[trigger] self@.extensions.contains_key(k) ==> exists|i: int|
                    0 <= i < r.items@.len() && (#[trigger] r.items@[i]).id == k,
    {
        let ids = &self.storage.extension_ids;
        let mut items: Vec<Extension> = Vec::new();
        let mut i: usize = 0;
        while i < ids.len()
            invariant
                self.wf(),
                ids == &self.storage.extension_ids,
                i <= ids@.len(),
                items@.len() == i,
                forall|m: int| 0 <= m < i ==> (#[trigger] items@[m]).id == ids@[m],
                forall|m: int|
                    0 <= m < i ==> (#[trigger] items@[m])@ == self@.extensions[ids@[m]],
            decreases ids@.len() - i,
        {
            let e = self.storage.extension(ids[i]).unwrap();
            items.push(dup_extension(e));
            i = i + 1;
        }
        proof {
            assert forall|k: u64|
                #[trigger] self@.extensions.contains_key(k) implies exists|m: int|
                0 <= m < items@.len() && (#[trigger] items@[m]).id == k by {
                assert(self.storage.extensions@.contains_key(k));
                assert(ids@.contains(k));
                let m = choose|m: int| 0 <= m < ids@.len() && ids@[m] == k;
                assert(items@[m].id == k);
            }
        }
        DumbIter::from_items(items)
    }

    /// Enumerate the identifiers of every stored node: geneses first, then
    /// transitions, then extensions.
    pub fn nid_iter(&self) -> (r: DumbIter<u64>)
        requires
            self.wf(),
        ensures
            r.pos == 0,
            forall|i: int|
                0 <= i < r.items@.len() ==> self@.geneses.contains_key(#[trigger] r.items@[i])
                    || self@.transitions.contains_key(r.items@[i])
                    || self@.extensions.contains_key(r.items@[i]),
            forall|k: u64|
                self@.geneses.contains_key(k) || self@.transitions.contains_key(k)
                    || self@.extensions.contains_key(k) ==> #[trigger] r.items@.contains(k),
    {
        let mut items: Vec<u64> = Vec::new();
        push_ids(&mut items, &self.storage.genesis_ids);
        push_ids(&mut items, &self.storage.transition_ids);
        push_ids(&mut items, &self.storage.extension_ids);
        proof {
            let gs = self.storage.genesis_ids@;
            let ts = self.storage.transition_ids@;
            let es = self.storage.extension_ids@;
            assert(items@ == gs + ts + es);
            assert forall|k: u64|
                self@.geneses.contains_key(k) || self@.transitions.contains_key(k)
                    || self@.extensions.contains_key(k) implies #[trigger] items@.contains(
                k,
            ) by {
                if self@.geneses.contains_key(k) {
                    assert(self.storage.geneses@.contains_key(k));
                    assert(gs.contains(k));
                    let m = choose|m: int| 0 <= m < gs.len() && gs[m] == k;
                    assert((gs + ts)[m] == gs[m]);
                    assert(((gs + ts) + es)[m] == (gs + ts)[m]);
                    assert(items@[m] == k);
                } else if self@.transitions.contains_key(k) {
                    assert(self.storage.transitions@.contains_key(k));
                    assert(ts.contains(k));
                    let m = choose|m: int| 0 <= m < ts.len() && ts[m] == k;
                    assert((gs + ts)[gs.len() + m] == ts[m]);
                    assert(((gs + ts) + es)[gs.len() + m] == (gs + ts)[gs.len() + m]);
                    assert(items@[gs.len() + m] == k);
                } else {
                    assert(self.storage.extensions@.contains_key(k));
                    assert(es.contains(k));
                    let m = choose|m: int| 0 <= m < es.len() && es[m] == k;
                    assert(((gs + ts) + es)[gs.len() + ts.len() + m] == es[m]);
                    assert(items@[gs.len() + ts.len() + m] == k);
                }
            }
        }
        DumbIter::from_items(items)
    }

    /// Removal of state superseded by a stale consignment is an open policy
    /// question; this stash retains everything and removes nothing.
    pub fn forget(&mut self, _consignment: &Consignment) -> (r: Result<usize, Error>)
        ensures
            *final(self) == *old(self),
            r == Ok::<usize, Error>(0usize),
    {
        Ok(0)
    }

    /// Garbage collection of unreachable nodes is an open policy question;
    /// this stash retains everything and removes nothing.
    pub fn prune(&mut self) -> (r: Result<usize, Error>)
        ensures
            *final(self) == *old(self),
            r == Ok::<usize, Error>(0usize),
    {
        Ok(0)
    }

    /// The public-disclosure artifact carries nothing yet; its structure is
    /// open work.
    pub fn disclose(&self) -> (r: Result<Disclosure, Error>)
        ensures
            r is Ok,
    {
        Ok(Disclosure {  })
    }
}

} // verus!
