//! Seal-bound assignments and their disclosure states.
//!
//! Every assignment item binds a piece of contract state to a single-use
//! seal. Each half of an item — the seal and the bound state — is either
//! revealed (the full value is present) or concealed (only a one-way
//! commitment to it is present). Concealment is always computable;
//! revelation needs the pre-image, and the known-seals list supplies seal
//! pre-images only, so ingestion recovers seals, never hidden state.

use vstd::prelude::*;

use crate::seal::{
    conceal_seal, hash_eq, hashes_contain, hashes_view, seal_conceal_spec, sha256d, sha256d_of,
    u64_be_bytes, SealDefinition,
};

verus! {

/// The state payload carried by one assignment item. Declarative rights
/// carry no payload; fungible rights carry a numeric amount; custom rights
/// carry arbitrary bound data.
#[derive(Clone, PartialEq, Eq, Debug)]
pub enum StateData {
    Void,
    Amount(u64),
    Data(Vec<u8>),
}

#[verifier::ext_equal]
pub enum StateView {
    Void,
    Amount(u64),
    Data(Seq<u8>),
}

impl View for StateData {
    type V = StateView;

    open spec fn view(&self) -> StateView {
        match self {
            StateData::Void => StateView::Void,
            StateData::Amount(a) => StateView::Amount(*a),
            StateData::Data(d) => StateView::Data(d@),
        }
    }
}

/// Commitment pre-image of a state payload: a tag byte for the payload
/// kind, then the payload itself.
pub open spec fn state_preimage_spec(s: StateView) -> Seq<u8> {
    match s {
        StateView::Void => seq![0u8],
        StateView::Amount(a) => seq![1u8] + u64_be_bytes(a),
        StateView::Data(d) => seq![2u8] + d,
    }
}

/// Concealed form of a state payload: the one-way commitment over its
/// pre-image.
pub open spec fn state_conceal_spec(s: StateView) -> Seq<u8> {
    sha256d_of(state_preimage_spec(s))
}

fn state_preimage(s: &StateData) -> (r: Vec<u8>)
    ensures
        r@ == state_preimage_spec(s@),
{
    let mut v: Vec<u8> = Vec::new();
    match s {
        StateData::Void => {
            v.push(0);
            proof {
                assert(v@ =~= state_preimage_spec(s@));
            }
        },
        StateData::Amount(a) => {
            v.push(1);
            v.push((*a >> 56) as u8);
            v.push((*a >> 48) as u8);
            v.push((*a >> 40) as u8);
            v.push((*a >> 32) as u8);
            v.push((*a >> 24) as u8);
            v.push((*a >> 16) as u8);
            v.push((*a >> 8) as u8);
            v.push(*a as u8);
            proof {
                assert(v@ =~= state_preimage_spec(s@));
            }
        },
        StateData::Data(d) => {
            v.push(2);
            let mut i: usize = 0;
            while i < d.len()
                invariant
                    i <= d.len(),
                    v@.len() == 1 + i,
                    v@[0] == 2u8,
                    forall|k: int| 0 <= k < i ==> v@[1 + k] == d@[k],
                decreases d.len() - i,
            {
                v.push(d[i]);
                i = i + 1;
            }
            proof {
                assert(v@ =~= state_preimage_spec(s@));
            }
        },
    }
    v
}

/// Conceal a state payload: compute the one-way commitment to it.
pub fn conceal_state(s: &StateData) -> (r: [u8; 32])
    ensures
        r@ == state_conceal_spec(s@),
{
    let pre = state_preimage(s);
    sha256d(&pre)
}

/// The seal half of an item: the full definition, or its commitment.
#[derive(Clone, Copy, PartialEq, Eq, Debug)]
pub enum SealPart {
    Revealed(SealDefinition),
    Concealed([u8; 32]),
}

#[verifier::ext_equal]
pub enum SealPartView {
    Revealed(SealDefinition),
    Concealed(Seq<u8>),
}

impl View for SealPart {
    type V = SealPartView;

    open spec fn view(&self) -> SealPartView {
        match self {
            SealPart::Revealed(s) => SealPartView::Revealed(*s),
            SealPart::Concealed(h) => SealPartView::Concealed(h@),
        }
    }
}

/// The state half of an item: the full payload, or its commitment.
#[derive(Clone, PartialEq, Eq, Debug)]
pub enum StatePart {
    Revealed(StateData),
    Concealed([u8; 32]),
}

#[verifier::ext_equal]
pub enum StatePartView {
    Revealed(StateView),
    Concealed(Seq<u8>),
}

impl View for StatePart {
    type V = StatePartView;

    open spec fn view(&self) -> StatePartView {
        match self {
            StatePart::Revealed(s) => StatePartView::Revealed(s@),
            StatePart::Concealed(h) => StatePartView::Concealed(h@),
        }
    }
}

/// One seal-bound item: its seal half and its state half, each in one of
/// the two disclosure states.
#[derive(Clone, PartialEq, Eq, Debug)]
pub struct Assignment {
    pub seal: SealPart,
    pub state: StatePart,
}

#[verifier::ext_equal]
pub struct AssignmentView {
    pub seal: SealPartView,
    pub state: StatePartView,
}

impl View for Assignment {
    type V = AssignmentView;

    open spec fn view(&self) -> AssignmentView {
        AssignmentView { seal: self.seal@, state: self.state@ }
    }
}

/// The commitment identifying an item's seal, whatever its disclosure
/// state.
pub open spec fn item_seal_commitment(a: AssignmentView) -> Seq<u8> {
    match a.seal {
        SealPartView::Revealed(s) => seal_conceal_spec(s),
        SealPartView::Concealed(h) => h,
    }
}

pub open spec fn conceal_seal_part_spec(p: SealPartView) -> SealPartView {
    match p {
        SealPartView::Revealed(s) => SealPartView::Concealed(seal_conceal_spec(s)),
        SealPartView::Concealed(_) => p,
    }
}

pub open spec fn conceal_state_part_spec(p: StatePartView) -> StatePartView {
    match p {
        StatePartView::Revealed(s) => StatePartView::Concealed(state_conceal_spec(s)),
        StatePartView::Concealed(_) => p,
    }
}

/// Concealing an item replaces both halves by their commitments; a half
/// already concealed is left as it stands. The revealed payload is absent
/// from the result.
pub open spec fn conceal_item_spec(a: AssignmentView) -> AssignmentView {
    AssignmentView {
        seal: conceal_seal_part_spec(a.seal),
        state: conceal_state_part_spec(a.state),
    }
}

/// Whether neither half of the item carries anything but a commitment.
pub open spec fn item_fully_concealed(a: AssignmentView) -> bool {
    a.seal is Concealed && a.state is Concealed
}

/// Concealing with exceptions: an item stays as it is exactly when the
/// commitment of its seal is among `keep`; every other item is fully
/// concealed.
pub open spec fn conceal_item_except_spec(a: AssignmentView, keep: Seq<Seq<u8>>) -> AssignmentView {
    if keep.contains(item_seal_commitment(a)) {
        a
    } else {
        conceal_item_spec(a)
    }
}

/// The first seal of `known` whose commitment equals `h`, if any.
pub open spec fn find_known_spec(known: Seq<SealDefinition>, h: Seq<u8>) -> Option<SealDefinition>
    decreases known.len(),
{
    if known.len() == 0 {
        None
    } else if seal_conceal_spec(known[0]) == h {
        Some(known[0])
    } else {
        find_known_spec(known.drop_first(), h)
    }
}

/// Revealing an item with a list of known seal pre-images: a concealed
/// seal whose commitment matches a known seal gets that seal back; the
/// state half is untouched, since no state pre-image is supplied.
pub open spec fn reveal_item_spec(a: AssignmentView, known: Seq<SealDefinition>) -> AssignmentView {
    match a.seal {
        SealPartView::Concealed(h) => match find_known_spec(known, h) {
            Some(k) => AssignmentView { seal: SealPartView::Revealed(k), state: a.state },
            None => a,
        },
        SealPartView::Revealed(_) => a,
    }
}

/// Deep view of a vector of items.
pub open spec fn items_view(s: Seq<Assignment>) -> Seq<AssignmentView> {
    s.map_values(|a: Assignment| a@)
}

pub open spec fn conceal_items_spec(s: Seq<AssignmentView>) -> Seq<AssignmentView> {
    s.map_values(|a: AssignmentView| conceal_item_spec(a))
}

pub open spec fn conceal_items_except_spec(s: Seq<AssignmentView>, keep: Seq<Seq<u8>>) -> Seq<
    AssignmentView,
> {
    s.map_values(|a: AssignmentView| conceal_item_except_spec(a, keep))
}

pub open spec fn reveal_items_spec(s: Seq<AssignmentView>, known: Seq<SealDefinition>) -> Seq<
    AssignmentView,
> {
    s.map_values(|a: AssignmentView| reveal_item_spec(a, known))
}

/// An assignment group: all items of one owned-rights type, tagged with the
/// kind of state they bind. Declarative items bind no payload, fungible ones
/// a numeric amount, custom ones arbitrary data.
#[derive(Clone, PartialEq, Eq, Debug)]
pub enum Assignments {
    Declarative(Vec<Assignment>),
    DiscreteFiniteField(Vec<Assignment>),
    CustomData(Vec<Assignment>),
}

#[verifier::ext_equal]
pub enum AssignmentsView {
    Declarative(Seq<AssignmentView>),
    DiscreteFiniteField(Seq<AssignmentView>),
    CustomData(Seq<AssignmentView>),
}

impl View for Assignments {
    type V = AssignmentsView;

    open spec fn view(&self) -> AssignmentsView {
        match self {
            Assignments::Declarative(v) => AssignmentsView::Declarative(items_view(v@)),
            Assignments::DiscreteFiniteField(v) => AssignmentsView::DiscreteFiniteField(
                items_view(v@),
            ),
            Assignments::CustomData(v) => AssignmentsView::CustomData(items_view(v@)),
        }
    }
}

pub open spec fn assignments_items(a: AssignmentsView) -> Seq<AssignmentView> {
    match a {
        AssignmentsView::Declarative(s) => s,
        AssignmentsView::DiscreteFiniteField(s) => s,
        AssignmentsView::CustomData(s) => s,
    }
}

pub open spec fn conceal_assignments_spec(a: AssignmentsView) -> AssignmentsView {
    match a {
        AssignmentsView::Declarative(s) => AssignmentsView::Declarative(conceal_items_spec(s)),
        AssignmentsView::DiscreteFiniteField(s) => AssignmentsView::DiscreteFiniteField(
            conceal_items_spec(s),
        ),
        AssignmentsView::CustomData(s) => AssignmentsView::CustomData(conceal_items_spec(s)),
    }
}

pub open spec fn conceal_assignments_except_spec(a: AssignmentsView, keep: Seq<Seq<u8>>) -> AssignmentsView {
    match a {
        AssignmentsView::Declarative(s) => AssignmentsView::Declarative(
            conceal_items_except_spec(s, keep),
        ),
        AssignmentsView::DiscreteFiniteField(s) => AssignmentsView::DiscreteFiniteField(
            conceal_items_except_spec(s, keep),
        ),
        AssignmentsView::CustomData(s) => AssignmentsView::CustomData(
            conceal_items_except_spec(s, keep),
        ),
    }
}

/// Revelation works on the groups that carry a seal-bound payload;
/// declarative groups are passed through untouched.
pub open spec fn reveal_assignments_spec(a: AssignmentsView, known: Seq<SealDefinition>) -> AssignmentsView {
    match a {
        AssignmentsView::Declarative(s) => AssignmentsView::Declarative(s),
        AssignmentsView::DiscreteFiniteField(s) => AssignmentsView::DiscreteFiniteField(
            reveal_items_spec(s, known),
        ),
        AssignmentsView::CustomData(s) => AssignmentsView::CustomData(reveal_items_spec(s, known)),
    }
}

/// Whether every item of the group is fully concealed.
pub open spec fn assignments_all_concealed(a: AssignmentsView) -> bool {
    forall|i: int|
        0 <= i < assignments_items(a).len() ==> item_fully_concealed(
            #[trigger] assignments_items(a)[i],
        )
}

fn dup_bytes(v: &Vec<u8>) -> (r: Vec<u8>)
    ensures
        r@ == v@,
{
    let mut r: Vec<u8> = Vec::new();
    let mut i: usize = 0;
    while i < v.len()
        invariant
            i <= v.len(),
            r@ =~= v@.subrange(0, i as int),
        decreases v.len() - i,
    {
        r.push(v[i]);
        i = i + 1;
    }
    proof {
        assert(r@ =~= v@);
    }
    r
}

pub fn dup_state(s: &StateData) -> (r: StateData)
    ensures
        r@ == s@,
{
    match s {
        StateData::Void => StateData::Void,
        StateData::Amount(a) => StateData::Amount(*a),
        StateData::Data(d) => StateData::Data(dup_bytes(d)),
    }
}

fn dup_state_part(p: &StatePart) -> (r: StatePart)
    ensures
        r@ == p@,
{
    match p {
        StatePart::Revealed(s) => StatePart::Revealed(dup_state(s)),
        StatePart::Concealed(h) => StatePart::Concealed(*h),
    }
}

pub fn dup_item(a: &Assignment) -> (r: Assignment)
    ensures
        r@ == a@,
{
    Assignment { seal: a.seal, state: dup_state_part(&a.state) }
}

fn conceal_state_part(p: &StatePart) -> (r: StatePart)
    ensures
        r@ == conceal_state_part_spec(p@),
{
    match p {
        StatePart::Revealed(s) => StatePart::Concealed(conceal_state(s)),
        StatePart::Concealed(h) => StatePart::Concealed(*h),
    }
}

pub fn conceal_item(a: &Assignment) -> (r: Assignment)
    ensures
        r@ == conceal_item_spec(a@),
{
    let seal = match &a.seal {
        SealPart::Revealed(s) => SealPart::Concealed(conceal_seal(s)),
        SealPart::Concealed(h) => SealPart::Concealed(*h),
    };
    Assignment { seal, state: conceal_state_part(&a.state) }
}

/// The commitment identifying the item's seal, computed if need be.
fn item_seal_hash(a: &Assignment) -> (r: [u8; 32])
    ensures
        r@ == item_seal_commitment(a@),
{
    match &a.seal {
        SealPart::Revealed(s) => conceal_seal(s),
        SealPart::Concealed(h) => *h,
    }
}

pub fn conceal_item_except(a: &Assignment, keep: &Vec<[u8; 32]>) -> (r: Assignment)
    ensures
        r@ == conceal_item_except_spec(a@, hashes_view(keep@)),
{
    let h = item_seal_hash(a);
    if hashes_contain(keep, &h) {
        dup_item(a)
    } else {
        conceal_item(a)
    }
}

/// Skipping a non-matching prefix does not change the first match.
proof fn lemma_find_known_skip(s: Seq<SealDefinition>, h: Seq<u8>, i: int)
    requires
        0 <= i <= s.len(),
        forall|j: int| 0 <= j < i ==> seal_conceal_spec(#[trigger] s[j]) != h,
    ensures
        find_known_spec(s.subrange(i, s.len() as int), h) == find_known_spec(s, h),
    decreases i,
{
    if i == 0 {
        assert(s.subrange(0, s.len() as int) =~= s);
    } else {
        lemma_find_known_skip(s, h, i - 1);
        let t = s.subrange(i - 1, s.len() as int);
        assert(t[0] == s[i - 1]);
        assert(t.drop_first() =~= s.subrange(i, s.len() as int));
    }
}

/// The first known seal whose commitment equals `h`, if any.
pub fn find_known(known: &Vec<SealDefinition>, h: &[u8; 32]) -> (r: Option<SealDefinition>)
    ensures
        r == find_known_spec(known@, h@),
{
    let mut i: usize = 0;
    while i < known.len()
        invariant
            i <= known.len(),
            forall|j: int| 0 <= j < i ==> seal_conceal_spec(#[trigger] known@[j]) != h@,
        decreases known.len() - i,
    {
        let c = conceal_seal(&known[i]);
        if hash_eq(&c, h) {
            proof {
                lemma_find_known_skip(known@, h@, i as int);
                let t = known@.subrange(i as int, known@.len() as int);
                assert(t[0] == known@[i as int]);
            }
            return Some(known[i]);
        }
        i = i + 1;
    }
    proof {
        lemma_find_known_skip(known@, h@, known@.len() as int);
        assert(known@.subrange(known@.len() as int, known@.len() as int).len() == 0);
    }
    None
}

pub fn reveal_item(a: &Assignment, known: &Vec<SealDefinition>) -> (r: Assignment)
    ensures
        r@ == reveal_item_spec(a@, known@),
{
    match &a.seal {
        SealPart::Concealed(h) => match find_known(known, h) {
            Some(k) => Assignment {
                seal: SealPart::Revealed(k),
                state: dup_state_part(&a.state),
            },
            None => dup_item(a),
        },
        SealPart::Revealed(_) => dup_item(a),
    }
}

pub fn dup_items(v: &Vec<Assignment>) -> (r: Vec<Assignment>)
    ensures
        items_view(r@) == items_view(v@),
{
    let mut r: Vec<Assignment> = Vec::new();
    let mut i: usize = 0;
    while i < v.len()
        invariant
            i <= v.len(),
            r@.len() == i,
            forall|k: int| 0 <= k < i ==> r@[k]@ == v@[k]@,
        decreases v.len() - i,
    {
        r.push(dup_item(&v[i]));
        i = i + 1;
    }
    proof {
        assert(items_view(r@) =~= items_view(v@));
    }
    r
}

pub fn conceal_items(v: &Vec<Assignment>) -> (r: Vec<Assignment>)
    ensures
        items_view(r@) == conceal_items_spec(items_view(v@)),
{
    let mut r: Vec<Assignment> = Vec::new();
    let mut i: usize = 0;
    while i < v.len()
        invariant
            i <= v.len(),
            r@.len() == i,
            forall|k: int| 0 <= k < i ==> r@[k]@ == conceal_item_spec(v@[k]@),
        decreases v.len() - i,
    {
        r.push(conceal_item(&v[i]));
        i = i + 1;
    }
    proof {
        assert(items_view(r@) =~= conceal_items_spec(items_view(v@)));
    }
    r
}

pub fn conceal_items_except(v: &Vec<Assignment>, keep: &Vec<[u8; 32]>) -> (r: Vec<Assignment>)
    ensures
        items_view(r@) == conceal_items_except_spec(items_view(v@), hashes_view(keep@)),
{
    let mut r: Vec<Assignment> = Vec::new();
    let mut i: usize = 0;
    while i < v.len()
        invariant
            i <= v.len(),
            r@.len() == i,
            forall|k: int|
                0 <= k < i ==> r@[k]@ == conceal_item_except_spec(v@[k]@, hashes_view(keep@)),
        decreases v.len() - i,
    {
        r.push(conceal_item_except(&v[i], keep));
        i = i + 1;
    }
    proof {
        assert(items_view(r@) =~= conceal_items_except_spec(items_view(v@), hashes_view(keep@)));
    }
    r
}

pub fn reveal_items(v: &Vec<Assignment>, known: &Vec<SealDefinition>) -> (r: Vec<Assignment>)
    ensures
        items_view(r@) == reveal_items_spec(items_view(v@), known@),
{
    let mut r: Vec<Assignment> = Vec::new();
    let mut i: usize = 0;
    while i < v.len()
        invariant
            i <= v.len(),
            r@.len() == i,
            forall|k: int| 0 <= k < i ==> r@[k]@ == reveal_item_spec(v@[k]@, known@),
        decreases v.len() - i,
    {
        r.push(reveal_item(&v[i], known));
        i = i + 1;
    }
    proof {
        assert(items_view(r@) =~= reveal_items_spec(items_view(v@), known@));
    }
    r
}

pub fn dup_assignments(a: &Assignments) -> (r: Assignments)
    ensures
        r@ == a@,
{
    match a {
        Assignments::Declarative(v) => Assignments::Declarative(dup_items(v)),
        Assignments::DiscreteFiniteField(v) => Assignments::DiscreteFiniteField(dup_items(v)),
        Assignments::CustomData(v) => Assignments::CustomData(dup_items(v)),
    }
}

pub fn conceal_assignments(a: &Assignments) -> (r: Assignments)
    ensures
        r@ == conceal_assignments_spec(a@),
{
    match a {
        Assignments::Declarative(v) => Assignments::Declarative(conceal_items(v)),
        Assignments::DiscreteFiniteField(v) => Assignments::DiscreteFiniteField(conceal_items(v)),
        Assignments::CustomData(v) => Assignments::CustomData(conceal_items(v)),
    }
}

pub fn conceal_assignments_except(a: &Assignments, keep: &Vec<[u8; 32]>) -> (r: Assignments)
    ensures
        r@ == conceal_assignments_except_spec(a@, hashes_view(keep@)),
{
    match a {
        Assignments::Declarative(v) => Assignments::Declarative(conceal_items_except(v, keep)),
        Assignments::DiscreteFiniteField(v) => Assignments::DiscreteFiniteField(
            conceal_items_except(v, keep),
        ),
        Assignments::CustomData(v) => Assignments::CustomData(conceal_items_except(v, keep)),
    }
}

pub fn reveal_assignments(a: &Assignments, known: &Vec<SealDefinition>) -> (r: Assignments)
    ensures
        r@ == reveal_assignments_spec(a@, known@),
{
    match a {
        Assignments::Declarative(v) => Assignments::Declarative(dup_items(v)),
        Assignments::DiscreteFiniteField(v) => Assignments::DiscreteFiniteField(
            reveal_items(v, known),
        ),
        Assignments::CustomData(v) => Assignments::CustomData(reveal_items(v, known)),
    }
}

} // verus!
