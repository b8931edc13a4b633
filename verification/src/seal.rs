//! Single-use seals and their one-way concealment.
//!
//! A revealed seal points at a transaction output and carries a blinding
//! factor; its concealed form is a one-way commitment over the seal's
//! pre-image. Equality of concealed forms is all the stash algorithms ever
//! need.

use vstd::prelude::*;

verus! {

/// A revealed single-use-seal definition: the transaction output it points
/// at, plus the blinding factor that hides the outpoint inside the concealed
/// commitment.
#[derive(Clone, Copy, PartialEq, Eq, Debug)]
pub struct SealDefinition {
    pub txid: [u8; 32],
    pub vout: u32,
    pub blinding: u64,
}

/// The double-SHA256 digest of a byte string: the digest depends on the
/// input bytes alone; nothing more is assumed of it.
pub uninterp spec fn sha256d_of(data: Seq<u8>) -> Seq<u8>;

/// Relies on `bitcoin::hashes::sha256d::Hash::hash`: a 32-byte double-SHA256
/// digest of the input bytes.
#[verifier::external_body]
pub(crate) fn sha256d(data: &Vec<u8>) -> (r: [u8; 32])
    ensures
        r@ == sha256d_of(data@),
{
    let h = <bitcoin::hashes::sha256d::Hash as bitcoin::hashes::Hash>::hash(data.as_slice());
    <bitcoin::hashes::sha256d::Hash as bitcoin::hashes::Hash>::into_inner(h)
}

pub open spec fn u64_be_bytes(x: u64) -> Seq<u8> {
    seq![
        (x >> 56) as u8,
        (x >> 48) as u8,
        (x >> 40) as u8,
        (x >> 32) as u8,
        (x >> 24) as u8,
        (x >> 16) as u8,
        (x >> 8) as u8,
        x as u8,
    ]
}

pub open spec fn u32_be_bytes(x: u32) -> Seq<u8> {
    seq![(x >> 24) as u8, (x >> 16) as u8, (x >> 8) as u8, x as u8]
}

/// Commitment pre-image of a seal: the blinding factor (big-endian), then
/// the txid bytes, then the output index (big-endian).
pub open spec fn seal_preimage_spec(s: SealDefinition) -> Seq<u8> {
    u64_be_bytes(s.blinding) + s.txid@ + u32_be_bytes(s.vout)
}

/// Concealed form of a whole seal definition: the one-way commitment over
/// its pre-image.
pub open spec fn seal_conceal_spec(s: SealDefinition) -> Seq<u8> {
    sha256d_of(seal_preimage_spec(s))
}

fn seal_preimage(s: &SealDefinition) -> (r: Vec<u8>)
    ensures
        r@ == seal_preimage_spec(*s),
{
    let mut v: Vec<u8> = Vec::new();
    v.push((s.blinding >> 56) as u8);
    v.push((s.blinding >> 48) as u8);
    v.push((s.blinding >> 40) as u8);
    v.push((s.blinding >> 32) as u8);
    v.push((s.blinding >> 24) as u8);
    v.push((s.blinding >> 16) as u8);
    v.push((s.blinding >> 8) as u8);
    v.push(s.blinding as u8);
    proof {
        assert(v@ =~= u64_be_bytes(s.blinding));
    }
    let mut i: usize = 0;
    while i < 32
        invariant
            i <= 32,
            v@ =~= u64_be_bytes(s.blinding) + s.txid@.subrange(0, i as int),
        decreases 32 - i,
    {
        v.push(s.txid[i]);
        i = i + 1;
    }
    proof {
        assert(s.txid@.subrange(0, 32) =~= s.txid@);
        assert(v@ =~= u64_be_bytes(s.blinding) + s.txid@);
    }
    v.push((s.vout >> 24) as u8);
    v.push((s.vout >> 16) as u8);
    v.push((s.vout >> 8) as u8);
    v.push(s.vout as u8);
    proof {
        assert(v@ =~= seal_preimage_spec(*s));
    }
    v
}

/// Conceal a seal definition: compute the one-way commitment to it.
pub fn conceal_seal(s: &SealDefinition) -> (r: [u8; 32])
    ensures
        r@ == seal_conceal_spec(*s),
{
    let pre = seal_preimage(s);
    sha256d(&pre)
}

/// A reference to one specific seal-bound assignment inside a node: either
/// already known only by its concealed commitment, or given in full.
#[derive(Clone, Copy, PartialEq, Eq, Debug)]
pub enum SealEndpoint {
    Concealed([u8; 32]),
    Revealed(SealDefinition),
}

/// Concealed form of an endpoint.
pub open spec fn endpoint_conceal_spec(e: SealEndpoint) -> Seq<u8> {
    match e {
        SealEndpoint::Concealed(h) => h@,
        SealEndpoint::Revealed(s) => seal_conceal_spec(s),
    }
}

pub fn endpoint_conceal(e: &SealEndpoint) -> (r: [u8; 32])
    ensures
        r@ == endpoint_conceal_spec(*e),
{
    match e {
        SealEndpoint::Concealed(h) => *h,
        SealEndpoint::Revealed(s) => conceal_seal(s),
    }
}

/// Byte-level equality of two commitments.
pub fn hash_eq(a: &[u8; 32], b: &[u8; 32]) -> (r: bool)
    ensures
        r == (a@ == b@),
{
    let mut i: usize = 0;
    while i < 32
        invariant
            i <= 32,
            forall|j: int| 0 <= j < i ==> a@[j] == b@[j],
        decreases 32 - i,
    {
        if a[i] != b[i] {
            return false;
        }
        i = i + 1;
    }
    proof {
        assert(a@ =~= b@);
    }
    true
}

/// The commitments of a sequence of endpoints, in order.
pub open spec fn endpoints_conceal_spec(es: Seq<SealEndpoint>) -> Seq<Seq<u8>> {
    es.map_values(|e: SealEndpoint| endpoint_conceal_spec(e))
}

/// View of a vector of commitments as a sequence of byte sequences.
pub open spec fn hashes_view(hs: Seq<[u8; 32]>) -> Seq<Seq<u8>> {
    hs.map_values(|h: [u8; 32]| h@)
}

/// Conceal every endpoint of `expose`, keeping the order.
pub fn conceal_endpoints(expose: &Vec<SealEndpoint>) -> (r: Vec<[u8; 32]>)
    ensures
        hashes_view(r@) == endpoints_conceal_spec(expose@),
{
    let mut r: Vec<[u8; 32]> = Vec::new();
    let mut i: usize = 0;
    while i < expose.len()
        invariant
            i <= expose.len(),
            r@.len() == i,
            forall|k: int| 0 <= k < i ==> r@[k]@ == endpoint_conceal_spec(expose@[k]),
        decreases expose.len() - i,
    {
        r.push(endpoint_conceal(&expose[i]));
        i = i + 1;
    }
    proof {
        assert(hashes_view(r@) =~= endpoints_conceal_spec(expose@));
    }
    r
}

/// Whether `h` occurs among the commitments `hs`.
pub fn hashes_contain(hs: &Vec<[u8; 32]>, h: &[u8; 32]) -> (r: bool)
    ensures
        r == hashes_view(hs@).contains(h@),
{
    let mut i: usize = 0;
    while i < hs.len()
        invariant
            i <= hs.len(),
            forall|j: int| 0 <= j < i ==> hashes_view(hs@)[j] != h@,
        decreases hs.len() - i,
    {
        if hash_eq(&hs[i], h) {
            assert(hashes_view(hs@)[i as int] == h@);
            return true;
        }
        i = i + 1;
    }
    false
}

} // verus!
