//! The certified message tree: an ordered map from message keys to
//! digests whose labelled root hash becomes the canister's certified
//! data, with single-key and key-range inclusion witnesses.
//!
//! The tree itself is ic_certified_map's red-black tree; the library
//! reasons about it through `tree_entries`, the map of keys to digests
//! it holds, and treats the root hash and witness bytes as opaque
//! values determined by the tree.

use crate::keys::lex_lt;
use ic_certified_map::{AsHashTree, RbTree};
use serde::Serialize;
use vstd::prelude::*;

verus! {

#[verifier::external_type_specification]
#[verifier::external_body]
#[verifier::reject_recursive_types(K)]
#[verifier::reject_recursive_types(V)]
pub struct ExRbTree<K, V>(RbTree<K, V>);

/// The concrete tree the message plane uses: string keys, 32-byte digests.
pub type CertTree = RbTree<String, ic_certified_map::Hash>;

/// An empty set of tree entries.
pub open spec fn no_entries() -> Map<Seq<char>, Seq<u8>> {
    Map::empty()
}

/// What the certified tree holds: each key's 32-byte digest.
pub uninterp spec fn tree_entries(t: CertTree) -> Map<
    Seq<char>,
    Seq<u8>,
>;

/// The labelled root hash the tree publishes, a function of the tree
/// and the label alone.
pub uninterp spec fn labeled_root_of(
    t: CertTree,
    label: Seq<u8>,
) -> Seq<u8>;

/// The serialised witness for one key under the label, a function of
/// the tree and its arguments alone.
pub uninterp spec fn single_witness_of(
    t: CertTree,
    key: Seq<char>,
    label: Seq<u8>,
) -> Seq<u8>;

/// The serialised witness for the key range `[first, last]` under the
/// label, a function of the tree and its arguments alone.
pub uninterp spec fn range_witness_of(
    t: CertTree,
    first: Seq<char>,
    last: Seq<char>,
    label: Seq<u8>,
) -> Seq<u8>;

/// Relies on ic_certified_map::RbTree::new. Nothing is claimed of the
/// returned tree: constructors reset it with `tree_reset` and reason
/// from there.
#[verifier::external_body]
pub fn tree_new() -> CertTree {
    RbTree::new()
}

/// Relies on ic_certified_map::RbTree::new: a fresh tree holds nothing.
#[verifier::external_body]
pub fn tree_reset(t: &mut CertTree)
    ensures
        tree_entries(*final(t)) == no_entries(),
{
    *t = RbTree::new();
}

/// Relies on ic_certified_map::RbTree::insert: stores the digest under
/// the key, replacing any previous value there.
#[verifier::external_body]
pub fn tree_insert(t: &mut CertTree, key: &String, digest: &Vec<u8>)
    requires
        digest@.len() == 32,
    ensures
        tree_entries(*final(t)) == tree_entries(*old(t)).insert(key@, digest@),
{
    let mut h: ic_certified_map::Hash = [0u8; 32];
    h.copy_from_slice(digest.as_slice());
    t.insert(key.clone(), h);
}

/// Relies on ic_certified_map::RbTree::delete: removes the key's entry;
/// an absent key leaves the tree unchanged.
#[verifier::external_body]
pub fn tree_delete(t: &mut CertTree, key: &String)
    ensures
        tree_entries(*final(t)) == tree_entries(*old(t)).remove(key@),
{
    t.delete(key.as_bytes());
}

/// Relies on ic_certified_map::labeled_hash over RbTree::root_hash: the
/// 32-byte labelled root hash of the tree.
#[verifier::external_body]
pub fn labeled_root(t: &CertTree, label: &Vec<u8>) -> (r: Vec<u8>)
    ensures
        r@ == labeled_root_of(*t, label@),
        r@.len() == 32,
{
    ic_certified_map::labeled_hash(label.as_slice(), &t.root_hash()).to_vec()
}

/// Relies on ic_certified_map::RbTree::witness and labeled, serialised
/// with serde_cbor under the self-describe tag: the inclusion (or
/// absence) witness for one key.
#[verifier::external_body]
pub fn single_witness(
    t: &CertTree,
    key: &String,
    label: &Vec<u8>,
) -> (r: Vec<u8>)
    ensures
        r@ == single_witness_of(*t, key@, label@),
{
    let witness = t.witness(key.as_bytes());
    let tree = ic_certified_map::labeled(label.as_slice(), witness);
    let mut data: Vec<u8> = Vec::new();
    let mut serializer = serde_cbor::Serializer::new(&mut data);
    serializer.self_describe().unwrap();
    tree.serialize(&mut serializer).unwrap();
    data
}

/// Relies on ic_certified_map::RbTree::value_range and labeled,
/// serialised with serde_cbor under the self-describe tag: the witness
/// covering every key in `[first, last]`. value_range asserts that its
/// lower bracket is not above its upper one, so the range must be
/// ordered; UTF-8 preserves code-point order, so the character-level
/// order below implies the byte order the tree compares with.
#[verifier::external_body]
pub fn range_witness(
    t: &CertTree,
    first: &String,
    last: &String,
    label: &Vec<u8>,
) -> (r: Vec<u8>)
    requires
        lex_lt(first@, last@) || first@ == last@,
    ensures
        r@ == range_witness_of(*t, first@, last@, label@),
{
    let witness = t.value_range(first.as_bytes(), last.as_bytes());
    let tree = ic_certified_map::labeled(label.as_slice(), witness);
    let mut data: Vec<u8> = Vec::new();
    let mut serializer = serde_cbor::Serializer::new(&mut data);
    serializer.self_describe().unwrap();
    tree.serialize(&mut serializer).unwrap();
    data
}

} // verus!
