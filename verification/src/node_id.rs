//! Node identities: 128-bit numbers, written as UUIDs.

use vstd::prelude::*;

verus! {

/// The identity of a node.
pub type NodeId = u128;

/// The identity that `text` writes as a UUID, where it is one.
pub uninterp spec fn uuid_in(text: Seq<char>) -> Option<u128>;

/// `uuid::Uuid::from_str`: reads a UUID in any of its usual spellings.
#[verifier::external_body]
pub(crate) fn parse_uuid(text: &str) -> (r: Option<NodeId>)
    ensures
        r == uuid_in(text@),
{
    text.parse::<uuid::Uuid>().ok().map(|u| u.as_u128())
}

/// `uuid::Uuid` as text, through `Display`: a spelling that reads back as the same
/// identity, of 32 digits and 4 hyphens.
#[verifier::external_body]
pub(crate) fn uuid_text(id: NodeId) -> (r: String)
    ensures
        uuid_in(r@) == Some(id),
        r@.len() == 36,
{
    uuid::Uuid::from_u128(id).to_string()
}

/// Whether an identity is a version 4 UUID: its version field says so, and its variant
/// field is that of RFC 9562. The other bits are free.
pub open spec fn is_random_uuid(id: NodeId) -> bool {
    &&& (id >> 76) & 0xf == 4
    &&& (id >> 62) & 0x3 == 2
}

/// `uuid::Uuid::new_v4`: a random identity, in the layout of a version 4 UUID. Of the
/// bits that the layout leaves free nothing is said.
#[verifier::external_body]
pub(crate) fn new_node_id() -> (r: NodeId)
    ensures
        is_random_uuid(r),
{
    uuid::Uuid::new_v4().as_u128()
}

} // verus!
