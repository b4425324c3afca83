//! Canonical attribute hashing: the SHA-256 of `"<event>+<attr>+<value>"`.
use vstd::prelude::*;
use vstd::utf8::encode_utf8;

use crate::hashing::{sha256_from_bytes, sha256_of, Sha256Buff};

verus! {

/// The canonical bytes hashed for one event attribute: event name, `+`,
/// attribute name, `+`, the attribute's rendered value.
pub open spec fn member_input(event: Seq<char>, attr: Seq<char>, value_bytes: Seq<u8>) -> Seq<u8> {
    encode_utf8(event) + seq![43u8] + encode_utf8(attr) + seq![43u8] + value_bytes
}

/// The hash of one event attribute.
pub open spec fn spec_member_hash(event: Seq<char>, attr: Seq<char>, value_bytes: Seq<u8>) -> Seq<
    u8,
> {
    sha256_of(member_input(event, attr, value_bytes))@
}

/// The mathematical view of a list of digests.
pub open spec fn sha_list_view(v: Seq<Sha256Buff>) -> Seq<Seq<u8>> {
    v.map_values(|b: Sha256Buff| b@)
}

/// Hashes the canonical string `"<event>+<attr>+<value>"`.
pub fn member_to_hash(event_type: &str, attr_name: &str, attr_value: &str) -> (r: Sha256Buff)
    ensures
        r@ == spec_member_hash(event_type@, attr_name@, encode_utf8(attr_value@)),
{
    let mut input: Vec<u8> = Vec::new();
    input.extend_from_slice(event_type.as_bytes());
    input.push(43);
    input.extend_from_slice(attr_name.as_bytes());
    input.push(43);
    input.extend_from_slice(attr_value.as_bytes());
    proof {
        assert(input@ =~= member_input(event_type@, attr_name@, encode_utf8(attr_value@)));
    }
    sha256_from_bytes(input.as_slice())
}

/// A value observed through a list of attribute hashes; zero or empty
/// attributes contribute no hash, at rule compile time and at match time
/// alike.
pub trait MemberHasher {
    /// The attribute hashes this value yields.
    spec fn spec_hash_members(&self) -> Seq<Seq<u8>>;

    /// Computes the attribute hashes.
    fn hash_members(&self) -> (v: Vec<Sha256Buff>)
        ensures
            sha_list_view(v@) == self.spec_hash_members(),
    ;
}

} // verus!
