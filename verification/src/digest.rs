//! Identifiers derived from digests and from randomness.

use sha2::{Digest, Sha256};
use uuid::Uuid;
use vstd::prelude::*;
use vstd::utf8::encode_utf8;

use crate::bytes::{big_endian, id_from_bytes};

verus! {

/// The SHA-256 digest of some bytes.
pub uninterp spec fn sha256_of(data: Seq<u8>) -> [u8; 32];

/// Calls `Sha256::digest` of the `sha2` crate. The digest depends on the bytes alone.
#[verifier::external_body]
pub(crate) fn sha256(data: &[u8]) -> (digest: [u8; 32])
    ensures
        digest == sha256_of(data@),
{
    Sha256::digest(data).into()
}

/// Calls `Uuid::new_v4` of the `uuid` crate. The identifier is random but for the version
/// and variant fields, which say so.
#[verifier::external_body]
pub(crate) fn random_uuid() -> (id: u128)
    ensures
        is_version_4(id),
{
    Uuid::new_v4().as_u128()
}

/// Whether an identifier carries version four and the standard variant.
pub open spec fn is_version_4(id: u128) -> bool {
    &&& (id as nat / 0x1000_0000_0000_0000_0000nat) % 16 == 4
    &&& (id as nat / 0x4000_0000_0000_0000nat) % 4 == 2
}

/// The first sixteen bytes of a digest with the version and variant fields of an
/// identifier.
pub open spec fn identifier_bytes(digest: Seq<u8>) -> Seq<u8> {
    digest.take(16).update(6, (64 + digest[6] % 16) as u8).update(8, (128 + digest[8] % 64) as u8)
}

/// Shapes a digest into an identifier.
pub fn identifier_from_digest(digest: &[u8; 32]) -> (id: u128)
    ensures
        id == big_endian(identifier_bytes(digest@)),
{
    let mut bytes: [u8; 16] = [0; 16];
    let mut i: usize = 0;
    while i < 16
        invariant
            i <= 16,
            forall|k: int| 0 <= k < i ==> bytes@[k] == digest@[k],
        decreases 16 - i,
    {
        bytes[i] = digest[i];
        i += 1;
    }
    let version: u8 = digest[6];
    let variant: u8 = digest[8];
    assert((version & 0x0f) | 0x40 == 64 + version % 16) by (bit_vector);
    assert((variant & 0x3f) | 0x80 == 128 + variant % 64) by (bit_vector);
    bytes[6] = (version & 0x0f) | 0x40;
    bytes[8] = (variant & 0x3f) | 0x80;
    assert(bytes@ =~= identifier_bytes(digest@));
    id_from_bytes(&bytes)
}

/// What is digested to name a publisher's stream.
pub open spec fn stream_id_input(publisher_id: [u8; 32], label: Seq<char>) -> Seq<u8> {
    encode_utf8("glacialcast-native-stream-id-v1"@) + publisher_id@ + encode_utf8(label)
}

/// The identifier of a publisher's stream.
pub open spec fn stream_id_of(publisher_id: [u8; 32], label: Seq<char>) -> nat {
    big_endian(identifier_bytes(sha256_of(stream_id_input(publisher_id, label))@))
}

/// The identifier of a publisher's stream: the same for the same publisher and label.
pub fn stable_stream_id(publisher_id: &[u8; 32], label: &str) -> (id: u128)
    ensures
        id == stream_id_of(*publisher_id, label@),
{
    let mut input: Vec<u8> = Vec::new();
    input.extend_from_slice("glacialcast-native-stream-id-v1".as_bytes());
    input.extend_from_slice(publisher_id);
    input.extend_from_slice(label.as_bytes());
    assert(input@ =~= stream_id_input(*publisher_id, label@));
    let digest: [u8; 32] = sha256(input.as_slice());
    identifier_from_digest(&digest)
}

/// A fresh identifier for an epoch. Nothing beyond its version and variant is promised.
pub fn fresh_epoch_id() -> (id: u128)
    ensures
        is_version_4(id),
{
    random_uuid()
}

} // verus!
