//! The content hash: a fast, non-cryptographic digest of the bytes of a
//! message, by which predictions and training samples are keyed.

use byteorder::{ByteOrder, LittleEndian};
use twox_hash::XxHash64;
use vstd::bytes::{lemma_auto_spec_u64_to_from_le_bytes, spec_u64_to_le_bytes};
use vstd::prelude::*;

verus! {

/// The XXH64 digest of `data` under `seed`.
pub uninterp spec fn xxh64(seed: u64, data: Seq<u8>) -> u64;

/// `XxHash64::oneshot`: the XXH64 digest of all of `data` under `seed`.
#[verifier::external_body]
fn xxh64_oneshot(seed: u64, data: &[u8]) -> (digest: u64)
    ensures
        digest == xxh64(seed, data@),
{
    XxHash64::oneshot(seed, data)
}

/// `LittleEndian::write_u64`: overwrites the first eight bytes of `buf` with
/// `n`, least significant byte first. It panics on a shorter buffer.
#[verifier::external_body]
fn write_u64_le(buf: &mut Vec<u8>, n: u64)
    requires
        old(buf)@.len() >= 8,
    ensures
        final(buf)@ == spec_u64_to_le_bytes(n) + old(buf)@.skip(8),
{
    LittleEndian::write_u64(buf.as_mut_slice(), n)
}

/// The content hash of a message: its XXH64 digest under seed zero, as
/// eight bytes, least significant first.
pub open spec fn content_hash(email: Seq<u8>) -> Seq<u8> {
    spec_u64_to_le_bytes(xxh64(0, email))
}

/// Computes the content hash of a message.
pub fn hash_email(email: &[u8]) -> (hash: Vec<u8>)
    ensures
        hash@ == content_hash(email@),
        hash@.len() == 8,
{
    let digest = xxh64_oneshot(0, email);
    let mut buf: Vec<u8> = vec![0u8; 8];
    write_u64_le(&mut buf, digest);
    proof {
        lemma_auto_spec_u64_to_from_le_bytes();
        assert(buf@ =~= spec_u64_to_le_bytes(digest));
    }
    buf
}

} // verus!
