//! The hash that turns a key of any length into the key that a node sees.

use sha2::Digest;
use vstd::prelude::*;
use vstd::string::*;
use vstd::utf8::*;

verus! {

/// The SHA-256 hash of a message.
pub uninterp spec fn sha256(message: Seq<u8>) -> Seq<u8>;

/// The hash that stands for a key: that of its UTF-8 bytes.
pub open spec fn key_hash(key: Seq<char>) -> Seq<u8> {
    sha256(encode_utf8(key))
}

/// Calls `sha2::Sha256::digest`. What it returns is a function of the message alone, here named
/// `sha256`; nothing else is claimed of it.
#[verifier::external_body]
fn sha256_digest(message: &[u8]) -> (hash: [u8; 32])
    ensures
        hash@ == sha256(message@),
{
    sha2::Sha256::digest(message).into()
}

/// Hashes a key to the 32 bytes that the protocol asks for.
pub fn hash_key_bytes(key: &str) -> (hash: [u8; 32])
    ensures
        hash@ == key_hash(key@),
        hash@ == sha256(encode_utf8(key@)),
        hash@.len() == 32,
{
    sha256_digest(key.as_bytes())
}

/// Every byte of a key counts, however long it is: the hash of a key is that of its whole UTF-8
/// encoding, and two keys that differ are hashed from messages that differ.
pub proof fn law_whole_keys_are_hashed(a: Seq<char>, b: Seq<char>)
    ensures
        key_hash(a) == sha256(encode_utf8(a)),
        key_hash(b) == sha256(encode_utf8(b)),
        encode_utf8(a) == encode_utf8(b) <==> a == b,
{
    encode_utf8_decode_utf8(a);
    encode_utf8_decode_utf8(b);
}

} // verus!
