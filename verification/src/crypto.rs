//! The outside cryptography and randomness the kernel relies on:
//! BLAKE3 digests for store keys and file hashes, Ed25519 signing and
//! verification of capability tokens, and random message ids. Each
//! call is a single trusted wrapper; everything built on them is
//! verified.

use vstd::prelude::*;
use ring::signature::KeyPair;
use crate::ids::{pid_bytes, format_process_id, ProcessId};

verus! {

/// What BLAKE3 returns on a byte string; a function of the bytes
/// alone, the same in every process and on every machine.
pub uninterp spec fn blake3_of(s: Seq<u8>) -> Seq<u8>;

/// Relies on blake3::hash: a 32-byte digest computed from the input
/// bytes alone.
#[verifier::external_body]
pub fn hash_bytes(input: &Vec<u8>) -> (r: Vec<u8>)
    ensures
        r@ == blake3_of(input@),
        r@.len() == 32,
{
    blake3::hash(input.as_slice()).as_bytes().to_vec()
}

/// The stable 32-byte store key of a process id: the BLAKE3 digest of
/// its canonical string form.
pub fn pid_hash(p: &ProcessId) -> (r: Vec<u8>)
    ensures
        r@ == blake3_of(pid_bytes(p@)),
        r@.len() == 32,
{
    let s = format_process_id(p);
    hash_bytes(&s)
}

#[verifier::external_type_specification]
#[verifier::external_body]
pub struct ExEd25519KeyPair(ring::signature::Ed25519KeyPair);

/// Whether `sig` is a valid Ed25519 signature on `msg` under the
/// public key `pk`; a function of the three byte strings alone.
pub uninterp spec fn ed25519_sig_ok(pk: Seq<u8>, msg: Seq<u8>, sig: Seq<u8>) -> bool;

/// Relies on ring's UnparsedPublicKey::verify with the ED25519
/// algorithm: deterministic verification of (pk, msg, sig).
#[verifier::external_body]
pub fn ed25519_verify(pk: &Vec<u8>, msg: &Vec<u8>, sig: &Vec<u8>) -> (r: bool)
    ensures
        r == ed25519_sig_ok(pk@, msg@, sig@),
{
    let key = ring::signature::UnparsedPublicKey::new(&ring::signature::ED25519, pk.as_slice());
    key.verify(msg.as_slice(), sig.as_slice()).is_ok()
}

/// Relies on ring's Ed25519KeyPair::sign: an Ed25519 signature is 64
/// bytes. Which bytes come back depends on the keypair, so no more is
/// assumed of them.
#[verifier::external_body]
pub fn ed25519_sign(kp: &ring::signature::Ed25519KeyPair, msg: &Vec<u8>) -> (r: Vec<u8>)
    ensures
        r@.len() == 64,
{
    kp.sign(msg.as_slice()).as_ref().to_vec()
}

/// Relies on ring's KeyPair::public_key for Ed25519: the public key
/// is 32 bytes.
#[verifier::external_body]
pub fn ed25519_public_key(kp: &ring::signature::Ed25519KeyPair) -> (r: Vec<u8>)
    ensures
        r@.len() == 32,
{
    kp.public_key().as_ref().to_vec()
}

/// Relies on rand::random: a value drawn from the thread-local
/// generator; nothing is promised of it.
pub assume_specification<T>[ rand::random::<T> ]() -> (r: T)
    where
        rand::distributions::Standard: rand::distributions::Distribution<T>,
;

} // verus!
