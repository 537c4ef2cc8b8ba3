use vstd::prelude::*;
use ed25519_dalek::{Signature, VerifyingKey};

verus! {

#[verifier::external_type_specification]
#[verifier::external_body]
pub struct ExVerifyingKey(VerifyingKey);

/// Whether `ed25519_dalek::VerifyingKey::from_bytes` accepts these 32 bytes as a public key.
pub uninterp spec fn ed25519_key_accepted(key: Seq<u8>) -> bool;

/// Whether `verify_strict` of `ed25519_dalek` accepts `sig` over `msg` under the key
/// that `key` encodes.
pub uninterp spec fn ed25519_strict_verifies(key: Seq<u8>, msg: Seq<u8>, sig: Seq<u8>) -> bool;

/// An Ed25519 public key together with the 32 bytes it was read from.
pub struct PublicKey {
    bytes: [u8; 32],
    key: VerifyingKey,
}

impl PublicKey {
    /// The encoded key.
    pub closed spec fn encoded(&self) -> Seq<u8> {
        self.bytes@
    }
}

/// Calls `ed25519_dalek::VerifyingKey::from_bytes`. Claimed: a key comes back exactly
/// where the crate accepts the bytes, and it remembers the bytes it was read from.
#[verifier::external_body]
pub(crate) fn read_public_key(bytes: [u8; 32]) -> (r: Option<PublicKey>)
    ensures
        r is Some <==> ed25519_key_accepted(bytes@),
        r matches Some(k) ==> k.encoded() == bytes@,
{
    match VerifyingKey::from_bytes(&bytes) {
        Ok(key) => Some(PublicKey { bytes, key }),
        Err(_) => None,
    }
}

/// Calls `VerifyingKey::verify_strict` of `ed25519_dalek` on a signature made from the
/// 64 bytes by `Signature::from_bytes`. Claimed: the answer is `ed25519_strict_verifies`
/// of the key's bytes, the message and the signature bytes; it depends on nothing else,
/// since the key was read from those bytes.
#[verifier::external_body]
pub(crate) fn verify_strict(key: &PublicKey, msg: &[u8], sig: [u8; 64]) -> (r: bool)
    ensures
        r == ed25519_strict_verifies(key.encoded(), msg@, sig@),
{
    key.key.verify_strict(msg, &Signature::from_bytes(&sig)).is_ok()
}

/// The first `N` bytes of a list, as an array.
pub fn leading_array<const N: usize>(v: &Vec<u8>) -> (r: [u8; N])
    requires
        N <= v@.len(),
    ensures
        r@ == v@.take(N as int),
{
    let mut r: [u8; N] = [0u8; N];
    let mut i: usize = 0;
    while i < N
        invariant
            N <= v@.len(),
            r@.len() == N,
            i <= N,
            forall|k: int| 0 <= k < i ==> r@[k] == v@[k],
        decreases N - i,
    {
        r[i] = v[i];
        i = i + 1;
    }
    assert(r@ =~= v@.take(N as int));
    r
}

} // verus!
