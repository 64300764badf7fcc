//! Trusted boundary to the cryptographic primitives: the sha3 digest,
//! ed25519 signing and verification, and the random source.  Each
//! wrapper's contract states only what the outside crate's source and
//! documentation show; everything above this boundary is verified.
use vstd::prelude::*;
use sha3::Digest;

verus! {

/// The SHA3-512 digest of a byte sequence: 64 bytes, a function of the
/// input alone.
pub uninterp spec fn sha3_512_of(m: Seq<u8>) -> Seq<u8>;

/// The public key half stored in a 64-byte ed25519 secret key.
pub uninterp spec fn ed25519_public_of(sk: Seq<u8>) -> Seq<u8>;

/// The ed25519 signature produced from a secret key, a message and a
/// 16-byte noise value; deterministic in those three inputs.
pub uninterp spec fn ed25519_sign_of(sk: Seq<u8>, m: Seq<u8>, noise: Seq<u8>) -> Seq<u8>;

/// Whether an ed25519 signature verifies for a public key and message;
/// a function of the three byte strings alone.
pub uninterp spec fn ed25519_verifies(pk: Seq<u8>, m: Seq<u8>, sig: Seq<u8>) -> bool;

/// Whether a 64-byte ed25519 secret key is internally consistent: its
/// stored public half matches the key derived from its seed.
pub uninterp spec fn ed25519_keypair_ok(sk: Seq<u8>) -> bool;

/// Relies on sha3::Sha3_512: a 64-byte digest computed from the input
/// bytes alone.
#[verifier::external_body]
pub fn sha3_512(m: &Vec<u8>) -> (r: Vec<u8>)
    ensures
        r@ == sha3_512_of(m@),
        r@.len() == 64,
{
    let mut hasher = sha3::Sha3_512::new();
    hasher.update(m.as_slice());
    hasher.finalize().to_vec()
}

/// Relies on ed25519_compact::SecretKey::sign with a noise value: the
/// signature is 64 bytes, deterministic in (key, message, noise), and,
/// for a consistent secret key, verifies under the key's public half.
#[verifier::external_body]
pub fn ed25519_sign(sk: &Vec<u8>, m: &Vec<u8>, noise: &Vec<u8>) -> (r: Vec<u8>)
    requires
        sk@.len() == 64,
        noise@.len() == 16,
    ensures
        r@ == ed25519_sign_of(sk@, m@, noise@),
        r@.len() == 64,
        ed25519_keypair_ok(sk@) ==> ed25519_verifies(ed25519_public_of(sk@), m@, r@),
{
    let secret = ed25519_compact::SecretKey::from_slice(sk.as_slice()).unwrap();
    let noise = ed25519_compact::Noise::from_slice(noise.as_slice()).unwrap();
    let sig = secret.sign(m.as_slice(), Some(noise));
    sig.as_slice().to_vec()
}

/// Relies on ed25519_compact::PublicKey::verify: deterministic in the
/// public key, message and signature bytes.
#[verifier::external_body]
pub fn ed25519_verify(pk: &Vec<u8>, m: &Vec<u8>, sig: &Vec<u8>) -> (r: bool)
    requires
        pk@.len() == 32,
        sig@.len() == 64,
    ensures
        r == ed25519_verifies(pk@, m@, sig@),
{
    let public = ed25519_compact::PublicKey::from_slice(pk.as_slice()).unwrap();
    let signature = ed25519_compact::Signature::from_slice(sig.as_slice()).unwrap();
    public.verify(m.as_slice(), &signature).is_ok()
}

/// Relies on ed25519_compact::SecretKey::public_key: the 32-byte public
/// half stored in the secret key.
#[verifier::external_body]
pub fn ed25519_public_key(sk: &Vec<u8>) -> (r: Vec<u8>)
    requires
        sk@.len() == 64,
    ensures
        r@ == ed25519_public_of(sk@),
        r@.len() == 32,
{
    let secret = ed25519_compact::SecretKey::from_slice(sk.as_slice()).unwrap();
    secret.public_key().as_slice().to_vec()
}

/// Relies on ed25519_compact::KeyPair::from_seed: a 64-byte secret key
/// whose public half is derived from the 32-byte seed, so the pair is
/// consistent.  An all-zero seed is refused by the crate, so it is
/// excluded here.
#[verifier::external_body]
pub fn ed25519_keypair_from_seed(seed: &Vec<u8>) -> (r: (Vec<u8>, Vec<u8>))
    requires
        seed@.len() == 32,
        exists|i: int| 0 <= i < 32 && seed@[i] != 0,
    ensures
        r.0@.len() == 64,
        r.1@.len() == 32,
        ed25519_keypair_ok(r.0@),
        r.1@ == ed25519_public_of(r.0@),
{
    let mut seed_bytes = [0u8; 32];
    seed_bytes.copy_from_slice(seed.as_slice());
    let pair = ed25519_compact::KeyPair::from_seed(ed25519_compact::Seed::new(seed_bytes));
    (pair.sk.as_slice().to_vec(), pair.pk.as_slice().to_vec())
}

/// Relies on rand::random: 32 bytes from the thread-local cryptographic
/// generator; nothing is assumed of their values.
#[verifier::external_body]
pub fn random_32() -> (r: Vec<u8>)
    ensures
        r@.len() == 32,
{
    let bytes: [u8; 32] = rand::random();
    bytes.to_vec()
}

} // verus!
