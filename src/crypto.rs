//! The cryptographic primitives that the session relies on: X25519 keys,
//! the Curve25519-XSalsa20-Poly1305 box, HMAC-SHA-256 and random bytes.
use vstd::prelude::*;
use crypto_box::aead::Aead;
use hmac::Mac;

verus! {

#[verifier::external_type_specification]
#[verifier::external_body]
pub struct ExAeadError(crypto_box::aead::Error);

#[verifier::external_type_specification]
#[verifier::external_body]
pub struct ExInvalidLength(hmac::digest::InvalidLength);

/// Size of a box nonce.
pub const NONCE_LEN: usize = 24;

/// Size of the Poly1305 tag that a box adds to its plaintext.
pub const TAG_LEN: usize = 16;

/// The X25519 public key of a 32-byte secret.
pub uninterp spec fn x25519_public(secret: Seq<u8>) -> Seq<u8>;

/// The box that `secret` seals for the holder of `peer`'s secret under `nonce`.
pub uninterp spec fn box_sealed(peer: Seq<u8>, secret: Seq<u8>, nonce: Seq<u8>, plaintext: Seq<u8>) -> Seq<u8>;

/// The plaintext of a box from `peer` to `secret` under `nonce`, or `None`
/// where the tag does not check.
pub uninterp spec fn box_opened(peer: Seq<u8>, secret: Seq<u8>, nonce: Seq<u8>, ciphertext: Seq<u8>) -> Option<Seq<u8>>;

/// HMAC-SHA-256 of `message` under `key`.
pub uninterp spec fn hmac_sha256(key: Seq<u8>, message: Seq<u8>) -> Seq<u8>;

/// Relies on crypto_box::SecretKey::public_key: the public key of a secret
/// given as 32 bytes.
#[verifier::external_body]
pub(crate) fn public_key_of(secret: &[u8; 32]) -> (r: [u8; 32])
    ensures
        r@ == x25519_public(secret@),
{
    crypto_box::SecretKey::from(*secret).public_key().to_bytes()
}

/// Relies on crypto_box::SalsaBox::new and Aead::encrypt with no associated
/// data: the Poly1305 tag followed by the ciphertext, 16 bytes longer than the
/// plaintext. Encryption fails only on non-empty associated data, so it
/// succeeds here.
#[verifier::external_body]
pub(crate) fn seal(peer: &[u8; 32], secret: &[u8; 32], nonce: &[u8; 24], plaintext: &[u8]) -> (r:
    Result<Vec<u8>, crypto_box::aead::Error>)
    ensures
        r is Ok,
        r matches Ok(c) ==> c@ == box_sealed(peer@, secret@, nonce@, plaintext@) && c@.len()
            == plaintext@.len() + 16,
{
    let b = crypto_box::SalsaBox::new(
        &crypto_box::PublicKey::from(*peer),
        &crypto_box::SecretKey::from(*secret),
    );
    b.encrypt(&crypto_box::Nonce::from(*nonce), plaintext)
}

/// Relies on crypto_box::SalsaBox::new and Aead::decrypt with no associated
/// data: the plaintext, or an error where the tag does not check.
#[verifier::external_body]
pub(crate) fn open(peer: &[u8; 32], secret: &[u8; 32], nonce: &[u8; 24], ciphertext: &[u8]) -> (r:
    Result<Vec<u8>, crypto_box::aead::Error>)
    ensures
        match r {
            Ok(p) => box_opened(peer@, secret@, nonce@, ciphertext@) == Some(p@),
            Err(_) => box_opened(peer@, secret@, nonce@, ciphertext@) is None,
        },
{
    let b = crypto_box::SalsaBox::new(
        &crypto_box::PublicKey::from(*peer),
        &crypto_box::SecretKey::from(*secret),
    );
    b.decrypt(&crypto_box::Nonce::from(*nonce), ciphertext)
}

/// Relies on hmac::Hmac<sha2::Sha256> (new_from_slice, update, finalize):
/// a 32-byte tag. `new_from_slice` takes a key of any length and never fails.
#[verifier::external_body]
pub(crate) fn hmac_sign(key: &[u8; 32], message: &[u8]) -> (r: Result<Vec<u8>, hmac::digest::InvalidLength>)
    ensures
        r is Ok,
        r matches Ok(t) ==> t@ == hmac_sha256(key@, message@) && t@.len() == 32,
{
    let mut mac = <hmac::Hmac<sha2::Sha256> as Mac>::new_from_slice(key)?;
    mac.update(message);
    Ok(mac.finalize().into_bytes().to_vec())
}

/// Relies on rand::fill with the thread-local generator, a CSPRNG seeded
/// from the operating system: `N` random bytes.
#[verifier::external_body]
pub(crate) fn random_array<const N: usize>() -> (r: [u8; N]) {
    let mut a = [0u8; N];
    rand::fill(&mut a);
    a
}

} // verus!
