//! The layered crypto codec: key generation, per-hop symmetric sealing and
//! opening, signing and verification.
use vstd::prelude::*;
use crate::types::{CryptoKey, DarkNodeError, EncryptedData};

verus! {

/// Length in bytes of every nonce.
pub const NONCE_LEN: usize = 12;

/// Length in bytes of a cipher key and of an Ed25519 key.
pub const KEY_LEN: usize = 32;

/// Length in bytes of an Ed25519 signature.
pub const SIGNATURE_LEN: usize = 64;

/// Length in bytes of the authentication tag that follows a ciphertext.
pub const TAG_LEN: usize = 16;

/// Largest plaintext that ChaCha20-Poly1305 seals: fewer than 2^32 - 1
/// blocks of 64 bytes.
pub const MAX_PLAINTEXT_LEN: u64 = 274877906879;

/// SHA-256 digest of the bytes.
pub uninterp spec fn sha256_of(data: Seq<u8>) -> Seq<u8>;

/// ChaCha20-Poly1305 ciphertext followed by its tag, without associated data.
pub uninterp spec fn chacha20poly1305_seal(key: Seq<u8>, nonce: Seq<u8>, plaintext: Seq<u8>) -> Seq<u8>;

/// The Ed25519 public key derived from a secret key.
pub uninterp spec fn ed25519_public_of(secret: Seq<u8>) -> Seq<u8>;

/// The Ed25519 signature of the data under a secret key.
pub uninterp spec fn ed25519_signature_of(secret: Seq<u8>, data: Seq<u8>) -> Seq<u8>;

/// Whether Ed25519 accepts the signature of the data under the public key;
/// `None` where the key or the signature does not decode.
pub uninterp spec fn ed25519_verdict_of(public: Seq<u8>, data: Seq<u8>, signature: Seq<u8>) -> Option<bool>;

/// The ciphertext of a layer sealed for the holder of `key`: the cipher key is
/// the SHA-256 digest of the hop key.
pub open spec fn sealed_under(key: Seq<u8>, nonce: Seq<u8>, plaintext: Seq<u8>) -> Seq<u8> {
    chacha20poly1305_seal(sha256_of(key), nonce, plaintext)
}

/// Relies on rand's `OsRng::try_fill_bytes`: on success the buffer of `len`
/// bytes has been filled from the operating system's random source.
#[verifier::external_body]
fn os_random_bytes(len: usize) -> (r: Option<Vec<u8>>)
    ensures
        r matches Some(b) ==> b@.len() == len,
{
    let mut buf = vec![0u8; len];
    match rand::RngCore::try_fill_bytes(&mut rand::rngs::OsRng, &mut buf) {
        Ok(()) => Some(buf),
        Err(_) => None,
    }
}

/// Relies on sha2's `Sha256::digest`: a 32-byte digest of the data.
#[verifier::external_body]
fn sha256(data: &Vec<u8>) -> (r: Vec<u8>)
    ensures
        r@ == sha256_of(data@),
        r@.len() == KEY_LEN,
{
    <sha2::Sha256 as sha2::Digest>::digest(data.as_slice()).to_vec()
}

/// Relies on chacha20poly1305's `ChaCha20Poly1305::encrypt` (aead's `Aead`):
/// the sealed bytes, which it refuses only for a plaintext of 2^32 - 1 blocks
/// of 64 bytes or more.
#[verifier::external_body]
fn chacha_seal(key: &Vec<u8>, nonce: &Vec<u8>, plaintext: &Vec<u8>) -> (r: Option<Vec<u8>>)
    requires
        key@.len() == KEY_LEN,
        nonce@.len() == NONCE_LEN,
    ensures
        r matches Some(c) ==> c@ == chacha20poly1305_seal(key@, nonce@, plaintext@),
        r matches Some(c) ==> c@.len() == plaintext@.len() + TAG_LEN,
        plaintext@.len() <= MAX_PLAINTEXT_LEN ==> r is Some,
{
    let cipher = <chacha20poly1305::ChaCha20Poly1305 as chacha20poly1305::aead::NewAead>::new(
        chacha20poly1305::Key::from_slice(key.as_slice()),
    );
    let nonce = chacha20poly1305::Nonce::from_slice(nonce.as_slice());
    chacha20poly1305::aead::Aead::encrypt(&cipher, nonce, plaintext.as_slice()).ok()
}

/// Relies on chacha20poly1305's `ChaCha20Poly1305::decrypt` (aead's `Aead`):
/// it checks the tag over the ciphertext and only then removes the key
/// stream, so it opens exactly the bytes that sealing the plaintext gives.
#[verifier::external_body]
fn chacha_open(key: &Vec<u8>, nonce: &Vec<u8>, ciphertext: &Vec<u8>) -> (r: Option<Vec<u8>>)
    requires
        key@.len() == KEY_LEN,
        nonce@.len() == NONCE_LEN,
    ensures
        r matches Some(p) ==> ciphertext@ == chacha20poly1305_seal(key@, nonce@, p@),
        r matches Some(p) ==> p@.len() + TAG_LEN == ciphertext@.len(),
        forall|p: Seq<u8>|
            ciphertext@.len() <= MAX_PLAINTEXT_LEN && #[trigger] chacha20poly1305_seal(key@, nonce@, p)
                == ciphertext@ ==> r is Some && r->Some_0@ == p,
{
    let cipher = <chacha20poly1305::ChaCha20Poly1305 as chacha20poly1305::aead::NewAead>::new(
        chacha20poly1305::Key::from_slice(key.as_slice()),
    );
    let nonce = chacha20poly1305::Nonce::from_slice(nonce.as_slice());
    chacha20poly1305::aead::Aead::decrypt(&cipher, nonce, ciphertext.as_slice()).ok()
}

/// Relies on ed25519-dalek's `SecretKey::from_bytes`, which accepts any 32
/// bytes, and `PublicKey::from(&SecretKey)`: the derived 32-byte public key.
#[verifier::external_body]
fn ed25519_public(secret: &Vec<u8>) -> (r: Option<Vec<u8>>)
    requires
        secret@.len() == KEY_LEN,
    ensures
        r is Some,
        r matches Some(p) ==> p@ == ed25519_public_of(secret@) && p@.len() == KEY_LEN,
{
    let secret = ed25519_dalek::SecretKey::from_bytes(secret.as_slice()).ok()?;
    Some(ed25519_dalek::PublicKey::from(&secret).to_bytes().to_vec())
}

/// Relies on ed25519-dalek's `SecretKey::from_bytes`, `PublicKey::from` and
/// `Keypair::sign`: the 64-byte signature, a function of the key and the data.
#[verifier::external_body]
fn ed25519_sign(secret: &Vec<u8>, data: &Vec<u8>) -> (r: Option<Vec<u8>>)
    requires
        secret@.len() == KEY_LEN,
    ensures
        r is Some,
        r matches Some(s) ==> s@ == ed25519_signature_of(secret@, data@) && s@.len() == SIGNATURE_LEN,
{
    let secret = ed25519_dalek::SecretKey::from_bytes(secret.as_slice()).ok()?;
    let public = ed25519_dalek::PublicKey::from(&secret);
    let keypair = ed25519_dalek::Keypair { secret, public };
    Some(ed25519_dalek::Signer::sign(&keypair, data.as_slice()).to_bytes().to_vec())
}

/// Relies on ed25519-dalek's `PublicKey::from_bytes`, `Signature::from_bytes`
/// and `PublicKey::verify`: `None` where the key or the signature does not
/// decode, else whether the signature verifies.
#[verifier::external_body]
fn ed25519_verify(public: &Vec<u8>, data: &Vec<u8>, signature: &Vec<u8>) -> (r: Option<bool>)
    ensures
        r == ed25519_verdict_of(public@, data@, signature@),
{
    let public = ed25519_dalek::PublicKey::from_bytes(public.as_slice()).ok()?;
    let signature = ed25519_dalek::Signature::from_bytes(signature.as_slice()).ok()?;
    Some(ed25519_dalek::Verifier::verify(&public, data.as_slice(), &signature).is_ok())
}

/// Relies on uuid's `Builder::from_random_bytes`: a version 4 identifier made
/// from 16 random bytes.
#[verifier::external_body]
fn uuid_from_random(bytes: &Vec<u8>) -> (r: u128)
    requires
        bytes@.len() == 16,
{
    let mut raw = [0u8; 16];
    raw.copy_from_slice(bytes.as_slice());
    uuid::Builder::from_random_bytes(raw).into_uuid().as_u128()
}

/// A fresh random identifier; `None` where the random source fails.
pub fn fresh_id() -> (r: Option<u128>) {
    match os_random_bytes(16) {
        Some(bytes) => Some(uuid_from_random(&bytes)),
        None => None,
    }
}

/// The operations of the codec.
pub trait Crypto {
    /// A fresh Ed25519 key pair `(public, secret)`.
    fn generate_keypair(&self) -> (r: Result<(CryptoKey, CryptoKey), DarkNodeError>)
        ensures
            r matches Ok((pk, sk)) ==> sk@.len() == KEY_LEN && pk@ == ed25519_public_of(sk@)
                && pk@.len() == KEY_LEN,
            r matches Err(e) ==> e == DarkNodeError::RandomnessUnavailable,
    ;

    /// Seals `data` for the holder of `key`, under a fresh random nonce.
    fn encrypt(&self, data: &Vec<u8>, key: &CryptoKey) -> (r: Result<EncryptedData, DarkNodeError>)
        ensures
            r matches Ok(ed) ==> ed.nonce@.len() == NONCE_LEN && ed.aad is None && ed.data@
                == sealed_under(key@, ed.nonce@, data@) && ed.data@.len() == data@.len() + TAG_LEN,
            r matches Err(e) ==> (e == DarkNodeError::PayloadTooLarge <==> data@.len()
                > MAX_PLAINTEXT_LEN) && (e == DarkNodeError::PayloadTooLarge || e
                == DarkNodeError::RandomnessUnavailable),
    ;

    /// Opens a layer sealed for the holder of `key`: the plaintext exactly
    /// when the ciphertext is the sealing of it under the layer's nonce.
    fn decrypt(&self, data: &EncryptedData, key: &CryptoKey) -> (r: Result<Vec<u8>, DarkNodeError>)
        ensures
            r matches Ok(p) ==> data.nonce@.len() == NONCE_LEN && data.data@ == sealed_under(
                key@,
                data.nonce@,
                p@,
            ) && p@.len() + TAG_LEN == data.data@.len(),
            forall|p: Seq<u8>|
                data.nonce@.len() == NONCE_LEN && data.data@.len() <= MAX_PLAINTEXT_LEN && #[trigger] sealed_under(
                    key@,
                    data.nonce@,
                    p,
                ) == data.data@ ==> r is Ok && r->Ok_0@ == p,
            r matches Err(e) ==> e == DarkNodeError::LayerDecryptFailure,
    ;

    /// The Ed25519 signature of `data` under a 32-byte secret key.
    fn sign(&self, data: &Vec<u8>, secret: &CryptoKey) -> (r: Result<Vec<u8>, DarkNodeError>)
        ensures
            secret@.len() == KEY_LEN ==> r is Ok && r->Ok_0@ == ed25519_signature_of(secret@, data@),
            secret@.len() != KEY_LEN ==> r == Err::<Vec<u8>, DarkNodeError>(DarkNodeError::InvalidKey),
    ;

    /// Whether `signature` is a valid Ed25519 signature of `data` under
    /// `public`; a signature of the wrong length or encoding is refused.
    fn verify(&self, data: &Vec<u8>, signature: &Vec<u8>, public: &CryptoKey) -> (r: Result<bool, DarkNodeError>)
        ensures
            r == verdict(public@, data@, signature@),
    ;
}

/// The outcome of verifying a signature.
pub open spec fn verdict(public: Seq<u8>, data: Seq<u8>, signature: Seq<u8>) -> Result<bool, DarkNodeError> {
    if public.len() != KEY_LEN {
        Err(DarkNodeError::InvalidKey)
    } else if signature.len() != SIGNATURE_LEN {
        Err(DarkNodeError::InvalidSignature)
    } else {
        match ed25519_verdict_of(public, data, signature) {
            Some(b) => Ok(b),
            None => Err(DarkNodeError::InvalidSignature),
        }
    }
}

/// The codec over Ed25519 keys and ChaCha20-Poly1305 layers.
pub struct CryptoImpl;

impl Crypto for CryptoImpl {
    fn generate_keypair(&self) -> (r: Result<(CryptoKey, CryptoKey), DarkNodeError>) {
        match os_random_bytes(KEY_LEN) {
            Some(secret) => match ed25519_public(&secret) {
                Some(public) => Ok((CryptoKey(public), CryptoKey(secret))),
                None => Err(DarkNodeError::RandomnessUnavailable),
            },
            None => Err(DarkNodeError::RandomnessUnavailable),
        }
    }

    fn encrypt(&self, data: &Vec<u8>, key: &CryptoKey) -> (r: Result<EncryptedData, DarkNodeError>) {
        if data.len() as u64 > MAX_PLAINTEXT_LEN {
            return Err(DarkNodeError::PayloadTooLarge);
        }
        let cipher_key = sha256(&key.0);
        let nonce = match os_random_bytes(NONCE_LEN) {
            Some(n) => n,
            None => {
                return Err(DarkNodeError::RandomnessUnavailable);
            },
        };
        match chacha_seal(&cipher_key, &nonce, data) {
            Some(ciphertext) => Ok(EncryptedData { data: ciphertext, nonce, aad: None }),
            None => Err(DarkNodeError::PayloadTooLarge),
        }
    }

    fn decrypt(&self, data: &EncryptedData, key: &CryptoKey) -> (r: Result<Vec<u8>, DarkNodeError>) {
        if data.nonce.len() != NONCE_LEN {
            return Err(DarkNodeError::LayerDecryptFailure);
        }
        let cipher_key = sha256(&key.0);
        match chacha_open(&cipher_key, &data.nonce, &data.data) {
            Some(plaintext) => Ok(plaintext),
            None => Err(DarkNodeError::LayerDecryptFailure),
        }
    }

    fn sign(&self, data: &Vec<u8>, secret: &CryptoKey) -> (r: Result<Vec<u8>, DarkNodeError>) {
        if secret.0.len() != KEY_LEN {
            return Err(DarkNodeError::InvalidKey);
        }
        match ed25519_sign(&secret.0, data) {
            Some(s) => Ok(s),
            None => Err(DarkNodeError::InvalidKey),
        }
    }

    fn verify(&self, data: &Vec<u8>, signature: &Vec<u8>, public: &CryptoKey) -> (r: Result<bool, DarkNodeError>) {
        if public.0.len() != KEY_LEN {
            return Err(DarkNodeError::InvalidKey);
        }
        if signature.len() != SIGNATURE_LEN {
            return Err(DarkNodeError::InvalidSignature);
        }
        match ed25519_verify(&public.0, data, signature) {
            Some(b) => Ok(b),
            None => Err(DarkNodeError::InvalidSignature),
        }
    }
}

} // verus!
