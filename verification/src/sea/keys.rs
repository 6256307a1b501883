//! P-256 keys, signatures and key agreement, and AES-256-GCM, from the outside
//! crates that provide them, with keys held as bytes.
use vstd::prelude::*;
use p256::ecdsa::signature::Signer as _;
use p256::ecdsa::signature::Verifier as _;
use p256::elliptic_curve::sec1::ToEncodedPoint as _;
use aes_gcm::aead::Aead as _;
use aes_gcm::KeyInit as _;

verus! {

/// The 64-byte ECDSA P-256 signature (SHA-256, deterministic nonce) that the private key
/// with these 32 bytes makes of a message.
pub uninterp spec fn p256_signature(private_key: Seq<u8>, msg: Seq<u8>) -> Seq<u8>;

/// The 65-byte uncompressed SEC1 encoding of the public key of a P-256 private key.
pub uninterp spec fn p256_public_of(private_key: Seq<u8>) -> Seq<u8>;

/// The 32 bytes are a P-256 private scalar (`p256::ecdsa::SigningKey::from_bytes` accepts
/// them: not zero and below the group order).
pub uninterp spec fn p256_signing_key_ok(private_key: Seq<u8>) -> bool;

/// ECDSA P-256 signing (`p256::ecdsa::SigningKey::from_bytes`, `Signer::try_sign`,
/// `Signature::to_bytes`): `Err` with the crate's message when the bytes are not a private
/// key, or when signing fails (the deterministic nonce gives a zero `r` or `s`). A signature
/// parses back (`Signature::from_bytes`) and verifies over the message under the key's public
/// key.
#[verifier::external_body]
pub(crate) fn p256_sign(private_key: &[u8], msg: &[u8]) -> (r: Result<Vec<u8>, String>)
    requires
        private_key@.len() == 32,
    ensures
        r is Ok ==> p256_signing_key_ok(private_key@),
        r matches Ok(s) ==> s@ == p256_signature(private_key@, msg@) && s@.len() == 64,
        r matches Ok(s) ==> p256_signature_ok(s@) && p256_verifies(p256_public_of(private_key@), s@, msg@),
{
    let bytes: [u8; 32] = private_key.try_into().unwrap();
    let key = p256::ecdsa::SigningKey::from_bytes(&bytes.into()).map_err(|e| e.to_string())?;
    let sig: p256::ecdsa::Signature = key.try_sign(msg).map_err(|e| e.to_string())?;
    Ok(sig.to_bytes().to_vec())
}

/// The SEC1 bytes are a point of P-256 (`p256::ecdsa::VerifyingKey::from_sec1_bytes` accepts them).
pub uninterp spec fn p256_verifying_key_ok(sec1: Seq<u8>) -> bool;

/// The 64 bytes are an ECDSA P-256 signature (`p256::ecdsa::Signature::from_bytes` accepts them).
pub uninterp spec fn p256_signature_ok(sig: Seq<u8>) -> bool;

/// The signature of the message verifies under the public key with the SEC1 bytes.
pub uninterp spec fn p256_verifies(sec1: Seq<u8>, sig: Seq<u8>, msg: Seq<u8>) -> bool;

/// Whether a public key parses (`p256::ecdsa::VerifyingKey::from_sec1_bytes`): `Err` with
/// the crate's message when it does not.
#[verifier::external_body]
pub(crate) fn p256_key_check(sec1: &[u8]) -> (r: Result<(), String>)
    ensures
        r is Ok <==> p256_verifying_key_ok(sec1@),
{
    p256::ecdsa::VerifyingKey::from_sec1_bytes(sec1).map(|_| ()).map_err(|e| e.to_string())
}

/// The outcome of checking an ECDSA P-256 signature.
pub enum SignatureCheck {
    /// The public key does not parse, with the crate's message.
    BadKey(String),
    /// The signature does not parse.
    BadSignature,
    /// Whether the signature verifies.
    Checked(bool),
}

/// ECDSA P-256 verification (`p256::ecdsa::VerifyingKey::from_sec1_bytes`,
/// `p256::ecdsa::Signature::from_bytes`, `Verifier::verify`).
#[verifier::external_body]
pub(crate) fn p256_check(sec1: &[u8], sig: &[u8], msg: &[u8]) -> (r: SignatureCheck)
    requires
        sig@.len() == 64,
    ensures
        match r {
            SignatureCheck::BadKey(_) => !p256_verifying_key_ok(sec1@),
            SignatureCheck::BadSignature => p256_verifying_key_ok(sec1@) && !p256_signature_ok(sig@),
            SignatureCheck::Checked(b) => p256_verifying_key_ok(sec1@) && p256_signature_ok(sig@)
                && b == p256_verifies(sec1@, sig@, msg@),
        },
{
    let key = match p256::ecdsa::VerifyingKey::from_sec1_bytes(sec1) {
        Ok(k) => k,
        Err(e) => return SignatureCheck::BadKey(e.to_string()),
    };
    let bytes: [u8; 64] = sig.try_into().unwrap();
    let signature = match p256::ecdsa::Signature::from_bytes(&bytes.into()) {
        Ok(s) => s,
        Err(_) => return SignatureCheck::BadSignature,
    };
    SignatureCheck::Checked(key.verify(msg, &signature).is_ok())
}

/// A new random ECDSA P-256 key (`p256::ecdsa::SigningKey::random` with the operating
/// system's generator): its 32 private bytes, which parse back as a signing key, and the
/// uncompressed SEC1 encoding of its public key (65 bytes, the first `0x04`), which parses
/// back as a verifying key. Which key comes out is left open.
#[verifier::external_body]
pub(crate) fn p256_random_signing_key() -> (r: (Vec<u8>, Vec<u8>))
    ensures
        r.0@.len() == 32,
        p256_signing_key_ok(r.0@),
        r.1@.len() == 65 && r.1@[0] == 4,
        r.1@ == p256_public_of(r.0@),
        p256_verifying_key_ok(r.1@),
{
    let key = p256::ecdsa::SigningKey::random(&mut rand::rngs::OsRng);
    let public = p256::ecdsa::VerifyingKey::from(&key);
    (key.to_bytes().to_vec(), public.to_encoded_point(false).as_bytes().to_vec())
}

/// The 65-byte uncompressed SEC1 encoding of the public key of a P-256 secret key for key
/// agreement.
pub uninterp spec fn p256_ecdh_public_of(secret: Seq<u8>) -> Seq<u8>;

/// A new random P-256 key for key agreement (`p256::SecretKey::random` with the operating
/// system's generator): its 32 secret bytes, which parse back as a secret key, and the
/// uncompressed SEC1 encoding of its public key (65 bytes, the first `0x04`), which parses
/// back as a point. As in any
/// Diffie-Hellman agreement, what the key computes with another key's public key is what that
/// key computes with its public key. Which key comes out is left open.
#[verifier::external_body]
pub(crate) fn p256_random_ecdh_key() -> (r: (Vec<u8>, Vec<u8>))
    ensures
        r.0@.len() == 32,
        r.1@.len() == 65 && r.1@[0] == 4,
        r.1@ == p256_ecdh_public_of(r.0@),
        p256_secret_key_ok(r.0@),
        p256_public_key_ok(r.1@),
        forall|other: Seq<u8>| p256_secret_key_ok(other) ==> #[trigger] p256_shared_secret(r.0@, p256_ecdh_public_of(other))
            == p256_shared_secret(other, p256_ecdh_public_of(r.0@)),
{
    let secret = p256::SecretKey::random(&mut rand::rngs::OsRng);
    let public = p256::PublicKey::from_secret_scalar(&secret.to_nonzero_scalar());
    (secret.to_bytes().to_vec(), public.to_encoded_point(false).as_bytes().to_vec())
}

/// The SEC1 bytes are a point of P-256 (`p256::PublicKey::from_sec1_bytes` accepts them).
pub uninterp spec fn p256_public_key_ok(sec1: Seq<u8>) -> bool;

/// Whether `p256::PublicKey::from_sec1_bytes` accepts the bytes.
#[verifier::external_body]
pub(crate) fn p256_public_key_valid(sec1: &[u8]) -> (b: bool)
    ensures
        b == p256_public_key_ok(sec1@),
{
    p256::PublicKey::from_sec1_bytes(sec1).is_ok()
}

/// The 32 secret bytes are a P-256 scalar (`p256::SecretKey::from_bytes` accepts them).
pub uninterp spec fn p256_secret_key_ok(secret: Seq<u8>) -> bool;

/// The 32-byte shared secret of ECDH on P-256 between a secret key and a public key.
pub uninterp spec fn p256_shared_secret(secret: Seq<u8>, sec1: Seq<u8>) -> Seq<u8>;

/// ECDH on P-256 (`p256::SecretKey::from_bytes`, `p256::PublicKey::from_sec1_bytes`,
/// `p256::ecdh::diffie_hellman`, `raw_secret_bytes`): `None` when the secret does not parse.
#[verifier::external_body]
pub(crate) fn p256_diffie_hellman(secret: &[u8], sec1: &[u8]) -> (r: Option<Vec<u8>>)
    requires
        secret@.len() == 32,
        p256_public_key_ok(sec1@),
    ensures
        r is Some <==> p256_secret_key_ok(secret@),
        r matches Some(s) ==> s@ == p256_shared_secret(secret@, sec1@),
{
    let bytes: [u8; 32] = secret.try_into().unwrap();
    let key = p256::SecretKey::from_bytes(&bytes.into()).ok()?;
    let public = p256::PublicKey::from_sec1_bytes(sec1).unwrap();
    let shared = p256::ecdh::diffie_hellman(key.to_nonzero_scalar(), public.as_affine());
    Some(shared.raw_secret_bytes().to_vec())
}

/// The AES-256-GCM ciphertext (with its tag) of a plaintext under a 32-byte key and a
/// nonce of the cipher's size (12 or 15 bytes here), no associated data
/// (`<aes_gcm::AesGcm<Aes256, N> as Aead>::encrypt`).
pub uninterp spec fn aes_gcm_ciphertext(key: Seq<u8>, nonce: Seq<u8>, plaintext: Seq<u8>) -> Seq<u8>;

/// The longest plaintext that AES-GCM encrypts, 2^36 bytes (`aes_gcm::P_MAX`).
pub open spec fn aes_gcm_max_plaintext() -> int {
    0x10_0000_0000
}

/// AES-256-GCM encryption with a 12-byte nonce (`aes_gcm::Aes256Gcm::new_from_slice`,
/// `Aead::encrypt`): `Err` with the crate's message exactly when the plaintext is longer than
/// `aes_gcm::P_MAX`. Decrypting the ciphertext with the same key and nonce gives back the
/// plaintext.
#[verifier::external_body]
pub(crate) fn aes_gcm_encrypt(key: &[u8], nonce: &[u8], plaintext: &[u8]) -> (r: Result<Vec<u8>, String>)
    requires
        key@.len() == 32,
        nonce@.len() == 12,
    ensures
        r is Ok <==> plaintext@.len() <= aes_gcm_max_plaintext(),
        r matches Ok(c) ==> c@ == aes_gcm_ciphertext(key@, nonce@, plaintext@),
        r matches Ok(c) ==> aes_gcm_plaintext(key@, nonce@, c@) == Some(plaintext@),
{
    let cipher = aes_gcm::Aes256Gcm::new_from_slice(key).map_err(|e| e.to_string())?;
    cipher.encrypt(aes_gcm::Nonce::from_slice(nonce), plaintext).map_err(|e| e.to_string())
}

/// AES-256-GCM encryption with a 15-byte nonce (`aes_gcm::AesGcm::<Aes256, U15>`,
/// `new_from_slice`, `Aead::encrypt`): as with a 12-byte nonce, `Err` with the crate's message
/// exactly when the plaintext is longer than `aes_gcm::P_MAX`, and decrypting the ciphertext
/// with the same key and nonce gives back the plaintext.
#[verifier::external_body]
pub(crate) fn aes_gcm_encrypt_iv15(key: &[u8], iv: &[u8], plaintext: &[u8]) -> (r: Result<Vec<u8>, String>)
    requires
        key@.len() == 32,
        iv@.len() == 15,
    ensures
        r is Ok <==> plaintext@.len() <= aes_gcm_max_plaintext(),
        r matches Ok(c) ==> c@ == aes_gcm_ciphertext(key@, iv@, plaintext@),
        r matches Ok(c) ==> aes_gcm_plaintext(key@, iv@, c@) == Some(plaintext@),
{
    let cipher = aes_gcm::AesGcm::<aes_gcm::aes::Aes256, aes_gcm::aead::consts::U15>::new_from_slice(key).map_err(|e| e.to_string())?;
    cipher.encrypt(aes_gcm::Nonce::<aes_gcm::aead::consts::U15>::from_slice(iv), plaintext).map_err(|e| e.to_string())
}

/// The plaintext that an AES-256-GCM ciphertext decrypts to under a 32-byte key and a
/// nonce of the cipher's size (12 or 15 bytes here), no associated data; `None` when it does
/// not authenticate (`<aes_gcm::AesGcm<Aes256, N> as Aead>::decrypt`).
pub uninterp spec fn aes_gcm_plaintext(key: Seq<u8>, nonce: Seq<u8>, ciphertext: Seq<u8>) -> Option<Seq<u8>>;

/// AES-256-GCM decryption with a 12-byte nonce (`aes_gcm::Aes256Gcm::new_from_slice`,
/// `Aead::decrypt`): `Err` with the crate's message when it fails.
#[verifier::external_body]
pub(crate) fn aes_gcm_decrypt(key: &[u8], nonce: &[u8], ciphertext: &[u8]) -> (r: Result<Vec<u8>, String>)
    requires
        key@.len() == 32,
        nonce@.len() == 12,
    ensures
        match r {
            Ok(p) => aes_gcm_plaintext(key@, nonce@, ciphertext@) == Some(p@),
            Err(_) => aes_gcm_plaintext(key@, nonce@, ciphertext@) is None,
        },
{
    let cipher = aes_gcm::Aes256Gcm::new_from_slice(key).map_err(|e| e.to_string())?;
    cipher.decrypt(aes_gcm::Nonce::from_slice(nonce), ciphertext).map_err(|e| e.to_string())
}

/// AES-256-GCM decryption with a 15-byte nonce (`aes_gcm::AesGcm::<Aes256, U15>`,
/// `new_from_slice`, `Aead::decrypt`): `Err` with the crate's message when it fails.
#[verifier::external_body]
pub(crate) fn aes_gcm_decrypt_iv15(key: &[u8], iv: &[u8], ciphertext: &[u8]) -> (r: Result<Vec<u8>, String>)
    requires
        key@.len() == 32,
        iv@.len() == 15,
    ensures
        match r {
            Ok(p) => aes_gcm_plaintext(key@, iv@, ciphertext@) == Some(p@),
            Err(_) => aes_gcm_plaintext(key@, iv@, ciphertext@) is None,
        },
{
    let cipher = aes_gcm::AesGcm::<aes_gcm::aes::Aes256, aes_gcm::aead::consts::U15>::new_from_slice(key).map_err(|e| e.to_string())?;
    cipher.decrypt(aes_gcm::Nonce::<aes_gcm::aead::consts::U15>::from_slice(iv), ciphertext).map_err(|e| e.to_string())
}

/// The UTF-8 text that some bytes are, `None` when they are not valid UTF-8
/// (`String::from_utf8`).
#[verifier::external_body]
pub(crate) fn utf8_text(bytes: Vec<u8>) -> (r: Option<String>)
    ensures
        r is Some <==> vstd::utf8::valid_utf8(bytes@),
        r matches Some(s) ==> s@ == vstd::utf8::decode_utf8(bytes@),
{
    String::from_utf8(bytes).ok()
}

} // verus!
