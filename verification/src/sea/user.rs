//! Users: password hashing and checking.
use vstd::prelude::*;
use crate::crypto::{pbkdf2_sha256, base64_encode, random_bytes, pbkdf2_sha256_spec, base64_spec};
use crate::strmap::str_eq;

verus! {

/// PBKDF2 rounds for password hashing.
pub const PASSWORD_ROUNDS: u32 = 100_000;

/// The hash of a password with a salt: the unpadded base64 of the 32-byte PBKDF2-HMAC-SHA-256
/// key of the password's UTF-8 bytes, in 100000 rounds.
pub open spec fn spec_password_hash(password: Seq<u8>, salt: Seq<u8>) -> Seq<char> {
    base64_spec(pbkdf2_sha256_spec(password, salt, PASSWORD_ROUNDS, 32))
}

/// Hash a password with a salt.
pub fn hash_password(password: &str, salt: &[u8]) -> (h: String)
    ensures
        h@ == spec_password_hash(vstd::utf8::encode_utf8(password@), salt@),
{
    let key = pbkdf2_sha256(password.as_bytes(), salt, PASSWORD_ROUNDS, 32);
    base64_encode(key.as_slice())
}

/// Whether a password with a salt hashes to the given hash.
pub fn verify_password(password: &str, salt: &[u8], hash: &str) -> (b: bool)
    ensures
        b == (spec_password_hash(vstd::utf8::encode_utf8(password@), salt@) == hash@),
{
    let computed = hash_password(password, salt);
    str_eq(computed.as_str(), hash)
}

/// A random 16-byte salt for password hashing.
pub fn generate_salt() -> (salt: Vec<u8>)
    ensures
        salt@.len() == 16,
{
    random_bytes(16)
}

/// A password checks out against the hash made from it with the same salt: when `hash` is
/// what `hash_password` made of the password and salt, `verify_password` answers true.
pub proof fn lemma_hash_then_verify(password: Seq<char>, salt: Seq<u8>, hash: Seq<char>)
    requires
        hash == spec_password_hash(vstd::utf8::encode_utf8(password), salt),
    ensures
        spec_password_hash(vstd::utf8::encode_utf8(password), salt) == hash,
{
}

} // verus!
