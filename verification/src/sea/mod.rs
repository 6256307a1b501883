//! SEA (security, encryption, authorization): key pairs, signatures, encryption,
//! proof of work, users and certificates.
use vstd::prelude::*;

pub mod certify;
pub mod work;
pub mod user;
pub mod keys;
pub mod sign;
pub mod pair;
pub mod issue;
pub mod account;

pub use certify::{
    Certificants, Policy, RadixPolicy, Certificate, CertifyOptions, BlockPolicy, matches_policy, check_permission, check_permission_at,
    
};
pub use work::{WorkOptions, work, work_string};
pub use user::{hash_password, verify_password, generate_salt};
pub use sign::{sign, verify};
pub use pair::{pair, generate_pair, derive_secret, encrypt, decrypt};
pub use issue::{certify, certificate_from_json, strip_sea};
pub use account::{create_user, find_user_by_alias, open_user_record, try_open_user_record, finish_user, recall_from_json};

verus! {

/// A key pair for signing and encryption. The public keys are written `x.y`, each
/// coordinate in unpadded base64; the private keys are the unpadded base64 of the scalar.
pub struct KeyPair {
    /// Public key for signing (ECDSA, P-256).
    pub pub_key: String,
    /// Private key for signing (ECDSA, P-256).
    pub priv_key: String,
    /// Public key for encryption (ECDH, P-256).
    pub epub_key: Option<String>,
    /// Private key for encryption (ECDH, P-256).
    pub epriv_key: Option<String>,
}

/// An authenticated user: the key pair and the alias, if any.
pub struct UserAuth {
    pub pair: KeyPair,
    pub alias: Option<String>,
}

/// An error of a SEA operation.
#[derive(Debug)]
pub enum SeaError {
    /// A cryptographic operation failed, with its message.
    Crypto(String),
    /// A key has an invalid format.
    InvalidKey,
    /// A signature did not verify.
    VerificationFailed,
    /// Encryption failed, with its message.
    Encryption(String),
    /// Decryption failed, with its message.
    Decryption(String),
}

} // verus!

verus! {

/// The message of a SEA error, as it is shown to a user.
pub open spec fn sea_error_text(e: SeaError) -> Seq<char> {
    match e {
        SeaError::Crypto(m) => "Crypto error: "@ + m@,
        SeaError::InvalidKey => "Invalid key format"@,
        SeaError::VerificationFailed => "Signature verification failed"@,
        SeaError::Encryption(m) => "Encryption error: "@ + m@,
        SeaError::Decryption(m) => "Decryption error: "@ + m@,
    }
}

impl SeaError {
    /// The error's message, as it is shown to a user.
    pub fn to_string(&self) -> (s: String)
        ensures
            s@ == sea_error_text(*self),
    {
        match self {
            SeaError::Crypto(m) => crate::text::concat("Crypto error: ", m.as_str()),
            SeaError::InvalidKey => "Invalid key format".to_owned(),
            SeaError::VerificationFailed => "Signature verification failed".to_owned(),
            SeaError::Encryption(m) => crate::text::concat("Encryption error: ", m.as_str()),
            SeaError::Decryption(m) => crate::text::concat("Decryption error: ", m.as_str()),
        }
    }
}

} // verus!
