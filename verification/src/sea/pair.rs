//! Key pairs, shared secrets, and encryption with them.
use vstd::prelude::*;
use crate::json::{Json, json_text, to_json_string, spec_field, spec_str};
use crate::strmap::StrMap;
use crate::crypto::{base64_encode, base64_decode, base64_spec, base64_decode_spec, pbkdf2_sha256, pbkdf2_sha256_spec,
    random_bytes};
use crate::text::concat;
use super::keys::{p256_random_signing_key, p256_random_ecdh_key, p256_public_key_valid, p256_public_key_ok,
    p256_diffie_hellman, p256_secret_key_ok, p256_shared_secret, aes_gcm_encrypt_iv15, aes_gcm_decrypt,
    aes_gcm_decrypt_iv15, aes_gcm_ciphertext, aes_gcm_plaintext, aes_gcm_max_plaintext, utf8_text};
use super::sign::{public_key_sec1, public_key_bytes, utf8, spec_split_dot, private_key_bytes};
use super::keys::{p256_public_of, p256_verifying_key_ok, p256_ecdh_public_of, p256_signing_key_ok};
use super::{KeyPair, SeaError};

verus! {

/// A public key written `x.y` from its uncompressed SEC1 bytes (`0x04`, 32 bytes of `x`,
/// 32 bytes of `y`): each coordinate in unpadded base64.
pub open spec fn public_key_text(sec1: Seq<u8>) -> Seq<char> {
    base64_spec(sec1.subrange(1, 33)) + seq!['.'] + base64_spec(sec1.subrange(33, 65))
}

fn bytes_range(b: &Vec<u8>, from: usize, to: usize) -> (r: Vec<u8>)
    requires
        from <= to <= b@.len(),
    ensures
        r@ == b@.subrange(from as int, to as int),
{
    let mut out: Vec<u8> = Vec::new();
    let mut i = from;
    while i < to
        invariant
            from <= i <= to,
            to <= b@.len(),
            out@ == b@.subrange(from as int, i as int),
        decreases to - i,
    {
        out.push(b[i]);
        proof { assert(out@ =~= b@.subrange(from as int, i + 1)); }
        i = i + 1;
    }
    out
}

/// A text of base64 characters and `.` (as a public key written `x.y` is).
pub open spec fn key_chars(s: Seq<char>) -> bool {
    forall|i: int| 0 <= i < s.len() ==> crate::crypto::is_base64_char(#[trigger] s[i]) || s[i] == '.'
}

/// A public key written `x.y` from its uncompressed SEC1 bytes; the text reads back as
/// those bytes.
fn key_text(sec1: &Vec<u8>) -> (s: String)
    requires
        sec1@.len() == 65,
        sec1@[0] == 4,
    ensures
        s@ == public_key_text(sec1@),
        public_key_sec1(s@) == Some(sec1@),
        key_chars(s@),
{
    let x = base64_encode(bytes_range(sec1, 1, 33).as_slice());
    let y = base64_encode(bytes_range(sec1, 33, 65).as_slice());
    let a = concat(x.as_str(), ".");
    proof { reveal_strlit("."); assert("."@ =~= seq!['.']); }
    let s = concat(a.as_str(), y.as_str());
    proof {
        assert forall|i: int| 0 <= i < x@.len() implies #[trigger] x@[i] != '.' by {
            assert(crate::crypto::is_base64_char(x@[i]));
        }
        assert forall|i: int| 0 <= i < y@.len() implies #[trigger] y@[i] != '.' by {
            assert(crate::crypto::is_base64_char(y@[i]));
        }
        super::sign::lemma_split_joined(x@, y@);
        assert(s@ =~= x@ + seq!['.'] + y@);
        assert(seq![4u8] + sec1@.subrange(1, 33) + sec1@.subrange(33, 65) =~= sec1@);
        assert forall|i: int| 0 <= i < s@.len() implies crate::crypto::is_base64_char(#[trigger] s@[i]) || s@[i] == '.' by {
            if i < x@.len() {
                assert(s@[i] == x@[i]);
            } else if i > x@.len() {
                assert(s@[i] == y@[i - x@.len() - 1]);
            }
        }
    }
    s
}

/// A key pair as `generate_pair` makes it: the private keys are the unpadded base64 of 32
/// bytes, the public keys are written `x.y` from 65-byte uncompressed encodings, and each
/// public key is that of its private key.
pub open spec fn is_fresh_pair(kp: KeyPair) -> bool {
    &&& exists|sk: Seq<u8>, pk: Seq<u8>| sk.len() == 32 && pk.len() == 65 && pk[0] == 4
        && kp.priv_key@ == #[trigger] base64_spec(sk) && kp.pub_key@ == #[trigger] public_key_text(pk)
        && private_key_bytes(kp) == Some(sk) && public_key_sec1(kp.pub_key@) == Some(pk)
        && pk == p256_public_of(sk) && p256_verifying_key_ok(pk) && p256_signing_key_ok(sk)
    &&& kp.priv_key@.len() == 43 && key_chars(kp.pub_key@)
    &&& kp.epub_key is Some && kp.epriv_key is Some && kp.epriv_key->Some_0@.len() == 43
    &&& exists|esk: Seq<u8>, epk: Seq<u8>| esk.len() == 32 && epk.len() == 65 && epk[0] == 4
        && kp.epriv_key->Some_0@ == #[trigger] base64_spec(esk)
        && kp.epub_key->Some_0@ == #[trigger] public_key_text(epk)
        && base64_decode_spec(utf8(kp.epriv_key->Some_0@)) == Some(esk)
        && public_key_sec1(kp.epub_key->Some_0@) == Some(epk)
        && epk == p256_ecdh_public_of(esk) && p256_secret_key_ok(esk) && p256_public_key_ok(epk)
        && agrees_with_every_key(esk)
}

/// What the secret key computes with any other key's public key is what that key computes
/// with its public key.
pub open spec fn agrees_with_every_key(secret: Seq<u8>) -> bool {
    forall|other: Seq<u8>| p256_secret_key_ok(other) ==> #[trigger] p256_shared_secret(secret, p256_ecdh_public_of(other))
        == p256_shared_secret(other, p256_ecdh_public_of(secret))
}

/// A new key pair: a random P-256 signing key and a random P-256 key for key agreement,
/// their private keys in unpadded base64 and their public keys written `x.y`. It always
/// succeeds: both public keys are encoded in 65 bytes starting with `0x04`.
pub fn generate_pair() -> (r: Result<KeyPair, SeaError>)
    ensures
        r matches Ok(kp) && is_fresh_pair(kp),
{
    let (sk, pk) = p256_random_signing_key();
    let priv_key = base64_encode(sk.as_slice());
    let pub_key = key_text(&pk);
    let (esk, epk) = p256_random_ecdh_key();
    let epub = key_text(&epk);
    let epriv = base64_encode(esk.as_slice());
    proof {
        assert(sk@.len() == 32 && pk@.len() == 65 && pk@[0] == 4 && priv_key@ == base64_spec(sk@) && pub_key@ == public_key_text(pk@));
        assert(esk@.len() == 32 && epk@.len() == 65 && epk@[0] == 4 && epriv@ == base64_spec(esk@) && epub@ == public_key_text(epk@));
    }
    Ok(KeyPair { pub_key, priv_key, epub_key: Some(epub), epriv_key: Some(epriv) })
}

/// The secret that two parties share: the unpadded base64 of the ECDH secret of our secret
/// key (base64 of 32 bytes) and their public key (written `x.y`). `None` where
/// `derive_secret` reports an invalid key.
pub open spec fn shared_secret(their_epub: Seq<char>, our_epriv: Seq<char>, our_epub: Seq<char>) -> Option<Seq<char>> {
    match (public_key_sec1(their_epub), public_key_sec1(our_epub), base64_decode_spec(utf8(our_epriv))) {
        (Some(theirs), Some(ours), Some(secret)) => if p256_public_key_ok(theirs) && p256_public_key_ok(ours)
            && secret.len() == 32 && p256_secret_key_ok(secret) {
            Some(base64_spec(p256_shared_secret(secret, theirs)))
        } else {
            None
        },
        _ => None,
    }
}

fn parse_epub(epub: &str) -> (r: Option<Vec<u8>>)
    ensures
        match r {
            Some(b) => public_key_sec1(epub@) == Some(b@) && p256_public_key_ok(b@),
            None => !(public_key_sec1(epub@) matches Some(b) && p256_public_key_ok(b)),
        },
{
    match public_key_bytes(epub) {
        Some(b) => {
            if p256_public_key_valid(b.as_slice()) {
                Some(b)
            } else {
                None
            }
        },
        None => None,
    }
}

/// Derive the secret shared with the holder of `their_epub`, from our key pair for key
/// agreement. Any key that does not parse is an invalid key.
pub fn derive_secret(their_epub: &str, our_epriv: &str, our_epub: &str) -> (r: Result<String, SeaError>)
    ensures
        match r {
            Ok(s) => shared_secret(their_epub@, our_epriv@, our_epub@) == Some(s@),
            Err(e) => e is InvalidKey && shared_secret(their_epub@, our_epriv@, our_epub@) is None,
        },
{
    let theirs = match parse_epub(their_epub) {
        Some(b) => b,
        None => {
            return Err(SeaError::InvalidKey);
        },
    };
    let _ours = match parse_epub(our_epub) {
        Some(b) => b,
        None => {
            return Err(SeaError::InvalidKey);
        },
    };
    let secret = match base64_decode(our_epriv.as_bytes()) {
        Some(b) => b,
        None => {
            return Err(SeaError::InvalidKey);
        },
    };
    if secret.len() != 32 {
        return Err(SeaError::InvalidKey);
    }
    match p256_diffie_hellman(secret.as_slice(), theirs.as_slice()) {
        Some(shared) => Ok(base64_encode(shared.as_slice())),
        None => Err(SeaError::InvalidKey),
    }
}

/// The AES key made from a secret and a salt: PBKDF2-HMAC-SHA-256 in 100000 rounds, 32
/// bytes, over the bytes the secret's base64 decodes to, or its UTF-8 bytes when it is
/// not base64.
pub open spec fn aes_key_of(secret: Seq<char>, salt: Seq<u8>) -> Seq<u8> {
    let bytes = match base64_decode_spec(utf8(secret)) {
        Some(b) => b,
        None => utf8(secret),
    };
    pbkdf2_sha256_spec(bytes, salt, 100_000u32, 32)
}

/// The AES key made from a secret and a salt.
pub fn derive_aes_key(secret: &str, salt: &[u8]) -> (k: Vec<u8>)
    ensures
        k@ == aes_key_of(secret@, salt@),
        k@.len() == 32,
{
    match base64_decode(secret.as_bytes()) {
        Some(b) => pbkdf2_sha256(b.as_slice(), salt, 100_000, 32),
        None => pbkdf2_sha256(secret.as_bytes(), salt, 100_000, 32),
    }
}

/// The key that encrypts (or decrypts) for a pair: without a correspondent, made from the
/// pair's private key for key agreement; with one, from the secret shared with it.
/// `Err(Some(text))` names a missing key, `Err(None)` a key that does not parse.
pub open spec fn cipher_key(pair: KeyPair, their_epub: Option<Seq<char>>, salt: Seq<u8>) -> Result<Seq<u8>, Option<Seq<char>>> {
    match their_epub {
        Some(t) => match (pair.epriv_key, pair.epub_key) {
            (Some(epriv), Some(epub)) => match shared_secret(t, epriv@, epub@) {
                Some(s) => Ok(aes_key_of(s, salt)),
                None => Err(None),
            },
            (None, _) => Err(Some(seq!['M', 'i', 's', 's', 'i', 'n', 'g', ' ', 'e', 'p', 'r', 'i', 'v', ' ', 'k', 'e', 'y'])),
            (Some(_), None) => Err(Some(seq!['M', 'i', 's', 's', 'i', 'n', 'g', ' ', 'e', 'p', 'u', 'b', ' ', 'k', 'e', 'y'])),
        },
        None => match pair.epriv_key {
            Some(epriv) => Ok(aes_key_of(epriv@, salt)),
            None => Err(Some(seq!['M', 'i', 's', 's', 'i', 'n', 'g', ' ', 'e', 'p', 'r', 'i', 'v', ' ', 'k', 'e', 'y'])),
        },
    }
}

/// The key that encrypts or decrypts for a pair, as `cipher_key` describes.
fn make_cipher_key(pair: &KeyPair, their_epub: Option<&str>, salt: &[u8]) -> (r: Result<Vec<u8>, Option<String>>)
    ensures
        match r {
            Ok(k) => cipher_key(*pair, match their_epub { Some(t) => Some(t@), None => None }, salt@) == Ok::<Seq<u8>, Option<Seq<char>>>(k@)
                && k@.len() == 32,
            Err(Some(t)) => cipher_key(*pair, match their_epub { Some(t) => Some(t@), None => None }, salt@)
                == Err::<Seq<u8>, Option<Seq<char>>>(Some(t@)),
            Err(None) => cipher_key(*pair, match their_epub { Some(t) => Some(t@), None => None }, salt@)
                == Err::<Seq<u8>, Option<Seq<char>>>(None),
        },
{
    proof {
        reveal_strlit("Missing epriv key");
        reveal_strlit("Missing epub key");
        assert("Missing epriv key"@ =~= seq!['M', 'i', 's', 's', 'i', 'n', 'g', ' ', 'e', 'p', 'r', 'i', 'v', ' ', 'k', 'e', 'y']);
        assert("Missing epub key"@ =~= seq!['M', 'i', 's', 's', 'i', 'n', 'g', ' ', 'e', 'p', 'u', 'b', ' ', 'k', 'e', 'y']);
    }
    match their_epub {
        Some(t) => {
            let epriv = match &pair.epriv_key {
                Some(e) => e,
                None => {
                    return Err(Some("Missing epriv key".to_owned()));
                },
            };
            let epub = match &pair.epub_key {
                Some(e) => e,
                None => {
                    return Err(Some("Missing epub key".to_owned()));
                },
            };
            match derive_secret(t, epriv.as_str(), epub.as_str()) {
                Ok(s) => Ok(derive_aes_key(s.as_str(), salt)),
                Err(_) => Err(None),
            }
        },
        None => match &pair.epriv_key {
            Some(epriv) => Ok(derive_aes_key(epriv.as_str(), salt)),
            None => Err(Some("Missing epriv key".to_owned())),
        },
    }
}

} // verus!

verus! {

/// Whether the key that encrypts for a pair can be made (`encrypt` gets as far as the cipher).
pub open spec fn cipher_key_made(pair: KeyPair, their_epub: Option<Seq<char>>) -> bool {
    cipher_key(pair, their_epub, Seq::empty()) is Ok
}

proof fn lemma_cipher_key_salt(pair: KeyPair, their_epub: Option<Seq<char>>, salt: Seq<u8>)
    ensures
        (cipher_key(pair, their_epub, salt) is Ok) == cipher_key_made(pair, their_epub),
        cipher_key(pair, their_epub, salt) matches Err(e) ==> cipher_key(pair, their_epub, Seq::empty()) == Err::<Seq<u8>, Option<Seq<char>>>(e),
{
}

/// Encrypted data for a pair: `{"ct", "iv", "s"}`, whose parts decode to a ciphertext, a
/// 15-byte IV and a 9-byte salt, where the ciphertext is the AES-256-GCM encryption of the
/// text's UTF-8 bytes under the key made for the pair from the salt, and decrypts back to
/// them.
pub open spec fn encryption_of(enc: Json, pair: KeyPair, their_epub: Option<Seq<char>>, text: Seq<char>) -> bool {
    &&& enc is Object && enc->Object_0@.dom().len() == 3
    &&& match encrypted_parts(enc) {
        Ok((ct, iv, salt)) => iv.len() == 15 && salt.len() == 9 && match cipher_key(pair, their_epub, salt) {
            Ok(k) => ct == aes_gcm_ciphertext(k, iv, utf8(text)) && aes_gcm_plaintext(k, iv, ct) == Some(utf8(text)),
            Err(_) => false,
        },
        Err(_) => false,
    }
}

/// What decrypting gives: the UTF-8 text of the plaintext, when the parts decode, the IV is
/// 12 or 15 bytes, the key can be made and the ciphertext authenticates.
pub open spec fn opened_text(enc: Json, pair: KeyPair, their_epub: Option<Seq<char>>) -> Option<Seq<char>> {
    match encrypted_parts(enc) {
        Ok((ct, iv, salt)) => match cipher_key(pair, their_epub, salt) {
            Ok(k) => if iv.len() == 12 || iv.len() == 15 {
                match aes_gcm_plaintext(k, iv, ct) {
                    Some(p) => if vstd::utf8::valid_utf8(p) { Some(vstd::utf8::decode_utf8(p)) } else { None },
                    None => None,
                }
            } else {
                None
            },
            Err(_) => None,
        },
        Err(_) => None,
    }
}

/// Encrypt data for a pair (for the holder of `their_epub`, when given): its JSON text,
/// under AES-256-GCM with a key made from a random 9-byte salt and a random 15-byte IV, as
/// `{"ct", "iv", "s"}` in unpadded base64.
///
/// A missing key is an encryption error, a key that does not parse an invalid key, and a
/// text too long for the cipher an encryption error.
pub fn encrypt(data: &Json, pair: &KeyPair, their_epub: Option<&str>) -> (r: Result<Json, SeaError>)
    ensures
        match cipher_key(*pair, match their_epub { Some(t) => Some(t@), None => None }, Seq::empty()) {
            Err(Some(t)) => r matches Err(SeaError::Encryption(m)) && m@ == t,
            Err(None) => r matches Err(e) && e is InvalidKey,
            Ok(_) => if utf8(json_text(*data)).len() <= aes_gcm_max_plaintext() {
                r matches Ok(enc) && encryption_of(enc, *pair, match their_epub { Some(t) => Some(t@), None => None },
                    json_text(*data))
            } else {
                r matches Err(e) && e is Encryption
            },
        },
{
    let msg = to_json_string(data);
    let salt = random_bytes(9);
    let iv = random_bytes(15);
    let ghost epub = match their_epub { Some(t) => Some(t@), None => None };
    proof { lemma_cipher_key_salt(*pair, epub, salt@); }
    let key = match make_cipher_key(pair, their_epub, salt.as_slice()) {
        Err(Some(t)) => {
            return Err(SeaError::Encryption(t));
        },
        Err(None) => {
            return Err(SeaError::InvalidKey);
        },
        Ok(k) => k,
    };
    let ct = match aes_gcm_encrypt_iv15(key.as_slice(), iv.as_slice(), msg.as_str().as_bytes()) {
        Ok(c) => c,
        Err(e) => {
            return Err(SeaError::Encryption(concat("Encryption failed: ", e.as_str())));
        },
    };
    proof {
        reveal_strlit("ct");
        reveal_strlit("iv");
        reveal_strlit("s");
        assert("ct"@ =~= seq!['c', 't']);
        assert("iv"@ =~= seq!['i', 'v']);
        assert("s"@ =~= seq!['s']);
        assert(seq!['c', 't'][0] != seq!['i', 'v'][0]);
        assert(seq!['c', 't'][0] != seq!['s'][0]);
        assert(seq!['s'][0] != seq!['i', 'v'][0]);
    }
    let mut m: StrMap<Json> = StrMap::new();
    m.insert("ct".to_owned(), Json::String(base64_encode(ct.as_slice())));
    m.insert("iv".to_owned(), Json::String(base64_encode(iv.as_slice())));
    m.insert("s".to_owned(), Json::String(base64_encode(salt.as_slice())));
    proof { assert(m@.dom() =~= set![seq!['c', 't'], seq!['i', 'v'], seq!['s']]); }
    let enc = Json::Object(m);
    proof {
        assert(encrypted_parts(enc) == Ok::<(Seq<u8>, Seq<u8>, Seq<u8>), Seq<char>>((ct@, iv@, salt@)));
    }
    Ok(enc)
}

/// The ciphertext, IV and salt of encrypted data `{"ct", "iv", "s"}` (unpadded base64 each),
/// or the message of the first that is missing or does not decode.
pub open spec fn encrypted_parts(enc: Json) -> Result<(Seq<u8>, Seq<u8>, Seq<u8>), Seq<char>> {
    match (spec_field(enc, seq!['c', 't']), spec_field(enc, seq!['i', 'v']), spec_field(enc, seq!['s'])) {
        (Some(c), Some(i), Some(s)) => match (spec_str(c), spec_str(i), spec_str(s)) {
            (Some(ct), Some(iv), Some(salt)) => match base64_decode_spec(utf8(ct)) {
                None => Err(invalid_ciphertext_text()),
                Some(ctb) => match base64_decode_spec(utf8(iv)) {
                    None => Err(invalid_iv_text()),
                    Some(ivb) => match base64_decode_spec(utf8(salt)) {
                        None => Err(invalid_salt_text()),
                        Some(sb) => Ok((ctb, ivb, sb)),
                    },
                },
            },
            (None, _, _) => Err(missing_ciphertext_text()),
            (Some(_), None, _) => Err(missing_iv_text()),
            (Some(_), Some(_), None) => Err(missing_salt_text()),
        },
        (None, _, _) => Err(missing_ciphertext_text()),
        (Some(c), None, _) => if spec_str(c) is None { Err(missing_ciphertext_text()) } else { Err(missing_iv_text()) },
        (Some(c), Some(i), None) => if spec_str(c) is None {
            Err(missing_ciphertext_text())
        } else if spec_str(i) is None {
            Err(missing_iv_text())
        } else {
            Err(missing_salt_text())
        },
    }
}

pub open spec fn missing_ciphertext_text() -> Seq<char> { seq!['M', 'i', 's', 's', 'i', 'n', 'g', ' ', 'c', 'i', 'p', 'h', 'e', 'r', 't', 'e', 'x', 't'] }
pub open spec fn missing_iv_text() -> Seq<char> { seq!['M', 'i', 's', 's', 'i', 'n', 'g', ' ', 'I', 'V'] }
pub open spec fn missing_salt_text() -> Seq<char> { seq!['M', 'i', 's', 's', 'i', 'n', 'g', ' ', 's', 'a', 'l', 't'] }
pub open spec fn invalid_ciphertext_text() -> Seq<char> {
    seq!['I', 'n', 'v', 'a', 'l', 'i', 'd', ' ', 'c', 'i', 'p', 'h', 'e', 'r', 't', 'e', 'x', 't', ' ', 'e', 'n', 'c', 'o', 'd', 'i', 'n', 'g']
}
pub open spec fn invalid_iv_text() -> Seq<char> {
    seq!['I', 'n', 'v', 'a', 'l', 'i', 'd', ' ', 'I', 'V', ' ', 'e', 'n', 'c', 'o', 'd', 'i', 'n', 'g']
}
pub open spec fn invalid_salt_text() -> Seq<char> {
    seq!['I', 'n', 'v', 'a', 'l', 'i', 'd', ' ', 's', 'a', 'l', 't', ' ', 'e', 'n', 'c', 'o', 'd', 'i', 'n', 'g']
}

pub open spec fn invalid_iv_length_text() -> Seq<char> {
    seq!['I', 'n', 'v', 'a', 'l', 'i', 'd', ' ', 'I', 'V', ' ', 'l', 'e', 'n', 'g', 't', 'h']
}

/// Decrypt data `{"ct", "iv", "s"}` for a pair (from the holder of `their_epub`, when given),
/// and hand back the plaintext (the JSON text of the data that was encrypted).
///
/// The IV is 12 bytes (the nonce of AES-256-GCM) or 15 bytes (the IV that `encrypt` makes).
/// Missing or undecodable parts, a missing key, an IV of another length, a ciphertext that
/// does not authenticate and a plaintext that is not UTF-8 are decryption errors; a key that
/// does not parse an invalid key.
pub fn decrypt(enc: &Json, pair: &KeyPair, their_epub: Option<&str>) -> (r: Result<String, SeaError>)
    ensures
        r matches Ok(s) ==> opened_text(*enc, *pair, match their_epub { Some(t) => Some(t@), None => None }) == Some(s@),
        opened_text(*enc, *pair, match their_epub { Some(t) => Some(t@), None => None }) is Some ==> r is Ok,
        match encrypted_parts(*enc) {
            Err(t) => r matches Err(SeaError::Decryption(m)) && m@ == t,
            Ok((ct, iv, salt)) => match cipher_key(*pair, match their_epub { Some(t) => Some(t@), None => None }, salt) {
                Err(Some(t)) => r matches Err(SeaError::Decryption(m)) && m@ == t,
                Err(None) => r matches Err(e) && e is InvalidKey,
                Ok(k) => if iv.len() != 12 && iv.len() != 15 {
                    r matches Err(SeaError::Decryption(m)) && m@ == invalid_iv_length_text()
                } else { match aes_gcm_plaintext(k, iv, ct) {
                    None => r matches Err(e) && e is Decryption,
                    Some(p) => if vstd::utf8::valid_utf8(p) {
                        r matches Ok(s) && s@ == vstd::utf8::decode_utf8(p)
                    } else {
                        r matches Err(e) && e is Decryption
                    },
                } },
            },
        },
{
    proof {
        reveal_strlit("ct");
        reveal_strlit("iv");
        reveal_strlit("s");
        reveal_strlit("Missing ciphertext");
        reveal_strlit("Missing IV");
        reveal_strlit("Missing salt");
        reveal_strlit("Invalid ciphertext encoding");
        reveal_strlit("Invalid IV encoding");
        reveal_strlit("Invalid salt encoding");
        assert("ct"@ =~= seq!['c', 't']);
        assert("iv"@ =~= seq!['i', 'v']);
        assert("s"@ =~= seq!['s']);
        assert("Missing ciphertext"@ =~= missing_ciphertext_text());
        assert("Missing IV"@ =~= missing_iv_text());
        assert("Missing salt"@ =~= missing_salt_text());
        assert("Invalid ciphertext encoding"@ =~= invalid_ciphertext_text());
        assert("Invalid IV encoding"@ =~= invalid_iv_text());
        assert("Invalid salt encoding"@ =~= invalid_salt_text());
    }
    let ct = match enc.get("ct") {
        Some(v) => match v.as_str() {
            Some(s) => s,
            None => {
                return Err(SeaError::Decryption("Missing ciphertext".to_owned()));
            },
        },
        None => {
            return Err(SeaError::Decryption("Missing ciphertext".to_owned()));
        },
    };
    let iv = match enc.get("iv") {
        Some(v) => match v.as_str() {
            Some(s) => s,
            None => {
                return Err(SeaError::Decryption("Missing IV".to_owned()));
            },
        },
        None => {
            return Err(SeaError::Decryption("Missing IV".to_owned()));
        },
    };
    let salt = match enc.get("s") {
        Some(v) => match v.as_str() {
            Some(s) => s,
            None => {
                return Err(SeaError::Decryption("Missing salt".to_owned()));
            },
        },
        None => {
            return Err(SeaError::Decryption("Missing salt".to_owned()));
        },
    };
    let ctb = match base64_decode(ct.as_bytes()) {
        Some(b) => b,
        None => {
            return Err(SeaError::Decryption("Invalid ciphertext encoding".to_owned()));
        },
    };
    let ivb = match base64_decode(iv.as_bytes()) {
        Some(b) => b,
        None => {
            return Err(SeaError::Decryption("Invalid IV encoding".to_owned()));
        },
    };
    let sb = match base64_decode(salt.as_bytes()) {
        Some(b) => b,
        None => {
            return Err(SeaError::Decryption("Invalid salt encoding".to_owned()));
        },
    };
    let key = match make_cipher_key(pair, their_epub, sb.as_slice()) {
        Ok(k) => k,
        Err(Some(t)) => {
            return Err(SeaError::Decryption(t));
        },
        Err(None) => {
            return Err(SeaError::InvalidKey);
        },
    };
    let decrypted = if ivb.len() == 12 {
        aes_gcm_decrypt(key.as_slice(), ivb.as_slice(), ctb.as_slice())
    } else if ivb.len() == 15 {
        aes_gcm_decrypt_iv15(key.as_slice(), ivb.as_slice(), ctb.as_slice())
    } else {
        proof { reveal_strlit("Invalid IV length"); assert("Invalid IV length"@ =~= invalid_iv_length_text()); }
        return Err(SeaError::Decryption("Invalid IV length".to_owned()));
    };
    let plain = match decrypted {
        Ok(p) => p,
        Err(e) => {
            return Err(SeaError::Decryption(concat("Decryption failed: ", e.as_str())));
        },
    };
    match utf8_text(plain) {
        Some(s) => Ok(s),
        None => Err(SeaError::Decryption("Invalid UTF-8".to_owned())),
    }
}

} // verus!

verus! {

/// A new key pair, as `generate_pair` makes it.
pub fn pair() -> (r: Result<KeyPair, SeaError>)
    ensures
        r matches Ok(kp) && is_fresh_pair(kp),
{
    generate_pair()
}

} // verus!
