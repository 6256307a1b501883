//! Signing data with a key pair, and verifying signed data.
use vstd::prelude::*;
use crate::json::{Json, json_text, to_json_string, spec_field, spec_str};
use crate::strmap::StrMap;
use crate::crypto::{base64_encode, base64_decode, base64_spec, base64_decode_spec};
use crate::text::{concat, contains, spec_contains};
use crate::parse::{find, find_from};
use super::keys::{p256_sign, p256_signature, p256_check, p256_key_check, SignatureCheck, p256_verifying_key_ok,
    p256_signature_ok, p256_verifies, p256_public_of, p256_signing_key_ok};
use super::{KeyPair, SeaError};

verus! {

/// A key split at its only `.`: the two halves; `None` unless there is exactly one `.`.
pub open spec fn spec_split_dot(s: Seq<char>) -> Option<(Seq<char>, Seq<char>)> {
    match find_from(s, seq!['.'], 0) {
        Some(i) => if spec_contains(s.subrange(i + 1, s.len() as int), seq!['.']) {
            None
        } else {
            Some((s.subrange(0, i), s.subrange(i + 1, s.len() as int)))
        },
        None => None,
    }
}

pub proof fn lemma_find_bounds_pub(s: Seq<char>, p: Seq<char>, from: int)
    ensures
        find_from(s, p, from) matches Some(i) ==> from <= i && i + p.len() <= s.len(),
{
    lemma_find_bounds(s, p, from);
}

proof fn lemma_find_bounds(s: Seq<char>, p: Seq<char>, from: int)
    ensures
        find_from(s, p, from) matches Some(i) ==> from <= i && i + p.len() <= s.len(),
    decreases s.len() - from,
{
    if from < 0 || from + p.len() > s.len() {
    } else if s.subrange(from, from + p.len()) == p {
    } else if from >= s.len() {
    } else {
        lemma_find_bounds(s, p, from + 1);
    }
}

proof fn lemma_find_dot(x: Seq<char>, y: Seq<char>, k: int)
    requires
        0 <= k <= x.len(),
        forall|i: int| 0 <= i < x.len() ==> #[trigger] x[i] != '.',
    ensures
        find_from(x + seq!['.'] + y, seq!['.'], k) == Some(x.len() as int),
    decreases x.len() - k,
{
    let s = x + seq!['.'] + y;
    if k == x.len() {
        assert(s.subrange(k, k + 1) =~= seq!['.']);
    } else {
        assert(s.subrange(k, k + 1) != seq!['.']) by {
            assert(s.subrange(k, k + 1)[0] == x[k]);
        }
        lemma_find_dot(x, y, k + 1);
    }
}

/// Two halves without a `.`, joined by one, split back into the two halves.
pub proof fn lemma_split_joined(x: Seq<char>, y: Seq<char>)
    requires
        forall|i: int| 0 <= i < x.len() ==> #[trigger] x[i] != '.',
        forall|i: int| 0 <= i < y.len() ==> #[trigger] y[i] != '.',
    ensures
        spec_split_dot(x + seq!['.'] + y) == Some((x, y)),
{
    lemma_find_dot(x, y, 0);
    let s = x + seq!['.'] + y;
    let i = x.len() as int;
    assert(s.subrange(i + 1, s.len() as int) =~= y);
    assert(s.subrange(0, i) =~= x);
    assert(!spec_contains(y, seq!['.'])) by {
        if spec_contains(y, seq!['.']) {
            let j = choose|j: int| 0 <= j && j + 1 <= y.len() && #[trigger] y.subrange(j, j + 1) == seq!['.'];
            assert(y.subrange(j, j + 1)[0] == y[j]);
        }
    }
}

/// Split a key written `x.y` into its two halves.
pub fn split_dot(s: &str) -> (r: Option<(&str, &str)>)
    ensures
        match r {
            Some((a, b)) => spec_split_dot(s@) == Some((a@, b@)),
            None => spec_split_dot(s@) is None,
        },
{
    proof { reveal_strlit("."); assert("."@ =~= seq!['.']); }
    match find(s, ".") {
        Some(i) => {
            proof { lemma_find_bounds(s@, seq!['.'], 0); }
            let n = s.unicode_len();
            let rest = s.substring_char(i + 1, n);
            if contains(rest, ".") {
                None
            } else {
                Some((s.substring_char(0, i), rest))
            }
        },
        None => None,
    }
}

/// The bytes of a text, UTF-8 encoded.
pub open spec fn utf8(s: Seq<char>) -> Seq<u8> {
    vstd::utf8::encode_utf8(s)
}

/// The private signing key of a pair, decoded from its base64.
pub open spec fn private_key_bytes(kp: KeyPair) -> Option<Seq<u8>> {
    base64_decode_spec(utf8(kp.priv_key@))
}

/// The private key of a pair is the base64 of 32 bytes.
pub open spec fn private_key_ok(kp: KeyPair) -> bool {
    private_key_bytes(kp) matches Some(pk) && pk.len() == 32
}

/// The private key of a pair is the base64 of 32 bytes that are a P-256 private scalar.
pub open spec fn signing_key_ok(kp: KeyPair) -> bool {
    private_key_bytes(kp) matches Some(pk) && pk.len() == 32 && p256_signing_key_ok(pk)
}

/// Signed data `{"m": message, "s": signature}`.
pub open spec fn is_signed(j: Json, message: Seq<char>, signature: Seq<char>) -> bool {
    &&& j matches Json::Object(m) && m@.dom().len() == 2
    &&& spec_field(j, seq!['m']) matches Some(mv) && spec_str(mv) == Some(message)
    &&& spec_field(j, seq!['s']) matches Some(sv) && spec_str(sv) == Some(signature)
}

/// Sign data with a key pair: the data's compact JSON text, and the unpadded base64 of
/// its ECDSA P-256 signature, as `{"m": ..., "s": ...}`.
///
/// A private key that is not base64 of 32 bytes is an invalid key; one that is not a
/// P-256 scalar, or with which signing fails, is a crypto error. A signature comes only from a
/// key that is a P-256 scalar.
pub fn sign(data: &Json, key_pair: &KeyPair) -> (r: Result<Json, SeaError>)
    ensures
        match r {
            Ok(j) => signing_key_ok(*key_pair) && signed_with(j, *data, *key_pair),
            Err(e) => (e is InvalidKey && !private_key_ok(*key_pair)) || (e is Crypto && private_key_ok(*key_pair)),
        },
{
    let message = to_json_string(data);
    let private = match base64_decode(key_pair.priv_key.as_str().as_bytes()) {
        Some(b) => b,
        None => {
            return Err(SeaError::InvalidKey);
        },
    };
    if private.len() != 32 {
        return Err(SeaError::InvalidKey);
    }
    let sig = match p256_sign(private.as_slice(), message.as_str().as_bytes()) {
        Ok(s) => s,
        Err(e) => {
            return Err(SeaError::Crypto(concat("Invalid private key: ", e.as_str())));
        },
    };
    let sig_text = base64_encode(sig.as_slice());
    proof {
        reveal_strlit("m");
        reveal_strlit("s");
        assert("m"@ =~= seq!['m']);
        assert("s"@ =~= seq!['s']);
    }
    let mut m: StrMap<Json> = StrMap::new();
    m.insert("m".to_owned(), Json::String(message));
    m.insert("s".to_owned(), Json::String(sig_text));
    proof {
        assert(seq!['s'][0] != seq!['m'][0]);
        assert(m@.dom() =~= set![seq!['m'], seq!['s']]);
    }
    Ok(Json::Object(m))
}

/// The SEC1 bytes of a public key written `x.y` (each coordinate in unpadded base64):
/// `0x04`, then `x`, then `y`.
pub open spec fn public_key_sec1(pub_key: Seq<char>) -> Option<Seq<u8>> {
    match spec_split_dot(pub_key) {
        Some((x, y)) => match (base64_decode_spec(utf8(x)), base64_decode_spec(utf8(y))) {
            (Some(xb), Some(yb)) => Some(seq![4u8] + xb + yb),
            _ => None,
        },
        None => None,
    }
}

/// The SEC1 bytes of a public key written `x.y`.
pub fn public_key_bytes(pub_key: &str) -> (r: Option<Vec<u8>>)
    ensures
        match r {
            Some(b) => public_key_sec1(pub_key@) == Some(b@),
            None => public_key_sec1(pub_key@) is None,
        },
{
    let (x, y) = match split_dot(pub_key) {
        Some(p) => p,
        None => {
            return None;
        },
    };
    let xb = match base64_decode(x.as_bytes()) {
        Some(b) => b,
        None => {
            return None;
        },
    };
    let yb = match base64_decode(y.as_bytes()) {
        Some(b) => b,
        None => {
            return None;
        },
    };
    let mut out: Vec<u8> = Vec::new();
    out.push(4u8);
    let mut i: usize = 0;
    while i < xb.len()
        invariant
            i <= xb@.len(),
            out@ == seq![4u8] + xb@.subrange(0, i as int),
        decreases xb@.len() - i,
    {
        out.push(xb[i]);
        proof { assert(out@ =~= seq![4u8] + xb@.subrange(0, i + 1)); }
        i = i + 1;
    }
    let mut j: usize = 0;
    proof { assert(xb@.subrange(0, xb@.len() as int) =~= xb@); }
    while j < yb.len()
        invariant
            j <= yb@.len(),
            out@ == seq![4u8] + xb@ + yb@.subrange(0, j as int),
        decreases yb@.len() - j,
    {
        out.push(yb[j]);
        proof { assert(out@ =~= seq![4u8] + xb@ + yb@.subrange(0, j + 1)); }
        j = j + 1;
    }
    proof { assert(yb@.subrange(0, yb@.len() as int) =~= yb@); }
    Some(out)
}

/// The message and signature texts of signed data.
pub open spec fn signed_parts(signed: Json) -> Option<(Seq<char>, Seq<char>)> {
    match (spec_field(signed, seq!['m']), spec_field(signed, seq!['s'])) {
        (Some(mv), Some(sv)) => match (spec_str(mv), spec_str(sv)) {
            (Some(m), Some(s)) => Some((m, s)),
            _ => None,
        },
        _ => None,
    }
}

/// The signature of signed data is the base64 of a 64-byte signature that verifies over its
/// message under the public key with the given SEC1 bytes.
pub open spec fn signature_verifies_under(signed: Json, key: Seq<u8>) -> bool {
    match signed_parts(signed) {
        Some((msg, sig)) => match base64_decode_spec(utf8(sig)) {
            Some(sb) => sb.len() == 64 && p256_signature_ok(sb) && p256_verifies(key, sb, utf8(msg)),
            None => false,
        },
        None => false,
    }
}

/// The signature of signed data verifies under the public key written `x.y`.
pub open spec fn signature_holds(signed: Json, pub_key: Seq<char>) -> bool {
    match public_key_sec1(pub_key) {
        Some(key) => signature_verifies_under(signed, key),
        None => false,
    }
}

/// Signed data as `sign` makes it with a pair: the data's text and the base64 of its
/// signature with the pair's private key, which verifies under that key's public key.
pub open spec fn signed_with(j: Json, data: Json, kp: KeyPair) -> bool {
    let sk = private_key_bytes(kp)->Some_0;
    &&& is_signed(j, json_text(data), base64_spec(p256_signature(sk, utf8(json_text(data)))))
    &&& signature_verifies_under(j, p256_public_of(sk))
}

/// Verify signed data `{"m": message, "s": signature}` against a public key written `x.y`,
/// and hand back the message (the JSON text of the data that was signed).
///
/// Missing parts fail verification; a key that is not two base64 halves is an invalid
/// key, and one that is not a point of P-256 a crypto error; a signature that is not the
/// base64 of a 64-byte signature, or that does not verify, fails verification.
pub fn verify(signed: &Json, pub_key: &str) -> (r: Result<String, SeaError>)
    ensures
        r is Ok <==> signature_holds(*signed, pub_key@) && p256_verifying_key_ok(public_key_sec1(pub_key@)->Some_0),
        match r {
            Ok(m) => signature_holds(*signed, pub_key@) && signed_parts(*signed) == Some((m@, signed_parts(*signed)->Some_0.1)),
            Err(e) => match signed_parts(*signed) {
                None => e is VerificationFailed,
                Some((msg, sig)) => match public_key_sec1(pub_key@) {
                    None => e is InvalidKey,
                    Some(key) => if !p256_verifying_key_ok(key) {
                        e is Crypto
                    } else {
                        e is VerificationFailed
                    },
                },
            },
        },
{
    proof {
        reveal_strlit("m");
        reveal_strlit("s");
        assert("m"@ =~= seq!['m']);
        assert("s"@ =~= seq!['s']);
    }
    let message = match signed.get("m") {
        Some(v) => match v.as_str() {
            Some(s) => s,
            None => {
                return Err(SeaError::VerificationFailed);
            },
        },
        None => {
            return Err(SeaError::VerificationFailed);
        },
    };
    let signature = match signed.get("s") {
        Some(v) => match v.as_str() {
            Some(s) => s,
            None => {
                return Err(SeaError::VerificationFailed);
            },
        },
        None => {
            return Err(SeaError::VerificationFailed);
        },
    };
    let key = match public_key_bytes(pub_key) {
        Some(k) => k,
        None => {
            return Err(SeaError::InvalidKey);
        },
    };
    match p256_key_check(key.as_slice()) {
        Ok(()) => {},
        Err(e) => {
            return Err(SeaError::Crypto(concat("Invalid public key: ", e.as_str())));
        },
    }
    let sb = match base64_decode(signature.as_bytes()) {
        Some(b) => b,
        None => {
            return Err(SeaError::VerificationFailed);
        },
    };
    if sb.len() != 64 {
        return Err(SeaError::VerificationFailed);
    }
    match p256_check(key.as_slice(), sb.as_slice(), message.as_bytes()) {
        SignatureCheck::Checked(true) => Ok(message.to_owned()),
        SignatureCheck::BadKey(e) => Err(SeaError::Crypto(concat("Invalid public key: ", e.as_str()))),
        _ => Err(SeaError::VerificationFailed),
    }
}

} // verus!
