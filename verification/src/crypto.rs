//! Hashing, key derivation, encodings and randomness, from the outside crates that provide them.
use vstd::prelude::*;
use base64::Engine as _;
use sha2::Digest as _;
use rand::RngCore as _;
use rand::Rng as _;

verus! {

/// The SHA-256 digest of some bytes.
pub uninterp spec fn sha256_spec(data: Seq<u8>) -> Seq<u8>;

/// SHA-256 (`sha2::Sha256`): the result is the digest of the input, 32 bytes long.
#[verifier::external_body]
pub(crate) fn sha256(data: &[u8]) -> (r: Vec<u8>)
    ensures
        r@ == sha256_spec(data@),
        r@.len() == 32,
{
    sha2::Sha256::digest(data).to_vec()
}

/// The key PBKDF2 with HMAC-SHA-256 derives from a password and a salt in the given
/// number of rounds, `len` bytes long.
pub uninterp spec fn pbkdf2_sha256_spec(password: Seq<u8>, salt: Seq<u8>, rounds: u32, len: nat) -> Seq<u8>;

/// PBKDF2 with HMAC-SHA-256 (`pbkdf2::pbkdf2_hmac::<sha2::Sha256>`): the result is the
/// derived key of the requested length.
#[verifier::external_body]
pub(crate) fn pbkdf2_sha256(password: &[u8], salt: &[u8], rounds: u32, len: usize) -> (r: Vec<u8>)
    ensures
        r@ == pbkdf2_sha256_spec(password@, salt@, rounds, len as nat),
        r@.len() == len,
{
    let mut out = vec![0u8; len];
    pbkdf2::pbkdf2_hmac::<sha2::Sha256>(password, salt, rounds, &mut out);
    out
}

/// The character of the standard base64 alphabet for a number below 64: `A`-`Z`, `a`-`z`,
/// `0`-`9`, `+`, `/`.
pub open spec fn base64_char(n: int) -> char {
    if n < 26 {
        (65 + n) as char
    } else if n < 52 {
        (97 + n - 26) as char
    } else if n < 62 {
        (48 + n - 52) as char
    } else if n == 62 {
        '+'
    } else {
        '/'
    }
}

/// The standard base64 text of some bytes, without padding: each group of three bytes as four
/// characters of six bits each, high bits first; a last byte as two characters and a last two
/// bytes as three, the missing low bits zero.
pub open spec fn base64_spec(data: Seq<u8>) -> Seq<char>
    decreases data.len(),
{
    if data.len() == 0 {
        Seq::empty()
    } else if data.len() == 1 {
        seq![base64_char(data[0] as int / 4), base64_char((data[0] as int % 4) * 16)]
    } else if data.len() == 2 {
        seq![base64_char(data[0] as int / 4), base64_char((data[0] as int % 4) * 16 + data[1] as int / 16), base64_char((data[1] as int % 16) * 4)]
    } else {
        seq![base64_char(data[0] as int / 4), base64_char((data[0] as int % 4) * 16 + data[1] as int / 16),
            base64_char((data[1] as int % 16) * 4 + data[2] as int / 64), base64_char(data[2] as int % 64)]
            + base64_spec(data.subrange(3, data.len() as int))
    }
}

/// A character of the standard base64 alphabet: a letter, a digit, `+` or `/`.
pub open spec fn is_base64_char(c: char) -> bool {
    ('A' <= c && c <= 'Z') || ('a' <= c && c <= 'z') || ('0' <= c && c <= '9') || c == '+' || c == '/'
}

/// The base64 text of `n` bytes has four characters for every three bytes and two or three
/// for a last one or two, all of the standard alphabet.
pub proof fn lemma_base64_shape(data: Seq<u8>)
    ensures
        base64_spec(data).len() == (4 * data.len() + 2) / 3,
        forall|i: int| 0 <= i < base64_spec(data).len() ==> is_base64_char(#[trigger] base64_spec(data)[i]),
    decreases data.len(),
{
    if data.len() >= 3 {
        let rest = data.subrange(3, data.len() as int);
        lemma_base64_shape(rest);
        let head = seq![base64_char(data[0] as int / 4), base64_char((data[0] as int % 4) * 16 + data[1] as int / 16),
            base64_char((data[1] as int % 16) * 4 + data[2] as int / 64), base64_char(data[2] as int % 64)];
        assert(base64_spec(data) == head + base64_spec(rest));
        assert forall|i: int| 0 <= i < base64_spec(data).len() implies is_base64_char(#[trigger] base64_spec(data)[i]) by {
            if i >= 4 {
                assert(base64_spec(data)[i] == base64_spec(rest)[i - 4]);
            }
        }
    }
}

/// Base64 encoding with the standard alphabet and no padding
/// (`base64::engine::general_purpose::STANDARD_NO_PAD.encode`): the text `base64_spec`
/// describes. No other bytes have the same encoding, so it decodes back to these bytes.
#[verifier::external_body]
fn base64_encode_text(data: &[u8]) -> (r: String)
    ensures
        r@ == base64_spec(data@),
        base64_decode_spec(vstd::utf8::encode_utf8(r@)) == Some(data@),
{
    base64::engine::general_purpose::STANDARD_NO_PAD.encode(data)
}

/// The standard, unpadded base64 text of some bytes: four characters of the standard alphabet
/// for every three bytes and two or three for a last one or two, which decodes back to the
/// bytes.
pub(crate) fn base64_encode(data: &[u8]) -> (r: String)
    ensures
        r@ == base64_spec(data@),
        r@.len() == (4 * data@.len() + 2) / 3,
        forall|i: int| 0 <= i < r@.len() ==> is_base64_char(#[trigger] r@[i]),
        base64_decode_spec(vstd::utf8::encode_utf8(r@)) == Some(data@),
{
    let r = base64_encode_text(data);
    proof { lemma_base64_shape(data@); }
    r
}

/// The bytes that a standard, unpadded base64 text decodes to: the bytes whose encoding
/// (`base64_spec`, as ASCII bytes) it is, `None` when it is the encoding of no bytes.
pub closed spec fn base64_decode_spec(text: Seq<u8>) -> Option<Seq<u8>> {
    if exists|d: Seq<u8>| vstd::utf8::encode_utf8(#[trigger] base64_spec(d)) == text {
        Some(choose|d: Seq<u8>| vstd::utf8::encode_utf8(#[trigger] base64_spec(d)) == text)
    } else {
        None
    }
}

/// Different numbers below 64 have different base64 characters.
proof fn lemma_base64_char_injective(x: int, y: int)
    requires
        0 <= x < 64,
        0 <= y < 64,
        base64_char(x) == base64_char(y),
    ensures
        x == y,
{
    assert(base64_char(x) as u32 == base64_char(y) as u32);
}

/// The lengths of base64 texts tell the lengths of the bytes apart.
proof fn lemma_base64_len_injective(n: nat, m: nat)
    requires
        (4 * n + 2) / 3 == (4 * m + 2) / 3,
    ensures
        n == m,
{
    if n < m {
        assert((4 * n + 2) / 3 < (4 * m + 2) / 3) by (nonlinear_arith) requires n < m;
    } else if m < n {
        assert((4 * m + 2) / 3 < (4 * n + 2) / 3) by (nonlinear_arith) requires m < n;
    }
}

/// Different bytes have different base64 texts.
pub proof fn lemma_base64_injective(a: Seq<u8>, b: Seq<u8>)
    requires
        base64_spec(a) == base64_spec(b),
    ensures
        a == b,
    decreases a.len(),
{
    lemma_base64_shape(a);
    lemma_base64_shape(b);
    lemma_base64_len_injective(a.len(), b.len());
    let t = base64_spec(a);
    if a.len() == 0 {
        assert(a =~= b);
    } else if a.len() == 1 {
        let (a0, b0) = (a[0], b[0]);
        assert(t[0] == base64_char(a0 as int / 4) && t[0] == base64_char(b0 as int / 4));
        assert(t[1] == base64_char((a0 as int % 4) * 16) && t[1] == base64_char((b0 as int % 4) * 16));
        lemma_base64_char_injective(a0 as int / 4, b0 as int / 4);
        lemma_base64_char_injective((a0 as int % 4) * 16, (b0 as int % 4) * 16);
        assert(a0 == b0) by (bit_vector)
            requires a0 / 4 == b0 / 4, (a0 % 4) * 16 == (b0 % 4) * 16;
        assert(a =~= b);
    } else if a.len() == 2 {
        let (a0, a1, b0, b1) = (a[0], a[1], b[0], b[1]);
        lemma_base64_char_injective(a0 as int / 4, b0 as int / 4);
        lemma_base64_char_injective((a0 as int % 4) * 16 + a1 as int / 16, (b0 as int % 4) * 16 + b1 as int / 16);
        lemma_base64_char_injective((a1 as int % 16) * 4, (b1 as int % 16) * 4);
        assert(a0 == b0 && a1 == b1) by (bit_vector)
            requires a0 / 4 == b0 / 4, (a0 % 4) * 16 + a1 / 16 == (b0 % 4) * 16 + b1 / 16,
                (a1 % 16) * 4 == (b1 % 16) * 4;
        assert(a =~= b);
    } else {
        let (a0, a1, a2, b0, b1, b2) = (a[0], a[1], a[2], b[0], b[1], b[2]);
        let ha = seq![base64_char(a0 as int / 4), base64_char((a0 as int % 4) * 16 + a1 as int / 16),
            base64_char((a1 as int % 16) * 4 + a2 as int / 64), base64_char(a2 as int % 64)];
        let hb = seq![base64_char(b0 as int / 4), base64_char((b0 as int % 4) * 16 + b1 as int / 16),
            base64_char((b1 as int % 16) * 4 + b2 as int / 64), base64_char(b2 as int % 64)];
        assert(t == ha + base64_spec(a.subrange(3, a.len() as int)));
        assert(t == hb + base64_spec(b.subrange(3, b.len() as int)));
        assert(t[0] == ha[0] && t[0] == hb[0] && t[1] == ha[1] && t[1] == hb[1]);
        assert(t[2] == ha[2] && t[2] == hb[2] && t[3] == ha[3] && t[3] == hb[3]);
        lemma_base64_char_injective(a0 as int / 4, b0 as int / 4);
        lemma_base64_char_injective((a0 as int % 4) * 16 + a1 as int / 16, (b0 as int % 4) * 16 + b1 as int / 16);
        lemma_base64_char_injective((a1 as int % 16) * 4 + a2 as int / 64, (b1 as int % 16) * 4 + b2 as int / 64);
        lemma_base64_char_injective(a2 as int % 64, b2 as int % 64);
        assert(a0 == b0 && a1 == b1 && a2 == b2) by (bit_vector)
            requires a0 / 4 == b0 / 4, (a0 % 4) * 16 + a1 / 16 == (b0 % 4) * 16 + b1 / 16,
                (a1 % 16) * 4 + a2 / 64 == (b1 % 16) * 4 + b2 / 64, a2 % 64 == b2 % 64;
        let ra = a.subrange(3, a.len() as int);
        let rb = b.subrange(3, b.len() as int);
        assert(base64_spec(ra) =~= t.subrange(4, t.len() as int)) by {
            assert forall|i: int| 0 <= i < base64_spec(ra).len() implies base64_spec(ra)[i] == t[i + 4] by {
                assert(t[i + 4] == (ha + base64_spec(ra))[i + 4]);
            }
        }
        assert(base64_spec(rb) =~= t.subrange(4, t.len() as int)) by {
            assert forall|i: int| 0 <= i < base64_spec(rb).len() implies base64_spec(rb)[i] == t[i + 4] by {
                assert(t[i + 4] == (hb + base64_spec(rb))[i + 4]);
            }
        }
        lemma_base64_injective(ra, rb);
        assert(a =~= b) by {
            assert forall|i: int| 0 <= i < a.len() implies a[i] == b[i] by {
                if i >= 3 { assert(a[i] == ra[i - 3] && b[i] == rb[i - 3]); }
            }
        }
    }
}

/// A base64 text decodes to the bytes it encodes; a text that encodes no bytes decodes to
/// nothing.
pub proof fn lemma_base64_decodes_encoding(d: Seq<u8>, text: Seq<char>)
    ensures
        base64_decode_spec(vstd::utf8::encode_utf8(base64_spec(d))) == Some(d),
        (forall|e: Seq<u8>| #[trigger] base64_spec(e) != text)
            ==> base64_decode_spec(vstd::utf8::encode_utf8(text)) is None,
{
    let bytes = vstd::utf8::encode_utf8(base64_spec(d));
    assert(vstd::utf8::encode_utf8(base64_spec(d)) == bytes);
    let c = choose|e: Seq<u8>| vstd::utf8::encode_utf8(#[trigger] base64_spec(e)) == bytes;
    vstd::utf8::encode_utf8_decode_utf8(base64_spec(c));
    vstd::utf8::encode_utf8_decode_utf8(base64_spec(d));
    lemma_base64_injective(c, d);
    if forall|e: Seq<u8>| #[trigger] base64_spec(e) != text {
        assert forall|e: Seq<u8>| vstd::utf8::encode_utf8(#[trigger] base64_spec(e)) != vstd::utf8::encode_utf8(text) by {
            vstd::utf8::encode_utf8_decode_utf8(base64_spec(e));
            vstd::utf8::encode_utf8_decode_utf8(text);
        }
    }
}

/// Base64 decoding with the standard alphabet and no padding
/// (`base64::engine::general_purpose::STANDARD_NO_PAD.decode`). That engine requires no
/// padding and no stray bits in the last character, so it accepts exactly the texts that
/// its encoder writes: the result is the bytes whose encoding the text is (there is at most
/// one such), and `None` (the crate's error) where there are none.
#[verifier::external_body]
pub(crate) fn base64_decode(text: &[u8]) -> (r: Option<Vec<u8>>)
    ensures
        match r {
            Some(v) => vstd::utf8::encode_utf8(base64_spec(v@)) == text@
                && base64_decode_spec(text@) == Some(v@),
            None => base64_decode_spec(text@) is None,
        },
{
    base64::engine::general_purpose::STANDARD_NO_PAD.decode(text).ok()
}

/// The lower-case hexadecimal digit of a number below 16.
pub open spec fn hex_digit(n: u8) -> char {
    if n < 10 { (48 + n) as char } else { (87 + n) as char }
}

/// The lower-case hexadecimal text of some bytes: two digits per byte, high digit first.
pub open spec fn hex_spec(data: Seq<u8>) -> Seq<char>
    decreases data.len(),
{
    if data.len() == 0 {
        Seq::empty()
    } else {
        hex_spec(data.drop_last()) + seq![hex_digit(data.last() / 16), hex_digit(data.last() % 16)]
    }
}

/// Lower-case hexadecimal encoding (`hex::encode`).
#[verifier::external_body]
pub(crate) fn hex_encode(data: &[u8]) -> (r: String)
    ensures
        r@ == hex_spec(data@),
{
    hex::encode(data)
}

/// The value of a hexadecimal digit byte (either case).
pub open spec fn hex_value(c: u8) -> Option<u8> {
    if 48 <= c <= 57 {
        Some((c - 48) as u8)
    } else if 65 <= c <= 70 {
        Some((c - 55) as u8)
    } else if 97 <= c <= 102 {
        Some((c - 87) as u8)
    } else {
        None
    }
}

/// The bytes that a hexadecimal text decodes to: two digits (either case) per byte, high
/// digit first; `None` for an odd length or a byte that is not a digit.
pub open spec fn hex_decode_spec(b: Seq<u8>) -> Option<Seq<u8>>
    decreases b.len(),
{
    if b.len() % 2 != 0 {
        None
    } else if b.len() == 0 {
        Some(Seq::empty())
    } else {
        match (hex_value(b[0]), hex_value(b[1]), hex_decode_spec(b.subrange(2, b.len() as int))) {
            (Some(h), Some(l), Some(rest)) => Some(seq![(h * 16 + l) as u8] + rest),
            _ => None,
        }
    }
}

/// Hexadecimal decoding (`hex::decode`): `None` where the crate reports an error.
#[verifier::external_body]
pub(crate) fn hex_decode(text: &str) -> (r: Option<Vec<u8>>)
    ensures
        match r {
            Some(v) => hex_decode_spec(vstd::utf8::encode_utf8(text@)) == Some(v@),
            None => hex_decode_spec(vstd::utf8::encode_utf8(text@)) is None,
        },
{
    hex::decode(text).ok()
}

/// The BLS signature (augmented scheme) that the secret key with these 32 bytes makes of a message.
pub uninterp spec fn bls_signature(secret_key: Seq<u8>, msg: Seq<u8>) -> Seq<u8>;

/// The 32 bytes are a BLS secret key (`chia_bls::SecretKey::from_bytes` accepts them).
pub uninterp spec fn bls_secret_key_ok(secret_key: Seq<u8>) -> bool;

/// The 48 bytes of the BLS public key of the secret key with these 32 bytes
/// (`SecretKey::public_key`, `PublicKey::to_bytes`).
pub uninterp spec fn bls_public_of(secret_key: Seq<u8>) -> Seq<u8>;

/// The 32 bytes are all zero: the one secret key that `chia_bls::SecretKey::from_bytes`
/// accepts outside the range 1 to the group order, whose public key is the point at infinity.
pub open spec fn bls_zero_key(secret_key: Seq<u8>) -> bool {
    forall|i: int| 0 <= i < secret_key.len() ==> secret_key[i] == 0
}

/// The BLS public key of a secret key (`chia_bls::SecretKey::from_bytes`,
/// `SecretKey::public_key`, `PublicKey::to_bytes`): its 48 bytes; `None` when the bytes are
/// not a secret key.
#[verifier::external_body]
pub(crate) fn bls_public_key(secret_key: &[u8]) -> (r: Option<Vec<u8>>)
    requires
        secret_key@.len() == 32,
    ensures
        r is Some <==> bls_secret_key_ok(secret_key@),
        r matches Some(p) ==> p@ == bls_public_of(secret_key@) && p@.len() == 48,
{
    let bytes: [u8; 32] = secret_key.try_into().unwrap();
    let sk = chia_bls::SecretKey::from_bytes(&bytes).ok()?;
    Some(sk.public_key().to_bytes().to_vec())
}

/// BLS signing (`chia_bls::SecretKey::from_bytes`, `chia_bls::sign`, `Signature::to_bytes`):
/// the 96 bytes of the signature; `None` when the bytes are not a secret key. For a key that
/// is not all zero (so lies between 1 and the group order), the signature verifies
/// (`chia_bls::verify`) over the message under the key's public key: the augmented scheme
/// signs the public key and the message, and verifying hashes the same. For the all-zero key
/// the public key is the point at infinity, which `verify` refuses; nothing is said of it.
#[verifier::external_body]
pub(crate) fn bls_sign(secret_key: &[u8], msg: &[u8]) -> (r: Option<Vec<u8>>)
    requires
        secret_key@.len() == 32,
    ensures
        r is Some <==> bls_secret_key_ok(secret_key@),
        r matches Some(s) ==> s@ == bls_signature(secret_key@, msg@) && s@.len() == 96,
        r matches Some(s) ==> !bls_zero_key(secret_key@) ==> bls_valid(s@, bls_public_of(secret_key@), msg@),
{
    let bytes: [u8; 32] = secret_key.try_into().unwrap();
    let sk = chia_bls::SecretKey::from_bytes(&bytes).ok()?;
    Some(chia_bls::sign(&sk, msg).to_bytes().to_vec())
}

/// Whether the 96 bytes are a BLS signature of the message by the public key with the 48 bytes.
pub uninterp spec fn bls_valid(sig: Seq<u8>, public_key: Seq<u8>, msg: Seq<u8>) -> bool;

/// BLS verification (`chia_bls::Signature::from_bytes`, `chia_bls::PublicKey::from_bytes`,
/// `chia_bls::verify`): false when either does not parse.
#[verifier::external_body]
pub(crate) fn bls_verify(sig: &[u8], public_key: &[u8], msg: &[u8]) -> (b: bool)
    requires
        sig@.len() == 96,
        public_key@.len() == 48,
    ensures
        b == bls_valid(sig@, public_key@, msg@),
{
    let s: [u8; 96] = sig.try_into().unwrap();
    let p: [u8; 48] = public_key.try_into().unwrap();
    match (chia_bls::Signature::from_bytes(&s), chia_bls::PublicKey::from_bytes(&p)) {
        (Ok(s), Ok(p)) => chia_bls::verify(&s, &p, msg),
        _ => false,
    }
}

/// Random bytes from the thread's generator (`rand::thread_rng().fill_bytes`).
/// Only the length is promised.
#[verifier::external_body]
pub(crate) fn random_bytes(n: usize) -> (r: Vec<u8>)
    ensures
        r@.len() == n,
{
    let mut v = vec![0u8; n];
    rand::thread_rng().fill_bytes(&mut v);
    v
}

/// A random number below `n` from the thread's generator (`rand::Rng::gen_range(0..n)`).
/// Only the range is promised.
#[verifier::external_body]
pub(crate) fn random_below(n: usize) -> (r: usize)
    requires
        n > 0,
    ensures
        r < n,
{
    rand::thread_rng().gen_range(0..n)
}

/// The lower-case form of a text, as Unicode defines it.
pub uninterp spec fn lowercase_spec(s: Seq<char>) -> Seq<char>;

/// Unicode lower-casing (`str::to_lowercase`).
#[verifier::external_body]
pub(crate) fn to_lowercase(s: &str) -> (r: String)
    ensures
        r@ == lowercase_spec(s@),
{
    s.to_lowercase()
}

} // verus!

verus! {

/// The hexadecimal text of some bytes has two ASCII digits per byte: at `2 * j` the high
/// digit of byte `j`, at `2 * j + 1` its low digit.
proof fn lemma_hex_spec_digits(data: Seq<u8>)
    ensures
        hex_spec(data).len() == 2 * data.len(),
        forall|j: int| 0 <= j < data.len() ==> hex_spec(data)[2 * j] == hex_digit(#[trigger] data[j] / 16)
            && hex_spec(data)[2 * j + 1] == hex_digit(data[j] % 16),
    decreases data.len(),
{
    if data.len() > 0 {
        lemma_hex_spec_digits(data.drop_last());
        let h = hex_spec(data);
        assert forall|j: int| 0 <= j < data.len() implies h[2 * j] == hex_digit(#[trigger] data[j] / 16)
            && h[2 * j + 1] == hex_digit(data[j] % 16) by {
            if j < data.len() - 1 {
                assert(data.drop_last()[j] == data[j]);
            }
        }
    }
}

/// Decoding bytes whose pairs are the digits of `data` gives `data` back.
proof fn lemma_hex_decode_pairs(b: Seq<u8>, data: Seq<u8>)
    requires
        b.len() == 2 * data.len(),
        forall|j: int| 0 <= j < data.len() ==> hex_value(b[2 * j]) == Some(#[trigger] data[j] / 16)
            && hex_value(b[2 * j + 1]) == Some(data[j] % 16),
    ensures
        hex_decode_spec(b) == Some(data),
    decreases data.len(),
{
    if data.len() > 0 {
        let rest = b.subrange(2, b.len() as int);
        assert forall|j: int| 0 <= j < data.drop_first().len() implies hex_value(rest[2 * j]) == Some(#[trigger] data.drop_first()[j] / 16)
            && hex_value(rest[2 * j + 1]) == Some(data.drop_first()[j] % 16) by {
            assert(rest[2 * j] == b[2 * (j + 1)]);
            assert(rest[2 * j + 1] == b[2 * (j + 1) + 1]);
            assert(data.drop_first()[j] == data[j + 1]);
        }
        lemma_hex_decode_pairs(rest, data.drop_first());
        assert(hex_value(b[0]) == Some(data[0] / 16));
        assert(hex_value(b[1]) == Some(data[0] % 16));
        assert(((data[0] / 16) * 16 + data[0] % 16) as u8 == data[0]);
        assert(seq![data[0]] + data.drop_first() =~= data);
    }
}

/// Hexadecimal decoding gives back the bytes whose text it is.
pub proof fn lemma_hex_roundtrip(data: Seq<u8>)
    ensures
        hex_decode_spec(vstd::utf8::encode_utf8(hex_spec(data))) == Some(data),
{
    lemma_hex_spec_digits(data);
    let h = hex_spec(data);
    assert(vstd::utf8::is_ascii_chars(h)) by {
        assert forall|i: int| 0 <= i < h.len() implies '\0' <= #[trigger] h[i] <= '\u{7f}' by {
            let j = i / 2;
            assert(0 <= j < data.len());
            if i % 2 == 0 {
                assert(i == 2 * j);
                assert(h[i] == hex_digit(data[j] / 16));
            } else {
                assert(i == 2 * j + 1);
                assert(h[i] == hex_digit(data[j] % 16));
            }
        }
    }
    vstd::utf8::is_ascii_chars_encode_utf8(h);
    let b = vstd::utf8::encode_utf8(h);
    assert forall|j: int| 0 <= j < data.len() implies hex_value(b[2 * j]) == Some(#[trigger] data[j] / 16)
        && hex_value(b[2 * j + 1]) == Some(data[j] % 16) by {
        assert(h[2 * j] as u8 == b[2 * j]);
        assert(h[2 * j + 1] as u8 == b[2 * j + 1]);
        assert(h[2 * j] == hex_digit(data[j] / 16));
        assert(h[2 * j + 1] == hex_digit(data[j] % 16));
    }
    lemma_hex_decode_pairs(b, data);
}

} // verus!
