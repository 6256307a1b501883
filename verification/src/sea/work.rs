//! Proof of work and content hashing: PBKDF2 key derivation, or a SHA-256 digest.
use vstd::prelude::*;
use crate::crypto::{sha256, pbkdf2_sha256, base64_encode, hex_encode, random_bytes, to_lowercase,
    sha256_spec, pbkdf2_sha256_spec, base64_spec, hex_spec, lowercase_spec};
use crate::text::{starts_with, spec_starts_with};
use crate::strmap::str_eq;
use super::SeaError;

verus! {

/// Options for `work`.
pub struct WorkOptions {
    /// The algorithm: a name that starts with `"sha"` (in any case) asks for a SHA-256
    /// digest; anything else, or none, for PBKDF2.
    pub name: Option<String>,
    /// PBKDF2 rounds (default 100000).
    pub iterations: Option<u32>,
    /// PBKDF2 salt, used when no salt is passed to `work` (a random one otherwise).
    pub salt: Option<Vec<u8>>,
    /// Hash function for PBKDF2; SHA-256 is used whatever it names.
    pub hash: Option<String>,
    /// Length of the derived key in bits (default 512).
    pub length: Option<usize>,
    /// Output encoding: `"hex"`, or base64 for anything else (the default).
    pub encode: Option<String>,
}

impl Default for WorkOptions {
    fn default() -> (o: WorkOptions)
        ensures
            o.name matches Some(n) && n@ == seq!['P', 'B', 'K', 'D', 'F', '2'],
            o.iterations == Some(100_000u32),
            o.salt is None,
            o.hash matches Some(h) && h@ == seq!['S', 'H', 'A', '-', '2', '5', '6'],
            o.length == Some(512usize),
            o.encode matches Some(e) && e@ == seq!['b', 'a', 's', 'e', '6', '4'],
    {
        proof {
            reveal_strlit("PBKDF2");
            reveal_strlit("SHA-256");
            reveal_strlit("base64");
        }
        let o = WorkOptions {
            name: Some("PBKDF2".to_owned()),
            iterations: Some(100_000),
            salt: None,
            hash: Some("SHA-256".to_owned()),
            length: Some(512),
            encode: Some("base64".to_owned()),
        };
        proof {
            assert(o.name->Some_0@ =~= seq!['P', 'B', 'K', 'D', 'F', '2']);
            assert(o.hash->Some_0@ =~= seq!['S', 'H', 'A', '-', '2', '5', '6']);
            assert(o.encode->Some_0@ =~= seq!['b', 'a', 's', 'e', '6', '4']);
        }
        o
    }
}

/// The options ask for a SHA-256 digest: the lower-cased name starts with `"sha"`.
pub open spec fn is_sha_mode(opt: WorkOptions) -> bool {
    opt.name matches Some(n) && spec_starts_with(lowercase_spec(n@), seq!['s', 'h', 'a'])
}

/// The bytes written in the encoding the options ask for.
pub open spec fn encoded(opt: WorkOptions, bytes: Seq<u8>) -> Seq<char> {
    if opt.encode matches Some(e) && e@ == seq!['h', 'e', 'x'] { hex_spec(bytes) } else { base64_spec(bytes) }
}

/// PBKDF2 rounds the options ask for.
pub open spec fn work_rounds(opt: WorkOptions) -> u32 {
    match opt.iterations { Some(n) => n, None => 100_000 }
}

/// Length in bytes of the key the options ask for.
pub open spec fn work_key_len(opt: WorkOptions) -> nat {
    (match opt.length { Some(bits) => bits, None => 512 }) as nat / 8
}

/// The output of `work` for data, a salt and options.
pub open spec fn work_output(data: Seq<u8>, salt: Seq<u8>, opt: WorkOptions) -> Seq<char> {
    if is_sha_mode(opt) {
        encoded(opt, sha256_spec(data))
    } else {
        encoded(opt, pbkdf2_sha256_spec(data, salt, work_rounds(opt), work_key_len(opt)))
    }
}

fn encode_as(opt: &WorkOptions, bytes: &[u8]) -> (r: String)
    ensures
        r@ == encoded(*opt, bytes@),
{
    proof { reveal_strlit("hex"); assert("hex"@ =~= seq!['h', 'e', 'x']); }
    match &opt.encode {
        Some(e) => {
            if str_eq(e.as_str(), "hex") {
                return hex_encode(bytes);
            }
        },
        None => {},
    }
    base64_encode(bytes)
}

/// Compute a proof of work or a content hash.
///
/// With a name that starts with `"sha"` the result is the SHA-256 digest of the data.
/// Otherwise it is the PBKDF2 key derived from the data with the salt passed in, or
/// else the salt of the options, or else 9 random bytes. The result is written in
/// the encoding the options ask for. This always succeeds.
pub fn work(data: &[u8], salt_or_pair: Option<Vec<u8>>, opt: WorkOptions) -> (r: Result<String, SeaError>)
    ensures
        r is Ok,
        r matches Ok(s) && (
            if is_sha_mode(opt) {
                s@ == work_output(data@, Seq::empty(), opt)
            } else if salt_or_pair is Some {
                s@ == work_output(data@, salt_or_pair->Some_0@, opt)
            } else if opt.salt is Some {
                s@ == work_output(data@, opt.salt->Some_0@, opt)
            } else {
                exists|salt: Seq<u8>| salt.len() == 9 && s@ == #[trigger] work_output(data@, salt, opt)
            }),
{
    proof { reveal_strlit("sha"); assert("sha"@ =~= seq!['s', 'h', 'a']); }
    let sha = match &opt.name {
        Some(n) => {
            let lower = to_lowercase(n.as_str());
            starts_with(lower.as_str(), "sha")
        },
        None => false,
    };
    if sha {
        let digest = sha256(data);
        return Ok(encode_as(&opt, digest.as_slice()));
    }
    let salt = match salt_or_pair {
        Some(s) => s,
        None => match &opt.salt {
            Some(s) => s.clone(),
            None => random_bytes(9),
        },
    };
    let rounds = match opt.iterations {
        Some(n) => n,
        None => 100_000,
    };
    let bits = match opt.length {
        Some(b) => b,
        None => 512,
    };
    let key = pbkdf2_sha256(data, salt.as_slice(), rounds, bits / 8);
    let out = encode_as(&opt, key.as_slice());
    proof {
        if salt_or_pair is None && opt.salt is None {
            assert(out@ == work_output(data@, salt@, opt));
        }
    }
    Ok(out)
}

/// `work` on the UTF-8 bytes of a string.
pub fn work_string(data: &str, salt_or_pair: Option<Vec<u8>>, opt: WorkOptions) -> (r: Result<String, SeaError>)
    ensures
        r is Ok,
        r matches Ok(s) && (
            if is_sha_mode(opt) {
                s@ == work_output(vstd::utf8::encode_utf8(data@), Seq::empty(), opt)
            } else if salt_or_pair is Some {
                s@ == work_output(vstd::utf8::encode_utf8(data@), salt_or_pair->Some_0@, opt)
            } else if opt.salt is Some {
                s@ == work_output(vstd::utf8::encode_utf8(data@), opt.salt->Some_0@, opt)
            } else {
                exists|salt: Seq<u8>| salt.len() == 9 && s@ == #[trigger] work_output(vstd::utf8::encode_utf8(data@), salt, opt)
            }),
{
    work(data.as_bytes(), salt_or_pair, opt)
}

} // verus!
