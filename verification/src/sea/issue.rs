//! Issuing certificates: the authority signs who may write which paths, until when,
//! and what stays blocked; and reading a verified certificate back.
use vstd::prelude::*;
use crate::json::{Json, quoted, write_quoted, spec_field, spec_str};
use crate::strmap::{StrMap, str_eq};
use crate::text::{push_char, concat, starts_with, spec_starts_with};
use crate::crypto::{base64_encode, base64_spec};
use crate::dam::{decimal_text, decimal_string};
use super::certify::{Certificants, Policy, RadixPolicy, Certificate, CertifyOptions, BlockPolicy};
use super::keys::{p256_sign, p256_signature};
use super::sign::{private_key_ok, private_key_bytes, signing_key_ok, utf8};
use super::{KeyPair, SeaError};

verus! {

/// Texts written as JSON strings and separated by commas.
pub open spec fn quoted_list(s: Seq<String>) -> Seq<char>
    decreases s.len(),
{
    if s.len() == 0 {
        Seq::empty()
    } else if s.len() == 1 {
        quoted(s[0]@)
    } else {
        quoted_list(s.drop_last()) + seq![','] + quoted(s.last()@)
    }
}

/// The JSON text of a list of texts: `["a","b"]`.
pub open spec fn list_text(s: Seq<String>) -> Seq<char> {
    seq!['['] + quoted_list(s) + seq![']']
}

/// Entries written `"key":"value"` and separated by commas.
pub open spec fn quoted_entries(s: Seq<(String, String)>) -> Seq<char>
    decreases s.len(),
{
    if s.len() == 0 {
        Seq::empty()
    } else if s.len() == 1 {
        quoted(s[0].0@) + seq![':'] + quoted(s[0].1@)
    } else {
        quoted_entries(s.drop_last()) + seq![','] + quoted(s.last().0@) + seq![':'] + quoted(s.last().1@)
    }
}

/// The JSON text of a map of texts, in entry order: `{"a":"b"}`.
pub open spec fn map_text(s: Seq<(String, String)>) -> Seq<char> {
    seq!['{'] + quoted_entries(s) + seq!['}']
}

fn list_string(l: &Vec<String>) -> (s: String)
    ensures
        s@ == list_text(l@),
{
    let mut out = String::new();
    push_char(&mut out, '[');
    let mut i: usize = 0;
    proof { assert(l@.subrange(0, 0) =~= Seq::<String>::empty()); }
    while i < l.len()
        invariant
            i <= l@.len(),
            out@ == seq!['['] + quoted_list(l@.subrange(0, i as int)),
        decreases l@.len() - i,
    {
        if i > 0 {
            push_char(&mut out, ',');
        }
        write_quoted(&mut out, l[i].as_str());
        proof {
            let t = l@.subrange(0, i + 1);
            assert(t.drop_last() =~= l@.subrange(0, i as int));
            assert(out@ =~= seq!['['] + quoted_list(t));
        }
        i = i + 1;
    }
    push_char(&mut out, ']');
    proof {
        assert(l@.subrange(0, l@.len() as int) =~= l@);
        assert(out@ =~= list_text(l@));
    }
    out
}

fn map_string(m: &StrMap<String>) -> (s: String)
    ensures
        s@ == map_text(m.entries()),
{
    proof { m.lemma_entries_field(); }
    let mut out = String::new();
    push_char(&mut out, '{');
    let n = m.entries.len();
    let mut i: usize = 0;
    proof { assert(m.entries@.subrange(0, 0) =~= Seq::<(String, String)>::empty()); }
    while i < n
        invariant
            n == m.entries@.len(),
            i <= n,
            out@ == seq!['{'] + quoted_entries(m.entries@.subrange(0, i as int)),
        decreases n - i,
    {
        if i > 0 {
            push_char(&mut out, ',');
        }
        let e = &m.entries[i];
        write_quoted(&mut out, e.0.as_str());
        push_char(&mut out, ':');
        write_quoted(&mut out, e.1.as_str());
        proof {
            let t = m.entries@.subrange(0, i + 1);
            assert(t.drop_last() =~= m.entries@.subrange(0, i as int));
            assert(t.last() == m.entries@[i as int]);
            assert(out@ =~= seq!['{'] + quoted_entries(t));
        }
        i = i + 1;
    }
    push_char(&mut out, '}');
    proof {
        assert(m.entries@.subrange(0, n as int) =~= m.entries@);
        assert(out@ =~= map_text(m.entries()));
    }
    out
}

/// How a certificate writes its certificants, as a JSON value: `"*"` for anyone, the one
/// key of a list of one as a string, a longer (or empty) list as a JSON list of strings.
pub open spec fn certificants_text(c: Certificants) -> Seq<char> {
    match c {
        Certificants::Wildcard => quoted(seq!['*']),
        Certificants::List(l) => if l@.len() == 1 { quoted(l@[0]@) } else { list_text(l@) },
    }
}

/// How a certificate writes a write policy: a path as it is, LEX patterns as the JSON text
/// of their map, a list of policies as the JSON list of their texts.
pub open spec fn policy_text(p: Policy) -> Seq<char>
    decreases p, 0nat,
{
    match p {
        Policy::String(s) => s@,
        Policy::Radix(r) => map_text(r.patterns.entries()),
        Policy::Array(ps) => seq!['['] + policies_text(ps@) + seq![']'],
    }
}

/// The texts of policies, each written as a JSON string, separated by commas.
pub open spec fn policies_text(ps: Seq<Policy>) -> Seq<char>
    decreases ps, 1nat,
{
    if ps.len() == 0 {
        Seq::empty()
    } else if ps.len() == 1 {
        quoted(policy_text(ps[0]))
    } else {
        policies_text(ps.subrange(0, ps.len() - 1)) + seq![','] + quoted(policy_text(ps[ps.len() - 1]))
    }
}

fn certificants_string(c: &Certificants) -> (s: String)
    ensures
        s@ == certificants_text(*c),
{
    let mut out = String::new();
    match c {
        Certificants::Wildcard => {
            proof { reveal_strlit("*"); assert("*"@ =~= seq!['*']); }
            write_quoted(&mut out, "*");
            proof { assert(out@ =~= quoted(seq!['*'])); }
            out
        },
        Certificants::List(l) => {
            if l.len() == 1 {
                write_quoted(&mut out, l[0].as_str());
                proof { assert(out@ =~= quoted(l@[0]@)); }
                out
            } else {
                list_string(l)
            }
        },
    }
}

fn policy_string(p: &Policy) -> (s: String)
    ensures
        s@ == policy_text(*p),
    decreases p,
{
    match p {
        Policy::String(s) => s.clone(),
        Policy::Radix(r) => map_string(&r.patterns),
        Policy::Array(v) => {
            let mut out = String::new();
            push_char(&mut out, '[');
            let n = v.len();
            let mut i: usize = 0;
            proof { assert(v@.subrange(0, 0) =~= Seq::<Policy>::empty()); }
            while i < n
                invariant
                    *p == Policy::Array(*v),
                    n == v@.len(),
                    i <= n,
                    out@ == seq!['['] + policies_text(v@.subrange(0, i as int)),
                decreases n - i,
            {
                proof { assert(decreases_to!(*p => (*p)->Array_0@[i as int])); }
                let item = policy_string(&v[i]);
                if i > 0 {
                    push_char(&mut out, ',');
                }
                write_quoted(&mut out, item.as_str());
                proof {
                    let t = v@.subrange(0, i + 1);
                    assert(t.subrange(0, t.len() - 1) =~= v@.subrange(0, i as int));
                    assert(t[t.len() - 1] == v@[i as int]);
                    if i == 0 {
                        assert(t[0] == v@[0]);
                    }
                    assert(out@ =~= seq!['['] + policies_text(t));
                }
                i = i + 1;
            }
            push_char(&mut out, ']');
            proof {
                assert(v@.subrange(0, n as int) =~= v@);
                assert(out@ =~= policy_text(*p));
            }
            out
        },
    }
}

/// The decimal text of a whole number of milliseconds written as a JSON float, as
/// serde writes an integral `f64` below 10^16: the integer, then `.0`.
pub open spec fn millis_text(e: i64) -> Seq<char> {
    if e < 0 {
        seq!['-'] + decimal_text((-e) as nat) + seq!['.', '0']
    } else {
        decimal_text(e as nat) + seq!['.', '0']
    }
}

fn millis_string(e: i64) -> (s: String)
    ensures
        s@ == millis_text(e),
{
    let mut out = String::new();
    if e < 0 {
        push_char(&mut out, '-');
        let mag: u64 = if e == i64::MIN { 9_223_372_036_854_775_808u64 } else { (-e) as u64 };
        let d = decimal_string(mag);
        out.append(d.as_str());
    } else {
        let d = decimal_string(e as u64);
        out.append(d.as_str());
    }
    push_char(&mut out, '.');
    push_char(&mut out, '0');
    proof { assert(out@ =~= millis_text(e)); }
    out
}

/// The text of a member `,"key":value` of a certificate.
pub open spec fn member_text(key: Seq<char>, value: Seq<char>) -> Seq<char> {
    seq![','] + quoted(key) + seq![':'] + value
}

/// The JSON text of the certificate that is signed: `{"c": ..., "e": ..., "w": ..., "rb": ...,
/// "wb": ...}`, each but `"c"` only when given, members in key order. `c` is the JSON text of
/// the certificants.
pub open spec fn cert_text(c: Seq<char>, expiry: Option<i64>, write: Seq<char>, block: Option<BlockPolicy>) -> Seq<char> {
    seq!['{'] + quoted(seq!['c']) + seq![':'] + c
        + (match expiry { Some(e) => member_text(seq!['e'], millis_text(e)), None => Seq::empty() })
        + member_text(seq!['w'], quoted(write))
        + (match block {
            Some(b) => (match b.read { Some(r) => member_text(seq!['r', 'b'], quoted(r@)), None => Seq::empty() })
                + (match b.write { Some(w) => member_text(seq!['w', 'b'], quoted(w@)), None => Seq::empty() }),
            None => Seq::empty(),
        })
        + seq!['}']
}

/// The JSON text of signed data: `{"m": message, "s": signature}`.
pub open spec fn signed_text(message: Seq<char>, signature: Seq<char>) -> Seq<char> {
    seq!['{'] + quoted(seq!['m']) + seq![':'] + quoted(message) + seq![','] + quoted(seq!['s']) + seq![':']
        + quoted(signature) + seq!['}']
}

fn append_member(out: &mut String, key: &str, value: &str, quote: bool)
    ensures
        final(out)@ == old(out)@ + member_text(key@, if quote { quoted(value@) } else { value@ }),
{
    push_char(out, ',');
    write_quoted(out, key);
    push_char(out, ':');
    if quote {
        write_quoted(out, value);
    } else {
        out.append(value);
    }
    proof {
        assert(final(out)@ =~= old(out)@ + member_text(key@, if quote { quoted(value@) } else { value@ }));
    }
}

/// The JSON text of the certificate to sign.
fn cert_string(certificants: &Certificants, policy: &Policy, opt: &CertifyOptions) -> (cert: String)
    ensures
        cert@ == cert_text(certificants_text(*certificants), opt.expiry, policy_text(*policy), opt.block),
{
    proof {
        reveal_strlit("c");
        reveal_strlit("e");
        reveal_strlit("w");
        reveal_strlit("rb");
        reveal_strlit("wb");
        assert("c"@ =~= seq!['c']);
        assert("e"@ =~= seq!['e']);
        assert("w"@ =~= seq!['w']);
        assert("rb"@ =~= seq!['r', 'b']);
        assert("wb"@ =~= seq!['w', 'b']);
    }
    let certs = certificants_string(certificants);
    let write = policy_string(policy);
    let mut cert = String::new();
    push_char(&mut cert, '{');
    write_quoted(&mut cert, "c");
    push_char(&mut cert, ':');
    cert.append(certs.as_str());
    let ghost head = cert@;
    match opt.expiry {
        Some(e) => {
            let t = millis_string(e);
            append_member(&mut cert, "e", t.as_str(), false);
        },
        None => {},
    }
    let ghost with_e = cert@;
    append_member(&mut cert, "w", write.as_str(), true);
    let ghost with_w = cert@;
    match &opt.block {
        Some(b) => {
            match &b.read {
                Some(rb) => append_member(&mut cert, "rb", rb.as_str(), true),
                None => {},
            }
            match &b.write {
                Some(wb) => append_member(&mut cert, "wb", wb.as_str(), true),
                None => {},
            }
        },
        None => {},
    }
    let ghost with_b = cert@;
    push_char(&mut cert, '}');
    proof {
        assert(head == seq!['{'] + quoted(seq!['c']) + seq![':'] + certificants_text(*certificants));
        assert(with_e == head + (match opt.expiry { Some(e) => member_text(seq!['e'], millis_text(e)), None => Seq::<char>::empty() }));
        assert(with_b == with_w + (match opt.block {
            Some(b) => (match b.read { Some(r) => member_text(seq!['r', 'b'], quoted(r@)), None => Seq::<char>::empty() })
                + (match b.write { Some(w) => member_text(seq!['w', 'b'], quoted(w@)), None => Seq::<char>::empty() }),
            None => Seq::<char>::empty(),
        }));
        assert(cert@ =~= cert_text(certificants_text(*certificants), opt.expiry, write@, opt.block));
    }
    cert
}

/// The JSON text of signed data, after `"SEA"` unless raw.
fn signed_string(raw: bool, message: &str, sig: &str) -> (out: String)
    ensures
        out@ == (if raw { Seq::empty() } else { seq!['S', 'E', 'A'] }) + signed_text(message@, sig@),
{
    proof {
        reveal_strlit("SEA");
        reveal_strlit("m");
        reveal_strlit("s");
        assert("SEA"@ =~= seq!['S', 'E', 'A']);
        assert("m"@ =~= seq!['m']);
        assert("s"@ =~= seq!['s']);
    }
    let mut out = if raw { String::new() } else { "SEA".to_owned() };
    let ghost start = out@;
    push_char(&mut out, '{');
    write_quoted(&mut out, "m");
    push_char(&mut out, ':');
    write_quoted(&mut out, message);
    push_char(&mut out, ',');
    write_quoted(&mut out, "s");
    push_char(&mut out, ':');
    write_quoted(&mut out, sig);
    push_char(&mut out, '}');
    proof {
        assert(out@ =~= start + signed_text(message@, sig@));
        if raw { assert(start =~= Seq::<char>::empty()); }
    }
    out
}

/// Issue a certificate: the authority signs who (`certificants`) may write the paths of
/// `policy`, the expiry and the blocked paths of the options. The certificate is the JSON
/// text of the signed data, after `"SEA"` unless the options ask for it raw.
///
/// A private key that is not base64 of 32 bytes is an invalid key; one that is not a P-256
/// scalar, or with which signing fails, is a crypto error.
pub fn certify(certificants: &Certificants, policy: &Policy, authority: &KeyPair, opt: &CertifyOptions) -> (r: Result<String, SeaError>)
    ensures
        match r {
            Ok(text) => signing_key_ok(*authority) && {
                let cert = cert_text(certificants_text(*certificants), opt.expiry, policy_text(*policy), opt.block);
                let sig = base64_spec(p256_signature(private_key_bytes(*authority)->Some_0, utf8(cert)));
                text@ == (if opt.raw { Seq::empty() } else { seq!['S', 'E', 'A'] }) + signed_text(cert, sig)
            },
            Err(e) => (e is InvalidKey && !private_key_ok(*authority)) || (e is Crypto && private_key_ok(*authority)),
        },
{
    let cert = cert_string(certificants, policy, opt);
    let private = match crate::crypto::base64_decode(authority.priv_key.as_str().as_bytes()) {
        Some(b) => b,
        None => {
            return Err(SeaError::InvalidKey);
        },
    };
    if private.len() != 32 {
        return Err(SeaError::InvalidKey);
    }
    let sig = match p256_sign(private.as_slice(), cert.as_str().as_bytes()) {
        Ok(s) => s,
        Err(e) => {
            return Err(SeaError::Crypto(concat("Invalid private key: ", e.as_str())));
        },
    };
    let sig_text = base64_encode(sig.as_slice());
    Ok(signed_string(opt.raw, cert.as_str(), sig_text.as_str()))
}

} // verus!

verus! {

/// The text of a certificate without its `"SEA"` prefix: after `"SEA{"` the text from the
/// `{` on, after `"SEA"` the rest, and otherwise the text itself.
pub open spec fn spec_strip_sea(cert: Seq<char>) -> Seq<char> {
    if spec_starts_with(cert, seq!['S', 'E', 'A']) {
        cert.subrange(3, cert.len() as int)
    } else {
        cert
    }
}

/// The text of a certificate without its `"SEA"` prefix.
pub fn strip_sea(cert: &str) -> (r: String)
    ensures
        r@ == spec_strip_sea(cert@),
{
    proof { reveal_strlit("SEA"); assert("SEA"@ =~= seq!['S', 'E', 'A']); }
    if starts_with(cert, "SEA") {
        let n = cert.unicode_len();
        cert.substring_char(3, n).to_owned()
    } else {
        cert.to_owned()
    }
}

/// The whole milliseconds that a JSON number's text stands for: an optional `-`, digits,
/// and optionally `.` and more digits (dropped); `None` for any other text, or one out of range.
pub open spec fn spec_millis(t: Seq<char>) -> Option<i64> {
    let neg = t.len() > 0 && t[0] == '-';
    let body = if neg { t.subrange(1, t.len() as int) } else { t };
    let int_part = match crate::parse::find_from(body, seq!['.'], 0) {
        Some(i) => if spec_all_digits(body.subrange(i + 1, body.len() as int)) {
            Some(body.subrange(0, i))
        } else {
            None
        },
        None => Some(body),
    };
    match int_part {
        Some(ip) => match crate::parse::spec_parse_u64(ip) {
            Some(v) => if v <= i64::MAX { Some(if neg { -(v as int) } else { v as int } as i64) } else { None },
            None => None,
        },
        None => None,
    }
}

/// A non-empty text of decimal digits.
pub open spec fn spec_all_digits(s: Seq<char>) -> bool {
    s.len() > 0 && forall|j: int| 0 <= j < s.len() ==> crate::parse::is_digit(#[trigger] s[j])
}

/// Whether a text is a non-empty text of decimal digits.
fn all_digits(s: &str) -> (b: bool)
    ensures
        b == spec_all_digits(s@),
{
    let n = s.unicode_len();
    if n == 0 {
        return false;
    }
    let mut i: usize = 0;
    while i < n
        invariant
            n == s@.len(),
            i <= n,
            forall|j: int| 0 <= j < i ==> crate::parse::is_digit(#[trigger] s@[j]),
        decreases n - i,
    {
        let c = s.get_char(i);
        if !('0' <= c && c <= '9') {
            return false;
        }
        i = i + 1;
    }
    true
}

/// The whole milliseconds a JSON number's text stands for.
pub fn parse_millis(t: &str) -> (r: Option<i64>)
    ensures
        r == spec_millis(t@),
{
    proof { reveal_strlit("."); assert("."@ =~= seq!['.']); }
    let n = t.unicode_len();
    let neg = n > 0 && t.get_char(0) == '-';
    let body = if neg { t.substring_char(1, n) } else { t };
    let bn = body.unicode_len();
    let int_part = match crate::parse::find(body, ".") {
        Some(i) => {
            proof { crate::sea::sign::lemma_find_bounds_pub(body@, seq!['.'], 0); }
            let frac = body.substring_char(i + 1, bn);
            if all_digits(frac) {
                Some(body.substring_char(0, i))
            } else {
                None
            }
        },
        None => Some(body),
    };
    match int_part {
        Some(ip) => match crate::parse::parse_u64(ip) {
            Some(v) => {
                if v <= i64::MAX as u64 {
                    Some(if neg { -(v as i64) } else { v as i64 })
                } else {
                    None
                }
            },
            None => None,
        },
        None => None,
    }
}

/// The texts among a list of values, in order.
pub open spec fn strings_of(v: Seq<Json>) -> Seq<Seq<char>>
    decreases v.len(),
{
    if v.len() == 0 {
        Seq::empty()
    } else {
        match v.last() {
            Json::String(s) => strings_of(v.drop_last()).push(s@),
            _ => strings_of(v.drop_last()),
        }
    }
}

/// A certificate that a verified message names: who holds it (`"c"`), until when (`"e"`),
/// which paths may be read (`"r"`) and written (`"w"`), and which are blocked (`"rb"`, `"wb"`).
/// Missing or malformed certificants are a crypto error; the other members are taken when
/// they are of the right kind.
pub fn certificate_from_json(parsed: &Json) -> (r: Result<Certificate, SeaError>)
    ensures
        match spec_field(*parsed, seq!['c']) {
            None => r matches Err(e) && e is Crypto,
            Some(c) => match c {
                Json::String(s) => r matches Ok(cert) && (if s@ == seq!['*'] {
                    cert.certificants is Wildcard
                } else {
                    cert.certificants matches Certificants::List(l) && l@.len() == 1 && l@[0]@ == s@
                }),
                Json::Array(v) => r matches Ok(cert) && cert.certificants matches Certificants::List(l)
                    && l@.map_values(|x: String| x@) == strings_of(v@),
                _ => r matches Err(e) && e is Crypto,
            },
        },
        r matches Ok(cert) ==> {
            &&& cert.expiry == (match spec_field(*parsed, seq!['e']) {
                Some(Json::Number(t)) => spec_millis(t@),
                _ => None,
            })
            &&& (match spec_field(*parsed, seq!['r']) {
                Some(Json::String(p)) => cert.read_policy matches Some(Policy::String(q)) && q@ == p@,
                _ => cert.read_policy is None,
            })
            &&& (match spec_field(*parsed, seq!['w']) {
                Some(Json::String(p)) => cert.write_policy matches Some(Policy::String(q)) && q@ == p@,
                _ => cert.write_policy is None,
            })
            &&& (match spec_field(*parsed, seq!['r', 'b']) {
                Some(Json::String(p)) => cert.read_block matches Some(q) && q@ == p@,
                _ => cert.read_block is None,
            })
            &&& (match spec_field(*parsed, seq!['w', 'b']) {
                Some(Json::String(p)) => cert.write_block matches Some(q) && q@ == p@,
                _ => cert.write_block is None,
            })
        },
{
    proof {
        reveal_strlit("c");
        reveal_strlit("e");
        reveal_strlit("r");
        reveal_strlit("w");
        reveal_strlit("rb");
        reveal_strlit("wb");
        reveal_strlit("*");
        assert("c"@ =~= seq!['c']);
        assert("e"@ =~= seq!['e']);
        assert("r"@ =~= seq!['r']);
        assert("w"@ =~= seq!['w']);
        assert("rb"@ =~= seq!['r', 'b']);
        assert("wb"@ =~= seq!['w', 'b']);
        assert("*"@ =~= seq!['*']);
    }
    let certificants = match parsed.get("c") {
        None => {
            return Err(SeaError::Crypto("Missing certificants".to_owned()));
        },
        Some(Json::String(s)) => {
            if str_eq(s.as_str(), "*") {
                Certificants::Wildcard
            } else {
                let mut l: Vec<String> = Vec::new();
                l.push(s.clone());
                Certificants::List(l)
            }
        },
        Some(Json::Array(v)) => {
            let mut l: Vec<String> = Vec::new();
            let mut i: usize = 0;
            proof {
                assert(v@.subrange(0, 0) =~= Seq::<Json>::empty());
                assert(l@.map_values(|x: String| x@) =~= Seq::<Seq<char>>::empty());
            }
            while i < v.len()
                invariant
                    i <= v@.len(),
                    l@.map_values(|x: String| x@) == strings_of(v@.subrange(0, i as int)),
                decreases v@.len() - i,
            {
                proof {
                    assert(v@.subrange(0, i + 1).drop_last() =~= v@.subrange(0, i as int));
                    assert(v@.subrange(0, i + 1).last() == v@[i as int]);
                }
                match &v[i] {
                    Json::String(s) => {
                        let ghost before = l@;
                        l.push(s.clone());
                        proof {
                            assert(l@.map_values(|x: String| x@) =~= before.map_values(|x: String| x@).push(s@));
                        }
                    },
                    _ => {},
                }
                i = i + 1;
            }
            proof { assert(v@.subrange(0, v@.len() as int) =~= v@); }
            Certificants::List(l)
        },
        Some(_) => {
            return Err(SeaError::Crypto("Invalid certificants format".to_owned()));
        },
    };
    let expiry = match parsed.get("e") {
        Some(Json::Number(t)) => parse_millis(t.as_str()),
        _ => None,
    };
    let read_policy = match parsed.get("r") {
        Some(Json::String(p)) => Some(Policy::String(p.clone())),
        _ => None,
    };
    let write_policy = match parsed.get("w") {
        Some(Json::String(p)) => Some(Policy::String(p.clone())),
        _ => None,
    };
    let read_block = match parsed.get("rb") {
        Some(Json::String(p)) => Some(p.clone()),
        _ => None,
    };
    let write_block = match parsed.get("wb") {
        Some(Json::String(p)) => Some(p.clone()),
        _ => None,
    };
    Ok(Certificate { certificants, expiry, read_policy, write_policy, read_block, write_block })
}

} // verus!
