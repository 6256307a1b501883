//! Certificate-based access control: an authority grants certificants the right
//! to read or write the paths that a policy matches.
use vstd::prelude::*;
use crate::strmap::{StrMap, str_eq};
use crate::text::{starts_with, contains, concat, spec_starts_with, spec_contains};
use crate::clock::utc_now_millis;

verus! {

/// Who holds the rights a certificate grants: anyone, or the listed public keys.
pub enum Certificants {
    /// Anyone.
    Wildcard,
    /// The listed public keys.
    List(Vec<String>),
}

/// Which paths a certificate covers.
#[derive(Debug)]
pub enum Policy {
    /// A path and everything below it (`"inbox"` covers `"inbox"` and `"inbox/..."`).
    String(String),
    /// LEX patterns: `"*"` with a prefix covers the paths that start with it, `"="` with a
    /// path covers that path, and any other pattern covers the paths that start with it.
    Radix(RadixPolicy),
    /// Every path that one of the policies covers.
    Array(Vec<Policy>),
}

/// LEX patterns: each an operator or prefix with its value.
#[derive(Debug)]
pub struct RadixPolicy {
    pub patterns: StrMap<String>,
}

/// A certificate: who holds the rights, until when (milliseconds since the Unix
/// epoch), which paths may be read and written, and which paths are blocked.
pub struct Certificate {
    pub certificants: Certificants,
    pub expiry: Option<i64>,
    pub read_policy: Option<Policy>,
    pub write_policy: Option<Policy>,
    pub read_block: Option<String>,
    pub write_block: Option<String>,
}

/// Options for creating a certificate.
pub struct CertifyOptions {
    /// Expiry, in milliseconds since the Unix epoch.
    pub expiry: Option<i64>,
    /// Paths that stay blocked.
    pub block: Option<BlockPolicy>,
    /// Return the signed certificate without the `"SEA"` prefix.
    pub raw: bool,
}

/// Paths that stay blocked for reading and for writing.
pub struct BlockPolicy {
    pub read: Option<String>,
    pub write: Option<String>,
}

impl Default for CertifyOptions {
    fn default() -> (o: CertifyOptions)
        ensures
            o.expiry is None,
            o.block is None,
            !o.raw,
    {
        CertifyOptions { expiry: None, block: None, raw: false }
    }
}

/// A path is covered by a path policy: it is the path or lies below it.
pub open spec fn spec_string_matches(path: Seq<char>, s: Seq<char>) -> bool {
    path == s || spec_starts_with(path, s + seq!['/'])
}

/// A path is covered by one LEX pattern: `"*"` when the path starts with the value, `"="`
/// when it is the value, any other pattern when the path starts with the pattern.
pub open spec fn spec_pattern_matches(path: Seq<char>, k: Seq<char>, v: Seq<char>) -> bool {
    if k == seq!['*'] {
        spec_starts_with(path, v)
    } else if k == seq!['='] {
        path == v
    } else {
        spec_starts_with(path, k)
    }
}

/// A path is covered by LEX patterns: one of them covers it.
pub open spec fn spec_radix_matches(path: Seq<char>, patterns: Map<Seq<char>, String>) -> bool {
    exists|k: Seq<char>| #[trigger] patterns.contains_key(k) && spec_pattern_matches(path, k, patterns[k]@)
}

/// A path is covered by a policy.
pub open spec fn spec_matches_policy(path: Seq<char>, policy: Policy) -> bool
    decreases policy, 0nat,
{
    match policy {
        Policy::String(s) => spec_string_matches(path, s@),
        Policy::Radix(r) => spec_radix_matches(path, r.patterns@),
        Policy::Array(ps) => spec_any_matches(path, ps@),
    }
}

/// A path is covered by one of the policies.
pub open spec fn spec_any_matches(path: Seq<char>, ps: Seq<Policy>) -> bool
    decreases ps, 1nat,
{
    if ps.len() == 0 {
        false
    } else {
        spec_any_matches(path, ps.subrange(0, ps.len() - 1)) || spec_matches_policy(path, ps[ps.len() - 1])
    }
}

/// Whether a path is covered by a policy.
pub fn matches_policy(path: &str, policy: &Policy) -> (b: bool)
    ensures
        b == spec_matches_policy(path@, *policy),
    decreases policy,
{
    match policy {
        Policy::String(s) => {
            let with_slash = concat(s.as_str(), "/");
            proof { reveal_strlit("/"); assert("/"@ =~= seq!['/']); }
            str_eq(path, s.as_str()) || starts_with(path, with_slash.as_str())
        },
        Policy::Radix(r) => {
            proof { reveal_strlit("*"); reveal_strlit("="); assert("*"@ =~= seq!['*']); assert("="@ =~= seq!['=']); }
            let n = r.patterns.len();
            let mut i: usize = 0;
            proof { use_type_invariant(&r.patterns); r.patterns.lemma_wf(); }
            while i < n
                invariant
                    *policy == Policy::Radix(*r),
                    n == r.patterns.entries().len(),
                    i <= n,
                    "*"@ == seq!['*'],
                    "="@ == seq!['='],
                    forall|j: int| 0 <= j < i ==> {
                        let e = #[trigger] r.patterns.entries()[j];
                        !spec_pattern_matches(path@, e.0@, e.1@)
                    },
                decreases n - i,
            {
                let e = r.patterns.entry_at(i);
                let hit = if str_eq(e.0.as_str(), "*") {
                    starts_with(path, e.1.as_str())
                } else if str_eq(e.0.as_str(), "=") {
                    str_eq(path, e.1.as_str())
                } else {
                    starts_with(path, e.0.as_str())
                };
                if hit {
                    proof {
                        assert(r.patterns@.contains_key(e.0@) && r.patterns@[e.0@] == e.1);
                        assert(r.patterns@.contains_key(e.0@) && spec_pattern_matches(path@, e.0@, r.patterns@[e.0@]@));
                    }
                    return true;
                }
                i = i + 1;
            }
            proof {
                assert forall|k: Seq<char>| #[trigger] r.patterns@.contains_key(k)
                    implies !spec_pattern_matches(path@, k, r.patterns@[k]@) by {
                    let j = choose|j: int| 0 <= j < r.patterns.entries().len() && #[trigger] r.patterns.entries()[j].0@ == k;
                    assert(r.patterns@[k] == r.patterns.entries()[j].1);
                }
            }
            false
        },
        Policy::Array(policies) => {
            let n = policies.len();
            let mut i: usize = 0;
            while i < n
                invariant
                    *policy == Policy::Array(*policies),
                    n == policies@.len(),
                    i <= n,
                    !spec_any_matches(path@, policies@.subrange(0, i as int)),
                decreases n - i,
            {
                proof {
                    assert(policies@.subrange(0, i + 1).subrange(0, i as int) =~= policies@.subrange(0, i as int));
                    assert(decreases_to!(*policy => (*policy)->Array_0@[i as int]));
                }
                if matches_policy(path, &policies[i]) {
                    proof {
                        assert(spec_any_matches(path@, policies@.subrange(0, i + 1)));
                        lemma_any_matches_prefix(path@, policies@, i + 1);
                        assert(spec_matches_policy(path@, *policy));
                    }
                    return true;
                }
                i = i + 1;
            }
            proof {
                assert(policies@.subrange(0, n as int) =~= policies@);
            }
            false
        },
    }
}

proof fn lemma_any_matches_prefix(path: Seq<char>, ps: Seq<Policy>, i: int)
    requires
        0 <= i <= ps.len(),
        spec_any_matches(path, ps.subrange(0, i)),
    ensures
        spec_any_matches(path, ps),
    decreases ps.len() - i,
{
    if i < ps.len() {
        assert(ps.subrange(0, i + 1).subrange(0, i) =~= ps.subrange(0, i));
        lemma_any_matches_prefix(path, ps, i + 1);
    } else {
        assert(ps.subrange(0, i) =~= ps);
    }
}

} // verus!

verus! {

/// A certificate grants `operation` (`"read"` or `"write"`) on `path` at time `now`:
/// it has not expired, the path is not blocked for the operation, and the policy for
/// the operation covers the path. Any other operation is refused.
pub open spec fn spec_check_permission(cert: Certificate, path: Seq<char>, operation: Seq<char>, now: i64) -> bool {
    if cert.expiry is Some && now > cert.expiry->Some_0 {
        false
    } else if operation == seq!['r', 'e', 'a', 'd'] {
        !(cert.read_block is Some && spec_contains(path, cert.read_block->Some_0@))
            && cert.read_policy is Some && spec_matches_policy(path, cert.read_policy->Some_0)
    } else if operation == seq!['w', 'r', 'i', 't', 'e'] {
        !(cert.write_block is Some && spec_contains(path, cert.write_block->Some_0@))
            && cert.write_policy is Some && spec_matches_policy(path, cert.write_policy->Some_0)
    } else {
        false
    }
}

/// Whether a certificate grants `operation` (`"read"` or `"write"`) on `path` at time
/// `now` (milliseconds since the Unix epoch).
pub fn check_permission_at(cert: &Certificate, path: &str, operation: &str, now: i64) -> (b: bool)
    ensures
        b == spec_check_permission(*cert, path@, operation@, now),
{
    proof {
        reveal_strlit("read");
        reveal_strlit("write");
        assert("read"@ =~= seq!['r', 'e', 'a', 'd']);
        assert("write"@ =~= seq!['w', 'r', 'i', 't', 'e']);
    }
    match cert.expiry {
        Some(expiry) => {
            if now > expiry {
                return false;
            }
        },
        None => {},
    }
    let is_read = str_eq(operation, "read");
    let is_write = str_eq(operation, "write");
    if is_read {
        match &cert.read_block {
            Some(block) => {
                if contains(path, block.as_str()) {
                    return false;
                }
            },
            None => {},
        }
    } else if is_write {
        match &cert.write_block {
            Some(block) => {
                if contains(path, block.as_str()) {
                    return false;
                }
            },
            None => {},
        }
    }
    if is_read {
        match &cert.read_policy {
            Some(policy) => {
                return matches_policy(path, policy);
            },
            None => {},
        }
    } else if is_write {
        match &cert.write_policy {
            Some(policy) => {
                return matches_policy(path, policy);
            },
            None => {},
        }
    }
    false
}

/// Whether a certificate grants `operation` (`"read"` or `"write"`) on `path` now,
/// reading the system clock.
pub fn check_permission(cert: &Certificate, path: &str, operation: &str) -> (b: bool)
    ensures
        exists|now: i64| b == #[trigger] spec_check_permission(*cert, path@, operation@, now),
{
    let now = utc_now_millis();
    check_permission_at(cert, path, operation, now)
}

} // verus!
