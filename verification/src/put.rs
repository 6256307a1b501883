//! Writing through a chain: `put` of a value, an object or a link.
//!
//! A put changes nodes of the core's graph and reports each node it changed,
//! so that listeners can be told and storage can be written by the caller.
use vstd::prelude::*;
use crate::json::{Json, json_text, to_json_string};
use crate::crypto::{sha256, base64_encode, base64_decode, hex_encode, sha256_spec, base64_spec,
    hex_spec};
use crate::strmap::str_eq;
use crate::text::{starts_with, spec_starts_with};
use crate::parse::{find, find_from, parse_u64, spec_parse_u64};
use crate::state::{Node, State, spec_node_soul, STATE_PER_MS};
use crate::strmap::{StrMap, distinct_keys, entries_view};
use crate::valid::{valid, spec_valid, spec_soul_ref, soul_key, soul_ref_json};
use crate::gun_core::{GunCore, next_id};
use crate::chain::{Chain, NodeUpdate, nearest_soul, base_data, base_states, base_meta_rest, soul_written,
    key_written, write_key};
use crate::error::{GunError, GunResult};
use crate::clock::utc_now_millis;

verus! {

/// The content hash of a value: the unpadded base64 text of the SHA-256 digest of
/// its compact JSON text.
pub open spec fn content_hash(data: Json) -> Seq<char> {
    base64_spec(sha256_spec(vstd::utf8::encode_utf8(json_text(data))))
}

/// The SHA-256 digest of the compact JSON text of a value.
pub open spec fn content_digest(data: Json) -> Seq<u8> {
    sha256_spec(vstd::utf8::encode_utf8(json_text(data)))
}

/// A content address matches a value when it is the SHA-256 digest of the value's compact
/// JSON text, in unpadded base64 or in lower-case hexadecimal.
pub open spec fn hash_matches(expected: Seq<char>, data: Json) -> bool {
    content_hash(data) == expected || hex_spec(content_digest(data)) == expected
}

/// The content hash of a value.
pub fn content_hash_text(data: &Json) -> (h: String)
    ensures
        h@ == content_hash(*data),
{
    let text = to_json_string(data);
    let digest = sha256(text.as_str().as_bytes());
    base64_encode(digest.as_slice())
}

/// The message of a refused content address: `"Content hash mismatch: expected "`, the
/// address, `", got "` and the value's content hash.
pub open spec fn hash_mismatch_text(expected: Seq<char>, got: Seq<char>) -> Seq<char> {
    seq!['C', 'o', 'n', 't', 'e', 'n', 't', ' ', 'h', 'a', 's', 'h', ' ', 'm', 'i', 's', 'm', 'a', 't', 'c', 'h', ':',
        ' ', 'e', 'x', 'p', 'e', 'c', 't', 'e', 'd', ' '] + expected + seq![',', ' ', 'g', 'o', 't', ' '] + got
}

/// The message of a put of data that is neither a value, a link nor an object.
pub open spec fn invalid_type_text() -> Seq<char> {
    seq!['I', 'n', 'v', 'a', 'l', 'i', 'd', ' ', 'd', 'a', 't', 'a', ' ', 't', 'y', 'p', 'e']
}

/// The message of a `set` of an item that is neither a link nor an object.
pub open spec fn set_refused_text() -> Seq<char> {
    seq!['s', 'e', 't', '(', ')', ' ', 'o', 'n', 'l', 'y', ' ', 'a', 'c', 'c', 'e', 'p', 't', 's', ' ', 'o', 'b', 'j',
        'e', 'c', 't', 's', '/', 'n', 'o', 'd', 'e', 's']
}

/// Check a content address (the part of a `#` soul after the `#`) against a value.
pub fn content_hash_matches(expected: &str, data: &Json) -> (b: bool)
    ensures
        b == hash_matches(expected@, *data),
{
    let text = to_json_string(data);
    let digest = sha256(text.as_str().as_bytes());
    let hash = base64_encode(digest.as_slice());
    if str_eq(hash.as_str(), expected) {
        return true;
    }
    let decoded = match base64_decode(hash.as_str().as_bytes()) {
        Some(b) => b,
        None => Vec::new(),
    };
    let hex = hex_encode(decoded.as_slice());
    str_eq(hex.as_str(), expected)
}

/// The marker of an expiry in a soul, `"<?"`.
pub open spec fn expiry_marker() -> Seq<char> {
    seq!['<', '?']
}

/// The value of a decimal digit.
pub open spec fn digit_of(c: char) -> int {
    (c as u32) - 48
}

/// The milliseconds that the first three digits of a fraction's digits stand for (missing
/// digits count as 0, later ones are dropped).
pub open spec fn fraction_ms(f: Seq<char>) -> int {
    (if f.len() > 0 { digit_of(f[0]) * 100 } else { 0 })
        + (if f.len() > 1 { digit_of(f[1]) * 10 } else { 0 })
        + (if f.len() > 2 { digit_of(f[2]) } else { 0 })
}

/// A text of decimal digits, possibly empty.
pub open spec fn all_digits_or_empty(f: Seq<char>) -> bool {
    forall|j: int| 0 <= j < f.len() ==> crate::parse::is_digit(#[trigger] f[j])
}

/// The milliseconds that an expiry in seconds stands for: digits, optionally followed by
/// `.` and more digits (`"3600"`, `"1.5"`); the fraction counts to the millisecond. `None`
/// for any other text or one out of range.
pub open spec fn spec_expiry_ms(t: Seq<char>) -> Option<u64> {
    let (int_text, frac) = match find_from(t, seq!['.'], 0) {
        Some(i) => (t.subrange(0, i), t.subrange(i + 1, t.len() as int)),
        None => (t, Seq::<char>::empty()),
    };
    match spec_parse_u64(int_text) {
        Some(v) => if all_digits_or_empty(frac) && v * 1000 + fraction_ms(frac) <= u64::MAX {
            Some((v * 1000 + fraction_ms(frac)) as u64)
        } else {
            None
        },
        None => None,
    }
}

/// A soul, split at its first `"<?"` into the soul proper and an expiry in milliseconds,
/// when what follows the marker is a number of seconds (see `spec_expiry_ms`); the soul as it
/// is otherwise.
pub open spec fn spec_split_expiry(s: Seq<char>) -> (Seq<char>, Option<u64>) {
    match find_from(s, expiry_marker(), 0) {
        Some(i) => match spec_expiry_ms(s.subrange(i + 2, s.len() as int)) {
            Some(e) => (s.subrange(0, i), Some(e)),
            None => (s, None),
        },
        None => (s, None),
    }
}

/// The milliseconds an expiry in seconds stands for (see `spec_expiry_ms`).
pub fn expiry_ms(t: &str) -> (r: Option<u64>)
    ensures
        r == spec_expiry_ms(t@),
{
    proof { reveal_strlit("."); assert("."@ =~= seq!['.']); }
    let n = t.unicode_len();
    let (int_text, frac) = match find(t, ".") {
        Some(i) => {
            proof { lemma_find_in_bounds(t@, seq!['.'], 0); }
            (t.substring_char(0, i), t.substring_char(i + 1, n))
        },
        None => (t, ""),
    };
    proof {
        reveal_strlit("");
        assert(""@ =~= Seq::<char>::empty());
        assert((int_text@, frac@) == (match find_from(t@, seq!['.'], 0) {
            Some(i) => (t@.subrange(0, i), t@.subrange(i + 1, t@.len() as int)),
            None => (t@, Seq::<char>::empty()),
        }));
    }
    let v = match parse_u64(int_text) {
        Some(v) => v,
        None => {
            return None;
        },
    };
    let fl = frac.unicode_len();
    let mut j: usize = 0;
    while j < fl
        invariant
            fl == frac@.len(),
            j <= fl,
            forall|k: int| 0 <= k < j ==> crate::parse::is_digit(#[trigger] frac@[k]),
            spec_parse_u64(int_text@) == Some(v),
            (int_text@, frac@) == (match find_from(t@, seq!['.'], 0) {
                Some(i) => (t@.subrange(0, i), t@.subrange(i + 1, t@.len() as int)),
                None => (t@, Seq::<char>::empty()),
            }),
        decreases fl - j,
    {
        let c = frac.get_char(j);
        if !('0' <= c && c <= '9') {
            proof {
                assert(!crate::parse::is_digit(frac@[j as int]));
                assert(!all_digits_or_empty(frac@));
            }
            return None;
        }
        j = j + 1;
    }
    let mut ms: u64 = 0;
    if fl > 0 {
        let c = frac.get_char(0);
        ms = ms + ((c as u32) - 48) as u64 * 100;
    }
    if fl > 1 {
        let c = frac.get_char(1);
        ms = ms + ((c as u32) - 48) as u64 * 10;
    }
    if fl > 2 {
        let c = frac.get_char(2);
        ms = ms + ((c as u32) - 48) as u64;
    }
    assert(ms == fraction_ms(frac@));
    if v > (u64::MAX - ms) / 1000 {
        assert(v * 1000 + ms > u64::MAX) by (nonlinear_arith)
            requires v > (u64::MAX - ms) / 1000, ms <= 999;
        return None;
    }
    assert(v * 1000 + ms <= u64::MAX) by (nonlinear_arith)
        requires v <= (u64::MAX - ms) / 1000, ms <= 999;
    Some(v * 1000 + ms)
}

/// Split a soul such as `"notes<?3600"` into the soul proper and its expiry in milliseconds.
pub fn split_expiry(s: &str) -> (r: (String, Option<u64>))
    ensures
        (r.0@, r.1) == spec_split_expiry(s@),
{
    proof { reveal_strlit("<?"); assert("<?"@ =~= expiry_marker()); }
    match find(s, "<?") {
        Some(i) => {
            proof { lemma_find_in_bounds(s@, expiry_marker(), 0); }
            let n = s.unicode_len();
            match expiry_ms(s.substring_char(i + 2, n)) {
                Some(e) => (s.substring_char(0, i).to_owned(), Some(e)),
                None => (s.to_owned(), None),
            }
        },
        None => (s.to_owned(), None),
    }
}

proof fn lemma_find_in_bounds(s: Seq<char>, p: Seq<char>, from: int)
    ensures
        find_from(s, p, from) matches Some(i) ==> from <= i && i + p.len() <= s.len(),
    decreases s.len() - from,
{
    if from < 0 || from + p.len() > s.len() {
    } else if s.subrange(from, from + p.len()) == p {
    } else if from >= s.len() {
    } else {
        lemma_find_in_bounds(s, p, from + 1);
    }
}

} // verus!

verus! {

/// The keys of an object that a put records a state for: all but `"_"`.
pub open spec fn stated_keys(m: Map<Seq<char>, Json>) -> Set<Seq<char>> {
    m.dom().remove(seq!['_'])
}

/// The souls that the members of an object link to.
pub open spec fn linked_souls(m: Map<Seq<char>, Json>) -> Set<Seq<char>> {
    Set::new(|s: Seq<char>| exists|k: Seq<char>| m.contains_key(k) && #[trigger] spec_soul_ref(m[k]) == Some(s))
}

/// An empty node that names its soul and holds nothing else.
pub open spec fn is_placeholder(n: Node, soul: Seq<char>) -> bool {
    &&& n.data@ == Map::<Seq<char>, Json>::empty()
    &&& n.states@ == Map::<Seq<char>, u64>::empty()
    &&& n.meta@.dom() == set![soul_key()]
    &&& spec_node_soul(n) == Some(soul)
}

/// `g_new` is `g_old` with a placeholder for each soul of `souls` that `g_old` lacked.
pub open spec fn placeholders_added(g_old: Map<Seq<char>, Node>, g_new: Map<Seq<char>, Node>, souls: Set<Seq<char>>) -> bool {
    &&& g_new.dom() == g_old.dom().union(souls)
    &&& forall|s: Seq<char>| #[trigger] g_old.contains_key(s) ==> g_new[s] == g_old[s]
    &&& forall|s: Seq<char>| #[trigger] souls.contains(s) && !g_old.contains_key(s) ==> is_placeholder(g_new[s], s)
}

/// The node `n` is the node that the graph `g` had under `soul` (or a new one naming
/// the soul) with the members of `m` written over its data and a state recorded for
/// every key of `m` but `"_"`.
pub open spec fn object_written(g: Map<Seq<char>, Node>, n: Node, soul: Seq<char>, m: Map<Seq<char>, Json>) -> bool {
    &&& n.data@ == base_data(g, soul).union_prefer_right(m)
    &&& n.states@.dom() == base_states(g, soul).dom().union(stated_keys(m))
    &&& forall|k: Seq<char>| #[trigger] n.states@.contains_key(k) && !stated_keys(m).contains(k)
        ==> n.states@[k] == base_states(g, soul)[k]
    &&& if m == Map::<Seq<char>, Json>::empty() && g.contains_key(soul) {
        n.meta@ == g[soul].meta@
    } else {
        soul_written(g, n, soul)
    }
}

/// The graph after the object `m` is put under `soul`: placeholders for the souls it
/// links to that were missing, and the node under `soul` written with the object.
pub open spec fn object_put(g0: Map<Seq<char>, Node>, g2: Map<Seq<char>, Node>, soul: Seq<char>, m: Map<Seq<char>, Json>) -> bool {
    &&& g2.dom() == g0.dom().union(linked_souls(m)).insert(soul)
    &&& forall|s: Seq<char>| s != soul && #[trigger] g0.contains_key(s) ==> g2[s] == g0[s]
    &&& forall|s: Seq<char>| s != soul && !g0.contains_key(s) && #[trigger] linked_souls(m).contains(s)
        ==> is_placeholder(g2[s], s)
    &&& object_written(g0, g2[soul], soul, m)
}

/// Some key of `m` already has a state on the node under `soul` that is older than `limit`.
pub open spec fn has_expired_key(g: Map<Seq<char>, Node>, soul: Seq<char>, m: Map<Seq<char>, Json>, limit: int) -> bool {
    g.contains_key(soul) && exists|k: Seq<char>| #[trigger] m.contains_key(k) && g[soul].states@.contains_key(k)
        && g[soul].states@[k] < limit
}

/// The oldest state, in state units, that a put with an expiry of `ms` milliseconds
/// accepts when the clock reads `now` milliseconds.
pub open spec fn expiry_limit(now: i64, ms: u64) -> int {
    (now - ms) * STATE_PER_MS
}

fn expiry_limit_at(now: i64, ms: u64) -> (l: i128)
    ensures
        l == expiry_limit(now, ms),
{
    assert(((now as int) - (ms as int)) * 999 >= -0x1_0000_0000_0000_0000_0000int * 999
        && ((now as int) - (ms as int)) * 999 <= 0x1_0000_0000_0000_0000_0000int * 999) by (nonlinear_arith)
        requires -0x8000_0000_0000_0000int <= now <= 0x7fff_ffff_ffff_ffffint, 0 <= ms <= 0xffff_ffff_ffff_ffffint;
    ((now as i128) - (ms as i128)) * 999
}

/// Whether some key of `m` has a state on the node older than `limit`.
fn find_expired(node: &Node, m: &StrMap<Json>, limit: i128) -> (b: bool)
    ensures
        b == exists|k: Seq<char>| #[trigger] m@.contains_key(k) && node.states@.contains_key(k)
            && node.states@[k] < limit,
{
    proof { use_type_invariant(m); m.lemma_wf(); }
    let n = m.len();
    let mut i: usize = 0;
    while i < n
        invariant
            n == m.entries().len(),
            i <= n,
            crate::strmap::distinct_keys(m.entries()),
            forall|j: int| 0 <= j < i ==> !(#[trigger] node.states@.contains_key(m.entries()[j].0@)
                && node.states@[m.entries()[j].0@] < limit),
        decreases n - i,
    {
        let e = m.entry_at(i);
        match node.states.get(e.0.as_str()) {
            Some(st) => {
                if (*st as i128) < limit {
                    proof { crate::strmap::lemma_entries_view_at(m.entries(), i as int); }
                    return true;
                }
            },
            None => {},
        }
        i = i + 1;
    }
    proof {
        assert forall|k: Seq<char>| #[trigger] m@.contains_key(k) implies !(node.states@.contains_key(k)
            && node.states@[k] < limit) by {
            let j = choose|j: int| 0 <= j < m.entries().len() && #[trigger] m.entries()[j].0@ == k;
        }
    }
    false
}

} // verus!

verus! {

proof fn lemma_linked_souls_insert(m: Map<Seq<char>, Json>, k: Seq<char>, v: Json)
    requires
        !m.contains_key(k),
    ensures
        linked_souls(m.insert(k, v)) =~= (match spec_soul_ref(v) {
            Some(s) => linked_souls(m).insert(s),
            None => linked_souls(m),
        }),
{
    let m2 = m.insert(k, v);
    assert forall|s: Seq<char>| #[trigger] linked_souls(m2).contains(s) implies (match spec_soul_ref(v) {
        Some(t) => linked_souls(m).insert(t),
        None => linked_souls(m),
    }).contains(s) by {
        let k2 = choose|k2: Seq<char>| m2.contains_key(k2) && #[trigger] spec_soul_ref(m2[k2]) == Some(s);
        if k2 != k {
            assert(m.contains_key(k2) && spec_soul_ref(m[k2]) == Some(s));
        }
    }
    assert forall|s: Seq<char>| (match spec_soul_ref(v) {
        Some(t) => linked_souls(m).insert(t),
        None => linked_souls(m),
    }).contains(s) implies #[trigger] linked_souls(m2).contains(s) by {
        if linked_souls(m).contains(s) {
            let k2 = choose|k2: Seq<char>| m.contains_key(k2) && #[trigger] spec_soul_ref(m[k2]) == Some(s);
            assert(m2.contains_key(k2) && spec_soul_ref(m2[k2]) == Some(s));
        } else {
            assert(m2.contains_key(k) && spec_soul_ref(m2[k]) == Some(s));
        }
    }
}

/// The node `n` is `node` with the members of `m` written over its data, a state
/// recorded for every key of `m` but `"_"`, and, when `m` has members, the soul named.
pub open spec fn members_written(node: Node, n: Node, soul: Seq<char>, m: Map<Seq<char>, Json>) -> bool {
    &&& n.data@ == node.data@.union_prefer_right(m)
    &&& n.states@.dom() == node.states@.dom().union(stated_keys(m))
    &&& forall|k: Seq<char>| #[trigger] n.states@.contains_key(k) && !stated_keys(m).contains(k)
        ==> n.states@[k] == node.states@[k]
    &&& if m == Map::<Seq<char>, Json>::empty() {
        n.meta@ == node.meta@
    } else {
        spec_node_soul(n) == Some(soul) && n.meta@.remove(soul_key()) == node.meta@.remove(soul_key())
    }
}

/// Write the members of an object on a node, each with a new state (but `"_"`), in order.
fn fill_node(core: &mut GunCore, node: Node, soul: &str, m: StrMap<Json>) -> (n: Node)
    ensures
        members_written(node, n, soul@, m@),
        final(core).graph == old(core).graph,
        final(core).dup == old(core).dup,
        final(core).id_counter == old(core).id_counter,
{
    let ghost mv = m@;
    let ghost node0 = node;
    let mut node = node;
    let mut es = m.into_entries();
    let ghost es0 = es@;
    let n = es.len();
    let mut i: usize = 0;
    proof {
        reveal_strlit("_");
        assert("_"@ =~= seq!['_']);
        assert(es0.subrange(0, 0) =~= Seq::<(String, Json)>::empty());
        assert(entries_view(es0.subrange(0, 0)) =~= Map::<Seq<char>, Json>::empty());
        assert(node0.data@.union_prefer_right(Map::<Seq<char>, Json>::empty()) =~= node0.data@);
        assert(stated_keys(Map::<Seq<char>, Json>::empty()) =~= Set::<Seq<char>>::empty());
        assert(node0.states@.dom().union(Set::<Seq<char>>::empty()) =~= node0.states@.dom());
    }
    while i < n
        invariant
            n == es0.len(),
            i <= n,
            es@ == es0.subrange(i as int, n as int),
            distinct_keys(es0),
            entries_view(es0) == mv,
            node.data@ == node0.data@.union_prefer_right(entries_view(es0.subrange(0, i as int))),
            node.states@.dom() == node0.states@.dom().union(stated_keys(entries_view(es0.subrange(0, i as int)))),
            forall|k: Seq<char>| #[trigger] node.states@.contains_key(k)
                && !stated_keys(entries_view(es0.subrange(0, i as int))).contains(k)
                ==> node.states@[k] == node0.states@[k],
            i > 0 ==> spec_node_soul(node) == Some(soul@) && node.meta@.remove(soul_key()) == node0.meta@.remove(soul_key()),
            i == 0 ==> node.meta@ == node0.meta@,
            core.graph == old(core).graph,
            core.dup == old(core).dup,
            core.id_counter == old(core).id_counter,
        decreases n - i,
    {
        let ghost pm = entries_view(es0.subrange(0, i as int));
        proof {
            crate::strmap::lemma_entries_view_prefix_step(es0, i as int);
            assert(es@[0] == es0[i as int]);
        }
        let (k, v) = es.remove(0);
        proof {
            assert(es@ =~= es0.subrange(i + 1, n as int));
        }
        let st = core.state.next();
        node.data.insert(k.clone(), v);
        State::ify(&mut node, Some(k.as_str()), Some(st), None, Some(soul));
        proof {
            let pm2 = pm.insert(k@, v);
            assert(node.data@ =~= node0.data@.union_prefer_right(pm2));
            if k@ == seq!['_'] {
                assert(stated_keys(pm2) =~= stated_keys(pm));
            } else {
                assert(stated_keys(pm2) =~= stated_keys(pm).insert(k@));
            }
            assert(node.states@.dom() =~= node0.states@.dom().union(stated_keys(pm2)));
        }
        i = i + 1;
    }
    proof {
        assert(es0.subrange(0, n as int) =~= es0);
        if n == 0 {
            assert(mv =~= Map::<Seq<char>, Json>::empty());
        } else {
            crate::strmap::lemma_entries_view_at(es0, 0);
        }
    }
    node
}

/// Add a placeholder for each soul that a member of `m` links to and the graph lacks.
fn add_placeholders(core: &mut GunCore, m: &StrMap<Json>)
    ensures
        placeholders_added(old(core).graph@, final(core).graph@, linked_souls(m@)),
        final(core).state == old(core).state,
        final(core).dup == old(core).dup,
        final(core).id_counter == old(core).id_counter,
{
    proof { use_type_invariant(m); m.lemma_wf(); }
    let ghost g0 = core.graph@;
    let ghost es0 = m.entries();
    let n = m.len();
    let mut i: usize = 0;
    proof {
        assert(es0.subrange(0, 0) =~= Seq::<(String, Json)>::empty());
        assert(entries_view(es0.subrange(0, 0)) =~= Map::<Seq<char>, Json>::empty());
        assert(linked_souls(Map::<Seq<char>, Json>::empty()) =~= Set::<Seq<char>>::empty());
        assert(core.graph@.dom() =~= g0.dom().union(Set::<Seq<char>>::empty()));
    }
    while i < n
        invariant
            n == es0.len(),
            es0 == m.entries(),
            i <= n,
            distinct_keys(es0),
            entries_view(es0) == m@,
            placeholders_added(g0, core.graph@, linked_souls(entries_view(es0.subrange(0, i as int)))),
            core.state == old(core).state,
            core.dup == old(core).dup,
            core.id_counter == old(core).id_counter,
        decreases n - i,
    {
        let ghost pm = entries_view(es0.subrange(0, i as int));
        proof {
            crate::strmap::lemma_entries_view_prefix_step(es0, i as int);
        }
        let e = m.entry_at(i);
        proof {
            lemma_linked_souls_insert(pm, e.0@, e.1);
        }
        match valid(&e.1) {
            Err(Some(rs)) => {
                if !core.graph.has(rs.as_str()) {
                    let placeholder = Node::with_soul(rs.clone());
                    proof { assert(placeholder.meta@.dom() =~= set![soul_key()]); }
                    let _ = core.graph.put(rs.as_str(), placeholder);
                }
            },
            _ => {},
        }
        proof {
            let pm2 = pm.insert(e.0@, e.1);
            assert(core.graph@.dom() =~= g0.dom().union(linked_souls(pm2)));
        }
        i = i + 1;
    }
    proof {
        assert(es0.subrange(0, n as int) =~= es0);
    }
}

/// Put the members of an object on the node under `soul`: first a placeholder for each
/// soul a member links to that the graph lacks, then the node with every member written
/// and a new state for each key but `"_"`.
fn write_object(core: &mut GunCore, soul: &str, m: StrMap<Json>)
    ensures
        object_put(old(core).graph@, final(core).graph@, soul@, m@),
        final(core).dup == old(core).dup,
        final(core).id_counter == old(core).id_counter,
{
    let ghost g0 = core.graph@;
    let node = crate::chain::take_or_new(core, soul);
    let ghost g1 = core.graph@;
    add_placeholders(core, &m);
    let ghost mv = m@;
    let ghost node0 = node;
    let node = fill_node(core, node, soul, m);
    proof {
        assert(node0.data@ == base_data(g0, soul@));
        assert(node0.states@ == base_states(g0, soul@));
        if g0.contains_key(soul@) {
            assert(node0 == g0[soul@]);
            assert(node0.meta@.remove(soul_key()) == base_meta_rest(g0, soul@));
        }
        assert(object_written(g0, node, soul@, mv));
    }
    let _ = core.graph.put(soul, node);
    proof {
        assert(core.graph@.dom() =~= g0.dom().union(linked_souls(mv)).insert(soul@));
        assert forall|s: Seq<char>| s != soul@ && !g0.contains_key(s) && #[trigger] linked_souls(mv).contains(s)
            implies is_placeholder(core.graph@[s], s) by {
            assert(!g1.contains_key(s));
        }
        assert forall|s: Seq<char>| s != soul@ && #[trigger] g0.contains_key(s) implies core.graph@[s] == g0[s] by {
            assert(g1.contains_key(s));
        }
    }
}

} // verus!

verus! {

/// What a put hands back: the chain to go on with, and the nodes it changed, in the
/// order it changed them.
pub struct PutOutcome {
    pub chain: Chain,
    pub updates: Vec<NodeUpdate>,
}

/// The soul made for a parent chain that has a key but no soul: `"root_"` followed by
/// the unpadded base64 SHA-256 digest of the key.
pub open spec fn derived_soul(key: Seq<char>) -> Seq<char> {
    seq!['r', 'o', 'o', 't', '_'] + base64_spec(sha256_spec(vstd::utf8::encode_utf8(key)))
}

/// The soul for a parent chain that has a key but no soul.
pub fn derive_soul(key: &str) -> (s: String)
    ensures
        s@ == derived_soul(key@),
{
    let digest = sha256(key.as_bytes());
    let hash = base64_encode(digest.as_slice());
    proof { reveal_strlit("root_"); assert("root_"@ =~= seq!['r', 'o', 'o', 't', '_']); }
    crate::text::concat("root_", hash.as_str())
}

/// The soul under which a put of an object links its result in the parent chain `p`:
/// the parent's soul, or the soul derived from its key; `None` when a new soul is made.
pub open spec fn parent_link_soul(p: Chain) -> Option<Seq<char>> {
    match p.soul {
        Some(s) => Some(s@),
        None => match p.key {
            Some(k) => Some(derived_soul(k@)),
            None => None,
        },
    }
}

/// `g3` is `g2` with a link to `soul` written under `key` on the node under `ps`.
pub open spec fn link_written(g2: Map<Seq<char>, Node>, g3: Map<Seq<char>, Node>, ps: Seq<char>, key: Seq<char>, soul: Seq<char>) -> bool {
    exists|v: Json, st: u64| spec_soul_ref(v) == Some(soul) && #[trigger] key_written(g2, g3, ps, key, v, st)
}

/// The node updates `u` are, in order, the souls of `souls` with their flags
/// (whether to notify, whether to persist).
pub open spec fn updates_are(u: Seq<NodeUpdate>, souls: Seq<(Seq<char>, bool, bool)>) -> bool {
    u.len() == souls.len() && forall|i: int| 0 <= i < u.len() ==> (#[trigger] u[i]).soul@ == souls[i].0
        && u[i].notify == souls[i].1 && u[i].persist == souls[i].2
}

/// The soul a put of an object writes under, for the chain's soul `s`: the soul before any expiry.
pub open spec fn object_soul(s: Seq<char>) -> Seq<char> {
    spec_split_expiry(s).0
}

/// What a successful put of the object `m` through the chain `c` did: the graph went
/// from `g0` to `g3` and the outcome `out` came back.
pub open spec fn object_put_done(c: Chain, m: Map<Seq<char>, Json>, g0: Map<Seq<char>, Node>, g3: Map<Seq<char>, Node>, out: PutOutcome) -> bool {
    let soul = out.chain.soul->Some_0@;
    &&& out.chain.soul is Some
    &&& out.chain.key is None
    &&& out.chain.parent == Some(Box::new(c))
    &&& (c.soul matches Some(s) ==> soul == object_soul(s@))
    &&& if c.key is Some && c.parent is Some {
        let p = *c.parent->Some_0;
        let k = c.key->Some_0@;
        let ps = out.updates@[1].soul@;
        &&& updates_are(out.updates@, seq![(soul, true, true), (ps, true, true)])
        &&& (parent_link_soul(p) matches Some(q) ==> ps == q)
        &&& exists|g2: Map<Seq<char>, Node>| #[trigger] object_put(g0, g2, soul, m) && link_written(g2, g3, ps, k, soul)
    } else {
        &&& object_put(g0, g3, soul, m)
        &&& updates_are(out.updates@, seq![(soul, true, true)])
    }
}

/// What a put of the object `m` through the chain `c` returns and does to the core when the
/// clock reads `now` (milliseconds since the Unix epoch).
pub open spec fn object_put_result_at(c: Chain, m: Map<Seq<char>, Json>, c0: GunCore, c1: GunCore,
    r: GunResult<PutOutcome>, now: i64) -> bool {
    &&& c1.dup == c0.dup
    &&& match r {
        Ok(out) => {
            &&& object_put_done(c, m, c0.graph@, c1.graph@, out)
            &&& c1.id_counter == next_id(c0.id_counter)
            &&& match c.soul {
                Some(s) => match spec_split_expiry(s@).1 {
                    Some(ms) => !has_expired_key(c0.graph@, object_soul(s@), m, expiry_limit(now, ms)),
                    None => true,
                },
                None => true,
            }
        },
        Err(e) => {
            &&& e matches GunError::InvalidData(msg) && msg@ == expired_text()
            &&& c1 == c0
            &&& c.soul matches Some(s) && spec_split_expiry(s@).1 matches Some(ms)
                && has_expired_key(c0.graph@, object_soul(s@), m, expiry_limit(now, ms))
        },
    }
}

/// The message of a put refused for expired data.
pub open spec fn expired_text() -> Seq<char> {
    seq!['D', 'a', 't', 'a', ' ', 'e', 'x', 'p', 'i', 'r', 'e', 'd']
}

/// What a put of the object `m` through the chain `c` returns and does to the core, at some
/// reading of the clock.
pub open spec fn object_put_result(c: Chain, m: Map<Seq<char>, Json>, c0: GunCore, c1: GunCore, r: GunResult<PutOutcome>) -> bool {
    exists|now: i64| #[trigger] object_put_result_at(c, m, c0, c1, r, now)
}

impl Chain {
    /// Put an object: each member on the node of this chain (a new soul when the chain has
    /// none), then, for a chain under a key, a link to that node in the parent's node.
    ///
    /// A soul such as `"notes<?3600"` carries an expiry in seconds: the put is refused when
    /// a key of the object already has a state on the node older than that many seconds.
    fn put_object(&self, core: &mut GunCore, m: StrMap<Json>, now: i64) -> (r: GunResult<PutOutcome>)
        ensures
            object_put_result_at(*self, m@, *old(core), *final(core), r, now),
    {
        let (soul, expiry) = match &self.soul {
            Some(s) => split_expiry(s.as_str()),
            None => (core.uuid(None), None),
        };
        let ghost mut seen_now: i64 = 0;
        match expiry {
            Some(ms) => {
                proof { seen_now = now; }
                let limit = expiry_limit_at(now, ms);
                match core.graph.get(soul.as_str()) {
                    Some(node) => {
                        if find_expired(node, &m, limit) {
                            proof {
                                assert(has_expired_key(old(core).graph@, soul@, m@, expiry_limit(now, ms)));
                            }
                            proof { reveal_strlit("Data expired"); assert("Data expired"@ =~= expired_text()); }
                            return Err(GunError::InvalidData("Data expired".to_owned()));
                        }
                    },
                    None => {},
                }
                proof {
                    assert(!has_expired_key(old(core).graph@, soul@, m@, expiry_limit(now, ms)));
                }
            },
            None => {},
        }
        let ghost g0 = core.graph@;
        write_object(core, soul.as_str(), m);
        let ghost g2 = core.graph@;
        let mut updates: Vec<NodeUpdate> = Vec::new();
        updates.push(NodeUpdate { soul: soul.clone(), notify: true, persist: true });
        match &self.key {
            Some(k) => match &self.parent {
                Some(p) => {
                    let ps = match &p.soul {
                        Some(s) => s.clone(),
                        None => match &p.key {
                            Some(pk) => derive_soul(pk.as_str()),
                            None => core.uuid(None),
                        },
                    };
                    let link = soul_ref_json(soul.clone());
                    let ghost lv = link;
                    let st = write_key(core, ps.as_str(), k.as_str(), link);
                    proof {
                        assert(key_written(g2, core.graph@, ps@, k@, lv, st));
                    }
                    updates.push(NodeUpdate { soul: ps, notify: true, persist: true });
                },
                None => {},
            },
            None => {},
        }
        let chain = Chain::with_soul(core, soul, Some(self.duplicate()));
        let out = PutOutcome { chain, updates };
        proof {
            if self.soul is Some && expiry is Some {
                assert(!has_expired_key(old(core).graph@, object_soul(self.soul->Some_0@), m@, expiry_limit(seen_now, expiry->Some_0)));
            }
            if self.key is Some && self.parent is Some {
                let ps = out.updates@[1].soul@;
                assert(object_put(g0, g2, soul@, m@) && link_written(g2, core.graph@, ps, self.key->Some_0@, soul@));
            }

        }
        Ok(out)
    }
}

} // verus!

verus! {

/// A chain whose soul is a content address (`#` and a hash) that the value does not match.
pub open spec fn hash_refused(c: Chain, data: Json) -> bool {
    c.soul matches Some(s) && spec_starts_with(s@, seq!['#']) && !hash_matches(s@.subrange(1, s@.len() as int), data)
}

/// `g1` is `g0` with `value` written under `key` on the node under `soul`, at some state.
pub open spec fn value_written(g0: Map<Seq<char>, Node>, g1: Map<Seq<char>, Node>, soul: Seq<char>, key: Seq<char>, value: Json) -> bool {
    exists|st: u64| #[trigger] key_written(g0, g1, soul, key, value, st)
}

/// A put of a plain value through the chain `c` lands on the node of the nearest chain
/// above that has a soul: the chain has a key, a parent, and such a chain above it.
pub open spec fn lands_on_parent(c: Chain) -> bool {
    c.key is Some && c.parent is Some && nearest_soul(c.parent) is Some
}

/// A put of a plain value through the chain `c` goes down a path: the chain has a key and a
/// parent without a soul, below a chain with a soul through chains that each have a key
/// (`gun.get(soul).get(a).get(x)`).
pub open spec fn lands_through_path(c: Chain) -> bool {
    c.key is Some && (c.parent matches Some(p) && p.soul is None) && anchored(c.parent)
}

/// The value went down a path: each level's node is the one the level above links to under
/// its key, created and linked where missing (see `node_for`), and the value was written under
/// the chain's key on the last node.
pub open spec fn path_value_written(c: Chain, data: Json, c0: GunCore, c1: GunCore, out: PutOutcome) -> bool {
    let ps = out.updates@.last().soul@;
    &&& out.chain == c
    &&& c1.id_counter == c0.id_counter
    &&& out.updates@.len() >= 1
    &&& forall|i: int| 0 <= i < out.updates@.len() ==> (#[trigger] out.updates@[i]).notify && out.updates@[i].persist
    &&& exists|g1: Map<Seq<char>, Node>| #[trigger] value_written(g1, c1.graph@, ps, c.key->Some_0@, data)
        && (path_keys(c.parent).no_duplicates() ==> chain_node(c.parent, g1) == Some(ps))
        && (chain_node(c.parent, c0.graph@) matches Some(x) ==> (ps == x && g1 == c0.graph@ && out.updates@.len() == 1))
}

/// What a put of the plain value `data` through the chain `c` returns and does to the core.
pub open spec fn value_put_done(c: Chain, data: Json, c0: GunCore, c1: GunCore, out: PutOutcome) -> bool {
    if lands_through_path(c) {
        path_value_written(c, data, c0, c1, out)
    } else if lands_on_parent(c) {
        let ps = nearest_soul(c.parent)->Some_0;
        &&& out.chain == c
        &&& updates_are(out.updates@, seq![(ps, true, true)])
        &&& value_written(c0.graph@, c1.graph@, ps, c.key->Some_0@, data)
        &&& c1.id_counter == c0.id_counter
    } else {
        let soul = out.chain.soul->Some_0@;
        &&& out.chain.soul is Some
        &&& out.chain.key is None
        &&& out.chain.parent == Some(Box::new(c))
        &&& (c.soul matches Some(s) ==> soul == s@)
        &&& updates_are(out.updates@, seq![(soul, true, true)])
        &&& match c.key {
            Some(k) => value_written(c0.graph@, c1.graph@, soul, k@, data),
            None => value_written(c0.graph@, c1.graph@, soul, crate::valid::value_key(), data),
        }
        &&& c1.id_counter == next_id(c0.id_counter)
    }
}

/// What a put of a link to the soul `s` through the chain `c` returns and does to the core.
pub open spec fn link_put_done(c: Chain, s: Seq<char>, c0: GunCore, c1: GunCore, out: PutOutcome) -> bool {
    &&& out.chain.soul matches Some(cs) && cs@ == s
    &&& out.chain.key is None
    &&& out.chain.parent == Some(Box::new(c))
    &&& out.updates@.len() == 0
    &&& placeholders_added(c0.graph@, c1.graph@, set![s])
    &&& c1.state == c0.state
    &&& c1.id_counter == next_id(c0.id_counter)
}

/// Make sure the graph has a node under `soul`: a new one naming the soul when it has none.
fn ensure_node(core: &mut GunCore, soul: &str)
    ensures
        placeholders_added(old(core).graph@, final(core).graph@, set![soul@]),
        final(core).state == old(core).state,
        final(core).dup == old(core).dup,
        final(core).id_counter == old(core).id_counter,
{
    if !core.graph.has(soul) {
        let placeholder = Node::with_soul(soul.to_owned());
        proof { assert(placeholder.meta@.dom() =~= set![soul_key()]); }
        let _ = core.graph.put(soul, placeholder);
        proof { assert(core.graph@.dom() =~= old(core).graph@.dom().union(set![soul@])); }
    } else {
        proof { assert(core.graph@.dom() =~= old(core).graph@.dom().union(set![soul@])); }
    }
}

impl Chain {
    /// Put data through this chain.
    ///
    /// A chain whose soul is a content address (`#` and a hash) only takes a value whose
    /// content hash matches. A link `{"#": soul}` makes sure the linked node exists and
    /// hands back a chain for it. A plain value is written under the chain's key on the
    /// node of the nearest chain above that has a soul; without such a chain, on this
    /// chain's node (a new soul when it has none), under the chain's key or, for a chain
    /// with no key, as the node's own value (under `"="`). An object is put member by member
    /// (see the expiry of souls such as `"notes<?3600"`). Arrays are refused.
    pub fn put(&self, core: &mut GunCore, data: Json) -> (r: GunResult<PutOutcome>)
        ensures
            final(core).dup == old(core).dup,
            hash_refused(*self, data) ==> (r matches Err(GunError::InvalidData(m))
                && m@ == hash_mismatch_text(self.soul->Some_0@.subrange(1, self.soul->Some_0@.len() as int), content_hash(data))
                && *final(core) == *old(core)),
            !hash_refused(*self, data) ==> match spec_valid(data) {
                Err(Some(s)) => (r matches Ok(out) && link_put_done(*self, s, *old(core), *final(core), out)),
                Ok(true) => (r matches Ok(out) && value_put_done(*self, data, *old(core), *final(core), out)),
                _ => match data {
                    Json::Object(m) => object_put_result(*self, m@, *old(core), *final(core), r),
                    _ => (r matches Err(GunError::InvalidData(m)) && m@ == invalid_type_text() && *final(core) == *old(core)),
                },
            },
    {
        let now = utc_now_millis();
        self.put_at(core, data, now)
    }

    /// Put data through this chain when the clock reads `now` (milliseconds since the Unix
    /// epoch), as `put` describes.
    ///
    /// A chain whose soul is a content address (`#` and a hash) only takes a value whose
    /// content hash matches. A link `{"#": soul}` makes sure the linked node exists and
    /// hands back a chain for it. A plain value is written under the chain's key on the
    /// node of the nearest chain above that has a soul; without such a chain, on this
    /// chain's node (a new soul when it has none), under the chain's key or, for a chain
    /// with no key, as the node's own value (under `"="`). An object is put member by member
    /// (see the expiry of souls such as `"notes<?3600"`). Arrays are refused.
    pub fn put_at(&self, core: &mut GunCore, data: Json, now: i64) -> (r: GunResult<PutOutcome>)
        ensures
            final(core).dup == old(core).dup,
            hash_refused(*self, data) ==> (r matches Err(GunError::InvalidData(m))
                && m@ == hash_mismatch_text(self.soul->Some_0@.subrange(1, self.soul->Some_0@.len() as int), content_hash(data))
                && *final(core) == *old(core)),
            !hash_refused(*self, data) ==> match spec_valid(data) {
                Err(Some(s)) => (r matches Ok(out) && link_put_done(*self, s, *old(core), *final(core), out)),
                Ok(true) => (r matches Ok(out) && value_put_done(*self, data, *old(core), *final(core), out)),
                _ => match data {
                    Json::Object(m) => object_put_result_at(*self, m@, *old(core), *final(core), r, now),
                    _ => (r matches Err(GunError::InvalidData(m)) && m@ == invalid_type_text() && *final(core) == *old(core)),
                },
            },
    {
        proof { reveal_strlit("#"); assert("#"@ =~= seq!['#']); }
        match &self.soul {
            Some(s) => {
                if starts_with(s.as_str(), "#") {
                    let n = s.as_str().unicode_len();
                    let expected = s.as_str().substring_char(1, n);
                    if !content_hash_matches(expected, &data) {
                        let got = content_hash_text(&data);
                        let a = crate::text::concat("Content hash mismatch: expected ", expected);
                        let b = crate::text::concat(a.as_str(), ", got ");
                        let msg = crate::text::concat(b.as_str(), got.as_str());
                        proof {
                            reveal_strlit("Content hash mismatch: expected ");
                            reveal_strlit(", got ");
                            assert(msg@ =~= hash_mismatch_text(expected@, got@));
                        }
                        return Err(GunError::InvalidData(msg));
                    }
                }
            },
            None => {},
        }
        match valid(&data) {
            Ok(true) => {},
            Err(Some(soul)) => {
                ensure_node(core, soul.as_str());
                let chain = Chain::with_soul(core, soul, Some(self.duplicate()));
                return Ok(PutOutcome { chain, updates: Vec::new() });
            },
            _ => {
                return match data {
                    Json::Object(m) => self.put_object(core, m, now),
                    _ => {
                        proof { reveal_strlit("Invalid data type"); assert("Invalid data type"@ =~= invalid_type_text()); }
                        Err(GunError::InvalidData("Invalid data type".to_owned()))
                    },
                };
            },
        }
        match &self.key {
            Some(k) => {
                match &self.parent {
                    Some(p) => {
                        if p.soul.is_none() && is_anchored(&**p) {
                            proof { assert(Some(Box::new(**p)) == self.parent); }
                            let ghost g0 = core.graph@;
                            let (ps, mut updates) = node_for(core, &**p);
                            let ghost g1 = core.graph@;
                            let st = write_key(core, ps.as_str(), k.as_str(), data);
                            proof { assert(key_written(g1, core.graph@, ps@, k@, data, st)); }
                            updates.push(NodeUpdate { soul: ps, notify: true, persist: true });
                            let out = PutOutcome { chain: self.duplicate(), updates };
                            proof {
                                assert(out.updates@.last().soul@ == ps@);
                                assert(value_written(g1, core.graph@, ps@, k@, data));
                            }
                            return Ok(out);
                        }
                    },
                    None => {},
                }
                if self.parent.is_some() {
                    match self.parent_soul() {
                        Some(ps) => {
                            let ghost g0 = core.graph@;
                            let st = write_key(core, ps.as_str(), k.as_str(), data);
                            proof { assert(key_written(g0, core.graph@, ps@, k@, data, st)); }
                            let mut updates: Vec<NodeUpdate> = Vec::new();
                            updates.push(NodeUpdate { soul: ps, notify: true, persist: true });
                            return Ok(PutOutcome { chain: self.duplicate(), updates });
                        },
                        None => {},
                    }
                }
            },
            None => {},
        }
        let soul = match &self.soul {
            Some(s) => s.clone(),
            None => core.uuid(None),
        };
        let ghost g0 = core.graph@;
        match &self.key {
            Some(k) => {
                let st = write_key(core, soul.as_str(), k.as_str(), data);
                proof { assert(key_written(g0, core.graph@, soul@, k@, data, st)); }
            },
            None => {
                proof { reveal_strlit("="); assert("="@ =~= crate::valid::value_key()); }
                let st = write_key(core, soul.as_str(), "=", data);
                proof { assert(key_written(g0, core.graph@, soul@, crate::valid::value_key(), data, st)); }
            },
        }
        let mut updates: Vec<NodeUpdate> = Vec::new();
        updates.push(NodeUpdate { soul: soul.clone(), notify: true, persist: true });
        let chain = Chain::with_soul(core, soul, Some(self.duplicate()));
        Ok(PutOutcome { chain, updates })
    }
}

} // verus!

verus! {

/// The node `n` is a new node for the object `m` under `soul`: the members, a state for
/// each key but `"_"`, and the soul.
pub open spec fn fresh_object(n: Node, soul: Seq<char>, m: Map<Seq<char>, Json>) -> bool {
    object_written(Map::<Seq<char>, Node>::empty(), n, soul, m)
}

/// The soul that the node under `ps` links to under `k`, if it holds a link there.
pub open spec fn existing_set_soul(g: Map<Seq<char>, Node>, ps: Seq<char>, k: Seq<char>) -> Option<Seq<char>> {
    if g.contains_key(ps) && g[ps].data@.contains_key(k) { spec_soul_ref(g[ps].data@[k]) } else { None }
}

/// Where a set through a chain without a soul is linked from: the key of the chain on the
/// node the parent names (as a put of an object links it).
pub open spec fn set_parent_link(c: Chain) -> Option<(Seq<char>, Seq<char>)> {
    match (c.soul, c.key, c.parent) {
        (None, Some(k), Some(p)) => match parent_link_soul(*p) {
            Some(ps) => Some((ps, k@)),
            None => None,
        },
        _ => None,
    }
}

/// The set's soul is the one the parent's node already links to under the chain's key, when
/// it links to one.
pub open spec fn set_soul_kept(c: Chain, g0: Map<Seq<char>, Node>, set_soul: Seq<char>) -> bool {
    match set_parent_link(c) {
        Some((ps, k)) => match existing_set_soul(g0, ps, k) {
            Some(t) => set_soul == t,
            None => true,
        },
        None => true,
    }
}

/// The item is linked under its soul `item_soul` in the set's node under `set_soul`, the graph
/// going from `g0` to `g1` with the updates `ups`. An object item first becomes a new node
/// under a new soul; a link names its soul.
pub open spec fn item_linked(g0: Map<Seq<char>, Node>, g1: Map<Seq<char>, Node>, item: Json, set_soul: Seq<char>,
    item_soul: Seq<char>, ups: Seq<NodeUpdate>) -> bool {
    match spec_valid(item) {
        Err(Some(rs)) => {
            &&& item_soul == rs
            &&& updates_are(ups, seq![(set_soul, true, true)])
            &&& link_written(g0, g1, set_soul, rs, rs)
        },
        _ => {
            &&& item is Object
            &&& updates_are(ups, seq![(item_soul, false, true), (set_soul, true, true)])
            &&& exists|n: Node| fresh_object(n, item_soul, item->Object_0@)
                && link_written(g0.insert(item_soul, n), g1, set_soul, item_soul, item_soul)
        },
    }
}

/// What a successful `set` of an item through the chain `c` did: the item is linked under
/// its own soul in the node of the set (the chain's soul; for a chain without one, the soul
/// its parent's node links to under its key, or a new one that the parent's node is then
/// linked to). The outcome's chain is the set's chain with the item's soul as key.
pub open spec fn set_done(c: Chain, item: Json, c0: GunCore, c1: GunCore, out: PutOutcome) -> bool {
    let set_chain = *out.chain.parent->Some_0;
    let set_soul = set_chain.soul->Some_0@;
    let item_soul = out.chain.key->Some_0@;
    &&& out.chain.soul is None && out.chain.key is Some && out.chain.parent is Some
    &&& set_chain.soul is Some && set_chain.key is None && set_chain.parent == Some(Box::new(c))
    &&& (c.soul matches Some(s) ==> set_soul == s@)
    &&& set_soul_kept(c, c0.graph@, set_soul)
    &&& c1.id_counter == next_id(next_id(c0.id_counter))
    &&& match set_parent_link(c) {
        Some((ps, k)) => {
            &&& out.updates@.len() >= 1
            &&& out.updates@.last().soul@ == ps && out.updates@.last().notify && out.updates@.last().persist
            &&& exists|g: Map<Seq<char>, Node>| #[trigger] item_linked(c0.graph@, g, item, set_soul, item_soul,
                out.updates@.drop_last()) && link_written(g, c1.graph@, ps, k, set_soul)
        },
        None => item_linked(c0.graph@, c1.graph@, item, set_soul, item_soul, out.updates@),
    }
}

/// The soul the node under `ps` links to under `k`, if any.
fn linked_soul(core: &GunCore, ps: &str, k: &str) -> (r: Option<String>)
    ensures
        match r {
            Some(t) => existing_set_soul(core.graph@, ps@, k@) == Some(t@),
            None => existing_set_soul(core.graph@, ps@, k@) is None,
        },
{
    match core.graph.get(ps) {
        Some(n) => match n.data.get(k) {
            Some(v) => match valid(v) {
                Err(Some(t)) => Some(t),
                _ => None,
            },
            None => None,
        },
        None => None,
    }
}

impl Chain {
    /// Add an item to the set this chain names, and hand back the set's chain with the
    /// item's soul as key.
    ///
    /// The set is the node of the chain's soul; for a chain without one, the node its parent's
    /// node links to under the chain's key, or a new node that the parent's node is then
    /// linked to. A link `{"#": soul}` is added as it is; an object first becomes a node under
    /// a new soul. The set's node then links the item under the item's soul. Anything else is
    /// refused.
    pub fn set(&self, core: &mut GunCore, item: Json) -> (r: GunResult<PutOutcome>)
        ensures
            final(core).dup == old(core).dup,
            (spec_valid(item) is Err && spec_valid(item)->Err_0 is Some) || item is Object
                ==> (r matches Ok(out) && set_done(*self, item, *old(core), *final(core), out)),
            !((spec_valid(item) is Err && spec_valid(item)->Err_0 is Some) || item is Object)
                ==> (r matches Err(GunError::InvalidData(m)) && m@ == set_refused_text() && *final(core) == *old(core)),
    {
        let ghost item0 = item;
        let ghost g0 = core.graph@;
        let parent_link: Option<(String, String)> = match &self.soul {
            Some(_) => None,
            None => match &self.key {
                Some(k) => match &self.parent {
                    Some(p) => match &p.soul {
                        Some(ps) => Some((ps.clone(), k.clone())),
                        None => match &p.key {
                            Some(pk) => Some((derive_soul(pk.as_str()), k.clone())),
                            None => None,
                        },
                    },
                    None => None,
                },
                None => None,
            },
        };
        proof {
            assert(match parent_link { Some((ps, k)) => set_parent_link(*self) == Some((ps@, k@)), None => set_parent_link(*self) is None });
        }
        let existing: Option<String> = match &parent_link {
            Some((ps, k)) => linked_soul(core, ps.as_str(), k.as_str()),
            None => None,
        };
        let mut updates: Vec<NodeUpdate> = Vec::new();
        let ghost mut g_mid = core.graph@;
        let ghost mut item_node: Node = vstd::pervasive::arbitrary();
        let item_soul = match valid(&item) {
            Err(Some(rs)) => rs,
            _ => match item {
                Json::Object(m) => {
                    let new_soul = core.uuid(None);
                    let fresh = Node::with_soul(new_soul.clone());
                    proof {
                        assert(fresh.data@ == base_data(Map::<Seq<char>, Node>::empty(), new_soul@));
                        assert(fresh.states@ == base_states(Map::<Seq<char>, Node>::empty(), new_soul@));
                        assert(fresh.meta@.remove(soul_key()) =~= Map::<Seq<char>, Json>::empty());
                    }
                    let node = fill_node(core, fresh, new_soul.as_str(), m);
                    proof {
                        item_node = node;
                        assert(fresh_object(node, new_soul@, item0->Object_0@));
                    }
                    let _ = core.graph.put(new_soul.as_str(), node);
                    proof { g_mid = core.graph@; }
                    updates.push(NodeUpdate { soul: new_soul.clone(), notify: false, persist: true });
                    new_soul
                },
                _ => {
                    proof {
                        reveal_strlit("set() only accepts objects/nodes");
                        assert("set() only accepts objects/nodes"@ =~= set_refused_text());
                    }
                    return Err(GunError::InvalidData("set() only accepts objects/nodes".to_owned()));
                },
            },
        };
        let set_soul = match &self.soul {
            Some(s) => s.clone(),
            None => match existing {
                Some(t) => t,
                None => core.uuid(None),
            },
        };
        let link = soul_ref_json(item_soul.clone());
        let ghost lv = link;
        let st = write_key(core, set_soul.as_str(), item_soul.as_str(), link);
        proof {
            assert(key_written(g_mid, core.graph@, set_soul@, item_soul@, lv, st));
        }
        updates.push(NodeUpdate { soul: set_soul.clone(), notify: true, persist: true });
        let ghost g_set = core.graph@;
        let ghost ups_set = updates@;
        proof {
            match spec_valid(item0) {
                Err(Some(rs)) => {},
                _ => {
                    assert(fresh_object(item_node, item_soul@, item0->Object_0@)
                        && link_written(g0.insert(item_soul@, item_node), g_set, set_soul@, item_soul@, item_soul@));
                },
            }
            assert(item_linked(g0, g_set, item0, set_soul@, item_soul@, ups_set));
        }
        match parent_link {
            Some((ps, k)) => {
                let plink = soul_ref_json(set_soul.clone());
                let ghost pv = plink;
                let pst = write_key(core, ps.as_str(), k.as_str(), plink);
                proof {
                    assert(key_written(g_set, core.graph@, ps@, k@, pv, pst));
                }
                updates.push(NodeUpdate { soul: ps, notify: true, persist: true });
                proof { assert(updates@.drop_last() =~= ups_set); }
            },
            None => {},
        }
        let ghost ss = set_soul@;
        let ghost is = item_soul@;
        let ghost g_end = core.graph@;
        let set_chain = Chain::with_soul(core, set_soul, Some(self.duplicate()));
        let chain = Chain::with_key(core, item_soul, set_chain);
        let out = PutOutcome { chain, updates };
        proof {
            assert(core.graph@ == g_end);
            assert(set_soul_kept(*self, g0, ss));
            match set_parent_link(*self) {
                Some((ps, k)) => {
                    assert(item_linked(g0, g_set, item0, ss, is, out.updates@.drop_last()));
                    assert(link_written(g_set, g_end, ps, k, ss));
                    assert(out.updates@.len() >= 1);
                    assert(out.updates@.last().soul@ == ps);
                },
                None => {
                    assert(out.updates@ == ups_set);
                    assert(item_linked(g0, g_end, item0, ss, is, out.updates@));
                },
            }
            assert(out.chain.key->Some_0@ == is);
            assert((*out.chain.parent->Some_0).soul->Some_0@ == ss);
            assert(core.id_counter == next_id(next_id(old(core).id_counter)));
            assert(self.soul matches Some(x) ==> ss == x@);
        }
        Ok(out)
    }
}

} // verus!

verus! {

/// After an object is put through a chain (under a key the object does not use), the node
/// the put wrote holds every member of the object.
pub proof fn lemma_object_put_holds_members(c: Chain, m: Map<Seq<char>, Json>, g0: Map<Seq<char>, Node>,
    g1: Map<Seq<char>, Node>, out: PutOutcome)
    requires
        object_put_done(c, m, g0, g1, out),
        c.key matches Some(k) ==> !m.contains_key(k@),
    ensures
        g1.contains_key(out.chain.soul->Some_0@),
        forall|k: Seq<char>| #[trigger] m.contains_key(k) ==> g1[out.chain.soul->Some_0@].data@.contains_key(k)
            && g1[out.chain.soul->Some_0@].data@[k] == m[k],
{
    let soul = out.chain.soul->Some_0@;
    if c.key is Some && c.parent is Some {
        let k = c.key->Some_0@;
        let ps = out.updates@[1].soul@;
        let g2 = choose|g2: Map<Seq<char>, Node>| #[trigger] object_put(g0, g2, soul, m) && link_written(g2, g1, ps, k, soul);
        let (v, st) = choose|v: Json, st: u64| spec_soul_ref(v) == Some(soul) && #[trigger] key_written(g2, g1, ps, k, v, st);
        assert(g2.contains_key(soul));
        if soul != ps {
            assert(g1[soul] == g2[soul]);
        } else {
            assert(g1[soul].data@ == g2[soul].data@.insert(k, v));
        }
    }
}

} // verus!

verus! {

/// Whether some chain at or above `c` has a soul, reached through chains that each have a key.
fn is_anchored(c: &Chain) -> (b: bool)
    ensures
        b == anchored(Some(Box::new(*c))),
    decreases c,
{
    match &c.soul {
        Some(_) => true,
        None => match &c.key {
            Some(_) => match &c.parent {
                Some(p) => {
                    proof { assert(Some(Box::new(**p)) == c.parent); }
                    is_anchored(&**p)
                },
                None => {
                    proof { assert(!anchored(None::<Box<Chain>>)); }
                    false
                },
            },
            None => false,
        },
    }
}

/// The node that a chain names in the graph `g`: its soul; for a chain under a key of a
/// parent, the node that the parent's node links to under the key; `None` where a link is
/// missing or the chain has neither.
pub open spec fn chain_node(c: Option<Box<Chain>>, g: Map<Seq<char>, Node>) -> Option<Seq<char>>
    decreases c,
{
    match c {
        None => None,
        Some(b) => match b.soul {
            Some(s) => Some(s@),
            None => match b.key {
                Some(k) => match chain_node(b.parent, g) {
                    Some(ps) => existing_set_soul(g, ps, k@),
                    None => None,
                },
                None => None,
            },
        },
    }
}

/// Some chain at or above `c` has a soul, reached through chains that each have a key.
pub open spec fn anchored(c: Option<Box<Chain>>) -> bool
    decreases c,
{
    match c {
        None => false,
        Some(b) => match b.soul {
            Some(_) => true,
            None => b.key is Some && anchored(b.parent),
        },
    }
}

/// The keys of the chains from the one with a soul down to `c`, in that order.
pub open spec fn path_keys(c: Option<Box<Chain>>) -> Seq<Seq<char>>
    decreases c,
{
    match c {
        None => Seq::empty(),
        Some(b) => match b.soul {
            Some(_) => Seq::empty(),
            None => match b.key {
                Some(k) => path_keys(b.parent).push(k@),
                None => Seq::empty(),
            },
        },
    }
}

/// Writing a key that no chain on the path uses leaves the node the path names as it was.
pub proof fn lemma_chain_node_kept(c: Option<Box<Chain>>, g1: Map<Seq<char>, Node>, g2: Map<Seq<char>, Node>,
    s: Seq<char>, key: Seq<char>, v: Json, st: u64)
    requires
        chain_node(c, g1) is Some,
        key_written(g1, g2, s, key, v, st),
        !path_keys(c).contains(key),
    ensures
        chain_node(c, g2) == chain_node(c, g1),
    decreases c,
{
    match c {
        None => {},
        Some(b) => match b.soul {
            Some(_) => {},
            None => match b.key {
                Some(k) => {
                    assert(path_keys(c) == path_keys(b.parent).push(k@));
                    assert(!path_keys(b.parent).contains(key)) by {
                        if path_keys(b.parent).contains(key) {
                            let i = choose|i: int| 0 <= i < path_keys(b.parent).len() && path_keys(b.parent)[i] == key;
                            assert(path_keys(c)[i] == key);
                        }
                    }
                    assert(k@ != key) by {
                        assert(path_keys(c)[path_keys(c).len() - 1] == k@);
                    }
                    lemma_chain_node_kept(b.parent, g1, g2, s, key, v, st);
                },
                None => {},
            },
        },
    }
}

/// The node for an anchored chain, with the links it lacks written: each level's node is the
/// one its parent's node links to under its key, or a new soul that the parent's node is then
/// linked to. Hands back the node's soul and the nodes that gained a link, in order. Where the
/// path's keys are distinct, the chain names that node afterwards; where it named a node
/// already, nothing is written.
fn node_for(core: &mut GunCore, c: &Chain) -> (r: (String, Vec<NodeUpdate>))
    requires
        anchored(Some(Box::new(*c))),
    ensures
        path_keys(Some(Box::new(*c))).no_duplicates() ==> chain_node(Some(Box::new(*c)), final(core).graph@) == Some(r.0@),
        chain_node(Some(Box::new(*c)), old(core).graph@) matches Some(x) ==> (r.0@ == x && final(core).graph == old(core).graph
            && r.1@.len() == 0),
        forall|i: int| 0 <= i < r.1@.len() ==> (#[trigger] r.1@[i]).notify && r.1@[i].persist,
        final(core).dup == old(core).dup,
        final(core).id_counter == old(core).id_counter,
    decreases c,
{
    match &c.soul {
        Some(s) => (s.clone(), Vec::new()),
        None => {
            let k = match &c.key {
                Some(k) => k,
                None => {
                    proof { assert(false); }
                    return (String::new(), Vec::new());
                },
            };
            let p = match &c.parent {
                Some(p) => p,
                None => {
                    proof {
                        assert(anchored(c.parent));
                        assert(!anchored(None::<Box<Chain>>));
                        assert(false);
                    }
                    return (String::new(), Vec::new());
                },
            };
            proof {
                assert(Some(Box::new(**p)) == c.parent);
                assert(path_keys(Some(Box::new(*c))) == path_keys(c.parent).push(k@));
            }
            let ghost g0 = core.graph@;
            let (qs, mut ups) = node_for(core, &**p);
            let ghost gm = core.graph@;
            proof {
                if path_keys(Some(Box::new(*c))).no_duplicates() {
                    let pk = path_keys(Some(Box::new(*c)));
                    assert forall|i: int, j: int| 0 <= i < path_keys(c.parent).len() && 0 <= j < path_keys(c.parent).len()
                        && i != j implies path_keys(c.parent)[i] != path_keys(c.parent)[j] by {
                        assert(pk[i] == path_keys(c.parent)[i]);
                        assert(pk[j] == path_keys(c.parent)[j]);
                    }
                }
            }
            match linked_soul(core, qs.as_str(), k.as_str()) {
                Some(t) => (t, ups),
                None => {
                    let t = core.uuid(None);
                    let ghost g1 = core.graph@;
                    let link = soul_ref_json(t.clone());
                    let ghost lv = link;
                    let st = write_key(core, qs.as_str(), k.as_str(), link);
                    proof {
                        if path_keys(Some(Box::new(*c))).no_duplicates() {
                            let pk = path_keys(Some(Box::new(*c)));
                            assert(!path_keys(c.parent).contains(k@)) by {
                                if path_keys(c.parent).contains(k@) {
                                    let i = choose|i: int| 0 <= i < path_keys(c.parent).len() && path_keys(c.parent)[i] == k@;
                                    assert(pk[i] == k@);
                                    assert(pk[pk.len() - 1] == k@);
                                }
                            }
                            lemma_chain_node_kept(c.parent, g1, core.graph@, qs@, k@, lv, st);
                            assert(existing_set_soul(core.graph@, qs@, k@) == Some(t@));
                        }
                    }
                    ups.push(NodeUpdate { soul: qs, notify: true, persist: true });
                    (t, ups)
                },
            }
        },
    }
}

} // verus!
