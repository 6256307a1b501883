//! The library's JSON values.
//!
//! Numbers are kept as their decimal text, exactly as it was read or written;
//! objects keep their members in a `StrMap`, and their compact text lists the members
//! ordered by key, as a map sorted by its keys writes them.
use vstd::prelude::*;
use crate::strmap::{StrMap, str_eq};
use crate::text::push_char;
use crate::graph::{text_ge, text_at_least};

verus! {

/// A JSON value.
#[derive(Debug, PartialEq)]
pub enum Json {
    Null,
    Bool(bool),
    /// A number, held as its decimal text.
    Number(String),
    String(String),
    Array(Vec<Json>),
    Object(StrMap<Json>),
}

/// The member of an object stored under a key (`None` for a non-object or a missing key).
pub open spec fn spec_field(j: Json, key: Seq<char>) -> Option<Json> {
    match j {
        Json::Object(m) => if m@.contains_key(key) { Some(m@[key]) } else { None },
        _ => None,
    }
}

/// The characters of a JSON string (`None` for any other value).
pub open spec fn spec_str(j: Json) -> Option<Seq<char>> {
    match j {
        Json::String(s) => Some(s@),
        _ => None,
    }
}

impl Json {
    /// Whether this value is an object.
    pub fn is_object(&self) -> (b: bool)
        ensures
            b == (self is Object),
    {
        match self {
            Json::Object(_) => true,
            _ => false,
        }
    }

    /// The member stored under `key` if this value is an object.
    pub fn get(&self, key: &str) -> (r: Option<&Json>)
        ensures
            match r {
                Some(v) => spec_field(*self, key@) == Some(*v),
                None => spec_field(*self, key@) is None,
            },
    {
        match self {
            Json::Object(m) => m.get(key),
            _ => None,
        }
    }

    /// The string if this value is a string.
    pub fn as_str(&self) -> (r: Option<&str>)
        ensures
            match r {
                Some(s) => spec_str(*self) == Some(s@),
                None => spec_str(*self) is None,
            },
    {
        match self {
            Json::String(s) => Some(s.as_str()),
            _ => None,
        }
    }
}

} // verus!

verus! {

/// A digit of lower-case hexadecimal, for a number below 16.
pub open spec fn lower_hex_digit(n: int) -> char {
    if n < 10 { (48 + n) as char } else { (87 + n) as char }
}

/// How a character is written inside a JSON string: quote and backslash are escaped
/// with a backslash, the control characters below space as `\b`, `\t`, `\n`, `\f`,
/// `\r` or `\u00xx`, and every other character as itself.
pub open spec fn escape_char(c: char) -> Seq<char> {
    if c == '"' {
        seq!['\\', '"']
    } else if c == '\\' {
        seq!['\\', '\\']
    } else if c == '\x08' {
        seq!['\\', 'b']
    } else if c == '\x0c' {
        seq!['\\', 'f']
    } else if c == '\n' {
        seq!['\\', 'n']
    } else if c == '\r' {
        seq!['\\', 'r']
    } else if c == '\t' {
        seq!['\\', 't']
    } else if (c as u32) < 0x20 {
        seq!['\\', 'u', '0', '0', lower_hex_digit((c as u32) as int / 16), lower_hex_digit((c as u32) as int % 16)]
    } else {
        seq![c]
    }
}

/// The characters of a text, escaped for a JSON string.
pub open spec fn escape_text(s: Seq<char>) -> Seq<char>
    decreases s.len(),
{
    if s.len() == 0 {
        Seq::empty()
    } else {
        escape_text(s.drop_last()) + escape_char(s.last())
    }
}

/// A text written as a JSON string, in double quotes.
pub open spec fn quoted(s: Seq<char>) -> Seq<char> {
    seq!['"'] + escape_text(s) + seq!['"']
}

/// The position in `rem` of the index whose entry of `s` has the key that comes first in the
/// order of texts by character codes (the earliest such position among equal keys).
pub open spec fn first_key_pos(s: Seq<(String, Json)>, rem: Seq<usize>) -> int
    decreases rem.len(),
{
    if rem.len() <= 1 {
        0
    } else {
        let m = first_key_pos(s, rem.drop_last());
        if !text_ge(s[rem.last() as int].0@, s[rem[m] as int].0@) {
            rem.len() - 1
        } else {
            m
        }
    }
}

/// The indices of `rem` ordered by the keys of their entries in `s`, first key first: the
/// order in which a map sorted by its keys (as serde_json's is) holds them.
pub open spec fn key_order(s: Seq<(String, Json)>, rem: Seq<usize>) -> Seq<usize>
    decreases rem.len(),
{
    let p = first_key_pos(s, rem);
    if rem.len() == 0 || p < 0 || p >= rem.len() {
        Seq::empty()
    } else {
        seq![rem[p]] + key_order(s, rem.remove(p))
    }
}

/// The indices `0 .. n`.
pub open spec fn all_indices(n: nat) -> Seq<usize> {
    Seq::new(n, |i: int| i as usize)
}

/// The compact JSON text of a value: no spaces, object members ordered by their keys.
pub closed spec fn json_text(j: Json) -> Seq<char>
    decreases j, 0nat, 0nat,
{
    match j {
        Json::Null => seq!['n', 'u', 'l', 'l'],
        Json::Bool(b) => if b { seq!['t', 'r', 'u', 'e'] } else { seq!['f', 'a', 'l', 's', 'e'] },
        Json::Number(t) => t@,
        Json::String(s) => quoted(s@),
        Json::Array(v) => seq!['['] + items_text(v@) + seq![']'],
        Json::Object(m) => seq!['{'] + members_text(m.entries@, key_order(m.entries@, all_indices(m.entries@.len()))) + seq!['}'],
    }
}

/// The JSON texts of values, separated by commas.
pub closed spec fn items_text(s: Seq<Json>) -> Seq<char>
    decreases s, 1nat, 0nat,
{
    if s.len() == 0 {
        Seq::empty()
    } else if s.len() == 1 {
        json_text(s[0])
    } else {
        items_text(s.subrange(0, s.len() - 1)) + seq![','] + json_text(s[s.len() - 1])
    }
}

/// The JSON texts of the members of `s` at the indices `o`, in that order, `"key":value`,
/// separated by commas.
pub closed spec fn members_text(s: Seq<(String, Json)>, o: Seq<usize>) -> Seq<char>
    decreases s, 1nat, o.len(),
{
    if o.len() == 0 {
        Seq::empty()
    } else {
        let i = o.last() as int;
        let t = if 0 <= i < s.len() { quoted(s[i].0@) + seq![':'] + json_text(s[i].1) } else { Seq::empty() };
        if o.len() == 1 {
            t
        } else {
            members_text(s, o.drop_last()) + seq![','] + t
        }
    }
}

fn hex_char(n: u32) -> (c: char)
    requires
        n < 16,
    ensures
        c == lower_hex_digit(n as int),
{
    if n < 10 {
        ((48 + n) as u8) as char
    } else {
        ((87 + n) as u8) as char
    }
}

fn write_escaped_char(out: &mut String, c: char)
    ensures
        final(out)@ == old(out)@ + escape_char(c),
{
    if c == '"' {
        push_char(out, '\\');
        push_char(out, '"');
    } else if c == '\\' {
        push_char(out, '\\');
        push_char(out, '\\');
    } else if c == '\x08' {
        push_char(out, '\\');
        push_char(out, 'b');
    } else if c == '\x0c' {
        push_char(out, '\\');
        push_char(out, 'f');
    } else if c == '\n' {
        push_char(out, '\\');
        push_char(out, 'n');
    } else if c == '\r' {
        push_char(out, '\\');
        push_char(out, 'r');
    } else if c == '\t' {
        push_char(out, '\\');
        push_char(out, 't');
    } else if (c as u32) < 0x20 {
        let code = c as u32;
        push_char(out, '\\');
        push_char(out, 'u');
        push_char(out, '0');
        push_char(out, '0');
        push_char(out, hex_char(code / 16));
        push_char(out, hex_char(code % 16));
    } else {
        push_char(out, c);
    }
    assert(out@ =~= old(out)@ + escape_char(c));
}

/// Append a text to `out` as a JSON string, in double quotes.
pub fn write_quoted(out: &mut String, s: &str)
    ensures
        final(out)@ == old(out)@ + quoted(s@),
{
    push_char(out, '"');
    let n = s.unicode_len();
    let mut i: usize = 0;
    while i < n
        invariant
            n == s@.len(),
            i <= n,
            out@ == old(out)@ + seq!['"'] + escape_text(s@.subrange(0, i as int)),
        decreases n - i,
    {
        let c = s.get_char(i);
        write_escaped_char(out, c);
        proof {
            assert(s@.subrange(0, i + 1).drop_last() =~= s@.subrange(0, i as int));
            assert(s@.subrange(0, i + 1).last() == c);
            assert(out@ =~= old(out)@ + seq!['"'] + escape_text(s@.subrange(0, i + 1)));
        }
        i = i + 1;
    }
    push_char(out, '"');
    proof {
        assert(s@.subrange(0, n as int) =~= s@);
        assert(out@ =~= old(out)@ + quoted(s@));
    }
}

/// The indices `0 .. n`.
fn indices(n: usize) -> (v: Vec<usize>)
    ensures
        v@ == all_indices(n as nat),
{
    let mut v: Vec<usize> = Vec::new();
    let mut i: usize = 0;
    while i < n
        invariant
            i <= n,
            v@ == all_indices(i as nat),
        decreases n - i,
    {
        v.push(i);
        i = i + 1;
        proof { assert(v@ =~= all_indices(i as nat)); }
    }
    v
}

/// The position in `rem` of the index whose entry has the first key.
fn first_key_position(es: &Vec<(String, Json)>, rem: &Vec<usize>) -> (p: usize)
    requires
        rem.len() > 0,
        forall|k: int| 0 <= k < rem.len() ==> rem[k] < es.len(),
    ensures
        p == first_key_pos(es@, rem@),
        p < rem.len(),
{
    let mut m: usize = 0;
    let mut k: usize = 1;
    while k < rem.len()
        invariant
            1 <= k <= rem.len(),
            m < k,
            m == first_key_pos(es@, rem@.subrange(0, k as int)),
            forall|q: int| 0 <= q < rem.len() ==> rem[q] < es.len(),
        decreases rem.len() - k,
    {
        proof {
            let t = rem@.subrange(0, k + 1);
            assert(t.drop_last() =~= rem@.subrange(0, k as int));
            assert(t.last() == rem@[k as int]);
            assert(t[m as int] == rem@[m as int]);
        }
        if !text_at_least(es[rem[k]].0.as_str(), es[rem[m]].0.as_str()) {
            m = k;
        }
        k = k + 1;
    }
    proof { assert(rem@.subrange(0, rem.len() as int) =~= rem@); }
    m
}

/// Append the members of `es` at the indices `rem`, ordered by their keys: `"key":value`,
/// separated by commas.
fn write_members(out: &mut String, es: &Vec<(String, Json)>, rem: Vec<usize>)
    requires
        forall|k: int| 0 <= k < rem.len() ==> rem[k] < es.len(),
    ensures
        final(out)@ == old(out)@ + members_text(es@, key_order(es@, rem@)),
    decreases es@, 1nat,
{
    let mut rem = rem;
    let ghost full = key_order(es@, rem@);
    let ghost mut done: Seq<usize> = Seq::empty();
    let mut first = true;
    while rem.len() > 0
        invariant
            forall|k: int| 0 <= k < rem.len() ==> rem[k] < es.len(),
            full == done + key_order(es@, rem@),
            out@ == old(out)@ + members_text(es@, done),
            first == (done.len() == 0),
        decreases rem.len(),
    {
        let p = first_key_position(es, &rem);
        let ghost r0 = rem@;
        let idx = rem.remove(p);
        proof {
            assert(key_order(es@, r0) == seq![r0[p as int]] + key_order(es@, r0.remove(p as int)));
            assert(done + key_order(es@, r0) =~= done.push(idx) + key_order(es@, rem@));
            assert forall|k: int| 0 <= k < rem.len() implies rem[k] < es.len() by {
                if k < p { assert(rem@[k] == r0[k]); } else { assert(rem@[k] == r0[k + 1]); }
            }
            assert(decreases_to!(es@ => es@[idx as int].1));
        }
        if !first {
            push_char(out, ',');
        }
        let e = &es[idx];
        write_quoted(out, e.0.as_str());
        push_char(out, ':');
        write_json(out, &e.1);
        proof {
            let d2 = done.push(idx);
            assert(d2.drop_last() =~= done);
            assert(d2.last() == idx);
            assert(out@ =~= old(out)@ + members_text(es@, d2));
            done = d2;
        }
        first = false;
    }
    proof { assert(full =~= done); }
}

/// Append the compact JSON text of a value to `out`.
pub fn write_json(out: &mut String, j: &Json)
    ensures
        final(out)@ == old(out)@ + json_text(*j),
    decreases j, 0nat,
{
    match j {
        Json::Null => {
            out.append("null");
            proof { reveal_strlit("null"); assert(out@ =~= old(out)@ + json_text(*j)); }
        },
        Json::Bool(b) => {
            if *b {
                out.append("true");
                proof { reveal_strlit("true"); assert(out@ =~= old(out)@ + json_text(*j)); }
            } else {
                out.append("false");
                proof { reveal_strlit("false"); assert(out@ =~= old(out)@ + json_text(*j)); }
            }
        },
        Json::Number(t) => {
            out.append(t.as_str());
        },
        Json::String(s) => {
            write_quoted(out, s.as_str());
        },
        Json::Array(v) => {
            push_char(out, '[');
            let n = v.len();
            let mut i: usize = 0;
            proof {
                assert(v@.subrange(0, 0) =~= Seq::<Json>::empty());
            }
            while i < n
                invariant
                    *j == Json::Array(*v),
                    n == v@.len(),
                    i <= n,
                    out@ == old(out)@ + seq!['['] + items_text(v@.subrange(0, i as int)),
                decreases n - i,
            {
                proof {
                    assert(decreases_to!(*j => (*j)->Array_0@[i as int]));
                }
                let ghost before = out@;
                if i > 0 {
                    push_char(out, ',');
                }
                write_json(out, &v[i]);
                proof {
                    let t = v@.subrange(0, i + 1);
                    assert(t.subrange(0, t.len() - 1) =~= v@.subrange(0, i as int));
                    assert(t[t.len() - 1] == v@[i as int]);
                    if i == 0 {
                        assert(t.len() == 1 && t[0] == v@[0]);
                    }
                    assert(out@ =~= old(out)@ + seq!['['] + items_text(v@.subrange(0, i + 1)));
                }
                i = i + 1;
            }
            push_char(out, ']');
            proof {
                assert(v@.subrange(0, n as int) =~= v@);
                assert(out@ =~= old(out)@ + json_text(*j));
            }
        },
        Json::Object(m) => {
            push_char(out, '{');
            let n = m.entries.len();
            proof { assert(decreases_to!(*j => (*j)->Object_0.entries@)); }
            write_members(out, &m.entries, indices(n));
            push_char(out, '}');
            proof {
                assert(out@ =~= old(out)@ + json_text(*j));
            }
        },
    }
}

/// The compact JSON text of a value.
pub fn to_json_string(j: &Json) -> (s: String)
    ensures
        s@ == json_text(*j),
{
    let mut out = String::new();
    write_json(&mut out, j);
    assert(out@ =~= json_text(*j));
    out
}

} // verus!

verus! {

/// The indices of the entries of `s` whose keys are neither `key` nor `key2`, in order.
pub open spec fn kept_indices(s: Seq<(String, Json)>, key: Seq<char>, key2: Seq<char>) -> Seq<usize>
    decreases s.len(),
{
    if s.len() == 0 {
        Seq::empty()
    } else {
        let r = kept_indices(s.drop_last(), key, key2);
        if s.last().0@ == key || s.last().0@ == key2 { r } else { r.push((s.len() - 1) as usize) }
    }
}

/// The compact JSON text of an object without its members under `key` and `key2`.
pub closed spec fn object_text_without(m: StrMap<Json>, key: Seq<char>, key2: Seq<char>) -> Seq<char> {
    seq!['{'] + members_text(m.entries@, key_order(m.entries@, kept_indices(m.entries@, key, key2))) + seq!['}']
}

/// The kept indices are indices of `s`.
proof fn lemma_kept_indices_bound(s: Seq<(String, Json)>, key: Seq<char>, key2: Seq<char>)
    requires
        s.len() <= usize::MAX,
    ensures
        forall|k: int| 0 <= k < kept_indices(s, key, key2).len() ==> (#[trigger] kept_indices(s, key, key2)[k]) < s.len(),
    decreases s.len(),
{
    if s.len() > 0 {
        let r = kept_indices(s.drop_last(), key, key2);
        lemma_kept_indices_bound(s.drop_last(), key, key2);
        let t = kept_indices(s, key, key2);
        assert forall|k: int| 0 <= k < t.len() implies (#[trigger] t[k]) < s.len() by {
            if k < r.len() {
                assert(t[k] == r[k]);
            }
        }
    }
}

/// Adding a member under `key` or `key2` at the end of an object leaves its text without
/// those members as it was.
pub proof fn lemma_text_without_push(m: StrMap<Json>, m2: StrMap<Json>, e: (String, Json), key: Seq<char>, key2: Seq<char>)
    requires
        m2.entries() == m.entries().push(e),
        e.0@ == key || e.0@ == key2,
    ensures
        object_text_without(m2, key, key2) == object_text_without(m, key, key2),
{
    m.lemma_entries_field();
    m2.lemma_entries_field();
    let s = m.entries@;
    let s2 = m2.entries@;
    assert(s2.drop_last() =~= s);
    let r = kept_indices(s, key, key2);
    assert(kept_indices(s2, key, key2) == r);
    assert(s.len() == m.entries.len());
    lemma_kept_indices_bound(s, key, key2);
    assert forall|k: int| 0 <= k < r.len() implies ((#[trigger] r[k]) as int) < s.len() && (r[k] as int) < s2.len()
        && s[r[k] as int] == s2[r[k] as int] by {
        assert(r[k] < s.len());
    }
    lemma_key_order_agree(s, s2, r);
    lemma_key_order_within(s, r);
    let o = key_order(s, r);
    assert forall|k: int| 0 <= k < o.len() implies ((#[trigger] o[k]) as int) < s.len() && (o[k] as int) < s2.len()
        && s[o[k] as int].0@ == s2[o[k] as int].0@
        && json_text(s[o[k] as int].1) == json_text(s2[o[k] as int].1) by {
        let q = choose|q: int| 0 <= q < r.len() && r[q] == o[k];
        assert(r[q] < s.len());
    }
    lemma_members_text_agree(s, s2, o);
}

/// Objects with the same entries have the same text without given members.
pub proof fn lemma_text_without_same(m: StrMap<Json>, m2: StrMap<Json>, key: Seq<char>, key2: Seq<char>)
    requires
        m2.entries() == m.entries(),
    ensures
        object_text_without(m2, key, key2) == object_text_without(m, key, key2),
{
    m.lemma_entries_field();
    m2.lemma_entries_field();
}

/// The compact JSON text of an object without its members under `key` and `key2`.
pub fn object_string_without(m: &StrMap<Json>, key: &str, key2: &str) -> (s: String)
    ensures
        s@ == object_text_without(*m, key@, key2@),
{
    let n = m.entries.len();
    let mut rem: Vec<usize> = Vec::new();
    let mut i: usize = 0;
    proof {
        assert(m.entries@.subrange(0, 0) =~= Seq::<(String, Json)>::empty());
    }
    while i < n
        invariant
            n == m.entries@.len(),
            i <= n,
            rem@ == kept_indices(m.entries@.subrange(0, i as int), key@, key2@),
            forall|k: int| 0 <= k < rem.len() ==> rem[k] < i,
        decreases n - i,
    {
        proof {
            let t = m.entries@.subrange(0, i + 1);
            assert(t.drop_last() =~= m.entries@.subrange(0, i as int));
            assert(t.last() == m.entries@[i as int]);
        }
        let e = &m.entries[i];
        if !str_eq(e.0.as_str(), key) && !str_eq(e.0.as_str(), key2) {
            rem.push(i);
        }
        i = i + 1;
    }
    proof {
        assert(m.entries@.subrange(0, n as int) =~= m.entries@);
    }
    let mut out = String::new();
    push_char(&mut out, '{');
    write_members(&mut out, &m.entries, rem);
    push_char(&mut out, '}');
    proof {
        assert(out@ =~= object_text_without(*m, key@, key2@));
    }
    out
}

/// The first position is a position of `rem`.
proof fn lemma_first_key_pos_range(s: Seq<(String, Json)>, rem: Seq<usize>)
    requires
        rem.len() > 0,
    ensures
        0 <= first_key_pos(s, rem) < rem.len(),
    decreases rem.len(),
{
    if rem.len() > 1 {
        lemma_first_key_pos_range(s, rem.drop_last());
    }
}

/// Every index that the key order lists is one of `rem`.
proof fn lemma_key_order_within(s: Seq<(String, Json)>, rem: Seq<usize>)
    ensures
        forall|k: int| 0 <= k < key_order(s, rem).len()
            ==> exists|q: int| 0 <= q < rem.len() && rem[q] == #[trigger] key_order(s, rem)[k],
    decreases rem.len(),
{
    if rem.len() > 0 {
        lemma_first_key_pos_range(s, rem);
        let p = first_key_pos(s, rem);
        let rest = rem.remove(p);
        lemma_key_order_within(s, rest);
        let o = key_order(s, rem);
        assert(o == seq![rem[p]] + key_order(s, rest));
        assert forall|k: int| 0 <= k < o.len() implies exists|q: int| 0 <= q < rem.len() && rem[q] == #[trigger] o[k] by {
            if k == 0 {
                assert(rem[p] == o[0]);
            } else {
                assert(o[k] == key_order(s, rest)[k - 1]);
                let q = choose|q: int| 0 <= q < rest.len() && rest[q] == key_order(s, rest)[k - 1];
                if q < p { assert(rem[q] == rest[q]); } else { assert(rem[q + 1] == rest[q]); }
            }
        }
    }
}

/// The first position depends on the keys at the indices of `rem` alone.
proof fn lemma_first_key_pos_agree(s: Seq<(String, Json)>, s2: Seq<(String, Json)>, rem: Seq<usize>)
    requires
        forall|k: int| 0 <= k < rem.len() ==> ((#[trigger] rem[k]) as int) < s.len() && (rem[k] as int) < s2.len()
            && s[rem[k] as int].0@ == s2[rem[k] as int].0@,
    ensures
        first_key_pos(s, rem) == first_key_pos(s2, rem),
    decreases rem.len(),
{
    if rem.len() > 1 {
        let d = rem.drop_last();
        assert forall|k: int| 0 <= k < d.len() implies ((#[trigger] d[k]) as int) < s.len() && (d[k] as int) < s2.len()
            && s[d[k] as int].0@ == s2[d[k] as int].0@ by {
            assert(d[k] == rem[k]);
        }
        lemma_first_key_pos_agree(s, s2, d);
        lemma_first_key_pos_range(s, d);
        let m = first_key_pos(s, d);
        assert(rem[m] == d[m]);
        assert(s[rem[m] as int].0@ == s2[rem[m] as int].0@);
        assert(s[rem.last() as int].0@ == s2[rem.last() as int].0@);
    }
}

/// The key order depends on the keys at the indices of `rem` alone.
proof fn lemma_key_order_agree(s: Seq<(String, Json)>, s2: Seq<(String, Json)>, rem: Seq<usize>)
    requires
        forall|k: int| 0 <= k < rem.len() ==> ((#[trigger] rem[k]) as int) < s.len() && (rem[k] as int) < s2.len()
            && s[rem[k] as int].0@ == s2[rem[k] as int].0@,
    ensures
        key_order(s, rem) == key_order(s2, rem),
    decreases rem.len(),
{
    if rem.len() > 0 {
        lemma_first_key_pos_agree(s, s2, rem);
        lemma_first_key_pos_range(s, rem);
        let p = first_key_pos(s, rem);
        let rest = rem.remove(p);
        assert forall|k: int| 0 <= k < rest.len() implies ((#[trigger] rest[k]) as int) < s.len() && (rest[k] as int) < s2.len()
            && s[rest[k] as int].0@ == s2[rest[k] as int].0@ by {
            if k < p { assert(rest[k] == rem[k]); } else { assert(rest[k] == rem[k + 1]); }
        }
        lemma_key_order_agree(s, s2, rest);
    }
}

/// Members with the same keys and the same value texts at the indices `o` have the same text.
proof fn lemma_members_text_agree(s: Seq<(String, Json)>, s2: Seq<(String, Json)>, o: Seq<usize>)
    requires
        forall|k: int| 0 <= k < o.len() ==> ((#[trigger] o[k]) as int) < s.len() && (o[k] as int) < s2.len()
            && s[o[k] as int].0@ == s2[o[k] as int].0@
            && json_text(s[o[k] as int].1) == json_text(s2[o[k] as int].1),
    ensures
        members_text(s, o) == members_text(s2, o),
    decreases o.len(),
{
    if o.len() > 0 {
        let d = o.drop_last();
        assert forall|k: int| 0 <= k < d.len() implies ((#[trigger] d[k]) as int) < s.len() && (d[k] as int) < s2.len()
            && s[d[k] as int].0@ == s2[d[k] as int].0@
            && json_text(s[d[k] as int].1) == json_text(s2[d[k] as int].1) by {
            assert(d[k] == o[k]);
        }
        lemma_members_text_agree(s, s2, d);
        assert(s[o.last() as int].0@ == s2[o.last() as int].0@);
    }
}

} // verus!

verus! {

impl Json {
    /// A copy of the value, with the same JSON text.
    pub fn copy(&self) -> (r: Json)
        ensures
            json_text(r) == json_text(*self),
            self is Object <==> r is Object,
        decreases self,
    {
        match self {
            Json::Null => Json::Null,
            Json::Bool(b) => Json::Bool(*b),
            Json::Number(t) => Json::Number(t.clone()),
            Json::String(s) => Json::String(s.clone()),
            Json::Array(v) => {
                let n = v.len();
                let mut out: Vec<Json> = Vec::new();
                let mut i: usize = 0;
                proof {
                    assert(v@.subrange(0, 0) =~= Seq::<Json>::empty());
                    assert(out@ =~= Seq::<Json>::empty());
                }
                while i < n
                    invariant
                        *self == Json::Array(*v),
                        n == v@.len(),
                        i <= n,
                        out@.len() == i,
                        items_text(out@) == items_text(v@.subrange(0, i as int)),
                    decreases n - i,
                {
                    proof { assert(decreases_to!(*self => (*self)->Array_0@[i as int])); }
                    let c = v[i].copy();
                    let ghost before = out@;
                    out.push(c);
                    proof {
                        let t = v@.subrange(0, i + 1);
                        assert(t.subrange(0, t.len() - 1) =~= v@.subrange(0, i as int));
                        assert(out@.subrange(0, out@.len() - 1) =~= before);
                        assert(t[t.len() - 1] == v@[i as int]);
                        if i == 0 {
                            assert(t.len() == 1);
                        }
                    }
                    i = i + 1;
                }
                proof { assert(v@.subrange(0, n as int) =~= v@); }
                Json::Array(out)
            },
            Json::Object(m) => {
                let n = m.entries.len();
                let mut out: Vec<(String, Json)> = Vec::new();
                let mut i: usize = 0;
                proof {
                    assert(m.entries@.subrange(0, 0) =~= Seq::<(String, Json)>::empty());
                    assert(out@ =~= Seq::<(String, Json)>::empty());
                }
                while i < n
                    invariant
                        *self == Json::Object(*m),
                        n == m.entries@.len(),
                        i <= n,
                        out@.len() == i,
                        forall|j: int| 0 <= j < i ==> (#[trigger] out@[j]).0@ == m.entries@[j].0@
                            && json_text(out@[j].1) == json_text(m.entries@[j].1),
                    decreases n - i,
                {
                    proof { assert(decreases_to!(*self => (*self)->Object_0.entries@[i as int].1)); }
                    let e = &m.entries[i];
                    let c = e.1.copy();
                    let ghost before = out@;
                    out.push((e.0.clone(), c));
                    i = i + 1;
                }
                proof {
                    let es = m.entries@;
                    let all = all_indices(n as nat);
                    assert forall|k: int| 0 <= k < all.len() implies ((#[trigger] all[k]) as int) < es.len() && (all[k] as int) < out@.len()
                        && es[all[k] as int].0@ == out@[all[k] as int].0@ by {
                        assert(out@[all[k] as int].0@ == es[all[k] as int].0@);
                    }
                    lemma_key_order_agree(es, out@, all);
                    lemma_key_order_within(es, all);
                    let o = key_order(es, all);
                    assert forall|k: int| 0 <= k < o.len() implies ((#[trigger] o[k]) as int) < es.len() && (o[k] as int) < out@.len()
                        && es[o[k] as int].0@ == out@[o[k] as int].0@
                        && json_text(es[o[k] as int].1) == json_text(out@[o[k] as int].1) by {
                        let q = choose|q: int| 0 <= q < all.len() && all[q] == o[k];
                        assert(out@[o[k] as int].0@ == es[o[k] as int].0@);
                    }
                    lemma_members_text_agree(es, out@, o);
                    use_type_invariant(m);
                    m.lemma_wf();
                    m.lemma_entries_field();
                    assert forall|a: int, b: int| 0 <= a < out@.len() && 0 <= b < out@.len() && a != b
                        implies #[trigger] out@[a].0@ != #[trigger] out@[b].0@ by {
                        assert(out@[a].0@ == m.entries@[a].0@);
                        assert(out@[b].0@ == m.entries@[b].0@);
                    }
                }
                let ghost eo = out@;
                let r = Json::Object(StrMap::from_entries(out));
                proof {
                    assert(r->Object_0.entries@ == eo) by { r->Object_0.lemma_entries_field(); }
                }
                r
            },
        }
    }
}

} // verus!

verus! {

/// Two values are the same JSON value: same kind and same contents, objects compared as
/// maps (whatever the order of their members).
pub closed spec fn json_same(a: Json, b: Json) -> bool
    decreases a, 0nat,
{
    match a {
        Json::Null => b is Null,
        Json::Bool(x) => b matches Json::Bool(y) && x == y,
        Json::Number(x) => b matches Json::Number(y) && x@ == y@,
        Json::String(x) => b matches Json::String(y) && x@ == y@,
        Json::Array(x) => match b {
            Json::Array(y) => items_same(x@, y@),
            _ => false,
        },
        Json::Object(x) => match b {
            Json::Object(y) => x@.dom() == y@.dom() && members_same(x.entries@, y),
            _ => false,
        },
    }
}

/// Two lists of values are the same item by item.
pub closed spec fn items_same(x: Seq<Json>, y: Seq<Json>) -> bool
    decreases x, 1nat,
{
    if x.len() == 0 {
        y.len() == 0
    } else if y.len() != x.len() {
        false
    } else {
        items_same(x.subrange(0, x.len() - 1), y.subrange(0, y.len() - 1)) && json_same(x[x.len() - 1], y[y.len() - 1])
    }
}

/// Every entry's value is the same as the value of the object `y` under the entry's key.
pub closed spec fn members_same(s: Seq<(String, Json)>, y: StrMap<Json>) -> bool
    decreases s, 1nat,
{
    if s.len() == 0 {
        true
    } else {
        members_same(s.subrange(0, s.len() - 1), y) && y@.contains_key(s[s.len() - 1].0@)
            && json_same(s[s.len() - 1].1, y@[s[s.len() - 1].0@])
    }
}

/// Whether two values are the same JSON value (objects compared as maps).
pub fn json_eq(a: &Json, b: &Json) -> (r: bool)
    ensures
        r == json_same(*a, *b),
    decreases a,
{
    match a {
        Json::Null => match b {
            Json::Null => true,
            _ => false,
        },
        Json::Bool(x) => match b {
            Json::Bool(y) => *x == *y,
            _ => false,
        },
        Json::Number(x) => match b {
            Json::Number(y) => str_eq(x.as_str(), y.as_str()),
            _ => false,
        },
        Json::String(x) => match b {
            Json::String(y) => str_eq(x.as_str(), y.as_str()),
            _ => false,
        },
        Json::Array(x) => match b {
            Json::Array(y) => {
                if x.len() != y.len() {
                    return false;
                }
                let n = x.len();
                let mut i: usize = 0;
                proof {
                    assert(x@.subrange(0, 0) =~= Seq::<Json>::empty());
                    assert(y@.subrange(0, 0) =~= Seq::<Json>::empty());
                }
                while i < n
                    invariant
                        *a == Json::Array(*x),
                        *b == Json::Array(*y),
                        n == x@.len(),
                        n == y@.len(),
                        i <= n,
                        items_same(x@.subrange(0, i as int), y@.subrange(0, i as int)),
                    decreases n - i,
                {
                    proof {
                        assert(decreases_to!(*a => (*a)->Array_0@[i as int]));
                        let xs = x@.subrange(0, i + 1);
                        let ys = y@.subrange(0, i + 1);
                        assert(xs.subrange(0, xs.len() - 1) =~= x@.subrange(0, i as int));
                        assert(ys.subrange(0, ys.len() - 1) =~= y@.subrange(0, i as int));
                        assert(xs[xs.len() - 1] == x@[i as int]);
                        assert(ys[ys.len() - 1] == y@[i as int]);
                    }
                    if !json_eq(&x[i], &y[i]) {
                        proof {
                            if items_same(x@, y@) {
                                lemma_items_same_prefix(x@, y@, i as int + 1);
                            }
                        }
                        return false;
                    }
                    i = i + 1;
                }
                proof {
                    assert(x@.subrange(0, n as int) =~= x@);
                    assert(y@.subrange(0, n as int) =~= y@);
                }
                true
            },
            _ => false,
        },
        Json::Object(x) => match b {
            Json::Object(y) => {
                proof {
                    use_type_invariant(x);
                    use_type_invariant(y);
                    x.lemma_wf();
                    y.lemma_wf();
                    x.lemma_entries_field();
                    y.lemma_entries_field();
                }
                if x.entries.len() != y.entries.len() {
                    return false;
                }
                let n = x.entries.len();
                let mut i: usize = 0;
                proof { assert(x.entries@.subrange(0, 0) =~= Seq::<(String, Json)>::empty()); }
                while i < n
                    invariant
                        *a == Json::Object(*x),
                        *b == Json::Object(*y),
                        n == x.entries@.len(),
                        n == y.entries@.len(),
                        x@.dom().finite(),
                        y@.dom().finite(),
                        x@.dom().len() == n,
                        y@.dom().len() == n,
                        crate::strmap::distinct_keys(x.entries@),
                        x.entries() == x.entries@,
                        i <= n,
                        members_same(x.entries@.subrange(0, i as int), *y),
                        forall|j: int| 0 <= j < i ==> y@.contains_key(#[trigger] x.entries@[j].0@),
                    decreases n - i,
                {
                    proof {
                        assert(decreases_to!(*a => (*a)->Object_0.entries@[i as int].1));
                        let t = x.entries@.subrange(0, i + 1);
                        assert(t.subrange(0, t.len() - 1) =~= x.entries@.subrange(0, i as int));
                        assert(t[t.len() - 1] == x.entries@[i as int]);
                    }
                    let e = &x.entries[i];
                    match y.get(e.0.as_str()) {
                        Some(v) => {
                            if !json_eq(&e.1, v) {
                                proof {
                                    if members_same(x.entries@, *y) {
                                        lemma_members_same_prefix(x.entries@, *y, i as int + 1);
                                    }
                                }
                                return false;
                            }
                        },
                        None => {
                            proof {
                                if members_same(x.entries@, *y) {
                                    lemma_members_same_prefix(x.entries@, *y, i as int + 1);
                                }
                            }
                            return false;
                        },
                    }
                    i = i + 1;
                }
                proof {
                    assert(x@.dom().subset_of(y@.dom())) by {
                        assert forall|k: Seq<char>| #[trigger] x@.dom().contains(k) implies y@.dom().contains(k) by {
                            let j = choose|j: int| 0 <= j < x.entries@.len() && #[trigger] x.entries@[j].0@ == k;
                        }
                    }
                    vstd::set_lib::lemma_subset_equality(x@.dom(), y@.dom());
                    assert(x.entries@.subrange(0, n as int) =~= x.entries@);
                }
                true
            },
            _ => false,
        },
    }
}

proof fn lemma_items_same_prefix(x: Seq<Json>, y: Seq<Json>, k: int)
    requires
        x.len() == y.len(),
        0 <= k <= x.len(),
        items_same(x, y),
    ensures
        items_same(x.subrange(0, k), y.subrange(0, k)),
    decreases x.len() - k,
{
    if k < x.len() {
        lemma_items_same_prefix(x, y, k + 1);
        let xs = x.subrange(0, k + 1);
        let ys = y.subrange(0, k + 1);
        assert(xs.subrange(0, xs.len() - 1) =~= x.subrange(0, k));
        assert(ys.subrange(0, ys.len() - 1) =~= y.subrange(0, k));
    } else {
        assert(x.subrange(0, k) =~= x);
        assert(y.subrange(0, k) =~= y);
    }
}

proof fn lemma_members_same_prefix(s: Seq<(String, Json)>, y: StrMap<Json>, k: int)
    requires
        0 <= k <= s.len(),
        members_same(s, y),
    ensures
        members_same(s.subrange(0, k), y),
    decreases s.len() - k,
{
    if k < s.len() {
        lemma_members_same_prefix(s, y, k + 1);
        let t = s.subrange(0, k + 1);
        assert(t.subrange(0, t.len() - 1) =~= s.subrange(0, k));
    } else {
        assert(s.subrange(0, k) =~= s);
    }
}

} // verus!
