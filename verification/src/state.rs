//! State timestamps for conflict resolution, and the nodes that carry them.
//!
//! A state is a point on the library's logical clock. Its unit is a 999th of a
//! millisecond: the clock reads `t` milliseconds and hands out `t * 999`, and
//! when it is asked again within the same millisecond it counts on from there,
//! one unit per call, so that states taken in a burst still differ.
use vstd::prelude::*;
use crate::json::{Json, spec_str, spec_field};
use crate::valid::soul_key;
use crate::strmap::str_eq;
use crate::strmap::StrMap;
use crate::clock::now_millis;

verus! {

/// Units of state per millisecond.
pub const STATE_PER_MS: u64 = 999;

/// `x + y`, or `u64::MAX` when the sum does not fit.
pub open spec fn sat_add(x: int, y: int) -> u64 {
    if x + y > u64::MAX { u64::MAX } else { (x + y) as u64 }
}

/// The state that a clock reading of `t` milliseconds stands for.
pub open spec fn state_of_millis(t: u64) -> u64 {
    if t * STATE_PER_MS > u64::MAX { u64::MAX } else { (t * STATE_PER_MS) as u64 }
}

fn state_from_millis(t: u64) -> (s: u64)
    ensures
        s == state_of_millis(t),
{
    if t > u64::MAX / STATE_PER_MS {
        u64::MAX
    } else {
        t * STATE_PER_MS
    }
}

fn add_saturating(x: u64, y: u64) -> (s: u64)
    ensures
        s == sat_add(x as int, y as int),
{
    if x > u64::MAX - y {
        u64::MAX
    } else {
        x + y
    }
}

/// The state clock: how many states were handed out since the clock last moved,
/// and the last state handed out (`None` before the first).
#[derive(Clone, Copy, Debug, PartialEq, Eq)]
pub struct State {
    pub n: u64,
    pub last: Option<u64>,
}

/// The clock after it is read at `t` milliseconds, and the state it hands out.
pub open spec fn spec_next(clock: State, t: u64) -> (State, u64) {
    let now = state_of_millis(t);
    match clock.last {
        Some(l) if l >= now => {
            let s = sat_add(l as int, 1);
            (State { n: sat_add(clock.n as int, 1), last: Some(s) }, s)
        },
        _ => (State { n: 0, last: Some(now) }, now),
    }
}

impl State {
    /// A clock that has handed out no state.
    pub fn new() -> (s: State)
        ensures
            s.n == 0,
            s.last is None,
    {
        State { n: 0, last: None }
    }

    /// Hand out the state for a clock reading of `t` milliseconds.
    ///
    /// When the reading is past the last state, the state is the reading itself and
    /// the count starts again; otherwise the state is one unit past the last state, and
    /// the count goes up by one. Each state is past the one before it (short of `u64::MAX`).
    pub fn next_at(&mut self, t: u64) -> (s: u64)
        ensures
            (*final(self), s) == spec_next(*old(self), t),
            final(self).last == Some(s),
            old(self).last matches Some(l) ==> (l < u64::MAX ==> l < s),
            t > 0 ==> s > 0,
    {
        proof { assert(t > 0 ==> state_of_millis(t) > 0) by (nonlinear_arith) requires t >= 0; }
        let now = state_from_millis(t);
        match self.last {
            Some(l) => {
                if l >= now {
                    let s = add_saturating(l, 1);
                    self.last = Some(s);
                    self.n = add_saturating(self.n, 1);
                    return s;
                }
            },
            None => {},
        }
        self.n = 0;
        self.last = Some(now);
        now
    }

    /// Hand out a new state, reading the system clock. It is past every state handed out
    /// before (short of `u64::MAX`).
    pub fn next(&mut self) -> (s: u64)
        ensures
            exists|t: u64| (*final(self), s) == spec_next(*old(self), t),
            final(self).last == Some(s),
            old(self).last matches Some(l) ==> (l < u64::MAX ==> l < s),
    {
        let t = now_millis();
        self.next_at(t)
    }

    /// The state recorded for `key` on the node, if there is a node and it records one.
    pub fn is(node: &Option<Node>, key: &str) -> (r: Option<u64>)
        ensures
            r == (match *node {
                Some(n) => if n.states@.contains_key(key@) { Some(n.states@[key@]) } else { None },
                None => None,
            }),
    {
        match node {
            Some(n) => match n.states.get(key) {
                Some(s) => Some(*s),
                None => None,
            },
            None => None,
        }
    }

    /// Record a key's state and value on a node, and its soul.
    ///
    /// The soul, when given, is written under `"#"` in the node's metadata. A key is
    /// written only when given and not `"_"`: its state when a state is given, its
    /// value when a value is given.
    pub fn ify(node: &mut Node, key: Option<&str>, state: Option<u64>, value: Option<Json>, soul: Option<&str>)
        ensures
            match soul {
                Some(s) => final(node).meta@.contains_key(soul_key())
                    && spec_str(final(node).meta@[soul_key()]) == Some(s@)
                    && final(node).meta@.remove(soul_key()) == old(node).meta@.remove(soul_key()),
                None => final(node).meta@ == old(node).meta@,
            },
            match key {
                Some(k) if k@ != seq!['_'] => {
                    &&& final(node).states@ == (match state {
                        Some(st) => old(node).states@.insert(k@, st),
                        None => old(node).states@,
                    })
                    &&& final(node).data@ == (match value {
                        Some(v) => old(node).data@.insert(k@, v),
                        None => old(node).data@,
                    })
                },
                _ => final(node).states@ == old(node).states@ && final(node).data@ == old(node).data@,
            },
    {
        match soul {
            Some(s) => {
                proof { reveal_strlit("#"); assert("#"@ =~= soul_key()); }
                let old_meta = Ghost(node.meta@);
                node.meta.insert("#".to_owned(), Json::String(s.to_owned()));
                proof {
                    assert(node.meta@.remove(soul_key()) =~= old_meta@.remove(soul_key()));
                }
            },
            None => {},
        }
        match key {
            Some(k) => {
                proof { reveal_strlit("_"); assert("_"@ =~= seq!['_']); }
                if !str_eq(k, "_") {
                    proof { assert(k@ != seq!['_']); }
                    match state {
                        Some(st) => { node.states.insert(k.to_owned(), st); },
                        None => {},
                    }
                    match value {
                        Some(v) => { node.data.insert(k.to_owned(), v); },
                        None => {},
                    }
                } else {
                    proof { assert(k@ =~= seq!['_']); }
                }
            },
            None => {},
        }
    }
}

/// A node: its data, its metadata (the soul under `"#"`, and anything else a peer
/// attached), and the state of each key.
#[derive(Debug, PartialEq)]
pub struct Node {
    pub data: StrMap<Json>,
    pub meta: StrMap<Json>,
    pub states: StrMap<u64>,
}

} // verus!

verus! {

impl Node {
    /// A node with no data, no metadata and no states.
    pub fn new() -> (n: Node)
        ensures
            n.data@ == Map::<Seq<char>, Json>::empty(),
            n.meta@ == Map::<Seq<char>, Json>::empty(),
            n.states@ == Map::<Seq<char>, u64>::empty(),
    {
        Node { data: StrMap::new(), meta: StrMap::new(), states: StrMap::new() }
    }

    /// A node with no data whose metadata holds only its soul.
    pub fn with_soul(soul: String) -> (n: Node)
        ensures
            n.data@ == Map::<Seq<char>, Json>::empty(),
            n.states@ == Map::<Seq<char>, u64>::empty(),
            n.meta@ == Map::<Seq<char>, Json>::empty().insert(soul_key(), Json::String(soul)),
            spec_node_soul(n) == Some(soul@),
    {
        let mut meta = StrMap::new();
        proof { reveal_strlit("#"); assert("#"@ =~= soul_key()); }
        meta.insert("#".to_owned(), Json::String(soul));
        Node { data: StrMap::new(), meta, states: StrMap::new() }
    }

    /// The node's soul: the string stored under `"#"` in its metadata.
    pub fn get_soul(&self) -> (r: Option<String>)
        ensures
            match r {
                Some(s) => spec_node_soul(*self) == Some(s@),
                None => spec_node_soul(*self) is None,
            },
    {
        proof { reveal_strlit("#"); assert("#"@ =~= soul_key()); }
        match self.meta.get("#") {
            Some(v) => match v.as_str() {
                Some(s) => Some(s.to_owned()),
                None => None,
            },
            None => None,
        }
    }
}

/// The soul of a node, if its metadata holds a string under `"#"`.
pub open spec fn spec_node_soul(n: Node) -> Option<Seq<char>> {
    if n.meta@.contains_key(soul_key()) { spec_str(n.meta@[soul_key()]) } else { None }
}

} // verus!

verus! {

/// States never go down while the clock reads do not: the state handed out at a
/// later reading is at least the one handed out at the earlier reading.
pub proof fn lemma_next_non_decreasing(clock: State, t1: u64, t2: u64)
    requires
        t1 <= t2,
    ensures
        spec_next(clock, t1).1 <= spec_next(spec_next(clock, t1).0, t2).1,
{
    assert(state_of_millis(t1) <= state_of_millis(t2)) by (nonlinear_arith)
        requires t1 <= t2;
}

/// Each state handed out is past the last one, whatever the clock reads, unless the last
/// one is already `u64::MAX`.
pub proof fn lemma_next_increases(clock: State, t: u64)
    requires
        clock.last matches Some(l) && l < u64::MAX,
    ensures
        spec_next(clock, t).1 > clock.last->0,
        spec_next(clock, t).0.last == Some(spec_next(clock, t).1),
{
}

/// Every state handed out is at least the state of the clock reading it was taken at.
pub proof fn lemma_next_not_before_reading(clock: State, t: u64)
    ensures
        spec_next(clock, t).1 >= state_of_millis(t),
{
}

} // verus!

verus! {

impl Default for State {
    /// A fresh clock, as `State::new` gives.
    fn default() -> (s: State)
        ensures
            s.n == 0,
            s.last is None,
    {
        State::new()
    }
}

impl Default for Node {
    /// An empty node, as `Node::new` gives.
    fn default() -> (n: Node)
        ensures
            n.data@ == Map::<Seq<char>, Json>::empty(),
            n.meta@ == Map::<Seq<char>, Json>::empty(),
            n.states@ == Map::<Seq<char>, u64>::empty(),
    {
        Node::new()
    }
}

} // verus!
