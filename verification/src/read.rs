//! Reading through a chain: where `on`, `map` and `off` listen, what `once` finds in
//! the local graph, and which values a listener is handed.
use vstd::prelude::*;
use crate::json::{Json, spec_str};
use crate::strmap::{StrMap, str_eq};
use crate::text::{concat, starts_with, spec_starts_with};
use crate::json::spec_field;
use crate::state::Node;
use crate::graph::Graph;
use crate::chain::{Chain, nearest_soul};
use crate::valid::{soul_key, value_key, valid};
use crate::put::{chain_node, existing_set_soul};

verus! {

/// The soul that a value's `"#"` member names: the value is an object and the member a string.
pub open spec fn link_target(v: Json) -> Option<Seq<char>> {
    match v {
        Json::Object(m) => if m@.contains_key(soul_key()) { spec_str(m@[soul_key()]) } else { None },
        _ => None,
    }
}

/// Whether a value is an object with a `"#"` member.
pub open spec fn has_soul_member(v: Json) -> bool {
    match v {
        Json::Object(m) => m@.contains_key(soul_key()),
        _ => false,
    }
}

/// The soul a value's `"#"` member names, if it is a string.
pub fn link_target_of(v: &Json) -> (r: Option<&str>)
    ensures
        match r {
            Some(s) => link_target(*v) == Some(s@),
            None => link_target(*v) is None,
        },
{
    proof { reveal_strlit("#"); assert("#"@ =~= soul_key()); }
    match v {
        Json::Object(m) => match m.get("#") {
            Some(t) => t.as_str(),
            None => None,
        },
        _ => None,
    }
}

/// Whether a value is an object with a `"#"` member.
pub fn has_soul_member_of(v: &Json) -> (b: bool)
    ensures
        b == has_soul_member(*v),
{
    proof { reveal_strlit("#"); assert("#"@ =~= soul_key()); }
    match v {
        Json::Object(m) => m.contains_key("#"),
        _ => false,
    }
}

/// `key` looked up in an object and, failing that, depth first through its nested
/// objects that carry no `"#"` member, in member order.
pub closed spec fn nested_lookup(m: StrMap<Json>, key: Seq<char>) -> Option<Json>
    decreases m, 0nat,
{
    if m@.contains_key(key) {
        Some(m@[key])
    } else {
        nested_lookup_in(m.entries@, key)
    }
}

/// `key` looked up depth first through the nested objects without a `"#"` member among
/// the values of the entries, in order.
pub closed spec fn nested_lookup_in(s: Seq<(String, Json)>, key: Seq<char>) -> Option<Json>
    decreases s, 1nat,
{
    if s.len() == 0 {
        None
    } else {
        let first = match s[0].1 {
            Json::Object(inner) => if !inner@.contains_key(soul_key()) {
                nested_lookup(inner, key)
            } else {
                None
            },
            _ => None,
        };
        if first is Some {
            first
        } else {
            nested_lookup_in(s.subrange(1, s.len() as int), key)
        }
    }
}

fn find_nested_in<'a>(m: &'a StrMap<Json>, key: &str) -> (r: Option<&'a Json>)
    ensures
        match r {
            Some(v) => nested_lookup_in(m.entries@, key@) == Some(*v),
            None => nested_lookup_in(m.entries@, key@) is None,
        },
    decreases *m, 0nat,
{
    proof { reveal_strlit("#"); assert("#"@ =~= soul_key()); }
    let n = m.entries.len();
    let mut i: usize = 0;
    proof { assert(m.entries@.subrange(0, n as int) =~= m.entries@); }
    while i < n
        invariant
            n == m.entries@.len(),
            i <= n,
            nested_lookup_in(m.entries@, key@) == nested_lookup_in(m.entries@.subrange(i as int, n as int), key@),
        decreases n - i,
    {
        let ghost rest = m.entries@.subrange(i as int, n as int);
        proof {
            reveal_strlit("#");
            assert("#"@ =~= soul_key());
            assert(rest[0] == m.entries@[i as int]);
            assert(rest.subrange(1, rest.len() as int) =~= m.entries@.subrange(i + 1, n as int));
        }
        let e = &m.entries[i];
        match &e.1 {
            Json::Object(inner) => {
                if !inner.contains_key("#") {
                    proof {
                        assert(decreases_to!(*m => m.entries));
                        assert(decreases_to!(m.entries => m.entries@));
                        assert(decreases_to!(m.entries@ => m.entries@[i as int]));
                        assert(decreases_to!(m.entries@[i as int] => m.entries@[i as int].1));
                        assert(decreases_to!(m.entries@[i as int].1 => m.entries@[i as int].1->Object_0));
                    }
                    match find_nested(inner, key) {
                        Some(v) => {
                            proof {
                                assert(rest.len() > 0);
                                assert(nested_lookup_in(rest, key@) == Some(*v));
                            }
                            return Some(v);
                        },
                        None => {},
                    }
                }
            },
            _ => {},
        }
        i = i + 1;
    }
    None
}

/// Find `key` in an object or, failing that, in its nested objects without a `"#"` member.
pub fn find_nested<'a>(m: &'a StrMap<Json>, key: &str) -> (r: Option<&'a Json>)
    ensures
        match r {
            Some(v) => nested_lookup(*m, key@) == Some(*v),
            None => nested_lookup(*m, key@) is None,
        },
    decreases *m, 1nat,
{
    match m.get(key) {
        Some(v) => Some(v),
        None => find_nested_in(m, key),
    }
}

} // verus!

verus! {

/// `key` looked up through the members of a parent node, in order: in the node that a
/// link member names (the key itself, or else depth first through that node's nested
/// objects), or directly in a nested object member without a `"#"` member.
pub closed spec fn scan_members(s: Seq<(String, Json)>, g: Map<Seq<char>, Node>, key: Seq<char>) -> Option<Json>
    decreases s.len(),
{
    if s.len() == 0 {
        None
    } else {
        let v = s[0].1;
        let first = if has_soul_member(v) {
            match link_target(v) {
                Some(t) => if g.contains_key(t) {
                    if g[t].data@.contains_key(key) {
                        Some(g[t].data@[key])
                    } else {
                        nested_lookup_in(g[t].data.entries@, key)
                    }
                } else {
                    None
                },
                None => None,
            }
        } else {
            match v {
                Json::Object(inner) => if inner@.contains_key(key) { Some(inner@[key]) } else { None },
                _ => None,
            }
        };
        if first is Some {
            first
        } else {
            scan_members(s.subrange(1, s.len() as int), g, key)
        }
    }
}

/// What `once` finds in the local graph, described by value.
pub enum OnceAnswer {
    /// Hand this value to the callback.
    Value(Json),
    /// Hand the data of a node to the callback, as an object.
    NodeData(StrMap<Json>),
    /// Hand null to the callback.
    Null,
    /// Wait for the key on the parent's node: listen under the parent's soul (for any update
    /// when it has none), after asking peers for the node named by the second field, if any.
    AwaitParent(Option<String>, Option<String>),
    /// Ask peers for the node under this soul (and the chain's key), and wait for it.
    AwaitSoul(String),
}

/// What `once` finds in the local graph, by reference into the graph.
pub enum OnceStep<'a> {
    /// Hand this value to the callback.
    Value(&'a Json),
    /// Hand the data of a node to the callback, as an object.
    NodeData(&'a StrMap<Json>),
    /// Hand null to the callback.
    Null,
    /// Wait for the key on the parent's node: listen under `parent_soul` (for any update
    /// when it is `None`), after asking peers for the node under `request`, if any.
    AwaitParent { parent_soul: Option<String>, request: Option<String> },
    /// Ask peers for the node under this soul (and the chain's key), and wait for it.
    AwaitSoul(String),
}

/// The step `r` gives the answer `a`.
pub open spec fn step_answers(r: OnceStep, a: OnceAnswer) -> bool {
    match r {
        OnceStep::Value(x) => a matches OnceAnswer::Value(y) && *x == y,
        OnceStep::NodeData(x) => a matches OnceAnswer::NodeData(y) && *x == y,
        OnceStep::Null => a is Null,
        OnceStep::AwaitParent { parent_soul, request } => a matches OnceAnswer::AwaitParent(p, q) && parent_soul == p && request == q,
        OnceStep::AwaitSoul(s) => a matches OnceAnswer::AwaitSoul(t) && s == t,
    }
}

/// For a chain with a soul, a key and a parent: the key's value on the node of the nearest
/// chain above that has a soul, when it is a plain value or an object without a `"#"`
/// member, or the data of the node it links to, when the graph has that node.
pub open spec fn once_from_parent_node(c: Chain, g: Map<Seq<char>, Node>) -> Option<OnceAnswer> {
    if c.key is Some && c.parent is Some {
        let k = c.key->Some_0@;
        match nearest_soul(c.parent) {
            Some(ps) => if g.contains_key(ps) && g[ps].data@.contains_key(k) {
                let v = g[ps].data@[k];
                if has_soul_member(v) {
                    match link_target(v) {
                        Some(t) => if g.contains_key(t) { Some(OnceAnswer::NodeData(g[t].data)) } else { None },
                        None => None,
                    }
                } else {
                    Some(OnceAnswer::Value(v))
                }
            } else {
                None
            },
            None => None,
        }
    } else {
        None
    }
}

/// For a chain with the soul `s`: the node's own value (under `"="`) when it holds one,
/// otherwise its data, or the key's value on it (null when the node lacks the key); a
/// request for the node when the graph lacks it.
pub open spec fn once_at_soul(c: Chain, s: String, g: Map<Seq<char>, Node>) -> OnceAnswer {
    if g.contains_key(s@) {
        match c.key {
            Some(k) => if g[s@].data@.contains_key(k@) { OnceAnswer::Value(g[s@].data@[k@]) } else { OnceAnswer::Null },
            None => if g[s@].data@.contains_key(value_key()) {
                OnceAnswer::Value(g[s@].data@[value_key()])
            } else {
                OnceAnswer::NodeData(g[s@].data)
            },
        }
    } else {
        OnceAnswer::AwaitSoul(s)
    }
}

/// For a chain without a soul under the key `k` of the parent `p` that has no soul either:
/// the node of the nearest chain above with a soul is looked at. The key's value there when
/// it is a plain value or an object without a `"#"` member; for a link to a node the graph
/// has, the key's value on that node, or its data; otherwise the key found by `scan_members`.
pub open spec fn once_through_ancestor(k: Seq<char>, p: Chain, g: Map<Seq<char>, Node>) -> Option<OnceAnswer> {
    match nearest_soul(p.parent) {
        Some(q) => if g.contains_key(q) {
            let d = g[q].data;
            let direct = if d@.contains_key(k) {
                let v = d@[k];
                if has_soul_member(v) {
                    match link_target(v) {
                        Some(t) => if g.contains_key(t) {
                            if g[t].data@.contains_key(k) {
                                Some(OnceAnswer::Value(g[t].data@[k]))
                            } else {
                                Some(OnceAnswer::NodeData(g[t].data))
                            }
                        } else {
                            None
                        },
                        None => None,
                    }
                } else {
                    Some(OnceAnswer::Value(v))
                }
            } else {
                None
            };
            if direct is Some {
                direct
            } else {
                match scan_members(d.entries(), g, k) {
                    Some(x) => Some(OnceAnswer::Value(x)),
                    None => None,
                }
            }
        } else {
            None
        },
        None => None,
    }
}

/// The node a chain names in the graph (see `chain_node`).
pub fn node_of(c: &Chain, graph: &Graph) -> (r: Option<String>)
    ensures
        match r {
            Some(s) => chain_node(Some(Box::new(*c)), graph@) == Some(s@),
            None => chain_node(Some(Box::new(*c)), graph@) is None,
        },
    decreases c,
{
    match &c.soul {
        Some(s) => Some(s.clone()),
        None => match &c.key {
            Some(k) => match &c.parent {
                Some(p) => {
                    proof { assert(Some(Box::new(**p)) == c.parent); }
                    match node_of(&**p, graph) {
                        Some(ps) => match graph.get(ps.as_str()) {
                            Some(n) => match n.data.get(k.as_str()) {
                                Some(v) => match valid(v) {
                                    Err(Some(t)) => Some(t),
                                    _ => None,
                                },
                                None => None,
                            },
                            None => None,
                        },
                        None => None,
                    }
                },
                None => {
                    proof { assert(chain_node(None::<Box<Chain>>, graph@) is None); }
                    None
                },
            },
            None => None,
        },
    }
}

/// For a chain under the key `k` of a parent `p` without a soul: the node the parent names
/// through its path (see `chain_node`), when the graph has it and it holds the key: the key's
/// value, or the data of the node it links to when the graph has that node.
pub open spec fn once_through_path(k: Seq<char>, p: Option<Box<Chain>>, g: Map<Seq<char>, Node>) -> Option<OnceAnswer> {
    match chain_node(p, g) {
        Some(ps) => if g.contains_key(ps) && g[ps].data@.contains_key(k) {
            let v = g[ps].data@[k];
            Some(match link_target(v) {
                Some(t) => if g.contains_key(t) { OnceAnswer::NodeData(g[t].data) } else { OnceAnswer::Value(v) },
                None => OnceAnswer::Value(v),
            })
        } else {
            None
        },
        None => None,
    }
}

/// For a chain without a soul: with a key and a parent, the key's value on the parent's node
/// (the data of the node it links to, when the graph has it), or a wait for the parent's
/// node (asking peers for it when the parent has a soul the graph lacks); null otherwise.
pub open spec fn once_without_soul(c: Chain, g: Map<Seq<char>, Node>) -> OnceAnswer {
    if c.key is Some && c.parent is Some {
        let k = c.key->Some_0@;
        let p = *c.parent->Some_0;
        match p.soul {
            Some(ps) => if g.contains_key(ps@) {
                if g[ps@].data@.contains_key(k) {
                    let v = g[ps@].data@[k];
                    match link_target(v) {
                        Some(t) => if g.contains_key(t) { OnceAnswer::NodeData(g[t].data) } else { OnceAnswer::Value(v) },
                        None => OnceAnswer::Value(v),
                    }
                } else {
                    OnceAnswer::AwaitParent(p.soul, None)
                }
            } else {
                OnceAnswer::AwaitParent(p.soul, Some(ps))
            },
            None => match once_through_path(k, c.parent, g) {
                Some(a) => a,
                None => match once_through_ancestor(k, p, g) {
                    Some(a) => a,
                    None => OnceAnswer::AwaitParent(None, None),
                },
            },
        }
    } else {
        OnceAnswer::Null
    }
}

/// What `once` finds in the graph `g` for the chain `c`.
pub open spec fn spec_once(c: Chain, g: Map<Seq<char>, Node>) -> OnceAnswer {
    match c.soul {
        Some(s) => match once_from_parent_node(c, g) {
            Some(a) => a,
            None => once_at_soul(c, s, g),
        },
        None => once_without_soul(c, g),
    }
}

} // verus!

verus! {

/// Find `key` through the members of a parent node, as `scan_members` describes.
fn scan_step<'a>(d: &'a StrMap<Json>, graph: &'a Graph, key: &str) -> (r: Option<&'a Json>)
    ensures
        match r {
            Some(v) => scan_members(d.entries(), graph@, key@) == Some(*v),
            None => scan_members(d.entries(), graph@, key@) is None,
        },
{
    proof { d.lemma_entries_field(); }
    let n = d.entries.len();
    let mut i: usize = 0;
    proof { assert(d.entries@.subrange(0, n as int) =~= d.entries@); }
    while i < n
        invariant
            n == d.entries@.len(),
            i <= n,
            d.entries() == d.entries@,
            scan_members(d.entries@, graph@, key@) == scan_members(d.entries@.subrange(i as int, n as int), graph@, key@),
        decreases n - i,
    {
        let ghost rest = d.entries@.subrange(i as int, n as int);
        proof {
            assert(rest[0] == d.entries@[i as int]);
            assert(rest.subrange(1, rest.len() as int) =~= d.entries@.subrange(i + 1, n as int));
        }
        let v = &d.entries[i].1;
        if has_soul_member_of(v) {
            match link_target_of(v) {
                Some(t) => match graph.get(t) {
                    Some(tn) => {
                        match tn.data.get(key) {
                            Some(x) => {
                                return Some(x);
                            },
                            None => {},
                        }
                        match find_nested_in(&tn.data, key) {
                            Some(x) => {
                                return Some(x);
                            },
                            None => {},
                        }
                    },
                    None => {},
                },
                None => {},
            }
        } else {
            match v {
                Json::Object(inner) => match inner.get(key) {
                    Some(x) => {
                        return Some(x);
                    },
                    None => {},
                },
                _ => {},
            }
        }
        i = i + 1;
    }
    None
}

impl Chain {
    /// For `once` on a chain with a soul: the key's value on the node of the nearest
    /// chain above that has a soul, as `once_from_parent_node` describes.
    fn once_parent_value<'a>(&self, graph: &'a Graph) -> (r: Option<OnceStep<'a>>)
        ensures
            match r {
                Some(x) => once_from_parent_node(*self, graph@) matches Some(a) && step_answers(x, a),
                None => once_from_parent_node(*self, graph@) is None,
            },
    {
        match &self.key {
            Some(k) => {
                if self.parent.is_none() {
                    return None;
                }
                match self.parent_soul() {
                    Some(ps) => match graph.get(ps.as_str()) {
                        Some(node) => match node.data.get(k.as_str()) {
                            Some(v) => {
                                if has_soul_member_of(v) {
                                    match link_target_of(v) {
                                        Some(t) => match graph.get(t) {
                                            Some(tn) => Some(OnceStep::NodeData(&tn.data)),
                                            None => None,
                                        },
                                        None => None,
                                    }
                                } else {
                                    Some(OnceStep::Value(v))
                                }
                            },
                            None => None,
                        },
                        None => None,
                    },
                    None => None,
                }
            },
            None => None,
        }
    }

    /// For `once` on a chain without a soul, under the key `k` of the parent `p` that has
    /// no soul: as `once_through_ancestor` describes.
    fn once_through_ancestor_step<'a>(k: &str, p: &Chain, graph: &'a Graph) -> (r: Option<OnceStep<'a>>)
        ensures
            match r {
                Some(x) => once_through_ancestor(k@, *p, graph@) matches Some(a) && step_answers(x, a),
                None => once_through_ancestor(k@, *p, graph@) is None,
            },
    {
        match p.parent_soul() {
            None => None,
            Some(q) => match graph.get(q.as_str()) {
                None => None,
                Some(node) => {
                    match node.data.get(k) {
                        Some(v) => {
                            if has_soul_member_of(v) {
                                match link_target_of(v) {
                                    Some(t) => match graph.get(t) {
                                        Some(tn) => {
                                            return match tn.data.get(k) {
                                                Some(x) => Some(OnceStep::Value(x)),
                                                None => Some(OnceStep::NodeData(&tn.data)),
                                            };
                                        },
                                        None => {},
                                    },
                                    None => {},
                                }
                            } else {
                                return Some(OnceStep::Value(v));
                            }
                        },
                        None => {},
                    }
                    match scan_step(&node.data, graph, k) {
                        Some(x) => Some(OnceStep::Value(x)),
                        None => None,
                    }
                },
            },
        }
    }

    /// For `once` on a chain without a soul: as `once_without_soul` describes.
    fn once_without_soul_step<'a>(&self, graph: &'a Graph) -> (r: OnceStep<'a>)
        requires
            self.soul is None,
        ensures
            step_answers(r, once_without_soul(*self, graph@)),
    {
        match &self.key {
            None => OnceStep::Null,
            Some(k) => match &self.parent {
                None => OnceStep::Null,
                Some(p) => match &p.soul {
                    Some(ps) => match graph.get(ps.as_str()) {
                        Some(node) => match node.data.get(k.as_str()) {
                            Some(v) => match link_target_of(v) {
                                Some(t) => match graph.get(t) {
                                    Some(tn) => OnceStep::NodeData(&tn.data),
                                    None => OnceStep::Value(v),
                                },
                                None => OnceStep::Value(v),
                            },
                            None => OnceStep::AwaitParent { parent_soul: Some(ps.clone()), request: None },
                        },
                        None => OnceStep::AwaitParent { parent_soul: Some(ps.clone()), request: Some(ps.clone()) },
                    },
                    None => {
                        proof { assert(Some(Box::new(**p)) == self.parent); }
                        match node_of(&**p, graph) {
                            Some(ps) => match graph.get(ps.as_str()) {
                                Some(node) => match node.data.get(k.as_str()) {
                                    Some(v) => {
                                        return match link_target_of(v) {
                                            Some(t) => match graph.get(t) {
                                                Some(tn) => OnceStep::NodeData(&tn.data),
                                                None => OnceStep::Value(v),
                                            },
                                            None => OnceStep::Value(v),
                                        };
                                    },
                                    None => {},
                                },
                                None => {},
                            },
                            None => {},
                        }
                        match Chain::once_through_ancestor_step(k.as_str(), p, graph) {
                            Some(x) => x,
                            None => OnceStep::AwaitParent { parent_soul: None, request: None },
                        }
                    },
                },
            },
        }
    }

    /// What `once` finds for this chain in the local graph: a value or a node's data to hand
    /// to the callback, null, or what to ask peers for and wait on (see `spec_once`).
    pub fn once_lookup<'a>(&self, graph: &'a Graph) -> (r: OnceStep<'a>)
        ensures
            step_answers(r, spec_once(*self, graph@)),
    {
        proof { reveal_strlit("="); assert("="@ =~= value_key()); }
        match &self.soul {
            Some(s) => {
                match self.once_parent_value(graph) {
                    Some(x) => {
                        return x;
                    },
                    None => {},
                }
                match graph.get(s.as_str()) {
                    Some(node) => match &self.key {
                        Some(k) => match node.data.get(k.as_str()) {
                            Some(v) => OnceStep::Value(v),
                            None => OnceStep::Null,
                        },
                        None => match node.data.get("=") {
                            Some(v) => OnceStep::Value(v),
                            None => OnceStep::NodeData(&node.data),
                        },
                    },
                    None => OnceStep::AwaitSoul(s.clone()),
                }
            },
            None => self.once_without_soul_step(graph),
        }
    }
}

} // verus!

verus! {

/// The event for updates that no soul was resolved for, `"graph_update"`.
pub open spec fn graph_update_event() -> Seq<char> {
    seq!['g', 'r', 'a', 'p', 'h', '_', 'u', 'p', 'd', 'a', 't', 'e']
}

/// The prefix of the event for updates of one node, `"node_update:"`.
pub open spec fn node_update_prefix() -> Seq<char> {
    seq!['n', 'o', 'd', 'e', '_', 'u', 'p', 'd', 'a', 't', 'e', ':']
}

/// The soul that `on`, `map` and `off` listen under: the chain's soul, or for a chain
/// with a key and a parent the soul of the nearest chain above that has one; none when
/// there is no such soul, or when the soul is the text `"graph_update"` itself.
pub open spec fn spec_listen_soul(c: Chain) -> Option<Seq<char>> {
    let found = match c.soul {
        Some(s) => Some(s@),
        None => if c.key is Some && c.parent is Some { nearest_soul(c.parent) } else { None },
    };
    match found {
        Some(s) => if s == graph_update_event() { None } else { Some(s) },
        None => None,
    }
}

/// The soul that `on`, `map` and `off` listen under in the graph `g`: for a chain down a path
/// (a key under a parent without a soul), the node the parent names there (see `chain_node`),
/// when it names one; otherwise as `spec_listen_soul`.
pub open spec fn spec_listen_soul_in(c: Chain, g: Map<Seq<char>, Node>) -> Option<Seq<char>> {
    if c.soul is None && c.key is Some && (c.parent matches Some(p) && p.soul is None) && chain_node(c.parent, g) is Some
        && chain_node(c.parent, g)->Some_0 != graph_update_event() {
        chain_node(c.parent, g)
    } else {
        spec_listen_soul(c)
    }
}

/// The event that `on`, `map` and `off` listen for: `"node_update:"` and the soul they
/// listen under, or `"graph_update"` when there is none.
pub open spec fn spec_listen_event(c: Chain) -> Seq<char> {
    match spec_listen_soul(c) {
        Some(s) => node_update_prefix() + s,
        None => graph_update_event(),
    }
}

/// The event for updates of the node under `soul`.
pub fn node_update_event(soul: &str) -> (e: String)
    ensures
        e@ == node_update_prefix() + soul@,
{
    proof { reveal_strlit("node_update:"); assert("node_update:"@ =~= node_update_prefix()); }
    concat("node_update:", soul)
}

/// The event for updates that no soul was resolved for.
pub fn graph_update_event_name() -> (e: String)
    ensures
        e@ == graph_update_event(),
{
    proof { reveal_strlit("graph_update"); assert("graph_update"@ =~= graph_update_event()); }
    "graph_update".to_owned()
}

impl Chain {
    /// The soul that `on`, `map` and `off` listen under, as `spec_listen_soul` describes.
    pub fn listen_soul(&self) -> (r: Option<String>)
        ensures
            match r {
                Some(s) => spec_listen_soul(*self) == Some(s@),
                None => spec_listen_soul(*self) is None,
            },
    {
        let found = match &self.soul {
            Some(s) => Some(s.clone()),
            None => {
                if self.key.is_some() && self.parent.is_some() {
                    self.parent_soul()
                } else {
                    None
                }
            },
        };
        proof { reveal_strlit("graph_update"); assert("graph_update"@ =~= graph_update_event()); }
        match found {
            Some(s) => {
                if str_eq(s.as_str(), "graph_update") {
                    None
                } else {
                    Some(s)
                }
            },
            None => None,
        }
    }

    /// The event that `on`, `map` and `off` listen for in the graph, as `spec_listen_soul_in`
    /// describes.
    pub fn listen_event_in(&self, graph: &Graph) -> (e: String)
        ensures
            e@ == (match spec_listen_soul_in(*self, graph@) {
                Some(s) => node_update_prefix() + s,
                None => graph_update_event(),
            }),
    {
        if self.soul.is_none() && self.key.is_some() {
            match &self.parent {
                Some(p) => {
                    if p.soul.is_none() {
                        proof { assert(Some(Box::new(**p)) == self.parent); }
                        match node_of(&**p, graph) {
                            Some(ps) => {
                                proof {
                                    reveal_strlit("graph_update");
                                    assert("graph_update"@ =~= graph_update_event());
                                }
                                if !str_eq(ps.as_str(), "graph_update") {
                                    return node_update_event(ps.as_str());
                                }
                            },
                            None => {},
                        }
                    }
                },
                None => {},
            }
        }
        self.listen_event()
    }

    /// The event that `on`, `map` and `off` listen for.
    pub fn listen_event(&self) -> (e: String)
        ensures
            e@ == spec_listen_event(*self),
    {
        match self.listen_soul() {
            Some(s) => node_update_event(s.as_str()),
            None => graph_update_event_name(),
        }
    }
}

/// What `on` hands its callback for an update.
pub enum OnValue<'a> {
    /// Null.
    Null,
    /// This value.
    Value(&'a Json),
    /// The data of a node, as an object.
    NodeData(&'a StrMap<Json>),
}

/// What `on` hands its callback for an update whose event carries `data`. Without a key,
/// the data itself. With a key: null when the data has no such member; for a member that
/// links to a node the graph has, that node's only value when it has one member, else
/// its data; the member itself otherwise.
pub open spec fn on_value_is(key: Option<Seq<char>>, data: Json, g: Map<Seq<char>, Node>, r: OnValue) -> bool {
    match key {
        None => match spec_field(data, value_key()) {
            Some(v) => r matches OnValue::Value(x) && *x == v,
            None => r matches OnValue::Value(x) && *x == data,
        },
        Some(k) => match spec_field(data, k) {
            None => r is Null,
            Some(v) => match link_target(v) {
                Some(t) => if g.contains_key(t) {
                    if g[t].data@.dom().len() == 1 {
                        r matches OnValue::Value(x) && exists|k2: Seq<char>| #[trigger] g[t].data@.contains_key(k2) && g[t].data@[k2] == *x
                    } else {
                        r matches OnValue::NodeData(d) && *d == g[t].data
                    }
                } else {
                    r matches OnValue::Value(x) && *x == v
                },
                None => r matches OnValue::Value(x) && *x == v,
            },
        },
    }
}

/// The value `on` hands its callback for an update whose event carries `data`.
pub fn on_event_value<'a>(key: Option<&str>, data: &'a Json, graph: &'a Graph) -> (r: OnValue<'a>)
    ensures
        on_value_is(match key { Some(k) => Some(k@), None => None }, *data, graph@, r),
{
    proof { reveal_strlit("="); assert("="@ =~= value_key()); }
    match key {
        None => match data.get("=") {
            Some(v) => OnValue::Value(v),
            None => OnValue::Value(data),
        },
        Some(k) => match data.get(k) {
            None => OnValue::Null,
            Some(v) => match link_target_of(v) {
                Some(t) => match graph.get(t) {
                    Some(node) => {
                        proof {
                            use_type_invariant(&node.data);
                            node.data.lemma_wf();
                        }
                        if node.data.len() == 1 {
                            let e = node.data.entry_at(0);
                            OnValue::Value(&e.1)
                        } else {
                            OnValue::NodeData(&node.data)
                        }
                    },
                    None => OnValue::Value(v),
                },
                None => OnValue::Value(v),
            },
        },
    }
}

/// The members that `map` hands out, for an update of an object `data`: with a key whose
/// member links to a node the graph has, that node's data; otherwise `data` itself.
pub open spec fn spec_map_source(key: Option<Seq<char>>, data: StrMap<Json>, g: Map<Seq<char>, Node>) -> StrMap<Json> {
    match key {
        Some(k) => if data@.contains_key(k) && link_target(data@[k]) is Some && g.contains_key(link_target(data@[k])->Some_0) {
            g[link_target(data@[k])->Some_0].data
        } else {
            data
        },
        None => data,
    }
}

/// The object whose members `map` hands out for an update of `data`.
pub fn map_source<'a>(key: Option<&str>, data: &'a StrMap<Json>, graph: &'a Graph) -> (r: &'a StrMap<Json>)
    ensures
        *r == spec_map_source(match key { Some(k) => Some(k@), None => None }, *data, graph@),
{
    match key {
        Some(k) => match data.get(k) {
            Some(v) => match link_target_of(v) {
                Some(t) => match graph.get(t) {
                    Some(node) => &node.data,
                    None => data,
                },
                None => data,
            },
            None => data,
        },
        None => data,
    }
}

/// Whether `map` hands out a member: every key but `"_"` and those that start with `">"`.
pub open spec fn spec_is_mapped_key(k: Seq<char>) -> bool {
    k != seq!['_'] && !spec_starts_with(k, seq!['>'])
}

/// Whether `map` hands out the member under this key.
pub fn is_mapped_key(k: &str) -> (b: bool)
    ensures
        b == spec_is_mapped_key(k@),
{
    proof {
        reveal_strlit("_");
        reveal_strlit(">");
        assert("_"@ =~= seq!['_']);
        assert(">"@ =~= seq!['>']);
    }
    !str_eq(k, "_") && !starts_with(k, ">")
}

} // verus!

verus! {

/// Whether a listener fires for a newly seen value: always for the first value, and
/// afterwards only where the value differs from the one seen last.
pub fn value_changed(prev: Option<&Json>, new: &Json) -> (r: bool)
    ensures
        r == match prev {
            None => true,
            Some(p) => !crate::json::json_same(*p, *new),
        },
{
    match prev {
        None => true,
        Some(p) => !crate::json::json_eq(p, new),
    }
}

} // verus!

verus! {

/// How long `once` waits for peers before it answers null, in milliseconds.
pub open spec fn once_timeout_ms() -> u64 {
    20_000
}

/// What `once` does while the graph does not hold what it reads: ask peers for a node (only
/// the first time), and whether to give up and answer null.
pub struct OnceWait {
    pub ask: Option<String>,
    pub give_up: bool,
}

/// The decision of one round of waiting in `once`, given the node to ask peers for (if any),
/// whether peers were asked already and the milliseconds waited so far: peers are asked once,
/// for the node named, and the wait ends with null once more than 20 seconds have passed.
pub fn once_wait_step(request: Option<String>, asked: bool, elapsed_ms: u64) -> (w: OnceWait)
    ensures
        w.ask == (if asked { None } else { request }),
        w.give_up == (elapsed_ms > once_timeout_ms()),
{
    let ask = if asked { None } else { request };
    OnceWait { ask, give_up: elapsed_ms > 20_000 }
}

} // verus!

verus! {

/// The values a listener hands its callback, for the values `events` that updates bring in
/// order, when the last value it handed on was `prev`: a value is handed on when it is the
/// first or differs from the last one handed on (`value_changed`).
pub open spec fn on_delivered(prev: Option<Json>, events: Seq<Json>) -> Seq<Json>
    decreases events.len(),
{
    if events.len() == 0 {
        Seq::empty()
    } else {
        let e = events[0];
        let rest = events.subrange(1, events.len() as int);
        if prev matches Some(p) && crate::json::json_same(p, e) {
            on_delivered(prev, rest)
        } else {
            seq![e] + on_delivered(Some(e), rest)
        }
    }
}

/// A listener never hands its callback the same value twice in a row: each value it hands on
/// differs from the one before (and from the last one handed on before these updates).
pub proof fn lemma_on_delivers_changes(prev: Option<Json>, events: Seq<Json>)
    ensures
        forall|i: int| 0 <= i < on_delivered(prev, events).len() - 1
            ==> !crate::json::json_same(#[trigger] on_delivered(prev, events)[i], on_delivered(prev, events)[i + 1]),
        prev matches Some(p) ==> (on_delivered(prev, events).len() > 0 ==> !crate::json::json_same(p, on_delivered(prev, events)[0])),
    decreases events.len(),
{
    if events.len() > 0 {
        let e = events[0];
        let rest = events.subrange(1, events.len() as int);
        if prev matches Some(p) && crate::json::json_same(p, e) {
            lemma_on_delivers_changes(prev, rest);
        } else {
            lemma_on_delivers_changes(Some(e), rest);
            let d = on_delivered(prev, events);
            let t = on_delivered(Some(e), rest);
            assert(d == seq![e] + t);
            assert forall|i: int| 0 <= i < d.len() - 1 implies !crate::json::json_same(#[trigger] d[i], d[i + 1]) by {
                if i == 0 {
                    assert(d[0] == e && d[1] == t[0]);
                } else {
                    assert(d[i] == t[i - 1] && d[i + 1] == t[i]);
                }
            }
        }
    }
}

} // verus!
