//! Chains: the paths through the graph that Gun's fluent API walks
//! (`gun.get("user").get("name").put(...)`).
//!
//! A chain names a node by its soul, or a key of its parent chain's node.
//! Operations on a chain work on a core; the updates they make to nodes are
//! reported so that listeners can be told and storage can be written.
use vstd::prelude::*;
use crate::json::{Json, spec_str, spec_field};
use crate::state::{Node, State, spec_node_soul};
use crate::gun_core::{GunCore, next_id};
use crate::valid::{valid, spec_valid, spec_soul_ref, soul_key};
use crate::strmap::StrMap;
use crate::error::{GunError, GunResult};

verus! {

/// A chain: its soul or key, its parent chain, and its ID.
pub struct Chain {
    pub soul: Option<String>,
    pub key: Option<String>,
    pub parent: Option<Box<Chain>>,
    pub id: u64,
}

/// A node that an operation changed: when `notify` is set, listeners of the soul are
/// to be told; when `persist` is set, the node is to be written to storage.
pub struct NodeUpdate {
    pub soul: String,
    pub notify: bool,
    pub persist: bool,
}

/// The soul of the nearest chain, starting at `c` and going up through the parents, that has one.
pub open spec fn nearest_soul(c: Option<Box<Chain>>) -> Option<Seq<char>>
    decreases c,
{
    match c {
        None => None,
        Some(b) => match b.soul {
            Some(s) => Some(s@),
            None => nearest_soul(b.parent),
        },
    }
}

/// The chain `n` levels up from `c` (`c` itself for no levels).
pub open spec fn ancestor(c: Option<Box<Chain>>, n: nat) -> Option<Box<Chain>>
    decreases n,
{
    if n == 0 {
        c
    } else {
        match c {
            None => None,
            Some(b) => ancestor(b.parent, (n - 1) as nat),
        }
    }
}

/// The root chain: no soul, no key, no parent.
pub open spec fn is_root(c: Chain) -> bool {
    c.soul is None && c.key is None && c.parent is None
}

/// The topmost chain at or above `c`: the one with no parent (`None` for no chain).
pub open spec fn topmost(c: Option<Box<Chain>>) -> Option<Box<Chain>>
    decreases c,
{
    match c {
        None => None,
        Some(b) => match b.parent {
            None => Some(b),
            Some(_) => topmost(b.parent),
        },
    }
}

impl Chain {
    /// An exact copy of the chain and its parents.
    pub fn duplicate(&self) -> (c: Chain)
        ensures
            c == *self,
        decreases self,
    {
        let parent = match &self.parent {
            Some(p) => Some(Box::new(p.duplicate())),
            None => None,
        };
        Chain { soul: self.soul.clone(), key: self.key.clone(), parent, id: self.id }
    }

    /// The root chain: no soul, no key, no parent.
    pub fn new(core: &mut GunCore) -> (c: Chain)
        ensures
            c.soul is None && c.key is None && c.parent is None,
            c.id == old(core).id_counter,
            final(core).id_counter == next_id(old(core).id_counter),
            final(core).graph == old(core).graph,
            final(core).state == old(core).state,
            final(core).dup == old(core).dup,
    {
        let id = core.next_chain_id();
        Chain { soul: None, key: None, parent: None, id }
    }

    /// A chain for the node with the given soul.
    pub fn with_soul(core: &mut GunCore, soul: String, parent: Option<Chain>) -> (c: Chain)
        ensures
            c.soul == Some(soul) && c.key is None,
            c.parent == (match parent { Some(p) => Some(Box::new(p)), None => None }),
            c.id == old(core).id_counter,
            final(core).id_counter == next_id(old(core).id_counter),
            final(core).graph == old(core).graph,
            final(core).state == old(core).state,
            final(core).dup == old(core).dup,
    {
        let id = core.next_chain_id();
        let parent = match parent {
            Some(p) => Some(Box::new(p)),
            None => None,
        };
        Chain { soul: Some(soul), key: None, parent, id }
    }

    /// A chain for a key of the parent chain's node. It has no soul of its own.
    pub fn with_key(core: &mut GunCore, key: String, parent: Chain) -> (c: Chain)
        ensures
            c.soul is None && c.key == Some(key),
            c.parent == Some(Box::new(parent)),
            c.id == old(core).id_counter,
            final(core).id_counter == next_id(old(core).id_counter),
            final(core).graph == old(core).graph,
            final(core).state == old(core).state,
            final(core).dup == old(core).dup,
    {
        let id = core.next_chain_id();
        Chain { soul: None, key: Some(key), parent: Some(Box::new(parent)), id }
    }

    /// The chain for a key of this chain's node. Under the root chain a key names a node
    /// by its soul (`root.get(soul)`, as `gun.get(soul)`), so the chain has that soul.
    pub fn get(&self, core: &mut GunCore, key: &str) -> (c: Chain)
        ensures
            is_root(*self) ==> (c.soul matches Some(s) && s@ == key@),
            is_root(*self) ==> c.key is None,
            !is_root(*self) ==> c.soul is None,
            !is_root(*self) ==> (c.key matches Some(k) && k@ == key@),
            c.parent == Some(Box::new(*self)),
            c.id == old(core).id_counter,
            self.id < old(core).id_counter ==> c.id != self.id,
            final(core).id_counter == next_id(old(core).id_counter),
            final(core).graph == old(core).graph,
            final(core).state == old(core).state,
            final(core).dup == old(core).dup,
    {
        if self.soul.is_none() && self.key.is_none() && self.parent.is_none() {
            Chain::with_soul(core, key.to_owned(), Some(self.duplicate()))
        } else {
            Chain::with_key(core, key.to_owned(), self.duplicate())
        }
    }

    /// Go back up the chain: to the root (the topmost chain above this one) for `None`, one
    /// level for `Some(0)` or `Some(1)`, `n` levels for `Some(n)`; `None` where the chain
    /// does not reach that far.
    pub fn back(&self, amount: Option<usize>) -> (r: Option<&Chain>)
        ensures
            r == (match (match amount {
                None => topmost(self.parent),
                Some(n) => ancestor(self.parent, if n > 1 { (n - 1) as nat } else { 0 }),
            }) {
                Some(b) => Some(&*b),
                None => None,
            }),
    {
        match amount {
            None => {
                let mut current: Option<&Chain> = match &self.parent {
                    Some(p) => Some(&**p),
                    None => None,
                };
                loop
                    invariant
                        amount is None,
                        topmost(self.parent) == (match current { Some(c) => topmost(Some(Box::new(*c))), None => None }),
                    decreases current,
                {
                    match current {
                        Some(c) => {
                            match &c.parent {
                                Some(p) => {
                                    current = Some(&**p);
                                },
                                None => {
                                    return Some(c);
                                },
                            }
                        },
                        None => {
                            return None;
                        },
                    }
                }
            },
            Some(n) => {
                let levels: usize = if n > 1 { n - 1 } else { 0 };
                let mut current: Option<&Chain> = match &self.parent {
                    Some(p) => Some(&**p),
                    None => None,
                };
                let mut i: usize = 0;
                while i < levels
                    invariant
                        i <= levels,
                        current == (match ancestor(self.parent, i as nat) { Some(b) => Some(&*b), None => None }),
                    decreases levels - i,
                {
                    proof {
                        lemma_ancestor_step(self.parent, i as nat);
                    }
                    current = match current {
                        Some(c) => match &c.parent {
                            Some(p) => Some(&**p),
                            None => None,
                        },
                        None => None,
                    };
                    i = i + 1;
                }
                current
            },
        }
    }

    /// The soul of the nearest chain above this one that has a soul.
    pub fn parent_soul(&self) -> (r: Option<String>)
        ensures
            match r {
                Some(s) => nearest_soul(self.parent) == Some(s@),
                None => nearest_soul(self.parent) is None,
            },
    {
        let mut current: Option<&Chain> = match &self.parent {
            Some(p) => Some(&**p),
            None => None,
        };
        loop
            invariant
                nearest_soul(self.parent) == (match current { Some(c) => nearest_soul(Some(Box::new(*c))), None => None }),
            decreases current,
        {
            match current {
                Some(c) => {
                    match &c.soul {
                        Some(s) => {
                            return Some(s.clone());
                        },
                        None => {
                            proof {
                                assert(nearest_soul(Some(Box::new(*c))) == nearest_soul(c.parent));
                                if c.parent is Some {
                                    assert(Some(Box::new(*c.parent->Some_0)) == c.parent);
                                }
                            }
                            current = match &c.parent {
                                Some(p) => Some(&**p),
                                None => None,
                            };
                        },
                    }
                },
                None => {
                    return None;
                },
            }
        }
    }
}

proof fn lemma_ancestor_step(c: Option<Box<Chain>>, i: nat)
    ensures
        ancestor(c, i + 1) == (match ancestor(c, i) { Some(b) => b.parent, None => None }),
    decreases i,
{
    if i > 0 {
        match c {
            Some(b) => lemma_ancestor_step(b.parent, (i - 1) as nat),
            None => {},
        }
    } else {
        reveal_with_fuel(ancestor, 2);
    }
}

} // verus!

verus! {

/// The data of the node with the given soul, or none.
pub open spec fn base_data(g: Map<Seq<char>, Node>, soul: Seq<char>) -> Map<Seq<char>, Json> {
    if g.contains_key(soul) { g[soul].data@ } else { Map::empty() }
}

/// The states of the node with the given soul, or none.
pub open spec fn base_states(g: Map<Seq<char>, Node>, soul: Seq<char>) -> Map<Seq<char>, u64> {
    if g.contains_key(soul) { g[soul].states@ } else { Map::empty() }
}

/// The metadata of the node with the given soul, apart from the soul itself.
pub open spec fn base_meta_rest(g: Map<Seq<char>, Node>, soul: Seq<char>) -> Map<Seq<char>, Json> {
    if g.contains_key(soul) { g[soul].meta@.remove(soul_key()) } else { Map::empty() }
}

/// Every node but the one with the given soul is as it was, and that one is present.
pub open spec fn only_soul_changed(g_old: Map<Seq<char>, Node>, g_new: Map<Seq<char>, Node>, soul: Seq<char>) -> bool {
    &&& g_new.dom() == g_old.dom().insert(soul)
    &&& forall|s: Seq<char>| s != soul && #[trigger] g_old.contains_key(s) ==> g_new[s] == g_old[s]
}

/// The node `n` names its soul and keeps the rest of the metadata the node had.
pub open spec fn soul_written(g_old: Map<Seq<char>, Node>, n: Node, soul: Seq<char>) -> bool {
    spec_node_soul(n) == Some(soul) && n.meta@.remove(soul_key()) == base_meta_rest(g_old, soul)
}

/// The node with the given soul gained `key` with `value`, and, unless the key is `"_"`,
/// the state `state`; everything else is as it was (a node that was missing starts empty).
pub open spec fn key_written(
    g_old: Map<Seq<char>, Node>,
    g_new: Map<Seq<char>, Node>,
    soul: Seq<char>,
    key: Seq<char>,
    value: Json,
    state: u64,
) -> bool {
    &&& only_soul_changed(g_old, g_new, soul)
    &&& soul_written(g_old, g_new[soul], soul)
    &&& g_new[soul].data@ == base_data(g_old, soul).insert(key, value)
    &&& g_new[soul].states@ == (if key == seq!['_'] {
        base_states(g_old, soul)
    } else {
        base_states(g_old, soul).insert(key, state)
    })
}

/// Take the node with the given soul out of the graph, or a new node naming the soul.
pub(crate) fn take_or_new(core: &mut GunCore, soul: &str) -> (n: Node)
    ensures
        final(core).graph@ == old(core).graph@.remove(soul@),
        final(core).state == old(core).state,
        final(core).dup == old(core).dup,
        final(core).id_counter == old(core).id_counter,
        n.data@ == base_data(old(core).graph@, soul@),
        n.states@ == base_states(old(core).graph@, soul@),
        old(core).graph@.contains_key(soul@) ==> n == old(core).graph@[soul@],
        !old(core).graph@.contains_key(soul@) ==> n.meta@.remove(soul_key()) == Map::<Seq<char>, Json>::empty()
            && spec_node_soul(n) == Some(soul@),
{
    match core.graph.take(soul) {
        Some(n) => n,
        None => {
            let n = Node::with_soul(soul.to_owned());
            assert(n.meta@.remove(soul_key()) =~= Map::<Seq<char>, Json>::empty());
            n
        },
    }
}

/// Write `key` with `value` on the node with the given soul, with a new state.
pub(crate) fn write_key(core: &mut GunCore, soul: &str, key: &str, value: Json) -> (st: u64)
    ensures
        key_written(old(core).graph@, final(core).graph@, soul@, key@, value, st),
        final(core).state.last == Some(st),
        final(core).dup == old(core).dup,
        final(core).id_counter == old(core).id_counter,
{
    let ghost g0 = core.graph@;
    let mut node = take_or_new(core, soul);
    let st = core.state.next();
    proof { reveal_strlit("_"); assert("_"@ =~= seq!['_']); }
    node.data.insert(key.to_owned(), value);
    State::ify(&mut node, Some(key), Some(st), None, Some(soul));
    let _ = core.graph.put(soul, node);
    proof {
        assert(core.graph@.dom() =~= g0.dom().insert(soul@));
        let n = core.graph@[soul@];
        assert(n.meta@.remove(soul_key()) =~= base_meta_rest(g0, soul@));
    }
    st
}

} // verus!
