//! The in-memory graph of nodes, and conflict resolution by state (HAM).
//!
//! When two versions of a node meet, each key of the incoming version is taken
//! when its state is above the state the existing version records for it, or equal
//! to it with a JSON text that comes at or after the existing value's; otherwise the
//! existing value stays. Keys the incoming version does not carry
//! are kept as they are. A key with no recorded state is older than any key
//! with one.
use vstd::prelude::*;
use crate::json::Json;
use crate::strmap::{StrMap, entries_view, distinct_keys, lemma_entries_view_subrange_step};
use crate::state::{Node, State};
use crate::error::{GunError, GunResult};
use crate::valid::soul_key;

verus! {

/// The key under which a node's states travel in its metadata, `">"`.
pub open spec fn states_key() -> Seq<char> {
    seq!['>']
}

/// The state a table records for a key, `None` when it records none.
pub open spec fn state_at(states: Map<Seq<char>, u64>, k: Seq<char>) -> Option<u64> {
    if states.contains_key(k) { Some(states[k]) } else { None }
}

/// `a` comes at or after `b` in the order of texts by character codes, from position `i` on.
pub open spec fn text_ge_from(a: Seq<char>, b: Seq<char>, i: int) -> bool
    decreases a.len() - i,
{
    if i < 0 || i >= b.len() {
        true
    } else if i >= a.len() {
        false
    } else if a[i] != b[i] {
        (a[i] as u32) > (b[i] as u32)
    } else {
        text_ge_from(a, b, i + 1)
    }
}

/// `a` comes at or after `b` in the order of texts by character codes.
pub open spec fn text_ge(a: Seq<char>, b: Seq<char>) -> bool {
    text_ge_from(a, b, 0)
}

/// The incoming version of key `k` wins over the existing one: its state is higher, where an
/// absent state is below every recorded one; on equal states (or none on both sides) the
/// value whose compact JSON text comes later wins (the incoming one on equal texts), so that
/// every replica settles on the same value.
pub open spec fn incoming_wins(
    ex_data: Map<Seq<char>, Json>,
    ex_states: Map<Seq<char>, u64>,
    in_data: Map<Seq<char>, Json>,
    in_states: Map<Seq<char>, u64>,
    k: Seq<char>,
) -> bool {
    match state_at(ex_states, k) {
        None => match state_at(in_states, k) {
            Some(_) => true,
            None => !ex_data.contains_key(k)
                || text_ge(crate::json::json_text(in_data[k]), crate::json::json_text(ex_data[k])),
        },
        Some(y) => match state_at(in_states, k) {
            None => false,
            Some(x) => x > y || (x == y && (!ex_data.contains_key(k)
                || text_ge(crate::json::json_text(in_data[k]), crate::json::json_text(ex_data[k])))),
        },
    }
}

/// The data of a merged node.
pub open spec fn ham_data(
    ex_data: Map<Seq<char>, Json>,
    ex_states: Map<Seq<char>, u64>,
    in_data: Map<Seq<char>, Json>,
    in_states: Map<Seq<char>, u64>,
) -> Map<Seq<char>, Json> {
    Map::new(
        |k: Seq<char>| ex_data.contains_key(k) || (in_data.contains_key(k) && incoming_wins(ex_data, ex_states, in_data, in_states, k)),
        |k: Seq<char>| if in_data.contains_key(k) && incoming_wins(ex_data, ex_states, in_data, in_states, k) { in_data[k] } else { ex_data[k] },
    )
}

/// The states of a merged node: a key the incoming version wins takes the incoming state, when it has one.
pub open spec fn ham_states(
    ex_data: Map<Seq<char>, Json>,
    ex_states: Map<Seq<char>, u64>,
    in_data: Map<Seq<char>, Json>,
    in_states: Map<Seq<char>, u64>,
) -> Map<Seq<char>, u64> {
    Map::new(
        |k: Seq<char>| ex_states.contains_key(k) || (in_data.contains_key(k) && incoming_wins(ex_data, ex_states, in_data, in_states, k)
            && in_states.contains_key(k)),
        |k: Seq<char>| if in_data.contains_key(k) && incoming_wins(ex_data, ex_states, in_data, in_states, k) && in_states.contains_key(k) {
            in_states[k]
        } else {
            ex_states[k]
        },
    )
}

/// The metadata of a merged node: the incoming metadata, but for the soul and the states, is laid over the existing.
pub open spec fn ham_meta(ex_meta: Map<Seq<char>, Json>, in_meta: Map<Seq<char>, Json>) -> Map<Seq<char>, Json> {
    Map::new(
        |k: Seq<char>| ex_meta.contains_key(k) || (in_meta.contains_key(k) && k != states_key() && k != soul_key()),
        |k: Seq<char>| if in_meta.contains_key(k) && k != states_key() && k != soul_key() { in_meta[k] } else { ex_meta[k] },
    )
}

/// `existing` and `merged` stand in the relation that merging `incoming` into `existing` gives `merged`.
pub open spec fn is_ham_merge(existing: Node, incoming: Node, merged: Node) -> bool {
    &&& merged.data@ == ham_data(existing.data@, existing.states@, incoming.data@, incoming.states@)
    &&& merged.states@ == ham_states(existing.data@, existing.states@, incoming.data@, incoming.states@)
    &&& merged.meta@ == ham_meta(existing.meta@, incoming.meta@)
}

/// Whether `a` comes at or after `b` in the order of texts by character codes.
pub fn text_at_least(a: &str, b: &str) -> (r: bool)
    ensures
        r == text_ge(a@, b@),
{
    let na = a.unicode_len();
    let nb = b.unicode_len();
    let mut i: usize = 0;
    while i < nb
        invariant
            na == a@.len(),
            nb == b@.len(),
            i <= nb,
            i <= na,
            text_ge_from(a@, b@, 0) == text_ge_from(a@, b@, i as int),
        decreases nb - i,
    {
        if i >= na {
            return false;
        }
        let ca = a.get_char(i);
        let cb = b.get_char(i);
        if ca != cb {
            return (ca as u32) > (cb as u32);
        }
        i = i + 1;
    }
    true
}

fn copy_state(s: Option<&u64>) -> (r: Option<u64>)
    ensures
        r == (match s { Some(x) => Some(*x), None => None::<u64> }),
{
    match s {
        Some(x) => Some(*x),
        None => None,
    }
}

/// Merge two versions of a node by the states of their keys.
pub fn merge_nodes(existing: Node, incoming: Node) -> (merged: Node)
    ensures
        is_ham_merge(existing, incoming, merged),
{
    let ghost ed = existing.data@;
    let ghost es = existing.states@;
    let ghost em = existing.meta@;
    let ghost idm = incoming.data@;
    let ghost ism = incoming.states@;
    let ghost imm = incoming.meta@;
    let Node { data: in_data, meta: in_meta, states: in_states } = incoming;
    let mut merged = existing;
    proof {
        assert(ham_data(ed, es, Map::empty(), ism) =~= ed);
        assert(ham_states(ed, es, Map::empty(), ism) =~= es);
        assert(ham_meta(em, Map::empty()) =~= em);
    }
    let mut entries = in_data.into_entries();
    let ghost orig = entries@;
    let n = entries.len();
    proof {
        assert(orig.subrange(n as int, n as int) =~= Seq::<(String, Json)>::empty());
        assert(entries_view(Seq::<(String, Json)>::empty()) =~= Map::<Seq<char>, Json>::empty());
    }
    while entries.len() > 0
        invariant
            orig.len() == n,
            entries.len() <= n,
            entries@ == orig.subrange(0, entries.len() as int),
            distinct_keys(orig),
            entries_view(orig) == idm,
            in_states@ == ism,
            merged.data@ == ham_data(ed, es, entries_view(orig.subrange(entries.len() as int, n as int)), ism),
            merged.states@ == ham_states(ed, es, entries_view(orig.subrange(entries.len() as int, n as int)), ism),
            merged.meta@ == em,
        decreases entries.len(),
    {
        let ghost i = entries.len() as int;
        let ghost d = entries_view(orig.subrange(i, n as int));
        proof {
            lemma_entries_view_subrange_step(orig, i, n as int);
        }
        let (k, v) = entries.pop().unwrap();
        proof {
            assert(orig[i - 1] == (k, v));
        }
        let ex_state = copy_state(merged.states.get(k.as_str()));
        let in_state = copy_state(in_states.get(k.as_str()));
        proof {
            assert(ex_state == state_at(es, k@));
            assert(merged.data@.contains_key(k@) == ed.contains_key(k@));
            assert(ed.contains_key(k@) ==> merged.data@[k@] == ed[k@]);
        }
        let wins = match ex_state {
            None => match in_state {
                Some(_) => true,
                None => match merged.data.get(k.as_str()) {
                    None => true,
                    Some(ev) => {
                        let ti = crate::json::to_json_string(&v);
                        let te = crate::json::to_json_string(ev);
                        text_at_least(ti.as_str(), te.as_str())
                    },
                },
            },
            Some(y) => match in_state {
                None => false,
                Some(x) => {
                    if x > y {
                        true
                    } else if x < y {
                        false
                    } else {
                        match merged.data.get(k.as_str()) {
                            None => true,
                            Some(ev) => {
                                let ti = crate::json::to_json_string(&v);
                                let te = crate::json::to_json_string(ev);
                                text_at_least(ti.as_str(), te.as_str())
                            },
                        }
                    }
                },
            },
        };
        if wins {
            merged.data.insert(k.clone(), v);
            match in_state {
                Some(st) => {
                    merged.states.insert(k, st);
                },
                None => {},
            }
        }
        proof {
            let d2 = d.insert(k@, v);
            assert(entries_view(orig.subrange(i - 1, n as int)) == d2);
            assert(merged.data@ =~= ham_data(ed, es, d2, ism));
            assert(merged.states@ =~= ham_states(ed, es, d2, ism));
            assert(entries@ =~= orig.subrange(0, i - 1));
        }
    }
    proof {
        assert(orig.subrange(0, n as int) =~= orig);
    }
    let mut metas = in_meta.into_entries();
    let ghost morig = metas@;
    let mn = metas.len();
    proof {
        assert(morig.subrange(mn as int, mn as int) =~= Seq::<(String, Json)>::empty());
        assert(entries_view(Seq::<(String, Json)>::empty()) =~= Map::<Seq<char>, Json>::empty());
        reveal_strlit(">");
        reveal_strlit("#");
        assert(">"@ =~= states_key());
        assert("#"@ =~= soul_key());
    }
    while metas.len() > 0
        invariant
            morig.len() == mn,
            metas.len() <= mn,
            metas@ == morig.subrange(0, metas.len() as int),
            distinct_keys(morig),
            entries_view(morig) == imm,
            ">"@ == states_key(),
            "#"@ == soul_key(),
            merged.data@ == ham_data(ed, es, idm, ism),
            merged.states@ == ham_states(ed, es, idm, ism),
            merged.meta@ == ham_meta(em, entries_view(morig.subrange(metas.len() as int, mn as int))),
        decreases metas.len(),
    {
        let ghost i = metas.len() as int;
        let ghost d = entries_view(morig.subrange(i, mn as int));
        proof {
            lemma_entries_view_subrange_step(morig, i, mn as int);
        }
        let (k, v) = metas.pop().unwrap();
        proof {
            assert(morig[i - 1] == (k, v));
        }
        let is_states = crate::strmap::str_eq(k.as_str(), ">");
        let is_soul = crate::strmap::str_eq(k.as_str(), "#");
        if !is_states && !is_soul {
            merged.meta.insert(k, v);
        }
        proof {
            let d2 = d.insert(k@, v);
            assert(entries_view(morig.subrange(i - 1, mn as int)) == d2);
            assert(merged.meta@ =~= ham_meta(em, d2));
            assert(metas@ =~= morig.subrange(0, i - 1));
        }
    }
    proof {
        assert(morig.subrange(0, mn as int) =~= morig);
    }
    merged
}

} // verus!

verus! {

/// Every node of the graph, by soul.
pub struct Graph {
    nodes: StrMap<Node>,
}

impl View for Graph {
    type V = Map<Seq<char>, Node>;

    closed spec fn view(&self) -> Map<Seq<char>, Node> {
        self.nodes@
    }
}

impl Graph {
    /// An empty graph.
    pub fn new() -> (g: Graph)
        ensures
            g@ == Map::<Seq<char>, Node>::empty(),
    {
        Graph { nodes: StrMap::new() }
    }

    /// The node with the given soul.
    pub fn get(&self, soul: &str) -> (r: Option<&Node>)
        ensures
            match r {
                Some(n) => self@.contains_key(soul@) && *n == self@[soul@],
                None => !self@.contains_key(soul@),
            },
    {
        self.nodes.get(soul)
    }

    /// Store a node under its soul, replacing any node stored there.
    pub fn put(&mut self, soul: &str, node: Node) -> (r: GunResult<()>)
        ensures
            r is Ok,
            final(self)@ == old(self)@.insert(soul@, node),
    {
        self.nodes.insert(soul.to_owned(), node);
        Ok(())
    }

    /// Whether a node with the given soul is stored.
    pub fn has(&self, soul: &str) -> (b: bool)
        ensures
            b == self@.contains_key(soul@),
    {
        self.nodes.contains_key(soul)
    }

    /// Take the node with the given soul out of the graph.
    pub fn take(&mut self, soul: &str) -> (r: Option<Node>)
        ensures
            final(self)@ == old(self)@.remove(soul@),
            match r {
                Some(n) => old(self)@.contains_key(soul@) && n == old(self)@[soul@],
                None => !old(self)@.contains_key(soul@),
            },
    {
        self.nodes.remove(soul)
    }

    /// All nodes of the graph, by soul.
    pub fn all_nodes(&self) -> (m: &StrMap<Node>)
        ensures
            m@ == self@,
    {
        &self.nodes
    }

    /// Merge a node into the graph by the states of its keys.
    ///
    /// A soul that is not stored yet takes the incoming node as it is. Otherwise the
    /// stored node and the incoming one are merged key by key (see `merge_nodes`),
    /// after the state clock has handed out a state.
    pub fn merge(&mut self, soul: &str, incoming: Node, clock: &mut State) -> (r: GunResult<&Node>)
        ensures
            final(self)@.dom() == old(self)@.dom().insert(soul@),
            forall|k: Seq<char>| k != soul@ && #[trigger] old(self)@.contains_key(k) ==> final(self)@[k] == old(self)@[k],
            old(self)@.contains_key(soul@) ==> is_ham_merge(old(self)@[soul@], incoming, final(self)@[soul@]),
            !old(self)@.contains_key(soul@) ==> final(self)@[soul@] == incoming,
            r matches Ok(n) && *n == final(self)@[soul@],
    {
        match self.nodes.remove(soul) {
            Some(existing) => {
                let _current_state = clock.next();
                let merged = merge_nodes(existing, incoming);
                self.nodes.insert(soul.to_owned(), merged);
            },
            None => {
                self.nodes.insert(soul.to_owned(), incoming);
            },
        }
        proof {
            assert(self@.dom() =~= old(self)@.dom().insert(soul@));
        }
        match self.nodes.get(soul) {
            Some(n) => Ok(n),
            None => Err(GunError::NodeNotFound),
        }
    }
}

} // verus!

verus! {

/// Merging a node into itself changes nothing.
pub proof fn lemma_merge_idempotent(data: Map<Seq<char>, Json>, states: Map<Seq<char>, u64>, meta: Map<Seq<char>, Json>)
    ensures
        ham_data(data, states, data, states) == data,
        ham_states(data, states, data, states) == states,
        ham_meta(meta, meta) == meta,
{
    assert(ham_data(data, states, data, states) =~= data);
    assert(ham_states(data, states, data, states) =~= states);
    assert(ham_meta(meta, meta) =~= meta);
}

/// The higher state wins: an incoming key whose state is above the existing one replaces the
/// existing value and state; one whose state is lower leaves them as they were.
pub proof fn lemma_higher_state_wins(
    ex_data: Map<Seq<char>, Json>,
    ex_states: Map<Seq<char>, u64>,
    in_data: Map<Seq<char>, Json>,
    in_states: Map<Seq<char>, u64>,
    k: Seq<char>,
)
    requires
        in_data.contains_key(k),
        in_states.contains_key(k),
        ex_states.contains_key(k),
    ensures
        in_states[k] > ex_states[k] ==> {
            &&& ham_data(ex_data, ex_states, in_data, in_states).contains_key(k)
            &&& ham_data(ex_data, ex_states, in_data, in_states)[k] == in_data[k]
            &&& ham_states(ex_data, ex_states, in_data, in_states)[k] == in_states[k]
        },
        in_states[k] < ex_states[k] ==> {
            &&& ham_data(ex_data, ex_states, in_data, in_states).contains_key(k) == ex_data.contains_key(k)
            &&& ex_data.contains_key(k) ==> ham_data(ex_data, ex_states, in_data, in_states)[k] == ex_data[k]
            &&& ham_states(ex_data, ex_states, in_data, in_states)[k] == ex_states[k]
        },
{
}

/// Keys that the incoming node does not carry keep their value and state.
pub proof fn lemma_untouched_keys_kept(
    ex_data: Map<Seq<char>, Json>,
    ex_states: Map<Seq<char>, u64>,
    in_data: Map<Seq<char>, Json>,
    in_states: Map<Seq<char>, u64>,
    k: Seq<char>,
)
    requires
        !in_data.contains_key(k),
    ensures
        ham_data(ex_data, ex_states, in_data, in_states).contains_key(k) == ex_data.contains_key(k),
        ex_data.contains_key(k) ==> ham_data(ex_data, ex_states, in_data, in_states)[k] == ex_data[k],
        state_at(ham_states(ex_data, ex_states, in_data, in_states), k) == state_at(ex_states, k),
{
}

/// A merge never lowers a recorded state.
pub proof fn lemma_states_never_decrease(
    ex_data: Map<Seq<char>, Json>,
    ex_states: Map<Seq<char>, u64>,
    in_data: Map<Seq<char>, Json>,
    in_states: Map<Seq<char>, u64>,
    k: Seq<char>,
)
    requires
        ex_states.contains_key(k),
    ensures
        ham_states(ex_data, ex_states, in_data, in_states).contains_key(k),
        ham_states(ex_data, ex_states, in_data, in_states)[k] >= ex_states[k],
{
}

/// Merging the same update a second time changes nothing more.
pub proof fn lemma_merge_twice_same_as_once(
    ex_data: Map<Seq<char>, Json>,
    ex_states: Map<Seq<char>, u64>,
    in_data: Map<Seq<char>, Json>,
    in_states: Map<Seq<char>, u64>,
)
    ensures
        ham_data(ham_data(ex_data, ex_states, in_data, in_states), ham_states(ex_data, ex_states, in_data, in_states), in_data, in_states)
            == ham_data(ex_data, ex_states, in_data, in_states),
        ham_states(ham_data(ex_data, ex_states, in_data, in_states), ham_states(ex_data, ex_states, in_data, in_states), in_data, in_states)
            == ham_states(ex_data, ex_states, in_data, in_states),
{
    let d1 = ham_data(ex_data, ex_states, in_data, in_states);
    let s1 = ham_states(ex_data, ex_states, in_data, in_states);
    assert forall|k: Seq<char>| in_data.contains_key(k) implies incoming_wins(d1, s1, in_data, in_states, k)
        == incoming_wins(ex_data, ex_states, in_data, in_states, k) by {
        lemma_text_ge_refl(crate::json::json_text(in_data[k]), 0);
    }
    assert(ham_data(d1, s1, in_data, in_states) =~= d1);
    assert(ham_states(d1, s1, in_data, in_states) =~= s1);
}

/// A text comes at or after itself.
pub proof fn lemma_text_ge_refl(a: Seq<char>, i: int)
    requires
        0 <= i,
    ensures
        text_ge_from(a, a, i),
    decreases a.len() - i,
{
    if i < a.len() {
        lemma_text_ge_refl(a, i + 1);
    }
}

/// Of two texts one comes at or after the other, and both do only when they are equal.
pub proof fn lemma_text_ge_total(a: Seq<char>, b: Seq<char>, i: int)
    requires
        0 <= i <= a.len(),
        i <= b.len(),
    ensures
        text_ge_from(a, b, i) || text_ge_from(b, a, i),
        text_ge_from(a, b, i) && text_ge_from(b, a, i) ==> a.len() == b.len()
            && forall|j: int| i <= j < a.len() ==> #[trigger] a[j] == b[j],
    decreases a.len() - i,
{
    if i < a.len() && i < b.len() {
        if a[i] == b[i] {
            lemma_text_ge_total(a, b, i + 1);
        } else {
            vstd::utf8::char_u32_cast(a[i], a[i] as u32);
            vstd::utf8::char_u32_cast(b[i], b[i] as u32);
            assert((a[i] as u32) != (b[i] as u32));
        }
    }
}

/// Two replicas that each merge the other's version of a node end with the same keys, the same
/// states and, under every key, values with the same JSON text; where values with the same
/// text are the same value (as they are for JSON texts of well-formed numbers), with the same
/// data. Each version records states only for keys it holds.
pub proof fn lemma_merge_converges(
    a_data: Map<Seq<char>, Json>,
    a_states: Map<Seq<char>, u64>,
    b_data: Map<Seq<char>, Json>,
    b_states: Map<Seq<char>, u64>,
)
    requires
        a_states.dom().subset_of(a_data.dom()),
        b_states.dom().subset_of(b_data.dom()),
    ensures
        ham_data(a_data, a_states, b_data, b_states).dom() == ham_data(b_data, b_states, a_data, a_states).dom(),
        forall|k: Seq<char>| #[trigger] ham_data(a_data, a_states, b_data, b_states).contains_key(k)
            ==> crate::json::json_text(ham_data(a_data, a_states, b_data, b_states)[k])
                == crate::json::json_text(ham_data(b_data, b_states, a_data, a_states)[k]),
        (forall|k: Seq<char>| #[trigger] a_data.contains_key(k) && b_data.contains_key(k)
            && crate::json::json_text(a_data[k]) == crate::json::json_text(b_data[k]) ==> a_data[k] == b_data[k])
            ==> ham_data(a_data, a_states, b_data, b_states) == ham_data(b_data, b_states, a_data, a_states),
        ham_states(a_data, a_states, b_data, b_states) == ham_states(b_data, b_states, a_data, a_states),
{
    let ab = ham_data(a_data, a_states, b_data, b_states);
    let ba = ham_data(b_data, b_states, a_data, a_states);
    assert forall|k: Seq<char>| #[trigger] a_data.contains_key(k) && b_data.contains_key(k) implies
        (text_ge(crate::json::json_text(a_data[k]), crate::json::json_text(b_data[k]))
            || text_ge(crate::json::json_text(b_data[k]), crate::json::json_text(a_data[k])))
        && (text_ge(crate::json::json_text(a_data[k]), crate::json::json_text(b_data[k]))
            && text_ge(crate::json::json_text(b_data[k]), crate::json::json_text(a_data[k]))
            ==> crate::json::json_text(a_data[k]) == crate::json::json_text(b_data[k])) by {
        let ta = crate::json::json_text(a_data[k]);
        let tb = crate::json::json_text(b_data[k]);
        lemma_text_ge_total(ta, tb, 0);
        if text_ge(ta, tb) && text_ge(tb, ta) {
            assert(ta =~= tb);
        }
    }
    assert forall|k: Seq<char>| #![auto] a_states.contains_key(k) ==> a_data.contains_key(k) by {
        if a_states.contains_key(k) { assert(a_states.dom().contains(k)); }
    }
    assert forall|k: Seq<char>| #![auto] b_states.contains_key(k) ==> b_data.contains_key(k) by {
        if b_states.contains_key(k) { assert(b_states.dom().contains(k)); }
    }
    assert(ab.dom() =~= ba.dom());
    if forall|k: Seq<char>| #[trigger] a_data.contains_key(k) && b_data.contains_key(k)
        && crate::json::json_text(a_data[k]) == crate::json::json_text(b_data[k]) ==> a_data[k] == b_data[k] {
        assert(ab =~= ba);
    }
    assert(ham_states(a_data, a_states, b_data, b_states) =~= ham_states(b_data, b_states, a_data, a_states));
}

} // verus!

verus! {

impl Default for Graph {
    /// An empty graph, as `Graph::new` gives.
    fn default() -> (g: Graph)
        ensures
            g@ == Map::<Seq<char>, Node>::empty(),
    {
        Graph::new()
    }
}

} // verus!
